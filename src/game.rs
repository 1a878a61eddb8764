use vstd::prelude::*;

use crate::config::{MAX_NUMBER, MIN_NUMBER};
use crate::lines::{RecordingOutput, ScriptedInput};
use crate::validate::{decimal, digit_char, guess_of, parse_guess};

verus! {

/// Written once when a game starts.
pub const GAME_START: &'static str = "1から100の数字を当ててみぃや！";

/// Written once after the start banner, asking for guesses.
pub const PROMPT: &'static str = "ほな、予想入れてみて！";

/// The guess is below the secret.
pub const TOO_SMALL: &'static str = "もっと大きいで！";

/// The guess is above the secret.
pub const TOO_BIG: &'static str = "もっと小さいで！";

/// The guess is the secret.
pub const CORRECT: &'static str = "正解や！やったな！";

/// A line that is no guess.
pub const INVALID_INPUT: &'static str = "ちゃんとした数字入れてや！";

/// Text before the echoed guess.
pub const GUESS_HEAD: &'static str = "あんたの予想は ";

/// Text after the echoed guess.
pub const GUESS_TAIL: &'static str = " やな！";

/// How a guess compares with the secret.
#[derive(Clone, Copy, Debug, PartialEq, Eq, Structural)]
pub enum Hint {
    TooLow,
    TooHigh,
    Correct,
}

/// How a game ended without a fault.
#[derive(Clone, Copy, Debug, PartialEq, Eq, Structural)]
pub enum GameOutcome {
    /// A guess matched the secret.
    Solved,
    /// The input ended first.
    Abandoned,
}

/// A fault of the line source or of the sink, which ends the game.
#[derive(Clone, Copy, Debug, PartialEq, Eq, Structural)]
pub enum IoFailure {
    InputFault,
    OutputFault,
}

pub open spec fn hint_of(guess: u32, secret: u32) -> Hint {
    if guess < secret {
        Hint::TooLow
    } else if guess > secret {
        Hint::TooHigh
    } else {
        Hint::Correct
    }
}

/// Compares a guess with the secret.
pub fn get_hint(guess: u32, secret: u32) -> (r: Hint)
    ensures
        r == hint_of(guess, secret),
{
    if guess < secret {
        Hint::TooLow
    } else if guess > secret {
        Hint::TooHigh
    } else {
        Hint::Correct
    }
}

pub open spec fn hint_text(h: Hint) -> Seq<char> {
    match h {
        Hint::TooLow => TOO_SMALL@,
        Hint::TooHigh => TOO_BIG@,
        Hint::Correct => CORRECT@,
    }
}

/// The message that tells the player a hint.
pub fn format_hint_message(hint: Hint) -> (r: &'static str)
    ensures
        r@ == hint_text(hint),
{
    match hint {
        Hint::TooLow => TOO_SMALL,
        Hint::TooHigh => TOO_BIG,
        Hint::Correct => CORRECT,
    }
}

/// The line that echoes an accepted guess `n`.
pub open spec fn guessed_text(n: nat) -> Seq<char> {
    GUESS_HEAD@ + decimal(n) + GUESS_TAIL@
}

fn digit_str(d: u32) -> (r: &'static str)
    requires
        d < 10,
    ensures
        r@ == seq![digit_char(d as nat)],
{
    if d == 0 {
        proof {
            reveal_strlit("0");
        }
        "0"
    } else if d == 1 {
        proof {
            reveal_strlit("1");
        }
        "1"
    } else if d == 2 {
        proof {
            reveal_strlit("2");
        }
        "2"
    } else if d == 3 {
        proof {
            reveal_strlit("3");
        }
        "3"
    } else if d == 4 {
        proof {
            reveal_strlit("4");
        }
        "4"
    } else if d == 5 {
        proof {
            reveal_strlit("5");
        }
        "5"
    } else if d == 6 {
        proof {
            reveal_strlit("6");
        }
        "6"
    } else if d == 7 {
        proof {
            reveal_strlit("7");
        }
        "7"
    } else if d == 8 {
        proof {
            reveal_strlit("8");
        }
        "8"
    } else {
        proof {
            reveal_strlit("9");
        }
        "9"
    }
}

/// The decimal text of `n`.
pub fn decimal_string(n: u32) -> (r: String)
    ensures
        r@ == decimal(n as nat),
    decreases n,
{
    if n < 10 {
        String::from_str(digit_str(n))
    } else {
        let mut s = decimal_string(n / 10);
        s.append(digit_str(n % 10));
        s
    }
}

/// The line that echoes an accepted guess.
pub fn guessed_message(n: u32) -> (r: String)
    ensures
        r@ == guessed_text(n as nat),
{
    let mut s = String::from_str(GUESS_HEAD);
    let digits = decimal_string(n);
    s.append(digits.as_str());
    s.append(GUESS_TAIL);
    s
}

/// The lines written when a game starts.
pub open spec fn opening_lines() -> Seq<Seq<char>> {
    seq![GAME_START@, PROMPT@]
}

/// The lines written in answer to one line of input.
pub open spec fn reply_lines(secret: u32, line: Seq<char>) -> Seq<Seq<char>> {
    match guess_of(line) {
        Some(g) => seq![guessed_text(g as nat), hint_text(hint_of(g, secret))],
        None => seq![INVALID_INPUT@],
    }
}

/// Whether a line of input guesses the secret.
pub open spec fn solves(secret: u32, line: Seq<char>) -> bool {
    guess_of(line) == Some(secret)
}

/// The lines written in answer to `lines`, up to the one that solves the game.
pub open spec fn session_lines(secret: u32, lines: Seq<Seq<char>>) -> Seq<Seq<char>>
    decreases lines.len(),
{
    if lines.len() == 0 {
        seq![]
    } else if solves(secret, lines[0]) {
        reply_lines(secret, lines[0])
    } else {
        reply_lines(secret, lines[0]) + session_lines(secret, lines.drop_first())
    }
}

/// How a game on `lines` ends when nothing faults.
pub open spec fn session_outcome(secret: u32, lines: Seq<Seq<char>>) -> GameOutcome
    decreases lines.len(),
{
    if lines.len() == 0 {
        GameOutcome::Abandoned
    } else if solves(secret, lines[0]) {
        GameOutcome::Solved
    } else {
        session_outcome(secret, lines.drop_first())
    }
}

/// How many of `lines` a game reads before it ends, when nothing faults.
pub open spec fn lines_used(secret: u32, lines: Seq<Seq<char>>) -> nat
    decreases lines.len(),
{
    if lines.len() == 0 {
        0
    } else if solves(secret, lines[0]) {
        1
    } else {
        1 + lines_used(secret, lines.drop_first())
    }
}

/// Every line that a whole game on `lines` writes, when nothing faults.
pub open spec fn game_lines(secret: u32, lines: Seq<Seq<char>>) -> Seq<Seq<char>> {
    opening_lines() + session_lines(secret, lines)
}

/// The lines to write when a game starts.
pub fn opening() -> (r: Vec<String>)
    ensures
        r.deep_view() == opening_lines(),
{
    let mut v: Vec<String> = Vec::new();
    v.push(String::from_str(GAME_START));
    v.push(String::from_str(PROMPT));
    assert(v.deep_view() =~= opening_lines());
    v
}

/// Answers one line of input: the lines to write, and whether the game is solved.
pub fn respond(secret: u32, line: &str) -> (r: (Vec<String>, bool))
    ensures
        r.0.deep_view() == reply_lines(secret, line@),
        r.1 == solves(secret, line@),
{
    let mut v: Vec<String> = Vec::new();
    match parse_guess(line) {
        Some(g) => {
            v.push(guessed_message(g));
            let hint = get_hint(g, secret);
            v.push(String::from_str(format_hint_message(hint)));
            assert(v.deep_view() =~= reply_lines(secret, line@));
            (v, g == secret)
        },
        None => {
            v.push(String::from_str(INVALID_INPUT));
            assert(v.deep_view() =~= reply_lines(secret, line@));
            (v, false)
        },
    }
}

/// What a game on `lines` returns when the sink takes all it writes: the
/// outcome, or `InputFault` where the input faults before the game is solved.
pub open spec fn run_result(secret: u32, lines: Seq<Seq<char>>, faults_at_end: bool) -> Result<
    GameOutcome,
    IoFailure,
> {
    if session_outcome(secret, lines) == GameOutcome::Abandoned && faults_at_end {
        Err(IoFailure::InputFault)
    } else {
        Ok(session_outcome(secret, lines))
    }
}

/// A game with `secret` took the source from `r0` to `r1` and the sink from
/// `w0` to `w1`, and returned `res`. The sink holds each line the game writes,
/// in order, up to the first write that faults; a write fault ends the game with
/// `OutputFault`, and nothing is written after it.
pub open spec fn game_run(
    secret: u32,
    r0: ScriptedInput,
    w0: RecordingOutput,
    r1: ScriptedInput,
    w1: RecordingOutput,
    res: Result<GameOutcome, IoFailure>,
) -> bool {
    let all = game_lines(secret, r0.pending());
    &&& w1.limit() == w0.limit()
    &&& r1.faults_at_end() == r0.faults_at_end()
    &&& if w0.accepts(all.len()) {
        &&& w1.written() == w0.written() + all
        &&& res == run_result(secret, r0.pending(), r0.faults_at_end())
        &&& res is Ok ==> r1.pending() == r0.pending().skip(lines_used(secret, r0.pending()) as int)
    } else {
        &&& w1.written() == w0.written() + all.take(w0.room() as int)
        &&& res == Err::<GameOutcome, IoFailure>(IoFailure::OutputFault)
    }
}

fn write_lines(writer: &mut RecordingOutput, lines: &Vec<String>) -> (r: Result<(), IoFailure>)
    ensures
        old(writer).accepts(lines.len() as nat) ==> r is Ok && final(writer).written() == old(
            writer,
        ).written() + lines.deep_view(),
        !old(writer).accepts(lines.len() as nat) ==> r == Err::<(), IoFailure>(
            IoFailure::OutputFault,
        ) && final(writer).written() == old(writer).written() + lines.deep_view().take(
            old(writer).room() as int,
        ),
        final(writer).limit() == old(writer).limit(),
{
    proof {
        writer.lemma_within_limit();
    }
    let mut i: usize = 0;
    while i < lines.len()
        invariant
            i <= lines.len(),
            writer.limit() == old(writer).limit(),
            writer.written() == old(writer).written() + lines.deep_view().take(i as int),
            old(writer).accepts(i as nat),
        decreases lines.len() - i,
    {
        let res = writer.write_line(lines[i].as_str());
        if res.is_err() {
            assert(old(writer).room() == i);
            return Err(IoFailure::OutputFault);
        }
        assert(lines.deep_view().take(i + 1) =~= lines.deep_view().take(i as int).push(
            lines[i as int]@,
        ));
        assert(writer.written() =~= old(writer).written() + lines.deep_view().take(i + 1));
        i = i + 1;
    }
    assert(lines.deep_view().take(i as int) =~= lines.deep_view());
    Ok(())
}

/// Plays one game against `secret`: writes the start banner and the prompt,
/// then answers each line read until a guess matches or the input ends. A read
/// or write fault ends the game at once with `InputFault` or `OutputFault`.
pub fn run_game_with_secret(
    reader: &mut ScriptedInput,
    writer: &mut RecordingOutput,
    secret: u32,
) -> (r: Result<GameOutcome, IoFailure>)
    ensures
        game_run(secret, *old(reader), *old(writer), *final(reader), *final(writer), r),
{
    let ghost r0 = *reader;
    let ghost w0 = *writer;
    let ghost p0 = reader.pending();
    let ghost all = game_lines(secret, p0);
    let open = opening();
    let first = write_lines(writer, &open);
    if first.is_err() {
        assert(all.take(w0.room() as int) =~= opening_lines().take(w0.room() as int));
        return Err(IoFailure::OutputFault);
    }
    let ghost mut used: nat = 0;
    assert(p0.skip(0) =~= p0);
    loop
        invariant
            reader.faults_at_end() == r0.faults_at_end(),
            writer.limit() == w0.limit(),
            w0.accepts(2),
            p0.skip(used as int) == reader.pending(),
            used <= p0.len(),
            writer.written() + session_lines(secret, reader.pending()) == w0.written() + all,
            writer.written().len() >= w0.written().len() + 2,
            session_outcome(secret, reader.pending()) == session_outcome(secret, p0),
            lines_used(secret, p0) == used + lines_used(secret, reader.pending()),
            writer.accepts(0),
            all == game_lines(secret, p0),
            p0 == r0.pending(),
            r0 == *old(reader),
            w0 == *old(writer),
        decreases reader.pending().len(),
    {
        let ghost wr = writer.written();
        let ghost p = reader.pending();
        let read = reader.read_line();
        match read {
            Err(e) => {
                assert(session_lines(secret, p) =~= Seq::<Seq<char>>::empty());
                assert(wr =~= w0.written() + all);
                return Err(e);
            },
            Ok(None) => {
                assert(session_lines(secret, p) =~= Seq::<Seq<char>>::empty());
                assert(wr =~= w0.written() + all);
                assert(p0.skip(lines_used(secret, p0) as int) =~= p);
                return Ok(GameOutcome::Abandoned);
            },
            Ok(Some(line)) => {
                let (reply, done) = respond(secret, line.as_str());
                let ghost rl = reply.deep_view();
                let wrote = write_lines(writer, &reply);
                let ghost rest = session_lines(secret, p.drop_first());
                if wrote.is_err() {
                    proof {
                        let lim: nat = w0.limit()->0;
                        let k: nat = w0.room();
                        assert(k == lim - w0.written().len());
                        if done {
                            assert(wr + rl == w0.written() + all);
                        } else {
                            assert(wr + (rl + rest) == w0.written() + all);
                            assert(wr + rl + rest =~= wr + (rl + rest));
                        }
                        assert((w0.written() + all).take(lim as int) =~= w0.written() + all.take(
                            k as int,
                        ));
                        assert(writer.written() =~= (w0.written() + all).take(lim as int));
                    }
                    return Err(IoFailure::OutputFault);
                }
                proof {
                    used = used + 1;
                    assert(p0.skip(used as int) =~= p.drop_first());
                }
                if done {
                    assert(writer.written() =~= w0.written() + all);
                    return Ok(GameOutcome::Solved);
                }
                assert(wr + rl + rest =~= wr + (rl + rest));
            },
        }
    }
}

/// Relies on `rand::rng().random_range(lo..=hi)`: a number drawn from the
/// closed range `lo..=hi`, which panics only where the range is empty.
#[verifier::external_body]
fn random_in(lo: u32, hi: u32) -> (r: u32)
    requires
        lo <= hi,
    ensures
        lo <= r <= hi,
{
    rand::Rng::random_range(&mut rand::rng(), lo..=hi)
}

/// Draws a secret number from `[MIN_NUMBER, MAX_NUMBER]` at random.
pub fn draw_secret() -> (r: u32)
    ensures
        MIN_NUMBER <= r <= MAX_NUMBER,
{
    random_in(MIN_NUMBER, MAX_NUMBER)
}

/// Plays one game against a secret drawn at random from
/// `[MIN_NUMBER, MAX_NUMBER]`, as `run_game_with_secret` plays it.
pub fn run_game_internal(reader: &mut ScriptedInput, writer: &mut RecordingOutput) -> (r: Result<
    GameOutcome,
    IoFailure,
>)
    ensures
        exists|secret: u32|
            MIN_NUMBER <= secret <= MAX_NUMBER && #[trigger] game_run(
                secret,
                *old(reader),
                *old(writer),
                *final(reader),
                *final(writer),
                r,
            ),
{
    let secret: u32 = draw_secret();
    run_game_with_secret(reader, writer, secret)
}

} // verus!
