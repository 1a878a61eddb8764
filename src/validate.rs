use vstd::prelude::*;

use crate::config::{MAX_NUMBER, MIN_NUMBER};

verus! {

/// A character of Unicode's `White_Space` property, which `char::is_whitespace` tests.
pub open spec fn is_space(c: char) -> bool {
    let u: u32 = c as u32;
    (0x9 <= u && u <= 0xd) || u == 0x20 || u == 0x85 || u == 0xa0 || u == 0x1680 || (0x2000 <= u
        && u <= 0x200a) || u == 0x2028 || u == 0x2029 || u == 0x202f || u == 0x205f || u == 0x3000
}

/// `s` without its leading white space.
pub open spec fn trim_start(s: Seq<char>) -> Seq<char>
    decreases s.len(),
{
    if s.len() > 0 && is_space(s[0]) {
        trim_start(s.drop_first())
    } else {
        s
    }
}

/// `s` without its trailing white space.
pub open spec fn trim_end(s: Seq<char>) -> Seq<char>
    decreases s.len(),
{
    if s.len() > 0 && is_space(s.last()) {
        trim_end(s.drop_last())
    } else {
        s
    }
}

/// `s` without white space at either end, as `str::trim` gives it.
pub open spec fn trimmed(s: Seq<char>) -> Seq<char> {
    trim_end(trim_start(s))
}

pub open spec fn is_digit(c: char) -> bool {
    48 <= (c as u32) && (c as u32) <= 57
}

pub open spec fn digit_value(c: char) -> nat {
    ((c as u32) - 48) as nat
}

pub open spec fn all_digits(d: Seq<char>) -> bool {
    forall|i: int| 0 <= i < d.len() ==> is_digit(#[trigger] d[i])
}

/// The number that the decimal digits `d` write, most significant first.
pub open spec fn digits_value(d: Seq<char>) -> nat
    decreases d.len(),
{
    if d.len() == 0 {
        0
    } else {
        digits_value(d.drop_last()) * 10 + digit_value(d.last())
    }
}

/// The digits after an optional leading `+`.
pub open spec fn unsigned_digits(t: Seq<char>) -> Seq<char> {
    if t.len() > 0 && t[0] == '+' {
        t.drop_first()
    } else {
        t
    }
}

/// What text reads as an unsigned 32-bit integer: an optional `+`, then one or
/// more ASCII digits whose value fits in `u32`.
pub open spec fn unsigned_of(t: Seq<char>) -> Option<nat> {
    let d = unsigned_digits(t);
    if d.len() > 0 && all_digits(d) && digits_value(d) <= u32::MAX {
        Some(digits_value(d))
    } else {
        None
    }
}

/// The guess that a line of input stands for: its trimmed text read as an
/// unsigned integer, kept only inside `[MIN_NUMBER, MAX_NUMBER]`.
pub open spec fn guess_of(s: Seq<char>) -> Option<u32> {
    let u = unsigned_of(trimmed(s));
    if u is Some && MIN_NUMBER <= u->0 && u->0 <= MAX_NUMBER {
        Some(u->0 as u32)
    } else {
        None
    }
}

/// The digit character of `d`, for `d < 10`.
pub open spec fn digit_char(d: nat) -> char {
    if d == 0 {
        '0'
    } else if d == 1 {
        '1'
    } else if d == 2 {
        '2'
    } else if d == 3 {
        '3'
    } else if d == 4 {
        '4'
    } else if d == 5 {
        '5'
    } else if d == 6 {
        '6'
    } else if d == 7 {
        '7'
    } else if d == 8 {
        '8'
    } else {
        '9'
    }
}

/// The decimal text of `n`, without leading zeros.
pub open spec fn decimal(n: nat) -> Seq<char>
    decreases n,
{
    if n < 10 {
        seq![digit_char(n)]
    } else {
        decimal(n / 10).push(digit_char(n % 10))
    }
}

pub open spec fn all_space(s: Seq<char>) -> bool {
    forall|i: int| 0 <= i < s.len() ==> is_space(#[trigger] s[i])
}

fn is_space_char(c: char) -> (r: bool)
    ensures
        r == is_space(c),
{
    let u: u32 = c as u32;
    (0x9 <= u && u <= 0xd) || u == 0x20 || u == 0x85 || u == 0xa0 || u == 0x1680 || (0x2000 <= u
        && u <= 0x200a) || u == 0x2028 || u == 0x2029 || u == 0x202f || u == 0x205f || u == 0x3000
}

proof fn lemma_trim_start_at(s: Seq<char>, k: int)
    requires
        0 <= k <= s.len(),
        forall|i: int| 0 <= i < k ==> is_space(#[trigger] s[i]),
        k == s.len() || !is_space(s[k]),
    ensures
        trim_start(s) == s.skip(k),
    decreases k,
{
    if k == 0 {
        assert(s.skip(0) =~= s);
    } else {
        let t = s.drop_first();
        assert forall|i: int| 0 <= i < k - 1 implies is_space(#[trigger] t[i]) by {
            assert(t[i] == s[i + 1]);
        }
        lemma_trim_start_at(t, k - 1);
        assert(t.skip(k - 1) =~= s.skip(k));
    }
}

proof fn lemma_trim_end_at(s: Seq<char>, k: int)
    requires
        0 <= k <= s.len(),
        forall|i: int| k <= i < s.len() ==> is_space(#[trigger] s[i]),
        k == 0 || !is_space(s[k - 1]),
    ensures
        trim_end(s) == s.take(k),
    decreases s.len() - k,
{
    if k == s.len() {
        assert(s.take(k) =~= s);
    } else {
        let t = s.drop_last();
        assert forall|i: int| k <= i < t.len() implies is_space(#[trigger] t[i]) by {
            assert(t[i] == s[i]);
        }
        lemma_trim_end_at(t, k);
        assert(t.take(k) =~= s.take(k));
    }
}

/// Reads a line of input as a guess: the text without surrounding white space
/// must be an unsigned decimal integer (an optional `+`, then digits) that lies
/// in `[MIN_NUMBER, MAX_NUMBER]`; anything else gives `None`.
pub fn parse_guess(input: &str) -> (r: Option<u32>)
    ensures
        r == guess_of(input@),
        r matches Some(v) ==> MIN_NUMBER <= v <= MAX_NUMBER,
{
    let ghost s = input@;
    let len: usize = input.unicode_len();
    let mut lo: usize = 0;
    while lo < len && is_space_char(input.get_char(lo))
        invariant
            s == input@,
            len == s.len(),
            lo <= len,
            forall|i: int| 0 <= i < lo ==> is_space(#[trigger] s[i]),
        decreases len - lo,
    {
        lo = lo + 1;
    }
    proof {
        lemma_trim_start_at(s, lo as int);
    }
    let mut hi: usize = len;
    while hi > lo && is_space_char(input.get_char(hi - 1))
        invariant
            s == input@,
            len == s.len(),
            lo <= hi <= len,
            forall|i: int| hi <= i < len ==> is_space(#[trigger] s[i]),
        decreases hi,
    {
        hi = hi - 1;
    }
    let ghost t = s.skip(lo as int);
    proof {
        assert forall|i: int| hi - lo <= i < t.len() implies is_space(#[trigger] t[i]) by {
            assert(t[i] == s[i + lo]);
        }
        if hi > lo {
            assert(t[hi - lo - 1] == s[hi - 1]);
        }
        lemma_trim_end_at(t, hi - lo);
        assert(t.take(hi - lo) =~= s.subrange(lo as int, hi as int));
    }
    let ghost tr = s.subrange(lo as int, hi as int);
    assert(trimmed(s) == tr);
    let mut start: usize = lo;
    if lo < hi && input.get_char(lo) == '+' {
        start = lo + 1;
    }
    let ghost d = s.subrange(start as int, hi as int);
    assert(unsigned_digits(tr) =~= d);
    if start == hi {
        return None;
    }
    let mut value: u32 = 0;
    let mut big = false;
    let mut i: usize = start;
    while i < hi
        invariant
            s == input@,
            len == s.len(),
            start <= i <= hi <= len,
            d == s.subrange(start as int, hi as int),
            unsigned_digits(trimmed(s)) == d,
            d.len() > 0,
            all_digits(s.subrange(start as int, i as int)),
            big ==> digits_value(s.subrange(start as int, i as int)) > MAX_NUMBER,
            !big ==> value == digits_value(s.subrange(start as int, i as int)) && value
                <= MAX_NUMBER,
        decreases hi - i,
    {
        let c = input.get_char(i);
        let ghost prev = s.subrange(start as int, i as int);
        let ghost next = s.subrange(start as int, i + 1);
        if !(48 <= (c as u32) && (c as u32) <= 57) {
            assert(d[i - start] == c);
            return None;
        }
        assert(next.drop_last() =~= prev);
        assert(next.last() == c);
        assert(all_digits(next)) by {
            assert forall|j: int| 0 <= j < next.len() implies is_digit(#[trigger] next[j]) by {
                if j < prev.len() {
                    assert(next[j] == prev[j]);
                }
            }
        }
        if !big {
            let nv: u32 = value * 10 + (c as u32 - 48);
            if nv > MAX_NUMBER {
                big = true;
            } else {
                value = nv;
            }
        }
        i = i + 1;
    }
    assert(s.subrange(start as int, i as int) =~= d);
    if big || value < MIN_NUMBER {
        None
    } else {
        Some(value)
    }
}

proof fn lemma_digit_char(d: nat)
    requires
        d < 10,
    ensures
        is_digit(digit_char(d)),
        digit_value(digit_char(d)) == d,
{
}

proof fn lemma_decimal(n: nat)
    ensures
        decimal(n).len() > 0,
        all_digits(decimal(n)),
        digits_value(decimal(n)) == n,
    decreases n,
{
    let d = decimal(n);
    if n < 10 {
        lemma_digit_char(n);
        assert(d.drop_last() =~= Seq::<char>::empty());
        assert(digits_value(d.drop_last()) == 0);
    } else {
        lemma_digit_char(n % 10);
        assert(n == (n / 10) * 10 + n % 10);
        lemma_decimal(n / 10);
        assert(d.drop_last() =~= decimal(n / 10));
        assert(digits_value(d) == digits_value(decimal(n / 10)) * 10 + n % 10);
        assert forall|i: int| 0 <= i < d.len() implies is_digit(#[trigger] d[i]) by {
            if i < d.len() - 1 {
                assert(d[i] == decimal(n / 10)[i]);
            }
        }
    }
}

proof fn lemma_trimmed_padding(lead: Seq<char>, x: Seq<char>, trail: Seq<char>)
    requires
        all_space(lead),
        all_space(trail),
        x.len() > 0,
        !is_space(x[0]),
        !is_space(x.last()),
    ensures
        trimmed(lead + x + trail) == x,
{
    let s = lead + x + trail;
    let k: int = lead.len() as int;
    assert forall|i: int| 0 <= i < k implies is_space(#[trigger] s[i]) by {
        assert(s[i] == lead[i]);
    }
    assert(s[k] == x[0]);
    lemma_trim_start_at(s, k);
    let t = x + trail;
    assert(s.skip(k) =~= t);
    assert forall|i: int| x.len() <= i < t.len() implies is_space(#[trigger] t[i]) by {
        assert(t[i] == trail[i - x.len()]);
    }
    assert(t[x.len() - 1] == x.last());
    lemma_trim_end_at(t, x.len() as int);
    assert(t.take(x.len() as int) =~= x);
}

/// A number written in decimal, with any white space before and after it, reads
/// as that number where it lies in `[MIN_NUMBER, MAX_NUMBER]`, and as no guess
/// where it lies outside.
pub proof fn lemma_padded_number(lead: Seq<char>, n: nat, trail: Seq<char>)
    requires
        all_space(lead),
        all_space(trail),
    ensures
        guess_of(lead + decimal(n) + trail) == if MIN_NUMBER <= n && n <= MAX_NUMBER {
            Some(n as u32)
        } else {
            None
        },
{
    let d = decimal(n);
    lemma_decimal(n);
    assert(is_digit(d[0]) && is_digit(d.last()));
    lemma_trimmed_padding(lead, d, trail);
    assert(unsigned_digits(d) == d);
}

/// Text that, once trimmed, holds a character that is not a decimal digit (a
/// minus sign, a decimal point, a letter, an exponent mark), other than a single
/// leading `+`, reads as no guess.
pub proof fn lemma_stray_char(s: Seq<char>, i: int)
    requires
        0 <= i < trimmed(s).len(),
        !is_digit(trimmed(s)[i]),
        i > 0 || trimmed(s)[i] != '+',
    ensures
        guess_of(s) is None,
{
    let t = trimmed(s);
    let d = unsigned_digits(t);
    if t[0] == '+' {
        assert(d[i - 1] == t[i]);
    } else {
        assert(d[i] == t[i]);
    }
}

/// Text with nothing but white space reads as no guess.
pub proof fn lemma_blank(s: Seq<char>)
    requires
        all_space(s),
    ensures
        guess_of(s) is None,
{
    lemma_trim_start_at(s, s.len() as int);
    assert(s.skip(s.len() as int) =~= Seq::<char>::empty());
}

} // verus!
