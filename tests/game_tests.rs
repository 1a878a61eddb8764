use guessing_game::game::{
    decimal_string, guessed_message, CORRECT, GAME_START, INVALID_INPUT, PROMPT, TOO_BIG,
    TOO_SMALL,
};
use guessing_game::{
    format_hint_message, get_hint, opening, respond, run_game_internal, run_game_with_secret,
    GameOutcome, Hint, IoFailure, RecordingOutput, ScriptedInput,
};

fn input(lines: &[&str]) -> ScriptedInput {
    ScriptedInput::new(lines.iter().map(|l| l.to_string()).collect())
}

fn output_text(w: &RecordingOutput) -> String {
    w.lines().join("\n")
}

#[test]
fn test_get_hint() {
    assert_eq!(get_hint(50, 75), Hint::TooLow);
    assert_eq!(get_hint(75, 50), Hint::TooHigh);
    assert_eq!(get_hint(50, 50), Hint::Correct);
    assert_eq!(get_hint(1, 100), Hint::TooLow);
    assert_eq!(get_hint(100, 1), Hint::TooHigh);
}

#[test]
fn test_format_hint_message() {
    assert_eq!(format_hint_message(Hint::TooLow), TOO_SMALL);
    assert_eq!(format_hint_message(Hint::TooHigh), TOO_BIG);
    assert_eq!(format_hint_message(Hint::Correct), CORRECT);
}

#[test]
fn hint_messages_read_as_written() {
    assert_eq!(format_hint_message(Hint::TooLow), "もっと大きいで！");
    assert_eq!(format_hint_message(Hint::TooHigh), "もっと小さいで！");
    assert_eq!(format_hint_message(Hint::Correct), "正解や！やったな！");
}

#[test]
fn decimal_text_of_numbers() {
    assert_eq!(decimal_string(0), "0");
    assert_eq!(decimal_string(7), "7");
    assert_eq!(decimal_string(10), "10");
    assert_eq!(decimal_string(100), "100");
    assert_eq!(decimal_string(u32::MAX), "4294967295");
}

#[test]
fn guessed_message_echoes_the_number() {
    assert_eq!(guessed_message(42), "あんたの予想は 42 やな！");
    assert_eq!(guessed_message(100), "あんたの予想は 100 やな！");
}

#[test]
fn opening_is_banner_then_prompt() {
    assert_eq!(opening(), vec![GAME_START.to_string(), PROMPT.to_string()]);
}

#[test]
fn respond_to_each_kind_of_line() {
    let (lines, done) = respond(50, "25\n");
    assert_eq!(lines, vec!["あんたの予想は 25 やな！".to_string(), TOO_SMALL.to_string()]);
    assert!(!done);
    let (lines, done) = respond(50, "75");
    assert_eq!(lines, vec!["あんたの予想は 75 やな！".to_string(), TOO_BIG.to_string()]);
    assert!(!done);
    let (lines, done) = respond(50, " 050 ");
    assert_eq!(lines, vec!["あんたの予想は 50 やな！".to_string(), CORRECT.to_string()]);
    assert!(done);
    let (lines, done) = respond(50, "abc");
    assert_eq!(lines, vec![INVALID_INPUT.to_string()]);
    assert!(!done);
}

#[test]
fn test_run_game_internal_valid_input() {
    let mut reader = input(&["42\n"]);
    let mut writer = RecordingOutput::new();
    run_game_internal(&mut reader, &mut writer).unwrap();
    let text = output_text(&writer);
    assert!(text.contains("1から100の数字を当ててみぃや！"));
    assert!(text.contains("ほな、予想入れてみて！"));
    assert!(text.contains("あんたの予想は 42 やな！"));
}

#[test]
fn test_run_game_internal_invalid_input() {
    let mut reader = input(&["abc\n"]);
    let mut writer = RecordingOutput::new();
    run_game_internal(&mut reader, &mut writer).unwrap();
    let text = output_text(&writer);
    assert!(text.contains("1から100の数字を当ててみぃや！"));
    assert!(text.contains("ほな、予想入れてみて！"));
    assert!(text.contains("ちゃんとした数字入れてや！"));
}

#[test]
fn test_run_game_internal_eof() {
    let mut reader = input(&[]);
    let mut writer = RecordingOutput::new();
    let result = run_game_internal(&mut reader, &mut writer);
    assert!(result.is_ok());
    assert!(output_text(&writer).contains("1から100の数字を当ててみぃや！"));
}

#[test]
fn test_run_game_with_secret_guess_too_small() {
    let mut reader = input(&["25\n", "50\n"]);
    let mut writer = RecordingOutput::new();
    run_game_with_secret(&mut reader, &mut writer, 50).unwrap();
    let text = output_text(&writer);
    assert!(text.contains("あんたの予想は 25 やな！"));
    assert!(text.contains("もっと大きいで！"));
    assert!(text.contains("正解や！やったな！"));
}

#[test]
fn test_run_game_with_secret_guess_too_big() {
    let mut reader = input(&["75\n", "50\n"]);
    let mut writer = RecordingOutput::new();
    run_game_with_secret(&mut reader, &mut writer, 50).unwrap();
    let text = output_text(&writer);
    assert!(text.contains("あんたの予想は 75 やな！"));
    assert!(text.contains("もっと小さいで！"));
    assert!(text.contains("正解や！やったな！"));
}

#[test]
fn test_run_game_with_secret_correct_guess() {
    let mut reader = input(&["42\n"]);
    let mut writer = RecordingOutput::new();
    run_game_with_secret(&mut reader, &mut writer, 42).unwrap();
    let text = output_text(&writer);
    assert!(text.contains("あんたの予想は 42 やな！"));
    assert!(text.contains("正解や！やったな！"));
    assert!(!text.contains("もっと大きいで！"));
    assert!(!text.contains("もっと小さいで！"));
}

#[test]
fn test_run_game_internal_write_error_first_writeln() {
    let mut reader = input(&["42\n"]);
    let mut writer = RecordingOutput::failing_after(0);
    let result = run_game_internal(&mut reader, &mut writer);
    assert!(result.is_err());
    assert_eq!(result, Err(IoFailure::OutputFault));
}

#[test]
fn test_run_game_internal_read_error() {
    let mut reader = ScriptedInput::failing_after(vec![]);
    let mut writer = RecordingOutput::new();
    let result = run_game_internal(&mut reader, &mut writer);
    assert!(result.is_err());
    assert_eq!(result, Err(IoFailure::InputFault));
}

#[test]
fn test_run_game_internal_write_error_after_read() {
    let mut reader = input(&["42\n"]);
    let mut writer = RecordingOutput::failing_after(2);
    let result = run_game_internal(&mut reader, &mut writer);
    assert!(result.is_err());
}

#[test]
fn test_run_game_internal_write_error_second_writeln() {
    let mut reader = input(&["42\n"]);
    let mut writer = RecordingOutput::failing_after(1);
    let result = run_game_internal(&mut reader, &mut writer);
    assert!(result.is_err());
}

#[test]
fn test_run_game_internal_write_error_on_invalid_input_message() {
    let mut reader = input(&["abc\n"]);
    let mut writer = RecordingOutput::failing_after(2);
    let result = run_game_internal(&mut reader, &mut writer);
    assert!(result.is_err());
}

#[test]
fn test_run_game_with_secret_write_error_on_less() {
    let mut reader = input(&["25\n"]);
    let mut writer = RecordingOutput::failing_after(3);
    let result = run_game_with_secret(&mut reader, &mut writer, 50);
    assert!(result.is_err());
}

#[test]
fn test_run_game_with_secret_write_error_on_greater() {
    let mut reader = input(&["75\n"]);
    let mut writer = RecordingOutput::failing_after(3);
    let result = run_game_with_secret(&mut reader, &mut writer, 50);
    assert!(result.is_err());
}

#[test]
fn test_run_game_with_secret_write_error_on_equal() {
    let mut reader = input(&["50\n"]);
    let mut writer = RecordingOutput::failing_after(3);
    let result = run_game_with_secret(&mut reader, &mut writer, 50);
    assert!(result.is_err());
}

fn solved_transcript() -> Vec<String> {
    vec![
        GAME_START.to_string(),
        PROMPT.to_string(),
        "あんたの予想は 25 やな！".to_string(),
        TOO_SMALL.to_string(),
        "あんたの予想は 50 やな！".to_string(),
        CORRECT.to_string(),
    ]
}

#[test]
fn low_guess_then_the_secret_is_solved() {
    let mut reader = input(&["25", "50"]);
    let mut writer = RecordingOutput::new();
    let result = run_game_with_secret(&mut reader, &mut writer, 50);
    assert_eq!(result, Ok(GameOutcome::Solved));
    assert_eq!(writer.lines(), &solved_transcript());
}

#[test]
fn lines_after_the_solving_guess_stay_unread() {
    let mut reader = input(&["50", "7", "8"]);
    let mut writer = RecordingOutput::new();
    let result = run_game_with_secret(&mut reader, &mut writer, 50);
    assert_eq!(result, Ok(GameOutcome::Solved));
    assert_eq!(writer.lines().len(), 4);
    assert_eq!(reader.read_line(), Ok(Some("7".to_string())));
}

#[test]
fn invalid_line_then_end_is_abandoned() {
    let mut reader = input(&["abc"]);
    let mut writer = RecordingOutput::new();
    let result = run_game_with_secret(&mut reader, &mut writer, 50);
    assert_eq!(result, Ok(GameOutcome::Abandoned));
    assert_eq!(
        writer.lines(),
        &vec![
            GAME_START.to_string(),
            PROMPT.to_string(),
            INVALID_INPUT.to_string()
        ]
    );
}

#[test]
fn empty_input_writes_only_banner_and_prompt() {
    for secret in [1, 50, 100] {
        let mut reader = input(&[]);
        let mut writer = RecordingOutput::new();
        let result = run_game_with_secret(&mut reader, &mut writer, secret);
        assert_eq!(result, Ok(GameOutcome::Abandoned));
        assert_eq!(writer.lines(), &opening());
    }
}

#[test]
fn write_fault_stops_the_game_at_that_write() {
    let full = solved_transcript();
    for n in 0..full.len() {
        let mut reader = input(&["25", "50"]);
        let mut writer = RecordingOutput::failing_after(n);
        let result = run_game_with_secret(&mut reader, &mut writer, 50);
        assert_eq!(result, Err(IoFailure::OutputFault));
        assert_eq!(writer.lines(), &full[..n].to_vec());
    }
    let mut reader = input(&["25", "50"]);
    let mut writer = RecordingOutput::failing_after(full.len());
    let result = run_game_with_secret(&mut reader, &mut writer, 50);
    assert_eq!(result, Ok(GameOutcome::Solved));
    assert_eq!(writer.lines(), &full);
}

#[test]
fn read_fault_ends_the_game_without_more_output() {
    let mut reader = ScriptedInput::failing_after(vec!["25".to_string()]);
    let mut writer = RecordingOutput::new();
    let result = run_game_with_secret(&mut reader, &mut writer, 50);
    assert_eq!(result, Err(IoFailure::InputFault));
    assert_eq!(writer.lines(), &solved_transcript()[..4].to_vec());
}

#[test]
fn read_fault_after_a_solving_guess_is_never_reached() {
    let mut reader = ScriptedInput::failing_after(vec!["50".to_string()]);
    let mut writer = RecordingOutput::new();
    let result = run_game_with_secret(&mut reader, &mut writer, 50);
    assert_eq!(result, Ok(GameOutcome::Solved));
}

#[test]
fn drawn_secret_lies_in_range() {
    let draws: Vec<u32> = (0..200).map(|_| guessing_game::draw_secret()).collect();
    assert!(draws.iter().all(|s| (1..=100).contains(s)));
    assert!(draws.iter().any(|&s| s != draws[0]));
}
