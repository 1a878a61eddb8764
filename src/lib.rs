//! A number-guessing game: a validator that reads a line of text as a guess in
//! a fixed range, and a game loop that answers each line with a hint until the
//! secret is guessed or the input ends, stopping at the first read or write
//! fault.

use vstd::prelude::*;

pub mod config;
pub mod game;
pub mod lines;
pub mod validate;

pub use game::{
    draw_secret, format_hint_message, get_hint, opening, respond, run_game_internal,
    run_game_with_secret, GameOutcome, Hint, IoFailure,
};
pub use lines::{RecordingOutput, ScriptedInput};
pub use validate::parse_guess;

verus! {

} // verus!
