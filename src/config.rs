use vstd::prelude::*;

verus! {

/// Smallest number that can be guessed.
pub const MIN_NUMBER: u32 = 1;

/// Largest number that can be guessed.
pub const MAX_NUMBER: u32 = 100;

} // verus!
