//! Correlates sidecar file pairs (an audio recording and its transcript
//! sharing one filename stem), extracts metadata encoded in the filename,
//! and decides, per filesystem notification, whether a pair is ready to be
//! submitted — exactly once — to an ingestion endpoint.
//!
//! Paths and filenames are handled as byte strings: absolute,
//! `/`-separated paths without a trailing separator.

use vstd::prelude::*;

pub mod filename;
pub mod paths;
pub mod pipeline;
pub mod upload;

verus! {

/// ASCII `.`
pub const DOT: u8 = 46;

/// ASCII `/`
pub const SLASH: u8 = 47;

/// ASCII `_`
pub const UNDERSCORE: u8 = 95;

/// ASCII `F`
pub const LETTER_F: u8 = 70;

/// ASCII `M`
pub const LETTER_M: u8 = 77;

/// ASCII `O`
pub const LETTER_O: u8 = 79;

/// ASCII `R`
pub const LETTER_R: u8 = 82;

/// ASCII `T`
pub const LETTER_T: u8 = 84;

/// ASCII `0`
pub const DIGIT_0: u8 = 48;

/// ASCII `1`
pub const DIGIT_1: u8 = 49;

/// ASCII `2`
pub const DIGIT_2: u8 = 50;

/// ASCII `3`
pub const DIGIT_3: u8 = 51;

/// ASCII `4`
pub const DIGIT_4: u8 = 52;

/// ASCII `5`
pub const DIGIT_5: u8 = 53;

/// ASCII `6`
pub const DIGIT_6: u8 = 54;

/// ASCII `9`
pub const DIGIT_9: u8 = 57;

/// True of the ASCII decimal digits `0` through `9`.
pub open spec fn is_digit(b: u8) -> bool {
    DIGIT_0 <= b && b <= DIGIT_9
}

/// Executable counterpart of [`is_digit`].
pub fn check_digit(b: u8) -> (r: bool)
    ensures
        r == is_digit(b),
{
    DIGIT_0 <= b && b <= DIGIT_9
}

} // verus!
