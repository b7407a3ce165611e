//! Error kinds for catalog construction, range resolution and line decoding.

use vstd::prelude::*;

verus! {

/// Failures surfaced while analysing a binary image's debug information.
///
/// `MissingSection` marks a mandatory debug section that is absent (fatal to
/// catalog construction). `FormatError` marks malformed metadata reported by
/// the format layer. `Message` carries ad hoc contextual failures such as a
/// unit entry with no usable end bound for its address range.
#[derive(Debug)]
pub enum Error {
    MissingSection,
    FormatError,
    Message(String),
}

impl Error {
    /// Whether this error is the `MissingSection` kind.
    pub fn is_missing_section(&self) -> (r: bool)
        ensures
            r == (self is MissingSection),
    {
        match self {
            Error::MissingSection => true,
            _ => false,
        }
    }
}

} // verus!
