//! The error of a text that is not a TOML document.

use vstd::prelude::*;

verus! {

/// Why a text is not a TOML document, as the parser reports it.
#[derive(Debug, PartialEq, Eq)]
pub struct ParseError {
    /// What went wrong, in the parser's words.
    pub message: String,
    /// The byte offsets in the text between which it went wrong, where the parser recorded
    /// them.
    pub span: Option<(usize, usize)>,
}

} // verus!
