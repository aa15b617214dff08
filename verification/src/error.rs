//! The error kinds the library reports: absent keys, type mismatches on
//! typed reads, malformed parser input, and parser misuse.

use vstd::prelude::*;

verus! {

/// Every failure the document model and the parser can report.
#[derive(Debug, PartialEq, Eq)]
pub enum JsonError {
    /// A lookup key is absent from the object.
    KeyNotFound,
    /// A lookup key is present but holds a different kind of value.
    WrongTypeValueRequest,
    /// A grammar violation while parsing: the cursor position, what was
    /// expected there, and the character found (`None` at end of input).
    MalformedInput { pos: usize, expected: String, found: Option<char> },
    /// `parse` was called on a parser whose buffer was not freshly loaded.
    MisuseError,
}

} // verus!
