use vstd::prelude::*;

verus! {

/// The failures a lowering pass can surface.
///
/// `MalformedInput` covers a missing mandatory `id` attribute, unexpected
/// element nesting or close events, and an unreadable underlying document.
/// `UnknownIdentifier` is raised when an edge endpoint resolves a textual id
/// that no element of the document registered. `DuplicateIdentifier` is
/// raised when the same textual id is registered twice.
#[derive(Debug, Clone, Copy, PartialEq, Eq, Structural)]
pub enum LowerError {
    MalformedInput,
    UnknownIdentifier,
    DuplicateIdentifier,
}

impl LowerError {
    /// A short description of the error, for diagnostics outside the library.
    pub fn describe(&self) -> (r: &'static str)
        ensures
            *self is MalformedInput ==> r@ == "malformed input"@,
            *self is UnknownIdentifier ==> r@ == "unknown identifier"@,
            *self is DuplicateIdentifier ==> r@ == "duplicate identifier"@,
    {
        match self {
            LowerError::MalformedInput => "malformed input",
            LowerError::UnknownIdentifier => "unknown identifier",
            LowerError::DuplicateIdentifier => "duplicate identifier",
        }
    }
}

} // verus!
