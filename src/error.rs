use vstd::prelude::*;

verus! {

/// The conditions a navigation or a value conversion can end in.
#[derive(Debug, Clone, PartialEq, Eq)]
pub enum Error {
    /// A transport failure.
    Network(String),
    /// A malformed or unsupported input value.
    UnexpectedInput(String),
    /// A presentation back-end failure.
    InvalidUI(String),
    /// Anything else.
    Other(String),
}

} // verus!
