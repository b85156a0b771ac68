use vstd::prelude::*;

verus! {

/// The error taxonomy of the core: an unknown descriptor or ticket, a verb
/// the service deliberately does not support, a batch source that failed to
/// open or read, a malformed or out-of-order wire message, and a broken
/// internal invariant.
#[derive(Debug, Clone)]
pub enum FlightError {
    NotFound,
    Unimplemented,
    SourceError(String),
    ProtocolError(String),
    Internal(String),
}

} // verus!
