use vstd::prelude::*;

verus! {

/// The recoverable input errors of the relay core.
///
/// `MalformedRequest` covers a submission body that is not valid UTF-8 or is
/// missing one of the required form keys; `FieldTooLong` covers an identifier
/// field that does not fit its fixed 12-byte slot in a frame.
#[derive(Clone, Copy, Debug, PartialEq, Eq, Structural)]
pub enum RelayError {
    MalformedRequest,
    FieldTooLong,
}

} // verus!
