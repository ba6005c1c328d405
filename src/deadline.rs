//! The wire form of a deadline: a count of milliseconds.
use crate::device::DecodeError;
use crate::time::Milliseconds;
use vstd::prelude::*;

verus! {

/// Decodes a deadline from its wire form.
pub fn decode_deadline(millis: u64) -> (r: Result<Milliseconds, DecodeError>)
    ensures
        r == Ok::<Milliseconds, DecodeError>(Milliseconds(millis)),
{
    Ok(Milliseconds(millis))
}

/// Encodes a deadline to its wire form.
pub fn encode_deadline(deadline: Milliseconds) -> (r: u64)
    ensures
        r == deadline.0,
{
    deadline.0
}

} // verus!
