//! Random bytes from the operating system.

use vstd::prelude::*;

verus! {

/// `count` bytes from the operating system's random source.
///
/// Calls `getrandom::fill` on a zeroed buffer of `count` bytes and gives the
/// buffer, or the source's error as text. Claimed: on success the buffer keeps
/// its length. Which bytes it holds is left unsaid: they are random.
#[verifier::external_body]
pub(crate) fn random_bytes(count: usize) -> (r: Result<Vec<u8>, String>)
    ensures
        r matches Ok(bytes) ==> bytes@.len() == count,
{
    let mut bytes = vec![0u8; count];
    match getrandom::fill(&mut bytes) {
        Ok(()) => Ok(bytes),
        Err(error) => Err(error.to_string()),
    }
}

} // verus!
