//! Identifiers. Operations, requests and connections are each named by the
//! 128-bit value of a UUID.

use vstd::prelude::*;

verus! {

/// Names an operation for as long as the registry knows it.
pub type OperationId = u128;

/// Names one outstanding request; the correlation id of its reply.
pub type RequestId = u128;

/// Names a connection.
pub type ConnectionId = u128;

/// `id` is the value of a UUID of version 4 and of the RFC variant, the
/// marks of every UUID that is drawn at random.
pub open spec fn is_random_uuid(id: u128) -> bool {
    id & 0x0000_0000_0000_f000_c000_0000_0000_0000 == 0x0000_0000_0000_4000_8000_0000_0000_0000
}

/// Draws a random UUID with `uuid::Uuid::new_v4` and returns its 128-bit
/// value. The value depends on the system's random source; all that is
/// claimed of it is what the function fixes in every UUID it makes: the
/// version is 4 and the variant is the RFC one. Which id comes out is open,
/// and callers must cope with one that is already in use. Where the system
/// has no random source to draw from, the call panics; like running out of
/// memory, that is outside what the contract speaks of.
#[verifier::external_body]
pub(crate) fn random_id() -> (id: u128)
    ensures
        is_random_uuid(id),
{
    uuid::Uuid::new_v4().as_u128()
}

} // verus!
