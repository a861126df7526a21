//! Random identifiers of jobs, sessions and connections.

use crate::hexcode;
use vstd::prelude::*;

verus! {

/// What all random identifiers have: sixteen bytes that carry version and variant.
pub open spec fn is_random_uuid(bytes: Seq<u8>) -> bool {
    bytes.len() == 16 && bytes[6] / 16 == 4 && bytes[8] / 64 == 2
}

/// Calls `uuid::Uuid::new_v4`. The bytes are random but for the version number four and the
/// variant bits; nothing else is stated of them.
#[verifier::external_body]
fn random_uuid() -> (bytes: [u8; 16])
    ensures
        is_random_uuid(bytes@),
{
    uuid::Uuid::new_v4().into_bytes()
}

/// The first `count` bytes of an identifier, in hexadecimal.
pub fn short_id(bytes: &[u8; 16], count: usize) -> (id: String)
    requires
        count <= 16,
    ensures
        id@ == hexcode::encoded(bytes@.take(count as int)),
{
    let part = vstd::slice::slice_subrange(bytes.as_slice(), 0, count);
    assert(part@ =~= bytes@.take(count as int));
    hexcode::encode(part)
}

/// Whether `id` spells the first `count` bytes of some random identifier.
pub open spec fn is_fresh_id(id: Seq<char>, count: nat) -> bool {
    exists|bytes: Seq<u8>|
        is_random_uuid(bytes) && id == #[trigger] hexcode::encoded(bytes.take(count as int))
}

/// A new random identifier of `count` bytes, in hexadecimal.
pub fn fresh_id(count: usize) -> (id: String)
    requires
        count <= 16,
    ensures
        is_fresh_id(id@, count as nat),
        id@.len() == 2 * count,
{
    let bytes: [u8; 16] = random_uuid();
    short_id(&bytes, count)
}

} // verus!
