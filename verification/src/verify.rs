//! Share validation.

use crate::bytes::{be_value, reversed, to_array32};
use crate::hexcode;
use crate::pow::{final_hash, light_hash, within_boundary};
use vstd::prelude::*;

verus! {

/// The 32 bytes that `text` spells, if it spells that many.
pub open spec fn hash_in_hex(text: Seq<char>) -> Option<Seq<u8>> {
    match hexcode::decoded(text) {
        Some(data) => if data.len() == 32 {
            Some(data)
        } else {
            None
        },
        None => None,
    }
}

/// The final hash of a share that meets `boundary`: both hashes spell 32 bytes, and the final
/// hash is at most the boundary.
pub open spec fn accepted_hash(
    header_hash_hex: Seq<char>,
    mix_hash_hex: Seq<char>,
    nonce: u64,
    boundary: Seq<u8>,
) -> Option<Seq<u8>> {
    match (hash_in_hex(header_hash_hex), hash_in_hex(mix_hash_hex)) {
        (Some(header_hash), Some(mix_hash)) => {
            let hash = light_hash(header_hash, mix_hash, nonce);
            if be_value(hash) <= be_value(boundary) {
                Some(hash)
            } else {
                None
            }
        },
        _ => None,
    }
}

/// The mix hash in block byte order, the reverse of the order in which a miner sends it.
pub open spec fn raw_mix_hash(mix_hash_hex: Seq<char>) -> Option<Seq<u8>> {
    match hash_in_hex(mix_hash_hex) {
        Some(data) => Some(data.reverse()),
        None => None,
    }
}

fn decode_hash(text: &str) -> (hash: Option<[u8; 32]>)
    ensures
        hash is Some <==> hash_in_hex(text@) is Some,
        hash matches Some(h) ==> hash_in_hex(text@) == Some(h@),
{
    match hexcode::decode(text) {
        Some(data) => {
            if data.len() == 32 {
                Some(to_array32(data.as_slice()))
            } else {
                None
            }
        },
        None => None,
    }
}

/// Checks a share against a boundary without the full dataset: its final hash where the share
/// meets the boundary.
pub fn check_share(
    header_hash_hex: &str,
    mix_hash_hex: &str,
    nonce: u64,
    boundary: &[u8; 32],
) -> (hash: Option<[u8; 32]>)
    ensures
        hash is Some <==> accepted_hash(
            header_hash_hex@,
            mix_hash_hex@,
            nonce,
            boundary@,
        ) is Some,
        hash matches Some(h) ==> accepted_hash(header_hash_hex@, mix_hash_hex@, nonce, boundary@)
            == Some(h@),
{
    match (decode_hash(header_hash_hex), decode_hash(mix_hash_hex)) {
        (Some(header_hash), Some(mix_hash)) => {
            within_boundary(final_hash(&header_hash, &mix_hash, nonce), boundary)
        },
        _ => None,
    }
}

/// The mix hash that a miner sent, in block byte order.
pub fn mix_hash_to_raw(mix_hash_hex: &str) -> (raw: Option<[u8; 32]>)
    ensures
        raw is Some <==> raw_mix_hash(mix_hash_hex@) is Some,
        raw matches Some(r) ==> raw_mix_hash(mix_hash_hex@) == Some(r@),
{
    match decode_hash(mix_hash_hex) {
        Some(hash) => Some(to_array32(reversed(hash.as_slice()).as_slice())),
        None => None,
    }
}

/// A share that meets a boundary meets every higher boundary, with the same final hash.
pub proof fn share_meets_higher_boundary(
    header_hash_hex: Seq<char>,
    mix_hash_hex: Seq<char>,
    nonce: u64,
    boundary: Seq<u8>,
    higher: Seq<u8>,
)
    requires
        be_value(boundary) <= be_value(higher),
        accepted_hash(header_hash_hex, mix_hash_hex, nonce, boundary) is Some,
    ensures
        accepted_hash(header_hash_hex, mix_hash_hex, nonce, higher) == accepted_hash(
            header_hash_hex,
            mix_hash_hex,
            nonce,
            boundary,
        ),
{
}

} // verus!
