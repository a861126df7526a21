//! The MeowPoW functions that jobs and shares rest on.

use crate::bytes::{be_value, zeros};
use vstd::prelude::*;

verus! {

/// The final hash of a header hash, a mix hash and a nonce.
pub uninterp spec fn light_hash(header_hash: Seq<u8>, mix_hash: Seq<u8>, nonce: u64) -> Seq<u8>;

/// The Keccak hash of 256 bits.
pub uninterp spec fn keccak256_of(data: Seq<u8>) -> Seq<u8>;

/// The seed hash of an epoch: zero bytes, hashed as often as there were epochs before.
pub open spec fn seed_of_epoch(epoch: int) -> Seq<u8>
    decreases epoch,
{
    if epoch <= 0 {
        zeros(32)
    } else {
        keccak256_of(seed_of_epoch(epoch - 1))
    }
}

/// How many blocks an epoch has.
pub const EPOCH_LENGTH: u32 = 7500;

/// The epoch of a block height.
pub open spec fn epoch_of(height: u32) -> int {
    height as int / EPOCH_LENGTH as int
}

/// Calls `meowpow::light_verify` on the two hashes as they stand in memory. The final hash is a
/// function of header hash, mix hash and nonce; its value is named, not stated.
#[verifier::external_body]
pub(crate) fn final_hash(header_hash: &[u8; 32], mix_hash: &[u8; 32], nonce: u64) -> (hash: [u8; 32])
    ensures
        hash@ == light_hash(header_hash@, mix_hash@, nonce),
{
    meowpow::light_verify(
        &meowpow::Hash256::from_bytes(header_hash),
        &meowpow::Hash256::from_bytes(mix_hash),
        nonce,
    ).to_bytes()
}

/// Calls `meowpow::Hash256::is_less_or_equal`: compares two hashes as big-endian numbers.
#[verifier::external_body]
fn at_most(hash: &[u8; 32], boundary: &[u8; 32]) -> (within: bool)
    ensures
        within == (be_value(hash@) <= be_value(boundary@)),
{
    meowpow::Hash256::from_bytes(hash).is_less_or_equal(&meowpow::Hash256::from_bytes(boundary))
}

/// Calls `meowpow::epoch::calculate_epoch_seed`: it starts with 32 zero bytes and replaces them
/// by their `meowpow::keccak::keccak256` once for each epoch. The value of that hash is named,
/// not stated.
#[verifier::external_body]
fn epoch_seed(epoch: i32) -> (seed: [u8; 32])
    ensures
        seed@ == seed_of_epoch(epoch as int),
        epoch > 0 ==> seed@ == keccak256_of(seed_of_epoch(epoch - 1)),
{
    meowpow::epoch::calculate_epoch_seed(epoch).to_bytes()
}

/// Reads the constant `meowpow::EPOCH_LENGTH`.
#[verifier::external_body]
fn epoch_length() -> (blocks: u32)
    ensures
        blocks == EPOCH_LENGTH,
{
    meowpow::EPOCH_LENGTH as u32
}

/// The seed hash of the epoch that the block at `height` belongs to.
pub fn seed_at_height(height: u32) -> (seed: [u8; 32])
    ensures
        seed@ == seed_of_epoch(epoch_of(height)),
{
    let epoch: u32 = height / epoch_length();
    epoch_seed(epoch as i32)
}

/// `hash` again where it meets `boundary`.
pub fn within_boundary(hash: [u8; 32], boundary: &[u8; 32]) -> (met: Option<[u8; 32]>)
    ensures
        met == if be_value(hash@) <= be_value(boundary@) {
            Some(hash)
        } else {
            None
        },
{
    if at_most(&hash, boundary) {
        Some(hash)
    } else {
        None
    }
}

} // verus!
