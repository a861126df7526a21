//! Double SHA-256 and the merkle root of a list of transaction ids.

use crate::bytes::{push_all, zeros};
use sha2::Digest;
use vstd::prelude::*;

verus! {

/// The SHA-256 digest of `data`.
pub uninterp spec fn sha256_of(data: Seq<u8>) -> Seq<u8>;

/// Calls `sha2::Sha256::digest`. The digest is a function of the data alone; its value is named,
/// not stated.
#[verifier::external_body]
fn sha256(data: &[u8]) -> (digest: [u8; 32])
    ensures
        digest@ == sha256_of(data@),
{
    sha2::Sha256::digest(data).into()
}

/// The digest of the digest of `data`.
pub open spec fn sha256d_of(data: Seq<u8>) -> Seq<u8> {
    sha256_of(sha256_of(data))
}

/// Double SHA-256.
pub fn sha256d(data: &[u8]) -> (digest: [u8; 32])
    ensures
        digest@ == sha256d_of(data@),
{
    let first: [u8; 32] = sha256(data);
    sha256(first.as_slice())
}

/// The byte sequences of a list of hashes.
pub open spec fn hash_seqs(hashes: Seq<[u8; 32]>) -> Seq<Seq<u8>> {
    Seq::new(hashes.len(), |i: int| hashes[i]@)
}

/// The parents of a level: each pair hashed together, a last hash without a partner with itself.
pub open spec fn merkle_parents(level: Seq<Seq<u8>>) -> Seq<Seq<u8>> {
    Seq::new(
        (level.len() + 1) / 2,
        |i: int|
            sha256d_of(
                level[2 * i] + level[if 2 * i + 1 < level.len() {
                    2 * i + 1
                } else {
                    2 * i
                }],
            ),
    )
}

/// The root of the tree over `level`, zeros for an empty level.
pub open spec fn merkle_root_of(level: Seq<Seq<u8>>) -> Seq<u8>
    decreases level.len(),
{
    if level.len() == 0 {
        zeros(32)
    } else if level.len() == 1 {
        level[0]
    } else {
        merkle_root_of(merkle_parents(level))
    }
}

/// Reduces `hashes` level by level to the merkle root.
pub fn merkle_root(hashes: &mut Vec<[u8; 32]>) -> (root: [u8; 32])
    ensures
        root@ == merkle_root_of(hash_seqs(old(hashes)@)),
        old(hashes)@.len() == 0 ==> final(hashes)@ == old(hashes)@,
        old(hashes)@.len() > 0 ==> final(hashes)@ == seq![root],
{
    if hashes.len() == 0 {
        let none: [u8; 32] = [0u8; 32];
        assert(none@ =~= zeros(32));
        return none;
    }
    while hashes.len() > 1
        invariant
            hashes@.len() > 0,
            merkle_root_of(hash_seqs(hashes@)) == merkle_root_of(hash_seqs(old(hashes)@)),
        decreases hashes@.len(),
    {
        let ghost level = hash_seqs(hashes@);
        let total: usize = hashes.len();
        let mut next: Vec<[u8; 32]> = Vec::new();
        let mut i: usize = 0;
        while i < total
            invariant
                total == hashes@.len(),
                total > 1,
                level == hash_seqs(hashes@),
                i == 2 * next@.len() || (i == total && total + 1 == 2 * next@.len()),
                i <= total,
                forall|j: int|
                    0 <= j < next@.len() ==> (#[trigger] next@[j])@ == merkle_parents(level)[j],
            decreases total - i,
        {
            let left: [u8; 32] = hashes[i];
            let right: [u8; 32] = if total - i > 1 {
                hashes[i + 1]
            } else {
                left
            };
            let mut data: Vec<u8> = Vec::new();
            push_all(&mut data, left.as_slice());
            push_all(&mut data, right.as_slice());
            assert(data@ =~= left@ + right@);
            let ghost k = next@.len() as int;
            assert(merkle_parents(level)[k] == sha256d_of(left@ + right@)) by {
                assert(0 <= k < (level.len() + 1) / 2);
                assert(level[2 * k] == left@);
            }
            next.push(sha256d(data.as_slice()));
            if total - i > 1 {
                i = i + 2;
            } else {
                i = total;
            }
        }
        assert(hash_seqs(next@) =~= merkle_parents(level));
        *hashes = next;
    }
    let root: [u8; 32] = hashes[0];
    assert(hashes@ =~= seq![root]);
    root
}

} // verus!
