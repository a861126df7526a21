//! The script of the coinbase input.

use crate::bytes::{le_value, push_all};
use crate::chain_laws::heights_take_the_fewest_bytes;
use vstd::prelude::*;

verus! {

/// `n` in as few little-endian bytes as hold it, none for zero.
pub open spec fn minimal_le(n: nat) -> Seq<u8>
    decreases n,
{
    if n == 0 {
        Seq::empty()
    } else {
        seq![(n % 256) as u8] + minimal_le(n / 256)
    }
}

/// A block height as a script number: the fewest little-endian bytes whose top bit is clear, one
/// zero byte for height zero.
pub open spec fn height_bytes(height: nat) -> Seq<u8> {
    let bytes = minimal_le(height);
    if height == 0 {
        seq![0u8]
    } else if bytes.last() >= 0x80 {
        bytes.push(0)
    } else {
        bytes
    }
}

/// `/MEWC-SOLO/` in ASCII.
pub open spec fn pool_tag() -> Seq<u8> {
    seq![0x2fu8, 0x4d, 0x45, 0x57, 0x43, 0x2d, 0x53, 0x4f, 0x4c, 0x4f, 0x2f]
}

/// The coinbase script: the height and the pool tag, each behind its length.
pub open spec fn coinbase_script(height: nat) -> Seq<u8> {
    seq![height_bytes(height).len() as u8] + height_bytes(height) + seq![11u8] + pool_tag()
}

proof fn lemma_minimal_le(n: nat, bound: nat)
    requires
        n < crate::bytes::pow256(bound),
    ensures
        le_value(minimal_le(n)) == n,
        minimal_le(n).len() <= bound,
        n > 0 ==> minimal_le(n).len() > 0,
    decreases n,
{
    if n > 0 {
        assert(bound > 0);
        lemma_minimal_le(n / 256, (bound - 1) as nat);
        assert(minimal_le(n).drop_first() =~= minimal_le(n / 256));
    }
}

proof fn lemma_le_push_zero(s: Seq<u8>)
    ensures
        le_value(s.push(0)) == le_value(s),
    decreases s.len(),
{
    if s.len() == 0 {
        assert(s.push(0).drop_first() =~= s);
    } else {
        lemma_le_push_zero(s.drop_first());
        assert(s.push(0).drop_first() =~= s.drop_first().push(0));
    }
}

/// A height reads back from its bytes, takes at most five of them, and never looks negative.
pub proof fn height_bytes_read_back(height: u32)
    ensures
        le_value(height_bytes(height as nat)) == height,
        0 < height_bytes(height as nat).len() <= 5,
        height_bytes(height as nat).last() < 0x80,
{
    let h = height as nat;
    crate::bytes::lemma_pow256_8();
    lemma_minimal_le(h, 4);
    lemma_le_push_zero(minimal_le(h));
    if h == 0 {
        assert(seq![0u8].drop_first() =~= Seq::<u8>::empty());
        reveal_with_fuel(le_value, 2);
    }
}

/// The height as a script number.
pub fn encode_height(h: u32) -> (bytes: Vec<u8>)
    ensures
        bytes@ == height_bytes(h as nat),
        le_value(bytes@) == h,
        bytes@.last() < 0x80,
        h > 0 ==> bytes@.last() != 0 || (bytes@.len() >= 2 && bytes@[bytes@.len() - 2] >= 0x80),
{
    let mut bytes: Vec<u8> = Vec::new();
    proof {
        heights_take_the_fewest_bytes(h);
    }
    if h == 0 {
        bytes.push(0);
        assert(bytes@ =~= seq![0u8]);
        return bytes;
    }
    let mut v: u32 = h;
    while v > 0
        invariant
            minimal_le(h as nat) == bytes@ + minimal_le(v as nat),
            bytes@.len() + minimal_le(v as nat).len() > 0,
        decreases v,
    {
        let ghost before = bytes@;
        bytes.push((v % 256) as u8);
        assert(before + minimal_le(v as nat) =~= bytes@ + minimal_le((v / 256) as nat));
        v = v / 256;
    }
    assert(bytes@ =~= minimal_le(h as nat));
    if bytes[bytes.len() - 1] >= 0x80 {
        bytes.push(0);
    }
    bytes
}

/// The script of the coinbase input for a block at `height`.
pub fn build_coinbase_scriptsig(height: u32) -> (script: Vec<u8>)
    ensures
        script@ == coinbase_script(height as nat),
{
    let mut script: Vec<u8> = Vec::new();
    let bytes: Vec<u8> = encode_height(height);
    proof {
        height_bytes_read_back(height);
    }
    script.push(bytes.len() as u8);
    push_all(&mut script, bytes.as_slice());
    let tag: [u8; 11] = [0x2f, 0x4d, 0x45, 0x57, 0x43, 0x2d, 0x53, 0x4f, 0x4c, 0x4f, 0x2f];
    script.push(11);
    push_all(&mut script, tag.as_slice());
    assert(tag@ =~= pool_tag());
    assert(script@ =~= coinbase_script(height as nat));
    script
}

} // verus!
