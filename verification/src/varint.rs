//! The variable-length integers of the transaction and block formats.

use crate::bytes::{le_bytes, le_value, lemma_le_bytes, lemma_pow256_8, push_all, push_le, read_le};
use vstd::prelude::*;

verus! {

/// The shortest encoding of `v`: one byte below `0xfd`, else a marker and two, four or eight
/// little-endian bytes.
pub open spec fn varint_bytes(v: nat) -> Seq<u8> {
    if v < 0xfd {
        seq![v as u8]
    } else if v <= 0xffff {
        seq![0xfdu8] + le_bytes(v, 2)
    } else if v <= 0xffff_ffff {
        seq![0xfeu8] + le_bytes(v, 4)
    } else {
        seq![0xffu8] + le_bytes(v, 8)
    }
}

/// How many bytes an integer that starts with `marker` takes.
pub open spec fn varint_width(marker: u8) -> nat {
    if marker < 0xfd {
        1
    } else if marker == 0xfd {
        3
    } else if marker == 0xfe {
        5
    } else {
        9
    }
}

/// The integer that stands at `pos` and its width, where all of it lies within `data`.
pub open spec fn varint_at(data: Seq<u8>, pos: int) -> Option<(nat, nat)> {
    if 0 <= pos < data.len() && pos + varint_width(data[pos]) <= data.len() {
        let width = varint_width(data[pos]);
        if width == 1 {
            Some((data[pos] as nat, 1))
        } else {
            Some((le_value(data.subrange(pos + 1, pos + width)), width))
        }
    } else {
        None
    }
}

/// A length-prefixed byte string.
pub open spec fn var_bytes(data: Seq<u8>) -> Seq<u8> {
    varint_bytes(data.len()) + data
}

/// Whatever surrounds it, an integer that was written is read back with its value and its width.
pub proof fn read_of_write(before: Seq<u8>, v: nat, after: Seq<u8>)
    requires
        v <= u64::MAX,
    ensures
        varint_at(before + varint_bytes(v) + after, before.len() as int) == Some(
            (v, varint_bytes(v).len()),
        ),
{
    let code = varint_bytes(v);
    let all = before + code + after;
    let pos = before.len() as int;
    lemma_pow256_8();
    lemma_le_bytes(v, 2);
    lemma_le_bytes(v, 4);
    lemma_le_bytes(v, 8);
    assert(all[pos] == code[0]);
    assert(varint_width(code[0]) == code.len());
    if code.len() > 1 {
        assert(all.subrange(pos + 1, pos + code.len()) =~= code.skip(1));
        assert(code.skip(1) =~= le_bytes(v, (code.len() - 1) as nat));
    }
}

/// Reads the integer at `pos`: its value and the number of bytes it takes.
pub fn read_varint(data: &[u8], pos: usize) -> (read: (u64, usize))
    requires
        varint_at(data@, pos as int) is Some,
    ensures
        varint_at(data@, pos as int) == Some((read.0 as nat, read.1 as nat)),
{
    assert(data@.len() == data.len());
    let marker: u8 = data[pos];
    if marker < 0xfd {
        (marker as u64, 1)
    } else if marker == 0xfd {
        (read_le(data, pos + 1, 2), 3)
    } else if marker == 0xfe {
        (read_le(data, pos + 1, 4), 5)
    } else {
        (read_le(data, pos + 1, 8), 9)
    }
}

/// The encoding of `v` on its own.
pub fn encode_varint(v: u64) -> (out: Vec<u8>)
    ensures
        out@ == varint_bytes(v as nat),
{
    let mut out: Vec<u8> = Vec::new();
    write_varint(&mut out, v);
    assert(out@ =~= varint_bytes(v as nat));
    out
}

/// Appends the encoding of `v`.
pub fn write_varint(out: &mut Vec<u8>, v: u64)
    ensures
        final(out)@ == old(out)@ + varint_bytes(v as nat),
{
    if v < 0xfd {
        out.push(v as u8);
    } else if v <= 0xffff {
        out.push(0xfd);
        push_le(out, v, 2);
    } else if v <= 0xffff_ffff {
        out.push(0xfe);
        push_le(out, v, 4);
    } else {
        out.push(0xff);
        push_le(out, v, 8);
    }
    assert(out@ =~= old(out)@ + varint_bytes(v as nat));
}

/// Appends `data` behind its length.
pub fn push_var_bytes(out: &mut Vec<u8>, data: &[u8])
    ensures
        final(out)@ == old(out)@ + var_bytes(data@),
{
    write_varint(out, data.len() as u64);
    push_all(out, data);
    assert(out@ =~= old(out)@ + var_bytes(data@));
}

} // verus!
