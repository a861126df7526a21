//! What the chain asks of transactions, targets, addresses and shares.

use crate::bytes::{be_value, le_bytes, le_value, pow256, zeros};
use crate::coinbase::{coinbase_script, height_bytes, height_bytes_read_back, minimal_le};
use crate::encoding_laws::powers_are_those_of_arithmetic;
use crate::hash::{merkle_parents, merkle_root_of, sha256_of, sha256d_of};
use crate::hexcode;
use crate::pow::{epoch_of, keccak256_of, light_hash, seed_of_epoch};
use crate::target::{compact_fits, compact_target, difficulty_target};
use crate::transaction::{
    has_txid, inputs_bytes, outputs_bytes, stacks_bytes, strip_gives_legacy_form, txid_of,
    Transaction, TxIn, TxOut,
};
use crate::varint::{var_bytes, varint_bytes};
use crate::verify::{accepted_hash, raw_mix_hash};
use vstd::arithmetic::div_mod::lemma_fundamental_div_mod;
use vstd::arithmetic::power::{lemma_pow_positive, pow};
use vstd::prelude::*;

verus! {

/// The double hash is the hash of the hash.
pub proof fn double_hash_hashes_twice(data: Seq<u8>)
    ensures
        sha256d_of(data) == sha256_of(sha256_of(data)),
{
}

/// Where a level has an even number of hashes, each two neighbours make one parent, and the root
/// is that of the parents.
pub proof fn neighbours_are_hashed_together(level: Seq<Seq<u8>>, parents: Seq<Seq<u8>>)
    requires
        parents.len() > 0,
        level.len() == 2 * parents.len(),
        forall|i: int|
            0 <= i < parents.len() ==> #[trigger] parents[i] == sha256d_of(
                level[2 * i] + level[2 * i + 1],
            ),
    ensures
        merkle_root_of(level) == merkle_root_of(parents),
{
    assert(merkle_parents(level) =~= parents) by {
        assert forall|i: int| 0 <= i < parents.len() implies merkle_parents(level)[i]
            == parents[i] by {}
    }
}

/// Where a level above the root has an odd number of hashes, the last one counts twice.
pub proof fn last_hash_of_an_odd_level_counts_twice(level: Seq<Seq<u8>>)
    requires
        level.len() > 1,
        level.len() % 2 == 1,
    ensures
        merkle_root_of(level) == merkle_root_of(level.push(level.last())),
{
    let longer = level.push(level.last());
    assert forall|i: int| 0 <= i < (level.len() + 1) / 2 implies merkle_parents(level)[i]
        == merkle_parents(longer)[i] by {
        assert(longer[2 * i] == level[2 * i]);
        if 2 * i + 1 < level.len() {
            assert(longer[2 * i + 1] == level[2 * i + 1]);
        } else {
            assert(longer[2 * i + 1] == level.last());
        }
    }
    assert(merkle_parents(level) =~= merkle_parents(longer));
}

/// A single hash is its own root, and no hashes have zeros for their root.
pub proof fn smallest_trees(hash: Seq<u8>)
    ensures
        merkle_root_of(seq![hash]) == hash,
        merkle_root_of(Seq::empty()) == zeros(32),
        zeros(32).len() == 32,
        forall|i: int| 0 <= i < 32 ==> #[trigger] zeros(32)[i] == 0u8,
{
}

/// The form with witness data is the form without, with two bytes for marker and flag behind the
/// version and the witness stacks before the lock time.
pub proof fn witness_form_extends_the_plain_form(tx: Transaction)
    requires
        tx.wf(),
    ensures
        ({
            let plain = tx.legacy_bytes();
            let full = tx.segwit_bytes();
            let stacks = stacks_bytes(tx.witness);
            let n = plain.len() as int;
            &&& n >= 8
            &&& full == plain.take(4) + seq![0u8, 1u8] + plain.subrange(4, n - 4) + stacks
                + plain.skip(n - 4)
            &&& plain.take(4) == tx.version
            &&& plain.skip(n - 4) == tx.lock_time
        }),
{
    let plain = tx.legacy_bytes();
    let n = plain.len() as int;
    let body = tx.body();
    assert(plain.len() == 8 + body.len());
    assert(plain.take(4) =~= tx.version);
    assert(plain.skip(n - 4) =~= tx.lock_time);
    assert(plain.subrange(4, n - 4) =~= body);
    assert(tx.segwit_bytes() =~= plain.take(4) + seq![0u8, 1u8] + plain.subrange(4, n - 4)
        + stacks_bytes(tx.witness) + plain.skip(n - 4));
}

/// A further output stands behind the others: eight bytes for its value, then its script behind
/// its length. A further input stands behind the others: what it spends, then its script behind
/// its length, then its sequence number. Both come behind their numbers, the inputs first.
pub proof fn inputs_and_outputs_follow_each_other(
    inputs: Seq<TxIn>,
    input: TxIn,
    outputs: Seq<TxOut>,
    output: TxOut,
    tx: Transaction,
)
    ensures
        inputs_bytes(Seq::empty()) == Seq::<u8>::empty(),
        outputs_bytes(Seq::empty()) == Seq::<u8>::empty(),
        inputs_bytes(inputs.push(input)) == inputs_bytes(inputs) + (input.outpoint + var_bytes(
            input.script,
        ) + input.sequence),
        outputs_bytes(outputs.push(output)) == outputs_bytes(outputs) + (le_bytes(output.value, 8)
            + var_bytes(output.script)),
        tx.legacy_bytes() == tx.version + (varint_bytes(tx.inputs.len()) + inputs_bytes(tx.inputs)
            + varint_bytes(tx.outputs.len()) + outputs_bytes(tx.outputs)) + tx.lock_time,
{
    lemma_inputs_push(inputs, input);
    lemma_outputs_push(outputs, output);
}

proof fn lemma_inputs_push(list: Seq<TxIn>, input: TxIn)
    ensures
        inputs_bytes(list.push(input)) == inputs_bytes(list) + (input.outpoint + var_bytes(
            input.script,
        ) + input.sequence),
    decreases list.len(),
{
    let longer = list.push(input);
    let bytes = input.outpoint + var_bytes(input.script) + input.sequence;
    if list.len() == 0 {
        assert(longer.drop_first() =~= list);
        assert(inputs_bytes(longer) =~= inputs_bytes(list) + bytes);
    } else {
        lemma_inputs_push(list.drop_first(), input);
        assert(longer.drop_first() =~= list.drop_first().push(input));
        assert(inputs_bytes(longer) =~= inputs_bytes(list) + bytes);
    }
}

proof fn lemma_outputs_push(list: Seq<TxOut>, output: TxOut)
    ensures
        outputs_bytes(list.push(output)) == outputs_bytes(list) + (le_bytes(output.value, 8)
            + var_bytes(output.script)),
    decreases list.len(),
{
    let longer = list.push(output);
    let bytes = le_bytes(output.value, 8) + var_bytes(output.script);
    if list.len() == 0 {
        assert(longer.drop_first() =~= list);
        assert(outputs_bytes(longer) =~= outputs_bytes(list) + bytes);
    } else {
        lemma_outputs_push(list.drop_first(), output);
        assert(longer.drop_first() =~= list.drop_first().push(output));
        assert(outputs_bytes(longer) =~= outputs_bytes(list) + bytes);
    }
}

/// Two transactions that differ in their witness data alone have one id, the double hash of the
/// form without them. Bytes that do not announce witness data are hashed as they stand.
pub proof fn ids_leave_witness_data_out(tx: Transaction, witness: Seq<Seq<Seq<u8>>>, raw: Seq<u8>)
    requires
        tx.wf(),
        (Transaction { witness, ..tx }).wf(),
        raw.len() <= 6 || raw[4] != 0 || raw[5] != 1,
    ensures
        txid_of(tx.segwit_bytes()) == sha256d_of(tx.legacy_bytes()),
        txid_of((Transaction { witness, ..tx }).segwit_bytes()) == txid_of(tx.segwit_bytes()),
        has_txid(tx.segwit_bytes()),
        has_txid(raw),
        txid_of(raw) == sha256d_of(raw),
{
    strip_gives_legacy_form(tx);
    strip_gives_legacy_form(Transaction { witness, ..tx });
}

proof fn lemma_pow256_step(k: nat)
    ensures
        pow256(k + 1) == 256 * pow256(k),
        pow256(0) == 1,
{
}

/// One more in the exponent of a compact target shifts the target by one byte, and what does not
/// fit below is cut off. At exponent three the target is the coefficient, whose top bit counts for
/// nothing.
pub proof fn exponents_shift_compact_targets(exponent: u32, coefficient: u32)
    requires
        exponent < 255,
        coefficient < 0x80_0000,
    ensures
        compact_target((3 * 0x100_0000 + coefficient) as u32) == coefficient,
        compact_target((exponent * 0x100_0000 + 0x80_0000 + coefficient) as u32) == compact_target(
            (exponent * 0x100_0000 + coefficient) as u32,
        ),
        exponent >= 3 ==> compact_target(((exponent + 1) * 0x100_0000 + coefficient) as u32) == 256
            * compact_target((exponent * 0x100_0000 + coefficient) as u32),
        exponent < 3 ==> compact_target((exponent * 0x100_0000 + coefficient) as u32)
            == compact_target(((exponent + 1) * 0x100_0000 + coefficient) as u32) / 256,
        compact_fits((exponent * 0x100_0000 + coefficient) as u32) <==> exponent <= 32,
{
    let bits = (exponent * 0x100_0000 + coefficient) as u32;
    let next = ((exponent + 1) * 0x100_0000 + coefficient) as u32;
    let signed = (exponent * 0x100_0000 + 0x80_0000 + coefficient) as u32;
    let c = coefficient as int;
    assert(bits / 0x100_0000 == exponent && bits % 0x80_0000 == coefficient);
    assert(next / 0x100_0000 == exponent + 1 && next % 0x80_0000 == coefficient);
    assert(signed / 0x100_0000 == exponent && signed % 0x80_0000 == coefficient);
    assert(pow256(0) == 1 && pow256(1) == 0x100 && pow256(2) == 0x1_0000 && pow256(3)
        == 0x100_0000) by {
        reveal_with_fuel(pow256, 4);
    }
    if exponent >= 3 {
        let k = (exponent - 3) as nat;
        lemma_pow256_step(k);
        let p = pow256(k) as int;
        assert(c * (256 * p) == 256 * (c * p)) by (nonlinear_arith);
        if exponent == 3 {
            assert(c * 1 == c);
            assert(c / 1 == c);
            assert(c * 256 == 256 * c);
        }
    } else {
        let n = coefficient as nat;
        assert(n / 1 == n);
        assert(n / 0x100_0000 == (n / 0x1_0000) / 256);
        assert(n / 0x1_0000 == (n / 0x100) / 256);
        if exponent == 2 {
            assert(compact_target(bits) == n / 0x100);
            assert(compact_target(next) == n / 1);
        } else if exponent == 1 {
            assert(compact_target(bits) == n / 0x1_0000);
            assert(compact_target(next) == n / 0x100);
        } else {
            assert(compact_target(bits) == n / 0x100_0000);
            assert(compact_target(next) == n / 0x1_0000);
        }
    }
}

/// The target of a difficulty is the largest number that goes into the target of difficulty one
/// as often as the difficulty says. The target of difficulty one is `0xffff` in front of 26 zero
/// bytes, and difficulty zero asks for nothing.
pub proof fn targets_divide_that_of_difficulty_one(diff: nat)
    ensures
        difficulty_target(1) == 0xffff * pow(256, 26),
        diff > 0 ==> diff * difficulty_target(diff) <= difficulty_target(1) < diff * (
        difficulty_target(diff) + 1),
        difficulty_target(0) == pow(256, 32) - 1,
{
    powers_are_those_of_arithmetic(26);
    powers_are_those_of_arithmetic(32);
    lemma_pow_positive(256, 32);
    let one = 0xffff * pow(256, 26);
    assert(one / 1 == one);
    if diff > 0 {
        let d = diff as int;
        lemma_fundamental_div_mod(one, d);
        let q = one / d;
        let r = one % d;
        assert(0 <= r < d);
        assert(d * q <= one < d * (q + 1)) by (nonlinear_arith)
            requires
                one == d * q + r,
                0 <= r < d,
        ;
    }
}

/// The height is written in the fewest bytes that hold it with a clear top bit: it reads back, and
/// its last byte is zero only where the byte before it needs that.
pub proof fn heights_take_the_fewest_bytes(height: u32)
    ensures
        ({
            let bytes = height_bytes(height as nat);
            &&& le_value(bytes) == height
            &&& 1 <= bytes.len() <= 5
            &&& bytes.last() < 0x80
            &&& height > 0 ==> bytes.last() != 0 || (bytes.len() >= 2 && bytes[bytes.len() - 2]
                >= 0x80)
            &&& height == 0 ==> bytes == seq![0u8]
        }),
{
    height_bytes_read_back(height);
    lemma_minimal_le_last(height as nat);
}

proof fn lemma_minimal_le_last(n: nat)
    ensures
        n > 0 ==> minimal_le(n).len() > 0 && minimal_le(n).last() != 0,
    decreases n,
{
    if n > 0 {
        lemma_minimal_le_last(n / 256);
        if n / 256 == 0 {
            reveal_with_fuel(minimal_le, 2);
            assert(minimal_le(n) =~= seq![n as u8]);
        } else {
            assert(minimal_le(n).last() == minimal_le(n / 256).last());
        }
    }
}

/// The coinbase script pushes the height and then the text `/MEWC-SOLO/`, each behind its length.
pub proof fn coinbase_script_pushes_height_and_tag(height: u32)
    ensures
        ({
            let script = coinbase_script(height as nat);
            let n = script[0] as int;
            let tag = "/MEWC-SOLO/"@;
            &&& 1 <= n <= 5
            &&& script.len() == n + 13
            &&& script.subrange(1, 1 + n) == height_bytes(height as nat)
            &&& le_value(script.subrange(1, 1 + n)) == height
            &&& script[1 + n] == tag.len()
            &&& forall|i: int| 0 <= i < tag.len() ==> #[trigger] script[2 + n + i] == tag[i] as u8
            &&& tag.len() == 11
        }),
{
    height_bytes_read_back(height);
    reveal_strlit("/MEWC-SOLO/");
    let script = coinbase_script(height as nat);
    let n = height_bytes(height as nat).len() as int;
    assert(script.subrange(1, 1 + n) =~= height_bytes(height as nat));
}

/// Within an epoch of 7500 blocks the seed stays, each epoch's seed is the hash of the one before,
/// and the first epoch's seed is zero.
pub proof fn seeds_follow_each_other(height: u32, offset: u32)
    requires
        offset < 7500,
        height % 7500 == 0,
    ensures
        height + offset <= u32::MAX ==> seed_of_epoch(epoch_of((height + offset) as u32))
            == seed_of_epoch(epoch_of(height)),
        height + 7500 <= u32::MAX ==> seed_of_epoch(epoch_of((height + 7500) as u32))
            == keccak256_of(seed_of_epoch(epoch_of(height))),
        seed_of_epoch(epoch_of(offset)) == zeros(32),
{
}

/// A share is accepted exactly where header hash and mix hash are 64 hexadecimal digits each and
/// the hash of their bytes and the nonce is, as a big-endian number, at most the boundary. What is
/// handed back is that hash.
pub proof fn shares_are_judged_by_their_hash(
    h: Seq<char>,
    m: Seq<char>,
    header: Seq<u8>,
    mix: Seq<u8>,
    nonce: u64,
    boundary: Seq<u8>,
    other: Seq<char>,
)
    requires
        hexcode::decoded(h) == Some(header),
        hexcode::decoded(m) == Some(mix),
        header.len() == 32,
        mix.len() == 32,
        hexcode::decoded(other) is None || hexcode::decoded(other)->0.len() != 32,
    ensures
        ({
            let hash = light_hash(header, mix, nonce);
            &&& be_value(hash) <= be_value(boundary) ==> accepted_hash(h, m, nonce, boundary)
                == Some(hash)
            &&& be_value(hash) > be_value(boundary) ==> accepted_hash(h, m, nonce, boundary) is None
            &&& accepted_hash(other, m, nonce, boundary) is None
            &&& accepted_hash(h, other, nonce, boundary) is None
        }),
{
}

/// The mix hash stands in a block with its bytes in the reverse of the order in which it is
/// written as text.
pub proof fn mix_hashes_are_turned_round(m: Seq<char>, mix: Seq<u8>, other: Seq<char>, i: int)
    requires
        hexcode::decoded(m) == Some(mix),
        mix.len() == 32,
        0 <= i < 32,
        hexcode::decoded(other) is None || hexcode::decoded(other)->0.len() != 32,
    ensures
        raw_mix_hash(m) is Some,
        raw_mix_hash(m)->0.len() == 32,
        raw_mix_hash(m)->0[i] == mix[31 - i],
        raw_mix_hash(other) is None,
{
}

} // verus!
