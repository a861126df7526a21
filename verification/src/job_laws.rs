//! What jobs, coinbase transactions, headers and blocks hold.

use crate::address::script_of;
use crate::bytes::{
    be_value, le_bytes, le_value, lemma_be_bytes_value, lemma_le_bytes, lemma_pow256_8,
    lemma_pow256_add, lemma_pow256_monotone, lemma_pow256_positive, pow256,
};
use crate::coinbase::coinbase_script;
use crate::encoding_laws::hexadecimal_numbers_are_their_bytes;
use crate::hash::{merkle_root_of, sha256d_of};
use crate::hexcode;
use crate::job::{
    coinbase_is_well_formed, job_of_template, joined, Job, JobView,
};
use crate::node::{bits_number, text_of, BlockTemplate};
use crate::pow::{epoch_of, seed_of_epoch};
use crate::target::{compact_fits, compact_target};
use crate::transaction::{has_txid, txid_ignores_witness, txid_of};
use crate::varint::varint_bytes;
use vstd::prelude::*;

verus! {

/// The fee is paid where it is enabled and has an address. Then the miner gets the coinbase value
/// without the fee, else all of it. The outputs are those of the miner, the community fund where
/// there is one, the fee where it is paid, and the witness commitment where there is one, in this
/// order; the last carries nothing.
pub proof fn coinbase_outputs_have_their_order(job: Job, miner: Seq<char>)
    requires
        job@.fee_fits(),
    ensures
        ({
            let outputs = job@.coinbase_outputs(miner);
            let paid = job@.fee_sats is Some && job@.fee_address is Some;
            let fee = if paid {
                job@.fee_sats->0 as int
            } else {
                0
            };
            let funded = job@.community_address is Some;
            let committed = job@.witness_commitment_script is Some;
            let fee_at = if funded {
                2int
            } else {
                1
            };
            &&& fee <= job@.coinbase_value
            &&& job@.miner_value() == job@.coinbase_value - fee
            &&& job@.fee_value() == fee
            &&& outputs.len() == 1 + (if funded {
                1int
            } else {
                0
            }) + (if paid {
                1int
            } else {
                0
            }) + (if committed {
                1int
            } else {
                0
            })
            &&& outputs[0].value == job@.coinbase_value - fee
            &&& outputs[0].script == script_of(miner)
            &&& funded ==> outputs[1].value == job@.community_value && outputs[1].script
                == script_of(job@.community_address->0)
            &&& paid ==> outputs[fee_at].value == fee && outputs[fee_at].script == script_of(
                job@.fee_address->0,
            )
            &&& committed ==> outputs.last().value == 0 && outputs.last().script
                == job@.witness_commitment_script->0
        }),
{
}

/// The coinbase transaction has version two, one input that spends nothing and carries the height,
/// no lock time, and one witness item of 32 zero bytes.
pub proof fn coinbase_spends_nothing(job: JobView, miner: Seq<char>)
    ensures
        ({
            let tx = job.coinbase(miner);
            &&& tx.version.len() == 4 && le_value(tx.version) == 2
            &&& tx.inputs.len() == 1
            &&& tx.inputs[0].outpoint.len() == 36
            &&& forall|i: int| 0 <= i < 32 ==> #[trigger] tx.inputs[0].outpoint[i] == 0
            &&& le_value(tx.inputs[0].outpoint.skip(32)) == 0xffff_ffff
            &&& tx.inputs[0].script == coinbase_script(job.height as nat)
            &&& tx.inputs[0].sequence.len() == 4 && le_value(tx.inputs[0].sequence) == 0xffff_ffff
            &&& tx.outputs == job.coinbase_outputs(miner)
            &&& tx.lock_time.len() == 4 && le_value(tx.lock_time) == 0
            &&& tx.witness.len() == 1 && tx.witness[0].len() == 1
            &&& tx.witness[0][0].len() == 32
            &&& forall|i: int| 0 <= i < 32 ==> #[trigger] tx.witness[0][0][i] == 0
        }),
{
    lemma_pow256_8();
    lemma_le_bytes(2, 4);
    lemma_le_bytes(0, 4);
    lemma_le_bytes(0xffff_ffff, 4);
    let tx = job.coinbase(miner);
    assert(tx.inputs[0].outpoint.skip(32) =~= le_bytes(0xffff_ffff, 4));
}

/// The header holds version, previous hash, merkle root, time, compact target and height at their
/// places, numbers with the lowest byte first.
pub proof fn headers_have_their_layout(job: JobView, root: Seq<u8>)
    requires
        job.prev_hash_fits(),
        root.len() == 32,
    ensures
        ({
            let header = job.header_prefix(root);
            &&& header.len() == 80
            &&& le_value(header.subrange(0, 4)) == job.version
            &&& Some(header.subrange(4, 36)) == hexcode::decoded(job.prev_hash)
            &&& header.subrange(36, 68) == root
            &&& le_value(header.subrange(68, 72)) == job.time
            &&& le_value(header.subrange(72, 76)) == job.bits
            &&& le_value(header.subrange(76, 80)) == job.height
        }),
{
    lemma_pow256_8();
    lemma_le_bytes(job.version as nat, 4);
    lemma_le_bytes(job.time as nat, 4);
    lemma_le_bytes(job.bits as nat, 4);
    lemma_le_bytes(job.height as nat, 4);
    let header = job.header_prefix(root);
    assert(header.subrange(0, 4) =~= le_bytes(job.version as nat, 4));
    assert(header.subrange(4, 36) =~= hexcode::decoded(job.prev_hash)->0);
    assert(header.subrange(36, 68) =~= root);
    assert(header.subrange(68, 72) =~= le_bytes(job.time as nat, 4));
    assert(header.subrange(72, 76) =~= le_bytes(job.bits as nat, 4));
    assert(header.subrange(76, 80) =~= le_bytes(job.height as nat, 4));
}

/// What a miner works on is the double hash of the header, with its bytes turned round. The header
/// commits to the ids of all transactions, the coinbase's first, the others in the order of the
/// job.
pub proof fn header_hash_commits_to_all_transactions(job: Job, miner: Seq<char>, ids: Seq<Seq<u8>>)
    requires
        ids.len() == 1 + job@.tx_data.len(),
        ids[0] == sha256d_of(job@.coinbase(miner).legacy_bytes()),
        forall|i: int|
            0 <= i < job@.tx_data.len() ==> #[trigger] ids[1 + i] == txid_of(job@.tx_data[i]),
    ensures
        job@.merkle_root(miner) == merkle_root_of(ids),
        job@.header_hash(miner).reverse() == sha256d_of(job@.header_prefix(merkle_root_of(ids))),
{
    coinbase_is_well_formed(job, miner);
    txid_ignores_witness(job@.coinbase(miner));
    let own = job@.txids(txid_of(job@.coinbase(miner).segwit_bytes()));
    assert forall|k: int| 0 <= k < ids.len() implies own[k] == ids[k] by {
        if k > 0 {
            assert(ids[1 + (k - 1)] == txid_of(job@.tx_data[k - 1]));
        }
    }
    assert(own =~= ids);
    let hash = sha256d_of(job@.header_prefix(merkle_root_of(ids)));
    assert(hash.reverse().reverse() =~= hash);
}

/// A block is its header prefix, the nonce with its lowest byte first, the mix hash, the number of
/// transactions, the coinbase transaction with its witness, and the other transactions one behind
/// the other.
pub proof fn blocks_have_their_layout(
    job: JobView,
    miner: Seq<char>,
    prefix: Seq<u8>,
    nonce: u64,
    mix: Seq<u8>,
    list: Seq<Seq<u8>>,
    next: Seq<u8>,
)
    requires
        prefix.len() == 80,
        mix.len() == 32,
    ensures
        ({
            let block = job.block(prefix, nonce, mix, miner);
            let coinbase = job.coinbase(miner).segwit_bytes();
            let count = varint_bytes(1 + job.tx_data.len());
            let after = 120 + count.len() as int;
            &&& block.take(80) == prefix
            &&& block.subrange(80, 88).len() == 8
            &&& le_value(block.subrange(80, 88)) == nonce
            &&& block.subrange(88, 120) == mix
            &&& block.subrange(120, after) == count
            &&& block.subrange(after, after + coinbase.len()) == coinbase
            &&& block.skip(after + coinbase.len()) == joined(job.tx_data)
        }),
        joined(Seq::empty()) == Seq::<u8>::empty(),
        joined(list.push(next)) == joined(list) + next,
{
    lemma_pow256_8();
    lemma_le_bytes(nonce as nat, 8);
    let block = job.block(prefix, nonce, mix, miner);
    let coinbase = job.coinbase(miner).segwit_bytes();
    let count = varint_bytes(1 + job.tx_data.len());
    let after = 120 + count.len() as int;
    assert(block.take(80) =~= prefix);
    assert(block.subrange(80, 88) =~= le_bytes(nonce as nat, 8));
    assert(block.subrange(88, 120) =~= mix);
    assert(block.subrange(120, after) =~= count);
    assert(block.subrange(after, after + coinbase.len()) =~= coinbase);
    assert(block.skip(after + coinbase.len()) =~= joined(job.tx_data));
    assert(list.push(next).drop_last() =~= list);
}

/// A job can be mined exactly where its fee does not exceed the coinbase value, its previous hash
/// spells 32 bytes, and the id of each transaction can be taken.
pub proof fn what_makes_a_job_minable(job: JobView)
    requires
        job.tx_data.len() < usize::MAX,
    ensures
        job.minable() <==> {
            &&& job.fee_sats is Some && job.fee_address is Some ==> job.fee_sats->0
                <= job.coinbase_value
            &&& hexcode::decoded(job.prev_hash) is Some
            &&& hexcode::decoded(job.prev_hash)->0.len() == 32
            &&& forall|i: int| 0 <= i < job.tx_data.len() ==> has_txid(#[trigger] job.tx_data[i])
        },
{
}

proof fn lemma_compact_target_fits(bits: u32)
    requires
        compact_fits(bits),
    ensures
        compact_target(bits) < pow256(32),
{
    let exponent = (bits / 0x0100_0000) as nat;
    let c = (bits % 0x0080_0000) as int;
    assert(pow256(3) == 0x100_0000) by {
        reveal_with_fuel(pow256, 4);
    }
    if exponent <= 3 {
        let k = (3 - exponent) as nat;
        lemma_pow256_positive(k);
        let p = pow256(k) as int;
        assert(c / p <= c) by (nonlinear_arith)
            requires
                c >= 0,
                p > 0,
        ;
        lemma_pow256_monotone(3, 32);
    } else {
        let k = (exponent - 3) as nat;
        lemma_pow256_positive(k);
        lemma_pow256_add(3, k);
        lemma_pow256_monotone(3 + k, 32);
        let p = pow256(k) as int;
        assert(c * p < 0x100_0000 * p) by (nonlinear_arith)
            requires
                0 <= c < 0x100_0000,
                p > 0,
        ;
    }
}

/// A job holds what its template says: hashes that the template shows as text stand in it with
/// their bytes turned round, and the network boundary is the target that the template's bits stand
/// for, as a big-endian number.
pub proof fn jobs_hold_what_templates_say(
    t: BlockTemplate,
    id: Seq<char>,
    fee_address: Option<Seq<char>>,
    fee_sats: Option<u64>,
    bits: u32,
    prev: Seq<u8>,
    raws: Seq<Seq<u8>>,
    wtxids: Seq<Seq<u8>>,
    script: Seq<u8>,
)
    requires
        bits_number(t.bits@) == Some(bits as nat),
        compact_fits(bits),
        hexcode::decoded(t.previousblockhash@) == Some(prev),
        raws.len() == t.transactions@.len(),
        wtxids.len() == t.transactions@.len(),
        forall|i: int|
            0 <= i < raws.len() ==> hexcode::decoded((#[trigger] t.transactions@[i]).data@) == Some(
                raws[i],
            ) && hexcode::decoded(t.transactions@[i].hash@) == Some(wtxids[i]) && wtxids[i].len()
                == 32,
        t.witness_commitment matches Some(text) ==> hexcode::decoded(text@) == Some(script),
    ensures
        t.readable(),
        ({
            let job = job_of_template(t, id, fee_address, fee_sats);
            &&& job.id == id
            &&& job.height == t.height
            &&& job.version == t.version
            &&& job.time == t.curtime
            &&& job.bits == bits
            &&& job.network_boundary.len() == 32
            &&& be_value(job.network_boundary) == compact_target(bits)
            &&& job.coinbase_value == t.coinbasevalue
            &&& hexcode::decoded(job.prev_hash) == Some(prev.reverse())
            &&& job.tx_data == raws
            &&& job.tx_wtxids.len() == wtxids.len()
            &&& forall|i: int, k: int|
                0 <= i < wtxids.len() && 0 <= k < 32 ==> #[trigger] job.tx_wtxids[i][k]
                    == wtxids[i][31 - k]
            &&& job.community_address == text_of(t.community_address)
            &&& t.community_value is None ==> job.community_value == 0
            &&& t.community_value is Some ==> job.community_value == t.community_value->0
            &&& t.witness_commitment is None ==> job.witness_commitment_script is None
            &&& t.witness_commitment is Some ==> job.witness_commitment_script == Some(script)
            &&& job.seed_hash == hexcode::encoded(seed_of_epoch(epoch_of(t.height)))
            &&& job.fee_address == fee_address
            &&& job.fee_sats == fee_sats
        }),
{
    hexcode::decode_of_encode(prev.reverse());
    lemma_compact_target_fits(bits);
    lemma_be_bytes_value(compact_target(bits), 32);
    assert forall|i: int| 0 <= i < t.transactions@.len() implies (
    #[trigger] t.transactions@[i]).readable() by {
        assert(hexcode::decoded(t.transactions@[i].data@) == Some(raws[i]));
    }
    let job = job_of_template(t, id, fee_address, fee_sats);
    assert forall|i: int| 0 <= i < raws.len() implies job.tx_data[i] == raws[i] by {
        assert(hexcode::decoded(t.transactions@[i].data@) == Some(raws[i]));
    }
    assert(job.tx_data =~= raws);
    assert forall|i: int, k: int| 0 <= i < wtxids.len() && 0 <= k < 32 implies
        #[trigger] job.tx_wtxids[i][k] == wtxids[i][31 - k] by {
        assert(hexcode::decoded(t.transactions@[i].hash@) == Some(wtxids[i]));
    }
}

/// What a job stands for is what its fields hold.
pub proof fn jobs_stand_for_their_fields(job: Job, i: int)
    ensures
        job@.id == job.id@,
        job@.height == job.height,
        job@.version == job.version,
        job@.prev_hash == job.prev_hash@,
        job@.bits == job.bits,
        job@.time == job.time,
        job@.coinbase_value == job.coinbase_value,
        job@.community_value == job.community_value,
        job.community_address is None <==> job@.community_address is None,
        job.community_address matches Some(text) ==> job@.community_address == Some(text@),
        job.witness_commitment_script is None <==> job@.witness_commitment_script is None,
        job.witness_commitment_script matches Some(script) ==> job@.witness_commitment_script
            == Some(script@),
        job@.tx_data.len() == job.tx_data@.len(),
        0 <= i < job.tx_data@.len() ==> job@.tx_data[i] == job.tx_data@[i]@,
        job@.tx_wtxids.len() == job.tx_wtxids@.len(),
        0 <= i < job.tx_wtxids@.len() ==> job@.tx_wtxids[i] == job.tx_wtxids@[i]@,
        job@.network_boundary == job.network_boundary@,
        job@.seed_hash == job.seed_hash@,
        job.fee_address is None <==> job@.fee_address is None,
        job.fee_address matches Some(text) ==> job@.fee_address == Some(text@),
        job@.fee_sats == job.fee_sats,
{
}

/// The bits of a template are any hexadecimal number of 32 bits.
pub proof fn template_bits_are_a_number(digits: Seq<char>, pad: nat)
    requires
        digits.len() > 0,
        forall|i: int| 0 <= i < digits.len() ==> hexcode::digit_value(#[trigger] digits[i]) is Some,
        (pad + digits.len()) % 2 == 0,
    ensures
        ({
            let n = be_value(hexcode::decoded(Seq::new(pad, |i: int| '0') + digits)->0);
            &&& n <= 0xffff_ffff ==> bits_number(digits) == Some(n)
            &&& n > 0xffff_ffff ==> bits_number(digits) is None
        }),
{
    hexadecimal_numbers_are_their_bytes(digits, pad, u32::MAX as nat);
}

} // verus!
