//! Mining jobs: from a block template to headers, coinbase transactions and whole blocks.

use crate::address::{p2pkh_script, script_of};
use crate::bytes::{
    be_bytes, be_value, le_bytes, lemma_le_bytes, push_all, push_le, push_zeros, reversed, to_array32, zeros,
};
use crate::coinbase::{build_coinbase_scriptsig, coinbase_script, height_bytes_read_back};
use crate::hash::{hash_seqs, merkle_root, merkle_root_of, sha256d, sha256d_of};
use crate::hexcode;
use crate::ids::{fresh_id, is_fresh_id};
use crate::node::{bits_number, text_of, BlockTemplate};
use crate::pow::{epoch_of, seed_at_height, seed_of_epoch};
use crate::target::{bits_to_target, compact_target};
use crate::text::parse_hex;
use crate::transaction::{
    can_take_txid, has_txid, input_wf, output_bytes, outputs_bytes, inputs_bytes, input_bytes,
    items_bytes, sha256d_no_witness, stack_wf, stacks_bytes, txid_ignores_witness, txid_of,
    Transaction, TxIn, TxOut,
};
use crate::varint::{push_var_bytes, var_bytes, varint_bytes, write_varint};
use vstd::prelude::*;

verus! {

/// A mining job made from a block template.
#[derive(Debug, Clone)]
pub struct Job {
    pub id: String,
    pub height: u32,
    pub version: u32,
    /// 32 bytes in hexadecimal, in block byte order.
    pub prev_hash: String,
    pub bits: u32,
    pub time: u32,
    pub coinbase_value: u64,
    pub community_address: Option<String>,
    pub community_value: u64,
    pub witness_commitment_script: Option<Vec<u8>>,
    /// The serialized transactions of the template.
    pub tx_data: Vec<Vec<u8>>,
    /// Their ids with witness data, in block byte order.
    pub tx_wtxids: Vec<[u8; 32]>,
    /// The target that `bits` stands for.
    pub network_boundary: [u8; 32],
    /// The seed hash of the epoch in hexadecimal.
    pub seed_hash: String,
    pub fee_address: Option<String>,
    /// What the development fee takes of the coinbase value, nothing where the fee is disabled.
    pub fee_sats: Option<u64>,
}

/// A job as a mathematical value.
pub struct JobView {
    pub id: Seq<char>,
    pub height: u32,
    pub version: u32,
    pub prev_hash: Seq<char>,
    pub bits: u32,
    pub time: u32,
    pub coinbase_value: u64,
    pub community_address: Option<Seq<char>>,
    pub community_value: u64,
    pub witness_commitment_script: Option<Seq<u8>>,
    pub tx_data: Seq<Seq<u8>>,
    pub tx_wtxids: Seq<Seq<u8>>,
    pub network_boundary: Seq<u8>,
    pub seed_hash: Seq<char>,
    pub fee_address: Option<Seq<char>>,
    pub fee_sats: Option<u64>,
}

/// The bytes of a list of byte strings.
pub open spec fn byte_seqs(list: Seq<Vec<u8>>) -> Seq<Seq<u8>> {
    Seq::new(list.len(), |i: int| list[i]@)
}

/// The bytes of an optional byte string.
pub open spec fn bytes_of(data: Option<Vec<u8>>) -> Option<Seq<u8>> {
    match data {
        Some(d) => Some(d@),
        None => None,
    }
}

/// Byte strings one behind the other.
pub open spec fn joined(list: Seq<Seq<u8>>) -> Seq<u8>
    decreases list.len(),
{
    if list.len() == 0 {
        Seq::empty()
    } else {
        joined(list.drop_last()) + list.last()
    }
}

impl View for Job {
    type V = JobView;

    open spec fn view(&self) -> JobView {
        JobView {
            id: self.id@,
            height: self.height,
            version: self.version,
            prev_hash: self.prev_hash@,
            bits: self.bits,
            time: self.time,
            coinbase_value: self.coinbase_value,
            community_address: text_of(self.community_address),
            community_value: self.community_value,
            witness_commitment_script: bytes_of(self.witness_commitment_script),
            tx_data: byte_seqs(self.tx_data@),
            tx_wtxids: hash_seqs(self.tx_wtxids@),
            network_boundary: self.network_boundary@,
            seed_hash: self.seed_hash@,
            fee_address: text_of(self.fee_address),
            fee_sats: self.fee_sats,
        }
    }
}

impl JobView {
    /// The script of the fee output: there is one where the fee is enabled and has an address.
    pub open spec fn fee_script(self) -> Option<Seq<u8>> {
        match (self.fee_sats, self.fee_address) {
            (Some(_), Some(address)) => Some(script_of(address)),
            _ => None,
        }
    }

    /// What the fee output carries, zero where there is none.
    pub open spec fn fee_value(self) -> nat {
        if self.fee_script() is Some {
            self.fee_sats->0 as nat
        } else {
            0
        }
    }

    /// What is left for the miner.
    pub open spec fn miner_value(self) -> nat {
        (self.coinbase_value - self.fee_value()) as nat
    }

    /// The fee takes no more than the coinbase value.
    pub open spec fn fee_fits(self) -> bool {
        self.fee_value() <= self.coinbase_value
    }

    /// The previous hash spells 32 bytes.
    pub open spec fn prev_hash_fits(self) -> bool {
        hexcode::decoded(self.prev_hash) matches Some(hash) && hash.len() == 32
    }

    /// The id of every transaction can be taken.
    pub open spec fn transactions_fit(self) -> bool {
        forall|i: int| 0 <= i < self.tx_data.len() ==> has_txid(#[trigger] self.tx_data[i])
    }

    /// Whether headers and blocks can be made from the job.
    pub open spec fn minable(self) -> bool {
        self.fee_fits() && self.prev_hash_fits() && self.transactions_fit() && self.tx_data.len()
            < usize::MAX
    }

    /// The outputs of the coinbase transaction in their order: miner, community fund,
    /// development fee, witness commitment.
    pub open spec fn coinbase_outputs(self, miner_address: Seq<char>) -> Seq<TxOut> {
        let miner = seq![TxOut { value: self.miner_value(), script: script_of(miner_address) }];
        let with_community = match self.community_address {
            Some(address) => miner.push(
                TxOut { value: self.community_value as nat, script: script_of(address) },
            ),
            None => miner,
        };
        let with_fee = match self.fee_script() {
            Some(script) => with_community.push(TxOut { value: self.fee_value(), script }),
            None => with_community,
        };
        match self.witness_commitment_script {
            Some(script) => with_fee.push(TxOut { value: 0, script }),
            None => with_fee,
        }
    }

    /// The coinbase transaction that pays `miner_address`.
    pub open spec fn coinbase(self, miner_address: Seq<char>) -> Transaction {
        Transaction {
            version: le_bytes(2, 4),
            inputs: seq![
                TxIn {
                    outpoint: zeros(32) + le_bytes(0xffff_ffff, 4),
                    script: coinbase_script(self.height as nat),
                    sequence: le_bytes(0xffff_ffff, 4),
                },
            ],
            outputs: self.coinbase_outputs(miner_address),
            witness: seq![seq![zeros(32)]],
            lock_time: le_bytes(0, 4),
        }
    }

    /// The ids of all transactions of the block, the coinbase first.
    pub open spec fn txids(self, coinbase_txid: Seq<u8>) -> Seq<Seq<u8>> {
        seq![coinbase_txid] + self.tx_data.map_values(|raw: Seq<u8>| txid_of(raw))
    }

    /// The merkle root of the block that pays `miner_address`.
    pub open spec fn merkle_root(self, miner_address: Seq<char>) -> Seq<u8> {
        merkle_root_of(self.txids(txid_of(self.coinbase(miner_address).segwit_bytes())))
    }

    /// The header without nonce and mix hash.
    pub open spec fn header_prefix(self, merkle_root: Seq<u8>) -> Seq<u8> {
        le_bytes(self.version as nat, 4) + hexcode::decoded(self.prev_hash)->0 + merkle_root
            + le_bytes(self.time as nat, 4) + le_bytes(self.bits as nat, 4) + le_bytes(
            self.height as nat,
            4,
        )
    }

    /// The header hash that a miner works on, most significant byte first.
    pub open spec fn header_hash(self, miner_address: Seq<char>) -> Seq<u8> {
        sha256d_of(self.header_prefix(self.merkle_root(miner_address))).reverse()
    }

    /// The whole block.
    pub open spec fn block(
        self,
        header_prefix: Seq<u8>,
        nonce: u64,
        mix_hash_raw: Seq<u8>,
        miner_address: Seq<char>,
    ) -> Seq<u8> {
        header_prefix + le_bytes(nonce as nat, 8) + mix_hash_raw + varint_bytes(
            1 + self.tx_data.len(),
        ) + self.coinbase(miner_address).segwit_bytes() + joined(self.tx_data)
    }
}

/// The job that a readable template makes, under the identifier `id`.
pub open spec fn job_of_template(
    t: BlockTemplate,
    id: Seq<char>,
    fee_address: Option<Seq<char>>,
    fee_sats: Option<u64>,
) -> JobView {
    JobView {
        id,
        height: t.height,
        version: t.version,
        prev_hash: hexcode::encoded(hexcode::decoded(t.previousblockhash@)->0.reverse()),
        bits: bits_number(t.bits@)->0 as u32,
        time: t.curtime,
        coinbase_value: t.coinbasevalue,
        community_address: text_of(t.community_address),
        community_value: match t.community_value {
            Some(value) => value,
            None => 0,
        },
        witness_commitment_script: match text_of(t.witness_commitment) {
            Some(script) => hexcode::decoded(script),
            None => None,
        },
        tx_data: Seq::new(
            t.transactions@.len(),
            |i: int| hexcode::decoded(t.transactions@[i].data@)->0,
        ),
        tx_wtxids: Seq::new(
            t.transactions@.len(),
            |i: int| hexcode::decoded(t.transactions@[i].hash@)->0.reverse(),
        ),
        network_boundary: be_bytes(compact_target(bits_number(t.bits@)->0 as u32), 32),
        seed_hash: hexcode::encoded(seed_of_epoch(epoch_of(t.height))),
        fee_address,
        fee_sats,
    }
}

proof fn lemma_outputs_push(list: Seq<TxOut>, output: TxOut)
    ensures
        outputs_bytes(list.push(output)) == outputs_bytes(list) + output_bytes(output),
    decreases list.len(),
{
    let longer = list.push(output);
    if list.len() == 0 {
        assert(longer.drop_first() =~= list);
        assert(outputs_bytes(longer) =~= output_bytes(output));
        assert(outputs_bytes(list) + output_bytes(output) =~= output_bytes(output));
    } else {
        lemma_outputs_push(list.drop_first(), output);
        assert(longer.drop_first() =~= list.drop_first().push(output));
        assert(outputs_bytes(longer) =~= outputs_bytes(list) + output_bytes(output));
    }
}

/// One stack with one item of 32 zero bytes.
proof fn lemma_coinbase_witness()
    ensures
        stacks_bytes(seq![seq![zeros(32)]]) == seq![1u8, 0x20u8] + zeros(32),
{
    let stack = seq![zeros(32)];
    reveal_with_fuel(items_bytes, 2);
    reveal_with_fuel(stacks_bytes, 2);
    assert(items_bytes(stack) =~= var_bytes(zeros(32)));
    assert(stacks_bytes(seq![stack]) =~= seq![1u8, 0x20u8] + zeros(32));
}

/// Appends an output.
fn push_output(out: &mut Vec<u8>, value: u64, script: &[u8])
    ensures
        final(out)@ == old(out)@ + output_bytes(TxOut { value: value as nat, script: script@ }),
{
    push_le(out, value, 8);
    push_var_bytes(out, script);
    assert(out@ =~= old(out)@ + output_bytes(TxOut { value: value as nat, script: script@ }));
}

impl Job {
    /// The job that `t` makes, under a given identifier.
    pub fn with_id(
        t: BlockTemplate,
        id: String,
        fee_address: Option<String>,
        fee_sats: Option<u64>,
    ) -> (job: Job)
        requires
            t.readable(),
        ensures
            job@ == job_of_template(t, id@, text_of(fee_address), fee_sats),
            be_value(job.network_boundary@) == compact_target(job.bits),
    {
        let bits: u32 = match parse_hex(t.bits.as_str(), u32::MAX as u64) {
            Some(n) => n as u32,
            None => 0,
        };
        let network_boundary: [u8; 32] = bits_to_target(bits);
        let seed: [u8; 32] = seed_at_height(t.height);
        let seed_hash: String = hexcode::encode(seed.as_slice());

        let total: usize = t.transactions.len();
        let mut tx_data: Vec<Vec<u8>> = Vec::new();
        let mut tx_wtxids: Vec<[u8; 32]> = Vec::new();
        let mut i: usize = 0;
        while i < total
            invariant
                i <= total,
                total == t.transactions@.len(),
                t.readable(),
                tx_data@.len() == i,
                tx_wtxids@.len() == i,
                forall|j: int|
                    0 <= j < i ==> (#[trigger] tx_data@[j])@ == hexcode::decoded(
                        t.transactions@[j].data@,
                    )->0,
                forall|j: int|
                    0 <= j < i ==> (#[trigger] tx_wtxids@[j])@ == hexcode::decoded(
                        t.transactions@[j].hash@,
                    )->0.reverse(),
            decreases total - i,
        {
            assert(t.transactions@[i as int].readable());
            match hexcode::decode(t.transactions[i].data.as_str()) {
                Some(data) => {
                    tx_data.push(data);
                },
                None => {
                    assert(false);
                },
            }
            match hexcode::decode(t.transactions[i].hash.as_str()) {
                Some(wtxid) => {
                    let raw: Vec<u8> = reversed(wtxid.as_slice());
                    tx_wtxids.push(to_array32(raw.as_slice()));
                },
                None => {
                    assert(false);
                },
            }
            i = i + 1;
        }

        let witness_commitment_script: Option<Vec<u8>> = match &t.witness_commitment {
            Some(script) => hexcode::decode(script.as_str()),
            None => None,
        };
        let prev_hash: String = match hexcode::decode(t.previousblockhash.as_str()) {
            Some(prev) => {
                let raw: Vec<u8> = reversed(prev.as_slice());
                hexcode::encode(raw.as_slice())
            },
            None => String::new(),
        };
        let community_value: u64 = match t.community_value {
            Some(value) => value,
            None => 0,
        };
        let ghost fee_address_text = text_of(fee_address);
        let ghost id_text = id@;
        let ghost template = t;
        let job = Job {
            id,
            height: t.height,
            version: t.version,
            prev_hash,
            bits,
            time: t.curtime,
            coinbase_value: t.coinbasevalue,
            community_address: t.community_address,
            community_value,
            witness_commitment_script,
            tx_data,
            tx_wtxids,
            network_boundary,
            seed_hash,
            fee_address,
            fee_sats,
        };
        proof {
            let view = job_of_template(template, id_text, fee_address_text, fee_sats);
            assert(job@.tx_data =~= view.tx_data);
            assert(job@.tx_wtxids =~= view.tx_wtxids);
        }
        job
    }

    /// The job that `t` makes, under a new random identifier of eight hexadecimal digits.
    pub fn from_template(
        t: BlockTemplate,
        fee_address: Option<String>,
        fee_sats: Option<u64>,
    ) -> (job: Job)
        requires
            t.readable(),
        ensures
            job@ == job_of_template(t, job.id@, text_of(fee_address), fee_sats),
            be_value(job.network_boundary@) == compact_target(job.bits),
            is_fresh_id(job.id@, 4),
            job.id@.len() == 8,
    {
        let id: String = fresh_id(4);
        Job::with_id(t, id, fee_address, fee_sats)
    }

    fn fee_script(&self) -> (script: Option<Vec<u8>>)
        ensures
            bytes_of(script) == self@.fee_script(),
    {
        if self.fee_sats.is_some() {
            match &self.fee_address {
                Some(address) => Some(p2pkh_script(address.as_str())),
                None => None,
            }
        } else {
            None
        }
    }

    fn fee_value(&self) -> (value: u64)
        ensures
            value == self@.fee_value(),
    {
        match (self.fee_sats, &self.fee_address) {
            (Some(sats), Some(_)) => sats,
            _ => 0,
        }
    }

    /// What the miner and the development fee get of the coinbase value.
    pub fn coinbase_split(&self) -> (split: (u64, u64))
        requires
            self@.fee_fits(),
        ensures
            split.0 == self@.miner_value(),
            split.1 == self@.fee_value(),
    {
        let fee_value: u64 = self.fee_value();
        (self.coinbase_value - fee_value, fee_value)
    }

    /// The outputs of the coinbase transaction, and how many there are.
    fn build_outputs(&self, miner_address: &str) -> (built: (Vec<u8>, u8))
        requires
            self@.fee_fits(),
        ensures
            built.0@ == outputs_bytes(self@.coinbase_outputs(miner_address@)),
            built.1 == self@.coinbase_outputs(miner_address@).len(),
            built.1 <= 4,
    {
        let (miner_value, fee_value) = self.coinbase_split();
        let mut outputs: Vec<u8> = Vec::new();
        let mut num_outputs: u8 = 1;
        let ghost mut list: Seq<TxOut> = Seq::empty();

        let miner_script: Vec<u8> = p2pkh_script(miner_address);
        push_output(&mut outputs, miner_value, miner_script.as_slice());
        proof {
            let o = TxOut { value: miner_value as nat, script: miner_script@ };
            lemma_outputs_push(list, o);
            list = list.push(o);
            assert(outputs@ =~= outputs_bytes(list));
            assert(list =~= seq![o]);
        }
        // The community fund has to stand at index 1.
        if let Some(address) = &self.community_address {
            let script: Vec<u8> = p2pkh_script(address.as_str());
            push_output(&mut outputs, self.community_value, script.as_slice());
            num_outputs = num_outputs + 1;
            proof {
                let o = TxOut { value: self.community_value as nat, script: script@ };
                lemma_outputs_push(list, o);
                list = list.push(o);
            }
        }
        if let Some(script) = self.fee_script() {
            push_output(&mut outputs, fee_value, script.as_slice());
            num_outputs = num_outputs + 1;
            proof {
                let o = TxOut { value: fee_value as nat, script: script@ };
                lemma_outputs_push(list, o);
                list = list.push(o);
            }
        }
        if let Some(script) = &self.witness_commitment_script {
            push_output(&mut outputs, 0, script.as_slice());
            num_outputs = num_outputs + 1;
            proof {
                let o = TxOut { value: 0, script: script@ };
                lemma_outputs_push(list, o);
                list = list.push(o);
            }
        }
        assert(list =~= self@.coinbase_outputs(miner_address@));
        (outputs, num_outputs)
    }

    /// The single input of the coinbase transaction.
    fn build_input(&self) -> (raw: Vec<u8>)
        ensures
            forall|address: Seq<char>|
                raw@ == inputs_bytes(#[trigger] self@.coinbase(address).inputs),
    {
        let mut raw: Vec<u8> = Vec::new();
        push_zeros(&mut raw, 32);
        push_le(&mut raw, 0xffff_ffff, 4);
        let script: Vec<u8> = build_coinbase_scriptsig(self.height);
        push_var_bytes(&mut raw, script.as_slice());
        push_le(&mut raw, 0xffff_ffff, 4);
        assert forall|address: Seq<char>| raw@ == inputs_bytes(
            #[trigger] self@.coinbase(address).inputs,
        ) by {
            let inputs = self@.coinbase(address).inputs;
            reveal_with_fuel(inputs_bytes, 2);
            assert(raw@ =~= input_bytes(inputs[0]));
            assert(inputs_bytes(inputs) =~= input_bytes(inputs[0]));
        }
        raw
    }

    /// The coinbase transaction that pays `miner_address`, with its witness data.
    pub fn build_coinbase(&self, miner_address: &str) -> (raw: Vec<u8>)
        requires
            self@.fee_fits(),
        ensures
            raw@ == self@.coinbase(miner_address@).segwit_bytes(),
    {
        let ghost tx = self@.coinbase(miner_address@);
        let inputs: Vec<u8> = self.build_input();
        let (outputs, num_outputs) = self.build_outputs(miner_address);
        let mut raw: Vec<u8> = Vec::new();
        push_le(&mut raw, 2, 4);
        raw.push(0x00);
        raw.push(0x01);
        raw.push(0x01);
        push_all(&mut raw, inputs.as_slice());
        raw.push(num_outputs);
        push_all(&mut raw, outputs.as_slice());
        raw.push(0x01);
        raw.push(0x20);
        push_zeros(&mut raw, 32);
        push_le(&mut raw, 0, 4);
        proof {
            lemma_coinbase_witness();
            assert(inputs@ == inputs_bytes(tx.inputs));
            assert(raw@ =~= tx.segwit_bytes());
        }
        raw
    }

    /// Whether headers and blocks can be made from the job.
    pub fn is_minable(&self) -> (can: bool)
        ensures
            can == self@.minable(),
    {
        if self.fee_value() > self.coinbase_value {
            return false;
        }
        match hexcode::decode(self.prev_hash.as_str()) {
            Some(prev) => {
                if prev.len() != 32 {
                    return false;
                }
            },
            None => {
                return false;
            },
        }
        let total: usize = self.tx_data.len();
        if total == usize::MAX {
            return false;
        }
        let mut i: usize = 0;
        while i < total
            invariant
                i <= total,
                total == self.tx_data@.len(),
                forall|j: int| 0 <= j < i ==> has_txid(#[trigger] self@.tx_data[j]),
            decreases total - i,
        {
            if !can_take_txid(self.tx_data[i].as_slice()) {
                assert(!has_txid(self@.tx_data[i as int]));
                return false;
            }
            i = i + 1;
        }
        true
    }

    /// The merkle root of the block whose coinbase transaction has the given id.
    pub fn compute_merkle_root(&self, coinbase_txid: [u8; 32]) -> (root: [u8; 32])
        requires
            self@.transactions_fit(),
        ensures
            root@ == merkle_root_of(self@.txids(coinbase_txid@)),
    {
        let mut hashes: Vec<[u8; 32]> = Vec::new();
        hashes.push(coinbase_txid);
        let total: usize = self.tx_data.len();
        let mut i: usize = 0;
        while i < total
            invariant
                i <= total,
                total == self.tx_data@.len(),
                self@.transactions_fit(),
                hashes@.len() == i + 1,
                hashes@[0] == coinbase_txid,
                forall|j: int|
                    0 <= j < i ==> (#[trigger] hashes@[j + 1])@ == txid_of(self@.tx_data[j]),
            decreases total - i,
        {
            assert(has_txid(self@.tx_data[i as int]));
            let id: [u8; 32] = sha256d_no_witness(self.tx_data[i].as_slice());
            hashes.push(id);
            i = i + 1;
        }
        proof {
            let ids = self@.txids(coinbase_txid@);
            let seqs = hash_seqs(hashes@);
            assert(seqs.len() == ids.len());
            assert forall|k: int| 0 <= k < ids.len() implies seqs[k] == ids[k] by {
                if k > 0 {
                    assert(hashes@[(k - 1) + 1]@ == txid_of(self@.tx_data[k - 1]));
                }
            }
            assert(seqs =~= ids);
        }
        merkle_root(&mut hashes)
    }

    /// The first 80 bytes of the block header: all of it but nonce and mix hash.
    pub fn build_header_prefix(&self, merkle_root: [u8; 32]) -> (prefix: [u8; 80])
        requires
            self@.prev_hash_fits(),
        ensures
            prefix@ == self@.header_prefix(merkle_root@),
    {
        let mut h: Vec<u8> = Vec::new();
        push_le(&mut h, self.version as u64, 4);
        match hexcode::decode(self.prev_hash.as_str()) {
            Some(prev) => {
                push_all(&mut h, prev.as_slice());
            },
            None => {
                assert(false);
            },
        }
        push_all(&mut h, merkle_root.as_slice());
        push_le(&mut h, self.time as u64, 4);
        push_le(&mut h, self.bits as u64, 4);
        push_le(&mut h, self.height as u64, 4);
        assert(h@ =~= self@.header_prefix(merkle_root@));
        proof {
            lemma_le_bytes(self.version as nat, 4);
            lemma_le_bytes(self.time as nat, 4);
            lemma_le_bytes(self.bits as nat, 4);
            lemma_le_bytes(self.height as nat, 4);
        }
        let mut prefix: [u8; 80] = [0u8; 80];
        let mut i: usize = 0;
        while i < 80
            invariant
                i <= 80,
                h@.len() == 80,
                prefix@.len() == 80,
                forall|j: int| 0 <= j < i ==> prefix@[j] == h@[j],
            decreases 80 - i,
        {
            prefix[i] = h[i];
            i = i + 1;
        }
        assert(prefix@ =~= h@);
        prefix
    }

    /// The header hash that a miner works on, and the merkle root of the header.
    pub fn header_hash(&self, miner_address: &str) -> (hashes: ([u8; 32], [u8; 32]))
        requires
            self@.minable(),
        ensures
            hashes.0@ == self@.header_hash(miner_address@),
            hashes.1@ == self@.merkle_root(miner_address@),
    {
        let coinbase: Vec<u8> = self.build_coinbase(miner_address);
        proof {
            coinbase_is_well_formed(*self, miner_address@);
            txid_ignores_witness(self@.coinbase(miner_address@));
        }
        let coinbase_txid: [u8; 32] = sha256d_no_witness(coinbase.as_slice());
        let root: [u8; 32] = self.compute_merkle_root(coinbase_txid);
        let prefix: [u8; 80] = self.build_header_prefix(root);
        let raw: [u8; 32] = sha256d(prefix.as_slice());
        let hash: Vec<u8> = reversed(raw.as_slice());
        (to_array32(hash.as_slice()), root)
    }

    /// The whole block, ready to be submitted.
    pub fn serialize_block(
        &self,
        header_prefix: &[u8; 80],
        nonce64: u64,
        mix_hash_raw: &[u8; 32],
        miner_address: &str,
    ) -> (block: Vec<u8>)
        requires
            self@.fee_fits(),
            self@.tx_data.len() < usize::MAX,
        ensures
            block@ == self@.block(header_prefix@, nonce64, mix_hash_raw@, miner_address@),
    {
        let mut block: Vec<u8> = Vec::new();
        push_all(&mut block, header_prefix.as_slice());
        push_le(&mut block, nonce64, 8);
        push_all(&mut block, mix_hash_raw.as_slice());
        let total: usize = self.tx_data.len();
        write_varint(&mut block, (1 + total) as u64);
        let coinbase: Vec<u8> = self.build_coinbase(miner_address);
        push_all(&mut block, coinbase.as_slice());
        let ghost head = block@;
        let mut i: usize = 0;
        assert(block@ =~= head + joined(self@.tx_data.take(0)));
        while i < total
            invariant
                i <= total,
                total == self.tx_data@.len(),
                block@ == head + joined(self@.tx_data.take(i as int)),
            decreases total - i,
        {
            let ghost done = self@.tx_data.take(i + 1);
            push_all(&mut block, self.tx_data[i].as_slice());
            assert(done.drop_last() =~= self@.tx_data.take(i as int));
            i = i + 1;
            assert(block@ =~= head + joined(self@.tx_data.take(i as int)));
        }
        assert(self@.tx_data.take(total as int) =~= self@.tx_data);
        assert(block@ =~= self@.block(header_prefix@, nonce64, mix_hash_raw@, miner_address@));
        block
    }
}

/// Every coinbase transaction that a job makes is a well-formed transaction.
pub proof fn coinbase_is_well_formed(job: Job, miner_address: Seq<char>)
    ensures
        job@.coinbase(miner_address).wf(),
{
    let tx = job@.coinbase(miner_address);
    lemma_le_bytes(2, 4);
    lemma_le_bytes(0, 4);
    lemma_le_bytes(0xffff_ffff, 4);
    height_bytes_read_back(job.height);
    assert(input_wf(tx.inputs[0]));
    assert(stack_wf(tx.witness[0]));
    if let Some(script) = job.witness_commitment_script {
        assert(script.len() == script@.len());
    }
}

/// The sum of the values of a list of outputs.
pub open spec fn total_value(outputs: Seq<TxOut>) -> nat
    decreases outputs.len(),
{
    if outputs.len() == 0 {
        0
    } else {
        total_value(outputs.drop_last()) + outputs.last().value
    }
}

/// The miner is paid by the first output. The community fund is paid its full value by the
/// second output, whatever the fee is. Miner and fee share the coinbase value without loss, and
/// no output pays anything beyond these.
pub proof fn coinbase_pays_out(job: Job, miner_address: Seq<char>)
    requires
        job@.fee_fits(),
    ensures
        ({
            let outputs = job@.coinbase_outputs(miner_address);
            &&& outputs[0] == TxOut {
                value: job@.miner_value(),
                script: script_of(miner_address),
            }
            &&& job@.community_address matches Some(address) ==> outputs.len() >= 2
                && outputs[1] == (TxOut {
                value: job@.community_value as nat,
                script: script_of(address),
            })
            &&& job@.miner_value() + job@.fee_value() == job@.coinbase_value
            &&& total_value(outputs) == job@.coinbase_value + if job@.community_address is Some {
                job@.community_value as nat
            } else {
                0
            }
        }),
{
    let outputs = job@.coinbase_outputs(miner_address);
    reveal_with_fuel(total_value, 5);
    let miner = seq![TxOut { value: job@.miner_value(), script: script_of(miner_address) }];
    assert(total_value(miner) == job@.miner_value());
    let with_community = match job@.community_address {
        Some(address) => miner.push(
            TxOut { value: job@.community_value as nat, script: script_of(address) },
        ),
        None => miner,
    };
    if let Some(address) = job@.community_address {
        let o = TxOut { value: job@.community_value as nat, script: script_of(address) };
        assert(miner.push(o).drop_last() =~= miner);
    }
    let with_fee = match job@.fee_script() {
        Some(script) => with_community.push(TxOut { value: job@.fee_value(), script }),
        None => with_community,
    };
    if let Some(script) = job@.fee_script() {
        assert(with_fee.drop_last() =~= with_community);
    }
    assert(total_value(with_fee) == total_value(with_community) + job@.fee_value());
    if let Some(script) = job@.witness_commitment_script {
        assert(outputs.drop_last() =~= with_fee);
    }
}

/// With the fee disabled the whole coinbase value goes to the miner, and no fee output exists.
pub proof fn disabled_fee_pays_miner_all(job: Job, miner_address: Seq<char>)
    requires
        job.fee_sats is None,
    ensures
        job@.fee_fits(),
        job@.miner_value() == job@.coinbase_value,
        job@.coinbase_outputs(miner_address).len() == 1 + (if job@.community_address is Some {
            1int
        } else {
            0
        }) + (if job@.witness_commitment_script is Some {
            1int
        } else {
            0
        }),
{
}

/// The previous hash of a template, byte-reversed, stands in the header of its job. A readable
/// template with a 32-byte previous hash and well-formed transactions makes a minable job,
/// unless the fee exceeds the coinbase value.
pub proof fn template_makes_minable_job(
    t: BlockTemplate,
    id: Seq<char>,
    fee_address: Option<Seq<char>>,
    fee_sats: Option<u64>,
)
    requires
        t.readable(),
        hexcode::decoded(t.previousblockhash@)->0.len() == 32,
        t.transactions@.len() < usize::MAX,
        forall|i: int|
            0 <= i < t.transactions@.len() ==> has_txid(
                hexcode::decoded((#[trigger] t.transactions@[i]).data@)->0,
            ),
        job_of_template(t, id, fee_address, fee_sats).fee_fits(),
    ensures
        job_of_template(t, id, fee_address, fee_sats).minable(),
        hexcode::decoded(job_of_template(t, id, fee_address, fee_sats).prev_hash) == Some(
            hexcode::decoded(t.previousblockhash@)->0.reverse(),
        ),
{
    hexcode::decode_of_encode(hexcode::decoded(t.previousblockhash@)->0.reverse());
    let job = job_of_template(t, id, fee_address, fee_sats);
    assert forall|i: int| 0 <= i < job.tx_data.len() implies has_txid(
        #[trigger] job.tx_data[i],
    ) by {
        assert(job.tx_data[i] == hexcode::decoded(t.transactions@[i].data@)->0);
    }
}

/// The block made for an address opens with the very header whose hash the miner of that
/// address works on, followed by nonce and mix hash. Its header commits to exactly the
/// transactions that follow in the block: the coinbase that pays the address, then those of the
/// job.
pub proof fn block_carries_its_header(
    job: Job,
    address: Seq<char>,
    merkle_root: Seq<u8>,
    nonce: u64,
    mix_hash_raw: Seq<u8>,
)
    requires
        job@.minable(),
        merkle_root == job@.merkle_root(address),
        merkle_root.len() == 32,
        mix_hash_raw.len() == 32,
    ensures
        ({
            let coinbase = job@.coinbase(address).segwit_bytes();
            let block = job@.block(
                job@.header_prefix(merkle_root),
                nonce,
                mix_hash_raw,
                address,
            );
            let body = varint_bytes(1 + job@.tx_data.len()) + coinbase + joined(job@.tx_data);
            &&& sha256d_of(block.take(80)).reverse() == job@.header_hash(address)
            &&& block.subrange(36, 68) == merkle_root_of(
                seq![sha256d_of(job@.coinbase(address).legacy_bytes())] + job@.tx_data.map_values(
                    |raw: Seq<u8>| txid_of(raw),
                ),
            )
            &&& block.subrange(80, 88) == le_bytes(nonce as nat, 8)
            &&& block.subrange(88, 120) == mix_hash_raw
            &&& block.skip(120) == body
        }),
{
    let prefix = job@.header_prefix(merkle_root);
    let coinbase = job@.coinbase(address).segwit_bytes();
    let block = job@.block(prefix, nonce, mix_hash_raw, address);
    let body = varint_bytes(1 + job@.tx_data.len()) + coinbase + joined(job@.tx_data);
    lemma_le_bytes(job.version as nat, 4);
    lemma_le_bytes(job.time as nat, 4);
    lemma_le_bytes(job.bits as nat, 4);
    lemma_le_bytes(job.height as nat, 4);
    lemma_le_bytes(nonce as nat, 8);
    assert(prefix.len() == 80);
    assert(prefix.subrange(36, 68) =~= merkle_root);
    assert(block =~= prefix + le_bytes(nonce as nat, 8) + mix_hash_raw + body);
    assert(block.take(80) =~= prefix);
    assert(block.subrange(36, 68) =~= prefix.subrange(36, 68));
    assert(block.subrange(80, 88) =~= le_bytes(nonce as nat, 8));
    assert(block.subrange(88, 120) =~= mix_hash_raw);
    assert(block.skip(120) =~= body);
    coinbase_is_well_formed(job, address);
    txid_ignores_witness(job@.coinbase(address));
}

} // verus!
