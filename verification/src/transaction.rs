//! The transaction format: serialization with and without witness data, and transaction ids.

use crate::bytes::{le_bytes, le_value, lemma_le_bytes, lemma_pow256_8, push_range};
use crate::hash::{sha256d, sha256d_of};
use crate::varint::{
    read_of_write, read_varint, var_bytes, varint_at, varint_bytes, write_varint,
};
use vstd::prelude::*;

verus! {

/// An input: the output it spends (id and index), its script and its sequence number.
pub struct TxIn {
    pub outpoint: Seq<u8>,
    pub script: Seq<u8>,
    pub sequence: Seq<u8>,
}

/// An output: the value it carries and the script that guards it.
pub struct TxOut {
    pub value: nat,
    pub script: Seq<u8>,
}

/// A transaction. `witness` holds one stack of items for each input.
pub struct Transaction {
    pub version: Seq<u8>,
    pub inputs: Seq<TxIn>,
    pub outputs: Seq<TxOut>,
    pub witness: Seq<Seq<Seq<u8>>>,
    pub lock_time: Seq<u8>,
}

pub open spec fn input_bytes(input: TxIn) -> Seq<u8> {
    input.outpoint + var_bytes(input.script) + input.sequence
}

pub open spec fn output_bytes(output: TxOut) -> Seq<u8> {
    le_bytes(output.value, 8) + var_bytes(output.script)
}

pub open spec fn inputs_bytes(inputs: Seq<TxIn>) -> Seq<u8>
    decreases inputs.len(),
{
    if inputs.len() == 0 {
        Seq::empty()
    } else {
        input_bytes(inputs[0]) + inputs_bytes(inputs.drop_first())
    }
}

pub open spec fn outputs_bytes(outputs: Seq<TxOut>) -> Seq<u8>
    decreases outputs.len(),
{
    if outputs.len() == 0 {
        Seq::empty()
    } else {
        output_bytes(outputs[0]) + outputs_bytes(outputs.drop_first())
    }
}

pub open spec fn items_bytes(items: Seq<Seq<u8>>) -> Seq<u8>
    decreases items.len(),
{
    if items.len() == 0 {
        Seq::empty()
    } else {
        var_bytes(items[0]) + items_bytes(items.drop_first())
    }
}

pub open spec fn stacks_bytes(stacks: Seq<Seq<Seq<u8>>>) -> Seq<u8>
    decreases stacks.len(),
{
    if stacks.len() == 0 {
        Seq::empty()
    } else {
        varint_bytes(stacks[0].len()) + items_bytes(stacks[0]) + stacks_bytes(stacks.drop_first())
    }
}

impl Transaction {
    /// Fixed-size fields have their size, and every count and length fits its encoding.
    pub open spec fn wf(self) -> bool {
        &&& self.version.len() == 4
        &&& self.lock_time.len() == 4
        &&& self.inputs.len() <= u64::MAX
        &&& self.outputs.len() <= u64::MAX
        &&& self.witness.len() == self.inputs.len()
        &&& forall|i: int| 0 <= i < self.inputs.len() ==> input_wf(#[trigger] self.inputs[i])
        &&& forall|i: int|
            0 <= i < self.outputs.len() ==> (#[trigger] self.outputs[i]).script.len() <= u64::MAX
        &&& forall|i: int| 0 <= i < self.witness.len() ==> stack_wf(#[trigger] self.witness[i])
    }

    /// Inputs and outputs with their counts: what both forms of the transaction share.
    pub open spec fn body(self) -> Seq<u8> {
        varint_bytes(self.inputs.len()) + inputs_bytes(self.inputs) + varint_bytes(
            self.outputs.len(),
        ) + outputs_bytes(self.outputs)
    }

    /// The form without witness data, which the transaction id is taken from.
    pub open spec fn legacy_bytes(self) -> Seq<u8> {
        self.version + self.body() + self.lock_time
    }

    /// The form with witness data: marker and flag behind the version, the stacks before the
    /// lock time.
    pub open spec fn segwit_bytes(self) -> Seq<u8> {
        self.version + seq![0u8, 1u8] + self.body() + stacks_bytes(self.witness) + self.lock_time
    }
}

pub open spec fn input_wf(input: TxIn) -> bool {
    input.outpoint.len() == 36 && input.sequence.len() == 4 && input.script.len() <= u64::MAX
}

pub open spec fn stack_wf(stack: Seq<Seq<u8>>) -> bool {
    stack.len() <= u64::MAX && forall|i: int|
        0 <= i < stack.len() ==> (#[trigger] stack[i]).len() <= u64::MAX
}

/// Where the length-prefixed string at `pos` ends.
pub open spec fn skip_var_bytes(data: Seq<u8>, pos: int) -> Option<int> {
    match varint_at(data, pos) {
        Some((len, width)) => if pos + width + len <= data.len() {
            Some(pos + width + len)
        } else {
            None
        },
        None => None,
    }
}

/// Where the input at `pos` ends.
pub open spec fn skip_input(data: Seq<u8>, pos: int) -> Option<int> {
    match skip_var_bytes(data, pos + 36) {
        Some(end) => if end + 4 <= data.len() {
            Some(end + 4)
        } else {
            None
        },
        None => None,
    }
}

/// Where the output at `pos` ends.
pub open spec fn skip_output(data: Seq<u8>, pos: int) -> Option<int> {
    skip_var_bytes(data, pos + 8)
}

/// Where the witness stack at `pos` ends.
pub open spec fn skip_stack(data: Seq<u8>, pos: int) -> Option<int> {
    match varint_at(data, pos) {
        Some((count, width)) => skip_items(data, pos + width, count),
        None => None,
    }
}

pub open spec fn skip_inputs(data: Seq<u8>, pos: int, count: nat) -> Option<int>
    decreases count,
{
    if count == 0 {
        Some(pos)
    } else {
        match skip_input(data, pos) {
            Some(end) => skip_inputs(data, end, (count - 1) as nat),
            None => None,
        }
    }
}

pub open spec fn skip_outputs(data: Seq<u8>, pos: int, count: nat) -> Option<int>
    decreases count,
{
    if count == 0 {
        Some(pos)
    } else {
        match skip_output(data, pos) {
            Some(end) => skip_outputs(data, end, (count - 1) as nat),
            None => None,
        }
    }
}

pub open spec fn skip_items(data: Seq<u8>, pos: int, count: nat) -> Option<int>
    decreases count,
{
    if count == 0 {
        Some(pos)
    } else {
        match skip_var_bytes(data, pos) {
            Some(end) => skip_items(data, end, (count - 1) as nat),
            None => None,
        }
    }
}

pub open spec fn skip_stacks(data: Seq<u8>, pos: int, count: nat) -> Option<int>
    decreases count,
{
    if count == 0 {
        Some(pos)
    } else {
        match skip_stack(data, pos) {
            Some(end) => skip_stacks(data, end, (count - 1) as nat),
            None => None,
        }
    }
}

/// Where the parts of a transaction with witness data lie.
pub struct Layout {
    pub input_count: nat,
    pub inputs_start: int,
    pub inputs_end: int,
    pub output_count: nat,
    pub outputs_start: int,
    pub outputs_end: int,
    pub witness_end: int,
}

/// The layout of a transaction with witness data, where all its parts lie within `tx`.
pub open spec fn layout(tx: Seq<u8>) -> Option<Layout> {
    match varint_at(tx, 6) {
        Some((input_count, n)) => {
            let inputs_start = 6 + n as int;
            match skip_inputs(tx, inputs_start, input_count) {
                Some(inputs_end) => match varint_at(tx, inputs_end) {
                    Some((output_count, m)) => {
                        let outputs_start = inputs_end + m;
                        match skip_outputs(tx, outputs_start, output_count) {
                            Some(outputs_end) => match skip_stacks(tx, outputs_end, input_count) {
                                Some(witness_end) => if witness_end + 4 <= tx.len() {
                                    Some(
                                        Layout {
                                            input_count,
                                            inputs_start,
                                            inputs_end,
                                            output_count,
                                            outputs_start,
                                            outputs_end,
                                            witness_end,
                                        },
                                    )
                                } else {
                                    None
                                },
                                None => None,
                            },
                            None => None,
                        }
                    },
                    None => None,
                },
                None => None,
            }
        },
        None => None,
    }
}

/// A transaction with witness data, written again without marker, flag and witness.
pub open spec fn stripped(tx: Seq<u8>) -> Seq<u8> {
    let parts = layout(tx)->0;
    tx.subrange(0, 4) + varint_bytes(parts.input_count) + tx.subrange(
        parts.inputs_start,
        parts.inputs_end,
    ) + varint_bytes(parts.output_count) + tx.subrange(parts.outputs_start, parts.outputs_end)
        + tx.subrange(parts.witness_end, parts.witness_end + 4)
}

/// Whether marker and flag announce witness data.
pub open spec fn has_witness(tx: Seq<u8>) -> bool {
    tx.len() > 6 && tx[4] == 0x00 && tx[5] == 0x01
}

/// Whether the id of `raw` can be taken: witness data that is announced can be skipped.
pub open spec fn has_txid(raw: Seq<u8>) -> bool {
    has_witness(raw) ==> layout(raw) is Some
}

/// The transaction id: the double hash of the form without witness data.
pub open spec fn txid_of(raw: Seq<u8>) -> Seq<u8> {
    if has_witness(raw) {
        sha256d_of(stripped(raw))
    } else {
        sha256d_of(raw)
    }
}

/// Reads the integer at `pos` where all of it lies within `data`.
fn try_varint(data: &[u8], pos: usize) -> (read: Option<(u64, usize)>)
    ensures
        read is Some <==> varint_at(data@, pos as int) is Some,
        read matches Some((v, width)) ==> {
            &&& varint_at(data@, pos as int) == Some((v as nat, width as nat))
            &&& pos + width <= data@.len()
        },
{
    let total: usize = data.len();
    if pos >= total {
        return None;
    }
    let marker: u8 = data[pos];
    let width: usize = if marker < 0xfd {
        1
    } else if marker == 0xfd {
        3
    } else if marker == 0xfe {
        5
    } else {
        9
    };
    if total - pos < width {
        None
    } else {
        Some(read_varint(data, pos))
    }
}

/// Where the length-prefixed string at `pos` ends.
fn end_of_var_bytes(data: &[u8], pos: usize) -> (end: Option<usize>)
    ensures
        end is Some <==> skip_var_bytes(data@, pos as int) is Some,
        end matches Some(e) ==> {
            &&& skip_var_bytes(data@, pos as int) == Some(e as int)
            &&& pos <= e <= data@.len()
        },
{
    let total: usize = data.len();
    match try_varint(data, pos) {
        Some((len, width)) => {
            let start: usize = pos + width;
            if len > (total - start) as u64 {
                None
            } else {
                Some(start + len as usize)
            }
        },
        None => None,
    }
}

/// Where `count` inputs from `start` on end.
fn end_of_inputs(data: &[u8], start: usize, count: u64) -> (end: Option<usize>)
    requires
        start <= data@.len(),
    ensures
        end is Some <==> skip_inputs(data@, start as int, count as nat) is Some,
        end matches Some(e) ==> {
            &&& skip_inputs(data@, start as int, count as nat) == Some(e as int)
            &&& start <= e <= data@.len()
        },
{
    let total: usize = data.len();
    let mut pos: usize = start;
    let mut left: u64 = count;
    while left > 0
        invariant
            start <= pos <= total,
            total == data@.len(),
            skip_inputs(data@, start as int, count as nat) == skip_inputs(
                data@,
                pos as int,
                left as nat,
            ),
        decreases left,
    {
        if total - pos < 36 {
            return None;
        }
        match end_of_var_bytes(data, pos + 36) {
            Some(end) => {
                if total - end < 4 {
                    return None;
                }
                pos = end + 4;
            },
            None => {
                return None;
            },
        }
        left = left - 1;
    }
    Some(pos)
}

/// Where `count` outputs from `start` on end.
fn end_of_outputs(data: &[u8], start: usize, count: u64) -> (end: Option<usize>)
    requires
        start <= data@.len(),
    ensures
        end is Some <==> skip_outputs(data@, start as int, count as nat) is Some,
        end matches Some(e) ==> {
            &&& skip_outputs(data@, start as int, count as nat) == Some(e as int)
            &&& start <= e <= data@.len()
        },
{
    let total: usize = data.len();
    let mut pos: usize = start;
    let mut left: u64 = count;
    while left > 0
        invariant
            start <= pos <= total,
            total == data@.len(),
            skip_outputs(data@, start as int, count as nat) == skip_outputs(
                data@,
                pos as int,
                left as nat,
            ),
        decreases left,
    {
        if total - pos < 8 {
            return None;
        }
        match end_of_var_bytes(data, pos + 8) {
            Some(end) => {
                pos = end;
            },
            None => {
                return None;
            },
        }
        left = left - 1;
    }
    Some(pos)
}

/// Where the witness stack at `start` ends.
fn end_of_stack(data: &[u8], start: usize) -> (end: Option<usize>)
    ensures
        end is Some <==> skip_stack(data@, start as int) is Some,
        end matches Some(e) ==> {
            &&& skip_stack(data@, start as int) == Some(e as int)
            &&& start <= e <= data@.len()
        },
{
    assert(data@.len() == data.len());
    match try_varint(data, start) {
        Some((count, width)) => {
            let mut pos: usize = start + width;
            let mut left: u64 = count;
            while left > 0
                invariant
                    start <= pos <= data@.len(),
                    skip_stack(data@, start as int) == skip_items(data@, pos as int, left as nat),
                decreases left,
            {
                match end_of_var_bytes(data, pos) {
                    Some(end) => {
                        pos = end;
                    },
                    None => {
                        return None;
                    },
                }
                left = left - 1;
            }
            Some(pos)
        },
        None => None,
    }
}

/// Where `count` witness stacks from `start` on end.
fn end_of_stacks(data: &[u8], start: usize, count: u64) -> (end: Option<usize>)
    requires
        start <= data@.len(),
    ensures
        end is Some <==> skip_stacks(data@, start as int, count as nat) is Some,
        end matches Some(e) ==> {
            &&& skip_stacks(data@, start as int, count as nat) == Some(e as int)
            &&& start <= e <= data@.len()
        },
{
    let mut pos: usize = start;
    let mut left: u64 = count;
    while left > 0
        invariant
            start <= pos <= data@.len(),
            skip_stacks(data@, start as int, count as nat) == skip_stacks(
                data@,
                pos as int,
                left as nat,
            ),
        decreases left,
    {
        match end_of_stack(data, pos) {
            Some(end) => {
                pos = end;
            },
            None => {
                return None;
            },
        }
        left = left - 1;
    }
    Some(pos)
}

/// The places of a `Layout` as machine numbers.
struct Places {
    input_count: u64,
    inputs_start: usize,
    inputs_end: usize,
    output_count: u64,
    outputs_start: usize,
    outputs_end: usize,
    witness_end: usize,
}

impl Places {
    spec fn view(self) -> Layout {
        Layout {
            input_count: self.input_count as nat,
            inputs_start: self.inputs_start as int,
            inputs_end: self.inputs_end as int,
            output_count: self.output_count as nat,
            outputs_start: self.outputs_start as int,
            outputs_end: self.outputs_end as int,
            witness_end: self.witness_end as int,
        }
    }

    spec fn within(self, total: nat) -> bool {
        &&& 6 <= self.inputs_start <= self.inputs_end <= self.outputs_start <= self.outputs_end
        &&& self.outputs_end <= self.witness_end
        &&& self.witness_end + 4 <= total
    }
}

/// Finds the parts of a transaction with witness data.
fn find_layout(tx: &[u8]) -> (found: Option<Places>)
    ensures
        found is Some <==> layout(tx@) is Some,
        found matches Some(places) ==> layout(tx@) == Some(places@) && places.within(tx@.len()),
{
    let total: usize = tx.len();
    let (input_count, n) = match try_varint(tx, 6) {
        Some(read) => read,
        None => {
            return None;
        },
    };
    let inputs_start: usize = 6 + n;
    let inputs_end: usize = match end_of_inputs(tx, inputs_start, input_count) {
        Some(end) => end,
        None => {
            return None;
        },
    };
    let (output_count, m) = match try_varint(tx, inputs_end) {
        Some(read) => read,
        None => {
            return None;
        },
    };
    let outputs_start: usize = inputs_end + m;
    let outputs_end: usize = match end_of_outputs(tx, outputs_start, output_count) {
        Some(end) => end,
        None => {
            return None;
        },
    };
    let witness_end: usize = match end_of_stacks(tx, outputs_end, input_count) {
        Some(end) => end,
        None => {
            return None;
        },
    };
    if total - witness_end < 4 {
        return None;
    }
    Some(
        Places {
            input_count,
            inputs_start,
            inputs_end,
            output_count,
            outputs_start,
            outputs_end,
            witness_end,
        },
    )
}

/// Writes a transaction with witness data again without marker, flag and witness.
pub fn strip_witness(tx: &[u8]) -> (out: Vec<u8>)
    requires
        layout(tx@) is Some,
    ensures
        out@ == stripped(tx@),
{
    let mut out: Vec<u8> = Vec::new();
    assert(tx@.len() == tx.len());
    if let Some(places) = find_layout(tx) {
        push_range(&mut out, tx, 0, 4);
        write_varint(&mut out, places.input_count);
        push_range(&mut out, tx, places.inputs_start, places.inputs_end);
        write_varint(&mut out, places.output_count);
        push_range(&mut out, tx, places.outputs_start, places.outputs_end);
        push_range(&mut out, tx, places.witness_end, places.witness_end + 4);
    }
    assert(out@ =~= stripped(tx@));
    out
}

fn announces_witness(raw_tx: &[u8]) -> (flagged: bool)
    ensures
        flagged == has_witness(raw_tx@),
{
    raw_tx.len() > 6 && raw_tx[4] == 0x00 && raw_tx[5] == 0x01
}

/// Whether `sha256d_no_witness` can take the id of `raw_tx`.
pub fn can_take_txid(raw_tx: &[u8]) -> (can: bool)
    ensures
        can == has_txid(raw_tx@),
{
    !announces_witness(raw_tx) || find_layout(raw_tx).is_some()
}

/// The double hash of a transaction without its witness data: the transaction id.
pub fn sha256d_no_witness(raw_tx: &[u8]) -> (id: [u8; 32])
    requires
        has_txid(raw_tx@),
    ensures
        id@ == txid_of(raw_tx@),
{
    if announces_witness(raw_tx) {
        let plain: Vec<u8> = strip_witness(raw_tx);
        sha256d(plain.as_slice())
    } else {
        sha256d(raw_tx)
    }
}

proof fn lemma_skip_var_bytes(before: Seq<u8>, s: Seq<u8>, after: Seq<u8>)
    requires
        s.len() <= u64::MAX,
    ensures
        skip_var_bytes(before + var_bytes(s) + after, before.len() as int) == Some(
            (before.len() + var_bytes(s).len()) as int,
        ),
{
    read_of_write(before, s.len(), s + after);
    assert(before + var_bytes(s) + after =~= before + varint_bytes(s.len()) + (s + after));
}

proof fn lemma_skip_inputs(before: Seq<u8>, inputs: Seq<TxIn>, after: Seq<u8>)
    requires
        forall|i: int| 0 <= i < inputs.len() ==> input_wf(#[trigger] inputs[i]),
    ensures
        skip_inputs(
            before + inputs_bytes(inputs) + after,
            before.len() as int,
            inputs.len(),
        ) == Some((before.len() + inputs_bytes(inputs).len()) as int),
    decreases inputs.len(),
{
    if inputs.len() > 0 {
        let first = inputs[0];
        let rest = inputs.drop_first();
        assert(input_wf(first));
        assert forall|i: int| 0 <= i < rest.len() implies input_wf(#[trigger] rest[i]) by {
            assert(rest[i] == inputs[i + 1]);
        }
        let all = before + inputs_bytes(inputs) + after;
        lemma_skip_var_bytes(
            before + first.outpoint,
            first.script,
            first.sequence + inputs_bytes(rest) + after,
        );
        assert(all =~= (before + first.outpoint) + var_bytes(first.script) + (first.sequence
            + inputs_bytes(rest) + after));
        lemma_skip_inputs(before + input_bytes(first), rest, after);
        assert(all =~= (before + input_bytes(first)) + inputs_bytes(rest) + after);
    }
}

proof fn lemma_skip_outputs(before: Seq<u8>, outputs: Seq<TxOut>, after: Seq<u8>)
    requires
        forall|i: int| 0 <= i < outputs.len() ==> (#[trigger] outputs[i]).script.len() <= u64::MAX,
    ensures
        skip_outputs(
            before + outputs_bytes(outputs) + after,
            before.len() as int,
            outputs.len(),
        ) == Some((before.len() + outputs_bytes(outputs).len()) as int),
    decreases outputs.len(),
{
    if outputs.len() > 0 {
        let first = outputs[0];
        let rest = outputs.drop_first();
        assert forall|i: int| 0 <= i < rest.len() implies (#[trigger] rest[i]).script.len()
            <= u64::MAX by {
            assert(rest[i] == outputs[i + 1]);
        }
        let all = before + outputs_bytes(outputs) + after;
        let value = le_bytes(first.value, 8);
        lemma_le_bytes(first.value, 8);
        lemma_skip_var_bytes(before + value, first.script, outputs_bytes(rest) + after);
        assert(all =~= (before + value) + var_bytes(first.script) + (outputs_bytes(rest) + after));
        lemma_skip_outputs(before + output_bytes(first), rest, after);
        assert(all =~= (before + output_bytes(first)) + outputs_bytes(rest) + after);
    }
}

proof fn lemma_skip_items(before: Seq<u8>, items: Seq<Seq<u8>>, after: Seq<u8>)
    requires
        forall|i: int| 0 <= i < items.len() ==> (#[trigger] items[i]).len() <= u64::MAX,
    ensures
        skip_items(before + items_bytes(items) + after, before.len() as int, items.len()) == Some(
            (before.len() + items_bytes(items).len()) as int,
        ),
    decreases items.len(),
{
    if items.len() > 0 {
        let first = items[0];
        let rest = items.drop_first();
        assert forall|i: int| 0 <= i < rest.len() implies (#[trigger] rest[i]).len()
            <= u64::MAX by {
            assert(rest[i] == items[i + 1]);
        }
        let all = before + items_bytes(items) + after;
        lemma_skip_var_bytes(before, first, items_bytes(rest) + after);
        assert(all =~= before + var_bytes(first) + (items_bytes(rest) + after));
        lemma_skip_items(before + var_bytes(first), rest, after);
        assert(all =~= (before + var_bytes(first)) + items_bytes(rest) + after);
    }
}

proof fn lemma_skip_stacks(before: Seq<u8>, stacks: Seq<Seq<Seq<u8>>>, after: Seq<u8>)
    requires
        forall|i: int| 0 <= i < stacks.len() ==> stack_wf(#[trigger] stacks[i]),
    ensures
        skip_stacks(
            before + stacks_bytes(stacks) + after,
            before.len() as int,
            stacks.len(),
        ) == Some((before.len() + stacks_bytes(stacks).len()) as int),
    decreases stacks.len(),
{
    if stacks.len() > 0 {
        let first = stacks[0];
        let rest = stacks.drop_first();
        assert(stack_wf(first));
        assert forall|i: int| 0 <= i < rest.len() implies stack_wf(#[trigger] rest[i]) by {
            assert(rest[i] == stacks[i + 1]);
        }
        let all = before + stacks_bytes(stacks) + after;
        let count = varint_bytes(first.len());
        let items = items_bytes(first);
        read_of_write(before, first.len(), items + stacks_bytes(rest) + after);
        assert(all =~= before + count + (items + stacks_bytes(rest) + after));
        lemma_skip_items(before + count, first, stacks_bytes(rest) + after);
        assert(all =~= (before + count) + items + (stacks_bytes(rest) + after));
        lemma_skip_stacks(before + count + items, rest, after);
        assert(all =~= (before + count + items) + stacks_bytes(rest) + after);
    }
}

/// The seven parts of a serialization, each seen as what stands between two others.
proof fn lemma_seven_parts(
    p0: Seq<u8>,
    p1: Seq<u8>,
    p2: Seq<u8>,
    p3: Seq<u8>,
    p4: Seq<u8>,
    p5: Seq<u8>,
    p6: Seq<u8>,
)
    ensures
        ({
            let raw = p0 + p1 + p2 + p3 + p4 + p5 + p6;
            &&& raw == p0 + p1 + (p2 + p3 + p4 + p5 + p6)
            &&& raw == (p0 + p1) + p2 + (p3 + p4 + p5 + p6)
            &&& raw == (p0 + p1 + p2) + p3 + (p4 + p5 + p6)
            &&& raw == (p0 + p1 + p2 + p3) + p4 + (p5 + p6)
            &&& raw == (p0 + p1 + p2 + p3 + p4) + p5 + p6
        }),
{
    let raw = p0 + p1 + p2 + p3 + p4 + p5 + p6;
    assert(raw =~= p0 + p1 + (p2 + p3 + p4 + p5 + p6));
    assert(raw =~= (p0 + p1) + p2 + (p3 + p4 + p5 + p6));
    assert(raw =~= (p0 + p1 + p2) + p3 + (p4 + p5 + p6));
    assert(raw =~= (p0 + p1 + p2 + p3) + p4 + (p5 + p6));
}

proof fn lemma_middle(a: Seq<u8>, b: Seq<u8>, c: Seq<u8>)
    ensures
        (a + b + c).subrange(a.len() as int, (a.len() + b.len()) as int) == b,
{
    assert((a + b + c).subrange(a.len() as int, (a.len() + b.len()) as int) =~= b);
}

/// Where the parts lie in the form with witness data.
spec fn segwit_layout(tx: Transaction) -> Layout {
    let inputs_start = (6 + varint_bytes(tx.inputs.len()).len()) as int;
    let inputs_end = inputs_start + inputs_bytes(tx.inputs).len();
    let outputs_start = inputs_end + varint_bytes(tx.outputs.len()).len();
    let outputs_end = outputs_start + outputs_bytes(tx.outputs).len();
    Layout {
        input_count: tx.inputs.len(),
        inputs_start,
        inputs_end,
        output_count: tx.outputs.len(),
        outputs_start,
        outputs_end,
        witness_end: outputs_end + stacks_bytes(tx.witness).len(),
    }
}

/// The seven parts of the form with witness data, in one row.
proof fn lemma_segwit_parts(tx: Transaction)
    ensures
        tx.segwit_bytes() == (tx.version + seq![0u8, 1u8]) + varint_bytes(tx.inputs.len())
            + inputs_bytes(tx.inputs) + varint_bytes(tx.outputs.len()) + outputs_bytes(tx.outputs)
            + stacks_bytes(tx.witness) + tx.lock_time,
{
    let head = tx.version + seq![0u8, 1u8];
    assert(head + tx.body() =~= head + varint_bytes(tx.inputs.len()) + inputs_bytes(tx.inputs)
        + varint_bytes(tx.outputs.len()) + outputs_bytes(tx.outputs));
}

proof fn lemma_segwit_inputs(tx: Transaction)
    requires
        tx.wf(),
    ensures
        ({
            let raw = tx.segwit_bytes();
            let parts = segwit_layout(tx);
            &&& varint_at(raw, 6) == Some((tx.inputs.len(), varint_bytes(tx.inputs.len()).len()))
            &&& skip_inputs(raw, parts.inputs_start, tx.inputs.len()) == Some(parts.inputs_end)
            &&& varint_at(raw, parts.inputs_end) == Some(
                (tx.outputs.len(), varint_bytes(tx.outputs.len()).len()),
            )
            &&& raw.subrange(parts.inputs_start, parts.inputs_end) == inputs_bytes(tx.inputs)
        }),
{
    let head = tx.version + seq![0u8, 1u8];
    let n_in = varint_bytes(tx.inputs.len());
    let ins = inputs_bytes(tx.inputs);
    let n_out = varint_bytes(tx.outputs.len());
    let outs = outputs_bytes(tx.outputs);
    let wit = stacks_bytes(tx.witness);
    let lock = tx.lock_time;
    lemma_segwit_parts(tx);
    lemma_seven_parts(head, n_in, ins, n_out, outs, wit, lock);
    read_of_write(head, tx.inputs.len(), ins + n_out + outs + wit + lock);
    lemma_skip_inputs(head + n_in, tx.inputs, n_out + outs + wit + lock);
    read_of_write(head + n_in + ins, tx.outputs.len(), outs + wit + lock);
    lemma_middle(head + n_in, ins, n_out + outs + wit + lock);
}

proof fn lemma_segwit_outputs(tx: Transaction)
    requires
        tx.wf(),
    ensures
        ({
            let raw = tx.segwit_bytes();
            let parts = segwit_layout(tx);
            &&& skip_outputs(raw, parts.outputs_start, tx.outputs.len()) == Some(parts.outputs_end)
            &&& skip_stacks(raw, parts.outputs_end, tx.inputs.len()) == Some(parts.witness_end)
            &&& raw.subrange(parts.outputs_start, parts.outputs_end) == outputs_bytes(tx.outputs)
        }),
{
    let head = tx.version + seq![0u8, 1u8];
    let n_in = varint_bytes(tx.inputs.len());
    let ins = inputs_bytes(tx.inputs);
    let n_out = varint_bytes(tx.outputs.len());
    let outs = outputs_bytes(tx.outputs);
    let wit = stacks_bytes(tx.witness);
    let lock = tx.lock_time;
    lemma_segwit_parts(tx);
    lemma_seven_parts(head, n_in, ins, n_out, outs, wit, lock);
    lemma_skip_outputs(head + n_in + ins + n_out, tx.outputs, wit + lock);
    lemma_skip_stacks(head + n_in + ins + n_out + outs, tx.witness, lock);
    lemma_middle(head + n_in + ins + n_out, outs, wit + lock);
}

proof fn lemma_segwit_ends(tx: Transaction)
    requires
        tx.wf(),
    ensures
        ({
            let raw = tx.segwit_bytes();
            let parts = segwit_layout(tx);
            &&& raw.len() == parts.witness_end + 4
            &&& raw.subrange(0, 4) == tx.version
            &&& raw.subrange(parts.witness_end, parts.witness_end + 4) == tx.lock_time
            &&& raw[4] == 0
            &&& raw[5] == 1
        }),
{
    let raw = tx.segwit_bytes();
    let parts = segwit_layout(tx);
    assert(raw.len() == parts.witness_end + 4);
    assert(raw.subrange(0, 4) =~= tx.version);
    assert(raw.subrange(parts.witness_end, parts.witness_end + 4) =~= tx.lock_time);
}

/// Dropping the witness data of a transaction leaves exactly its form without witness data.
pub proof fn strip_gives_legacy_form(tx: Transaction)
    requires
        tx.wf(),
    ensures
        has_witness(tx.segwit_bytes()),
        layout(tx.segwit_bytes()) is Some,
        stripped(tx.segwit_bytes()) == tx.legacy_bytes(),
{
    lemma_segwit_inputs(tx);
    lemma_segwit_outputs(tx);
    lemma_segwit_ends(tx);
    assert(layout(tx.segwit_bytes()) == Some(segwit_layout(tx)));
    assert(stripped(tx.segwit_bytes()) =~= tx.legacy_bytes());
}

/// The id of a transaction is the double hash of its form without witness data, whatever its
/// witness data are.
pub proof fn txid_ignores_witness(tx: Transaction)
    requires
        tx.wf(),
    ensures
        has_txid(tx.segwit_bytes()),
        txid_of(tx.segwit_bytes()) == sha256d_of(tx.legacy_bytes()),
{
    strip_gives_legacy_form(tx);
}

/// Whether `code` is read as the number `n` wherever it stands, be it the shortest form or not.
pub open spec fn reads_as(code: Seq<u8>, n: nat) -> bool {
    forall|before: Seq<u8>, after: Seq<u8>|
        varint_at(#[trigger] (before + code + after), before.len() as int) == Some((n, code.len()))
}

/// A longer form than needed is read as its number too.
pub proof fn longer_forms_are_read(n: nat)
    ensures
        n <= 0xffff ==> reads_as(seq![0xfdu8] + le_bytes(n, 2), n),
        n <= 0xffff_ffff ==> reads_as(seq![0xfeu8] + le_bytes(n, 4), n),
        n <= u64::MAX ==> reads_as(seq![0xffu8] + le_bytes(n, 8), n),
        n <= u64::MAX ==> reads_as(varint_bytes(n), n),
{
    lemma_pow256_8();
    lemma_le_bytes(n, 2);
    lemma_le_bytes(n, 4);
    lemma_le_bytes(n, 8);
    if n <= 0xffff {
        lemma_marked_form(0xfd, n, 2);
    }
    if n <= 0xffff_ffff {
        lemma_marked_form(0xfe, n, 4);
    }
    if n <= u64::MAX {
        lemma_marked_form(0xff, n, 8);
        assert forall|before: Seq<u8>, after: Seq<u8>| varint_at(
            #[trigger] (before + varint_bytes(n) + after),
            before.len() as int,
        ) == Some((n, varint_bytes(n).len())) by {
            read_of_write(before, n, after);
        }
    }
}

proof fn lemma_marked_form(marker: u8, n: nat, width: nat)
    requires
        (marker == 0xfd && width == 2) || (marker == 0xfe && width == 4) || (marker == 0xff
            && width == 8),
        le_bytes(n, width).len() == width,
        le_value(le_bytes(n, width)) == n,
    ensures
        reads_as(seq![marker] + le_bytes(n, width), n),
{
    let code = seq![marker] + le_bytes(n, width);
    assert forall|before: Seq<u8>, after: Seq<u8>| varint_at(
        #[trigger] (before + code + after),
        before.len() as int,
    ) == Some((n, code.len())) by {
        let all = before + code + after;
        let pos = before.len() as int;
        assert(all[pos] == marker);
        assert(all.subrange(pos + 1, pos + 1 + width) =~= le_bytes(n, width));
    }
}

proof fn lemma_loose_parts(
    tx: Transaction,
    in_code: Seq<u8>,
    out_code: Seq<u8>,
    tail: Seq<u8>,
)
    requires
        tx.wf(),
        reads_as(in_code, tx.inputs.len()),
        reads_as(out_code, tx.outputs.len()),
    ensures
        ({
            let head = tx.version + seq![0u8, 1u8];
            let ins = inputs_bytes(tx.inputs);
            let outs = outputs_bytes(tx.outputs);
            let wit = stacks_bytes(tx.witness);
            let raw = head + in_code + ins + out_code + outs + wit + tail;
            let inputs_start = 6 + in_code.len() as int;
            let inputs_end = inputs_start + ins.len();
            let outputs_start = inputs_end + out_code.len();
            let outputs_end = outputs_start + outs.len();
            let witness_end = outputs_end + wit.len();
            &&& varint_at(raw, 6) == Some((tx.inputs.len(), in_code.len()))
            &&& skip_inputs(raw, inputs_start, tx.inputs.len()) == Some(inputs_end)
            &&& varint_at(raw, inputs_end) == Some((tx.outputs.len(), out_code.len()))
            &&& skip_outputs(raw, outputs_start, tx.outputs.len()) == Some(outputs_end)
            &&& skip_stacks(raw, outputs_end, tx.inputs.len()) == Some(witness_end)
            &&& raw.subrange(inputs_start, inputs_end) == ins
            &&& raw.subrange(outputs_start, outputs_end) == outs
            &&& raw.len() == witness_end + tail.len()
        }),
{
    let head = tx.version + seq![0u8, 1u8];
    let ins = inputs_bytes(tx.inputs);
    let outs = outputs_bytes(tx.outputs);
    let wit = stacks_bytes(tx.witness);
    lemma_seven_parts(head, in_code, ins, out_code, outs, wit, tail);
    assert(varint_at(head + in_code + (ins + out_code + outs + wit + tail), 6) == Some(
        (tx.inputs.len(), in_code.len()),
    ));
    lemma_skip_inputs(head + in_code, tx.inputs, out_code + outs + wit + tail);
    assert(varint_at(
        (head + in_code + ins) + out_code + (outs + wit + tail),
        (head + in_code + ins).len() as int,
    ) == Some((tx.outputs.len(), out_code.len())));
    lemma_skip_outputs(head + in_code + ins + out_code, tx.outputs, wit + tail);
    lemma_skip_stacks(head + in_code + ins + out_code + outs, tx.witness, tail);
    lemma_middle(head + in_code, ins, out_code + outs + wit + tail);
    lemma_middle(head + in_code + ins + out_code, outs, wit + tail);
}

/// However the numbers of inputs and outputs are written, and whatever follows the lock time, a
/// transaction with witness data has the same id: that of its form without them, whose numbers are
/// written in the shortest form.
pub proof fn ids_ignore_how_counts_are_written(
    tx: Transaction,
    in_code: Seq<u8>,
    out_code: Seq<u8>,
    extra: Seq<u8>,
)
    requires
        tx.wf(),
        in_code.len() > 0,
        reads_as(in_code, tx.inputs.len()),
        reads_as(out_code, tx.outputs.len()),
    ensures
        ({
            let raw = (tx.version + seq![0u8, 1u8]) + in_code + inputs_bytes(tx.inputs) + out_code
                + outputs_bytes(tx.outputs) + stacks_bytes(tx.witness) + (tx.lock_time + extra);
            &&& has_txid(raw)
            &&& stripped(raw) == tx.legacy_bytes()
            &&& txid_of(raw) == sha256d_of(tx.legacy_bytes())
        }),
{
    let tail = tx.lock_time + extra;
    lemma_loose_parts(tx, in_code, out_code, tail);
    let head = tx.version + seq![0u8, 1u8];
    let ins = inputs_bytes(tx.inputs);
    let outs = outputs_bytes(tx.outputs);
    let wit = stacks_bytes(tx.witness);
    let body = head + in_code + ins + out_code + outs + wit;
    let raw = body + tail;
    let witness_end = body.len() as int;
    assert(raw.subrange(0, 4) =~= tx.version);
    assert(raw[4] == 0 && raw[5] == 1);
    assert(raw.subrange(witness_end, witness_end + 4) =~= tx.lock_time);
    assert(layout(raw) is Some);
    assert(stripped(raw) =~= tx.legacy_bytes());
}

/// A further witness stack stands behind the others: the number of its items, and then each item
/// behind its length.
pub proof fn witness_stacks_follow_each_other(
    stacks: Seq<Seq<Seq<u8>>>,
    stack: Seq<Seq<u8>>,
    item: Seq<u8>,
)
    ensures
        items_bytes(Seq::empty()) == Seq::<u8>::empty(),
        items_bytes(stack.push(item)) == items_bytes(stack) + var_bytes(item),
        stacks_bytes(Seq::empty()) == Seq::<u8>::empty(),
        stacks_bytes(stacks.push(stack)) == stacks_bytes(stacks) + (varint_bytes(stack.len())
            + items_bytes(stack)),
{
    lemma_items_push(stack, item);
    lemma_stacks_push(stacks, stack);
}

proof fn lemma_items_push(items: Seq<Seq<u8>>, item: Seq<u8>)
    ensures
        items_bytes(items.push(item)) == items_bytes(items) + var_bytes(item),
    decreases items.len(),
{
    let longer = items.push(item);
    if items.len() == 0 {
        assert(longer.drop_first() =~= items);
        assert(items_bytes(longer) =~= items_bytes(items) + var_bytes(item));
    } else {
        lemma_items_push(items.drop_first(), item);
        assert(longer.drop_first() =~= items.drop_first().push(item));
        assert(items_bytes(longer) =~= items_bytes(items) + var_bytes(item));
    }
}

proof fn lemma_stacks_push(stacks: Seq<Seq<Seq<u8>>>, stack: Seq<Seq<u8>>)
    ensures
        stacks_bytes(stacks.push(stack)) == stacks_bytes(stacks) + (varint_bytes(stack.len())
            + items_bytes(stack)),
    decreases stacks.len(),
{
    let longer = stacks.push(stack);
    let bytes = varint_bytes(stack.len()) + items_bytes(stack);
    if stacks.len() == 0 {
        assert(longer.drop_first() =~= stacks);
        assert(stacks_bytes(longer) =~= stacks_bytes(stacks) + bytes);
    } else {
        lemma_stacks_push(stacks.drop_first(), stack);
        assert(longer.drop_first() =~= stacks.drop_first().push(stack));
        assert(stacks_bytes(longer) =~= stacks_bytes(stacks) + bytes);
    }
}

} // verus!
