//! Storage records, and how a decoded block is normalised into them.
use crate::codec::{
    block_bits, block_hash_text, block_header, block_merkle_text, block_nonce, block_prev_text,
    block_time, block_transactions, block_version, hex_encode, hex_text, input_parts,
    input_prev_text, input_script, input_sequence, input_vout, input_witness, output_parts,
    output_script, output_value, read_inputs, read_outputs, serialize_block, serialize_header,
    serialize_tx, tx_inputs, tx_outputs, tx_parts, txid_text,
};
use crate::models::{TxInModel, TxInSimplified, TxOutModel, TxOutSimplified};
use vstd::prelude::*;

verus! {

/// One row of the block table.
#[derive(Debug, PartialEq, Eq)]
pub struct BlockRecord {
    pub hash: String,
    pub height: u32,
    pub version: i32,
    pub prev_block: String,
    pub merkle_root: String,
    pub timestamp: u32,
    pub bits: u32,
    pub nonce: u32,
    pub size: usize,
    pub header: Vec<u8>,
    pub raw_data: Vec<u8>,
}

/// What a [`BlockRecord`] holds.
#[verifier::ext_equal]
pub struct BlockModel {
    pub hash: Seq<char>,
    pub height: u32,
    pub version: i32,
    pub prev_block: Seq<char>,
    pub merkle_root: Seq<char>,
    pub timestamp: u32,
    pub bits: u32,
    pub nonce: u32,
    pub size: usize,
    pub header: Seq<u8>,
    pub raw_data: Seq<u8>,
}

impl View for BlockRecord {
    type V = BlockModel;

    open spec fn view(&self) -> BlockModel {
        BlockModel {
            hash: self.hash@,
            height: self.height,
            version: self.version,
            prev_block: self.prev_block@,
            merkle_root: self.merkle_root@,
            timestamp: self.timestamp,
            bits: self.bits,
            nonce: self.nonce,
            size: self.size,
            header: self.header@,
            raw_data: self.raw_data@,
        }
    }
}

impl DeepView for BlockRecord {
    type V = BlockModel;

    open spec fn deep_view(&self) -> BlockModel {
        self@
    }
}

/// One row of the transaction table.
#[derive(Debug, PartialEq, Eq)]
pub struct TxRecord {
    pub txid: String,
    pub block_hash: String,
    pub inputs: Vec<TxInSimplified>,
    pub outputs: Vec<TxOutSimplified>,
    pub raw_data: Vec<u8>,
}

/// What a [`TxRecord`] holds.
#[verifier::ext_equal]
pub struct TxModel {
    pub txid: Seq<char>,
    pub block_hash: Seq<char>,
    pub inputs: Seq<TxInModel>,
    pub outputs: Seq<TxOutModel>,
    pub raw_data: Seq<u8>,
}

impl View for TxRecord {
    type V = TxModel;

    open spec fn view(&self) -> TxModel {
        TxModel {
            txid: self.txid@,
            block_hash: self.block_hash@,
            inputs: self.inputs.deep_view(),
            outputs: self.outputs.deep_view(),
            raw_data: self.raw_data@,
        }
    }
}

impl DeepView for TxRecord {
    type V = TxModel;

    open spec fn deep_view(&self) -> TxModel {
        self@
    }
}

/// The simplified form of an input: scripts and witness elements as hex text.
pub open spec fn input_model(input: bitcoin::TxIn) -> TxInModel {
    let p = input_parts(input);
    TxInModel {
        prev_txid: p.prev_txid,
        vout: p.vout,
        script_sig: hex_text(p.script_sig),
        sequence: p.sequence,
        witness: Seq::new(p.witness.len(), |k: int| hex_text(p.witness[k])),
    }
}

/// The simplified form of an output: the locking script as hex text.
pub open spec fn output_model(output: bitcoin::TxOut) -> TxOutModel {
    let p = output_parts(output);
    TxOutModel { value: p.value, script_pubkey: hex_text(p.script_pubkey) }
}

/// The record of a transaction that belongs to the block `block_hash`.
pub open spec fn tx_model(tx: bitcoin::Transaction, block_hash: Seq<char>) -> TxModel {
    TxModel {
        txid: tx_parts(tx).txid,
        block_hash,
        inputs: Seq::new(tx_inputs(tx).len(), |k: int| input_model(tx_inputs(tx)[k])),
        outputs: Seq::new(tx_outputs(tx).len(), |k: int| output_model(tx_outputs(tx)[k])),
        raw_data: tx_parts(tx).raw,
    }
}

/// The records of the transactions of a block, in block order.
pub open spec fn block_tx_models(block: bitcoin::Block) -> Seq<TxModel> {
    Seq::new(
        block_transactions(block).len(),
        |k: int| tx_model(block_transactions(block)[k], block_header(block).hash),
    )
}

/// The record of a block that was given the height `height`.
pub open spec fn block_model(block: bitcoin::Block, height: u32) -> BlockModel {
    let h = block_header(block);
    BlockModel {
        hash: h.hash,
        height,
        version: h.version,
        prev_block: h.prev_block,
        merkle_root: h.merkle_root,
        timestamp: h.time,
        bits: h.bits,
        nonce: h.nonce,
        size: h.raw.len() as usize,
        header: h.header,
        raw_data: h.raw,
    }
}

/// Builds the simplified form of one input.
pub fn simplify_input(input: &bitcoin::TxIn) -> (r: TxInSimplified)
    ensures
        r@ == input_model(*input),
{
    let stack = input_witness(input);
    let mut witness: Vec<String> = Vec::new();
    let mut k: usize = 0;
    while k < stack.len()
        invariant
            k <= stack.len(),
            witness.len() == k,
            forall|j: int| 0 <= j < k ==> witness[j]@ == hex_text(#[trigger] stack[j]@),
        decreases stack.len() - k,
    {
        witness.push(hex_encode(stack[k].as_slice()));
        k += 1;
    }
    let r = TxInSimplified {
        prev_txid: input_prev_text(input),
        vout: input_vout(input),
        script_sig: hex_encode(input_script(input)),
        sequence: input_sequence(input),
        witness,
    };
    proof {
        assert forall|j: int| 0 <= j < stack.len() implies stack.deep_view()[j] == stack[j]@ by {
            assert(stack[j].deep_view() =~= stack[j]@);
        }
        assert(r@.witness =~= input_model(*input).witness);
    }
    r
}

/// Builds the simplified form of one output.
pub fn simplify_output(output: &bitcoin::TxOut) -> (r: TxOutSimplified)
    ensures
        r@ == output_model(*output),
{
    TxOutSimplified {
        value: output_value(output),
        script_pubkey: hex_encode(output_script(output)),
    }
}

/// Builds the record of a transaction that belongs to the block `block_hash`:
/// its identity hash, its simplified inputs and outputs in order, and its
/// serialisation.
pub fn tx_record(tx: &bitcoin::Transaction, block_hash: &str) -> (r: TxRecord)
    ensures
        r@ == tx_model(*tx, block_hash@),
{
    let ins = read_inputs(tx);
    let outs = read_outputs(tx);
    let mut inputs: Vec<TxInSimplified> = Vec::new();
    let mut k: usize = 0;
    while k < ins.len()
        invariant
            k <= ins.len(),
            inputs.len() == k,
            forall|j: int| 0 <= j < k ==> inputs[j]@ == input_model(#[trigger] ins[j]),
        decreases ins.len() - k,
    {
        inputs.push(simplify_input(&ins[k]));
        k += 1;
    }
    let mut outputs: Vec<TxOutSimplified> = Vec::new();
    let mut k: usize = 0;
    while k < outs.len()
        invariant
            k <= outs.len(),
            outputs.len() == k,
            forall|j: int| 0 <= j < k ==> outputs[j]@ == output_model(#[trigger] outs[j]),
        decreases outs.len() - k,
    {
        outputs.push(simplify_output(&outs[k]));
        k += 1;
    }
    let r = TxRecord {
        txid: txid_text(tx),
        block_hash: text(block_hash),
        inputs,
        outputs,
        raw_data: serialize_tx(tx),
    };
    assert(r@.inputs =~= tx_model(*tx, block_hash@).inputs);
    assert(r@.outputs =~= tx_model(*tx, block_hash@).outputs);
    r
}

/// Builds the record of a block that was given the height `height`: its
/// identity hash, the fields of its header, its two serialisations, and the
/// length of the full one as its size.
pub fn block_record(block: &bitcoin::Block, height: u32) -> (r: BlockRecord)
    ensures
        r@ == block_model(*block, height),
{
    let raw_data = serialize_block(block);
    let size = raw_data.len();
    BlockRecord {
        hash: block_hash_text(block),
        height,
        version: block_version(block),
        prev_block: block_prev_text(block),
        merkle_root: block_merkle_text(block),
        timestamp: block_time(block),
        bits: block_bits(block),
        nonce: block_nonce(block),
        size,
        header: serialize_header(block),
        raw_data,
    }
}

/// An owned copy of a text.
pub fn text(s: &str) -> (r: String)
    ensures
        r@ == s@,
{
    broadcast use vstd::string::to_string_from_display_ensures_for_str;

    s.to_string()
}

} // verus!
