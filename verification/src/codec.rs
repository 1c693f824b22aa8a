//! The boundary to the consensus codec and to the hex encoder.
//!
//! Decoded blocks stay values of the `bitcoin` crate. What such a value holds
//! is named here, and read out through small trusted functions, one for each
//! call into the crate; nothing else in the library calls an outside crate.
use bitcoin::consensus::Decodable;
use vstd::prelude::*;

verus! {

/// A decoded block, as the `bitcoin` crate holds it.
#[verifier::external_type_specification]
#[verifier::external_body]
pub struct ExBlock(bitcoin::Block);

/// A decoded transaction, as the `bitcoin` crate holds it.
#[verifier::external_type_specification]
#[verifier::external_body]
pub struct ExTransaction(bitcoin::Transaction);

/// An input of a decoded transaction, as the `bitcoin` crate holds it.
#[verifier::external_type_specification]
#[verifier::external_body]
pub struct ExTxIn(bitcoin::TxIn);

/// An output of a decoded transaction, as the `bitcoin` crate holds it.
#[verifier::external_type_specification]
#[verifier::external_body]
pub struct ExTxOut(bitcoin::TxOut);

/// The header of a block as plain values, with the identity hash of the
/// block and the two serialisations that are stored beside it.
#[verifier::ext_equal]
pub struct HeaderModel {
    pub hash: Seq<char>,
    pub version: i32,
    pub prev_block: Seq<char>,
    pub merkle_root: Seq<char>,
    pub time: u32,
    pub bits: u32,
    pub nonce: u32,
    pub header: Seq<u8>,
    pub raw: Seq<u8>,
}

/// The identity hash of a transaction and its serialisation.
#[verifier::ext_equal]
pub struct TxPartsModel {
    pub txid: Seq<char>,
    pub raw: Seq<u8>,
}

/// One input of a transaction as plain values, the script still as bytes.
#[verifier::ext_equal]
pub struct InputModel {
    pub prev_txid: Seq<char>,
    pub vout: u32,
    pub script_sig: Seq<u8>,
    pub sequence: u32,
    pub witness: Seq<Seq<u8>>,
}

/// One output of a transaction as plain values, the script still as bytes.
#[verifier::ext_equal]
pub struct OutputModel {
    pub value: u64,
    pub script_pubkey: Seq<u8>,
}

/// The block that the consensus codec reads from the front of a payload, if
/// it reads one.
pub uninterp spec fn decoded_block(payload: Seq<u8>) -> Option<bitcoin::Block>;

/// The block that the consensus codec reads from bytes that hold one block
/// and nothing behind it, if it reads one.
pub uninterp spec fn deserialized_block(bytes: Seq<u8>) -> Option<bitcoin::Block>;

/// The header of a decoded block, its identity hash and its serialisations.
pub uninterp spec fn block_header(block: bitcoin::Block) -> HeaderModel;

/// The transactions of a decoded block, in block order.
pub uninterp spec fn block_transactions(block: bitcoin::Block) -> Seq<bitcoin::Transaction>;

/// The identity hash and the serialisation of a transaction.
pub uninterp spec fn tx_parts(tx: bitcoin::Transaction) -> TxPartsModel;

/// The inputs of a transaction, in order.
pub uninterp spec fn tx_inputs(tx: bitcoin::Transaction) -> Seq<bitcoin::TxIn>;

/// The outputs of a transaction, in order.
pub uninterp spec fn tx_outputs(tx: bitcoin::Transaction) -> Seq<bitcoin::TxOut>;

/// What one input holds.
pub uninterp spec fn input_parts(input: bitcoin::TxIn) -> InputModel;

/// What one output holds.
pub uninterp spec fn output_parts(output: bitcoin::TxOut) -> OutputModel;

/// The lower-case hex digit of a value below sixteen: `0` to `9`, then `a`
/// to `f`.
pub open spec fn hex_digit(n: int) -> char {
    if n < 10 {
        (48 + n) as char
    } else {
        (87 + n) as char
    }
}

/// The lower-case hex text of a byte string: two digits per byte, the high
/// half first.
pub open spec fn hex_text(bytes: Seq<u8>) -> Seq<char> {
    Seq::new(
        2 * bytes.len(),
        |i: int|
            if i % 2 == 0 {
                hex_digit(bytes[i / 2] as int / 16)
            } else {
                hex_digit(bytes[i / 2] as int % 16)
            },
    )
}

/// The value of a hex digit of either case, and -1 for any other character.
pub open spec fn hex_value(c: char) -> int {
    if '0' <= c && c <= '9' {
        c as int - 48
    } else if 'a' <= c && c <= 'f' {
        c as int - 87
    } else if 'A' <= c && c <= 'F' {
        c as int - 55
    } else {
        -1
    }
}

/// Whether a text is hex text: an even number of hex digits.
pub open spec fn is_hex_text(text: Seq<char>) -> bool {
    &&& text.len() % 2 == 0
    &&& forall|i: int| 0 <= i < text.len() ==> hex_value(#[trigger] text[i]) >= 0
}

/// The bytes that a hex text spells: one byte for each two digits, the high
/// half first.
pub open spec fn hex_bytes(text: Seq<char>) -> Seq<u8> {
    Seq::new(
        text.len() / 2,
        |i: int| (16 * hex_value(text[2 * i]) + hex_value(text[2 * i + 1])) as u8,
    )
}

/// Calls `bitcoin::Block::consensus_decode` on the payload. The contract
/// claims that the outcome depends on the payload alone; a payload that the
/// codec rejects gives `None`.
#[verifier::external_body]
pub(crate) fn decode_block(payload: &[u8]) -> (r: Option<bitcoin::Block>)
    ensures
        r == decoded_block(payload@),
{
    let mut reader = payload;
    bitcoin::Block::consensus_decode(&mut reader).ok()
}

/// Calls `bitcoin::consensus::encode::deserialize` for a block, which fails
/// where the codec rejects the bytes or does not use them up. The contract
/// claims that the outcome depends on the bytes alone.
#[verifier::external_body]
pub(crate) fn deserialize_block(bytes: &[u8]) -> (r: Option<bitcoin::Block>)
    ensures
        r == deserialized_block(bytes@),
{
    bitcoin::consensus::encode::deserialize::<bitcoin::Block>(bytes).ok()
}

/// Calls `Block::block_hash` and writes the hash out through its `Display`.
#[verifier::external_body]
pub(crate) fn block_hash_text(block: &bitcoin::Block) -> (r: String)
    ensures
        r@ == block_header(*block).hash,
{
    block.block_hash().to_string()
}

/// Calls `Version::to_consensus` on the version of the header.
#[verifier::external_body]
pub(crate) fn block_version(block: &bitcoin::Block) -> (r: i32)
    ensures
        r == block_header(*block).version,
{
    block.header.version.to_consensus()
}

/// Writes the previous-block hash of the header out through its `Display`.
#[verifier::external_body]
pub(crate) fn block_prev_text(block: &bitcoin::Block) -> (r: String)
    ensures
        r@ == block_header(*block).prev_block,
{
    block.header.prev_blockhash.to_string()
}

/// Writes the merkle root of the header out through its `Display`.
#[verifier::external_body]
pub(crate) fn block_merkle_text(block: &bitcoin::Block) -> (r: String)
    ensures
        r@ == block_header(*block).merkle_root,
{
    block.header.merkle_root.to_string()
}

/// Hands out the field `time` of the header.
#[verifier::external_body]
pub(crate) fn block_time(block: &bitcoin::Block) -> (r: u32)
    ensures
        r == block_header(*block).time,
{
    block.header.time
}

/// Calls `CompactTarget::to_consensus` on the difficulty target of the
/// header.
#[verifier::external_body]
pub(crate) fn block_bits(block: &bitcoin::Block) -> (r: u32)
    ensures
        r == block_header(*block).bits,
{
    block.header.bits.to_consensus()
}

/// Hands out the field `nonce` of the header.
#[verifier::external_body]
pub(crate) fn block_nonce(block: &bitcoin::Block) -> (r: u32)
    ensures
        r == block_header(*block).nonce,
{
    block.header.nonce
}

/// Calls `consensus::encode::serialize` on the header of a block.
#[verifier::external_body]
pub(crate) fn serialize_header(block: &bitcoin::Block) -> (r: Vec<u8>)
    ensures
        r@ == block_header(*block).header,
{
    bitcoin::consensus::encode::serialize(&block.header)
}

/// Calls `consensus::encode::serialize` on a block.
#[verifier::external_body]
pub(crate) fn serialize_block(block: &bitcoin::Block) -> (r: Vec<u8>)
    ensures
        r@ == block_header(*block).raw,
{
    bitcoin::consensus::encode::serialize(block)
}

/// Hands out the field `txdata` of a block.
#[verifier::external_body]
pub(crate) fn read_transactions(block: &bitcoin::Block) -> (r: &Vec<bitcoin::Transaction>)
    ensures
        r@ == block_transactions(*block),
{
    &block.txdata
}

/// Calls `Transaction::compute_txid` and writes the hash out through its
/// `Display`.
#[verifier::external_body]
pub(crate) fn txid_text(tx: &bitcoin::Transaction) -> (r: String)
    ensures
        r@ == tx_parts(*tx).txid,
{
    tx.compute_txid().to_string()
}

/// Calls `consensus::encode::serialize` on a transaction.
#[verifier::external_body]
pub(crate) fn serialize_tx(tx: &bitcoin::Transaction) -> (r: Vec<u8>)
    ensures
        r@ == tx_parts(*tx).raw,
{
    bitcoin::consensus::encode::serialize(tx)
}

/// Hands out the field `input` of a transaction.
#[verifier::external_body]
pub(crate) fn read_inputs(tx: &bitcoin::Transaction) -> (r: &Vec<bitcoin::TxIn>)
    ensures
        r@ == tx_inputs(*tx),
{
    &tx.input
}

/// Hands out the field `output` of a transaction.
#[verifier::external_body]
pub(crate) fn read_outputs(tx: &bitcoin::Transaction) -> (r: &Vec<bitcoin::TxOut>)
    ensures
        r@ == tx_outputs(*tx),
{
    &tx.output
}

/// Writes the hash of the transaction that an input refers to out through
/// its `Display`.
#[verifier::external_body]
pub(crate) fn input_prev_text(input: &bitcoin::TxIn) -> (r: String)
    ensures
        r@ == input_parts(*input).prev_txid,
{
    input.previous_output.txid.to_string()
}

/// Hands out the index of the output that an input refers to.
#[verifier::external_body]
pub(crate) fn input_vout(input: &bitcoin::TxIn) -> (r: u32)
    ensures
        r == input_parts(*input).vout,
{
    input.previous_output.vout
}

/// Calls `Script::as_bytes` on the unlocking script of an input.
#[verifier::external_body]
pub(crate) fn input_script(input: &bitcoin::TxIn) -> (r: &[u8])
    ensures
        r@ == input_parts(*input).script_sig,
{
    input.script_sig.as_bytes()
}

/// Hands out the sequence number of an input.
#[verifier::external_body]
pub(crate) fn input_sequence(input: &bitcoin::TxIn) -> (r: u32)
    ensures
        r == input_parts(*input).sequence,
{
    input.sequence.0
}

/// Calls `Witness::to_vec` on the witness of an input, which gives the
/// elements of the witness stack in order.
#[verifier::external_body]
pub(crate) fn input_witness(input: &bitcoin::TxIn) -> (r: Vec<Vec<u8>>)
    ensures
        r.deep_view() == input_parts(*input).witness,
{
    input.witness.to_vec()
}

/// Calls `Amount::to_sat` on the value of an output.
#[verifier::external_body]
pub(crate) fn output_value(output: &bitcoin::TxOut) -> (r: u64)
    ensures
        r == output_parts(*output).value,
{
    output.value.to_sat()
}

/// Calls `Script::as_bytes` on the locking script of an output.
#[verifier::external_body]
pub(crate) fn output_script(output: &bitcoin::TxOut) -> (r: &[u8])
    ensures
        r@ == output_parts(*output).script_pubkey,
{
    output.script_pubkey.as_bytes()
}

/// Calls `hex::encode`, which writes each byte as two lower-case hex digits.
#[verifier::external_body]
pub(crate) fn hex_encode(bytes: &[u8]) -> (r: String)
    ensures
        r@ == hex_text(bytes@),
{
    hex::encode(bytes)
}

/// Calls `hex::decode`, which takes two hex digits of either case for each
/// byte and fails on an odd length or on any other character.
#[verifier::external_body]
pub(crate) fn hex_decode(text: &str) -> (r: Option<Vec<u8>>)
    ensures
        r is Some <==> is_hex_text(text@),
        r matches Some(bytes) ==> bytes@ == hex_bytes(text@),
{
    hex::decode(text).ok()
}

} // verus!
