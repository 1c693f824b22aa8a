use bitcoin::absolute::LockTime;
use bitcoin::block::{Header, Version as BlockVersion};
use bitcoin::blockdata::constants::genesis_block;
use bitcoin::transaction::Version as TxVersion;
use bitcoin::{
    Amount, Block, CompactTarget, Network, OutPoint, ScriptBuf, Sequence, Transaction,
    TxIn, TxOut, Witness,
};
use block_explorer_backend::db::{
    insert_block, insert_tx, query_all_blocks, query_block, query_block_by_height,
    query_block_count, query_block_transactions, query_latest_block, query_latest_blocks,
    query_transaction_count, query_tx, Store, StoreError,
};
use block_explorer_backend::records::{block_record, simplify_input, simplify_output, tx_record};

const GENESIS_HASH: &str = "0f9188f13cb7b2c71f2a335e3a4fc328bf5beb436012afca590b1a11466e2206";
const GENESIS_TXID: &str = "4a5e1e4baab89f3a32518a88c31bc87f618f76673e2cc77ab2127b7afdeda33b";
const ZERO_HASH: &str = "0000000000000000000000000000000000000000000000000000000000000000";

fn store_tx(tag: u32, value: u64) -> Transaction {
    Transaction {
        version: TxVersion::ONE,
        lock_time: LockTime::from_consensus(tag),
        input: vec![TxIn {
            previous_output: OutPoint::null(),
            script_sig: ScriptBuf::from_bytes(vec![0x51, 0x0a, 0xff]),
            sequence: Sequence::MAX,
            witness: Witness::from_slice(&[vec![0x01u8, 0x02], vec![0xab]]),
        }],
        output: vec![TxOut {
            value: Amount::from_sat(value),
            script_pubkey: ScriptBuf::from_bytes(vec![0x6a, 0x00, 0x10]),
        }],
    }
}

fn store_block(nonce: u32, version: i32, txs: Vec<Transaction>) -> Block {
    Block {
        header: Header {
            version: BlockVersion::from_consensus(version),
            prev_blockhash: bitcoin::hashes::Hash::all_zeros(),
            merkle_root: bitcoin::hashes::Hash::all_zeros(),
            time: 1_600_000_000 + nonce,
            bits: CompactTarget::from_consensus(0x207fffff),
            nonce,
        },
        txdata: txs,
    }
}

#[test]
fn genesis_block_is_stored_with_its_fields() {
    let block = genesis_block(Network::Regtest);
    let mut store = Store::new();
    assert_eq!(insert_block(&mut store, &block, 0), Ok(()));
    let found = query_block(&store, GENESIS_HASH).unwrap().unwrap();
    assert_eq!(found.hash, GENESIS_HASH);
    assert_eq!(found.height, 0);
    assert_eq!(found.version, 1);
    assert_eq!(found.prev_block, ZERO_HASH);
    assert_eq!(found.merkle_root, GENESIS_TXID);
    assert_eq!(found.timestamp, 1296688602);
    assert_eq!(found.bits, 0x207fffff);
    assert_eq!(found.nonce, 2);
    assert_eq!(found.tx_count, 1);
    assert_eq!(found.size, 285);
}

#[test]
fn genesis_transaction_has_one_output_of_fifty_coins() {
    let block = genesis_block(Network::Regtest);
    let mut store = Store::new();
    insert_block(&mut store, &block, 0).unwrap();
    let tx = query_tx(&store, GENESIS_TXID).unwrap().unwrap();
    assert_eq!(tx.txid, GENESIS_TXID);
    assert_eq!(tx.outputs.len(), 1);
    assert_eq!(tx.outputs[0].value, 5_000_000_000);
    assert_eq!(tx.outputs[0].script_pubkey.len(), 134);
    assert!(tx.outputs[0].script_pubkey.starts_with("4104678afdb0"));
    assert!(tx.outputs[0].script_pubkey.ends_with("ac"));
    assert_eq!(tx.inputs.len(), 1);
    assert_eq!(tx.inputs[0].prev_txid, ZERO_HASH);
    assert_eq!(tx.inputs[0].vout, 0xffff_ffff);
    assert_eq!(tx.inputs[0].sequence, 0xffff_ffff);
    assert!(tx.inputs[0].script_sig.starts_with("04ffff001d0104"));
    assert_eq!(tx.inputs[0].witness.len(), 0);
    assert_eq!(tx.block_hash, Some(GENESIS_HASH.to_string()));
    assert_eq!(tx.block_height, Some(0));
    assert_eq!(tx.confirmations, None);
    assert_eq!(tx.version, 1);
    assert_eq!(tx.lock_time, 0);
}

#[test]
fn transaction_sizes_follow_the_serialised_length() {
    let block = genesis_block(Network::Regtest);
    let mut store = Store::new();
    insert_block(&mut store, &block, 0).unwrap();
    let tx = query_tx(&store, GENESIS_TXID).unwrap().unwrap();
    assert_eq!(tx.size, 204);
    assert_eq!(tx.vsize, 204);
    assert_eq!(tx.weight, 816);
}

#[test]
fn block_record_holds_header_and_raw_bytes() {
    let block = genesis_block(Network::Regtest);
    let record = block_record(&block, 7);
    assert_eq!(record.hash, GENESIS_HASH);
    assert_eq!(record.height, 7);
    assert_eq!(record.version, 1);
    assert_eq!(record.header.len(), 80);
    assert_eq!(record.raw_data.len(), 285);
    assert_eq!(record.size, 285);
    assert_eq!(&record.raw_data[..80], &record.header[..]);
    assert_eq!(record.raw_data, bitcoin::consensus::encode::serialize(&block));
}

#[test]
fn scripts_and_witness_are_written_as_lower_case_hex() {
    let tx = store_tx(1, 42);
    let input = simplify_input(&tx.input[0]);
    assert_eq!(input.script_sig, "510aff");
    assert_eq!(input.witness, vec!["0102".to_string(), "ab".to_string()]);
    assert_eq!(input.prev_txid, ZERO_HASH);
    assert_eq!(input.vout, u32::MAX);
    assert_eq!(input.sequence, u32::MAX);
    let output = simplify_output(&tx.output[0]);
    assert_eq!(output.script_pubkey, "6a0010");
    assert_eq!(output.value, 42);
}

#[test]
fn tx_record_names_its_block() {
    let tx = store_tx(3, 9);
    let record = tx_record(&tx, "abc");
    assert_eq!(record.block_hash, "abc");
    assert_eq!(record.txid, tx.compute_txid().to_string());
    assert_eq!(record.raw_data, bitcoin::consensus::encode::serialize(&tx));
    assert_eq!(record.inputs.len(), 1);
    assert_eq!(record.outputs.len(), 1);
    assert_eq!(record.outputs[0].value, 9);
}

#[test]
fn unknown_block_is_none() {
    let store = Store::new();
    assert_eq!(query_block(&store, GENESIS_HASH), Ok(None));
    assert_eq!(query_block_by_height(&store, 0), Ok(None));
    assert_eq!(query_tx(&store, GENESIS_TXID), Ok(None));
}

#[test]
fn transaction_without_stored_block_is_refused() {
    let mut store = Store::new();
    let tx = store_tx(1, 5);
    assert_eq!(insert_tx(&mut store, &tx, GENESIS_HASH), Err(StoreError::ForeignKey));
    assert_eq!(query_transaction_count(&store), Ok(0));
    assert_eq!(query_tx(&store, &tx.compute_txid().to_string()), Ok(None));
}

#[test]
fn transaction_of_a_stored_block_is_written() {
    let mut store = Store::new();
    let block = store_block(1, 1, vec![]);
    insert_block(&mut store, &block, 4).unwrap();
    let hash = block.block_hash().to_string();
    let tx = store_tx(1, 5);
    assert_eq!(insert_tx(&mut store, &tx, &hash), Ok(()));
    assert_eq!(query_transaction_count(&store), Ok(1));
    let found = query_tx(&store, &tx.compute_txid().to_string()).unwrap().unwrap();
    assert_eq!(found.block_hash, Some(hash.clone()));
    assert_eq!(found.block_height, Some(4));
    assert_eq!(query_block(&store, &hash).unwrap().unwrap().tx_count, 1);
}

#[test]
fn block_with_negative_version_is_shown_as_decoded() {
    let mut store = Store::new();
    let block = store_block(1, -1, vec![]);
    insert_block(&mut store, &block, 0).unwrap();
    let hash = block.block_hash().to_string();
    let found = query_block(&store, &hash).unwrap().unwrap();
    assert_eq!(found.version, -1);
    assert_eq!(found.hash, hash);
    assert_eq!(found.height, 0);
    assert_eq!(query_block_by_height(&store, 0), Ok(Some(found)));
    let lowest = store_block(2, i32::MIN, vec![]);
    insert_block(&mut store, &lowest, 1).unwrap();
    let found = query_block(&store, &lowest.block_hash().to_string()).unwrap().unwrap();
    assert_eq!(found.version, i32::MIN);
    assert_eq!(query_block_count(&store), Ok(2));
}

#[test]
fn store_error_messages() {
    assert_eq!(StoreError::ForeignKey.message(), "FOREIGN KEY constraint failed");
    assert_eq!(StoreError::OutOfRange.message(), "Integer out of range");
}

#[test]
fn writing_a_block_again_replaces_it() {
    let mut store = Store::new();
    let block = store_block(1, 1, vec![store_tx(1, 5), store_tx(2, 6)]);
    insert_block(&mut store, &block, 0).unwrap();
    insert_block(&mut store, &block, 9).unwrap();
    assert_eq!(query_block_count(&store), Ok(1));
    assert_eq!(query_transaction_count(&store), Ok(2));
    let hash = block.block_hash().to_string();
    let found = query_block(&store, &hash).unwrap().unwrap();
    assert_eq!(found.height, 9);
    assert_eq!(found.tx_count, 2);
    assert_eq!(query_block_by_height(&store, 0), Ok(None));
    assert_eq!(query_block_by_height(&store, 9).unwrap().unwrap().hash, hash);
}

#[test]
fn transaction_seen_in_a_second_block_moves_to_it() {
    let mut store = Store::new();
    let shared = store_tx(1, 5);
    let first = store_block(1, 1, vec![shared.clone()]);
    let second = store_block(2, 1, vec![shared.clone()]);
    insert_block(&mut store, &first, 0).unwrap();
    insert_block(&mut store, &second, 1).unwrap();
    assert_eq!(query_transaction_count(&store), Ok(1));
    let found = query_tx(&store, &shared.compute_txid().to_string()).unwrap().unwrap();
    assert_eq!(found.block_hash, Some(second.block_hash().to_string()));
    assert_eq!(found.block_height, Some(1));
    assert_eq!(query_block(&store, &first.block_hash().to_string()).unwrap().unwrap().tx_count, 0);
    assert_eq!(query_block(&store, &second.block_hash().to_string()).unwrap().unwrap().tx_count, 1);
}

#[test]
fn blocks_are_kept_in_order_of_height() {
    let mut store = Store::new();
    let a = store_block(1, 1, vec![]);
    let b = store_block(2, 1, vec![]);
    let c = store_block(3, 1, vec![]);
    insert_block(&mut store, &a, 5).unwrap();
    insert_block(&mut store, &b, 1).unwrap();
    insert_block(&mut store, &c, 3).unwrap();
    let heights: Vec<u32> = store.blocks().iter().map(|r| r.height).collect();
    assert_eq!(heights, vec![1, 3, 5]);
    let all = query_all_blocks(&store, 10, 0).unwrap();
    let listed: Vec<u32> = all.iter().map(|s| s.height).collect();
    assert_eq!(listed, vec![1, 3, 5]);
    let latest = query_latest_blocks(&store, 2).unwrap();
    let listed: Vec<u32> = latest.iter().map(|s| s.height).collect();
    assert_eq!(listed, vec![5, 3]);
    assert_eq!(query_latest_block(&store), Ok(Some((5, a.block_hash().to_string()))));
}

#[test]
fn of_two_blocks_with_one_height_the_first_written_is_found() {
    let mut store = Store::new();
    let a = store_block(1, 1, vec![]);
    let b = store_block(2, 1, vec![]);
    insert_block(&mut store, &a, 0).unwrap();
    insert_block(&mut store, &b, 0).unwrap();
    assert_eq!(query_block_count(&store), Ok(2));
    let found = query_block_by_height(&store, 0).unwrap().unwrap();
    assert_eq!(found.hash, a.block_hash().to_string());
    assert_eq!(query_latest_block(&store), Ok(Some((0, b.block_hash().to_string()))));
}

#[test]
fn window_of_blocks_respects_limit_and_offset() {
    let mut store = Store::new();
    for n in 0..5u32 {
        insert_block(&mut store, &store_block(n + 1, 1, vec![store_tx(n, 1)]), n).unwrap();
    }
    let page = query_all_blocks(&store, 2, 1).unwrap();
    assert_eq!(page.len(), 2);
    assert_eq!(page[0].height, 1);
    assert_eq!(page[1].height, 2);
    assert_eq!(page[0].timestamp, 1_600_000_002);
    assert_eq!(page[0].tx_count, 1);
    assert_eq!(query_all_blocks(&store, 2, 4).unwrap().len(), 1);
    assert_eq!(query_all_blocks(&store, 2, 5).unwrap().len(), 0);
    assert_eq!(query_all_blocks(&store, 0, 0).unwrap().len(), 0);
    assert_eq!(query_latest_blocks(&store, 0).unwrap().len(), 0);
    assert_eq!(query_latest_blocks(&store, 9).unwrap().len(), 5);
}

#[test]
fn latest_block_of_an_empty_store_is_none() {
    let store = Store::new();
    assert_eq!(query_latest_block(&store), Ok(None));
    assert_eq!(query_block_count(&store), Ok(0));
    assert_eq!(query_transaction_count(&store), Ok(0));
}

#[test]
fn transactions_of_a_block_are_listed_in_block_order() {
    let mut store = Store::new();
    let t1 = store_tx(1, 5);
    let t2 = store_tx(2, 6);
    let other = store_tx(3, 7);
    let block = store_block(1, 1, vec![t1.clone(), t2.clone()]);
    insert_block(&mut store, &store_block(2, 1, vec![other]), 0).unwrap();
    insert_block(&mut store, &block, 1).unwrap();
    let ids = query_block_transactions(&store, &block.block_hash().to_string()).unwrap();
    assert_eq!(ids, vec![t1.compute_txid().to_string(), t2.compute_txid().to_string()]);
    assert_eq!(query_block_transactions(&store, GENESIS_HASH), Ok(vec![]));
    assert_eq!(store.transactions().len(), 3);
}
