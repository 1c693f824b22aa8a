use bitcoin::absolute::LockTime;
use bitcoin::block::{Header, Version as BlockVersion};
use bitcoin::transaction::Version as TxVersion;
use bitcoin::{
    Amount, Block, CompactTarget, OutPoint, ScriptBuf, Sequence, Transaction, TxIn,
    TxOut, Witness,
};
use block_explorer_backend::db::{
    insert_block, query_block, query_block_by_height, query_block_count, query_transaction_count,
    Store,
};
use block_explorer_backend::handlers::{
    get_all_blocks, get_block_transactions, get_latest_blocks, get_tx, Reply,
};
use block_explorer_backend::parser::index_payloads;

fn law_tx(tag: u32) -> Transaction {
    Transaction {
        version: TxVersion::TWO,
        lock_time: LockTime::from_consensus(tag),
        input: vec![TxIn {
            previous_output: OutPoint::null(),
            script_sig: ScriptBuf::from_bytes(vec![0x00, tag as u8]),
            sequence: Sequence::MAX,
            witness: Witness::default(),
        }],
        output: vec![TxOut {
            value: Amount::from_sat(50 + tag as u64),
            script_pubkey: ScriptBuf::from_bytes(vec![0x51]),
        }],
    }
}

fn law_block(nonce: u32, txs: Vec<Transaction>) -> Block {
    Block {
        header: Header {
            version: BlockVersion::from_consensus(0x2000_0000),
            prev_blockhash: bitcoin::hashes::Hash::all_zeros(),
            merkle_root: bitcoin::hashes::Hash::all_zeros(),
            time: 1_650_000_000,
            bits: CompactTarget::from_consensus(0x207fffff),
            nonce,
        },
        txdata: txs,
    }
}

fn law_payloads() -> Vec<Vec<u8>> {
    vec![
        bitcoin::consensus::encode::serialize(&law_block(1, vec![law_tx(1), law_tx(2)])),
        vec![1, 2, 3],
        bitcoin::consensus::encode::serialize(&law_block(2, vec![law_tx(3)])),
        bitcoin::consensus::encode::serialize(&law_block(3, vec![])),
    ]
}

#[test]
fn written_block_is_found_by_hash_and_by_height() {
    let mut store = Store::new();
    let block = law_block(7, vec![law_tx(1)]);
    insert_block(&mut store, &law_block(8, vec![]), 0).unwrap();
    insert_block(&mut store, &block, 1).unwrap();
    let by_hash = query_block(&store, &block.block_hash().to_string()).unwrap().unwrap();
    assert_eq!(by_hash.hash, block.block_hash().to_string());
    assert_eq!(by_hash.height, 1);
    assert_eq!(by_hash.version, 0x2000_0000);
    assert_eq!(by_hash.prev_block, block.header.prev_blockhash.to_string());
    assert_eq!(by_hash.merkle_root, block.header.merkle_root.to_string());
    assert_eq!(by_hash.timestamp, 1_650_000_000);
    assert_eq!(by_hash.bits, 0x207fffff);
    assert_eq!(by_hash.nonce, 7);
    assert_eq!(by_hash.size, bitcoin::consensus::encode::serialize(&block).len());
    let by_height = query_block_by_height(&store, 1).unwrap().unwrap();
    assert_eq!(by_height, by_hash);
}

#[test]
fn second_run_keeps_the_counts() {
    let payloads = law_payloads();
    let mut store = Store::new();
    assert_eq!(index_payloads(&mut store, &payloads, 0).unwrap().next_height, 3);
    let blocks = query_block_count(&store);
    let txs = query_transaction_count(&store);
    assert_eq!(blocks, Ok(3));
    assert_eq!(txs, Ok(3));
    assert_eq!(index_payloads(&mut store, &payloads, 0).unwrap().next_height, 3);
    assert_eq!(query_block_count(&store), blocks);
    assert_eq!(query_transaction_count(&store), txs);
    assert_eq!(index_payloads(&mut store, &payloads, 10).unwrap().next_height, 13);
    assert_eq!(query_block_count(&store), blocks);
    assert_eq!(query_transaction_count(&store), txs);
}

#[test]
fn transactions_of_a_written_block_are_linked_to_it() {
    let mut store = Store::new();
    let txs = vec![law_tx(1), law_tx(2), law_tx(3)];
    let block = law_block(1, txs.clone());
    insert_block(&mut store, &block, 6).unwrap();
    let hash = block.block_hash().to_string();
    let listed = get_block_transactions(&store, &hash).unwrap().transactions;
    for tx in &txs {
        let id = tx.compute_txid().to_string();
        assert!(listed.contains(&id));
        match get_tx(&store, &id) {
            Reply::Found(found) => {
                assert_eq!(found.block_height, Some(6));
                assert_eq!(found.block_hash, Some(hash.clone()));
            }
            other => panic!("{:?}", other),
        }
    }
}

#[test]
fn page_never_holds_more_than_the_capped_limit() {
    let mut store = Store::new();
    for n in 0..7u32 {
        insert_block(&mut store, &law_block(n, vec![]), n).unwrap();
    }
    for limit in [0usize, 1, 3, 7, 100, 101, 5000] {
        for page in [1usize, 2, 3, 8] {
            let got = get_all_blocks(&store, Some(page), Some(limit)).unwrap();
            assert!(got.blocks.len() <= limit.min(100));
            assert_eq!(
                got.pagination.has_next,
                got.pagination.current_page < got.pagination.total_pages
            );
        }
    }
}

#[test]
fn latest_listing_is_ordered_and_capped() {
    let mut store = Store::new();
    for n in 0..9u32 {
        insert_block(&mut store, &law_block(n, vec![]), (n * 7) % 5).unwrap();
    }
    for limit in [0usize, 1, 4, 9, 100, 400] {
        let got = get_latest_blocks(&store, Some(limit)).unwrap();
        assert!(got.blocks.len() <= limit.min(100));
        assert_eq!(got.total_count as usize, got.blocks.len());
        for pair in got.blocks.windows(2) {
            assert!(pair[0].height >= pair[1].height);
        }
    }
}

#[test]
fn run_gives_each_block_a_height_of_its_own() {
    let payloads = law_payloads();
    let mut store = Store::new();
    assert_eq!(index_payloads(&mut store, &payloads, 0).unwrap().next_height, 3);
    let expected = [(law_block(1, vec![law_tx(1), law_tx(2)]), 0u32), (law_block(2, vec![law_tx(3)]), 1), (law_block(3, vec![]), 2)];
    for (block, height) in expected {
        let hash = block.block_hash().to_string();
        let by_hash = query_block(&store, &hash).unwrap().unwrap();
        assert_eq!(by_hash.height, height);
        assert_eq!(by_hash.nonce, block.header.nonce);
        assert_eq!(by_hash.tx_count, block.txdata.len());
        assert_eq!(query_block_by_height(&store, height).unwrap().unwrap(), by_hash);
    }
    assert_eq!(index_payloads(&mut store, &vec![payloads[3].clone()], 3).unwrap().next_height, 4);
    let moved = law_block(3, vec![]).block_hash().to_string();
    assert_eq!(query_block(&store, &moved).unwrap().unwrap().height, 3);
    assert_eq!(query_block_by_height(&store, 2), Ok(None));
}

#[test]
fn written_block_counts_its_distinct_transactions() {
    let mut store = Store::new();
    let block = law_block(5, vec![law_tx(1), law_tx(2), law_tx(1), law_tx(3), law_tx(2)]);
    insert_block(&mut store, &law_block(6, vec![law_tx(9)]), 0).unwrap();
    insert_block(&mut store, &block, 1).unwrap();
    let hash = block.block_hash().to_string();
    assert_eq!(query_block(&store, &hash).unwrap().unwrap().tx_count, 3);
    let listed = get_block_transactions(&store, &hash).unwrap();
    assert_eq!(listed.transaction_count, 3);
    assert_eq!(
        listed.transactions,
        vec![
            law_tx(1).compute_txid().to_string(),
            law_tx(3).compute_txid().to_string(),
            law_tx(2).compute_txid().to_string(),
        ]
    );
    assert_eq!(query_transaction_count(&store), Ok(4));
}
