use bitcoin::blockdata::constants::genesis_block;
use bitcoin::Network;
use block_explorer_backend::db::{query_block, query_block_count, query_transaction_count, Store};
use block_explorer_backend::parser::{
    container_name, decode_remote_block, height_after_write, index_blocks, index_payloads,
    index_remote_block, next_frame, parse_block, scan_file, scan_files, ContainerFile, IndexError,
    IndexReport, Parsed, RemoteError, REGTEST_MAGIC,
};

const REGTEST_GENESIS: &str = "0f9188f13cb7b2c71f2a335e3a4fc328bf5beb436012afca590b1a11466e2206";
const MAINNET_GENESIS: &str = "000000000019d6689c085ae165831e934ff763ae46a2a6c172b3f1b60a8ce26f";

fn frame(payload: &[u8]) -> Vec<u8> {
    let mut bytes = REGTEST_MAGIC.to_vec();
    bytes.extend_from_slice(&(payload.len() as u32).to_le_bytes());
    bytes.extend_from_slice(payload);
    bytes
}

fn genesis_payload(network: Network) -> Vec<u8> {
    bitcoin::consensus::encode::serialize(&genesis_block(network))
}

#[test]
fn regtest_marker() {
    assert_eq!(REGTEST_MAGIC, [0x83, 0x9d, 0xe4, 0x11]);
}

#[test]
fn frame_is_found_with_its_end() {
    let data = frame(&[1, 2, 3]);
    assert_eq!(next_frame(&data, 0, &REGTEST_MAGIC), Some(11));
}

#[test]
fn frame_length_is_little_endian() {
    let payload = vec![7u8; 0x0102];
    let data = frame(&payload);
    assert_eq!(&data[4..8], &[0x02, 0x01, 0x00, 0x00]);
    assert_eq!(next_frame(&data, 0, &REGTEST_MAGIC), Some(8 + 0x0102));
}

#[test]
fn frame_with_another_marker_is_none() {
    let mut data = frame(&[1, 2, 3]);
    data[0] = 0xf9;
    assert_eq!(next_frame(&data, 0, &REGTEST_MAGIC), None);
}

#[test]
fn frame_that_is_cut_short_is_none() {
    let data = frame(&[1, 2, 3]);
    assert_eq!(next_frame(&data[..10], 0, &REGTEST_MAGIC), None);
    assert_eq!(next_frame(&data[..7], 0, &REGTEST_MAGIC), None);
    assert_eq!(next_frame(&data[..3], 0, &REGTEST_MAGIC), None);
    assert_eq!(next_frame(&data, 11, &REGTEST_MAGIC), None);
    assert_eq!(next_frame(&data, 12, &REGTEST_MAGIC), None);
    assert_eq!(next_frame(&data, usize::MAX, &REGTEST_MAGIC), None);
}

#[test]
fn empty_payload_is_a_frame() {
    let data = frame(&[]);
    assert_eq!(next_frame(&data, 0, &REGTEST_MAGIC), Some(8));
    assert_eq!(scan_file(&data, &REGTEST_MAGIC), vec![Vec::<u8>::new()]);
}

#[test]
fn file_is_cut_into_its_payloads() {
    let mut data = frame(&[1, 2, 3]);
    data.extend(frame(&[4]));
    data.extend(frame(&[5, 6]));
    assert_eq!(scan_file(&data, &REGTEST_MAGIC), vec![vec![1, 2, 3], vec![4], vec![5, 6]]);
}

#[test]
fn scan_stops_at_the_first_broken_frame() {
    let mut data = frame(&[1, 2, 3]);
    data.extend_from_slice(&[0, 0, 0, 0, 1, 0, 0, 0, 9]);
    data.extend(frame(&[4]));
    assert_eq!(scan_file(&data, &REGTEST_MAGIC), vec![vec![1, 2, 3]]);
    assert_eq!(scan_file(&[], &REGTEST_MAGIC), Vec::<Vec<u8>>::new());
}

#[test]
fn container_file_names() {
    assert!(container_name("blk00000.dat"));
    assert!(container_name("blk.dat"));
    assert!(!container_name("rev00000.dat"));
    assert!(!container_name("blk00000.txt"));
    assert!(!container_name("blk"));
    assert!(!container_name(".dat"));
    assert!(!container_name(""));
    assert!(!container_name("xblk0.dat"));
}

#[test]
fn corrupted_length_prefix_ends_only_its_file() {
    let mut broken = frame(&[1, 2, 3]);
    let mut bad = frame(&[4, 5]);
    bad[4] = 0xff;
    bad[5] = 0xff;
    broken.extend(bad);
    let files = vec![
        ContainerFile { name: "blk00000.dat".to_string(), data: broken },
        ContainerFile { name: "notes.txt".to_string(), data: frame(&[9]) },
        ContainerFile { name: "blk00001.dat".to_string(), data: frame(&[6, 7]) },
    ];
    assert_eq!(scan_files(&files, &REGTEST_MAGIC), vec![vec![1, 2, 3], vec![6, 7]]);
}

#[test]
fn engine_gives_heights_in_scan_order_and_skips_bad_payloads() {
    let payloads = vec![
        genesis_payload(Network::Regtest),
        vec![0xde, 0xad, 0xbe, 0xef],
        genesis_payload(Network::Bitcoin),
    ];
    let mut store = Store::new();
    assert_eq!(index_payloads(&mut store, &payloads, 0).unwrap().next_height, 2);
    assert_eq!(query_block_count(&store), Ok(2));
    assert_eq!(query_transaction_count(&store), Ok(1));
    assert_eq!(query_block(&store, REGTEST_GENESIS).unwrap().unwrap().height, 0);
    assert_eq!(query_block(&store, MAINNET_GENESIS).unwrap().unwrap().height, 1);
}

#[test]
fn engine_starts_at_the_given_height() {
    let payloads = vec![genesis_payload(Network::Regtest)];
    let mut store = Store::new();
    assert_eq!(index_payloads(&mut store, &payloads, 40).unwrap().next_height, 41);
    assert_eq!(query_block(&store, REGTEST_GENESIS).unwrap().unwrap().height, 40);
    assert_eq!(index_payloads(&mut store, &Vec::new(), 7).unwrap().next_height, 7);
}

#[test]
fn container_files_are_indexed_from_height_zero() {
    let mut first = frame(&genesis_payload(Network::Regtest));
    first.extend(frame(&[1, 2, 3]));
    first.extend_from_slice(&[0x83, 0x9d]);
    let files = vec![
        ContainerFile { name: "blk00000.dat".to_string(), data: first },
        ContainerFile { name: "blk00001.dat".to_string(), data: frame(&genesis_payload(Network::Bitcoin)) },
        ContainerFile { name: "rev00001.dat".to_string(), data: frame(&genesis_payload(Network::Testnet)) },
    ];
    let mut store = Store::new();
    assert_eq!(index_blocks(&mut store, &files).unwrap().next_height, 2);
    assert_eq!(query_block(&store, REGTEST_GENESIS).unwrap().unwrap().height, 0);
    assert_eq!(query_block(&store, MAINNET_GENESIS).unwrap().unwrap().height, 1);
    assert_eq!(query_block_count(&store), Ok(2));
}

#[test]
fn payload_with_trailing_bytes_still_decodes() {
    let mut payload = genesis_payload(Network::Regtest);
    payload.extend_from_slice(&[0, 0, 0]);
    let mut store = Store::new();
    assert_eq!(index_payloads(&mut store, &vec![payload], 0).unwrap().next_height, 1);
    assert_eq!(query_block(&store, REGTEST_GENESIS).unwrap().unwrap().size, 285);
}

#[test]
fn frame_with_a_block_is_parsed() {
    let block = genesis_block(Network::Regtest);
    let mut data = frame(&genesis_payload(Network::Regtest));
    data.extend(frame(&[1, 2, 3]));
    data.extend_from_slice(&[0x83]);
    assert_eq!(parse_block(&data, 0, &REGTEST_MAGIC), Parsed::Block { block, end: 293 });
    assert_eq!(parse_block(&data, 293, &REGTEST_MAGIC), Parsed::Rejected { end: 304 });
    assert_eq!(parse_block(&data, 304, &REGTEST_MAGIC), Parsed::End);
    assert_eq!(parse_block(&data, 1, &REGTEST_MAGIC), Parsed::End);
}

#[test]
fn remote_block_is_written_at_its_height() {
    let text = hex::encode(genesis_payload(Network::Regtest));
    let mut store = Store::new();
    assert_eq!(index_remote_block(&mut store, &text, 5), Ok(()));
    assert_eq!(query_block(&store, REGTEST_GENESIS).unwrap().unwrap().height, 5);
    let upper = hex::encode_upper(genesis_payload(Network::Bitcoin));
    assert_eq!(index_remote_block(&mut store, &upper, 6), Ok(()));
    assert_eq!(query_block(&store, MAINNET_GENESIS).unwrap().unwrap().height, 6);
    assert_eq!(query_block_count(&store), Ok(2));
}

#[test]
fn remote_text_that_is_no_hex_is_refused() {
    let mut store = Store::new();
    assert_eq!(index_remote_block(&mut store, "zz", 0), Err(RemoteError::BadHex));
    assert_eq!(index_remote_block(&mut store, "abc", 0), Err(RemoteError::BadHex));
    assert_eq!(index_remote_block(&mut store, "0g", 0), Err(RemoteError::BadHex));
    assert_eq!(index_remote_block(&mut store, "\u{e9}\u{e9}", 0), Err(RemoteError::BadHex));
    assert_eq!(query_block_count(&store), Ok(0));
}

#[test]
fn remote_bytes_that_are_no_block_are_refused() {
    let mut store = Store::new();
    assert_eq!(index_remote_block(&mut store, "", 0), Err(RemoteError::BadBlock));
    assert_eq!(index_remote_block(&mut store, "00ff", 0), Err(RemoteError::BadBlock));
    let mut long = hex::encode(genesis_payload(Network::Regtest));
    long.push_str("00");
    assert_eq!(index_remote_block(&mut store, &long, 0), Err(RemoteError::BadBlock));
    assert_eq!(query_block_count(&store), Ok(0));
}

#[test]
fn engine_does_not_start_where_the_heights_do_not_suffice() {
    let payloads = vec![genesis_payload(Network::Regtest), genesis_payload(Network::Bitcoin)];
    let mut store = Store::new();
    assert_eq!(index_payloads(&mut store, &payloads, u32::MAX - 1), Err(IndexError::TooManyPayloads));
    assert_eq!(query_block_count(&store), Ok(0));
    assert_eq!(index_payloads(&mut store, &payloads, u32::MAX - 2).unwrap().next_height, u32::MAX);
    assert_eq!(query_block(&store, MAINNET_GENESIS).unwrap().unwrap().height, u32::MAX - 1);
    assert_eq!(index_payloads(&mut store, &Vec::new(), u32::MAX).unwrap().next_height, u32::MAX);
}

#[test]
fn height_advances_only_after_a_stored_block() {
    assert_eq!(height_after_write(0, true), 1);
    assert_eq!(height_after_write(0, false), 0);
    assert_eq!(height_after_write(41, true), 42);
    assert_eq!(height_after_write(41, false), 41);
    assert_eq!(height_after_write(u32::MAX - 1, true), u32::MAX);
    assert_eq!(height_after_write(u32::MAX, false), u32::MAX);
}

#[test]
fn engine_reports_the_places_of_rejected_payloads() {
    let payloads = vec![
        vec![1, 2, 3],
        genesis_payload(Network::Regtest),
        vec![],
        vec![0xff; 90],
        genesis_payload(Network::Bitcoin),
    ];
    let mut store = Store::new();
    assert_eq!(
        index_payloads(&mut store, &payloads, 0),
        Ok(IndexReport { next_height: 2, rejected: vec![0, 2, 3] })
    );
    let clean = vec![genesis_payload(Network::Regtest)];
    assert_eq!(
        index_payloads(&mut store, &clean, 9),
        Ok(IndexReport { next_height: 10, rejected: vec![] })
    );
}

#[test]
fn container_run_reports_rejected_payloads_across_files() {
    let mut first = frame(&[9, 9]);
    first.extend(frame(&genesis_payload(Network::Regtest)));
    let files = vec![
        ContainerFile { name: "blk00000.dat".to_string(), data: first },
        ContainerFile { name: "blk00001.dat".to_string(), data: frame(&[7]) },
    ];
    let mut store = Store::new();
    assert_eq!(
        index_blocks(&mut store, &files),
        Ok(IndexReport { next_height: 1, rejected: vec![0, 2] })
    );
}

#[test]
fn remote_block_is_decoded_from_hex() {
    let block = genesis_block(Network::Regtest);
    let text = hex::encode(genesis_payload(Network::Regtest));
    assert_eq!(decode_remote_block(&text), Ok(block));
    assert_eq!(decode_remote_block("xyz"), Err(RemoteError::BadHex));
    assert_eq!(decode_remote_block("00"), Err(RemoteError::BadBlock));
}
