use utxo_snapshot::amount::compress_amount;
use utxo_snapshot::error::DecodeError;
use utxo_snapshot::script::decompress_script;
use utxo_snapshot::snapshot::{
    decode_header, decode_snapshot, Network, Row, SnapshotHeader, StreamDecoder, HEADER_LEN,
};
use utxo_snapshot::varint::encode_varint;

const MAINNET: [u8; 4] = [0xf9, 0xbe, 0xb4, 0xd9];

fn header_bytes(version: u16, magic: [u8; 4], hash: [u8; 32], coins: u64) -> Vec<u8> {
    let mut bytes = b"utxo\xff".to_vec();
    bytes.extend(version.to_le_bytes());
    bytes.extend(magic);
    bytes.extend(hash);
    bytes.extend(coins.to_le_bytes());
    bytes
}

fn txid_a() -> [u8; 32] {
    let mut id = [0u8; 32];
    for (i, byte) in id.iter_mut().enumerate() {
        *byte = i as u8;
    }
    id
}

fn txid_b() -> [u8; 32] {
    [0xab; 32]
}

const TEXT_A: &str = "1f1e1d1c1b1a191817161514131211100f0e0d0c0b0a09080706050403020100";

const TEXT_B: &str = "abababababababababababababababababababababababababababababababab";

fn hash20(seed: u8) -> Vec<u8> {
    (0u8..20).map(|i| seed.wrapping_add(i)).collect()
}

fn member(vout: u8, height: u64, coinbase: bool, amount: u64, stored_script: &[u8]) -> Vec<u8> {
    let mut bytes = vec![vout];
    bytes.extend(encode_varint(height * 2 + coinbase as u64));
    bytes.extend(encode_varint(compress_amount(amount).unwrap()));
    bytes.extend(stored_script);
    bytes
}

fn stored_hash(tag: u8, seed: u8) -> Vec<u8> {
    let mut bytes = vec![tag];
    bytes.extend(hash20(seed));
    bytes
}

fn two_groups() -> Vec<u8> {
    let mut bytes = header_bytes(2, MAINNET, [7; 32], 3);
    bytes.extend(txid_a());
    bytes.push(2);
    bytes.extend(member(0, 100, true, 5_000_000_000, &stored_hash(0, 1)));
    bytes.extend(member(3, 100, true, 12_345_678, &stored_hash(1, 50)));
    bytes.extend(txid_b());
    bytes.push(1);
    bytes.extend(member(1, 840_000, false, 1, &[0x08, 0x6a, 0x00]));
    bytes
}

fn expected_rows() -> Vec<Row> {
    vec![
        Row {
            txid: TEXT_A.to_string(),
            vout: 0,
            height: 100,
            coinbase: true,
            amount: 5_000_000_000,
            script: decompress_script(0, hash20(1)).unwrap(),
        },
        Row {
            txid: TEXT_A.to_string(),
            vout: 3,
            height: 100,
            coinbase: true,
            amount: 12_345_678,
            script: decompress_script(1, hash20(50)).unwrap(),
        },
        Row {
            txid: TEXT_B.to_string(),
            vout: 1,
            height: 840_000,
            coinbase: false,
            amount: 1,
            script: vec![0x6a, 0x00],
        },
    ]
}

#[test]
fn header_fields() {
    let mut hash = [0u8; 32];
    hash[0] = 0xfe;
    hash[31] = 0x01;
    let mut bytes = header_bytes(0x0102, MAINNET, hash, 0x0807_0605_0403_0201);
    bytes.extend([0xaa, 0xbb]);
    assert_eq!(HEADER_LEN, 51);
    assert_eq!(
        decode_header(&bytes),
        Ok((
            SnapshotHeader {
                version: 0x0102,
                network: Network::Bitcoin,
                block_hash: hash,
                coin_count: 0x0807_0605_0403_0201,
            },
            51
        ))
    );
}

#[test]
fn header_networks() {
    let cases = [
        ([0xf9, 0xbe, 0xb4, 0xd9], Network::Bitcoin),
        ([0x0b, 0x11, 0x09, 0x07], Network::Testnet),
        ([0x1c, 0x16, 0x3f, 0x28], Network::Testnet4),
        ([0x0a, 0x03, 0xcf, 0x40], Network::Signet),
        ([0xfa, 0xbf, 0xb5, 0xda], Network::Regtest),
    ];
    for (magic, network) in cases {
        let (header, _) = decode_header(&header_bytes(1, magic, [0; 32], 0)).unwrap();
        assert_eq!(header.network, network);
    }
}

#[test]
fn header_unknown_network() {
    let bytes = header_bytes(1, [0xd9, 0xb4, 0xbe, 0xf9], [0; 32], 0);
    assert_eq!(decode_header(&bytes), Err(DecodeError::UnknownNetwork));
    let bytes = header_bytes(1, [0; 4], [0; 32], 0);
    assert_eq!(decode_header(&bytes), Err(DecodeError::UnknownNetwork));
    // The network is judged before the rest of the header is asked for.
    assert_eq!(decode_header(&bytes[..11]), Err(DecodeError::UnknownNetwork));
}

#[test]
fn header_bad_magic() {
    let mut bytes = header_bytes(1, MAINNET, [0; 32], 0);
    bytes[4] = 0xfe;
    assert_eq!(decode_header(&bytes), Err(DecodeError::BadMagic));
    assert_eq!(decode_header(b"UTXO\xff"), Err(DecodeError::BadMagic));
    assert_eq!(decode_header(b"utxp\xff and more"), Err(DecodeError::BadMagic));
}

#[test]
fn header_truncated() {
    let bytes = header_bytes(1, MAINNET, [0; 32], 9);
    for len in [0usize, 4, 5, 10, 11, 50] {
        assert_eq!(decode_header(&bytes[..len]), Err(DecodeError::UnexpectedEof));
    }
    assert!(decode_header(&bytes[..51]).is_ok());
}

#[test]
fn two_groups_give_three_rows_in_input_order() {
    let bytes = two_groups();
    let (header, rows, taken) = decode_snapshot(&bytes).unwrap();
    assert_eq!(header.coin_count, 3);
    assert_eq!(header.version, 2);
    assert_eq!(header.block_hash, [7; 32]);
    assert_eq!(taken, bytes.len());
    assert_eq!(rows, expected_rows());
}

#[test]
fn stream_decoder_walks_the_groups() {
    let bytes = two_groups();
    let body = &bytes[HEADER_LEN..];
    let mut decoder = StreamDecoder::new();
    assert_eq!(decoder.remaining(), 0);
    let mut at = 0;
    let mut rows = Vec::new();
    let mut left = Vec::new();
    for _ in 0..3 {
        let (row, taken) = decoder.next_row(&body[at..]).unwrap();
        at += taken;
        rows.push(row);
        left.push(decoder.remaining());
    }
    assert_eq!(at, body.len());
    assert_eq!(rows, expected_rows());
    assert_eq!(left, vec![1, 0, 0]);
    assert_eq!(decoder.next_row(&body[at..]), Err(DecodeError::UnexpectedEof));
}

#[test]
fn stream_decoder_keeps_its_state_on_failure() {
    let bytes = two_groups();
    let body = &bytes[HEADER_LEN..];
    let mut decoder = StreamDecoder::new();
    let (_, first) = decoder.next_row(body).unwrap();
    assert_eq!(decoder.remaining(), 1);
    // The second coin is cut short, then given in full.
    assert_eq!(decoder.next_row(&body[first..first + 5]), Err(DecodeError::UnexpectedEof));
    assert_eq!(decoder.remaining(), 1);
    let (row, _) = decoder.next_row(&body[first..]).unwrap();
    assert_eq!(row, expected_rows()[1]);
    assert_eq!(decoder.remaining(), 0);
    // A group header cut short leaves the decoder awaiting it.
    let mut fresh = StreamDecoder::new();
    assert_eq!(fresh.next_row(&body[..40]), Err(DecodeError::UnexpectedEof));
    assert_eq!(fresh.remaining(), 0);
    assert_eq!(fresh.next_row(body).unwrap().0, expected_rows()[0]);
}

#[test]
fn zero_count_group_fails() {
    let mut bytes = header_bytes(2, MAINNET, [7; 32], 1);
    bytes.extend(txid_a());
    bytes.push(0);
    bytes.extend(member(0, 100, true, 5_000_000_000, &stored_hash(0, 1)));
    assert_eq!(decode_snapshot(&bytes), Err(DecodeError::EmptyGroup));
    let mut decoder = StreamDecoder::new();
    assert_eq!(decoder.next_row(&bytes[HEADER_LEN..]), Err(DecodeError::EmptyGroup));
    assert_eq!(decoder.next_row(&bytes[HEADER_LEN..]), Err(DecodeError::EmptyGroup));
}

#[test]
fn zero_count_group_after_a_full_one_fails() {
    let mut bytes = header_bytes(2, MAINNET, [7; 32], 2);
    bytes.extend(txid_a());
    bytes.push(1);
    bytes.extend(member(0, 100, true, 5_000_000_000, &stored_hash(0, 1)));
    bytes.extend(txid_b());
    bytes.push(0);
    assert_eq!(decode_snapshot(&bytes), Err(DecodeError::EmptyGroup));
}

#[test]
fn no_coins() {
    let bytes = header_bytes(2, MAINNET, [7; 32], 0);
    let (header, rows, taken) = decode_snapshot(&bytes).unwrap();
    assert_eq!(header.coin_count, 0);
    assert!(rows.is_empty());
    assert_eq!(taken, 51);
}

#[test]
fn count_mismatch() {
    // The header declares one coin, its group two.
    let mut bytes = header_bytes(2, MAINNET, [7; 32], 1);
    bytes.extend(txid_a());
    bytes.push(2);
    bytes.extend(member(0, 100, true, 5_000_000_000, &stored_hash(0, 1)));
    bytes.extend(member(1, 100, true, 5_000_000_000, &stored_hash(0, 1)));
    assert_eq!(decode_snapshot(&bytes), Err(DecodeError::CountMismatch));
}

#[test]
fn fewer_coins_than_declared() {
    let mut bytes = two_groups();
    bytes[43] = 4;
    assert_eq!(decode_snapshot(&bytes), Err(DecodeError::UnexpectedEof));
    let whole = two_groups();
    assert_eq!(decode_snapshot(&whole[..whole.len() - 1]), Err(DecodeError::UnexpectedEof));
}

#[test]
fn what_follows_the_last_coin_is_left() {
    let mut bytes = two_groups();
    let len = bytes.len();
    bytes.extend([0xde, 0xad]);
    let (_, rows, taken) = decode_snapshot(&bytes).unwrap();
    assert_eq!(rows.len(), 3);
    assert_eq!(taken, len);
}

#[test]
fn output_index_is_a_compact_size() {
    let mut bytes = header_bytes(2, MAINNET, [7; 32], 1);
    bytes.extend(txid_b());
    bytes.push(1);
    bytes.extend([0xfd, 0x00, 0x01]);
    bytes.extend(encode_varint(2));
    bytes.extend(encode_varint(0));
    bytes.push(0x06);
    let (_, rows, _) = decode_snapshot(&bytes).unwrap();
    assert_eq!(rows[0].vout, 256);
    assert_eq!(rows[0].height, 1);
    let mut bad = header_bytes(2, MAINNET, [7; 32], 1);
    bad.extend(txid_b());
    bad.extend([0xfd, 0x01, 0x00]);
    assert_eq!(decode_snapshot(&bad), Err(DecodeError::NonMinimalCompactSize));
}

#[test]
fn txid_text_matches_the_crate() {
    let bytes = two_groups();
    let (_, rows, _) = decode_snapshot(&bytes).unwrap();
    let id = <bitcoin::Txid as bitcoin::hashes::Hash>::from_byte_array(txid_a());
    assert_eq!(rows[0].txid, id.to_string());
    assert_eq!(rows[0].txid, TEXT_A);
}
