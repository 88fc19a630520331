use utxo_snapshot::amount::{compress_amount, decompress_amount, try_decompress_amount};
use utxo_snapshot::error::DecodeError;
use utxo_snapshot::varint::{decode_varint, encode_varint};
use utxo_snapshot::wire::{decode_compact_size, decode_txid, read_array, read_le};

#[test]
fn varint_known_encodings() {
    let cases: Vec<(u64, Vec<u8>)> = vec![
        (0, vec![0x00]),
        (1, vec![0x01]),
        (127, vec![0x7f]),
        (128, vec![0x80, 0x00]),
        (255, vec![0x80, 0x7f]),
        (256, vec![0x81, 0x00]),
        (300, vec![0x81, 0x2c]),
        (16383, vec![0xfe, 0x7f]),
        (16384, vec![0xff, 0x00]),
        (16511, vec![0xff, 0x7f]),
        (65535, vec![0x82, 0xfe, 0x7f]),
        (1 << 32, vec![0x8e, 0xfe, 0xfe, 0xff, 0x00]),
        (u64::MAX, vec![0x80, 0xfe, 0xfe, 0xfe, 0xfe, 0xfe, 0xfe, 0xfe, 0xfe, 0x7f]),
    ];
    for (value, bytes) in cases {
        assert_eq!(encode_varint(value), bytes);
        assert_eq!(decode_varint(&bytes), Ok((value, bytes.len())));
    }
}

#[test]
fn varint_round_trip() {
    let mut x: u64 = 0;
    for step in 0..20_000u64 {
        let bytes = encode_varint(x);
        assert_eq!(decode_varint(&bytes), Ok((x, bytes.len())));
        x = x.wrapping_mul(6364136223846793005).wrapping_add(1442695040888963407 + step);
    }
    for shift in 0..64 {
        for delta in [0u64, 1, 2] {
            let x = (1u64 << shift).wrapping_sub(delta);
            let bytes = encode_varint(x);
            assert_eq!(decode_varint(&bytes), Ok((x, bytes.len())));
        }
    }
}

#[test]
fn varint_ignores_what_follows() {
    assert_eq!(decode_varint(&[0x81, 0x2c, 0xff, 0xff]), Ok((300, 2)));
    assert_eq!(decode_varint(&[0x00, 0x80]), Ok((0, 1)));
}

#[test]
fn varint_truncated() {
    assert_eq!(decode_varint(&[]), Err(DecodeError::UnexpectedEof));
    assert_eq!(decode_varint(&[0x80]), Err(DecodeError::UnexpectedEof));
    assert_eq!(decode_varint(&[0xff, 0x80, 0x81]), Err(DecodeError::UnexpectedEof));
}

#[test]
fn varint_overflow() {
    // One more than the largest 64-bit value.
    let bytes = [0x80, 0xfe, 0xfe, 0xfe, 0xfe, 0xfe, 0xfe, 0xfe, 0xff, 0x00];
    assert_eq!(decode_varint(&bytes), Err(DecodeError::VarintOverflow));
    // The bound is passed before the input ends.
    assert_eq!(decode_varint(&[0xff; 11]), Err(DecodeError::VarintOverflow));
    assert_eq!(decode_varint(&[0xff; 9]), Err(DecodeError::UnexpectedEof));
}

#[test]
fn varint_is_not_compact_size() {
    let bytes = [0xfd, 0x00, 0x01];
    assert_eq!(decode_compact_size(&bytes), Ok((256, 3)));
    assert_eq!(decode_varint(&bytes), Ok((16128, 2)));
}

#[test]
fn compact_size_forms() {
    assert_eq!(decode_compact_size(&[0x00]), Ok((0, 1)));
    assert_eq!(decode_compact_size(&[0xfc, 0xaa]), Ok((252, 1)));
    assert_eq!(decode_compact_size(&[0xfd, 0xfd, 0x00]), Ok((253, 3)));
    assert_eq!(decode_compact_size(&[0xfd, 0xff, 0xff]), Ok((0xffff, 3)));
    assert_eq!(decode_compact_size(&[0xfe, 0x00, 0x00, 0x01, 0x00]), Ok((0x1_0000, 5)));
    assert_eq!(decode_compact_size(&[0xfe, 0x04, 0x03, 0x02, 0x01, 0x09]), Ok((0x0102_0304, 5)));
    assert_eq!(
        decode_compact_size(&[0xff, 0x00, 0x00, 0x00, 0x00, 0x01, 0x00, 0x00, 0x00]),
        Ok((0x1_0000_0000, 9))
    );
    assert_eq!(decode_compact_size(&[0xff; 9]), Ok((u64::MAX, 9)));
}

#[test]
fn compact_size_non_minimal() {
    assert_eq!(decode_compact_size(&[0xfd, 0xfc, 0x00]), Err(DecodeError::NonMinimalCompactSize));
    assert_eq!(
        decode_compact_size(&[0xfe, 0xff, 0xff, 0x00, 0x00]),
        Err(DecodeError::NonMinimalCompactSize)
    );
    assert_eq!(
        decode_compact_size(&[0xff, 0xff, 0xff, 0xff, 0xff, 0x00, 0x00, 0x00, 0x00]),
        Err(DecodeError::NonMinimalCompactSize)
    );
}

#[test]
fn compact_size_truncated() {
    assert_eq!(decode_compact_size(&[]), Err(DecodeError::UnexpectedEof));
    assert_eq!(decode_compact_size(&[0xfd, 0x01]), Err(DecodeError::UnexpectedEof));
    assert_eq!(decode_compact_size(&[0xfe, 0x01, 0x02, 0x03]), Err(DecodeError::UnexpectedEof));
    assert_eq!(decode_compact_size(&[0xff; 8]), Err(DecodeError::UnexpectedEof));
}

#[test]
fn txid_is_read_as_stored() {
    let bytes: Vec<u8> = (0u8..40).collect();
    let (id, taken) = decode_txid(&bytes).unwrap();
    assert_eq!(taken, 32);
    assert_eq!(id.to_vec(), bytes[..32].to_vec());
    assert_eq!(decode_txid(&bytes[..31]), Err(DecodeError::UnexpectedEof));
}

#[test]
fn little_endian_reads() {
    let bytes = [0xaa, 0x01, 0x02, 0x03, 0x04, 0x05, 0x06, 0x07, 0x08, 0xbb];
    assert_eq!(read_le(&bytes, 1, 2), 0x0201);
    assert_eq!(read_le(&bytes, 1, 8), 0x0807_0605_0403_0201);
    assert_eq!(read_le(&bytes, 9, 1), 0xbb);
    assert_eq!(read_le(&bytes, 3, 0), 0);
    assert_eq!(read_le(&[0xff; 8], 0, 8), u64::MAX);
    let four: [u8; 4] = read_array(&bytes, 2);
    assert_eq!(four, [0x02, 0x03, 0x04, 0x05]);
}

#[test]
fn amount_zero() {
    assert_eq!(decompress_amount(0), 0);
    assert_eq!(compress_amount(0), Some(0));
}

#[test]
fn amount_known_values() {
    let cases: Vec<(u64, u64)> = vec![
        (1, 0x1),
        (1_000_000, 0x7),
        (100_000_000, 0x9),
        (5_000_000_000, 0x32),
        (2_100_000_000_000_000, 0x1406f40),
        (12_345_678, 111_111_101),
        (18_446_744_073_000_000_000, 184_467_440_730),
    ];
    for (amount, compact) in cases {
        assert_eq!(compress_amount(amount), Some(compact));
        assert_eq!(decompress_amount(compact), amount);
        assert_eq!(try_decompress_amount(compact), Some(amount));
    }
}

#[test]
fn amount_formula() {
    // x - 1 = 10 * q + e with e < 9: (10 * (q / 9) + q % 9 + 1) * 10^e.
    assert_eq!(decompress_amount(1999), 22_200_000_000);
    assert_eq!(decompress_amount(9), 100_000_000);
    assert_eq!(decompress_amount(19), 200_000_000);
    // e == 9: (q + 1) * 10^9.
    assert_eq!(decompress_amount(10), 1_000_000_000);
    assert_eq!(decompress_amount(20), 2_000_000_000);
}

#[test]
fn amount_round_trip() {
    let mut n: u64 = 1;
    for step in 0..20_000u64 {
        let amount = n % 2_100_000_000_000_001;
        let compact = compress_amount(amount).unwrap();
        assert_eq!(decompress_amount(compact), amount);
        n = n.wrapping_mul(6364136223846793005).wrapping_add(1442695040888963407 + step);
    }
    let mut power: u64 = 1;
    for _ in 0..19 {
        for digit in 1..10u64 {
            let amount = digit * power;
            let compact = compress_amount(amount).unwrap();
            assert_eq!(decompress_amount(compact), amount);
        }
        power *= 10;
    }
}

#[test]
fn amount_beyond_64_bits() {
    assert_eq!(try_decompress_amount(u64::MAX), None);
    assert_eq!(compress_amount(u64::MAX), None);
    // The largest amount whose compact form still fits.
    let compact = compress_amount(18_446_744_073_000_000_000).unwrap();
    assert_eq!(try_decompress_amount(compact), Some(18_446_744_073_000_000_000));
}
