use utxo_snapshot::amount::compress_amount;
use utxo_snapshot::batch::{Batch, BATCH_ROWS};
use utxo_snapshot::convert::{convert, Converter};
use utxo_snapshot::error::DecodeError;
use utxo_snapshot::snapshot::{decode_snapshot, Row, HEADER_LEN};
use utxo_snapshot::varint::encode_varint;

fn row(n: u64, script: &[u8]) -> Row {
    Row {
        txid: format!("{:064x}", n),
        vout: n,
        height: 1000 + n,
        coinbase: n % 2 == 0,
        amount: 10 * n,
        script: script.to_vec(),
    }
}

fn rows_of(batch: &Batch) -> Vec<Row> {
    (0..batch.len()).map(|i| batch.row(i)).collect()
}

fn scripts() -> Vec<Vec<u8>> {
    vec![
        vec![3, 1],
        vec![1],
        vec![2, 0],
        vec![],
        vec![1, 0],
        vec![0xff],
        vec![1, 0, 0],
        vec![0x7f, 0xff],
        vec![0x80],
        vec![2],
    ]
}

fn filled() -> Batch {
    let mut batch = Batch::new();
    for (n, script) in scripts().iter().enumerate() {
        batch.push(row(n as u64, script));
    }
    batch
}

#[test]
fn batch_keeps_rows_by_column() {
    let batch = filled();
    assert_eq!(batch.len(), 10);
    assert_eq!(batch.row(4), row(4, &[1, 0]));
    assert_eq!(batch.vouts().clone(), (0..10u64).collect::<Vec<u64>>());
    assert_eq!(batch.heights()[9], 1009);
    assert_eq!(batch.amounts()[3], 30);
    assert_eq!(batch.coinbases()[..3].to_vec(), vec![true, false, true]);
    assert_eq!(batch.scripts().clone(), scripts());
    assert_eq!(batch.txids()[2], format!("{:064x}", 2));
}

#[test]
fn batch_clear_leaves_nothing() {
    let mut batch = filled();
    batch.clear();
    assert_eq!(batch.len(), 0);
    assert!(batch.txids().is_empty());
    assert!(batch.scripts().is_empty());
    batch.push(row(1, &[9]));
    assert_eq!(rows_of(&batch), vec![row(1, &[9])]);
}

#[test]
fn batch_sorts_by_script_bytes() {
    let batch = filled();
    let sorted = batch.sorted().unwrap();
    let expected: Vec<Vec<u8>> = vec![
        vec![],
        vec![1],
        vec![1, 0],
        vec![1, 0, 0],
        vec![2],
        vec![2, 0],
        vec![3, 1],
        vec![0x7f, 0xff],
        vec![0x80],
        vec![0xff],
    ];
    assert_eq!(sorted.scripts().clone(), expected);
    // Every row travels whole.
    assert_eq!(sorted.vouts().clone(), vec![3, 1, 4, 6, 9, 2, 0, 7, 8, 5]);
    for found in rows_of(&sorted) {
        assert_eq!(found, row(found.vout, &scripts()[found.vout as usize]));
    }
    // The batch itself is left as it was.
    assert_eq!(batch.scripts().clone(), scripts());
}

#[test]
fn batch_sort_keeps_equal_scripts() {
    let mut batch = Batch::new();
    for n in 0..50u64 {
        batch.push(row(n, &[(n % 3) as u8, 7]));
    }
    let sorted = batch.sorted().unwrap();
    assert_eq!(sorted.len(), 50);
    let found = rows_of(&sorted);
    for pair in found.windows(2) {
        assert!(pair[0].script <= pair[1].script);
    }
    let mut seen: Vec<u64> = found.iter().map(|r| r.vout).collect();
    seen.sort();
    assert_eq!(seen, (0..50u64).collect::<Vec<u64>>());
}

#[test]
fn batch_sort_of_nothing() {
    let sorted = Batch::new().sorted().unwrap();
    assert_eq!(sorted.len(), 0);
    assert!(Batch::new().fits());
}

#[test]
fn batch_take_by_position() {
    let batch = filled();
    let taken = batch.take(&vec![9, 0, 0, 4]).unwrap();
    assert_eq!(
        rows_of(&taken),
        vec![row(9, &[2]), row(0, &[3, 1]), row(0, &[3, 1]), row(4, &[1, 0])]
    );
    assert_eq!(batch.take(&vec![]).unwrap().len(), 0);
    assert!(batch.take(&vec![1, 10]).is_none());
    assert!(batch.take(&vec![u32::MAX]).is_none());
}

fn stored(script: &[u8]) -> Vec<u8> {
    let mut bytes = encode_varint(script.len() as u64 + 6);
    bytes.extend(script);
    bytes
}

fn snapshot(group_sizes: &[u8], declared: u64) -> Vec<u8> {
    let mut bytes = b"utxo\xff".to_vec();
    bytes.extend(2u16.to_le_bytes());
    bytes.extend([0xfa, 0xbf, 0xb5, 0xda]);
    bytes.extend([0u8; 32]);
    bytes.extend(declared.to_le_bytes());
    let mut n: u64 = 0;
    for (group, size) in group_sizes.iter().enumerate() {
        bytes.extend([group as u8 + 1; 32]);
        bytes.push(*size);
        for vout in 0..*size {
            bytes.push(vout);
            bytes.extend(encode_varint(2 * (500 + n)));
            bytes.extend(encode_varint(compress_amount(1000 * n).unwrap()));
            // Scripts that fall as the rows go on.
            bytes.extend(stored(&[200 - (n as u8) * 7, n as u8]));
            n += 1;
        }
    }
    bytes
}

#[test]
fn convert_cuts_and_sorts_row_groups() {
    let bytes = snapshot(&[3, 1, 3], 7);
    let (_, rows, _) = decode_snapshot(&bytes).unwrap();
    assert_eq!(rows.len(), 7);
    let (header, groups) = convert(&bytes, 3).unwrap();
    assert_eq!(header.coin_count, 7);
    let sizes: Vec<usize> = groups.iter().map(|g| g.len()).collect();
    assert_eq!(sizes, vec![3, 3, 1]);
    assert_eq!(sizes.iter().sum::<usize>() as u64, header.coin_count);
    for (k, group) in groups.iter().enumerate() {
        let found = rows_of(group);
        // Sorted within the group: the falling scripts come out reversed.
        let mut expected: Vec<Row> = rows[3 * k..(3 * k + 3).min(7)].to_vec();
        expected.reverse();
        assert_eq!(found, expected);
        for pair in found.windows(2) {
            assert!(pair[0].script <= pair[1].script);
        }
    }
    // Sorted piece by piece only: the first group ends above where the second starts.
    assert!(groups[0].scripts()[2] > groups[1].scripts()[0]);
}

#[test]
fn convert_group_sizes() {
    let bytes = snapshot(&[2, 2, 2], 6);
    let sizes = |threshold: usize| -> Vec<usize> {
        convert(&bytes, threshold).unwrap().1.iter().map(|g| g.len()).collect()
    };
    assert_eq!(sizes(1), vec![1, 1, 1, 1, 1, 1]);
    assert_eq!(sizes(2), vec![2, 2, 2]);
    assert_eq!(sizes(4), vec![4, 2]);
    assert_eq!(sizes(5), vec![5, 1]);
    assert_eq!(sizes(6), vec![6]);
    assert_eq!(sizes(7), vec![6]);
    assert_eq!(sizes(BATCH_ROWS as usize), vec![6]);
}

#[test]
fn convert_drops_and_repeats_nothing() {
    let bytes = snapshot(&[5, 4, 1, 7], 17);
    let (_, mut rows, _) = decode_snapshot(&bytes).unwrap();
    for threshold in 1..20usize {
        let (_, groups) = convert(&bytes, threshold).unwrap();
        let mut found: Vec<Row> = groups.iter().flat_map(|g| rows_of(g)).collect();
        assert_eq!(found.len(), 17);
        found.sort_by_key(|r| r.height);
        rows.sort_by_key(|r| r.height);
        assert_eq!(found, rows);
    }
}

#[test]
fn convert_of_no_coins() {
    let bytes = snapshot(&[], 0);
    let (header, groups) = convert(&bytes, 3).unwrap();
    assert_eq!(header.coin_count, 0);
    assert!(groups.is_empty());
}

#[test]
fn convert_failures() {
    assert_eq!(convert(&snapshot(&[2, 0], 3), 2).err(), Some(DecodeError::EmptyGroup));
    assert_eq!(convert(&snapshot(&[3], 2), 2).err(), Some(DecodeError::CountMismatch));
    assert_eq!(convert(&snapshot(&[3], 4), 2).err(), Some(DecodeError::UnexpectedEof));
    assert_eq!(convert(b"utxo", 2).err(), Some(DecodeError::UnexpectedEof));
    assert_eq!(convert(b"otxu\xff", 2).err(), Some(DecodeError::BadMagic));
}

#[test]
fn converter_steps_and_flushes() {
    let bytes = snapshot(&[3, 2], 5);
    let body = &bytes[HEADER_LEN..];
    let mut converter = Converter::with_threshold(5, 2);
    let mut at = 0;
    let mut flushed = Vec::new();
    while !converter.is_done() {
        let (taken, group) = converter.step(&body[at..]).unwrap();
        at += taken;
        flushed.push(group.map(|g| g.len()));
    }
    assert_eq!(flushed, vec![None, Some(2), None, Some(2), Some(1)]);
    assert_eq!(converter.rows_done(), 5);
    assert_eq!(at, body.len());
    assert_eq!(converter.finish(), Ok(()));
}

#[test]
fn converter_retries_after_short_input() {
    let bytes = snapshot(&[2], 2);
    let body = &bytes[HEADER_LEN..];
    let mut converter = Converter::new(2);
    assert_eq!(converter.step(&body[..35]).err(), Some(DecodeError::UnexpectedEof));
    assert_eq!(converter.rows_done(), 0);
    let (taken, group) = converter.step(body).unwrap();
    assert!(group.is_none());
    assert_eq!(converter.finish(), Err(DecodeError::CountMismatch));
    let (_, group) = converter.step(&body[taken..]).unwrap();
    assert_eq!(group.unwrap().len(), 2);
    assert_eq!(converter.finish(), Ok(()));
}

#[test]
fn converter_finish_with_an_open_group() {
    let bytes = snapshot(&[3], 2);
    let body = &bytes[HEADER_LEN..];
    let mut converter = Converter::with_threshold(2, 10);
    let (taken, _) = converter.step(body).unwrap();
    let (_, group) = converter.step(&body[taken..]).unwrap();
    assert_eq!(group.unwrap().len(), 2);
    assert!(converter.is_done());
    assert_eq!(converter.finish(), Err(DecodeError::CountMismatch));
}

#[test]
fn batch_too_large_to_sort() {
    // The pages of the scripts are never touched: only their lengths are read.
    let mut batch = Batch::new();
    batch.push(row(0, &[1]));
    assert!(batch.fits());
    for n in 1..3u64 {
        let mut big = row(n, &[]);
        big.script = vec![0u8; 1 << 30];
        batch.push(big);
    }
    assert!(!batch.fits());
    assert_eq!(batch.sorted().err(), Some(DecodeError::BatchTooLarge));
}

#[test]
fn error_descriptions_differ() {
    let all = [
        DecodeError::UnexpectedEof,
        DecodeError::VarintOverflow,
        DecodeError::AmountOverflow,
        DecodeError::NonMinimalCompactSize,
        DecodeError::BadPayloadLength,
        DecodeError::PushDataTooLong,
        DecodeError::InvalidPublicKey,
        DecodeError::EmptyGroup,
        DecodeError::CountMismatch,
        DecodeError::BadMagic,
        DecodeError::UnknownNetwork,
        DecodeError::BatchTooLarge,
    ];
    for (i, a) in all.iter().enumerate() {
        assert!(!a.describe().is_empty());
        for b in &all[i + 1..] {
            assert_ne!(a.describe(), b.describe());
        }
    }
}
