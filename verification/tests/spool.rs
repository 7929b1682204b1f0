//! Spooled rows, file names, and the order of their sequences.

use qtp_core::market_data::Market;
use qtp_core::production::{
    Aggressor, ProductionError, SseKind, SseRow, SzExecutionKind, SzExecutionRow, SzOrderKind,
    SzOrderRow, SzSide,
};
use qtp_core::production::input::validate_sequence;
use qtp_core::production::sequence::{reordered, NaturalRuns};
use qtp_core::production::spool::{
    channel_of_file, decode_sse, decode_sz_execution, decode_sz_order, encode_sse,
    encode_sz_execution, encode_sz_order, is_spool_header, row_sequence, spool_channels,
    spool_file_name, spool_header, SpoolKind,
};
use qtp_core::production::spool_file::{
    read_sse, read_sse_file, read_sz_execution_file, read_sz_order_file, row_sequences, SpoolFault,
};

fn sse_row() -> SseRow {
    SseRow {
        source_row: 1,
        sequence: 2,
        channel: 3,
        symbol: "600000".to_owned(),
        quote_time_ns: 4,
        local_time_ns: 5,
        kind: SseKind::Add,
        buy_order_no: 6,
        sell_order_no: 0,
        price_units: 70_000,
        quantity: 8,
        flag: Aggressor::Buy,
        status: 0,
    }
}

#[test]
fn round_trips_spool_row() {
    let row = sse_row();
    assert_eq!(spool_file_name(row.channel, SpoolKind::Sse), "channel-3.sse.bin");
    let mut bytes = spool_header(SpoolKind::Sse);
    bytes.extend(encode_sse(&row).expect("encoded"));
    assert!(is_spool_header(&bytes[..5].to_vec(), SpoolKind::Sse));
    let rows: Vec<SseRow> = bytes[5..]
        .chunks_exact(SpoolKind::Sse.row_bytes())
        .map(|chunk| decode_sse(chunk).expect("decoded"))
        .collect();
    assert_eq!(rows, vec![row]);
}

fn check(sequences: &[u64], row_bytes: u64) -> Result<(Vec<u64>, usize), ProductionError> {
    let mut bytes = b"QTP1\x02".to_vec();
    let mut runs = NaturalRuns::default();
    for (i, &sequence) in sequences.iter().enumerate() {
        runs.observe(2015, sequence)?;
        let mut row = vec![0xA5; row_bytes as usize];
        row[..8].copy_from_slice(&(i as u64 + 1).to_le_bytes());
        row[8..16].copy_from_slice(&sequence.to_le_bytes());
        bytes.extend(row);
    }
    let read: Vec<u64> =
        bytes[5..].chunks_exact(row_bytes as usize).map(row_sequence).collect();
    let repaired = runs.repair(2015, "orders", &read)?;
    let passes = repaired.as_ref().map_or(0, |(_, r)| r.merge_passes);
    let result = match &repaired {
        Some((order, _)) => reordered(&bytes, 5, row_bytes as usize, order),
        None => bytes.clone(),
    };
    assert_eq!(result.len(), bytes.len());
    let mut native = Vec::new();
    for row in result[5..].chunks_exact(row_bytes as usize) {
        let source = u64::from_le_bytes(row[..8].try_into().expect("source"));
        let original_offset = 5 + (source as usize - 1) * row_bytes as usize;
        assert_eq!(row, &bytes[original_offset..original_offset + row_bytes as usize]);
        native.push(u64::from_le_bytes(row[8..16].try_into().expect("sequence")));
    }
    Ok((native, passes))
}

#[test]
fn normal_empty_singleton_and_sparse_streams_do_not_rewrite() {
    for seq in [vec![], vec![7], vec![1, 50, 900]] {
        assert_eq!(check(&seq, 60).expect("normal"), (seq, 0));
    }
}

#[test]
fn merges_long_inversion_and_preserves_every_byte() {
    for size in [60, 75] {
        assert_eq!(
            check(&[1, 3, 1000, 2, 4, 1001], size).expect("repair"),
            (vec![1, 2, 3, 4, 1000, 1001], 1)
        );
    }
}

#[test]
fn bounded_fan_in_supports_multiple_passes() {
    let seq: Vec<u64> = (1..=1100).rev().collect();
    let (result, passes) = check(&seq, 60).expect("repair");
    assert_eq!(result, (1..=1100).collect::<Vec<_>>());
    assert_eq!(passes, 3);
}

#[test]
fn duplicate_within_or_across_runs_is_never_deduplicated() {
    for seq in [vec![1, 1], vec![1, 3, 2, 3], (1..=40).rev().chain([40]).collect()] {
        assert!(matches!(check(&seq, 60), Err(ProductionError::AmbiguousSequence { .. })));
    }
}

#[test]
fn scattered_runs_equal_the_sorted_stream() {
    let mut state = 17_u64;
    for length in [2_usize, 31, 32, 33, 170] {
        let mut seq: Vec<u64> = (0..length as u64).map(|i| 10 * i + 3).collect();
        for i in (1..length).rev() {
            state = state.wrapping_mul(6_364_136_223_846_793_005).wrapping_add(1_442_695_040_888_963_407);
            seq.swap(i, (state >> 33) as usize % (i + 1));
        }
        let mut sorted = seq.clone();
        sorted.sort_unstable();
        assert_eq!(check(&seq, 75).expect("repair").0, sorted);
    }
}

#[test]
fn shenzhen_rows_are_read_back() {
    let order = SzOrderRow {
        source_row: 9,
        sequence: u64::MAX,
        channel: 2011,
        symbol: "000001".to_owned(),
        quote_time_ns: -4,
        local_time_ns: i64::MIN,
        price_units: 12_345,
        quantity: 300,
        side: SzSide::Sell,
        kind: SzOrderKind::SameSideBest,
    };
    let bytes = encode_sz_order(&order).expect("encoded");
    assert_eq!(bytes.len(), SpoolKind::SzOrder.row_bytes());
    assert_eq!(row_sequence(&bytes), u64::MAX);
    assert_eq!(decode_sz_order(&bytes), Ok(order));
    let execution = SzExecutionRow {
        source_row: 1,
        sequence: 2,
        channel: 3,
        symbol: "159915".to_owned(),
        quote_time_ns: 4,
        local_time_ns: 5,
        bid_order_no: 6,
        ask_order_no: 7,
        price_units: 8,
        quantity: 9,
        kind: SzExecutionKind::Cancel,
    };
    let bytes = encode_sz_execution(&execution).expect("encoded");
    assert_eq!(bytes.len(), SpoolKind::SzExecution.row_bytes());
    assert_eq!(decode_sz_execution(&bytes), Ok(execution));
}

#[test]
fn damaged_rows_and_headers_are_refused() {
    let row = sse_row();
    let mut bytes = encode_sse(&row).expect("encoded");
    let last = bytes.len();
    for at in 0..last {
        let mut spoiled = bytes.clone();
        spoiled[at] = 0xFF;
        if let Ok(other) = decode_sse(&spoiled) {
            assert_ne!(other, row, "byte {at}");
        }
    }
    bytes[42] = 0xFF;
    assert!(decode_sse(&bytes).is_err());
    let mut long = sse_row();
    long.symbol = "600000.SH".to_owned();
    assert!(encode_sse(&long).is_err());
    assert!(!is_spool_header(&spool_header(SpoolKind::Sse), SpoolKind::SzOrder));
    assert!(!is_spool_header(&b"QTP2\x01".to_vec(), SpoolKind::Sse));
}

#[test]
fn file_names_tell_their_channel() {
    assert_eq!(spool_file_name(2015, SpoolKind::SzOrder), "channel-2015.orders.bin");
    for kind in [SpoolKind::Sse, SpoolKind::SzOrder, SpoolKind::SzExecution] {
        assert_eq!(channel_of_file(&spool_file_name(42, kind)), Some(42));
    }
    for name in ["channel-.sse.bin", "channel-x.sse.bin", "other", "channel-99999999999.sse.bin"] {
        assert_eq!(channel_of_file(name), None, "{name}");
    }
    let names: Vec<String> = ["channel-7.orders.bin", "notes.txt", "channel-3.orders.bin", "channel-7.executions.bin"]
        .iter()
        .map(|name| (*name).to_owned())
        .collect();
    assert_eq!(spool_channels(&names), vec![3, 7]);
}

#[test]
fn sequences_of_a_channel_rise() {
    let mut sequences = std::collections::HashMap::new();
    assert!(validate_sequence(&mut sequences, Market::Sse, 1, 5, "BizIndex").is_ok());
    assert!(validate_sequence(&mut sequences, Market::Sse, 2, 5, "BizIndex").is_ok());
    assert_eq!(
        validate_sequence(&mut sequences, Market::Sse, 1, 5, "BizIndex"),
        Err(ProductionError::NonIncreasingSequence {
            market: Market::Sse,
            channel: 1,
            sequence_name: "BizIndex",
            previous: 5,
            current: 5,
        })
    );
}

fn sse_file(count: u64) -> (Vec<SseRow>, Vec<u8>) {
    let rows: Vec<SseRow> =
        (1..=count).map(|sequence| SseRow { sequence, ..sse_row() }).collect();
    let mut bytes = spool_header(SpoolKind::Sse);
    for row in &rows {
        bytes.extend(encode_sse(row).expect("encoded"));
    }
    (rows, bytes)
}

#[test]
fn files_are_read_back_row_by_row() {
    let (rows, bytes) = sse_file(3);
    assert_eq!(read_sse_file(&bytes), Ok(rows.clone()));
    assert_eq!(row_sequences(&bytes, SpoolKind::Sse), Ok(vec![1, 2, 3]));
    let mut at = 5;
    for row in rows {
        assert_eq!(read_sse(&bytes, &mut at), Ok(Some(row)));
    }
    assert_eq!(at, bytes.len());
    assert_eq!(read_sse(&bytes, &mut at), Ok(None));
    assert_eq!(read_sse_file(&spool_header(SpoolKind::Sse)), Ok(vec![]));
    assert_eq!(read_sz_order_file(&spool_header(SpoolKind::SzOrder)), Ok(vec![]));
    assert_eq!(read_sz_execution_file(&spool_header(SpoolKind::SzExecution)), Ok(vec![]));
}

#[test]
fn cut_files_and_other_headers_are_refused() {
    let (_, bytes) = sse_file(2);
    let size = SpoolKind::Sse.row_bytes();
    for length in 0..bytes.len() {
        let cut = bytes[..length].to_vec();
        if length >= 5 && (length - 5) % size == 0 {
            assert_eq!(read_sse_file(&cut).map(|rows| rows.len()), Ok((length - 5) / size));
        } else {
            assert_eq!(read_sse_file(&cut), Err(SpoolFault::Cut));
            assert_eq!(row_sequences(&cut, SpoolKind::Sse), Err(SpoolFault::Cut));
        }
    }
    assert_eq!(read_sz_order_file(&bytes), Err(SpoolFault::Header));
    assert_eq!(read_sz_execution_file(&bytes), Err(SpoolFault::Header));
    assert_eq!(row_sequences(&bytes, SpoolKind::SzOrder), Err(SpoolFault::Header));
    let mut spoiled = bytes.clone();
    spoiled[5 + 42] = 0xFF;
    assert!(matches!(read_sse_file(&spoiled), Err(SpoolFault::Row(_))));
}

fn named_repeat(sequences: &[u64]) -> Option<ProductionError> {
    let mut runs = NaturalRuns::default();
    for sequence in sequences {
        runs.observe(2015, *sequence).expect("no neighbours repeat");
    }
    runs.repair(2015, "orders", &sequences.to_vec()).err()
}

#[test]
fn the_least_repeat_of_the_first_group_is_named() {
    let ambiguous = |sequence| Some(ProductionError::AmbiguousSequence { channel: 2015, sequence });
    assert_eq!(named_repeat(&[3, 7, 2, 7, 1, 3]), ambiguous(3));
    let middle: Vec<u64> = (2..32).flat_map(|i| [200 + i, 6_000 + i]).collect();
    let mut first = vec![100, 5_000, 100, 5_001];
    first.extend(&middle);
    first.extend([1, 9_000, 1, 9_001]);
    assert_eq!(named_repeat(&first), ambiguous(100));
    let mut later = vec![1, 5_000, 199, 5_001];
    later.extend(&middle);
    later.extend([1, 9_000]);
    assert_eq!(named_repeat(&later), ambiguous(1));
}
