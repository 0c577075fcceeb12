use kukai::columnar::{decode_all, durable_batch_fits, encode_block};
use kukai::metrics::AttemptRecord;
use kukai::sink::{flush_payload, SinkKind};

fn sample_batch_one() -> Vec<AttemptRecord> {
    vec![
        AttemptRecord {
            timestamp_micros: 100,
            target: "host:1".to_string(),
            success: true,
            latency_us: 50,
        },
        AttemptRecord {
            timestamp_micros: -7,
            target: "unreachable:9".to_string(),
            success: false,
            latency_us: 1_234_567,
        },
        AttemptRecord {
            timestamp_micros: i64::MAX,
            target: String::new(),
            success: true,
            latency_us: u64::MAX,
        },
    ]
}

fn sample_batch_two() -> Vec<AttemptRecord> {
    vec![AttemptRecord {
        timestamp_micros: i64::MIN,
        target: "über-host:443".to_string(),
        success: false,
        latency_us: 0,
    }]
}

#[test]
fn three_records_round_trip_field_for_field() {
    let batch = sample_batch_one();
    let file_bytes = encode_block(&batch);
    let decoded = decode_all(&file_bytes).expect("a fresh file must decode");
    assert_eq!(decoded, batch);
}

#[test]
fn second_appended_batch_is_additive() {
    // Appending writes a second self-contained block; reading the grown
    // file yields the old rows followed by the new ones.
    let first = sample_batch_one();
    let second = sample_batch_two();
    let mut file_bytes = encode_block(&first);
    let after_first = decode_all(&file_bytes).expect("first block must decode");
    assert_eq!(after_first, first);
    file_bytes.extend_from_slice(&encode_block(&Vec::new()));
    file_bytes.extend_from_slice(&encode_block(&second));
    let after_second = decode_all(&file_bytes).expect("grown file must decode");
    let mut expected = first.clone();
    expected.extend(second.clone());
    assert_eq!(after_second, expected);
}

#[test]
fn empty_file_and_empty_batch_decode() {
    assert_eq!(decode_all(&Vec::new()), Some(Vec::new()));
    let empty_block = encode_block(&Vec::new());
    assert_eq!(decode_all(&empty_block), Some(Vec::new()));
}

#[test]
fn durable_flush_payload_is_one_block() {
    let batch = sample_batch_two();
    let payload = flush_payload(SinkKind::Durable, &batch).expect("non-empty batch");
    assert_eq!(payload, encode_block(&batch));
}

#[test]
fn ordinary_batches_fit_one_block() {
    assert!(durable_batch_fits(&Vec::new()));
    assert!(durable_batch_fits(&sample_batch_one()));
    assert!(durable_batch_fits(&sample_batch_two()));
}

#[test]
fn malformed_bytes_are_rejected() {
    // Too short for a block header.
    assert_eq!(decode_all(&vec![1u8, 2, 3]), None);
    // A block header promising more payload than the file holds.
    assert_eq!(decode_all(&vec![255u8, 0, 0, 0, 9, 9]), None);
    // A success byte that is neither 0 nor 1: for one record, the byte
    // sits right after the payload length, count and timestamp fields.
    let mut bytes = encode_block(&sample_batch_two());
    assert_eq!(bytes[16], 0);
    bytes[16] = 7;
    assert_eq!(decode_all(&bytes), None);
    // Trailing garbage after a well-formed block.
    let mut grown = encode_block(&sample_batch_two());
    grown.push(0);
    assert_eq!(decode_all(&grown), None);
}
