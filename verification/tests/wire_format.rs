use kukai::metrics::AttemptRecord;
use kukai::sink::{flush_payload, SinkKind};
use kukai::wire::{encode_batch, encode_record};

#[test]
fn record_line_exact_bytes() {
    let record = AttemptRecord {
        timestamp_micros: 100,
        target: "host:1".to_string(),
        success: true,
        latency_us: 50,
    };
    assert_eq!(encode_record(&record), b"100,host:1,true,50\n".to_vec());
}

#[test]
fn record_line_failure_and_negative_timestamp() {
    let record = AttemptRecord {
        timestamp_micros: -5,
        target: "t".to_string(),
        success: false,
        latency_us: 0,
    };
    assert_eq!(encode_record(&record), b"-5,t,false,0\n".to_vec());
}

#[test]
fn batch_is_newline_delimited_lines_in_order() {
    let records = vec![
        AttemptRecord {
            timestamp_micros: 1,
            target: "a:1".to_string(),
            success: true,
            latency_us: 10,
        },
        AttemptRecord {
            timestamp_micros: 2,
            target: "b:2".to_string(),
            success: false,
            latency_us: 20,
        },
    ];
    assert_eq!(encode_batch(&records), b"1,a:1,true,10\n2,b:2,false,20\n".to_vec());
}

#[test]
fn empty_batch_encodes_to_nothing() {
    assert_eq!(encode_batch(&Vec::new()), Vec::<u8>::new());
}

#[test]
fn remote_flush_payload_is_the_wire_batch() {
    let records = vec![AttemptRecord {
        timestamp_micros: 100,
        target: "host:1".to_string(),
        success: true,
        latency_us: 50,
    }];
    let payload = flush_payload(SinkKind::Remote, &records);
    assert_eq!(payload, Some(b"100,host:1,true,50\n".to_vec()));
}

#[test]
fn empty_flush_is_a_no_op_for_both_sinks() {
    assert_eq!(flush_payload(SinkKind::Remote, &Vec::new()), None);
    assert_eq!(flush_payload(SinkKind::Durable, &Vec::new()), None);
}
