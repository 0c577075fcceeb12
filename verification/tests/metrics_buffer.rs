use kukai::metrics::{AttemptRecord, MetricBuffer};

fn record(worker: usize, attempt: usize) -> AttemptRecord {
    AttemptRecord {
        timestamp_micros: (worker * 1_000_000 + attempt) as i64,
        target: format!("worker{worker}:{attempt}"),
        success: attempt % 3 != 0,
        latency_us: attempt as u64,
    }
}

#[test]
fn drain_returns_everything_and_empties() {
    let mut buffer = MetricBuffer::new();
    assert_eq!(buffer.len(), 0);
    let r1 = record(0, 1);
    let r2 = record(0, 2);
    buffer.append(r1.clone());
    buffer.append(r2.clone());
    assert_eq!(buffer.len(), 2);
    let batch = buffer.drain();
    assert_eq!(batch, vec![r1, r2]);
    assert_eq!(buffer.len(), 0);
    assert_eq!(buffer.drain(), Vec::<AttemptRecord>::new());
}

#[test]
fn interleaved_appends_lose_and_duplicate_nothing() {
    // Simulate many interleavings of two workers' appends; whatever the
    // order, one drain returns exactly the appended records.
    for phase in 0..8u64 {
        let mut buffer = MetricBuffer::new();
        let n_per_worker = 50usize;
        let mut pending: Vec<Vec<AttemptRecord>> = vec![
            (0..n_per_worker).rev().map(|a| record(0, a)).collect(),
            (0..n_per_worker).rev().map(|a| record(1, a)).collect(),
        ];
        let mut state = phase * 0x9e3779b97f4a7c15 + 1;
        while pending.iter().any(|q| !q.is_empty()) {
            state = state
                .wrapping_mul(6364136223846793005)
                .wrapping_add(1442695040888963407);
            let pick = ((state >> 33) % 2) as usize;
            let source = if pending[pick].is_empty() { 1 - pick } else { pick };
            let rec = pending[source].pop().unwrap();
            buffer.append(rec);
        }
        let batch = buffer.drain();
        assert_eq!(batch.len(), 2 * n_per_worker);
        // Exactly one copy of every appended record.
        for worker in 0..2usize {
            for attempt in 0..n_per_worker {
                let expected = record(worker, attempt);
                assert_eq!(
                    batch.iter().filter(|r| **r == expected).count(),
                    1,
                    "record {worker}/{attempt} not exactly once"
                );
            }
        }
        // Within one worker, records stay in append order.
        for worker in 0..2usize {
            let times: Vec<i64> = batch
                .iter()
                .filter(|r| r.target.starts_with(&format!("worker{worker}:")))
                .map(|r| r.timestamp_micros)
                .collect();
            let mut sorted = times.clone();
            sorted.sort();
            assert_eq!(times, sorted);
        }
    }
}

#[test]
fn appends_after_drain_land_in_next_batch() {
    let mut buffer = MetricBuffer::new();
    buffer.append(record(0, 0));
    let first = buffer.drain();
    buffer.append(record(0, 1));
    let second = buffer.drain();
    assert_eq!(first.len(), 1);
    assert_eq!(second.len(), 1);
    assert_eq!(second[0], record(0, 1));
}
