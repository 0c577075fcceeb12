use kukai::config::Target;
use kukai::pool::{initial_connection_state, next_connection_state, ConnectionState};
use kukai::metrics::{AttemptRecord, MetricBuffer};
use kukai::pool::{run_deadline_micros, should_attempt, RunCoordinator, INTER_ATTEMPT_DELAY_MILLIS};
use kukai::rate_gate::TokenBucket;
use kukai::selector::select_target;
use kukai::sink::{flush_payload, SinkKind};

#[test]
fn broken_reused_connection_never_reconnects() {
    // Fresh mode is unaffected by outcomes.
    let mut state = initial_connection_state(false);
    assert_eq!(state, ConnectionState::Fresh);
    state = next_connection_state(state, false);
    assert_eq!(state, ConnectionState::Fresh);
    // Persistent mode: one failure breaks the connection for good.
    let mut state = initial_connection_state(true);
    assert_eq!(state, ConnectionState::ReusedHealthy);
    state = next_connection_state(state, true);
    assert_eq!(state, ConnectionState::ReusedHealthy);
    state = next_connection_state(state, false);
    assert_eq!(state, ConnectionState::ReusedBroken);
    state = next_connection_state(state, true);
    assert_eq!(state, ConnectionState::ReusedBroken);
}

#[test]
fn end_to_end_run_respects_rate_law_and_flushes_once() {
    // Scenario: concurrency 2, 10 requests per second, one second of
    // wall time, a single target of weight 1, driven by a virtual clock.
    let concurrency = 2usize;
    let targets = vec![Target {
        address: "only".to_string(),
        port: Some(80),
        weight: Some(1),
    }];
    let mut gate = TokenBucket::new(10, 10, 0);
    let mut buffer = MetricBuffer::new();
    let mut coordinator = RunCoordinator::new(concurrency);
    let deadline = run_deadline_micros(0, 1);
    assert_eq!(deadline, 1_000_000);

    // Both workers pace themselves through the shared gate on one
    // monotonic clock; their attempts interleave tick by tick.
    let mut now: u64 = 0;
    while should_attempt(now, deadline) {
        for worker in 0..concurrency {
            if gate.try_consume(now, 1) {
                let idx = select_target(&targets, 0);
                assert_eq!(idx, 0);
                buffer.append(AttemptRecord {
                    timestamp_micros: now as i64,
                    target: format!("{}:{}", targets[idx].address, 80),
                    success: worker == 0,
                    latency_us: 250,
                });
            }
        }
        now += INTER_ATTEMPT_DELAY_MILLIS * 1000;
    }
    for _ in 0..concurrency {
        coordinator.worker_finished();
    }

    // The burst-bounded rate law: no more than rps * window + capacity
    // records over the run.
    let produced = buffer.len();
    assert!(produced > 0);
    assert!(produced <= 20, "{produced} records exceed the rate law bound");

    // The final flush happens exactly once, after both workers joined.
    assert!(coordinator.ready_for_final_flush());
    let final_batch = buffer.drain();
    assert_eq!(final_batch.len(), produced);
    let payload = flush_payload(SinkKind::Remote, &final_batch);
    assert!(payload.is_some());
    coordinator.record_final_flush();
    assert!(!coordinator.ready_for_final_flush());
    // Nothing was left behind in the buffer.
    assert_eq!(buffer.len(), 0);
}
