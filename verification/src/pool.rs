//! Worker-pool orchestration decisions: when a worker keeps attempting,
//! and how the run is wound down — every worker joined first, then one
//! final drain-and-flush, then the periodic flush task stopped.
//!
//! The application runs the loops (attempts, sleeps, joins); each
//! decision it takes is a call into this module.

use vstd::prelude::*;

verus! {

/// Fixed inter-attempt pacing delay, milliseconds: keeps a worker from
/// busy-spinning even when admission is granted instantly.
pub const INTER_ATTEMPT_DELAY_MILLIS: u64 = 10;

/// Fixed period of the background flush task, seconds.
pub const FLUSH_INTERVAL_SECONDS: u64 = 2;

/// A worker loop's termination test: attempts start only strictly before
/// the deadline; the loop exits purely on the deadline, with no external
/// cancellation.
pub fn should_attempt(now_micros: u64, deadline_micros: u64) -> (r: bool)
    ensures
        r == (now_micros < deadline_micros),
{
    now_micros < deadline_micros
}

/// The wall-clock deadline of a run that starts at `start_micros` and
/// lasts `duration_seconds`.
pub fn run_deadline_micros(start_micros: u64, duration_seconds: u64) -> (deadline: u64)
    requires
        start_micros + duration_seconds * 1_000_000 <= u64::MAX,
    ensures
        deadline == start_micros + duration_seconds * 1_000_000,
{
    start_micros + duration_seconds * 1_000_000
}

/// How a worker's transport connection stands between attempts.
#[derive(Clone, Copy, Debug, PartialEq, Eq, Structural)]
pub enum ConnectionState {
    /// Fresh-connection mode: a new connection is opened per attempt.
    Fresh,
    /// Persistent-connection mode, connection healthy.
    ReusedHealthy,
    /// Persistent-connection mode, connection broken: it is never
    /// reopened, so the worker records failures for the rest of its
    /// lifetime — an explicit simplicity trade-off, not a defect.
    ReusedBroken,
}

/// The connection state a worker starts in, from the configured mode.
pub fn initial_connection_state(reuse_connection: bool) -> (state: ConnectionState)
    ensures
        state == (if reuse_connection {
            ConnectionState::ReusedHealthy
        } else {
            ConnectionState::Fresh
        }),
{
    if reuse_connection {
        ConnectionState::ReusedHealthy
    } else {
        ConnectionState::Fresh
    }
}

/// The connection policy after one attempt: fresh mode always opens
/// anew; in persistent mode a failed attempt breaks the connection for
/// good, and a broken connection never recovers — the worker does not
/// reconnect.
pub fn next_connection_state(state: ConnectionState, success: bool) -> (next: ConnectionState)
    ensures
        state == ConnectionState::Fresh ==> next == ConnectionState::Fresh,
        (state == ConnectionState::ReusedHealthy && success) ==> next
            == ConnectionState::ReusedHealthy,
        (state == ConnectionState::ReusedHealthy && !success) ==> next
            == ConnectionState::ReusedBroken,
        state == ConnectionState::ReusedBroken ==> next == ConnectionState::ReusedBroken,
{
    match state {
        ConnectionState::Fresh => ConnectionState::Fresh,
        ConnectionState::ReusedHealthy => if success {
            ConnectionState::ReusedHealthy
        } else {
            ConnectionState::ReusedBroken
        },
        ConnectionState::ReusedBroken => ConnectionState::ReusedBroken,
    }
}

/// Tracks the shutdown protocol of one run: how many workers are still
/// running, and whether the final flush has been performed. The final
/// flush can happen only after every worker has finished, and only once.
pub struct RunCoordinator {
    workers_active: usize,
    final_flush_done: bool,
}

impl RunCoordinator {
    /// Workers spawned and not yet joined.
    pub closed spec fn workers_active(self) -> usize {
        self.workers_active
    }

    /// Whether the final drain-and-flush has been performed.
    pub closed spec fn final_flush_done(self) -> bool {
        self.final_flush_done
    }

    /// The final flush is sequenced strictly after every worker joins.
    pub closed spec fn wf(self) -> bool {
        self.final_flush_done ==> self.workers_active == 0
    }

    /// Starts a run with `concurrency` workers and no flush performed.
    pub fn new(concurrency: usize) -> (coordinator: Self)
        ensures
            coordinator.wf(),
            coordinator.workers_active() == concurrency,
            !coordinator.final_flush_done(),
    {
        RunCoordinator { workers_active: concurrency, final_flush_done: false }
    }

    /// Joins one worker. While any worker is active the final flush
    /// cannot have happened yet.
    pub fn worker_finished(&mut self)
        requires
            old(self).wf(),
            old(self).workers_active() > 0,
        ensures
            final(self).wf(),
            final(self).workers_active() == old(self).workers_active() - 1,
            !final(self).final_flush_done(),
    {
        self.workers_active = self.workers_active - 1;
    }

    /// True exactly when the final flush is owed: all workers joined and
    /// the flush not yet performed.
    pub fn ready_for_final_flush(&self) -> (r: bool)
        ensures
            r == (self.workers_active() == 0 && !self.final_flush_done()),
    {
        self.workers_active == 0 && !self.final_flush_done
    }

    /// Records the final drain-and-flush. Its preconditions make the
    /// call possible exactly once per run, and only after every worker
    /// has joined.
    pub fn record_final_flush(&mut self)
        requires
            old(self).wf(),
            old(self).workers_active() == 0,
            !old(self).final_flush_done(),
        ensures
            final(self).wf(),
            final(self).workers_active() == 0,
            final(self).final_flush_done(),
    {
        self.final_flush_done = true;
    }
}

} // verus!
