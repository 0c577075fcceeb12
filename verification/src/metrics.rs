//! Attempt records and the shared metric buffer.
//!
//! Workers append one record per attempt; a flush task periodically
//! drains the buffer and hands the batch to a sink. The buffer's
//! contracts make the drain atomic at the value level: a drain returns
//! exactly the records buffered so far and leaves the buffer empty, so
//! no record is lost and none is duplicated. The application serialises
//! concurrent access with a short-lived lock around these calls, holding
//! no lock during I/O.

use vstd::prelude::*;

verus! {

/// One measured traffic attempt, immutable once created.
#[derive(Clone, Debug, PartialEq)]
pub struct AttemptRecord {
    /// Capture time, microseconds since the epoch.
    pub timestamp_micros: i64,
    /// Resolved destination identifier, such as `host:port`. Must not
    /// contain commas, so that the line-oriented wire format needs no
    /// escaping.
    pub target: String,
    /// Whether the attempt completed without a transport error.
    pub success: bool,
    /// Elapsed wall time of the attempt, microseconds.
    pub latency_us: u64,
}

/// The mathematical image of an [`AttemptRecord`]: the same fields with
/// the target as a sequence of characters.
pub struct RecordView {
    pub timestamp_micros: i64,
    pub target: Seq<char>,
    pub success: bool,
    pub latency_us: u64,
}

impl View for AttemptRecord {
    type V = RecordView;

    open spec fn view(&self) -> RecordView {
        RecordView {
            timestamp_micros: self.timestamp_micros,
            target: self.target@,
            success: self.success,
            latency_us: self.latency_us,
        }
    }
}

/// The images of a sequence of records.
pub open spec fn views_of_records(rs: Seq<AttemptRecord>) -> Seq<RecordView> {
    rs.map_values(|r: AttemptRecord| r@)
}

/// Shared append-only accumulator of attempt records, drained by the
/// periodic flush task and once more at shutdown.
pub struct MetricBuffer {
    records: Vec<AttemptRecord>,
}

impl MetricBuffer {
    /// The records buffered so far, in append order.
    pub closed spec fn records(self) -> Seq<AttemptRecord> {
        self.records@
    }

    /// Creates an empty buffer.
    pub fn new() -> (buffer: Self)
        ensures
            buffer.records() == Seq::<AttemptRecord>::empty(),
    {
        MetricBuffer { records: Vec::new() }
    }

    /// Number of records currently buffered.
    pub fn len(&self) -> (n: usize)
        ensures
            n == self.records().len(),
    {
        self.records.len()
    }

    /// Appends one record: the buffer afterwards holds exactly the old
    /// contents plus this record, so no attempt is silently dropped.
    pub fn append(&mut self, record: AttemptRecord)
        ensures
            final(self).records() == old(self).records().push(record),
    {
        self.records.push(record);
    }

    /// Atomically empties the buffer and returns the prior contents:
    /// every buffered record is in the returned batch exactly once, in
    /// append order, and the buffer is empty afterwards.
    pub fn drain(&mut self) -> (batch: Vec<AttemptRecord>)
        ensures
            batch@ == old(self).records(),
            final(self).records() == Seq::<AttemptRecord>::empty(),
    {
        let mut taken: Vec<AttemptRecord> = Vec::new();
        core::mem::swap(&mut self.records, &mut taken);
        taken
    }
}

/// `s` is one interleaving of the two append sequences `a` and `b`:
/// each element of `s` is the next pending element of one of the two,
/// and both are exhausted at the end.
pub open spec fn interleaving_of(
    s: Seq<AttemptRecord>,
    a: Seq<AttemptRecord>,
    b: Seq<AttemptRecord>,
) -> bool
    decreases s.len(),
{
    if s.len() == 0 {
        a.len() == 0 && b.len() == 0
    } else {
        ||| (a.len() > 0 && a[0] == s[0] && interleaving_of(s.drop_first(), a.drop_first(), b))
        ||| (b.len() > 0 && b[0] == s[0] && interleaving_of(s.drop_first(), a, b.drop_first()))
    }
}

/// Popping the first element removes exactly one instance of it from
/// the sequence's multiset.
proof fn lemma_pop_first_multiset(s: Seq<AttemptRecord>)
    requires
        s.len() > 0,
    ensures
        s.to_multiset() == s.drop_first().to_multiset().insert(s[0]),
{
    broadcast use vstd::seq_lib::group_to_multiset_ensures;
    broadcast use vstd::multiset::group_multiset_axioms;

    assert(s.drop_first() =~= s.remove(0));
    assert(s.contains(s[0]));
    assert(s.remove(0).to_multiset() =~= s.to_multiset().remove(s[0]));
    assert forall|y: AttemptRecord|
        s.to_multiset().count(y) == #[trigger] s.drop_first().to_multiset().insert(s[0]).count(
            y,
        ) by {
        if y == s[0] {
            assert(s.to_multiset().count(y) > 0);
        }
    }
    assert(s.to_multiset() =~= s.drop_first().to_multiset().insert(s[0]));
}

/// Law: however two workers' appends interleave, the buffer ends up
/// with exactly the records both appended — as many as were appended,
/// and the same multiset: none lost, none duplicated, whatever the
/// schedule. A drain then returns exactly that content.
pub proof fn lemma_interleaving_appends_exact(
    s: Seq<AttemptRecord>,
    a: Seq<AttemptRecord>,
    b: Seq<AttemptRecord>,
)
    requires
        interleaving_of(s, a, b),
    ensures
        s.len() == a.len() + b.len(),
        s.to_multiset() == a.to_multiset().add(b.to_multiset()),
    decreases s.len(),
{
    broadcast use vstd::seq_lib::group_to_multiset_ensures;
    broadcast use vstd::multiset::group_multiset_axioms;

    if s.len() == 0 {
        assert forall|y: AttemptRecord|
            #[trigger] s.to_multiset().count(y) == a.to_multiset().add(b.to_multiset()).count(
                y,
            ) by {
            assert(!s.contains(y));
            assert(!a.contains(y));
            assert(!b.contains(y));
        }
        assert(s.to_multiset() =~= a.to_multiset().add(b.to_multiset()));
    } else {
        let x = s[0];
        lemma_pop_first_multiset(s);
        if a.len() > 0 && a[0] == s[0] && interleaving_of(s.drop_first(), a.drop_first(), b) {
            lemma_interleaving_appends_exact(s.drop_first(), a.drop_first(), b);
            lemma_pop_first_multiset(a);
            assert forall|y: AttemptRecord|
                #[trigger] s.to_multiset().count(y) == a.to_multiset().add(
                    b.to_multiset(),
                ).count(y) by {
                assert(s.to_multiset().count(y) == s.drop_first().to_multiset().insert(x).count(
                    y,
                ));
                assert(a.to_multiset().count(y) == a.drop_first().to_multiset().insert(x).count(
                    y,
                ));
            }
            assert(s.to_multiset() =~= a.to_multiset().add(b.to_multiset()));
        } else {
            lemma_interleaving_appends_exact(s.drop_first(), a, b.drop_first());
            lemma_pop_first_multiset(b);
            assert forall|y: AttemptRecord|
                #[trigger] s.to_multiset().count(y) == a.to_multiset().add(
                    b.to_multiset(),
                ).count(y) by {
                assert(s.to_multiset().count(y) == s.drop_first().to_multiset().insert(x).count(
                    y,
                ));
                assert(b.to_multiset().count(y) == b.drop_first().to_multiset().insert(x).count(
                    y,
                ));
            }
            assert(s.to_multiset() =~= a.to_multiset().add(b.to_multiset()));
        }
    }
}

/// Law: appends commute at the multiset level. Buffering a record adds
/// exactly that record to the multiset of buffered records, so however
/// concurrent workers' appends interleave, the buffer — and hence the
/// batch a drain returns — holds exactly the appended records: none
/// lost, none duplicated.
pub proof fn lemma_append_adds_exactly_one(buffered: Seq<AttemptRecord>, record: AttemptRecord)
    ensures
        buffered.push(record).to_multiset() == buffered.to_multiset().insert(record),
        buffered.push(record).len() == buffered.len() + 1,
{
    buffered.to_multiset_ensures();
    assert(buffered.push(record).to_multiset() =~= buffered.to_multiset().insert(record));
}

} // verus!
