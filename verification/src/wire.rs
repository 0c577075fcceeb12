//! The line-oriented metric wire format: the payload body of each chunk
//! the remote streaming sink sends.
//!
//! UTF-8 text, one record per line, fields separated by commas in the
//! fixed order `timestamp_micros,target,success,latency_us`, each line
//! newline-terminated, no header row and no escaping — target strings
//! must not contain commas.

use vstd::prelude::*;
use vstd::utf8::encode_utf8;
use crate::metrics::AttemptRecord;

verus! {

/// Decimal digits of `n`, most significant first, as ASCII bytes.
pub open spec fn dec_rep(n: nat) -> Seq<u8>
    decreases n,
{
    if n < 10 {
        seq![(48 + n) as u8]
    } else {
        dec_rep(n / 10) + seq![(48 + n % 10) as u8]
    }
}

/// Signed decimal: a leading minus sign for negative values.
pub open spec fn int_rep(v: int) -> Seq<u8> {
    if v < 0 {
        seq![45u8] + dec_rep((-v) as nat)
    } else {
        dec_rep(v as nat)
    }
}

/// The words `true` and `false`, as ASCII bytes.
pub open spec fn bool_rep(b: bool) -> Seq<u8> {
    if b {
        seq![116u8, 114u8, 117u8, 101u8]
    } else {
        seq![102u8, 97u8, 108u8, 115u8, 101u8]
    }
}

/// One record's wire line: the four fields comma-separated, newline-
/// terminated.
pub open spec fn record_line(r: AttemptRecord) -> Seq<u8> {
    int_rep(r.timestamp_micros as int) + seq![44u8] + encode_utf8(r.target@) + seq![44u8]
        + bool_rep(r.success) + seq![44u8] + dec_rep(r.latency_us as nat) + seq![10u8]
}

/// A whole batch: the records' lines in order.
pub open spec fn batch_lines(rs: Seq<AttemptRecord>) -> Seq<u8>
    decreases rs.len(),
{
    if rs.len() == 0 {
        Seq::empty()
    } else {
        record_line(rs[0]) + batch_lines(rs.drop_first())
    }
}

/// Taking one more record extends the batch by exactly its line.
pub proof fn lemma_batch_lines_take_step(rs: Seq<AttemptRecord>, i: int)
    requires
        0 <= i < rs.len(),
    ensures
        batch_lines(rs.take(i + 1)) == batch_lines(rs.take(i)) + record_line(rs[i]),
    decreases i,
{
    if i == 0 {
        assert(rs.take(1).drop_first() =~= Seq::<AttemptRecord>::empty());
        assert(rs.take(1)[0] == rs[0]);
        assert(batch_lines(rs.take(1)) == record_line(rs.take(1)[0]) + batch_lines(
            rs.take(1).drop_first(),
        ));
        assert(batch_lines(rs.take(1)) =~= record_line(rs[0]));
        assert(batch_lines(rs.take(0)) + record_line(rs[0]) =~= record_line(rs[0]));
    } else {
        let tail = rs.drop_first();
        lemma_batch_lines_take_step(tail, i - 1);
        assert(rs.take(i + 1).drop_first() =~= tail.take(i));
        assert(rs.take(i).drop_first() =~= tail.take(i - 1));
        assert(rs.take(i + 1)[0] == rs[0]);
        assert(rs.take(i)[0] == rs[0]);
        assert(tail[i - 1] == rs[i]);
        assert(batch_lines(rs.take(i + 1)) == record_line(rs[0]) + batch_lines(tail.take(i)));
        assert(batch_lines(rs.take(i)) == record_line(rs[0]) + batch_lines(tail.take(i - 1)));
        assert(record_line(rs[0]) + (batch_lines(tail.take(i - 1)) + record_line(rs[i]))
            =~= (record_line(rs[0]) + batch_lines(tail.take(i - 1))) + record_line(rs[i]));
    }
}

/// Appends the decimal digits of `n`.
fn push_dec(out: &mut Vec<u8>, n: u64)
    ensures
        final(out)@ == old(out)@ + dec_rep(n as nat),
    decreases n,
{
    if n < 10 {
        out.push(48 + (n as u8));
        assert(final(out)@ =~= old(out)@ + dec_rep(n as nat));
    } else {
        push_dec(out, n / 10);
        out.push(48 + ((n % 10) as u8));
        assert(final(out)@ =~= old(out)@ + dec_rep(n as nat));
    }
}

/// Appends the signed decimal digits of `v`.
fn push_dec_signed(out: &mut Vec<u8>, v: i64)
    ensures
        final(out)@ == old(out)@ + int_rep(v as int),
{
    if v >= 0 {
        push_dec(out, v as u64);
    } else {
        out.push(45);
        let magnitude_wide: i128 = -(v as i128);
        let magnitude: u64 = magnitude_wide as u64;
        assert(magnitude == -(v as int));
        push_dec(out, magnitude);
        assert(final(out)@ =~= old(out)@ + int_rep(v as int));
    }
}

/// Encodes one record as its wire line.
pub fn encode_record(record: &AttemptRecord) -> (out: Vec<u8>)
    ensures
        out@ == record_line(*record),
{
    let mut out: Vec<u8> = Vec::new();
    push_dec_signed(&mut out, record.timestamp_micros);
    out.push(44);
    let target_bytes: &[u8] = record.target.as_str().as_bytes();
    out.extend_from_slice(target_bytes);
    out.push(44);
    if record.success {
        out.push(116);
        out.push(114);
        out.push(117);
        out.push(101);
    } else {
        out.push(102);
        out.push(97);
        out.push(108);
        out.push(115);
        out.push(101);
    }
    out.push(44);
    push_dec(&mut out, record.latency_us);
    out.push(10);
    assert(out@ =~= record_line(*record));
    out
}

/// Encodes a batch as newline-delimited lines, one per record, in order.
/// An empty batch encodes to no bytes.
pub fn encode_batch(records: &Vec<AttemptRecord>) -> (out: Vec<u8>)
    ensures
        out@ == batch_lines(records@),
{
    let ghost rs = records@;
    let mut out: Vec<u8> = Vec::new();
    let mut i: usize = 0;
    while i < records.len()
        invariant
            rs == records@,
            0 <= i <= rs.len(),
            out@ == batch_lines(rs.take(i as int)),
        decreases records.len() - i,
    {
        let mut line = encode_record(&records[i]);
        proof {
            lemma_batch_lines_take_step(rs, i as int);
        }
        out.append(&mut line);
        i = i + 1;
    }
    assert(rs.take(rs.len() as int) =~= rs);
    out
}

} // verus!
