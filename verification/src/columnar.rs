//! The durable columnar batch format: the self-describing container the
//! standalone durable sink appends to its local file.
//!
//! Each flush appends one self-contained block. A block is a four-byte
//! little-endian payload length followed by the payload: the record
//! count, then four columns in fixed order — timestamps (eight bytes per
//! record, little endian), successes (one byte per record, `1` or `0`),
//! latencies (eight bytes per record), and targets (per record a
//! four-byte length then that many UTF-8 bytes). The file is only ever
//! appended to, so the bytes of a file are a sequence of blocks, and
//! decoding yields every appended batch's records in order.

use vstd::prelude::*;
use vstd::bytes::{
    lemma_auto_spec_u32_to_from_le_bytes,
    lemma_auto_spec_u64_to_from_le_bytes,
    spec_u32_from_le_bytes,
    spec_u32_to_le_bytes,
    spec_u64_from_le_bytes,
    spec_u64_to_le_bytes,
    u32_from_le_bytes,
    u32_to_le_bytes,
    u64_from_le_bytes,
    u64_to_le_bytes,
};
use vstd::utf8::{
    decode_utf8,
    encode_utf8,
    encode_utf8_decode_utf8,
    encode_utf8_valid_utf8,
    valid_utf8,
};
use vstd::slice::{slice_subrange, slice_to_vec};
use crate::metrics::{AttemptRecord, RecordView, views_of_records};

verus! {

/// The unsigned bit pattern a timestamp is stored as: two's complement.
pub open spec fn i64_to_bits(x: i64) -> u64 {
    if x >= 0 {
        x as u64
    } else {
        (x + 0x1_0000_0000_0000_0000) as u64
    }
}

/// The timestamp a stored bit pattern denotes: two's complement.
pub open spec fn bits_to_i64(b: u64) -> i64 {
    if b < 0x8000_0000_0000_0000 {
        b as i64
    } else {
        (b - 0x1_0000_0000_0000_0000) as i64
    }
}

/// Storing a timestamp and reading it back is the identity.
pub proof fn lemma_i64_bits_round_trip(x: i64)
    ensures
        bits_to_i64(i64_to_bits(x)) == x,
{
}

/// The stored cell of one record in the timestamp column.
pub open spec fn timestamp_cell(r: RecordView) -> Seq<u8> {
    spec_u64_to_le_bytes(i64_to_bits(r.timestamp_micros))
}

/// The stored cell of one record in the success column.
pub open spec fn success_cell(r: RecordView) -> Seq<u8> {
    if r.success {
        seq![1u8]
    } else {
        seq![0u8]
    }
}

/// The stored cell of one record in the latency column.
pub open spec fn latency_cell(r: RecordView) -> Seq<u8> {
    spec_u64_to_le_bytes(r.latency_us)
}

/// The stored cell of one record in the target column: a four-byte
/// length, then the target's UTF-8 bytes.
pub open spec fn target_cell(r: RecordView) -> Seq<u8> {
    spec_u32_to_le_bytes(encode_utf8(r.target).len() as u32) + encode_utf8(r.target)
}

/// The timestamp column's cell function, as a value.
pub open spec fn timestamp_cells() -> spec_fn(RecordView) -> Seq<u8> {
    |r: RecordView| timestamp_cell(r)
}

/// The success column's cell function, as a value.
pub open spec fn success_cells() -> spec_fn(RecordView) -> Seq<u8> {
    |r: RecordView| success_cell(r)
}

/// The latency column's cell function, as a value.
pub open spec fn latency_cells() -> spec_fn(RecordView) -> Seq<u8> {
    |r: RecordView| latency_cell(r)
}

/// The target column's cell function, as a value.
pub open spec fn target_cells() -> spec_fn(RecordView) -> Seq<u8> {
    |r: RecordView| target_cell(r)
}

/// One column: the records' cells, concatenated in record order.
pub open spec fn column(rs: Seq<RecordView>, cell: spec_fn(RecordView) -> Seq<u8>) -> Seq<u8>
    decreases rs.len(),
{
    if rs.len() == 0 {
        Seq::empty()
    } else {
        cell(rs[0]) + column(rs.drop_first(), cell)
    }
}

/// A block's payload: the record count, then the four columns.
pub open spec fn block_payload(rs: Seq<RecordView>) -> Seq<u8> {
    spec_u32_to_le_bytes(rs.len() as u32) + column(rs, timestamp_cells()) + column(
        rs,
        success_cells(),
    ) + column(rs, latency_cells()) + column(rs, target_cells())
}

/// One encoded block: the payload length, then the payload.
pub open spec fn enc_block(rs: Seq<RecordView>) -> Seq<u8> {
    spec_u32_to_le_bytes(block_payload(rs).len() as u32) + block_payload(rs)
}

/// A whole file: the appended blocks, in append order.
pub open spec fn enc_stream(batches: Seq<Seq<RecordView>>) -> Seq<u8>
    decreases batches.len(),
{
    if batches.len() == 0 {
        Seq::empty()
    } else {
        enc_block(batches[0]) + enc_stream(batches.drop_first())
    }
}

/// A record fits the format: its target's UTF-8 length fits the
/// four-byte length field.
pub open spec fn record_encodable(r: RecordView) -> bool {
    encode_utf8(r.target).len() <= u32::MAX
}

/// A batch fits the format: the count and the payload length fit their
/// four-byte fields, and every record fits.
pub open spec fn block_encodable(rs: Seq<RecordView>) -> bool {
    &&& rs.len() <= u32::MAX
    &&& block_payload(rs).len() <= u32::MAX
    &&& forall|i: int| 0 <= i < rs.len() ==> record_encodable(#[trigger] rs[i])
}

/// Parses `n` target cells from the front of `bytes`: the targets'
/// character sequences and the bytes consumed, or nothing if the bytes
/// do not hold `n` well-formed cells.
pub open spec fn dec_targets(bytes: Seq<u8>, n: nat) -> Option<(Seq<Seq<char>>, int)>
    decreases n,
{
    if n == 0 {
        Some((Seq::empty(), 0int))
    } else if bytes.len() < 4 {
        None
    } else {
        let len = spec_u32_from_le_bytes(bytes.subrange(0, 4)) as int;
        if bytes.len() < 4 + len {
            None
        } else {
            let raw = bytes.subrange(4, 4 + len);
            if !valid_utf8(raw) {
                None
            } else {
                match dec_targets(bytes.skip(4 + len), (n - 1) as nat) {
                    Option::None => None,
                    Option::Some(parsed) => Some(
                        (seq![decode_utf8(raw)] + parsed.0, 4 + len + parsed.1),
                    ),
                }
            }
        }
    }
}

/// Decodes one block payload, or nothing if it is malformed: a short
/// count field, columns past the end, a success byte other than `0` or
/// `1`, ill-formed target cells, or bytes left over after the last
/// target.
pub open spec fn dec_block_payload(p: Seq<u8>) -> Option<Seq<RecordView>> {
    if p.len() < 4 {
        None
    } else {
        let n = spec_u32_from_le_bytes(p.subrange(0, 4)) as int;
        if p.len() < 4 + 17 * n {
            None
        } else {
            let ts_col = p.subrange(4, 4 + 8 * n);
            let su_col = p.subrange(4 + 8 * n, 4 + 9 * n);
            let la_col = p.subrange(4 + 9 * n, 4 + 17 * n);
            let tg_region = p.subrange(4 + 17 * n, p.len() as int);
            if exists|i: int| 0 <= i < n && !(su_col[i] == 0 || su_col[i] == 1) {
                None
            } else {
                match dec_targets(tg_region, n as nat) {
                    Option::None => None,
                    Option::Some(parsed) => {
                        if parsed.1 != tg_region.len() {
                            None
                        } else {
                            Some(
                                Seq::new(
                                    n as nat,
                                    |i: int|
                                        RecordView {
                                            timestamp_micros: bits_to_i64(
                                                spec_u64_from_le_bytes(
                                                    ts_col.subrange(8 * i, 8 * i + 8),
                                                ),
                                            ),
                                            target: parsed.0[i],
                                            success: su_col[i] == 1,
                                            latency_us: spec_u64_from_le_bytes(
                                                la_col.subrange(8 * i, 8 * i + 8),
                                            ),
                                        },
                                ),
                            )
                        }
                    },
                }
            }
        }
    }
}

/// Decodes a whole file back into the records of every appended block,
/// in order, or nothing if the bytes are not a sequence of well-formed
/// blocks.
pub open spec fn dec_stream(bytes: Seq<u8>) -> Option<Seq<RecordView>>
    decreases bytes.len(),
{
    if bytes.len() == 0 {
        Some(Seq::empty())
    } else if bytes.len() < 4 {
        None
    } else {
        let plen = spec_u32_from_le_bytes(bytes.subrange(0, 4)) as int;
        if bytes.len() < 4 + plen {
            None
        } else {
            match dec_block_payload(bytes.subrange(4, 4 + plen)) {
                Option::None => None,
                Option::Some(recs) => {
                    match dec_stream(bytes.skip(4 + plen)) {
                        Option::None => None,
                        Option::Some(rest) => Some(recs + rest),
                    }
                },
            }
        }
    }
}

/// Law: a flush appends, never rewrites. The file of one more batch is
/// the old file's bytes followed by the new block — old rows persist
/// untouched.
pub proof fn lemma_stream_grows_by_append(batches: Seq<Seq<RecordView>>, batch: Seq<RecordView>)
    ensures
        enc_stream(batches.push(batch)) == enc_stream(batches) + enc_block(batch),
    decreases batches.len(),
{
    if batches.len() == 0 {
        assert(batches.push(batch).drop_first() =~= Seq::<Seq<RecordView>>::empty());
        assert(batches.push(batch)[0] == batch);
        assert(enc_stream(batches.push(batch)) == enc_block(batch) + enc_stream(
            batches.push(batch).drop_first(),
        ));
        assert(enc_stream(batches.push(batch)) =~= enc_block(batch));
        assert(enc_stream(batches) + enc_block(batch) =~= enc_block(batch));
    } else {
        let tail = batches.drop_first();
        lemma_stream_grows_by_append(tail, batch);
        assert(batches.push(batch).drop_first() =~= tail.push(batch));
        assert(batches.push(batch)[0] == batches[0]);
        assert(enc_stream(batches.push(batch)) == enc_block(batches[0]) + enc_stream(
            tail.push(batch),
        ));
        assert(enc_block(batches[0]) + (enc_stream(tail) + enc_block(batch)) =~= (enc_block(
            batches[0],
        ) + enc_stream(tail)) + enc_block(batch));
    }
}

/// The targets of a batch, in record order.
pub open spec fn targets_of(rs: Seq<RecordView>) -> Seq<Seq<char>> {
    rs.map_values(|r: RecordView| r.target)
}

/// A column of fixed-width cells is as long as width times count.
proof fn lemma_column_len_fixed(rs: Seq<RecordView>, cell: spec_fn(RecordView) -> Seq<u8>, w: int)
    requires
        0 <= w,
        forall|r: RecordView| (#[trigger] cell(r)).len() == w,
    ensures
        column(rs, cell).len() == w * rs.len(),
    decreases rs.len(),
{
    if rs.len() == 0 {
    } else {
        lemma_column_len_fixed(rs.drop_first(), cell, w);
        assert(w + w * (rs.len() - 1) == w * rs.len()) by (nonlinear_arith);
    }
}

/// In a column of fixed-width cells, record `i`'s cell sits at offset
/// width times `i`.
proof fn lemma_column_extract_fixed(
    rs: Seq<RecordView>,
    cell: spec_fn(RecordView) -> Seq<u8>,
    w: int,
    i: int,
)
    requires
        0 <= w,
        forall|r: RecordView| (#[trigger] cell(r)).len() == w,
        0 <= i < rs.len(),
    ensures
        column(rs, cell).len() == w * rs.len(),
        column(rs, cell).subrange(w * i, w * i + w) == cell(rs[i]),
    decreases i,
{
    lemma_column_len_fixed(rs, cell, w);
    let col = column(rs, cell);
    if i == 0 {
        assert(col.subrange(0, w) =~= cell(rs[0]));
        assert(w * 0 == 0);
        assert(w * 0 + w == w);
        assert(col.subrange(w * i, w * i + w) == cell(rs[i]));
    } else {
        let tail = rs.drop_first();
        lemma_column_extract_fixed(tail, cell, w, i - 1);
        lemma_column_len_fixed(tail, cell, w);
        assert(w * i == w * (i - 1) + w) by (nonlinear_arith);
        assert(w * 1 <= w * i) by (nonlinear_arith)
            requires 0 <= w && 1 <= i;
        assert(w * i + w <= w * rs.len()) by (nonlinear_arith)
            requires 0 <= w && i + 1 <= rs.len();
        assert(tail[i - 1] == rs[i]);
        assert(col.subrange(w * i, w * i + w) =~= column(tail, cell).subrange(
            w * (i - 1),
            w * (i - 1) + w,
        ));
        assert(column(tail, cell).subrange(w * (i - 1), w * (i - 1) + w) == cell(tail[i - 1]));
        assert(col.subrange(w * i, w * i + w) == cell(rs[i]));
    }
}

/// Parsing the target column of an encodable batch yields exactly the
/// batch's targets and consumes the whole column.
proof fn lemma_dec_targets_of_column(rs: Seq<RecordView>)
    requires
        forall|i: int| 0 <= i < rs.len() ==> record_encodable(#[trigger] rs[i]),
    ensures
        dec_targets(column(rs, target_cells()), rs.len() as nat) == Some(
            (targets_of(rs), column(rs, target_cells()).len() as int),
        ),
    decreases rs.len(),
{
    lemma_auto_spec_u32_to_from_le_bytes();
    let col = column(rs, target_cells());
    if rs.len() == 0 {
        assert(targets_of(rs) =~= Seq::<Seq<char>>::empty());
        assert(col =~= Seq::<u8>::empty());
        assert(targets_of(rs) == Seq::<Seq<char>>::empty());
    } else {
        let r0 = rs[0];
        let e0 = encode_utf8(r0.target);
        let tail = rs.drop_first();
        let tailcol = column(tail, target_cells());
        assert(target_cells()(r0) == target_cell(r0));
        assert(col == target_cell(r0) + tailcol);
        assert(record_encodable(r0));
        assert(spec_u32_to_le_bytes(e0.len() as u32).len() == 4);
        assert(col.len() == 4 + e0.len() + tailcol.len());
        assert(col.subrange(0, 4) =~= spec_u32_to_le_bytes(e0.len() as u32));
        let len = spec_u32_from_le_bytes(col.subrange(0, 4)) as int;
        assert(len == e0.len());
        assert(col.subrange(4, 4 + len) =~= e0);
        encode_utf8_valid_utf8(r0.target);
        encode_utf8_decode_utf8(r0.target);
        assert(col.skip(4 + len) =~= tailcol);
        assert(forall|i: int| 0 <= i < tail.len() ==> record_encodable(#[trigger] tail[i]));
        lemma_dec_targets_of_column(tail);
        assert(seq![decode_utf8(e0)] + targets_of(tail) =~= targets_of(rs));
        assert(4 + len + tailcol.len() as int == col.len() as int);
    }
}

/// Decoding the payload of an encodable batch yields exactly that batch.
proof fn lemma_dec_block_of_enc(rs: Seq<RecordView>)
    requires
        block_encodable(rs),
    ensures
        dec_block_payload(block_payload(rs)) == Some(rs),
{
    lemma_auto_spec_u32_to_from_le_bytes();
    lemma_auto_spec_u64_to_from_le_bytes();
    let p = block_payload(rs);
    let n = rs.len() as int;
    let cnt = spec_u32_to_le_bytes(rs.len() as u32);
    let ts = column(rs, timestamp_cells());
    let su = column(rs, success_cells());
    let la = column(rs, latency_cells());
    let tg = column(rs, target_cells());
    assert(forall|r: RecordView| (#[trigger] timestamp_cells()(r)).len() == 8);
    assert(forall|r: RecordView| (#[trigger] success_cells()(r)).len() == 1);
    assert(forall|r: RecordView| (#[trigger] latency_cells()(r)).len() == 8);
    lemma_column_len_fixed(rs, timestamp_cells(), 8);
    lemma_column_len_fixed(rs, success_cells(), 1);
    lemma_column_len_fixed(rs, latency_cells(), 8);
    assert(p == cnt + ts + su + la + tg);
    assert(p.len() == 4 + 8 * n + n + 8 * n + tg.len());
    assert(p.subrange(0, 4) =~= cnt);
    assert(spec_u32_from_le_bytes(p.subrange(0, 4)) as int == n);
    assert(p.len() >= 4 + 17 * n);
    assert(p.subrange(4, 4 + 8 * n) =~= ts);
    assert(p.subrange(4 + 8 * n, 4 + 9 * n) =~= su);
    assert(p.subrange(4 + 9 * n, 4 + 17 * n) =~= la);
    assert(p.subrange(4 + 17 * n, p.len() as int) =~= tg);
    assert forall|i: int| 0 <= i < n implies su[i] == 0 || su[i] == 1 by {
        lemma_column_extract_fixed(rs, success_cells(), 1, i);
        assert(su.subrange(1 * i, 1 * i + 1) == success_cells()(rs[i]));
        assert(su[i] == su.subrange(i, i + 1)[0]);
    }
    lemma_dec_targets_of_column(rs);
    assert(dec_targets(tg, n as nat) == Some((targets_of(rs), tg.len() as int)));
    match dec_block_payload(p) {
        Option::Some(decoded) => {
            assert forall|i: int| 0 <= i < n implies decoded[i] == rs[i] by {
                lemma_column_extract_fixed(rs, timestamp_cells(), 8, i);
                lemma_column_extract_fixed(rs, latency_cells(), 8, i);
                lemma_column_extract_fixed(rs, success_cells(), 1, i);
                assert(ts.subrange(8 * i, 8 * i + 8) == timestamp_cells()(rs[i]));
                assert(la.subrange(8 * i, 8 * i + 8) == latency_cells()(rs[i]));
                assert(su.subrange(1 * i, 1 * i + 1) == success_cells()(rs[i]));
                assert(su[i] == su.subrange(i, i + 1)[0]);
                lemma_i64_bits_round_trip(rs[i].timestamp_micros);
                assert(targets_of(rs)[i] == rs[i].target);
            }
            assert(decoded =~= rs);
        },
        Option::None => {
            assert(false);
        },
    }
}

/// Round-trip and additivity law of the durable columnar file: a file
/// holding any sequence of appended, well-formed blocks decodes to
/// exactly the records of every appended batch, in order — appending a
/// block never disturbs what was already stored, and reading back yields
/// the inputs field for field.
pub proof fn lemma_columnar_round_trip(batches: Seq<Seq<RecordView>>)
    requires
        forall|i: int| 0 <= i < batches.len() ==> block_encodable(#[trigger] batches[i]),
    ensures
        dec_stream(enc_stream(batches)) == Some(batches.flatten()),
    decreases batches.len(),
{
    lemma_auto_spec_u32_to_from_le_bytes();
    let bytes = enc_stream(batches);
    if batches.len() == 0 {
        assert(batches.flatten() == Seq::<RecordView>::empty());
    } else {
        let b0 = batches[0];
        let p0 = block_payload(b0);
        let rest_batches = batches.drop_first();
        let rest = enc_stream(rest_batches);
        assert(bytes == enc_block(b0) + rest);
        assert(enc_block(b0) == spec_u32_to_le_bytes(p0.len() as u32) + p0);
        assert(block_encodable(b0));
        assert(bytes.len() == 4 + p0.len() + rest.len());
        assert(bytes.subrange(0, 4) =~= spec_u32_to_le_bytes(p0.len() as u32));
        let plen = spec_u32_from_le_bytes(bytes.subrange(0, 4)) as int;
        assert(plen == p0.len());
        assert(bytes.subrange(4, 4 + plen) =~= p0);
        lemma_dec_block_of_enc(b0);
        assert(bytes.skip(4 + plen) =~= rest);
        assert(forall|i: int|
            0 <= i < rest_batches.len() ==> block_encodable(#[trigger] rest_batches[i]));
        lemma_columnar_round_trip(rest_batches);
        assert(batches.flatten() == b0 + rest_batches.flatten());
    }
}

/// Taking one more record extends a column by exactly its cell.
proof fn lemma_column_snoc(rs: Seq<RecordView>, cell: spec_fn(RecordView) -> Seq<u8>, i: int)
    requires
        0 <= i < rs.len(),
    ensures
        column(rs.take(i + 1), cell) == column(rs.take(i), cell) + cell(rs[i]),
    decreases i,
{
    if i == 0 {
        assert(rs.take(1).drop_first() =~= Seq::<RecordView>::empty());
        assert(rs.take(1)[0] == rs[0]);
        assert(column(rs.take(1), cell) == cell(rs.take(1)[0]) + column(
            rs.take(1).drop_first(),
            cell,
        ));
        assert(column(rs.take(1), cell) =~= cell(rs[0]));
        assert(column(rs.take(0), cell) + cell(rs[0]) =~= cell(rs[0]));
    } else {
        let tail = rs.drop_first();
        lemma_column_snoc(tail, cell, i - 1);
        assert(rs.take(i + 1).drop_first() =~= tail.take(i));
        assert(rs.take(i).drop_first() =~= tail.take(i - 1));
        assert(rs.take(i + 1)[0] == rs[0]);
        assert(rs.take(i)[0] == rs[0]);
        assert(tail[i - 1] == rs[i]);
        assert(column(rs.take(i + 1), cell) == cell(rs[0]) + column(tail.take(i), cell));
        assert(column(rs.take(i), cell) == cell(rs[0]) + column(tail.take(i - 1), cell));
        assert(cell(rs[0]) + (column(tail.take(i - 1), cell) + cell(rs[i])) =~= (cell(rs[0])
            + column(tail.take(i - 1), cell)) + cell(rs[i]));
    }
}

/// The unsigned bit pattern a timestamp is stored as.
fn i64_bits(x: i64) -> (b: u64)
    ensures
        b == i64_to_bits(x),
{
    if x >= 0 {
        x as u64
    } else {
        ((x as i128) + 0x1_0000_0000_0000_0000i128) as u64
    }
}

/// The timestamp a stored bit pattern denotes.
fn bits_i64(b: u64) -> (x: i64)
    ensures
        x == bits_to_i64(b),
{
    if b < 0x8000_0000_0000_0000 {
        b as i64
    } else {
        ((b as i128) - 0x1_0000_0000_0000_0000i128) as i64
    }
}

/// Encodes one batch as one appended block.
pub fn encode_block(records: &Vec<AttemptRecord>) -> (out: Vec<u8>)
    requires
        block_encodable(views_of_records(records@)),
    ensures
        out@ == enc_block(views_of_records(records@)),
{
    let ghost rs = views_of_records(records@);
    proof {
        assert(rs.len() == records@.len());
    }
    let count: u32 = records.len() as u32;
    let mut payload: Vec<u8> = u32_to_le_bytes(count);
    let ghost pre_ts = payload@;
    let mut i: usize = 0;
    while i < records.len()
        invariant
            rs == views_of_records(records@),
            rs.len() == records@.len(),
            0 <= i <= records@.len(),
            pre_ts == spec_u32_to_le_bytes(rs.len() as u32),
            payload@ == pre_ts + column(rs.take(i as int), timestamp_cells()),
        decreases records.len() - i,
    {
        let bits = i64_bits(records[i].timestamp_micros);
        let mut cell = u64_to_le_bytes(bits);
        proof {
            lemma_column_snoc(rs, timestamp_cells(), i as int);
            assert(rs[i as int] == records@[i as int]@);
            assert(timestamp_cells()(rs[i as int]) == cell@);
        }
        payload.append(&mut cell);
        proof {
            assert(payload@ =~= pre_ts + column(rs.take(i as int + 1), timestamp_cells()));
        }
        i = i + 1;
    }
    proof {
        assert(rs.take(rs.len() as int) =~= rs);
    }
    let ghost pre_su = payload@;
    let mut i: usize = 0;
    while i < records.len()
        invariant
            rs == views_of_records(records@),
            rs.len() == records@.len(),
            0 <= i <= records@.len(),
            pre_su == spec_u32_to_le_bytes(rs.len() as u32) + column(rs, timestamp_cells()),
            payload@ == pre_su + column(rs.take(i as int), success_cells()),
        decreases records.len() - i,
    {
        proof {
            lemma_column_snoc(rs, success_cells(), i as int);
            assert(rs[i as int] == records@[i as int]@);
        }
        if records[i].success {
            payload.push(1u8);
        } else {
            payload.push(0u8);
        }
        proof {
            assert(payload@ =~= pre_su + column(rs.take(i as int + 1), success_cells()));
        }
        i = i + 1;
    }
    proof {
        assert(rs.take(rs.len() as int) =~= rs);
    }
    let ghost pre_la = payload@;
    let mut i: usize = 0;
    while i < records.len()
        invariant
            rs == views_of_records(records@),
            rs.len() == records@.len(),
            0 <= i <= records@.len(),
            pre_la == spec_u32_to_le_bytes(rs.len() as u32) + column(rs, timestamp_cells())
                + column(rs, success_cells()),
            payload@ == pre_la + column(rs.take(i as int), latency_cells()),
        decreases records.len() - i,
    {
        let mut cell = u64_to_le_bytes(records[i].latency_us);
        proof {
            lemma_column_snoc(rs, latency_cells(), i as int);
            assert(rs[i as int] == records@[i as int]@);
            assert(latency_cells()(rs[i as int]) == cell@);
        }
        payload.append(&mut cell);
        proof {
            assert(payload@ =~= pre_la + column(rs.take(i as int + 1), latency_cells()));
        }
        i = i + 1;
    }
    proof {
        assert(rs.take(rs.len() as int) =~= rs);
    }
    let ghost pre_tg = payload@;
    let mut i: usize = 0;
    while i < records.len()
        invariant
            rs == views_of_records(records@),
            rs.len() == records@.len(),
            0 <= i <= records@.len(),
            block_encodable(rs),
            pre_tg == spec_u32_to_le_bytes(rs.len() as u32) + column(rs, timestamp_cells())
                + column(rs, success_cells()) + column(rs, latency_cells()),
            payload@ == pre_tg + column(rs.take(i as int), target_cells()),
        decreases records.len() - i,
    {
        let target_bytes: &[u8] = records[i].target.as_str().as_bytes();
        proof {
            assert(rs[i as int] == records@[i as int]@);
            assert(record_encodable(rs[i as int]));
            assert(target_bytes@ == encode_utf8(rs[i as int].target));
        }
        let target_len: u32 = target_bytes.len() as u32;
        let mut length_cell = u32_to_le_bytes(target_len);
        proof {
            lemma_column_snoc(rs, target_cells(), i as int);
            assert(target_cells()(rs[i as int]) == length_cell@ + target_bytes@);
        }
        payload.append(&mut length_cell);
        payload.extend_from_slice(target_bytes);
        proof {
            assert(payload@ =~= pre_tg + column(rs.take(i as int + 1), target_cells()));
        }
        i = i + 1;
    }
    proof {
        assert(rs.take(rs.len() as int) =~= rs);
        assert(payload@ == block_payload(rs));
    }
    let payload_len: u32 = payload.len() as u32;
    let mut out = u32_to_le_bytes(payload_len);
    out.append(&mut payload);
    proof {
        assert(out@ =~= enc_block(rs));
    }
    out
}

/// A column splits at any index into the cells before and after it.
proof fn lemma_column_split(rs: Seq<RecordView>, cell: spec_fn(RecordView) -> Seq<u8>, i: int)
    requires
        0 <= i <= rs.len(),
    ensures
        column(rs, cell) == column(rs.take(i), cell) + column(rs.skip(i), cell),
    decreases i,
{
    if i == 0 {
        assert(rs.take(0) =~= Seq::<RecordView>::empty());
        assert(rs.skip(0) =~= rs);
        assert(column(rs.take(0), cell) + column(rs, cell) =~= column(rs, cell));
    } else {
        lemma_column_split(rs, cell, i - 1);
        lemma_column_snoc(rs, cell, i - 1);
        assert(rs.skip(i - 1).len() > 0);
        assert(rs.skip(i - 1)[0] == rs[i - 1]);
        assert(rs.skip(i - 1).drop_first() =~= rs.skip(i));
        assert(column(rs.skip(i - 1), cell) == cell(rs[i - 1]) + column(rs.skip(i), cell));
        assert(column(rs.take(i - 1), cell) + (cell(rs[i - 1]) + column(rs.skip(i), cell)) =~= (
        column(rs.take(i - 1), cell) + cell(rs[i - 1])) + column(rs.skip(i), cell));
    }
}

/// Decides [`block_encodable`] for a batch: whether the record count,
/// the payload length and every target length fit their four-byte
/// fields. The durable sink's caller checks this before building a
/// block.
#[verifier::loop_isolation(false)]
pub fn durable_batch_fits(records: &Vec<AttemptRecord>) -> (r: bool)
    ensures
        r == block_encodable(views_of_records(records@)),
{
    let ghost rs = views_of_records(records@);
    proof {
        assert(rs.len() == records@.len());
        lemma_auto_spec_u32_to_from_le_bytes();
    }
    let n = records.len();
    if n as u64 > 0xFFFF_FFFFu64 {
        return false;
    }
    // Running length of the target column; kept at or below the field
    // limit, so the additions below cannot overflow.
    let mut sum: u64 = 0;
    let mut i: usize = 0;
    while i < n
        invariant
            0 <= i <= n,
            sum == column(rs.take(i as int), target_cells()).len(),
            sum <= 0xFFFF_FFFFu64,
            forall|j: int| 0 <= j < i ==> record_encodable(#[trigger] rs[j]),
        decreases n - i,
    {
        let target_bytes: &[u8] = records[i].target.as_str().as_bytes();
        let target_len = target_bytes.len();
        proof {
            assert(rs[i as int] == records@[i as int]@);
            assert(target_bytes@ == encode_utf8(rs[i as int].target));
            lemma_column_snoc(rs, target_cells(), i as int);
            assert(target_cells()(rs[i as int]).len() == 4 + target_len);
        }
        if target_len as u64 > 0xFFFF_FFFFu64 {
            proof {
                assert(!record_encodable(rs[i as int]));
            }
            return false;
        }
        let grown: u64 = sum + 4 + (target_len as u64);
        if grown > 0xFFFF_FFFFu64 {
            proof {
                // Already the target column alone overruns the payload
                // length field, wherever the batch ends.
                lemma_column_split(rs, target_cells(), i as int + 1);
                assert(column(rs.take(i as int + 1), target_cells()).len() == grown);
                assert(column(rs, target_cells()).len() >= grown);
                assert(block_payload(rs).len() > 0xFFFF_FFFF);
            }
            return false;
        }
        sum = grown;
        i = i + 1;
    }
    proof {
        assert(rs.take(rs.len() as int) =~= rs);
        assert(forall|r: RecordView| (#[trigger] timestamp_cells()(r)).len() == 8) by {
            lemma_auto_spec_u64_to_from_le_bytes();
        }
        assert(forall|r: RecordView| (#[trigger] success_cells()(r)).len() == 1);
        assert(forall|r: RecordView| (#[trigger] latency_cells()(r)).len() == 8) by {
            lemma_auto_spec_u64_to_from_le_bytes();
        }
        lemma_column_len_fixed(rs, timestamp_cells(), 8);
        lemma_column_len_fixed(rs, success_cells(), 1);
        lemma_column_len_fixed(rs, latency_cells(), 8);
        assert(block_payload(rs).len() == 4 + 17 * (rs.len() as int) + sum);
    }
    let total: u64 = 4 + 17 * (n as u64) + sum;
    total <= 0xFFFF_FFFFu64
}

/// Relies on `String::from_utf8`: it succeeds exactly on valid UTF-8
/// input, returning the string whose UTF-8 encoding is that input.
#[verifier::external_body]
fn bytes_to_string(bytes: Vec<u8>) -> (r: Option<String>)
    ensures
        match r {
            Option::Some(s) => encode_utf8(s@) == bytes@,
            Option::None => !valid_utf8(bytes@),
        },
{
    String::from_utf8(bytes).ok()
}

/// The fixed-width cells at index `j` of a block payload `p` with `nn`
/// records, as the decoder reads them into a record's fields.
pub open spec fn fixed_cells_match(p: Seq<u8>, nn: int, rv: RecordView, j: int) -> bool {
    &&& rv.timestamp_micros == bits_to_i64(
        spec_u64_from_le_bytes(p.subrange(4 + 8 * j, 4 + 8 * j + 8)),
    )
    &&& rv.success == (p[4 + 8 * nn + j] == 1)
    &&& rv.latency_us == spec_u64_from_le_bytes(
        p.subrange(4 + 9 * nn + 8 * j, 4 + 9 * nn + 8 * j + 8),
    )
}

/// Decodes one block payload, mirroring [`dec_block_payload`] exactly.
#[verifier::loop_isolation(false)]
#[verifier::rlimit(30)]
fn decode_block_payload_exec(payload: &[u8]) -> (r: Option<Vec<AttemptRecord>>)
    ensures
        match r {
            Option::Some(v) => dec_block_payload(payload@) == Some(views_of_records(v@)),
            Option::None => dec_block_payload(payload@) is None,
        },
{
    let ghost p = payload@;
    let m = payload.len();
    if m < 4 {
        return None;
    }
    let count_field = u32_from_le_bytes(slice_subrange(payload, 0, 4));
    let n = count_field as usize;
    let ghost nn = n as int;
    proof {
        assert(spec_u32_from_le_bytes(p.subrange(0, 4)) as int == nn);
    }
    if ((m as u64) - 4) < 17 * (n as u64) {
        return None;
    }
    proof {
        assert(4 + 17 * nn <= m);
    }
    let su_off = 4 + 8 * n;
    let la_off = 4 + 9 * n;
    let tg_off = 4 + 17 * n;
    let ghost su_col = p.subrange(4 + 8 * nn, 4 + 9 * nn);
    // Validate the success column: every byte must be 0 or 1.
    let mut i: usize = 0;
    while i < n
        invariant
            0 <= i <= n,
            forall|j: int|
                0 <= j < i ==> (#[trigger] p[4 + 8 * nn + j]) == 0 || p[4 + 8 * nn + j] == 1,
        decreases n - i,
    {
        let b = payload[su_off + i];
        if b != 0 && b != 1 {
            proof {
                assert(su_col[i as int] == b);
                assert(exists|j: int|
                    0 <= j < nn && !(su_col[j] == 0 || su_col[j] == 1));
            }
            return None;
        }
        i = i + 1;
    }
    proof {
        assert forall|j: int| 0 <= j < nn implies su_col[j] == 0 || su_col[j] == 1 by {
            assert(su_col[j] == p[4 + 8 * nn + j]);
        }
        assert(!(exists|j: int| 0 <= j < nn && !(su_col[j] == 0 || su_col[j] == 1)));
    }
    // Read the fixed columns and parse the target column, one record at
    // a time.
    let ghost tg_region = p.subrange(4 + 17 * nn, m as int);
    let mut recs: Vec<AttemptRecord> = Vec::new();
    let mut tpos: usize = tg_off;
    proof {
        assert(views_of_records(recs@) =~= Seq::<RecordView>::empty());
        assert(targets_of(views_of_records(recs@)) =~= Seq::<Seq<char>>::empty());
        assert(p.subrange(tpos as int, m as int) == tg_region);
        match dec_targets(tg_region, nn as nat) {
            Option::Some(parsed) => {
                assert(targets_of(views_of_records(recs@)) + parsed.0 =~= parsed.0);
            },
            Option::None => {},
        }
    }
    while recs.len() < n
        invariant
            recs@.len() <= nn,
            tg_off <= tpos <= m,
            forall|j: int|
                0 <= j < recs@.len() ==> fixed_cells_match(p, nn, (#[trigger] recs@[j])@, j),
            match dec_targets(
                p.subrange(tpos as int, m as int),
                (nn - recs@.len()) as nat,
            ) {
                Option::Some(parsed) => dec_targets(tg_region, nn as nat) == Some::<
                    (Seq<Seq<char>>, int),
                >(
                    (
                        targets_of(views_of_records(recs@)) + parsed.0,
                        (tpos - tg_off) + parsed.1,
                    ),
                ),
                Option::None => dec_targets(tg_region, nn as nat) is None,
            },
        decreases n - recs.len(),
    {
        let ghost k = recs@.len() as int;
        let ghost region_k = p.subrange(tpos as int, m as int);
        let ghost remaining = (nn - k) as nat;
        let index = recs.len();
        let ts_bits = u64_from_le_bytes(slice_subrange(payload, 4 + 8 * index, 4 + 8 * index + 8));
        let timestamp = bits_i64(ts_bits);
        let success = payload[su_off + index] == 1;
        let latency = u64_from_le_bytes(
            slice_subrange(payload, la_off + 8 * index, la_off + 8 * index + 8),
        );
        if m - tpos < 4 {
            proof {
                assert(region_k.len() < 4);
                assert(dec_targets(region_k, remaining) is None);
                assert(dec_targets(tg_region, nn as nat) is None);
                assert(dec_block_payload(p) is None);
            }
            return None;
        }
        let length_field = u32_from_le_bytes(slice_subrange(payload, tpos, tpos + 4));
        let target_len = length_field as usize;
        proof {
            assert(region_k.subrange(0, 4) =~= p.subrange(tpos as int, tpos as int + 4));
            assert(spec_u32_from_le_bytes(region_k.subrange(0, 4)) as int == target_len as int);
        }
        if m - tpos - 4 < target_len {
            proof {
                assert(region_k.len() < 4 + target_len);
                assert(dec_targets(region_k, remaining) is None);
                assert(dec_block_payload(p) is None);
            }
            return None;
        }
        let raw = slice_subrange(payload, tpos + 4, tpos + 4 + target_len);
        proof {
            assert(region_k.subrange(4, 4 + target_len as int) =~= raw@);
        }
        let raw_vec = slice_to_vec(raw);
        match bytes_to_string(raw_vec) {
            Option::None => {
                proof {
                    assert(!valid_utf8(region_k.subrange(4, 4 + target_len as int)));
                    assert(dec_targets(region_k, remaining) is None);
                    assert(dec_block_payload(p) is None);
                }
                return None;
            },
            Option::Some(target) => {
                proof {
                    encode_utf8_valid_utf8(target@);
                    encode_utf8_decode_utf8(target@);
                    assert(valid_utf8(region_k.subrange(4, 4 + target_len as int)));
                    assert(decode_utf8(region_k.subrange(4, 4 + target_len as int)) == target@);
                    assert(region_k.skip(4 + target_len as int) =~= p.subrange(
                        tpos as int + 4 + target_len as int,
                        m as int,
                    ));
                }
                let record = AttemptRecord {
                    timestamp_micros: timestamp,
                    target,
                    success,
                    latency_us: latency,
                };
                let ghost old_recs = recs@;
                recs.push(record);
                tpos = tpos + 4 + target_len;
                proof {
                    assert(views_of_records(recs@) =~= views_of_records(old_recs).push(
                        record@,
                    ));
                    assert(targets_of(views_of_records(recs@)) =~= targets_of(
                        views_of_records(old_recs),
                    ).push(record@.target));
                    assert(fixed_cells_match(p, nn, record@, k));
                    let region_next = p.subrange(tpos as int, m as int);
                    match dec_targets(region_next, (nn - recs@.len()) as nat) {
                        Option::Some(parsed_next) => {
                            assert(dec_targets(region_k, remaining) == Some::<
                                (Seq<Seq<char>>, int),
                            >(
                                (
                                    seq![record@.target] + parsed_next.0,
                                    4 + target_len + parsed_next.1,
                                ),
                            ));
                            assert(targets_of(views_of_records(old_recs)) + (seq![
                                record@.target,
                            ] + parsed_next.0) =~= targets_of(views_of_records(recs@))
                                + parsed_next.0);
                        },
                        Option::None => {
                            assert(dec_targets(region_k, remaining) is None);
                        },
                    }
                }
            },
        }
    }
    if tpos != m {
        proof {
            assert(dec_targets(p.subrange(tpos as int, m as int), 0) == Some::<
                (Seq<Seq<char>>, int),
            >((Seq::empty(), 0int)));
            match dec_targets(tg_region, nn as nat) {
                Option::Some(parsed) => {
                    assert(parsed.1 == tpos - tg_off);
                    assert(parsed.1 != tg_region.len());
                    assert(dec_block_payload(p) is None);
                },
                Option::None => {
                    assert(dec_block_payload(p) is None);
                },
            }
        }
        return None;
    }
    proof {
        assert(dec_targets(p.subrange(tpos as int, m as int), 0) == Some::<
            (Seq<Seq<char>>, int),
        >((Seq::empty(), 0int)));
        match dec_targets(tg_region, nn as nat) {
            Option::Some(parsed) => {
                assert(parsed.0 == targets_of(views_of_records(recs@)) + Seq::<Seq<char>>::empty());
                assert(parsed.0 =~= targets_of(views_of_records(recs@)));
                assert(parsed.1 == tg_region.len());
                match dec_block_payload(p) {
                    Option::Some(decoded) => {
                        assert forall|j: int|
                            0 <= j < nn implies decoded[j] == views_of_records(recs@)[j] by {
                            assert(fixed_cells_match(p, nn, recs@[j]@, j));
                            assert(p.subrange(4, 4 + 8 * nn).subrange(8 * j, 8 * j + 8) =~= p
                                .subrange(4 + 8 * j, 4 + 8 * j + 8));
                            assert(p.subrange(4 + 9 * nn, 4 + 17 * nn).subrange(
                                8 * j,
                                8 * j + 8,
                            ) =~= p.subrange(4 + 9 * nn + 8 * j, 4 + 9 * nn + 8 * j + 8));
                            assert(su_col[j] == p[4 + 8 * nn + j]);
                            assert(targets_of(views_of_records(recs@))[j] == recs@[j]@.target);
                        }
                        assert(decoded =~= views_of_records(recs@));
                    },
                    Option::None => {
                        assert(false);
                    },
                }
            },
            Option::None => {
                assert(false);
            },
        }
    }
    Some(recs)
}

/// Decodes a file's bytes back into the records of every appended block,
/// in order, mirroring [`dec_stream`] exactly: the result is the records
/// of every batch ever flushed, or nothing if the bytes are not a
/// sequence of well-formed blocks.
#[verifier::loop_isolation(false)]
pub fn decode_all(bytes: &[u8]) -> (r: Option<Vec<AttemptRecord>>)
    ensures
        match r {
            Option::Some(v) => dec_stream(bytes@) == Some(views_of_records(v@)),
            Option::None => dec_stream(bytes@) is None,
        },
{
    let ghost whole = bytes@;
    let total = bytes.len();
    let mut pos: usize = 0;
    let mut acc: Vec<AttemptRecord> = Vec::new();
    proof {
        assert(views_of_records(acc@) =~= Seq::<RecordView>::empty());
        assert(whole.skip(0) =~= whole);
        match dec_stream(whole) {
            Option::Some(rest) => {
                assert(views_of_records(acc@) + rest =~= rest);
            },
            Option::None => {},
        }
    }
    while pos < total
        invariant
            0 <= pos <= total,
            match dec_stream(whole.skip(pos as int)) {
                Option::Some(rest) => dec_stream(whole) == Some::<Seq<RecordView>>(
                    views_of_records(acc@) + rest,
                ),
                Option::None => dec_stream(whole) is None,
            },
        decreases total - pos,
    {
        let ghost region = whole.skip(pos as int);
        if total - pos < 4 {
            proof {
                assert(region.len() < 4);
                assert(region.len() != 0);
                assert(dec_stream(region) is None);
            }
            return None;
        }
        let length_field = u32_from_le_bytes(slice_subrange(bytes, pos, pos + 4));
        let payload_len = length_field as usize;
        proof {
            assert(region.subrange(0, 4) =~= whole.subrange(pos as int, pos as int + 4));
            assert(spec_u32_from_le_bytes(region.subrange(0, 4)) as int == payload_len as int);
        }
        if total - pos - 4 < payload_len {
            proof {
                assert(region.len() < 4 + payload_len);
                assert(dec_stream(region) is None);
            }
            return None;
        }
        let payload = slice_subrange(bytes, pos + 4, pos + 4 + payload_len);
        proof {
            assert(region.subrange(4, 4 + payload_len as int) =~= payload@);
        }
        match decode_block_payload_exec(payload) {
            Option::None => {
                proof {
                    assert(dec_block_payload(region.subrange(4, 4 + payload_len as int)) is None);
                    assert(dec_stream(region) is None);
                }
                return None;
            },
            Option::Some(mut block) => {
                let ghost old_acc = acc@;
                let ghost block_views = views_of_records(block@);
                acc.append(&mut block);
                pos = pos + 4 + payload_len;
                proof {
                    assert(views_of_records(acc@) =~= views_of_records(old_acc) + block_views);
                    assert(region.skip(4 + payload_len as int) =~= whole.skip(pos as int));
                    match dec_stream(whole.skip(pos as int)) {
                        Option::Some(rest) => {
                            assert(dec_stream(region) == Some::<Seq<RecordView>>(
                                block_views + rest,
                            ));
                            assert(views_of_records(old_acc) + (block_views + rest)
                                =~= views_of_records(acc@) + rest);
                        },
                        Option::None => {
                            assert(dec_stream(region) is None);
                        },
                    }
                }
            },
        }
    }
    proof {
        assert(whole.skip(total as int).len() == 0);
        assert(dec_stream(whole.skip(pos as int)) == Some(Seq::<RecordView>::empty()));
        assert(views_of_records(acc@) + Seq::<RecordView>::empty() =~= views_of_records(acc@));
    }
    Some(acc)
}

} // verus!
