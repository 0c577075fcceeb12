//! Metric sinks: the two destinations a drained batch can be flushed to,
//! chosen once at startup from configuration.
//!
//! Both sinks transport the same records; they differ only in encoding
//! and destination. The library builds the exact bytes each flush hands
//! over; the application performs the send or the file append.

use vstd::prelude::*;
use crate::columnar::{block_encodable, enc_block, encode_block};
use crate::metrics::{AttemptRecord, views_of_records};
use crate::wire::{batch_lines, encode_batch};

verus! {

/// Which sink a run flushes to.
#[derive(Clone, Copy, Debug, PartialEq, Eq, Structural)]
pub enum SinkKind {
    /// Stream each batch as one chunk of the streaming RPC call to the
    /// ingestion endpoint.
    Remote,
    /// Append each batch as one block of the local durable columnar
    /// file.
    Durable,
}

/// Builds the bytes one flush hands to its destination: nothing for an
/// empty batch — flushing an empty batch is a successful no-op that must
/// not touch the transport — the batch's newline-delimited wire lines
/// for the remote sink, and one self-contained appended block for the
/// durable sink.
pub fn flush_payload(kind: SinkKind, records: &Vec<AttemptRecord>) -> (r: Option<Vec<u8>>)
    requires
        kind == SinkKind::Durable ==> block_encodable(views_of_records(records@)),
    ensures
        r is None <==> records@.len() == 0,
        (kind == SinkKind::Remote && records@.len() > 0) ==> r->0@ == batch_lines(records@),
        (kind == SinkKind::Durable && records@.len() > 0) ==> r->0@ == enc_block(
            views_of_records(records@),
        ),
{
    if records.len() == 0 {
        return None;
    }
    match kind {
        SinkKind::Remote => Some(encode_batch(records)),
        SinkKind::Durable => Some(encode_block(records)),
    }
}

} // verus!
