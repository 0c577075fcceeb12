//! The ingestion side: the server's shared store of received metric
//! batches and the decisions of its streaming RPC surface.
//!
//! The store is append-only: each received chunk's payload is appended as
//! one batch, with no deduplication and no indexing. The application
//! guards one store with a lock and hands each arriving chunk to
//! [`IngestStore::append_chunk`], which yields exactly one acknowledgment
//! per chunk — strict one-to-one, never batched.

use vstd::prelude::*;

verus! {

/// The acknowledgment sent for one received chunk; its metadata payload
/// is empty in this design.
pub struct PutAck {
    pub app_metadata: Vec<u8>,
}

/// The single reply sent at the end of a handshake exchange: protocol
/// version zero and an empty payload.
pub struct HandshakeReply {
    pub protocol_version: u64,
    pub payload: Vec<u8>,
}

/// Append-only sequence of received raw batches.
pub struct IngestStore {
    batches: Vec<Vec<u8>>,
}

impl IngestStore {
    /// The stored batches, each as the exact bytes received, in arrival
    /// order.
    pub closed spec fn batches(self) -> Seq<Seq<u8>> {
        self.batches@.map_values(|b: Vec<u8>| b@)
    }

    /// Creates an empty store.
    pub fn new() -> (store: Self)
        ensures
            store.batches() == Seq::<Seq<u8>>::empty(),
    {
        let store = IngestStore { batches: Vec::new() };
        proof {
            assert(store.batches() =~= Seq::<Seq<u8>>::empty());
        }
        store
    }

    /// Number of batches stored.
    pub fn batch_count(&self) -> (n: usize)
        ensures
            n == self.batches().len(),
    {
        self.batches.len()
    }

    /// The bytes of the stored batch at `index`.
    pub fn batch_at(&self, index: usize) -> (bytes: &Vec<u8>)
        requires
            index < self.batches().len(),
        ensures
            bytes@ == self.batches()[index as int],
    {
        &self.batches[index]
    }

    /// Receives one chunk: appends its raw payload to the store — the
    /// store afterwards holds exactly the old batches plus this payload,
    /// nothing lost, nothing interleaved — and returns the single
    /// acknowledgment owed for it.
    pub fn append_chunk(&mut self, payload: Vec<u8>) -> (ack: PutAck)
        ensures
            final(self).batches() == old(self).batches().push(payload@),
            ack.app_metadata@ == Seq::<u8>::empty(),
    {
        let ghost old_batches = self.batches@;
        self.batches.push(payload);
        proof {
            assert(self.batches() =~= old_batches.map_values(|b: Vec<u8>| b@).push(
                self.batches@[old_batches.len() as int]@,
            ));
        }
        PutAck { app_metadata: Vec::new() }
    }
}

/// Builds the one handshake reply: the handshake drains its inbound
/// messages and answers once, with protocol version zero and an empty
/// payload.
pub fn handshake_reply() -> (reply: HandshakeReply)
    ensures
        reply.protocol_version == 0,
        reply.payload@ == Seq::<u8>::empty(),
{
    HandshakeReply { protocol_version: 0, payload: Vec::new() }
}

/// The verbs of the streaming RPC surface.
#[derive(Clone, Copy, Debug, PartialEq, Eq, Structural)]
pub enum RpcVerb {
    Handshake,
    DoPut,
    ListFlights,
    DoGet,
    DoExchange,
    DoAction,
    ListActions,
    GetFlightInfo,
    PollFlightInfo,
    GetSchema,
}

/// How the service answers a verb: with its real state machine, or with
/// an explicit capability-not-supported status.
#[derive(Clone, Copy, Debug, PartialEq, Eq, Structural)]
pub enum VerbOutcome {
    Handled,
    Unimplemented,
}

/// The verbs the service really implements: the handshake exchange and
/// the streaming put.
pub open spec fn verb_is_supported(verb: RpcVerb) -> bool {
    verb == RpcVerb::Handshake || verb == RpcVerb::DoPut
}

/// Dispatches a verb: handshake and put are handled; every other verb is
/// answered with the unimplemented status — never a malformed success and
/// never an unhandled hang.
pub fn classify_verb(verb: RpcVerb) -> (outcome: VerbOutcome)
    ensures
        outcome == VerbOutcome::Handled <==> verb_is_supported(verb),
        outcome == VerbOutcome::Unimplemented <==> !verb_is_supported(verb),
{
    match verb {
        RpcVerb::Handshake => VerbOutcome::Handled,
        RpcVerb::DoPut => VerbOutcome::Handled,
        _ => VerbOutcome::Unimplemented,
    }
}

} // verus!
