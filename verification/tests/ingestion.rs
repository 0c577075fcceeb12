use kukai::ingest::{classify_verb, handshake_reply, IngestStore, RpcVerb, VerbOutcome};

#[test]
fn one_chunk_one_ack_and_stored_exactly() {
    let mut store = IngestStore::new();
    let payload = b"100,host:1,true,50\n".to_vec();
    let ack = store.append_chunk(payload.clone());
    // Exactly one acknowledgment per chunk, with an empty metadata
    // payload, and the store holds that exact payload afterwards.
    assert!(ack.app_metadata.is_empty());
    assert_eq!(store.batch_count(), 1);
    assert_eq!(store.batch_at(0), &payload);
}

#[test]
fn chunks_are_stored_in_arrival_order_without_interleaving() {
    let mut store = IngestStore::new();
    let first = b"1,a:1,true,10\n".to_vec();
    let second = b"2,b:2,false,20\n".to_vec();
    let third = Vec::new();
    store.append_chunk(first.clone());
    store.append_chunk(second.clone());
    store.append_chunk(third.clone());
    assert_eq!(store.batch_count(), 3);
    assert_eq!(store.batch_at(0), &first);
    assert_eq!(store.batch_at(1), &second);
    assert_eq!(store.batch_at(2), &third);
}

#[test]
fn handshake_replies_once_with_empty_payload() {
    let reply = handshake_reply();
    assert_eq!(reply.protocol_version, 0);
    assert!(reply.payload.is_empty());
}

#[test]
fn unimplemented_verbs_always_report_unimplemented() {
    let unimplemented = [
        RpcVerb::ListFlights,
        RpcVerb::DoGet,
        RpcVerb::DoExchange,
        RpcVerb::DoAction,
        RpcVerb::ListActions,
        RpcVerb::GetFlightInfo,
        RpcVerb::PollFlightInfo,
        RpcVerb::GetSchema,
    ];
    for verb in unimplemented {
        assert_eq!(classify_verb(verb), VerbOutcome::Unimplemented);
    }
}

#[test]
fn handshake_and_put_are_handled() {
    assert_eq!(classify_verb(RpcVerb::Handshake), VerbOutcome::Handled);
    assert_eq!(classify_verb(RpcVerb::DoPut), VerbOutcome::Handled);
}
