use bytes::Bytes;
use sessionrpc::ffi::{decode_encoded, encode_view, frame_fields, frame_from_view};
use sessionrpc::k8s::dns_label_fragment;
use sessionrpc::{
    conformance_frames, same_frame, ClientId, FlowController, Frame, FrameCodec, FrameKind,
    FrameSeq, GpuLease, GpuScheduler, InMemoryFrameTracer, InMemoryMeter, K8sRoutePolicy,
    LeaseEpoch, MeteringSink, MeteringEvent, MeteringSnapshot, PlacementRequest, SessionId,
    SessionRegistry, SessionRouter, SessionRpcError, SessionRpcStatus, SessionSnapshot,
    StaticGpuScheduler, StickyRouteTable, StreamId, TraceContext, SESSIONRPC_FRAME_DATA,
    SESSIONRPC_FRAME_PING,
};

fn fixed_session() -> SessionId {
    SessionId::from_value(0x0123_4567_89ab_cdef_0011_2233_4455_6677)
}

#[test]
fn header_layout_matches_the_documented_offsets() {
    let codec = FrameCodec::default();
    let frame = Frame::data_with_tokens(
        fixed_session(),
        StreamId::new(0x0102),
        FrameSeq::new(3),
        LeaseEpoch::new(4),
        Bytes::from_static(b"xyz"),
        5,
    );
    let encoded = codec.encode(&frame).unwrap();
    assert_eq!(encoded.len(), 58 + 3);
    assert_eq!(&encoded[0..4], b"SRP1");
    assert_eq!(encoded[4], 1);
    assert_eq!(encoded[5], 0);
    assert_eq!(&encoded[6..10], &[0, 0, 0, 3]);
    assert_eq!(
        &encoded[10..26],
        &[0x01, 0x23, 0x45, 0x67, 0x89, 0xab, 0xcd, 0xef, 0x00, 0x11, 0x22, 0x33, 0x44, 0x55, 0x66, 0x77]
    );
    assert_eq!(&encoded[26..34], &[0, 0, 0, 0, 0, 0, 1, 2]);
    assert_eq!(&encoded[34..42], &[0, 0, 0, 0, 0, 0, 0, 3]);
    assert_eq!(&encoded[42..50], &[0, 0, 0, 0, 0, 0, 0, 4]);
    assert_eq!(&encoded[50..58], &[0, 0, 0, 0, 0, 0, 0, 5]);
    assert_eq!(&encoded[58..], b"xyz");
}

#[test]
fn absent_token_count_is_encoded_as_all_ones() {
    let codec = FrameCodec::default();
    let frame = Frame::control(fixed_session(), StreamId::new(1), FrameSeq::new(0), LeaseEpoch::new(1), FrameKind::End);
    let encoded = codec.encode(&frame).unwrap();
    assert_eq!(encoded.len(), 58);
    assert_eq!(encoded[5], 3);
    assert_eq!(&encoded[50..58], &[0xff; 8]);
    assert_eq!(codec.decode(&encoded).unwrap(), frame);
}

#[test]
fn token_counts_and_trace_context_roundtrip_together() {
    let codec = FrameCodec::default();
    let frame = Frame::data_with_tokens(
        fixed_session(),
        StreamId::new(7),
        FrameSeq::new(8),
        LeaseEpoch::new(9),
        Bytes::from_static(b"tokens"),
        42,
    )
    .with_trace_context(TraceContext::new("00-abc-def-01"));
    let encoded = codec.encode(&frame).unwrap();
    assert_eq!(encoded.len(), 58 + 6 + 4 + 13);
    assert_eq!(&encoded[64..68], &[0, 0, 0, 13]);
    assert_eq!(&encoded[68..], b"00-abc-def-01");
    let decoded = codec.decode(&encoded).unwrap();
    assert_eq!(decoded.token_count(), Some(42));
    assert_eq!(decoded.trace_context().unwrap().traceparent(), "00-abc-def-01");
    assert_eq!(decoded, frame);
}

#[test]
fn every_control_kind_roundtrips() {
    let codec = FrameCodec::default();
    for kind in [FrameKind::Cancel, FrameKind::Open, FrameKind::End, FrameKind::Ping] {
        let frame = Frame::control(SessionId::new(), StreamId::new(3), FrameSeq::new(4), LeaseEpoch::new(5), kind);
        assert_eq!(codec.decode(&codec.encode(&frame).unwrap()).unwrap(), frame);
    }
}

#[test]
fn encoder_rejects_payloads_above_the_limit() {
    let codec = FrameCodec::with_max_payload_len(4);
    let frame = Frame::data(fixed_session(), StreamId::new(1), FrameSeq::new(0), LeaseEpoch::new(1), Bytes::from_static(b"12345"));
    assert_eq!(codec.encode(&frame).unwrap_err(), SessionRpcError::FrameTooLarge(5));
    let small = Frame::data(fixed_session(), StreamId::new(1), FrameSeq::new(0), LeaseEpoch::new(1), Bytes::from_static(b"1234"));
    assert!(codec.encode(&small).is_ok());
}

#[test]
fn decoder_rejects_malformed_headers() {
    let codec = FrameCodec::default();
    let frame = Frame::data(fixed_session(), StreamId::new(1), FrameSeq::new(0), LeaseEpoch::new(1), Bytes::from_static(b"abc"));
    let encoded = codec.encode(&frame).unwrap().to_vec();

    assert_eq!(
        codec.decode(&encoded[..10]).unwrap_err(),
        SessionRpcError::TruncatedFrame { needed: 58, actual: 10 }
    );

    let mut bad_magic = encoded.clone();
    bad_magic[2] = b'X';
    assert_eq!(codec.decode(&bad_magic).unwrap_err(), SessionRpcError::InvalidFrameMagic);

    let mut bad_kind = encoded.clone();
    bad_kind[5] = 9;
    assert_eq!(codec.decode(&bad_kind).unwrap_err(), SessionRpcError::UnknownFrameKind(9));

    let strict = FrameCodec::with_max_payload_len(2);
    assert_eq!(strict.decode(&encoded).unwrap_err(), SessionRpcError::FrameTooLarge(3));
}

#[test]
fn decoder_reads_only_complete_trace_sections() {
    let codec = FrameCodec::default();
    let plain = Frame::data(fixed_session(), StreamId::new(1), FrameSeq::new(0), LeaseEpoch::new(1), Bytes::from_static(b"p"));
    let frame = plain.clone().with_trace_context(TraceContext::new("trace"));
    let encoded = codec.encode(&frame).unwrap().to_vec();
    assert_eq!(encoded.len(), 59 + 4 + 5);

    assert_eq!(codec.decode(&encoded[..59]).unwrap(), plain);
    assert_eq!(codec.decode(&encoded[..61]).unwrap(), plain);
    assert_eq!(codec.decode(&encoded[..65]).unwrap(), plain);
    let mut invalid = encoded.clone();
    invalid[63] = 0xff;
    assert_eq!(codec.decode(&invalid).unwrap(), plain);

    let mut trailing = encoded.clone();
    trailing.extend_from_slice(b"ignored");
    assert_eq!(codec.decode(&trailing).unwrap(), frame);

    let ping = Frame::control(fixed_session(), StreamId::new(2), FrameSeq::new(3), LeaseEpoch::new(1), FrameKind::Ping);
    let mut extra = codec.encode(&ping).unwrap().to_vec();
    extra.extend_from_slice(&[7, 7]);
    assert_eq!(codec.decode(&extra).unwrap(), ping);
}

#[test]
fn session_ids_convert_to_uuid_bytes_and_text() {
    let id = fixed_session();
    let bytes = id.to_bytes();
    assert_eq!(bytes[0], 0x01);
    assert_eq!(bytes[15], 0x77);
    assert_eq!(SessionId::from_bytes(bytes), id);
    assert_eq!(id.to_string(), "01234567-89ab-cdef-0011-223344556677");
    let fresh = SessionId::new();
    assert_eq!((fresh.get() >> 76) & 0xf, 4);
    assert_eq!((fresh.get() >> 62) & 0x3, 2);
}

#[test]
fn dns_label_fragments_collapse_and_lowercase() {
    assert_eq!(dns_label_fragment("worker-a"), "worker-a");
    assert_eq!(dns_label_fragment("GPU Node__7"), "gpu-node-7");
    assert_eq!(dns_label_fragment("--edge--"), "edge");
    assert_eq!(dns_label_fragment("a.b/c"), "a-b-c");
    assert_eq!(dns_label_fragment("!!!"), "worker");
    assert_eq!(dns_label_fragment(""), "worker");
    assert_eq!(dns_label_fragment("Ünïcode9"), "n-code9");
}

#[test]
fn route_table_uses_policy_fields_and_sorts_snapshots() {
    let policy = K8sRoutePolicy::new("ns", "svc", 9000).with_sticky_header("x-sticky");
    assert_eq!(policy.backend_service("Worker B"), "svc-worker-b");
    let snapshot = |value: u128, worker: &str| SessionSnapshot {
        session_id: SessionId::from_value(value),
        client_id: ClientId::new("c"),
        lease: GpuLease::new(worker, 1, "m", 2),
        lease_epoch: LeaseEpoch::new(3),
    };
    let table = StickyRouteTable::from_snapshots(
        vec![snapshot(30, "w-30"), snapshot(10, "w-10"), snapshot(20, "w-20"), snapshot(10, "w-10b")],
        policy,
    );
    let routes = table.snapshot();
    assert_eq!(routes.len(), 3);
    assert_eq!(routes[0].session_id.get(), 10);
    assert_eq!(routes[0].worker_id, "w-10b");
    assert_eq!(routes[0].backend_service, "svc-w-10b");
    assert_eq!(routes[1].session_id.get(), 20);
    assert_eq!(routes[2].session_id.get(), 30);
    assert_eq!(routes[2].sticky_header, "x-sticky");
    assert_eq!(routes[2].backend_namespace, "ns");
    assert_eq!(routes[2].backend_port, 9000);
    assert_eq!(routes[2].lease_epoch, LeaseEpoch::new(3));
    assert_eq!(routes[2].sticky_key, SessionId::from_value(30).to_string());
    assert!(table.route(SessionId::from_value(40)).is_none());
}

#[test]
fn registry_snapshots_list_every_session_once() {
    let mut registry = SessionRegistry::default();
    let a = registry.open_session(ClientId::new("a"), GpuLease::new("w1", 0, "m", 1));
    let b = registry.open_session(ClientId::new("b"), GpuLease::new("w2", 1, "m", 2));
    let snapshots = registry.snapshots();
    assert_eq!(snapshots.len(), 2);
    let find = |id: SessionId| snapshots.iter().find(|s| s.session_id == id).unwrap();
    assert_eq!(find(a.session_id).client_id, ClientId::new("a"));
    assert_eq!(find(b.session_id).lease_epoch, LeaseEpoch::new(2));
}

#[test]
fn unknown_sessions_are_reported() {
    let mut registry = SessionRegistry::default();
    let missing = fixed_session();
    assert_eq!(
        registry.resume_session(missing, ClientId::new("x")).unwrap_err(),
        SessionRpcError::UnknownSession(missing)
    );
    assert_eq!(registry.lease(missing).unwrap_err(), SessionRpcError::UnknownSession(missing));
    let frame = Frame::control(missing, StreamId::new(1), FrameSeq::new(0), LeaseEpoch::new(1), FrameKind::Ping);
    assert_eq!(registry.accept_frame(frame).unwrap_err(), SessionRpcError::UnknownSession(missing));
}

#[test]
fn accepted_frames_advance_only_their_own_stream() {
    let mut registry = SessionRegistry::default();
    let opened = registry.open_session(ClientId::new("a"), GpuLease::new("w", 0, "m", 5));
    let frame = |stream: u64, seq: u64| {
        Frame::control(opened.session_id, StreamId::new(stream), FrameSeq::new(seq), LeaseEpoch::new(5), FrameKind::Ping)
    };
    let accepted = registry.accept_frame(frame(1, 0)).unwrap();
    assert_eq!(accepted.next_inbound_seq, FrameSeq::new(1));
    assert_eq!(accepted.stream_id, StreamId::new(1));
    registry.accept_frame(frame(1, 1)).unwrap();
    registry.accept_frame(frame(2, 0)).unwrap();
    let resumed = registry.resume_session(opened.session_id, ClientId::new("b")).unwrap();
    assert_eq!(resumed.next_inbound_seq(StreamId::new(1)), FrameSeq::new(2));
    assert_eq!(resumed.next_inbound_seq(StreamId::new(2)), FrameSeq::new(1));
    assert_eq!(resumed.next_inbound_seq(StreamId::new(3)), FrameSeq::new(0));
}

#[test]
fn static_scheduler_hands_out_matching_leases_round_robin() {
    let mut scheduler = StaticGpuScheduler::new(vec![
        GpuLease::new("a", 0, "m1", 1),
        GpuLease::new("b", 1, "m2", 2),
        GpuLease::new("c", 2, "m1", 3),
    ]);
    let request = PlacementRequest::new("m1");
    assert_eq!(scheduler.allocate(&request).unwrap().worker_id, "a");
    assert_eq!(scheduler.allocate(&request).unwrap().worker_id, "c");
    assert_eq!(scheduler.allocate(&request).unwrap().worker_id, "a");
    assert_eq!(scheduler.allocate(&PlacementRequest::new("m2")).unwrap().worker_id, "b");
    assert_eq!(
        scheduler.allocate(&PlacementRequest::new("m3")).unwrap_err(),
        SessionRpcError::PlacementUnavailable { model_id: "m3".to_string() }
    );
    let refreshed = scheduler.refresh(SessionId::new(), &GpuLease::new("x", 9, "m1", 9)).unwrap();
    assert_eq!(refreshed.worker_id, "c");
    let mut empty = StaticGpuScheduler::new(vec![]);
    assert!(empty.allocate(&request).is_err());
}

#[test]
fn flow_control_refusals_keep_credit() {
    let mut flow = FlowController::new(10);
    assert_eq!(
        flow.reserve(StreamId::new(4), 11).unwrap_err(),
        SessionRpcError::InsufficientCredit { stream_id: StreamId::new(4), requested: 11, available: 10 }
    );
    assert_eq!(flow.available(StreamId::new(4)), 10);
    flow.reserve(StreamId::new(4), 10).unwrap();
    assert_eq!(flow.available(StreamId::new(4)), 0);
    flow.replenish(StreamId::new(4), 10);
    assert_eq!(flow.available(StreamId::new(4)), 10);
}

#[test]
fn router_meters_and_traces_each_accepted_frame_once() {
    let scheduler = StaticGpuScheduler::new(vec![GpuLease::new("w", 3, "m", 7)]);
    let mut router = SessionRouter::with_meter_and_tracer(scheduler, 100, InMemoryMeter::default(), InMemoryFrameTracer::default());
    let opened = router.open(ClientId::new("c"), PlacementRequest::new("m")).unwrap();
    router
        .route_inbound(Frame::data(opened.session_id, StreamId::new(1), FrameSeq::new(0), opened.lease_epoch, Bytes::from_static(b"12345")))
        .unwrap();
    let stale = Frame::data(opened.session_id, StreamId::new(1), FrameSeq::new(1), LeaseEpoch::new(6), Bytes::from_static(b"12"));
    assert_eq!(
        router.route_inbound(stale).unwrap_err(),
        SessionRpcError::StaleLeaseEpoch { expected: LeaseEpoch::new(7), actual: LeaseEpoch::new(6) }
    );
    assert_eq!(router.meter().events().len(), 1);
    assert_eq!(router.tracer().spans().len(), 1);
    let event = &router.meter().events()[0];
    assert_eq!(event.device_ordinal, 3);
    assert_eq!(event.tokens, 0);
    assert_eq!(event.payload_bytes, 5);
    assert_eq!(router.tracer().spans()[0].trace_context, None);
    assert_eq!(
        router.meter().snapshot(),
        MeteringSnapshot { frames: 1, payload_bytes: 5, tokens: 0, session_seconds: 0 }
    );
    router.meter_mut().record_frame(MeteringEvent {
        session_id: opened.session_id,
        stream_id: StreamId::new(2),
        seq: FrameSeq::new(0),
        lease_epoch: opened.lease_epoch,
        worker_id: "w".to_string(),
        device_ordinal: 3,
        model_id: "m".to_string(),
        payload_bytes: 1,
        tokens: 2,
        session_seconds: 3,
    });
    assert_eq!(
        router.meter().snapshot(),
        MeteringSnapshot { frames: 2, payload_bytes: 6, tokens: 2, session_seconds: 3 }
    );
    assert!(router.refresh_lease(fixed_session()).is_err());
}

#[test]
fn binding_fields_build_encode_and_decode_frames() {
    let frame = frame_from_view([7; 16], 9, 3, 11, SESSIONRPC_FRAME_DATA, true, 5, b"hello", b"00-aa-bb-00").unwrap();
    assert_eq!(frame.session_id().to_bytes(), [7; 16]);
    assert_eq!(frame.token_count(), Some(5));
    assert_eq!(frame.payload(), Some(Bytes::from_static(b"hello")));
    let ping = frame_from_view([1; 16], 1, 2, 3, SESSIONRPC_FRAME_PING, true, 5, b"ignored", b"").unwrap();
    assert_eq!(ping.token_count(), None);
    assert_eq!(ping.payload(), None);
    assert_eq!(frame_from_view([0; 16], 0, 0, 0, 5, false, 0, b"", b"").unwrap_err(), SessionRpcStatus::InvalidArgument);
    assert_eq!(frame_from_view([0; 16], 0, 0, 0, 0, false, 0, b"", &[0xc3]).unwrap_err(), SessionRpcStatus::InvalidArgument);
    let encoded = encode_view([7; 16], 9, 3, 11, SESSIONRPC_FRAME_DATA, true, 5, b"hello", b"00-aa-bb-00").unwrap();
    assert_eq!(decode_encoded(&encoded).unwrap(), frame);
    assert_eq!(decode_encoded(b"SRP").unwrap_err(), SessionRpcStatus::DecodeError);
}

#[test]
fn conformance_frames_are_distinct_and_self_identical() {
    let (first, second, reply) = conformance_frames(fixed_session());
    assert_eq!(first.payload(), Some(Bytes::from_static(b"client-first")));
    assert_eq!(second.seq(), FrameSeq::new(1));
    assert_eq!(reply.stream_id(), StreamId::new(2));
    assert!(same_frame(&first, &first.clone()));
    assert!(!same_frame(&first, &second));
    assert!(!same_frame(&first, &first.clone().with_trace_context(TraceContext::new("t"))));
}

#[test]
fn default_sinks_start_empty() {
    assert_eq!(
        MeteringSnapshot::default(),
        MeteringSnapshot { frames: 0, payload_bytes: 0, tokens: 0, session_seconds: 0 }
    );
    assert!(InMemoryMeter::default().events().is_empty());
    assert_eq!(InMemoryMeter::default().snapshot(), MeteringSnapshot::default());
    assert!(InMemoryFrameTracer::default().spans().is_empty());
}

#[test]
fn fresh_session_ids_are_version_four_uuids() {
    for id in [SessionId::new(), SessionId::default()] {
        let value = id.get();
        assert_eq!((value >> 76) & 0xf, 4);
        assert_eq!((value >> 62) & 0x3, 2);
        let text = id.to_string();
        assert_eq!(text.len(), 36);
        assert_eq!(&text[14..15], "4");
    }
    assert_ne!(SessionId::new(), SessionId::new());
}

#[test]
fn lease_epochs_order_by_number_and_client_ids_compare_by_text() {
    assert!(LeaseEpoch::new(3) < LeaseEpoch::new(4));
    assert!(!(LeaseEpoch::new(4) < LeaseEpoch::new(4)));
    assert!(LeaseEpoch::new(9) > LeaseEpoch::new(2));
    assert_eq!(LeaseEpoch::new(7), LeaseEpoch::new(7));
    assert_eq!(ClientId::new("tab-1"), ClientId::new("tab-1"));
    assert_ne!(ClientId::new("tab-1"), ClientId::new("tab-2"));
    assert_eq!(ClientId::new("tab-1").as_str(), "tab-1");
}

#[test]
fn dns_label_fragments_are_hyphen_joined_lowercase_runs() {
    for (input, expected) in [
        ("--Worker__A--", "worker-a"),
        ("GPU.node.07", "gpu-node-07"),
        ("a", "a"),
        ("!!!", "worker"),
        ("", "worker"),
    ] {
        let fragment = dns_label_fragment(input);
        assert_eq!(fragment, expected);
        assert!(!fragment.starts_with('-') && !fragment.ends_with('-'));
        assert!(!fragment.contains("--"));
        assert!(fragment.chars().all(|c| c.is_ascii_lowercase() || c.is_ascii_digit() || c == '-'));
    }
}

#[test]
fn stream_cursor_counts_accepted_frames() {
    let mut registry = SessionRegistry::default();
    let opened = registry.open_session(ClientId::new("c"), GpuLease::new("w", 0, "m", 5));
    let frame = |stream: u64, seq: u64, epoch: u64| {
        Frame::data(opened.session_id, StreamId::new(stream), FrameSeq::new(seq), LeaseEpoch::new(epoch), Bytes::from_static(b"x"))
    };
    assert!(registry.accept_frame(frame(1, 0, 5)).is_ok());
    assert!(registry.accept_frame(frame(1, 0, 5)).is_err());
    assert!(registry.accept_frame(frame(1, 1, 4)).is_err());
    assert!(registry.accept_frame(frame(2, 0, 5)).is_ok());
    assert!(registry.accept_frame(frame(1, 1, 5)).is_ok());
    assert!(registry.accept_frame(frame(1, 5, 5)).is_err());
    let resumed = registry.resume_session(opened.session_id, ClientId::new("c")).unwrap();
    assert_eq!(resumed.next_inbound_seq(StreamId::new(1)), FrameSeq::new(2));
    assert_eq!(resumed.next_inbound_seq(StreamId::new(2)), FrameSeq::new(1));
    assert_eq!(resumed.next_inbound_seq(StreamId::new(3)), FrameSeq::new(0));
}

#[test]
fn refresh_through_the_router_takes_the_schedulers_next_lease() {
    let scheduler = StaticGpuScheduler::new(vec![
        GpuLease::new("worker-a", 0, "m", 11),
        GpuLease::new("other", 2, "n", 30),
        GpuLease::new("worker-b", 1, "m", 12),
    ]);
    let mut router = SessionRouter::new(scheduler, 1024);
    let opened = router.open(ClientId::new("c"), PlacementRequest::new("m")).unwrap();
    assert_eq!(opened.lease.worker_id, "worker-a");
    let refreshed = router.refresh_lease(opened.session_id).unwrap();
    assert_eq!(refreshed.lease.worker_id, "worker-b");
    assert_eq!(refreshed.lease_epoch, LeaseEpoch::new(12));
    let again = router.refresh_lease(opened.session_id).unwrap();
    assert_eq!(again.lease.worker_id, "worker-a");
    assert_eq!(
        router.open(ClientId::new("c"), PlacementRequest::new("absent")).unwrap_err(),
        SessionRpcError::PlacementUnavailable { model_id: "absent".to_string() }
    );
}

#[test]
fn uuid_text_orders_as_the_values_do() {
    let ids = [
        0x0fff_ffff_ffff_ffff_ffff_ffff_ffff_ffffu128,
        0x9000_0000_0000_0000_0000_0000_0000_0000u128,
        0x9000_0000_0000_0000_0000_0000_0000_000au128,
        0xa000_0000_0000_0000_0000_0000_0000_0000u128,
    ];
    for pair in ids.windows(2) {
        let a = SessionId::from_value(pair[0]).to_string();
        let b = SessionId::from_value(pair[1]).to_string();
        assert!(a < b, "{a} should sort before {b}");
    }
}

#[test]
fn frame_fields_describe_the_frame() {
    let frame = Frame::data_with_tokens(fixed_session(), StreamId::new(4), FrameSeq::new(5), LeaseEpoch::new(6), Bytes::from_static(b"abc"), 9)
        .with_trace_context(TraceContext::new("tp"));
    let fields = frame_fields(&frame);
    assert_eq!(fields.session_id, fixed_session().to_bytes());
    assert_eq!((fields.stream_id, fields.seq, fields.lease_epoch, fields.kind), (4, 5, 6, SESSIONRPC_FRAME_DATA));
    assert_eq!(fields.payload, b"abc".to_vec());
    assert!(fields.has_token_count);
    assert_eq!(fields.token_count, 9);
    assert_eq!(fields.trace_context, b"tp".to_vec());
    let rebuilt = frame_from_view(
        fields.session_id, fields.stream_id, fields.seq, fields.lease_epoch, fields.kind,
        fields.has_token_count, fields.token_count, &fields.payload, &fields.trace_context,
    )
    .unwrap();
    assert_eq!(rebuilt, frame);

    let ping = Frame::control(fixed_session(), StreamId::new(1), FrameSeq::new(0), LeaseEpoch::new(1), FrameKind::Ping);
    let fields = frame_fields(&ping);
    assert_eq!(fields.kind, SESSIONRPC_FRAME_PING);
    assert!(fields.payload.is_empty() && fields.trace_context.is_empty() && !fields.has_token_count);
    assert_eq!(fields.token_count, 0);
}
