use std::collections::{BTreeMap, VecDeque};

use hart_link::device::{
    CatalogLimits, CatalogLoadError, DataSchema, DeviceCatalog, DeviceKey, DeviceProfile,
    DynamicValue, EnumChoice, FieldKind, FieldSpec, ResponseCodeDefinition, ResponseCodeStatus,
    SchemaError,
};
use hart_link::ip::{
    ExchangeStep, IoFailure, IpError, IpPacket, IpSession, IpTimeouts, MessageId, MessageType,
    PendingExchange, ReceivePlan, ReceivedBytes, SessionOptions, MAXIMUM_IP_BODY_BYTES,
    MAXIMUM_IP_PUBLISHED_BYTES, MAXIMUM_IP_PUBLISHED_PACKETS, MAXIMUM_IP_UNMATCHED_PACKETS,
    PROTOCOL_VERSION_1,
};
use hart_link::mesh::{
    Cell, CellDirection, DeviceId, JoinDecision, JoinRequest, KeyMaterial, LinkHealth, MeshGraph,
    MeshManager, NetworkId, NodeState, ReplayWindow, Schedule,
};
use hart_link::{CommandCode, Duration, Float32};

fn float(value: f32) -> Float32 {
    Float32::from_bits(value.to_bits())
}

#[test]
fn dynamic_schema_preserves_unknown_enum_and_tail() {
    let schema = DataSchema {
        fields: vec![
            FieldSpec {
                name: "mode".into(),
                field_type: FieldKind::Enum8 {
                    choices: vec![EnumChoice { value: 1, name: "enabled".into() }],
                },
            },
            FieldSpec { name: "value".into(), field_type: FieldKind::F32 },
        ],
        preserve_tail: true,
    };
    let mut bytes = vec![99];
    bytes.extend_from_slice(&42.5f32.to_be_bytes());
    bytes.extend_from_slice(&[0xaa, 0xbb]);
    let record = schema.decode(&bytes).unwrap();
    assert_eq!(
        record.get("mode").unwrap(),
        &DynamicValue::Enumeration { code: 99, name: None }
    );
    assert_eq!(record.get("value").unwrap(), &DynamicValue::Float(float(42.5)));
    assert_eq!(record.tail, vec![0xaa, 0xbb]);
}

#[test]
fn device_catalog_requires_an_exact_valid_revision() {
    let profile = DeviceProfile {
        key: DeviceKey { expanded_type: 0x1234, device_revision: 2 },
        display_name: "example".into(),
        source_revision: "1.0".into(),
        responses: BTreeMap::new(),
        response_codes: [(
            1,
            [(
                8,
                ResponseCodeDefinition {
                    status: ResponseCodeStatus::Warning,
                    description: "value was not updated".into(),
                },
            )]
            .into(),
        )]
        .into(),
    };
    let mut catalog = DeviceCatalog::new();
    catalog.insert(profile).unwrap();
    let profile = catalog
        .resolve(DeviceKey { expanded_type: 0x1234, device_revision: 2 })
        .unwrap();
    assert_eq!(profile.warning_codes(CommandCode::new(1)), [8]);
    assert!(catalog
        .resolve(DeviceKey { expanded_type: 0x1234, device_revision: 2 })
        .is_some());
    assert!(catalog
        .resolve(DeviceKey { expanded_type: 0x1234, device_revision: 3 })
        .is_none());
}

#[test]
fn device_schema_and_catalog_reject_resource_amplification() {
    let schema = DataSchema {
        fields: vec![FieldSpec {
            name: "empty".into(),
            field_type: FieldKind::Bytes { length: 0 },
        }],
        preserve_tail: false,
    };
    assert!(matches!(schema.validate(), Err(SchemaError::ZeroLengthField(_))));

    let mut catalog =
        DeviceCatalog::with_limits(CatalogLimits { profiles: 1, json_bytes: 64 }).unwrap();
    assert!(matches!(
        catalog.load_json(&[b' '; 65], Err("unread".into())),
        Err(CatalogLoadError::JsonLimit { .. })
    ));
}

#[test]
fn hart_ip_packet_round_trip_and_limits() {
    let packet = IpPacket {
        version: PROTOCOL_VERSION_1,
        message_type: MessageType::Request,
        message_id: 7,
        status: 0,
        sequence: 123,
        body: vec![1, 2, 3, 4],
    };
    let encoded = packet.encode().unwrap();
    assert_eq!(IpPacket::decode(&encoded, 64).unwrap(), packet);
    assert!(IpPacket::decode(&encoded, 2).is_err());
    let mut reserved = encoded;
    reserved[1] |= 0x10;
    assert!(matches!(
        IpPacket::decode(&reserved, 64),
        Err(IpError::ReservedMessageBits(0x10))
    ));
}

#[test]
fn hart_ip_session_clamps_resource_limits() {
    let session = IpSession::new(())
        .with_maximum_body(usize::MAX)
        .with_maximum_published(usize::MAX)
        .with_maximum_published_bytes(usize::MAX)
        .with_maximum_unmatched(usize::MAX);
    assert_eq!(session.maximum_body(), MAXIMUM_IP_BODY_BYTES);
    assert_eq!(session.maximum_published(), MAXIMUM_IP_PUBLISHED_PACKETS);
    assert_eq!(session.maximum_published_bytes(), MAXIMUM_IP_PUBLISHED_BYTES);
    assert_eq!(session.maximum_unmatched(), MAXIMUM_IP_UNMATCHED_PACKETS);
    assert!(IpSession::new(())
        .with_timeouts(IpTimeouts {
            io: Duration::maximum(),
            exchange: Duration::from_secs(1),
        })
        .is_err());
}

/// Bytes that the peer wrote, and bytes that the session wrote.
struct Pipe {
    incoming: VecDeque<u8>,
    outgoing: Vec<u8>,
}

impl Pipe {
    fn holding(bytes: &[u8]) -> Pipe {
        Pipe { incoming: bytes.iter().copied().collect(), outgoing: Vec::new() }
    }

    fn take(&mut self, count: usize) -> Option<Vec<u8>> {
        if self.incoming.len() < count {
            return None;
        }
        Some(self.incoming.drain(..count).collect())
    }
}

/// Reads one packet as a session over a stream does; an empty stream runs into
/// the deadline.
fn receive(session: &mut IpSession<Pipe>) -> Result<IpPacket, IpError> {
    session.prepare_receive()?;
    let Some(header) = session.stream_mut().take(8) else {
        return session.finish_receive(ReceivedBytes::Failed(IoFailure::Deadline));
    };
    let header: [u8; 8] = header.try_into().unwrap();
    let received = match session.plan_receive(header) {
        ReceivePlan::Body(length) => {
            let body = session.stream_mut().take(length).unwrap();
            let mut bytes = header.to_vec();
            bytes.extend(body);
            ReceivedBytes::Packet(bytes)
        }
        ReceivePlan::Discard(length) => {
            session.stream_mut().take(length).unwrap();
            ReceivedBytes::Discarded(length)
        }
        ReceivePlan::Reject(error) => ReceivedBytes::Rejected(error),
    };
    session.finish_receive(received)
}

/// Sends a request, lets the peer answer it and waits for the response.
fn exchange(
    session: &mut IpSession<Pipe>,
    message_id: u8,
    body: &[u8],
    answer: impl FnOnce(IpPacket) -> Vec<IpPacket>,
) -> Result<IpPacket, IpError> {
    let bytes = session.prepare_send(MessageType::Request, message_id, body)?;
    session.stream_mut().outgoing.extend_from_slice(&bytes);
    let sequence = session.finish_send(Ok(()))?;
    for packet in answer(IpPacket::decode(&bytes, 1024).unwrap()) {
        let encoded = packet.encode().unwrap();
        session.stream_mut().incoming.extend(encoded);
    }
    let mut pending = PendingExchange { sequence, message_id, unmatched: 0 };
    loop {
        let packet = receive(session)?;
        match session.advance(&mut pending, packet) {
            ExchangeStep::Continue => {}
            ExchangeStep::Done(result) => return result,
        }
    }
}

fn response_to(request: &IpPacket, sequence: u16, body: Vec<u8>) -> IpPacket {
    IpPacket {
        version: PROTOCOL_VERSION_1,
        message_type: MessageType::Response,
        message_id: request.message_id,
        status: 0,
        sequence,
        body,
    }
}

#[test]
fn hart_ip_invalid_declared_length_poisoned_stream_framing() {
    let pipe = Pipe::holding(&[PROTOCOL_VERSION_1, 1, 3, 0, 0, 1, 0, 4]);
    let mut session = IpSession::new(pipe);
    assert!(matches!(
        receive(&mut session),
        Err(IpError::PacketLength { declared: 4, .. })
    ));
    assert!(!session.is_usable());
    assert!(matches!(receive(&mut session), Err(IpError::StreamUnusable)));
}

#[test]
fn hart_ip_oversized_body_is_drained_before_the_next_packet() {
    let mut bytes = Vec::new();
    for body in [vec![1, 2, 3], vec![4, 5]] {
        bytes.extend(
            IpPacket {
                version: PROTOCOL_VERSION_1,
                message_type: MessageType::Response,
                message_id: 3,
                status: 0,
                sequence: 1,
                body,
            }
            .encode()
            .unwrap(),
        );
    }
    let mut session = IpSession::new(Pipe::holding(&bytes)).with_maximum_body(2);
    assert!(matches!(receive(&mut session), Err(IpError::BodyLimit(3))));
    assert_eq!(receive(&mut session).unwrap().body, [4, 5]);
}

#[test]
fn hart_ip_direct_reads_have_a_real_timeout() {
    let mut session = IpSession::new(Pipe::holding(&[]))
        .with_timeouts(IpTimeouts {
            io: Duration::from_millis(5),
            exchange: Duration::from_millis(10),
        })
        .unwrap();
    assert!(matches!(receive(&mut session), Err(IpError::Timeout("read"))));
    assert!(!session.is_usable());
    assert!(matches!(receive(&mut session), Err(IpError::StreamUnusable)));
}

#[test]
fn hart_ip_session_opens_correlates_publish_and_closes() {
    let mut session = IpSession::new(Pipe::holding(&[]));
    let body = session.prepare_open(SessionOptions::default()).unwrap();
    let opened = exchange(&mut session, MessageId::SessionInitiate.code(), &body, |open| {
        assert_eq!(open.message_type, MessageType::Request);
        assert_eq!(open.message_id, u8::from(MessageId::SessionInitiate));
        assert_eq!(open.body, [1, 0, 0, 0xea, 0x60]);
        vec![response_to(&open, open.sequence, vec![0xaa])]
    });
    session.finish_open(opened).unwrap();
    assert!(session.is_open());

    session.prepare_request().unwrap();
    let response = exchange(
        &mut session,
        MessageId::TokenPassingPdu.code(),
        &[1, 2, 3],
        |request| {
            assert_eq!(request.message_id, u8::from(MessageId::TokenPassingPdu));
            assert_eq!(request.body, [1, 2, 3]);
            vec![
                response_to(&request, request.sequence.wrapping_sub(1), vec![0xba, 0xd0]),
                IpPacket {
                    version: PROTOCOL_VERSION_1,
                    message_type: MessageType::Publish,
                    message_id: request.message_id,
                    status: 0,
                    sequence: request.sequence,
                    body: vec![0xde, 0xad],
                },
                response_to(&request, request.sequence, vec![0xbe, 0xef]),
            ]
        },
    )
    .unwrap();
    assert_eq!(response.body, [0xbe, 0xef]);
    assert_eq!(session.snapshot().published_queued, 1);
    assert_eq!(session.snapshot().unmatched_skipped, 1);
    assert_eq!(session.take_published().unwrap().body, [0xde, 0xad]);

    session.prepare_request().unwrap();
    let closed = exchange(&mut session, MessageId::SessionClose.code(), &[], |close| {
        assert_eq!(close.message_id, u8::from(MessageId::SessionClose));
        vec![response_to(&close, close.sequence, vec![])]
    });
    session.finish_close(closed).unwrap();
    assert!(!session.is_open());
}

#[test]
fn mesh_route_and_schedule_reject_invalid_topology() {
    let a = DeviceId([1; 8]);
    let b = DeviceId([2; 8]);
    let c = DeviceId([3; 8]);
    let mut graph = MeshGraph::default();
    for (id, nickname) in [(a, 1), (b, 2), (c, 3)] {
        graph.upsert_node(NodeState { id, nickname, active: true });
    }
    graph.update_link(
        a,
        b,
        LinkHealth { rssi_dbm: -70, reliability: float(0.99), age_seconds: 0 },
    );
    graph.update_link(
        b,
        c,
        LinkHealth { rssi_dbm: -72, reliability: float(0.98), age_seconds: 0 },
    );
    assert_eq!(graph.route(a, c, float(0.9)).unwrap().hops, vec![a, b, c]);
    graph.upsert_node(NodeState { id: b, nickname: 2, active: false });
    assert!(graph.route(a, c, float(0.9)).is_none());
    graph.upsert_node(NodeState { id: b, nickname: 2, active: true });
    assert!(!graph.update_link(
        a,
        c,
        LinkHealth { rssi_dbm: -70, reliability: float(f32::NAN), age_seconds: 0 },
    ));

    let mut schedule = Schedule::new(10).unwrap();
    schedule
        .insert(Cell {
            timeslot: 1,
            channel_offset: 3,
            source: a,
            destination: b,
            direction: CellDirection::Transmit,
        })
        .unwrap();
    assert!(schedule
        .insert(Cell {
            timeslot: 1,
            channel_offset: 4,
            source: b,
            destination: c,
            direction: CellDirection::Transmit,
        })
        .is_err());
    assert!(schedule
        .insert(Cell {
            timeslot: 1,
            channel_offset: 3,
            source: c,
            destination: DeviceId([4; 8]),
            direction: CellDirection::Transmit,
        })
        .is_err());
}

#[test]
fn mesh_join_authentication_and_replay_state_are_explicit() {
    let a = DeviceId([1; 8]);
    let mut replay = ReplayWindow::default();
    replay.accept(100).unwrap();
    assert!(replay.accept(100).is_err());
    replay.accept(101).unwrap();

    let mut manager = MeshManager::new(NetworkId(10), 20).unwrap();
    let mut source_key = [9; 16];
    let key = KeyMaterial::new_and_zeroize(&mut source_key);
    assert_eq!(source_key, [0; 16]);
    assert_eq!(key.description(), "KeyMaterial([redacted])");
    manager.allow(a, key);
    let rejected = manager
        .join_authenticated(
            JoinRequest { device: a, network: NetworkId(10), security_counter: 1 },
            |_, _| false,
        )
        .unwrap();
    assert_eq!(rejected, JoinDecision::AuthenticationFailed);
    let accepted = manager
        .join_authenticated(
            JoinRequest { device: a, network: NetworkId(10), security_counter: 1 },
            |_, key| key == &[9; 16],
        )
        .unwrap();
    assert!(matches!(accepted, JoinDecision::Accepted { .. }));
    manager
        .schedule_mut()
        .insert(Cell {
            timeslot: 1,
            channel_offset: 0,
            source: a,
            destination: DeviceId([2; 8]),
            direction: CellDirection::Transmit,
        })
        .unwrap();
    let rejoined = manager
        .join_authenticated(
            JoinRequest { device: a, network: NetworkId(10), security_counter: 2 },
            |_, key| key == &[9; 16],
        )
        .unwrap();
    assert_eq!(accepted, rejoined);

    manager.allow(a, KeyMaterial::new([8; 16]));
    assert_eq!(manager.snapshot().nodes, 0);
    assert_eq!(manager.snapshot().cells, 0);
    let old_key = manager
        .join_authenticated(
            JoinRequest { device: a, network: NetworkId(10), security_counter: 1 },
            |_, key| key == &[9; 16],
        )
        .unwrap();
    assert_eq!(old_key, JoinDecision::AuthenticationFailed);
    let fresh_join = manager
        .join_authenticated(
            JoinRequest { device: a, network: NetworkId(10), security_counter: 1 },
            |_, key| key == &[8; 16],
        )
        .unwrap();
    assert!(matches!(fresh_join, JoinDecision::Accepted { .. }));
    manager.revoke(a);
    assert_eq!(manager.snapshot().nodes, 0);
    assert_eq!(manager.snapshot().cells, 0);
}
