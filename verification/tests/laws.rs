use std::collections::BTreeMap;

use hart_link::device::{
    CatalogLimits, DataSchema, DeviceCatalog, DeviceKey, DeviceProfile, DynamicValue, FieldKind,
    FieldSpec,
};
use hart_link::emulator::{EmulatedDevice, EmulatedIdentity, FaultPlan, MemoryEndpoint};
use hart_link::ip::{IpPacket, MessageType, PROTOCOL_VERSION_1};
use hart_link::mesh::{
    Cell, CellDirection, DeviceId, JoinDecision, JoinRequest, KeyMaterial, LinkHealth, MeshGraph,
    MeshManager, MeshManagerError, NetworkId, NodeState, ReplayWindow, Schedule,
};
use hart_link::nonzero::NonZeroU8;
use hart_link::operation::{
    pack_text, unpack_text, DeviceIdentity, PayloadReader, PayloadWriter, ReadDeviceIdentity,
};
use hart_link::ordered::KeySet;
use hart_link::profile::{LineProfile, ModuleWindow, PollingWindow};
use hart_link::service::queue_set::{QueueCursor, QueueSet};
use hart_link::service::snapshot::SnapshotResults;
use hart_link::service::{
    discover_line_with_options, priority_queues, reconcile_devices, BlockReceiver, BlockSender,
    BurstConfig, BurstHub, BurstKey, BurstReceiveError, BurstSubscriptionError, Decisions, Delivery,
    DeviceSession, DiscoveryHints, DiscoveryOptions, DiscoveryStep, Exchange, ExchangeStep,
    KnownDevice, LinkBuilder, ManagedStart, NextJob, Plan, PlanExpectation, PlanReport, PlanStep,
    Publication, QueueConfig, QueueId, QueuePriority, QuickStep, RecoveryReport, RecoveryStatus,
    SessionError, TransferBlock, TransferError,
};
use hart_link::tool::{build, compare, decode_hex, encode_hex};
use hart_link::trace::{
    RecordingChannel, ReplayChannel, ReplayStep, Trace, TraceDirection, TraceLimits, TraceRecord,
};
use hart_link::verification::{
    run_campaign, CaseExpectation, VerificationCase, VerificationReport,
};
use hart_link::{
    command_descriptor, create_link, inspect_base64, inspect_bytes, inspect_hex, AdaptiveTiming,
    Address, ChecksumPolicy, CommandCode, CommandContext, CommandPolicy, DecodeEvent,
    DecodeLimits, DeviceHealthOptions, DeviceReply, DeviceSnapshot, Duration, ExchangeError, Float32, Frame,
    FrameDecoder, FrameKind, LinkConfig, LinkEvent, ManagedDeviceSession, ManagedSessionError,
    Master, Operation, OperationSafety, PhysicalLayer, Priority, QueueScheduling,
    Request, RetryCause, RetryPolicy, SnapshotField, SnapshotOptions,
};

fn address() -> Address {
    Address::polling(1, Master::Primary).unwrap()
}

fn float(value: f32) -> Float32 {
    Float32::from_bits(value.to_bits())
}

fn identity() -> DeviceIdentity {
    DeviceIdentity {
        response_identifier: 0xfe,
        manufacturer_id: 0x1234,
        device_type: 0x042a,
        request_preambles: 7,
        universal_revision: 7,
        device_revision: 3,
        software_revision: 4,
        hardware_revision: 5,
        physical_signaling: 1,
        flags: 1,
        device_id: 0x12_34_56,
        response_preambles: Some(5),
        maximum_device_variables: Some(8),
        configuration_change_counter: Some(12),
        extended_status: Some(0),
        private_label_distributor: Some(0),
        device_profile: Some(1),
        extension: Vec::new(),
    }
}

fn device() -> EmulatedDevice {
    EmulatedDevice {
        address: address(),
        identity: EmulatedIdentity {
            manufacturer_id: 0x1234,
            device_type: 0x042a,
            request_preambles: 7,
            universal_revision: 7,
            device_revision: 3,
            software_revision: 4,
            hardware_revision: 5,
            physical_signaling: 1,
            flags: 1,
            device_id: 0x12_34_56,
            response_preambles: 5,
            maximum_device_variables: 8,
            configuration_change_counter: 12,
            extended_status: 0,
            private_label_distributor: 0,
            device_profile: 1,
        },
        primary_unit: 57,
        primary_value: float(1.5),
        loop_current: float(4.0),
        percent: float(0.0),
        status: 0,
        additional_status: vec![],
    }
}

fn reply(command: u16, response_code: u8, data: Vec<u8>) -> DeviceReply {
    DeviceReply {
        address: address(),
        command: CommandCode::new(command),
        response_code,
        device_status: 0,
        data,
        burst: false,
        physical_layer: PhysicalLayer::Fsk,
        response_preambles: 5,
        frame_expansion: vec![],
    }
}

fn burst(command: u16, data: Vec<u8>) -> DeviceReply {
    DeviceReply { burst: true, ..reply(command, 0, data) }
}

#[test]
fn payload_values_come_back_in_the_order_of_writing() {
    let mut writer = PayloadWriter::new();
    writer.u8(0xfe);
    writer.u16(0x1234);
    writer.u24(0x56_78_9a).unwrap();
    writer.u32(0xdead_beef);
    writer.float32(float(-2.5));
    writer.bytes(&[7, 8]);
    let bytes = writer.finish();
    assert_eq!(
        bytes,
        [0xfe, 0x12, 0x34, 0x56, 0x78, 0x9a, 0xde, 0xad, 0xbe, 0xef, 0xc0, 0x20, 0, 0, 7, 8]
    );
    let mut reader = PayloadReader::new(&bytes);
    assert_eq!(reader.u8("a").unwrap(), 0xfe);
    assert_eq!(reader.u16("b").unwrap(), 0x1234);
    assert_eq!(reader.u24("c").unwrap(), 0x56_78_9a);
    assert_eq!(reader.u32("d").unwrap(), 0xdead_beef);
    assert_eq!(reader.float32("e").unwrap(), float(-2.5));
    assert_eq!(reader.bytes(2, "f").unwrap(), [7, 8]);
    reader.finish().unwrap();
}

#[test]
fn packed_text_drops_only_its_padding() {
    let packed = pack_text("HART LINK 7", 12).unwrap();
    assert_eq!(packed.len(), 12);
    assert_eq!(unpack_text(&packed), "HART LINK 7");
    assert_eq!(pack_text("AB", 3).unwrap(), [0x04, 0x28, 0x20]);
}

#[test]
fn an_address_is_read_back_from_its_frame() {
    for address in [
        Address::polling(63, Master::Secondary).unwrap(),
        Address::unique(0x2abc, 0xff_ee_dd, Master::Primary).unwrap(),
    ] {
        let frame = Frame {
            preambles: 3,
            kind: FrameKind::Response,
            physical_layer: PhysicalLayer::Fsk,
            address,
            expansion: vec![],
            wire_command: 9,
            payload: vec![0, 0, 1],
            repair: None,
        };
        let mut decoder = FrameDecoder::new(DecodeLimits::default());
        let events = decoder.push(&frame.encode().unwrap());
        assert!(matches!(&events[..], [DecodeEvent::Frame(found)] if *found == frame));
    }
}

#[test]
fn fragments_do_not_change_what_is_decoded() {
    let mut bytes = vec![0x12, 0xff, 0x34];
    for command in [1u8, 2, 3] {
        bytes.extend(Request::new(address(), command, vec![command]).to_frame().unwrap().encode().unwrap());
    }
    let mut whole = FrameDecoder::new(DecodeLimits::default());
    let expected = whole.push(&bytes);
    for size in 1..bytes.len() {
        let mut decoder = FrameDecoder::new(DecodeLimits::default());
        let mut events = Vec::new();
        for fragment in bytes.chunks(size) {
            events.extend(decoder.push(fragment));
        }
        assert_eq!(events, expected);
        assert_eq!(decoder.statistics(), whole.statistics());
    }
}

#[test]
fn the_stream_tail_never_outgrows_its_capacity() {
    let capacity = 64;
    let mut decoder = FrameDecoder::new(DecodeLimits {
        buffer_capacity: capacity,
        minimum_preambles: 1,
        checksum_policy: ChecksumPolicy::Strict,
    });
    let noise: Vec<u8> = (0..2000u32).map(|value| (value * 37 % 251) as u8 | 0x80).collect();
    for fragment in noise.chunks(17) {
        decoder.push(fragment);
        assert!(decoder.buffered_len() <= capacity);
    }
}

#[test]
fn a_preamble_byte_starts_no_frame() {
    let mut decoder = FrameDecoder::new(DecodeLimits::default());
    assert!(decoder.push(&[0xff; 40]).is_empty());
}

#[test]
fn an_encoded_request_is_inspected_with_its_logical_command() {
    for command in [0u16, 48, 254, 600] {
        let request = Request::new(address(), command, vec![1, 2, 3]);
        let report = inspect_bytes(&request.to_frame().unwrap().encode().unwrap()).unwrap();
        assert_eq!(report.command.get(), command);
        assert_eq!(report.address, address());
        assert_eq!(report.data_length, 3);
    }
}

#[test]
fn base64_text_is_decoded_before_inspection() {
    let bytes = Request::new(address(), 0u8, vec![]).to_frame().unwrap().encode().unwrap();
    assert_eq!(bytes, [0xff, 0xff, 0xff, 0xff, 0xff, 0x02, 0x81, 0x00, 0x00, 0x83]);
    let report = inspect_base64(" ///////wKBAACD\n").unwrap_err();
    assert_eq!(report.code, "base64");
    let report = inspect_base64(" //////8CgQAAgw==\n").unwrap();
    assert_eq!(report.command.get(), 0);
    assert_eq!(report.address, address());
    assert_eq!(inspect_base64("*").unwrap_err().code, "base64");
}

#[test]
fn hexadecimal_text_is_rendered_and_decoded() {
    let bytes: Vec<u8> = (0..=255).collect();
    assert_eq!(decode_hex(&encode_hex(&bytes)).unwrap(), bytes);
    assert_eq!(encode_hex(&[0x0a, 0xff, 0x00]), "0AFF00");
    assert_eq!(decode_hex(" 0a\tfF\n").unwrap(), [0x0a, 0xff]);
    assert_eq!(decode_hex("123").unwrap_err(), "odd number of hexadecimal digits");
    assert_eq!(decode_hex("00 1g").unwrap_err(), "invalid digit at 1");
    assert_eq!(decode_hex("x0").unwrap_err(), "invalid digit at 0");
}

#[test]
fn the_tool_builds_and_compares_frames() {
    let request = build(1, 1, "").unwrap();
    assert_eq!(request, "FFFFFFFFFF0281010082");
    let expanded = build(1, 600, "AA").unwrap();
    assert_eq!(inspect_hex(&expanded).unwrap().command.get(), 600);
    assert!(build(64, 1, "").unwrap_err().contains("64"));
    assert_eq!(build(1, 1, "0").unwrap_err(), "odd number of hexadecimal digits");
    assert!(build(1, 1, &"00".repeat(256)).is_err());
    let response = Frame {
        preambles: 5,
        kind: FrameKind::Response,
        physical_layer: PhysicalLayer::Fsk,
        address: address(),
        expansion: vec![],
        wire_command: 2,
        payload: vec![0, 0],
        repair: None,
    }
    .encode()
    .unwrap();
    let report = compare(&request, &encode_hex(&response)).unwrap();
    assert!(report.address_matches);
    assert!(!report.command_matches);
    assert_eq!(compare("zz", &request).unwrap_err(), "invalid digit at 0");
}

#[test]
fn a_packet_decodes_to_what_was_encoded() {
    let bytes = IpPacket {
        version: PROTOCOL_VERSION_1,
        message_type: MessageType::Publish,
        message_id: 3,
        status: 9,
        sequence: 0x0102,
        body: vec![5, 6],
    }
    .encode()
    .unwrap();
    assert_eq!(bytes, [1, 2, 3, 9, 1, 2, 0, 10, 5, 6]);
    assert_eq!(IpPacket::decode(&bytes, 2).unwrap().encode().unwrap(), bytes);
}

#[test]
fn no_counter_is_accepted_twice() {
    let mut window = ReplayWindow::default();
    let counters = [5u32, 9, 7, 6, 40, 8, 39];
    for counter in counters {
        window.accept(counter).unwrap();
        assert!(window.highest().unwrap() >= counter);
    }
    for counter in counters {
        assert!(window.accept(counter).is_err());
    }
    assert_eq!(window.highest(), Some(40));
}

fn join(counter: u32) -> JoinRequest {
    JoinRequest { device: DeviceId([1; 8]), network: NetworkId(10), security_counter: counter }
}

#[test]
fn a_join_is_not_replayed_and_a_failed_one_leaves_no_trace() {
    let mut manager = MeshManager::new(NetworkId(10), 20).unwrap();
    manager.allow(DeviceId([1; 8]), KeyMaterial::new([9; 16]));
    assert_eq!(
        manager.join_with_verdict(join(4), false).unwrap(),
        JoinDecision::AuthenticationFailed
    );
    assert_eq!(manager.snapshot().nodes, 0);
    assert!(matches!(
        manager.join_with_verdict(join(4), true).unwrap(),
        JoinDecision::Accepted { .. }
    ));
    assert!(manager.join_with_verdict(join(4), true).is_err());
    manager.revoke(DeviceId([1; 8]));
    assert_eq!(manager.snapshot().nodes, 0);
    assert!(!matches!(
        manager.join_with_verdict(join(5), true),
        Ok(JoinDecision::Accepted { .. })
    ));
}

#[test]
fn short_addresses_are_given_once() {
    let mut manager = MeshManager::new(NetworkId(10), 20).unwrap();
    let request = |device: u8, counter: u32| JoinRequest {
        device: DeviceId([device; 8]),
        network: NetworkId(10),
        security_counter: counter,
    };
    for device in 1..4u8 {
        manager.allow(DeviceId([device; 8]), KeyMaterial::new([device; 16]));
        assert_eq!(
            manager.join_with_verdict(request(device, 1), true).unwrap(),
            JoinDecision::Accepted { nickname: device as u16 }
        );
        assert_eq!(
            manager.join_with_verdict(request(device, 2), true).unwrap(),
            JoinDecision::Accepted { nickname: device as u16 }
        );
        assert!(manager.join_with_verdict(request(device, 2), true).is_err());
    }
    manager.revoke(DeviceId([2; 8]));
    manager.allow(DeviceId([2; 8]), KeyMaterial::new([2; 16]));
    assert_eq!(
        manager.join_with_verdict(request(2, 1), true).unwrap(),
        JoinDecision::Accepted { nickname: 4 }
    );
    let mut counter = 1u32;
    for nickname in 5..=u16::MAX {
        manager.revoke(DeviceId([3; 8]));
        manager.allow(DeviceId([3; 8]), KeyMaterial::new([3; 16]));
        counter += 1;
        assert_eq!(
            manager.join_with_verdict(request(3, counter), true).unwrap(),
            JoinDecision::Accepted { nickname }
        );
    }
    manager.allow(DeviceId([9; 8]), KeyMaterial::new([9; 16]));
    assert!(matches!(
        manager.join_with_verdict(request(9, 1), true),
        Err(MeshManagerError::AddressSpace)
    ));
    assert_eq!(
        manager.join_with_verdict(request(1, 3), true).unwrap(),
        JoinDecision::Accepted { nickname: 1 }
    );
}

#[test]
fn a_summary_counts_active_nodes() {
    let mut manager = MeshManager::new(NetworkId(10), 20).unwrap();
    let node = |id: u8, active: bool| NodeState {
        id: DeviceId([id; 8]),
        nickname: id as u16,
        active,
    };
    manager.graph_mut().upsert_node(node(1, false));
    assert_eq!(manager.snapshot().nodes, 0);
    assert_eq!(manager.snapshot().links, 0);
    assert_eq!(manager.snapshot().cells, 0);
    manager.graph_mut().upsert_node(node(2, true));
    manager.graph_mut().upsert_node(node(3, true));
    assert_eq!(manager.snapshot().nodes, 2);
}

#[test]
fn a_removed_device_has_no_cells() {
    let mut schedule = Schedule::new(8).unwrap();
    for timeslot in 0..4 {
        schedule
            .insert(Cell {
                timeslot,
                channel_offset: 1,
                source: DeviceId([timeslot as u8; 8]),
                destination: DeviceId([7; 8]),
                direction: CellDirection::Transmit,
            })
            .unwrap();
    }
    assert_eq!(schedule.remove_device(DeviceId([2; 8])), 1);
    assert_eq!(schedule.cells().len(), 3);
    assert_eq!(schedule.remove_device(DeviceId([7; 8])), 3);
    assert!(schedule.cells().is_empty());
}

#[test]
fn the_shortest_path_is_found_in_the_order_of_identifiers() {
    let id = |number: u8| DeviceId([number; 8]);
    let mut graph = MeshGraph::default();
    for number in 1..=5 {
        graph.upsert_node(NodeState { id: id(number), nickname: u16::from(number), active: true });
    }
    let health = |reliability: f32| LinkHealth {
        rssi_dbm: -60,
        reliability: float(reliability),
        age_seconds: 0,
    };
    for (left, right) in [(1, 3), (3, 5), (1, 2), (2, 5), (1, 4), (4, 5)] {
        assert!(graph.update_link(id(left), id(right), health(0.9)));
    }
    let route = graph.route(id(1), id(5), float(0.5)).unwrap();
    assert_eq!(route.hops, vec![id(1), id(2), id(5)]);
    assert!(graph.route(id(1), id(5), float(0.95)).is_none());
    graph.remove_node(id(2));
    assert_eq!(graph.link_count(), 4);
    assert_eq!(
        graph.route(id(1), id(5), float(0.5)).unwrap().hops,
        vec![id(1), id(3), id(5)]
    );
}

#[test]
fn modules_of_a_valid_profile_reach_different_addresses() {
    let profile = LineProfile::new("pair".into())
        .with_module(ModuleWindow::new(1, PollingWindow::new(0, 3).unwrap()))
        .with_module(
            ModuleWindow::new(2, PollingWindow::new(0, 3).unwrap()).with_address_shift(4),
        );
    profile.validate().unwrap();
    assert_eq!(LineProfile::shifted_address(profile.modules[0], 3), Some(3));
    assert_eq!(LineProfile::shifted_address(profile.modules[1], 0), Some(4));
}

#[test]
fn a_recording_keeps_both_directions_byte_for_byte() {
    let mut channel = RecordingChannel::with_limits(
        ReplayChannel::new(vec![
            ReplayStep::Expect(vec![1, 2]),
            ReplayStep::Provide(vec![3, 4, 5]),
        ])
        .unwrap(),
        TraceLimits::default(),
    );
    channel.inner_mut().send(&[1, 2]).unwrap();
    channel.sent(Duration::from_micros(7), &[1, 2]);
    let bytes = channel.inner_mut().receive(8).unwrap();
    let count = channel.received(Duration::from_micros(9), &bytes, bytes.len()).unwrap();
    assert_eq!(count, 3);
    assert!(channel.inner_mut().is_complete());
    let records = channel.trace().records();
    assert_eq!(records.len(), 2);
    assert_eq!(records[0].direction, TraceDirection::Outbound);
    assert_eq!(records[0].bytes, [1, 2]);
    assert_eq!(records[1].direction, TraceDirection::Inbound);
    assert_eq!(records[1].bytes, [3, 4, 5]);
    assert!(channel.received(Duration::zero(), &[1], 2).is_err());
}

#[test]
fn every_recorded_byte_is_kept_or_counted() {
    let mut trace = Trace::with_limits(TraceLimits { maximum_records: 3, maximum_bytes: 10 });
    let mut total = 0u64;
    for length in [4usize, 4, 4, 11, 1, 1, 1, 1] {
        total += length as u64;
        trace.push(TraceRecord {
            direction: TraceDirection::Inbound,
            timestamp: Duration::zero(),
            bytes: vec![0; length],
        });
        assert!(trace.records().len() <= 3);
        assert!(trace.retained_bytes() <= 10);
        assert_eq!(trace.retained_bytes() as u64 + trace.dropped_bytes(), total);
    }
}

#[test]
fn a_capture_file_holds_whole_blocks() {
    let mut trace = Trace::new(4);
    trace.record(TraceDirection::Outbound, Duration::from_secs(1), &[1, 2, 3]);
    let file = trace.to_pcapng();
    let mut position = 0;
    let mut blocks = 0;
    while position < file.len() {
        let length =
            u32::from_le_bytes(file[position + 4..position + 8].try_into().unwrap()) as usize;
        assert_eq!(length % 4, 0);
        assert_eq!(
            &file[position + length - 4..position + length],
            &(length as u32).to_le_bytes()
        );
        position += length;
        blocks += 1;
    }
    assert_eq!(position, file.len());
    assert_eq!(blocks, 3);
}

#[test]
fn chunks_join_to_the_transmitted_bytes() {
    let mut endpoint = MemoryEndpoint::default();
    endpoint.set_faults(FaultPlan::default().with_fragment_size(3));
    let sent: Vec<u8> = (0..10).collect();
    let transmission = endpoint.transmit(&sent).unwrap();
    assert_eq!(transmission.fragments.len(), 4);
    assert_eq!(transmission.fragments.concat(), sent);
    assert!(transmission.echo.is_none());
    endpoint.set_faults(FaultPlan::default());
    assert_eq!(endpoint.transmit(&sent).unwrap().fragments, vec![sent]);
}

#[test]
fn an_emulated_identity_decodes_to_an_accepted_address() {
    let device = device();
    let request = ReadDeviceIdentity.request(address()).unwrap();
    let event = DecodeEvent::Frame(request.to_frame().unwrap());
    let bytes = device.serve(&event).unwrap().unwrap();
    let mut decoder = FrameDecoder::new(DecodeLimits::default());
    let frame = match decoder.push(&bytes).pop().unwrap() {
        DecodeEvent::Frame(frame) => frame,
        DecodeEvent::Rejected(error) => panic!("{:?}", error),
    };
    let found =
        ReadDeviceIdentity.decode_reply(&DeviceReply::from_frame(frame).unwrap()).unwrap();
    assert_eq!(found, identity());
    let unique = found.unique_address(Master::Primary).unwrap();
    let request = Request::new(unique, 1u8, vec![]).to_frame().unwrap();
    assert!(device.serve(&DecodeEvent::Frame(request)).unwrap().is_some());
    let other = Request::new(Address::polling(2, Master::Primary).unwrap(), 1u8, vec![]);
    assert!(device.serve(&DecodeEvent::Frame(other.to_frame().unwrap())).unwrap().is_none());
}

fn queues(layout: &[(u16, QueuePriority)]) -> QueueSet<u32> {
    let configs: Vec<QueueConfig> = layout
        .iter()
        .map(|(id, priority)| QueueConfig::new(QueueId::new(*id), 16, *priority).unwrap())
        .collect();
    QueueSet::new(&configs)
}

fn popped(set: &mut QueueSet<u32>) -> Vec<u32> {
    let mut cursor = QueueCursor::new();
    let mut items = Vec::new();
    while let Some((queue, item)) = set.pop_scheduled(&mut cursor) {
        set.finish_entry(queue);
        items.push(item);
    }
    items
}

#[test]
fn a_strict_queue_goes_before_weighted_queues() {
    let mut set = queues(&[
        (0, QueuePriority::weighted(2).unwrap()),
        (1, QueuePriority::strict(1)),
        (2, QueuePriority::strict(9)),
    ]);
    for item in 0..2 {
        set.try_push(QueueId::new(0), item).unwrap();
        set.try_push(QueueId::new(1), 10 + item).unwrap();
        set.try_push(QueueId::new(2), 20 + item).unwrap();
    }
    assert_eq!(popped(&mut set)[2..], [10, 11, 0, 1][..]);
}

#[test]
fn equal_ranks_take_turns() {
    let mut set = queues(&[(0, QueuePriority::strict(3)), (1, QueuePriority::strict(3))]);
    for item in 0..3 {
        set.try_push(QueueId::new(0), item).unwrap();
        set.try_push(QueueId::new(1), 10 + item).unwrap();
    }
    let items = popped(&mut set);
    let from_first: Vec<bool> = items.iter().map(|item| *item < 10).collect();
    for pair in from_first.windows(2) {
        assert_ne!(pair[0], pair[1]);
    }
}

#[test]
fn weighted_queues_share_and_do_not_starve() {
    let mut set = queues(&[
        (0, QueuePriority::weighted(3).unwrap()),
        (1, QueuePriority::weighted(1).unwrap()),
    ]);
    for item in 0..9 {
        set.try_push(QueueId::new(0), item).unwrap();
    }
    for item in 0..3 {
        set.try_push(QueueId::new(1), 10 + item).unwrap();
    }
    let items = popped(&mut set);
    assert_eq!(items.iter().take(4).filter(|item| **item >= 10).count(), 1);
    assert_eq!(items.iter().take(8).filter(|item| **item >= 10).count(), 2);
}

#[test]
fn a_repeated_publication_is_discarded_until_its_key_is_reset() {
    let mut hub = BurstHub::default();
    let key = BurstKey::new(address(), CommandCode::new(1));
    let mut subscription = hub.subscribe(key, 4).unwrap();
    let now = Duration::zero();
    assert!(matches!(
        hub.try_publish(burst(1, vec![1]), now, now),
        Ok(Publication::Deliveries(_))
    ));
    assert!(matches!(
        hub.try_publish(burst(1, vec![1]), now, now),
        Ok(Publication::Duplicate)
    ));
    hub.reset_key(key);
    assert!(matches!(
        hub.try_publish(burst(1, vec![1]), now, now),
        Ok(Publication::Deliveries(_))
    ));
    assert_eq!(subscription.try_receive().unwrap().reply.data, [1]);
    assert_eq!(subscription.try_receive().unwrap().reply.data, [1]);
    assert_eq!(hub.snapshot().received, 3);
    assert_eq!(hub.snapshot().duplicates, 1);
}

#[test]
fn a_slow_subscriber_loses_deliveries_and_others_do_not() {
    let mut hub = BurstHub::new(BurstConfig::default()).unwrap();
    let key = BurstKey::new(address(), CommandCode::new(1));
    let mut slow = hub.subscribe(key, 1).unwrap();
    let mut quick = hub.subscribe(key, 4).unwrap();
    let now = Duration::zero();
    hub.publish(burst(1, vec![1]), now, now);
    hub.publish(burst(1, vec![2]), now, now);
    assert_eq!(hub.snapshot().backpressure_drops, 1);
    assert_eq!(slow.try_receive().unwrap().reply.data, [1]);
    assert!(slow.try_receive().is_err());
    assert_eq!(quick.try_receive().unwrap().reply.data, [1]);
    assert_eq!(quick.try_receive().unwrap().reply.data, [2]);
    drop(slow);
    hub.publish(burst(1, vec![3]), now, now);
    assert_eq!(hub.snapshot().subscriptions, 1);
}

#[test]
fn a_dropped_subscription_gives_its_slots_back() {
    let config = BurstConfig::default()
        .with_maximum_subscriptions(2)
        .with_maximum_buffered_deliveries(8);
    let mut hub = BurstHub::new(config).unwrap();
    let key = BurstKey::new(address(), CommandCode::new(1));
    let kept = hub.subscribe(key, 3).unwrap();
    let gone = hub.subscribe(key, 5).unwrap();
    assert_eq!(hub.snapshot().subscriptions, 2);
    assert_eq!(hub.snapshot().reserved_delivery_slots, 8);
    assert!(matches!(
        hub.subscribe(key, 1),
        Err(BurstSubscriptionError::SubscriptionLimit(2))
    ));
    drop(gone);
    assert!(matches!(
        hub.subscribe(key, 6),
        Err(BurstSubscriptionError::AggregateCapacity(8))
    ));
    let other = hub.subscribe(key, 5).unwrap();
    assert_eq!(hub.snapshot().subscriptions, 2);
    assert_eq!(hub.snapshot().reserved_delivery_slots, 8);
    hub.unsubscribe(other.id());
    assert_eq!(hub.snapshot().reserved_delivery_slots, 3);
    drop(kept);
    assert_eq!(hub.snapshot().subscriptions, 0);
    assert_eq!(hub.snapshot().reserved_delivery_slots, 0);
}

#[test]
fn a_publication_reaches_the_subscriptions_of_its_key_in_order() {
    let mut hub = BurstHub::default();
    let one = BurstKey::new(address(), CommandCode::new(1));
    let two = BurstKey::new(address(), CommandCode::new(2));
    let mut first = hub.subscribe(one, 2).unwrap();
    let mut other = hub.subscribe(two, 2).unwrap();
    let mut second = hub.subscribe(one, 3).unwrap();
    for value in [1u8, 2, 3] {
        let time = Duration::from_millis(value as u64);
        match hub.try_publish(burst(1, vec![value]), time, time).unwrap() {
            Publication::Deliveries(deliveries) => {
                let full = value == 3;
                assert_eq!(deliveries.len(), 2);
                assert_eq!(deliveries[0].0, first.id());
                assert_eq!(deliveries[0].1 == Delivery::Full, full);
                assert_eq!(deliveries[1], (second.id(), Delivery::Delivered));
            }
            Publication::Duplicate => panic!("no repetition"),
        }
    }
    for value in [1u8, 2] {
        let message = first.try_receive().unwrap();
        assert_eq!(message.reply, burst(1, vec![value]));
        assert_eq!(message.received_at, Duration::from_millis(value as u64));
    }
    assert_eq!(first.try_receive(), Err(BurstReceiveError::Empty));
    for value in [1u8, 2, 3] {
        assert_eq!(second.try_receive().unwrap().reply.data, [value]);
    }
    assert_eq!(other.try_receive(), Err(BurstReceiveError::Empty));
    assert_eq!(hub.snapshot().backpressure_drops, 1);
    drop(hub);
    assert_eq!(second.try_receive(), Err(BurstReceiveError::Disconnected));
}

#[test]
fn the_window_runs_from_the_last_delivery() {
    let window = Duration::from_millis(10);
    let mut hub = BurstHub::new(BurstConfig::default().with_duplicate_window(window)).unwrap();
    let mut outcomes = Vec::new();
    for time in [0u64, 6, 9, 10, 19, 20] {
        let time = Duration::from_millis(time);
        let result = hub.try_publish(burst(1, vec![7]), time, time).unwrap();
        outcomes.push(matches!(result, Publication::Duplicate));
    }
    assert_eq!(outcomes, [false, true, true, false, true, false]);
    assert_eq!(hub.snapshot().received, 6);
    assert_eq!(hub.snapshot().duplicates, 3);
    assert_eq!(hub.snapshot().tracked_keys, 1);
    let unlimited = BurstConfig::default().with_duplicate_window(Duration::zero());
    let mut hub = BurstHub::new(unlimited).unwrap();
    for _ in 0..2 {
        let result = hub.try_publish(burst(1, vec![7]), Duration::zero(), Duration::zero());
        assert!(matches!(result, Ok(Publication::Deliveries(_))));
    }
}

fn exchange_of(request: Request, policy: RetryPolicy) -> Exchange {
    let (mut link, mut runner) = create_link(LinkConfig::default());
    link.try_start(request, QueueId::default(), policy, Duration::zero(), &Decisions::none())
        .unwrap();
    match runner.next_job(&mut link, &KeySet::new(), Duration::zero()) {
        NextJob::Selected(selected) => {
            Exchange::begin(selected.job, Duration::zero()).unwrap()
        }
        _ => panic!("a request waits"),
    }
}

#[test]
fn an_exchange_repeats_no_more_often_than_its_policy_allows() {
    let policy = RetryPolicy::default()
        .with_transport_retries(2)
        .with_busy_retries(1)
        .with_delayed_response_polls(1)
        .with_retry_delay(Duration::zero());
    let mut exchange = exchange_of(Request::new(address(), 1u8, vec![]), policy);
    let mut causes = Vec::new();
    let attempts = [
        Err(ExchangeError::ResponseTimeout),
        Ok(reply(1, 32, vec![])),
        Ok(reply(1, 33, vec![])),
        Err(ExchangeError::ResponseTimeout),
        Err(ExchangeError::ResponseTimeout),
    ];
    let mut last = None;
    for attempt in attempts {
        let (_, step) = match attempt {
            Ok(reply) => exchange.settle_reply(reply, Duration::zero()),
            Err(error) => exchange.settle_error(error),
        };
        match step {
            ExchangeStep::Repeat { cause, .. } => causes.push(cause),
            ExchangeStep::Finished(result) => last = Some(result),
        }
    }
    assert_eq!(
        causes,
        [
            RetryCause::Transport,
            RetryCause::Busy,
            RetryCause::DelayedResponse,
            RetryCause::Transport
        ]
    );
    assert!(matches!(last, Some(Err(ExchangeError::ResponseTimeout))));
}

#[test]
fn an_action_is_not_repeated_after_silence() {
    let policy = RetryPolicy::default().with_transport_retries(9);
    let mut exchange = exchange_of(Request::new(address(), 42u8, vec![]), policy);
    assert!(matches!(
        exchange.settle_error(ExchangeError::ResponseTimeout),
        (None, ExchangeStep::Finished(Err(ExchangeError::ResponseTimeout)))
    ));
}

#[test]
fn only_silence_is_repeated() {
    let policy = RetryPolicy::default().with_transport_retries(9);
    let mut exchange = exchange_of(Request::new(address(), 1u8, vec![]), policy);
    assert!(matches!(
        exchange.settle_error(ExchangeError::SendTimeout),
        (None, ExchangeStep::Finished(Err(ExchangeError::SendTimeout)))
    ));
}

#[test]
fn an_unknown_command_is_an_action_whatever_the_request_declares() {
    assert!(command_descriptor(CommandCode::new(60_000)).is_none());
    let request = Request::new(address(), 60_000u16, vec![])
        .with_retry_safety(OperationSafety::ReadOnly);
    let context = CommandContext::new(&request, QueueId::default());
    assert!(!CommandPolicy::read_only().admits(context, &Decisions::none()));
    let context = CommandContext::new(&request, QueueId::default());
    assert!(!CommandPolicy::retry_safe().admits(context, &Decisions::none()));
    let context = CommandContext::new(&request, QueueId::default());
    assert!(CommandPolicy::allow_all().admits(context, &Decisions::none()));
}

#[test]
fn a_denied_request_changes_no_queue() {
    let (mut link, _runner) = LinkBuilder::new()
        .command_policy(CommandPolicy::deny_commands(vec![CommandCode::new(1)]))
        .build(Duration::zero())
        .unwrap();
    let before = link.queue_snapshots();
    assert!(link
        .try_start_default(
            Request::new(address(), 1u8, vec![]),
            Duration::zero(),
            &Decisions::none()
        )
        .is_err());
    assert_eq!(link.queue_snapshots(), before);
    assert!(matches!(link.take_events()[..], [LinkEvent::Denied { command: 1, .. }]));
}

fn managed(threshold: u8) -> ManagedDeviceSession {
    ManagedDeviceSession::new(
        DeviceSession::from_identity(address(), identity()).unwrap(),
        DeviceHealthOptions::default()
            .with_failure_threshold(NonZeroU8::new(threshold).unwrap())
            .with_cooldown(Duration::from_secs(5))
            .with_adaptive(Some(
                AdaptiveTiming::default()
                    .with_minimum(Duration::from_millis(10))
                    .with_maximum(Duration::from_millis(100))
                    .with_margin(Duration::from_millis(10)),
            )),
    )
    .unwrap()
}

#[test]
fn cooldown_opens_at_the_threshold_and_an_answer_ends_it() {
    let mut managed = managed(2);
    let command = CommandCode::new(1);
    let now = Duration::zero();
    let silence = || Err::<(), _>(SessionError::Exchange(ExchangeError::ResponseTimeout));
    let _ = managed.finish(silence(), now, command, now);
    assert!(managed.execute(command, RetryPolicy::default(), now).is_ok());
    let _ = managed.finish(silence(), now, command, now);
    assert_eq!(
        managed.execute(command, RetryPolicy::default(), now).unwrap_err(),
        ManagedSessionError::CoolingDown { remaining: Duration::from_secs(5) }
    );
    assert!(managed.probe(command, RetryPolicy::default(), now).is_ok());
    managed.finish(Ok(()), Duration::from_millis(40), command, now).unwrap();
    assert!(managed.execute(command, RetryPolicy::default(), now).is_ok());
    assert_eq!(managed.snapshot(now).cooldown_remaining, Duration::zero());
}

#[test]
fn the_learned_response_lies_between_its_samples() {
    let mut managed = managed(2);
    let command = CommandCode::new(1);
    let now = Duration::zero();
    managed.finish(Ok(()), Duration::from_millis(40), command, now).unwrap();
    managed.finish(Ok(()), Duration::from_millis(80), command, now).unwrap();
    assert_eq!(managed.snapshot(now).learned_response, Some(Duration::from_millis(50)));
    let policy = RetryPolicy::default().with_transport_retries(1);
    match managed.execute(command, policy, now).unwrap() {
        ManagedStart::Quick(quick) => {
            assert_eq!(quick.response_timeout, Duration::from_millis(60));
            assert_eq!(quick.transport_retries, 0);
        }
        ManagedStart::Plain(_) => panic!("the response time is known"),
    }
    let silence = Err::<(), _>(SessionError::Exchange(ExchangeError::ResponseTimeout));
    let elapsed = Duration::from_millis(60);
    match managed.settle_quick(silence, policy, elapsed, elapsed, command, elapsed) {
        QuickStep::Repeat(fallback) => {
            assert_eq!(fallback.transport_retries, 0);
            assert_eq!(fallback.total_timeout, policy.total_timeout.saturating_sub(elapsed));
        }
        QuickStep::Finished(_) => panic!("there is time left"),
    }
    assert!(matches!(
        managed.execute(CommandCode::new(42), policy, now).unwrap(),
        ManagedStart::Plain(_)
    ));
}

#[test]
fn an_identified_address_is_not_probed_again() {
    let profile = LineProfile::single_segment(
        "two".into(),
        PollingWindow::new(0, 1).unwrap(),
    );
    let mut hints = DiscoveryHints::new();
    hints.insert(Address::polling(1, Master::Primary).unwrap(), 5).unwrap();
    let mut discovery = discover_line_with_options(
        &profile,
        Master::Primary,
        DiscoveryOptions::default()
            .with_passes(NonZeroU8::new(2).unwrap())
            .with_preamble_hints(hints),
    )
    .unwrap();
    let mut probed = Vec::new();
    loop {
        match discovery.next_step() {
            DiscoveryStep::Sleep(_) => {}
            DiscoveryStep::Finished => break,
            DiscoveryStep::Probe(probe) => {
                let node = probe.request.address.polling_node().unwrap();
                assert_eq!(probe.priority, Priority::Service);
                probed.push((node, probe.request.preambles));
                if node == 0 {
                    let event = DecodeEvent::Frame(
                        ReadDeviceIdentity.request(address()).unwrap().to_frame().unwrap(),
                    );
                    let bytes = device().serve(&event).unwrap().unwrap();
                    let mut decoder = FrameDecoder::new(DecodeLimits::default());
                    let frame = match decoder.push(&bytes).pop().unwrap() {
                        DecodeEvent::Frame(frame) => frame,
                        DecodeEvent::Rejected(_) => unreachable!(),
                    };
                    discovery.answer(Ok(DeviceReply::from_frame(frame).unwrap()));
                } else {
                    discovery.answer(Err(ExchangeError::ResponseTimeout));
                }
            }
        }
    }
    let line = profile.discovery_preambles;
    assert_eq!(probed, [(0, line), (1, 5), (1, line), (1, line)]);
    let report = discovery.into_report();
    assert_eq!(report.devices.len(), 1);
    assert_eq!(report.hint_fallbacks, 1);
    assert_eq!(report.passes_completed, 2);
}

#[test]
fn priorities_have_lanes_of_their_own_where_the_link_has_them() {
    let now = Duration::zero();
    let layout = priority_queues(4, 4, QueueScheduling::equal()).unwrap();
    let (link, _runner) = LinkBuilder::new().queues(layout).build(now).unwrap();
    assert_eq!(link.priority_queue(Priority::Service), Priority::Service.queue());
    assert_eq!(link.priority_queue(Priority::Normal), Priority::Normal.queue());
    let (link, _runner) = create_link(LinkConfig::default());
    assert_eq!(link.priority_queue(Priority::Service), link.default_queue_id());
    assert_eq!(DiscoveryOptions::default().priority, Priority::Service);
}

#[test]
fn an_identification_is_a_service_request() {
    let (request, priority) = DeviceSession::identify(address()).unwrap();
    assert_eq!(request, ReadDeviceIdentity.request(address()).unwrap());
    assert_eq!(priority, Priority::Service);
    let (request, priority) = DeviceSession::identify_with_preambles(address(), 20).unwrap();
    assert_eq!(request.preambles, 20);
    assert_eq!(request.command, CommandCode::new(0));
    assert_eq!(priority, Priority::Service);
}

fn silence<T>() -> Result<T, SessionError> {
    Err(SessionError::Exchange(ExchangeError::ResponseTimeout))
}

#[test]
fn a_snapshot_fills_every_requested_field() {
    let profile = DeviceSession::from_identity(address(), identity()).unwrap().profile().clone();
    let options = SnapshotOptions::default().with_diagnostics(false);
    let commands = options.commands(profile.identity.universal_revision);
    let numbers: Vec<u16> = commands.iter().map(|command| command.get()).collect();
    assert_eq!(numbers, [1, 2, 3, 13, 20]);
    let snapshot = DeviceSnapshot::collect(
        Duration::zero(),
        profile,
        options,
        SnapshotResults {
            primary_value: Some(silence()),
            loop_signal: Some(silence()),
            dynamic_values: Some(silence()),
            tag: Some(silence()),
            long_tag: Some(Ok("PT-101".into())),
            additional_status: None,
        },
    );
    assert!(snapshot.primary_value.is_error());
    assert!(snapshot.loop_signal.is_error());
    assert!(snapshot.dynamic_values.is_error());
    assert!(snapshot.tag.is_error());
    assert_eq!(snapshot.long_tag.value().map(|tag| tag.as_str()), Some("PT-101"));
    assert_eq!(snapshot.additional_status, SnapshotField::NotRequested);
    assert_eq!(snapshot.clone(), snapshot);
}

#[test]
fn blocks_in_order_restore_the_source_and_others_are_refused() {
    let source: Vec<u8> = (0..100).collect();
    let mut sender = BlockSender::new(&source, 33).unwrap();
    let mut receiver = BlockReceiver::new(100);
    let mut blocks: Vec<TransferBlock> = Vec::new();
    while let Some(block) = sender.next_block().unwrap() {
        blocks.push(block);
    }
    assert_eq!(blocks.len(), 4);
    assert_eq!(
        receiver.accept(&blocks[1]).unwrap_err(),
        TransferError::OutOfOrder { expected: 0, actual: 1 }
    );
    for block in &blocks {
        receiver.accept(block).unwrap();
    }
    assert_eq!(receiver.finish().unwrap(), source);
}

#[test]
fn a_new_revision_is_the_same_device() {
    let known = vec![KnownDevice { address: address(), identity: identity() }];
    let mut report = RecoveryReport::default();
    assert_eq!(reconcile_devices(&known, &report), Some((address(), Priority::Service)));
    report.record(&known[0], Ok(DeviceIdentity { device_revision: 9, ..identity() }));
    assert!(matches!(report.devices[0].1, RecoveryStatus::Restored(_)));
    assert_eq!(reconcile_devices(&known, &report), None);
    report.record(&known[0], Ok(DeviceIdentity { device_id: 9, ..identity() }));
    assert!(matches!(report.devices[1].1, RecoveryStatus::Replaced(_)));
    report.record(&known[0], Err(ExchangeError::ResponseTimeout));
    assert!(matches!(report.devices[2].1, RecoveryStatus::Unavailable(_)));
}

#[test]
fn a_plan_stops_at_its_first_failure() {
    let step = |name: &str| {
        PlanStep::new(name.into(), Request::new(address(), 1u8, vec![]))
            .expecting(PlanExpectation::Success)
    };
    let plan = Plan::new().with_step(step("one")).with_step(step("two"));
    let mut report = PlanReport::default();
    assert_eq!(plan.next_step(&report).unwrap().name, "one");
    plan.record(&mut report, Err(ExchangeError::ResponseTimeout));
    assert!(plan.next_step(&report).is_none());
    let plan = plan.continuing_after_failure(true);
    assert_eq!(plan.next_step(&report).unwrap().name, "two");
}

#[test]
fn a_campaign_runs_every_case_once() {
    let case = |name: &str, codes: Vec<u8>| VerificationCase {
        name: name.into(),
        request: Request::new(address(), 1u8, vec![]),
        expectation: CaseExpectation { response_codes: codes, data_prefix: Some(vec![5]) },
        retry: RetryPolicy::default(),
    };
    let cases = vec![case("first", vec![0]), case("second", vec![8])];
    let mut report = VerificationReport::default();
    let mut names = Vec::new();
    while let Some((next, priority)) = run_campaign(&cases, &report) {
        assert_eq!(priority, Priority::Normal);
        names.push(next.name.clone());
        report.record(next, Ok(reply(1, 0, vec![5, 6])), Duration::from_millis(3));
    }
    assert_eq!(names, ["first", "second"]);
    assert!(report.cases[0].passed);
    assert!(!report.cases[1].passed);
    assert!(!report.passed());
}

#[test]
fn a_full_catalog_takes_no_other_profile() {
    let profile = |revision: u8| {
        DeviceProfile::new(DeviceKey::new(7, revision).unwrap(), "one".into(), "1".into())
    };
    let mut catalog =
        DeviceCatalog::with_limits(CatalogLimits { profiles: 1, json_bytes: 64 }).unwrap();
    assert!(catalog.insert(profile(1)).unwrap().is_none());
    assert!(catalog.insert(profile(2)).is_err());
    assert!(catalog.insert(profile(1)).unwrap().is_some());
    assert_eq!(catalog.len(), 1);
}

#[test]
fn a_packed_field_is_packed_text() {
    let schema = |length: usize| {
        let kind = FieldKind::PackedAscii { length };
        DataSchema::new().with_field(FieldSpec::new("tag".into(), kind))
    };
    let packed = [0x4d, 0x42, 0x44, 0xe0, 0x65, 0x20];
    let record = schema(6).decode(&packed).unwrap();
    assert_eq!(record.get("tag"), Some(&DynamicValue::Text("STID8FT".into())));
    let words = pack_text("PT 101-A", 6).unwrap();
    let record = schema(6).decode(&words).unwrap();
    assert_eq!(record.get("tag"), Some(&DynamicValue::Text("PT 101-A".into())));
}

#[test]
fn an_older_identity_names_its_maker_and_type_in_single_bytes() {
    let mut device = device();
    device.identity.universal_revision = 5;
    let request = ReadDeviceIdentity.request(address()).unwrap();
    let event = DecodeEvent::Frame(request.to_frame().unwrap());
    let bytes = device.serve(&event).unwrap().unwrap();
    let mut decoder = FrameDecoder::new(DecodeLimits::default());
    let frame = match decoder.push(&bytes).pop().unwrap() {
        DecodeEvent::Frame(frame) => frame,
        DecodeEvent::Rejected(error) => panic!("{:?}", error),
    };
    let answer = DeviceReply::from_frame(frame).unwrap();
    assert_eq!(answer.data[..3], [0xfe, 0x34, 0x2a]);
    let found = ReadDeviceIdentity.decode_reply(&answer).unwrap();
    assert_eq!(found.manufacturer_id, 0x34);
    let unique = found.unique_address(Master::Primary).unwrap();
    let request = Request::new(unique, 1u8, vec![]).to_frame().unwrap();
    assert!(device.serve(&DecodeEvent::Frame(request)).unwrap().is_some());
}

#[test]
fn a_response_is_the_reply_to_the_logical_command() {
    let mut device = device();
    device.status = 0x20;
    for (command, code) in [(1u16, 0u8), (2, 0), (48, 0), (9, 64), (600, 64)] {
        let request = Request::new(address(), command, vec![]).to_frame().unwrap();
        let bytes = device.serve(&DecodeEvent::Frame(request)).unwrap().unwrap();
        let mut decoder = FrameDecoder::new(DecodeLimits::default());
        let frame = match decoder.push(&bytes).pop().unwrap() {
            DecodeEvent::Frame(frame) => frame,
            DecodeEvent::Rejected(error) => panic!("{:?}", error),
        };
        let answer = DeviceReply::from_frame(frame).unwrap();
        assert_eq!(answer.command, CommandCode::new(command));
        assert_eq!(answer.response_code, code);
        assert_eq!(answer.device_status, 0x20);
        assert_eq!(answer.address, address());
        if code == 64 {
            assert!(answer.data.is_empty());
        }
    }
}

#[test]
fn decoded_names_are_those_of_the_schema() {
    let schema = DataSchema::new()
        .with_field(FieldSpec::new("flag".into(), FieldKind::Boolean))
        .with_field(FieldSpec::new("level".into(), FieldKind::U24))
        .with_field(FieldSpec::new("text".into(), FieldKind::Latin1 { length: 4 }));
    let record = schema.decode(&[2, 0, 1, 0, b'a', b'b', 0, 0]).unwrap();
    let names: Vec<&str> = record.values.iter().map(|value| value.name.as_str()).collect();
    assert_eq!(names, ["flag", "level", "text"]);
    assert_eq!(record.get("flag"), Some(&DynamicValue::Boolean(true)));
    assert_eq!(record.get("level"), Some(&DynamicValue::Unsigned(256)));
    assert!(record.get("other").is_none());
    assert!(schema.decode(&[1]).is_err());
    let unique: BTreeMap<&str, ()> = names.into_iter().map(|name| (name, ())).collect();
    assert_eq!(unique.len(), 3);
}

#[test]
fn key_material_is_wiped_at_its_source() {
    let mut bytes = [3u8; 16];
    let key = KeyMaterial::new_and_zeroize(&mut bytes);
    assert_eq!(bytes, [0; 16]);
    assert_eq!(key.expose(), &[3; 16]);
}
