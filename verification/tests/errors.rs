use std::collections::BTreeMap;

use hart_link::channel::{TcpOptions, SerialOptions};
use hart_link::device::{
    CatalogLimits, CatalogLoadError, DataSchema, DeviceCatalog, DeviceKey, DeviceProfile,
    EnumChoice, FieldKind, FieldSpec, ResponseCodeDefinition, ResponseCodeStatus, SchemaError,
};
use hart_link::ip::{
    IoFailure, IpError, IpPacket, IpSession, IpTimeouts, MessageType, ReceivedBytes,
    SessionOptions,
};
use hart_link::mesh::{
    Cell, CellDirection, DeviceId, MeshManager, NetworkId, ReplayWindow, Schedule, ScheduleError,
    SecurityError,
};
use hart_link::operation::{PayloadReader, PayloadWriter, SetDamping};
use hart_link::package::{PackageError, PackageLimits};
use hart_link::profile::{
    AddressTiming, AddressTimingError, AddressTimings, LineProfile, ModuleWindow, PollingWindow,
    ProfileError, TimingProfile,
};
use hart_link::service::{
    discover_line_with_options, BlockReceiver, BlockSender, BurstConfig, BurstConfigError,
    BurstHub, BurstKey, BurstPublishError, BurstReceiveError, BurstSubscriptionError, Decisions,
    DeviceSession, DiscoveryError, DiscoveryHintError, DiscoveryHints, DiscoveryOptions,
    LinkBuilder, QueueConfig, QueueConfigError, QueueError, QueueId, QueuePriority, SessionError,
    TransferBlock, TransferError,
};
use hart_link::tables::{
    CommonTable, TableEntry, TableError, TableRepository, TableRepositoryLimits,
};
use hart_link::trace::{
    ReplayBuildError, ReplayChannel, ReplayLimits, ReplayStep, Trace, TraceLimits,
    TraceLimitsError,
};
use hart_link::{
    create_link, try_create_link, Address, ChannelError, ChecksumPolicy, CheckedOperation,
    CommandCode, DecodeEvent, DecodeLimits, DecodeLimitsError, DeviceReply, Duration,
    ExchangeError, Float32, Frame, FrameDecoder, FrameKind, LinkBuildError, LinkConfig,
    LinkConfigError, Master, Operation, OperationError, PhysicalLayer, Request, RetryPolicy,
    RetryPolicyError, StartError, WireError, MAXIMUM_RETRY_DURATION,
};

fn address() -> Address {
    Address::polling(1, Master::Primary).unwrap()
}

fn frame(payload: Vec<u8>) -> Frame {
    Frame {
        preambles: 5,
        kind: FrameKind::Response,
        physical_layer: PhysicalLayer::Fsk,
        address: address(),
        expansion: vec![],
        wire_command: 1,
        payload,
        repair: None,
    }
}

fn over() -> Duration {
    Duration { nanos: MAXIMUM_RETRY_DURATION + 1 }
}

fn reply(command: u16, response_code: u8) -> DeviceReply {
    DeviceReply {
        address: address(),
        command: CommandCode::new(command),
        response_code,
        device_status: 0x40,
        data: vec![],
        burst: false,
        physical_layer: PhysicalLayer::Fsk,
        response_preambles: 5,
        frame_expansion: vec![],
    }
}

#[test]
fn wire_errors_name_the_offending_value() {
    assert_eq!(Address::polling(64, Master::Primary), Err(WireError::PollingAddress(64)));
    assert_eq!(
        Address::unique(0x4000, 1, Master::Primary),
        Err(WireError::ExpandedDeviceType(0x4000))
    );
    assert_eq!(
        Address::unique(1, 0x100_0000, Master::Primary),
        Err(WireError::DeviceIdentifier(0x100_0000))
    );
    assert_eq!(frame(vec![0; 256]).encode(), Err(WireError::PayloadLength(256)));
    let wide = Frame { expansion: vec![0; 4], ..frame(vec![0, 0]) };
    assert_eq!(wide.encode(), Err(WireError::ExpansionLength(4)));
    let mut bytes = frame(vec![0, 0]).encode().unwrap();
    let last = bytes.len() - 1;
    bytes[last] ^= 1;
    let mut decoder = FrameDecoder::new(DecodeLimits::default());
    assert!(matches!(
        decoder.push(&bytes)[..],
        [DecodeEvent::Rejected(WireError::Checksum { expected, actual })] if expected == actual ^ 1
    ));
}

#[test]
fn decode_limits_are_checked_one_by_one() {
    let limits = DecodeLimits::default();
    assert_eq!(
        limits.with_buffer_capacity(0).validate(),
        Err(DecodeLimitsError::EmptyBuffer)
    );
    assert_eq!(
        limits.with_buffer_capacity(usize::MAX).validate(),
        Err(DecodeLimitsError::BufferLimit(usize::MAX))
    );
    assert_eq!(
        limits.with_minimum_preambles(0).validate(),
        Err(DecodeLimitsError::NoPreambles)
    );
    assert_eq!(limits.validate(), Ok(()));
    assert!(matches!(limits.checksum_policy, ChecksumPolicy::Strict));
}

#[test]
fn replies_are_refused_by_what_they_report() {
    assert_eq!(
        reply(1, 0).require_success(CommandCode::new(2)),
        Err(OperationError::CommandMismatch { expected: 2, actual: 1 })
    );
    assert_eq!(
        reply(1, 8).require_success(CommandCode::new(1)),
        Err(OperationError::DeviceStatus { code: 8, status: 0x40 })
    );
    assert_eq!(
        reply(1, 0x88).require_success(CommandCode::new(1)),
        Err(OperationError::CommunicationStatus { summary: 0x88, status: 0x40 })
    );
    assert_eq!(reply(1, 0).require_success(CommandCode::new(1)), Ok(()));
}

#[test]
fn payload_errors_tell_where_reading_ended() {
    let mut reader = PayloadReader::new(&[1, 2, 3]);
    assert_eq!(reader.u8("first").unwrap(), 1);
    let error = reader.u32("second").unwrap_err();
    assert!(matches!(error, OperationError::Truncated { field: "second", offset: 1 }));
    assert_eq!(error.message(), "field second is truncated at offset 1");
    assert!(matches!(reader.finish(), Err(OperationError::TrailingBytes(2))));
    let mut writer = PayloadWriter::new();
    assert!(matches!(writer.u24(0x100_0000), Err(OperationError::InvalidValue(_))));
    assert!(CheckedOperation::new(0u8, vec![1]).is_err());
    let infinite = Float32::from_bits(f32::INFINITY.to_bits());
    assert!(matches!(SetDamping::new(infinite), Err(OperationError::InvalidValue(_))));
}

#[test]
fn schema_errors_are_told_apart() {
    let field = |name: &str, kind: FieldKind| FieldSpec::new(name.into(), kind);
    let one = |name: &str, kind: FieldKind| DataSchema::new().with_field(field(name, kind));
    assert!(matches!(one("", FieldKind::U8).validate(), Err(SchemaError::EmptyName)));
    assert!(matches!(
        one(&"n".repeat(257), FieldKind::U8).validate(),
        Err(SchemaError::NameTooLong(257))
    ));
    assert!(matches!(
        one("a", FieldKind::U8).with_field(field("a", FieldKind::U8)).validate(),
        Err(SchemaError::DuplicateName(_))
    ));
    assert!(matches!(
        one("a", FieldKind::Bytes { length: 300 }).validate(),
        Err(SchemaError::PayloadTooLarge(300))
    ));
    let choices = |values: &[u32]| FieldKind::Enum8 {
        choices: values.iter().map(|value| EnumChoice::new(*value, "c".into())).collect(),
    };
    assert!(matches!(
        one("a", choices(&[256])).validate(),
        Err(SchemaError::EnumValue(256))
    ));
    assert!(matches!(
        one("a", choices(&[3, 3])).validate(),
        Err(SchemaError::DuplicateEnum(3))
    ));
    assert!(matches!(
        one("a", FieldKind::Enum8 { choices: vec![EnumChoice::new(1, "".into())] }).validate(),
        Err(SchemaError::EmptyEnumLabel(1))
    ));
    assert!(matches!(
        one("a", FieldKind::Enum8 { choices: vec![EnumChoice::new(1, "n".repeat(257))] })
            .validate(),
        Err(SchemaError::EnumLabelTooLong { value: 1, bytes: 257 })
    ));
    assert!(matches!(
        one("a", FieldKind::U16).decode(&[1]),
        Err(SchemaError::Codec(OperationError::Truncated { .. }))
    ));
    assert!(matches!(
        one("a", FieldKind::U8).decode(&[1, 2]),
        Err(SchemaError::Codec(OperationError::TrailingBytes(1)))
    ));
    let mut many = DataSchema::new();
    for index in 0..256 {
        many = many.with_field(field(&format!("f{}", index), FieldKind::U8));
    }
    assert!(matches!(many.validate(), Err(SchemaError::TooManyFields(256))));
}

#[test]
fn profile_and_catalog_errors_are_told_apart() {
    assert_eq!(DeviceKey::new(0x4000, 1), Err(SchemaError::ExpandedDeviceType(0x4000)));
    let key = DeviceKey::new(7, 1).unwrap();
    let profile = |name: &str, revision: &str| {
        DeviceProfile::new(key, name.into(), revision.into())
    };
    assert!(matches!(profile(" ", "1").validate(), Err(SchemaError::EmptyProfileName)));
    assert!(matches!(profile("a", "").validate(), Err(SchemaError::MissingSourceRevision)));
    assert!(matches!(
        profile(&"n".repeat(1025), "1").validate(),
        Err(SchemaError::ProfileTextTooLong(_, 1025))
    ));
    let code = |text: &str| ResponseCodeDefinition::new(ResponseCodeStatus::Warning, text.into());
    assert!(matches!(
        profile("a", "1").with_response_code(1u8, 128, code("x")).validate(),
        Err(SchemaError::ResponseCode(128))
    ));
    assert!(matches!(
        profile("a", "1").with_response_code(1u8, 8, code("")).validate(),
        Err(SchemaError::EmptyResponseCodeDescription(8))
    ));
    assert!(matches!(
        CatalogLimits::default().with_profiles(0).validate(),
        Err(CatalogLoadError::ZeroLimit)
    ));
    assert!(matches!(
        CatalogLimits::default().with_profiles(usize::MAX).validate(),
        Err(CatalogLoadError::ProfileConfigurationLimit(usize::MAX))
    ));
    assert!(matches!(
        CatalogLimits::default().with_json_bytes(usize::MAX).validate(),
        Err(CatalogLoadError::JsonConfigurationLimit(usize::MAX))
    ));
    let mut catalog = DeviceCatalog::new();
    assert!(matches!(
        catalog.load_json(b"{", Err("end of input".into())),
        Err(CatalogLoadError::Json(_))
    ));
    assert!(matches!(
        catalog.load_json(b"{}", Ok(profile("", "1"))),
        Err(CatalogLoadError::Schema(SchemaError::EmptyProfileName))
    ));
}

#[test]
fn table_errors_are_told_apart() {
    let table = |revision: &str, key: u32, code: u32, label: &str| CommonTable {
        number: 2,
        revision: revision.into(),
        entries: BTreeMap::from([(key, TableEntry { code, label: label.into() })]),
    };
    assert!(matches!(table("", 1, 1, "a").validate(), Err(TableError::MissingRevision(2))));
    assert!(matches!(
        table("1", 1, 2, "a").validate(),
        Err(TableError::MismatchedCode { key: 1, value: 2 })
    ));
    assert!(matches!(table("1", 1, 1, "").validate(), Err(TableError::EmptyLabel(1))));
    assert!(matches!(
        table("1", 1, 1, &"n".repeat(1025)).validate(),
        Err(TableError::TextTooLong(_, 1025))
    ));
    assert!(matches!(
        TableRepository::with_limits(TableRepositoryLimits::default().with_tables(0)),
        Err(TableError::ZeroRepositoryLimit)
    ));
    assert!(matches!(
        TableRepository::with_limits(TableRepositoryLimits::default().with_tables(usize::MAX)),
        Err(TableError::RepositoryTableLimit(_))
    ));
    assert!(matches!(
        TableRepository::with_limits(TableRepositoryLimits::default().with_entries(usize::MAX)),
        Err(TableError::RepositoryEntryLimit(_))
    ));
}

#[test]
fn line_profile_errors_are_told_apart() {
    let window = PollingWindow::new(0, 1).unwrap();
    let valid = || LineProfile::single_segment("line".into(), window);
    assert!(matches!(
        PollingWindow::new(2, 1),
        Err(ProfileError::PollingWindow { first: 2, last: 1 })
    ));
    let mut unnamed = valid();
    unnamed.name = " ".into();
    assert!(matches!(unnamed.validate(), Err(ProfileError::EmptyName)));
    let mut long = valid();
    long.name = "n".repeat(257);
    assert!(matches!(long.validate(), Err(ProfileError::NameLength(257))));
    assert!(matches!(
        valid().with_discovery_preambles(1).validate(),
        Err(ProfileError::Preambles(1))
    ));
    assert!(matches!(
        valid().with_wake_prefix(vec![0; 257]).validate(),
        Err(ProfileError::WakePrefix(257))
    ));
    assert!(matches!(
        valid()
            .with_timing(TimingProfile::default().with_first_response(Duration::zero()))
            .validate(),
        Err(ProfileError::ZeroTimeout)
    ));
    assert!(matches!(
        valid().with_timing(TimingProfile::default().with_connect_settle(over())).validate(),
        Err(ProfileError::Duration(span)) if span == over()
    ));
    assert!(matches!(
        LineProfile::new("empty".into()).validate(),
        Err(ProfileError::NoModules)
    ));
    assert!(matches!(
        LineProfile::new("many".into())
            .with_modules(vec![ModuleWindow::new(1, window); 65])
            .validate(),
        Err(ProfileError::ModuleLimit(65))
    ));
    assert!(matches!(
        valid().with_module(ModuleWindow::new(1, window)).validate(),
        Err(ProfileError::DuplicateModule(_)) | Err(ProfileError::AddressOverlap { .. })
    ));
    assert!(matches!(
        LineProfile::new("far".into())
            .with_module(ModuleWindow::new(4, window).with_address_shift(-100))
            .validate(),
        Err(ProfileError::UnreachableModule(4))
    ));
    let timings = || AddressTimings::new();
    assert_eq!(
        timings().with(64, AddressTiming::new()).err(),
        Some(AddressTimingError::PollingAddress(64))
    );
    assert_eq!(
        timings()
            .with(1, AddressTiming::new().with_response_timeout(Duration::zero()))
            .err(),
        Some(AddressTimingError::ZeroTimeout)
    );
    assert_eq!(
        timings().with(1, AddressTiming::new().with_delay_before_probe(over())).err(),
        Some(AddressTimingError::Duration(over()))
    );
}

#[test]
fn trace_and_replay_errors_are_told_apart() {
    let limits = TraceLimits::default();
    assert_eq!(
        Trace::try_with_limits(limits.with_maximum_records(0)).err(),
        Some(TraceLimitsError::ZeroLimit)
    );
    assert_eq!(
        limits.with_maximum_records(usize::MAX).validate(),
        Err(TraceLimitsError::RecordLimit(usize::MAX))
    );
    assert_eq!(
        limits.with_maximum_bytes(usize::MAX).validate(),
        Err(TraceLimitsError::ByteLimit(usize::MAX))
    );
    let limits = ReplayLimits::default();
    assert_eq!(limits.with_maximum_steps(0).validate(), Err(ReplayBuildError::ZeroLimit));
    assert_eq!(
        limits.with_maximum_steps(usize::MAX).validate(),
        Err(ReplayBuildError::StepLimit(usize::MAX))
    );
    assert_eq!(
        limits.with_maximum_bytes(usize::MAX).validate(),
        Err(ReplayBuildError::ByteLimit(usize::MAX))
    );
    let mut channel = ReplayChannel::new(vec![ReplayStep::Expect(vec![1])]).unwrap();
    assert!(channel.send(&[2]).is_err());
    let mut channel = ReplayChannel::new(vec![ReplayStep::Provide(vec![1, 2])]).unwrap();
    assert_eq!(channel.receive(1).unwrap(), [1]);
    assert_eq!(channel.receive(1).unwrap(), [2]);
    assert!(channel.receive(1).is_err());
}

#[test]
fn channel_errors_are_rendered() {
    assert_eq!(ChannelError::Closed.message(), "channel closed by the remote peer");
    assert_eq!(ChannelError::Timeout("connect").message(), "channel connect timeout expired");
    assert_eq!(
        ChannelError::Protocol("x".into()).message(),
        "transport protocol error: x"
    );
    assert_eq!(
        ChannelError::Io { timed_out: false, message: "broken".into() }.message(),
        "I/O error: broken"
    );
    assert!(ChannelError::Io { timed_out: true, message: "late".into() }.is_timeout());
    assert!(!ChannelError::Closed.is_timeout());
    let options = TcpOptions::default();
    assert!(options.validate_connect(Duration::zero()).is_err());
    assert!(options.validate_connect(over()).is_err());
    assert_eq!(options.validate_connect(Duration::from_secs(1)), Ok(()));
    assert_eq!(SerialOptions::new("/dev/tty".into()).baud_rate, 1200);
}

#[test]
fn packet_errors_are_told_apart() {
    let valid = [1u8, 0, 3, 0, 0, 1, 0, 8];
    assert!(matches!(IpPacket::decode(&valid[..7], 8), Err(IpError::Truncated)));
    let mut bytes = valid;
    bytes[1] = 14;
    assert!(matches!(IpPacket::decode(&bytes, 8), Err(IpError::MessageType(14))));
    let mut bytes = valid;
    bytes[7] = 9;
    assert!(matches!(
        IpPacket::decode(&bytes, 8),
        Err(IpError::PacketLength { declared: 9, actual: 8 })
    ));
    let large = IpPacket {
        version: 1,
        message_type: MessageType::Request,
        message_id: 3,
        status: 0,
        sequence: 1,
        body: vec![0; 65_528],
    };
    assert!(matches!(large.encode(), Err(IpError::Length(_))));
}

#[test]
fn session_errors_are_told_apart() {
    let session = IpSession::new(());
    assert!(matches!(session.prepare_request(), Err(IpError::NotOpen)));
    assert!(matches!(
        session.prepare_open(SessionOptions {
            inactivity_close: Duration::maximum(),
            ..SessionOptions::default()
        }),
        Err(IpError::InactivityTimeout)
    ));
    let timeouts = |io: Duration, exchange: Duration| IpTimeouts { io, exchange }.validate();
    let second = Duration::from_secs(1);
    assert!(matches!(timeouts(Duration::zero(), second), Err(IpError::ZeroTimeout)));
    assert!(matches!(timeouts(over(), second), Err(IpError::TimeoutLimit(_))));
    assert!(matches!(timeouts(second, over()), Err(IpError::TimeoutLimit(_))));
    let mut session = IpSession::new(());
    assert!(matches!(
        session.finish_receive(ReceivedBytes::Failed(IoFailure::Deadline)),
        Err(IpError::Timeout("read"))
    ));
    assert!(matches!(session.prepare_receive(), Err(IpError::StreamUnusable)));
    assert_eq!(IpError::NotOpen.message(), "HART-IP session is not open");
}

#[test]
fn mesh_errors_are_told_apart() {
    assert!(matches!(Schedule::new(0), Err(ScheduleError::EmptySuperframe)));
    assert!(MeshManager::new(NetworkId(1), 0).is_err());
    let mut schedule = Schedule::new(4).unwrap();
    let cell = |timeslot: u16, channel_offset: u8, source: u8, destination: u8| Cell {
        timeslot,
        channel_offset,
        source: DeviceId([source; 8]),
        destination: DeviceId([destination; 8]),
        direction: CellDirection::Transmit,
    };
    assert_eq!(schedule.insert(cell(4, 0, 1, 2)), Err(ScheduleError::Timeslot(4)));
    assert_eq!(schedule.insert(cell(0, 16, 1, 2)), Err(ScheduleError::Channel(16)));
    assert_eq!(schedule.insert(cell(0, 0, 1, 1)), Err(ScheduleError::Loopback));
    schedule.insert(cell(0, 0, 1, 2)).unwrap();
    assert_eq!(schedule.insert(cell(0, 1, 2, 3)), Err(ScheduleError::Conflict(0)));
    assert_eq!(
        schedule.insert(cell(0, 0, 3, 4)),
        Err(ScheduleError::RadioConflict { timeslot: 0, channel: 0 })
    );
    let mut window = ReplayWindow::default();
    window.accept(1000).unwrap();
    assert_eq!(window.accept(1000), Err(SecurityError::Replay(1000)));
    assert_eq!(window.accept(1), Err(SecurityError::TooOld(1)));
}

#[test]
fn retry_policy_errors_are_told_apart() {
    let policy = RetryPolicy::default();
    let zero = Duration::zero();
    assert_eq!(policy.validate(), Ok(()));
    assert_eq!(
        policy.with_response_timeout(zero).validate(),
        Err(RetryPolicyError::ResponseTimeout)
    );
    assert_eq!(policy.with_total_timeout(zero).validate(), Err(RetryPolicyError::TotalTimeout));
    assert_eq!(
        policy.with_response_timeout(over()).validate_runtime(zero),
        Err(RetryPolicyError::ResponseTimeoutLimit)
    );
    assert_eq!(
        policy.with_total_timeout(over()).validate_runtime(zero),
        Err(RetryPolicyError::TotalTimeoutLimit)
    );
    assert_eq!(
        policy.with_retry_delay(over()).validate_runtime(zero),
        Err(RetryPolicyError::RetryDelayLimit)
    );
    assert!(policy.validate_runtime(Duration::maximum()).is_err());
}

#[test]
fn queue_layout_errors_are_told_apart() {
    let id = QueueId::new(3);
    assert_eq!(QueueConfig::weighted(id, 0, 1), Err(QueueConfigError::ZeroCapacity(id)));
    assert_eq!(QueueConfig::weighted(id, 1, 0), Err(QueueConfigError::ZeroWeight));
    assert_eq!(
        QueueConfig::strict(id, usize::MAX, 1),
        Err(QueueConfigError::CapacityLimit { queue: id, capacity: usize::MAX })
    );
    let build = |queues: Vec<QueueConfig>| {
        LinkBuilder::new().queues(queues).build(Duration::zero()).err()
    };
    let queue = |id: u16, capacity: usize| {
        QueueConfig::weighted(QueueId::new(id), capacity, 1).unwrap()
    };
    assert_eq!(build(vec![]), Some(LinkBuildError::Queues(QueueConfigError::Empty)));
    assert_eq!(
        build(vec![queue(0, 1), queue(0, 1)]),
        Some(LinkBuildError::Queues(QueueConfigError::DuplicateId(QueueId::new(0))))
    );
    assert_eq!(
        build(vec![queue(1, 1)]),
        Some(LinkBuildError::Queues(QueueConfigError::MissingDefault(QueueId::new(0))))
    );
    assert!(matches!(
        build(vec![queue(0, 1_048_576), queue(1, 1)]),
        Some(LinkBuildError::Queues(QueueConfigError::TotalCapacity(_)))
    ));
    assert_eq!(
        build((0..257).map(|id| queue(id, 1)).collect()),
        Some(LinkBuildError::Queues(QueueConfigError::TooManyQueues))
    );
    let (mut link, _runner) = create_link(LinkConfig::default());
    assert_eq!(link.queue_priority(id), Err(QueueError::Unknown(id)));
    assert_eq!(
        link.set_queue_weight(QueueId::default(), 0),
        Err(QueueError::ZeroWeight)
    );
    link.set_queue_priority(QueueId::default(), QueuePriority::strict(2)).unwrap();
    assert_eq!(link.queue_priority(QueueId::default()), Ok(QueuePriority::strict(2)));
}

#[test]
fn link_configuration_errors_are_told_apart() {
    let config = LinkConfig::default();
    assert_eq!(
        try_create_link(config.with_read_buffer_size(0)).err(),
        Some(LinkConfigError::ReadBufferSize)
    );
    assert_eq!(
        try_create_link(config.with_read_buffer_size(usize::MAX)).err(),
        Some(LinkConfigError::ReadBufferLimit(usize::MAX))
    );
    let decoder = |limits: DecodeLimits| try_create_link(config.with_decoder(limits)).err();
    let limits = DecodeLimits::default();
    assert_eq!(
        decoder(limits.with_buffer_capacity(0)),
        Some(LinkConfigError::DecoderCapacity)
    );
    assert!(matches!(
        decoder(limits.with_buffer_capacity(usize::MAX)),
        Some(LinkConfigError::DecoderCapacityLimit(_))
    ));
    assert_eq!(
        decoder(limits.with_minimum_preambles(0)),
        Some(LinkConfigError::MinimumPreambles)
    );
    assert_eq!(
        LinkBuilder::new().event_capacity(0).build(Duration::zero()).err(),
        Some(LinkBuildError::EventCapacity)
    );
}

#[test]
fn start_errors_keep_the_queue_empty() {
    let (mut link, _runner) = create_link(LinkConfig::default().with_queue_capacity(1));
    let decisions = Decisions::none();
    let zero = Duration::zero();
    let request = || Request::new(address(), 1u8, vec![]);
    let queue = QueueId::default();
    let policy = RetryPolicy::default();
    assert_eq!(
        link.try_start(request(), QueueId::new(9), policy, zero, &decisions).err(),
        Some(StartError::UnknownQueue(QueueId::new(9)))
    );
    link.try_start(request(), queue, policy, zero, &decisions).unwrap();
    assert_eq!(
        link.try_start(request(), queue, policy, zero, &decisions).err(),
        Some(StartError::Full)
    );
    assert_eq!(ExchangeError::from_start(StartError::Closed), ExchangeError::RunnerStopped);
    assert_eq!(ExchangeError::ResponseTimeout.reason(), "response timeout");
    assert_eq!(ExchangeError::Busy(32).reason(), "transient device rejection");
}

#[test]
fn burst_errors_are_told_apart() {
    let config = BurstConfig::default();
    let refused = |config: BurstConfig| BurstHub::new(config).err();
    assert_eq!(
        refused(config.with_maximum_subscriptions(0)),
        Some(BurstConfigError::NoSubscriptions)
    );
    assert_eq!(
        refused(config.with_maximum_subscriptions(usize::MAX)),
        Some(BurstConfigError::SubscriptionLimit(usize::MAX))
    );
    assert_eq!(
        refused(config.with_maximum_buffered_deliveries(0)),
        Some(BurstConfigError::NoBufferedDeliveries)
    );
    assert_eq!(
        refused(config.with_maximum_buffered_deliveries(usize::MAX)),
        Some(BurstConfigError::BufferedDeliveryLimit(usize::MAX))
    );
    assert_eq!(
        refused(config.with_maximum_tracked_keys(0)),
        Some(BurstConfigError::NoTrackedKeys)
    );
    assert_eq!(
        refused(config.with_maximum_tracked_keys(usize::MAX)),
        Some(BurstConfigError::TrackedKeyLimit(usize::MAX))
    );
    let mut hub = BurstHub::default();
    let key = BurstKey::new(address(), CommandCode::new(1));
    assert_eq!(hub.try_subscribe(key, 0).err(), Some(BurstSubscriptionError::ZeroCapacity));
    assert_eq!(
        hub.try_subscribe(key, usize::MAX).err(),
        Some(BurstSubscriptionError::CapacityLimit(usize::MAX))
    );
    let mut subscription = hub.try_subscribe(key, 1).unwrap();
    assert_eq!(subscription.try_receive().err(), Some(BurstReceiveError::Empty));
    let zero = Duration::zero();
    let wide = DeviceReply { burst: true, frame_expansion: vec![0; 4], ..reply(1, 0) };
    assert_eq!(hub.try_publish(wide, zero, zero).err(), Some(BurstPublishError::ExpansionLength(4)));
    drop(hub);
    assert_eq!(subscription.try_receive().err(), Some(BurstReceiveError::Disconnected));
}

#[test]
fn transfer_errors_are_told_apart() {
    assert_eq!(BlockSender::new(&[1], 0).err(), Some(TransferError::BlockSize(0)));
    assert_eq!(BlockSender::new(&[1], 252).err(), Some(TransferError::BlockSize(252)));
    let block = |sequence: u16, last: bool, length: usize| TransferBlock {
        sequence,
        last,
        data: vec![1; length],
    };
    let mut receiver = BlockReceiver::new(4);
    assert_eq!(
        receiver.accept(&block(0, false, 252)).err(),
        Some(TransferError::BlockDataSize(252))
    );
    assert_eq!(receiver.accept(&block(0, false, 5)).err(), Some(TransferError::Limit));
    receiver.accept(&block(0, true, 4)).unwrap();
    assert_eq!(
        receiver.accept(&block(1, true, 1)).err(),
        Some(TransferError::AlreadyComplete)
    );
    assert_eq!(BlockReceiver::new(4).finish(), Err(TransferError::Incomplete));
}

#[test]
fn discovery_errors_are_told_apart() {
    let profile = LineProfile::single_segment("line".into(), PollingWindow::new(0, 1).unwrap());
    let start = |options: DiscoveryOptions| {
        discover_line_with_options(&profile, Master::Primary, options).err()
    };
    assert!(matches!(
        start(DiscoveryOptions::default().with_pass_delay(over())),
        Some(DiscoveryError::PassDelay(span)) if span == over()
    ));
    assert!(matches!(
        start(DiscoveryOptions::default()
            .with_retry(RetryPolicy::default().with_total_timeout(Duration::zero()))),
        Some(DiscoveryError::Retry(RetryPolicyError::TotalTimeout))
    ));
    assert!(matches!(
        discover_line_with_options(
            &LineProfile::new("none".into()),
            Master::Primary,
            DiscoveryOptions::default()
        )
        .err(),
        Some(DiscoveryError::Profile(ProfileError::NoModules))
    ));
    let mut hints = DiscoveryHints::new();
    assert_eq!(hints.insert(address(), 1), Err(DiscoveryHintError::Preambles(1)));
    assert_eq!(
        hints.insert(Address::unique(1, 1, Master::Primary).unwrap(), 5),
        Err(DiscoveryHintError::UniqueAddress)
    );
    assert!(matches!(
        DeviceSession::identify_with_preambles(address(), 41),
        Err(SessionError::Preambles(41))
    ));
}

#[test]
fn package_limits_are_checked_one_by_one() {
    assert!(matches!(
        PackageLimits::default().with_files(0).validate(),
        Err(PackageError::ZeroLimit)
    ));
    assert!(matches!(
        PackageLimits::default().with_files(usize::MAX).validate(),
        Err(PackageError::LimitTooLarge(_))
    ));
    assert!(PackageLimits::default().validate().is_ok());
}

#[test]
fn operations_declare_their_command_and_safety() {
    let operation = hart_link::operation::ReadPrimaryValue;
    assert_eq!(operation.command().get(), 1);
    assert_eq!(operation.retry_safety(), hart_link::OperationSafety::ReadOnly);
}
