use std::collections::BTreeMap;

use hart_link::ordered::KeySet;
use hart_link::profile::{
    AddressTiming, AddressTimings, LineProfile, ModuleWindow, PollingWindow, ProfileError,
    TimingProfile,
};
use hart_link::service::{
    discover_line, discover_line_with_address_timings, BlockReceiver, BlockSender, BurstConfig,
    BurstHub, BurstKey, BurstSubscriptionError, Discovery, DiscoveryOptions, DiscoveryReport,
    DiscoveryStep, EnqueueStep, Exchange, ExchangeStep, NextJob, ReceiveOutcome, SendOutcome,
    TransferBlock, TransferError, MAXIMUM_TRANSFER_BYTES,
};
use hart_link::service::{Decisions, ProbeRequest};
use hart_link::telemetry::{export_device_health_snapshot, Metric, MetricLog};
use hart_link::trace::{
    ReplayBuildError, ReplayChannel, ReplayLimits, ReplayStep, Trace, TraceDirection, TraceLimits,
    TraceRecord, MAXIMUM_TRACE_BYTES, MAXIMUM_TRACE_RECORDS,
};
use hart_link::{
    create_link, Address, CommandCode, DeviceHealthSnapshot, DeviceReply, Duration, ExchangeError,
    LinkClient, LinkConfig, LinkRunner, Master, PhysicalLayer,
};

/// The values of a log by name.
fn values(log: &MetricLog) -> BTreeMap<&'static str, u64> {
    log.metrics
        .iter()
        .map(|metric| match metric {
            Metric::Counter(name, value) | Metric::Gauge(name, value) => (*name, *value),
        })
        .collect()
}

/// A line that takes every byte and never answers.
struct SilentLine {
    link: LinkClient,
    runner: LinkRunner,
    now: Duration,
    sent: Vec<u8>,
}

impl SilentLine {
    fn new() -> Self {
        let (link, runner) = create_link(LinkConfig::default());
        SilentLine { link, runner, now: Duration::zero(), sent: Vec::new() }
    }

    fn probe(&mut self, probe: ProbeRequest) -> Result<DeviceReply, ExchangeError> {
        let closed: KeySet<u64> = KeySet::new();
        let lane = self.link.priority_queue(probe.priority);
        let (queue, job) = self
            .link
            .prepare_start(
                probe.request,
                probe.prefix,
                lane,
                probe.retry,
                self.now,
                &Decisions::none(),
            )
            .map_err(ExchangeError::from_start)?;
        assert!(matches!(self.link.enqueue(queue, job, self.now), EnqueueStep::Queued(_)));
        let selected = match self.runner.next_job(&mut self.link, &closed, self.now) {
            NextJob::Selected(selected) => selected,
            _ => panic!("the request is selected"),
        };
        let mut exchange = match Exchange::begin(selected.job, self.now) {
            Ok(exchange) => exchange,
            Err((_, error)) => return Err(error),
        };
        let buffer = vec![0u8; self.runner.read_buffer_size()];
        let result = loop {
            let deadline = exchange.attempt_deadline(self.now);
            self.sent.extend_from_slice(exchange.transmission());
            self.runner.send_finished(SendOutcome::Sent).unwrap();
            self.now = deadline;
            let error = self
                .runner
                .receive_finished(
                    &mut self.link,
                    &exchange,
                    &buffer,
                    ReceiveOutcome::Elapsed,
                    self.now,
                    self.now,
                )
                .unwrap_err();
            match self.runner.settle_attempt(&mut self.link, &mut exchange, Err(error), self.now) {
                ExchangeStep::Finished(result) => break result,
                ExchangeStep::Repeat { wake, .. } => {
                    self.now = wake.unwrap_or(self.now);
                    if let Err(error) = exchange.resume(self.now) {
                        break Err(error);
                    }
                }
            }
        };
        let job = exchange.into_job();
        let (mut notices, drain) = self.runner.finish_job(
            &mut self.link,
            selected.queue,
            &job,
            selected.followers,
            result,
            &closed,
            self.now,
        );
        if drain {
            self.now = self.runner.drain_deadline(self.now).unwrap_or(self.now);
        }
        assert_eq!(notices.len(), 1);
        notices.remove(0).result
    }

    fn discover(&mut self, mut discovery: Discovery) -> DiscoveryReport {
        loop {
            match discovery.next_step() {
                DiscoveryStep::Sleep(span) => self.now = self.now.saturating_add(span),
                DiscoveryStep::Probe(probe) => {
                    let result = self.probe(probe);
                    discovery.answer(result);
                }
                DiscoveryStep::Finished => return discovery.into_report(),
            }
        }
    }
}

fn address() -> Address {
    Address::polling(1, Master::Primary).unwrap()
}

fn burst(command: u16, data: Vec<u8>) -> DeviceReply {
    DeviceReply {
        address: address(),
        command: CommandCode::new(command),
        response_code: 0,
        device_status: 0,
        data,
        burst: true,
        physical_layer: PhysicalLayer::Fsk,
        response_preambles: 3,
        frame_expansion: vec![],
    }
}

#[test]
fn device_health_metrics_use_fixed_bounded_values() {
    let snapshot = DeviceHealthSnapshot {
        successes: 7,
        failures: 2,
        consecutive_transport_failures: 1,
        cooldown_activations: 1,
        cooldown_rejections: 3,
        cooldown_remaining: Duration::from_millis(25),
        learned_response: Some(Duration::from_micros(750)),
        adaptive_attempts: 5,
        adaptive_fallbacks: 1,
    };
    let mut log = MetricLog::new();
    export_device_health_snapshot(snapshot, &mut log);
    let metrics = values(&log);
    assert_eq!(metrics["hart_link_device_successes_total"], 7);
    assert_eq!(metrics["hart_link_device_cooldown_remaining_milliseconds"], 25);
    assert_eq!(metrics["hart_link_device_learned_response_microseconds"], 750);
}

#[test]
fn block_transfer_round_trip_and_order_check() {
    let source: Vec<u8> = (0..=250).cycle().take(1000).collect();
    let mut sender = BlockSender::new(&source, 73).unwrap();
    let mut receiver = BlockReceiver::new(2000);
    while let Some(block) = sender.next_block().unwrap() {
        receiver.accept(&block).unwrap();
    }
    assert_eq!(receiver.finish().unwrap(), source);

    let mut receiver = BlockReceiver::new(10);
    assert!(receiver
        .accept(&TransferBlock { sequence: 1, last: true, data: vec![1] })
        .is_err());
    assert!(receiver
        .accept(&TransferBlock { sequence: 0, last: true, data: vec![0; 252] })
        .is_err());
    assert!(BlockReceiver::try_new(usize::MAX).is_err());
}

#[test]
fn block_transfer_uses_the_complete_u16_sequence_space() {
    let source = vec![0x5a; MAXIMUM_TRANSFER_BYTES];
    let mut sender = BlockSender::new(&source, 251).unwrap();
    let mut blocks = 0usize;
    let mut last_sequence = None;
    while let Some(block) = sender.next_block().unwrap() {
        blocks += 1;
        last_sequence = Some(block.sequence);
        if block.last {
            assert_eq!(block.sequence, u16::MAX);
        }
    }
    assert_eq!(blocks, usize::from(u16::MAX) + 1);
    assert_eq!(last_sequence, Some(u16::MAX));
    assert!(sender.progress().complete);

    assert!(matches!(BlockSender::new(&source, 250), Err(TransferError::SequenceSpace)));
}

#[test]
fn block_receiver_rejects_empty_non_final_progress() {
    let mut receiver = BlockReceiver::new(16);
    let error = receiver
        .accept(&TransferBlock { sequence: 0, last: false, data: Vec::new() })
        .unwrap_err();
    assert_eq!(error, TransferError::EmptyIntermediateBlock);
    assert_eq!(receiver.progress().next_sequence, 0);
}

#[test]
fn burst_hub_deduplicates_and_unsubscribes_on_drop() {
    let mut hub = BurstHub::default();
    let key = BurstKey { address: address(), command: CommandCode::new(1) };
    let mut subscription = hub.subscribe(key, 2).unwrap();
    let now = Duration::zero();
    hub.publish(burst(1, vec![1, 2, 3]), now, now);
    hub.publish(burst(1, vec![1, 2, 3]), now, now);
    assert_eq!(subscription.try_receive().unwrap().reply.data, vec![1, 2, 3]);
    assert!(subscription.try_receive().is_err());
    assert_eq!(hub.snapshot().duplicates, 1);
    drop(subscription);
    assert_eq!(hub.snapshot().subscriptions, 0);
}

#[test]
fn burst_hub_bounds_fingerprints_and_expires_duplicate_suppression() {
    let mut hub = BurstHub::new(BurstConfig {
        maximum_subscriptions: 8,
        maximum_buffered_deliveries: 16,
        maximum_tracked_keys: 2,
        duplicate_window: Duration::from_millis(10),
    })
    .unwrap();
    let first_key = BurstKey { address: address(), command: CommandCode::new(1) };
    let mut subscription = hub.subscribe(first_key, 2).unwrap();
    let mut now = Duration::zero();
    for command in 1..=3 {
        hub.publish(burst(command, vec![u8::try_from(command).unwrap()]), now, now);
    }
    assert_eq!(subscription.try_receive().unwrap().reply.data, vec![1]);
    assert_eq!(hub.snapshot().tracked_keys, 2);
    assert_eq!(hub.snapshot().fingerprint_evictions, 1);

    now = now.saturating_add(Duration::from_millis(12));
    hub.publish(burst(1, vec![1]), now, now);
    assert_eq!(subscription.try_receive().unwrap().reply.data, vec![1]);
}

#[test]
fn burst_hub_rejects_forged_oversized_messages() {
    let mut hub = BurstHub::default();
    let now = Duration::zero();
    assert!(hub.try_publish(burst(1, vec![0; 256]), now, now).is_err());
    assert_eq!(hub.snapshot().invalid_messages, 1);
    assert_eq!(hub.snapshot().tracked_keys, 0);
}

#[test]
fn burst_hub_enforces_the_total_subscription_limit() {
    let mut hub = BurstHub::new(BurstConfig::default().with_maximum_subscriptions(1)).unwrap();
    let key = BurstKey::new(address(), CommandCode::new(1));
    let _first = hub.subscribe_default(key).unwrap();
    assert!(matches!(
        hub.subscribe_default(key),
        Err(BurstSubscriptionError::SubscriptionLimit(1))
    ));

    let mut hub = BurstHub::new(
        BurstConfig::default()
            .with_maximum_subscriptions(2)
            .with_maximum_buffered_deliveries(64),
    )
    .unwrap();
    let _first = hub.subscribe_default(key).unwrap();
    assert!(matches!(
        hub.subscribe_default(key),
        Err(BurstSubscriptionError::AggregateCapacity(64))
    ));
    assert_eq!(hub.snapshot().reserved_delivery_slots, 64);
}

#[test]
fn profile_applies_only_declared_module_shift() {
    let module = ModuleWindow {
        module: 2,
        polling: PollingWindow::new(0, 15).unwrap(),
        address_shift: 16,
    };
    let profile = LineProfile {
        name: "moxa-2".into(),
        timing: TimingProfile::default(),
        modules: vec![module],
        discovery_preambles: 20,
        wake_prefix: vec![0xff; 4],
    };
    profile.validate().unwrap();
    assert_eq!(LineProfile::shifted_address(module, 3), Some(19));
    assert_eq!(LineProfile::shifted_address(module, 16), None);
}

#[test]
fn address_timings_are_bounded_and_validated() {
    let timings = AddressTimings::new()
        .with(
            17,
            AddressTiming::new()
                .with_delay_before_probe(Duration::from_millis(25))
                .with_response_timeout(Duration::from_secs(3)),
        )
        .unwrap();
    assert_eq!(timings.len(), 1);
    assert_eq!(timings.get(17).unwrap().delay_before_probe, Duration::from_millis(25));
    assert!(AddressTimings::new().with(64, AddressTiming::new()).is_err());
    assert!(AddressTimings::new()
        .with(1, AddressTiming::new().with_response_timeout(Duration::zero()))
        .is_err());
}

#[test]
fn discovery_applies_delay_only_to_overridden_address() {
    let profile = LineProfile::single_segment(
        "address-timing".into(),
        PollingWindow::new(0, 0).unwrap(),
    )
    .with_timing(
        TimingProfile::default()
            .with_connect_settle(Duration::zero())
            .with_first_response(Duration::from_millis(5))
            .with_steady_response(Duration::from_millis(5))
            .with_scan_interval(Duration::zero()),
    );
    let timings = AddressTimings::new()
        .with(
            0,
            AddressTiming::new()
                .with_delay_before_probe(Duration::from_millis(20))
                .with_response_timeout(Duration::from_millis(5)),
        )
        .unwrap();
    let mut line = SilentLine::new();
    let report = line.discover(
        discover_line_with_address_timings(
            &profile,
            Master::Primary,
            DiscoveryOptions::default(),
            timings,
        )
        .unwrap(),
    );
    assert!(report.devices.is_empty());
    assert!(line.now.nanos >= Duration::from_millis(25).nanos);
}

#[test]
fn profile_rejects_overlapping_translated_modules() {
    let profile = LineProfile::new("overlap".into())
        .with_module(ModuleWindow::new(1, PollingWindow::new(0, 3).unwrap()))
        .with_module(
            ModuleWindow::new(2, PollingWindow::new(0, 3).unwrap()).with_address_shift(2),
        );
    assert!(matches!(
        profile.validate(),
        Err(ProfileError::AddressOverlap { address: 2, first_module: 1, second_module: 2 })
    ));
}

#[test]
fn discovery_uses_profile_preamble_count() {
    let profile = LineProfile {
        name: "preamble-check".into(),
        timing: TimingProfile {
            connect_settle: Duration::zero(),
            first_response: Duration::from_millis(10),
            steady_response: Duration::from_millis(10),
            scan_interval: Duration::zero(),
        },
        modules: vec![ModuleWindow {
            module: 1,
            polling: PollingWindow::new(0, 0).unwrap(),
            address_shift: 0,
        }],
        discovery_preambles: 20,
        wake_prefix: vec![0x00, 0xaa, 0x55],
    };
    let mut line = SilentLine::new();
    let report = line.discover(discover_line(&profile, Master::Primary).unwrap());
    assert_eq!(report.attempts, 1);
    assert!(report.devices.is_empty());
    assert!(line.sent.starts_with(&[0x00, 0xaa, 0x55]));
    assert_eq!(&line.sent[3..23], &[0xff; 20]);
}

#[test]
fn trace_is_bounded_and_exports_pcapng() {
    let mut trace = Trace::new(2);
    for byte in 1..=3 {
        trace.push(TraceRecord {
            direction: TraceDirection::Outbound,
            timestamp: Duration::zero(),
            bytes: vec![byte],
        });
    }
    assert_eq!(trace.records().len(), 2);
    assert_eq!(trace.dropped(), 1);
    assert_eq!(&trace.to_pcapng()[..4], &0x0a0d_0d0au32.to_le_bytes());
}

#[test]
fn trace_enforces_a_payload_byte_budget() {
    let mut trace = Trace::with_limits(TraceLimits { maximum_records: 10, maximum_bytes: 4 });
    for bytes in [vec![1, 2, 3], vec![4, 5, 6], vec![7, 8, 9, 10, 11]] {
        trace.push(TraceRecord {
            direction: TraceDirection::Inbound,
            timestamp: Duration::zero(),
            bytes,
        });
    }
    assert_eq!(trace.records().len(), 1);
    assert_eq!(trace.retained_bytes(), 3);
    assert_eq!(trace.dropped(), 2);
    assert_eq!(trace.dropped_bytes(), 8);
}

#[test]
fn strict_trace_construction_rejects_resource_amplifying_limits() {
    assert!(Trace::try_with_limits(TraceLimits {
        maximum_records: usize::MAX,
        maximum_bytes: usize::MAX,
    })
    .is_err());
    let trace = Trace::with_limits(TraceLimits {
        maximum_records: usize::MAX,
        maximum_bytes: usize::MAX,
    });
    assert_eq!(trace.limits().maximum_records, MAXIMUM_TRACE_RECORDS);
    assert_eq!(trace.limits().maximum_bytes, MAXIMUM_TRACE_BYTES);
}

#[test]
fn replay_construction_stops_infinite_or_oversized_scenarios() {
    let limits = ReplayLimits::default().with_maximum_steps(2).with_maximum_bytes(3);
    assert!(matches!(
        ReplayChannel::with_limits(
            vec![ReplayStep::Fail, ReplayStep::Fail, ReplayStep::Fail],
            limits
        ),
        Err(ReplayBuildError::ScenarioSteps(2))
    ));
    assert!(matches!(
        ReplayChannel::with_limits(vec![ReplayStep::Provide(vec![0; 4])], limits),
        Err(ReplayBuildError::ScenarioBytes(3))
    ));
}
