use std::collections::VecDeque;

use hart_link::catalog::OperationSafety;
use hart_link::channel::TcpOptions;
use hart_link::emulator::{
    try_channel_capacity, EmulatedDevice, EmulatedIdentity, FaultPlan, MemoryEndpoint,
    MAXIMUM_EMULATOR_NOISE_PREFIX,
};
use hart_link::nonzero::NonZeroU8;
use hart_link::operation::{
    DeviceIdentity, ReadAdditionalStatus, ReadDeviceIdentity, ReadDynamicValues, ReadLongTag,
    ReadLoopSignal, ReadPrimaryValue, ReadTagDescriptorDate,
};
use hart_link::ordered::KeySet;
use hart_link::profile::{LineProfile, ModuleWindow, PollingWindow, TimingProfile};
use hart_link::service::{
    discover_line, discover_line_with_options, priority_queues, BurstHub, BurstKey, Decisions,
    DeviceSession, Discovery, DiscoveryHints, DiscoveryOptions, DiscoveryReport, DiscoveryStep,
    EnqueueStep, Exchange, ExchangeStep, LinkBuilder, ManagedStart, NextJob, Notice, Plan,
    PlanExpectation, PlanReport, PlanStep, QueueConfig, QueueId, QuickStep, ReceiveOutcome,
    SelectedJob, SendOutcome, SessionError, SnapshotOptions,
};
use hart_link::service::snapshot::SnapshotResults;
use hart_link::trace::{ReplayChannel, ReplayStep};
use hart_link::{
    create_link, try_create_link, AdaptiveTiming, Address, ChannelError, CommandCode,
    CommandPolicy, CommandRouting, DeviceHealthConfigError, DeviceHealthOptions, DeviceReply,
    DeviceSnapshot, Duration, ExchangeError, Float32, Frame, FrameDecoder, FrameKind,
    LinkBuildError, LinkClient, LinkConfig, LinkConfigError, LinkEvent, LinkRunner,
    ManagedDeviceSession, ManagedSessionError, Master, Operation, PendingReply, PhysicalLayer,
    Priority, QueueScheduling, RawOperation, Request, RetryPolicy, RetryPolicyError,
    SnapshotField, StartError, DecodeLimits, MAXIMUM_LATE_RESPONSE_GUARD, MAXIMUM_RETRY_DURATION,
    MAXIMUM_TRANSMIT_PREFIX,
};

fn float(value: f32) -> Float32 {
    Float32::from_bits(value.to_bits())
}

fn number(value: Float32) -> f32 {
    f32::from_bits(value.to_bits())
}

fn test_device(address: Address) -> EmulatedDevice {
    EmulatedDevice {
        address,
        identity: EmulatedIdentity {
            manufacturer_id: 0x1234,
            device_type: 0x042a,
            request_preambles: 7,
            universal_revision: 7,
            device_revision: 3,
            software_revision: 4,
            hardware_revision: 5,
            physical_signaling: 1,
            flags: 1,
            device_id: 0x12_34_56,
            response_preambles: 5,
            maximum_device_variables: 8,
            configuration_change_counter: 12,
            extended_status: 0,
            private_label_distributor: 0,
            device_profile: 1,
        },
        primary_unit: 57,
        primary_value: float(123.5),
        loop_current: float(12.0),
        percent: float(50.0),
        status: 0,
        additional_status: vec![1, 2, 3, 4],
    }
}

fn test_identity() -> DeviceIdentity {
    DeviceIdentity {
        response_identifier: 0xfe,
        manufacturer_id: 0x1234,
        device_type: 0x042a,
        request_preambles: 7,
        universal_revision: 7,
        device_revision: 3,
        software_revision: 4,
        hardware_revision: 5,
        physical_signaling: 1,
        flags: 1,
        device_id: 0x12_34_56,
        response_preambles: Some(5),
        maximum_device_variables: Some(8),
        configuration_change_counter: Some(12),
        extended_status: Some(0),
        private_label_distributor: Some(0),
        device_profile: Some(1),
        extension: Vec::new(),
    }
}

/// The far side of a link in simulated time.
trait Line {
    /// Takes the bytes of a request.
    fn send(&mut self, bytes: &[u8], now: Duration, deadline: Duration) -> SendOutcome;

    /// Fills the start of the buffer, moving time forward until bytes come or
    /// the deadline is reached.
    fn receive(
        &mut self,
        buffer: &mut Vec<u8>,
        now: &mut Duration,
        deadline: Duration,
    ) -> ReceiveOutcome;
}

fn fill(buffer: &mut Vec<u8>, bytes: &[u8]) -> ReceiveOutcome {
    buffer[..bytes.len()].copy_from_slice(bytes);
    ReceiveOutcome::Read(bytes.len())
}

/// A line on which no send ever ends.
struct HangingSend;

impl Line for HangingSend {
    fn send(&mut self, _bytes: &[u8], _now: Duration, _deadline: Duration) -> SendOutcome {
        SendOutcome::Elapsed
    }

    fn receive(
        &mut self,
        _buffer: &mut Vec<u8>,
        now: &mut Duration,
        deadline: Duration,
    ) -> ReceiveOutcome {
        *now = deadline;
        ReceiveOutcome::Elapsed
    }
}

/// A line that counts requests and never answers.
#[derive(Default)]
struct SilentLine {
    sends: usize,
}

impl Line for SilentLine {
    fn send(&mut self, _bytes: &[u8], _now: Duration, _deadline: Duration) -> SendOutcome {
        self.sends += 1;
        SendOutcome::Sent
    }

    fn receive(
        &mut self,
        _buffer: &mut Vec<u8>,
        now: &mut Duration,
        deadline: Duration,
    ) -> ReceiveOutcome {
        *now = deadline;
        ReceiveOutcome::Elapsed
    }
}

/// A line that answers every request but the second at once.
struct AdaptiveScriptLine {
    address: Address,
    sends: usize,
    pending: Vec<u8>,
}

impl Line for AdaptiveScriptLine {
    fn send(&mut self, _bytes: &[u8], _now: Duration, _deadline: Duration) -> SendOutcome {
        self.sends += 1;
        if self.sends != 2 {
            let mut payload = vec![0, 0, 57];
            payload.extend_from_slice(&123.5f32.to_be_bytes());
            self.pending.extend(response(self.address, 1, payload));
        }
        SendOutcome::Sent
    }

    fn receive(
        &mut self,
        buffer: &mut Vec<u8>,
        now: &mut Duration,
        deadline: Duration,
    ) -> ReceiveOutcome {
        if self.pending.is_empty() {
            *now = deadline;
            return ReceiveOutcome::Elapsed;
        }
        let bytes = std::mem::take(&mut self.pending);
        fill(buffer, &bytes)
    }
}

impl Line for ReplayChannel {
    fn send(&mut self, bytes: &[u8], _now: Duration, _deadline: Duration) -> SendOutcome {
        match ReplayChannel::send(self, bytes) {
            Ok(()) => SendOutcome::Sent,
            Err(error) => SendOutcome::Failed(error),
        }
    }

    fn receive(
        &mut self,
        buffer: &mut Vec<u8>,
        _now: &mut Duration,
        _deadline: Duration,
    ) -> ReceiveOutcome {
        match ReplayChannel::receive(self, buffer.len()) {
            Ok(bytes) => fill(buffer, &bytes),
            Err(error) => ReceiveOutcome::Failed(error),
        }
    }
}

/// An emulated device behind a pair of endpoints with faults.
struct DeviceLine {
    host: MemoryEndpoint,
    peer: MemoryEndpoint,
    device: EmulatedDevice,
    decoder: FrameDecoder,
    arrivals: VecDeque<(Duration, Vec<u8>)>,
}

impl DeviceLine {
    fn new(address: Address) -> Self {
        DeviceLine {
            host: MemoryEndpoint::default(),
            peer: MemoryEndpoint::default(),
            device: test_device(address),
            decoder: FrameDecoder::new(DecodeLimits::default()),
            arrivals: VecDeque::new(),
        }
    }

    fn with_host_faults(mut self, plan: FaultPlan) -> Self {
        self.host.set_faults(plan);
        self
    }

    fn with_device_faults(mut self, plan: FaultPlan) -> Self {
        self.peer.set_faults(plan);
        self
    }
}

impl Line for DeviceLine {
    fn send(&mut self, bytes: &[u8], now: Duration, _deadline: Duration) -> SendOutcome {
        let outbound = match self.host.transmit(bytes) {
            Ok(outbound) => outbound,
            Err(error) => return SendOutcome::Failed(error),
        };
        if let Some(echo) = outbound.echo {
            self.arrivals.push_back((now, echo));
        }
        let mut clock = now;
        for fragment in outbound.fragments {
            clock = clock.saturating_add(outbound.latency);
            for event in self.decoder.push(&fragment) {
                if let Some(reply) = self.device.serve(&event).unwrap() {
                    let inbound = self.peer.transmit(&reply).unwrap();
                    for chunk in inbound.fragments {
                        clock = clock.saturating_add(inbound.latency);
                        self.arrivals.push_back((clock, chunk));
                    }
                }
            }
        }
        SendOutcome::Sent
    }

    fn receive(
        &mut self,
        buffer: &mut Vec<u8>,
        now: &mut Duration,
        deadline: Duration,
    ) -> ReceiveOutcome {
        loop {
            match self.host.receive(buffer.len()) {
                Ok(Some(bytes)) => return fill(buffer, &bytes),
                Ok(None) => {}
                Err(error) => return ReceiveOutcome::Failed(error),
            }
            match self.arrivals.pop_front() {
                Some((time, chunk)) if time.nanos <= deadline.nanos => {
                    if time.nanos > now.nanos {
                        *now = time;
                    }
                    self.host.deliver(&chunk);
                }
                Some(later) => {
                    self.arrivals.push_front(later);
                    *now = deadline;
                    return ReceiveOutcome::Elapsed;
                }
                None => {
                    *now = deadline;
                    return ReceiveOutcome::Elapsed;
                }
            }
        }
    }
}

/// A link, its runner and the line, driven in simulated time.
struct Bus<L: Line> {
    link: LinkClient,
    runner: LinkRunner,
    line: L,
    now: Duration,
    closed: KeySet<u64>,
    done: Vec<Notice>,
}

impl<L: Line> Bus<L> {
    fn new(link: (LinkClient, LinkRunner), line: L) -> Self {
        Bus {
            link: link.0,
            runner: link.1,
            line,
            now: Duration::zero(),
            closed: KeySet::new(),
            done: Vec::new(),
        }
    }

    fn start(
        &mut self,
        request: Request,
        queue: QueueId,
        policy: RetryPolicy,
    ) -> Result<PendingReply, StartError> {
        self.link.try_start(request, queue, policy, self.now, &Decisions::none())
    }

    fn attempt(&mut self, exchange: &Exchange) -> Result<DeviceReply, ExchangeError> {
        let deadline = exchange.attempt_deadline(self.now);
        let outcome = self.line.send(exchange.transmission(), self.now, deadline);
        if matches!(outcome, SendOutcome::Elapsed) {
            self.now = deadline;
        }
        self.runner.send_finished(outcome)?;
        let mut buffer = vec![0u8; self.runner.read_buffer_size()];
        loop {
            let outcome = self.line.receive(&mut buffer, &mut self.now, deadline);
            let heard = self.runner.receive_finished(
                &mut self.link,
                exchange,
                &buffer,
                outcome,
                self.now,
                self.now,
            )?;
            if let Some(reply) = heard {
                return Ok(reply);
            }
        }
    }

    fn carry_out(&mut self, selected: SelectedJob) {
        let (job, result) = match Exchange::begin(selected.job, self.now) {
            Err((job, error)) => (job, Err(error)),
            Ok(mut exchange) => {
                let result = loop {
                    let attempt = self.attempt(&exchange);
                    match self.runner.settle_attempt(
                        &mut self.link,
                        &mut exchange,
                        attempt,
                        self.now,
                    ) {
                        ExchangeStep::Finished(result) => break result,
                        ExchangeStep::Repeat { wake, .. } => {
                            self.now = wake.unwrap_or(self.now);
                            if let Err(error) = exchange.resume(self.now) {
                                break Err(error);
                            }
                        }
                    }
                };
                (exchange.into_job(), result)
            }
        };
        let (notices, drain) = self.runner.finish_job(
            &mut self.link,
            selected.queue,
            &job,
            selected.followers,
            result,
            &self.closed,
            self.now,
        );
        self.done.extend(notices);
        if drain {
            self.drain();
        }
        if !self.runner.channel_usable() {
            let notices = self.runner.fail_pending_jobs(&mut self.link, &self.closed);
            self.done.extend(notices);
        }
    }

    fn drain(&mut self) {
        let Some(deadline) = self.runner.drain_deadline(self.now) else {
            return;
        };
        let mut buffer = vec![0u8; self.runner.read_buffer_size()];
        loop {
            let outcome = match self.line.receive(&mut buffer, &mut self.now, deadline) {
                ReceiveOutcome::Read(count) => Ok(count),
                ReceiveOutcome::Failed(error) => Err(error),
                ReceiveOutcome::Elapsed => return,
            };
            if !self.runner.drain_late_responses(
                &mut self.link,
                &buffer,
                &outcome,
                self.now,
                self.now,
            ) {
                return;
            }
        }
    }

    fn select(&mut self) -> Option<SelectedJob> {
        loop {
            match self.runner.next_job(&mut self.link, &self.closed, self.now) {
                NextJob::Idle | NextJob::Stopped => return None,
                NextJob::Skipped => {}
                NextJob::Expired(notice) => self.done.push(notice),
                NextJob::Selected(selected) => return Some(selected),
            }
        }
    }

    fn run(&mut self) {
        while let Some(selected) = self.select() {
            self.carry_out(selected);
        }
    }

    fn wait(&mut self, pending: PendingReply) -> Result<DeviceReply, ExchangeError> {
        loop {
            if let Some(index) = self.done.iter().position(|notice| notice.id == pending.id()) {
                return self.done.remove(index).result;
            }
            let selected = self.select().expect("the request waits in its queue");
            self.carry_out(selected);
        }
    }

    fn request(
        &mut self,
        request: Request,
        queue: QueueId,
        policy: RetryPolicy,
    ) -> Result<DeviceReply, ExchangeError> {
        let pending =
            self.start(request, queue, policy).map_err(ExchangeError::from_start)?;
        self.wait(pending)
    }

    fn execute<O: Operation>(
        &mut self,
        request: Request,
        operation: &O,
        queue: QueueId,
        policy: RetryPolicy,
    ) -> Result<O::Output, SessionError> {
        let reply = self.request(request, queue, policy).map_err(SessionError::Exchange)?;
        operation.decode_reply(&reply).map_err(SessionError::Operation)
    }

    fn managed<O: Operation>(
        &mut self,
        managed: &mut ManagedDeviceSession,
        start: Result<ManagedStart, ManagedSessionError>,
        operation: &O,
        queue: QueueId,
        policy: RetryPolicy,
    ) -> Result<O::Output, ManagedSessionError> {
        let command = operation.command();
        let operation_started = self.now;
        let request = |managed: &ManagedDeviceSession| managed.session().request(operation).unwrap();
        match start? {
            ManagedStart::Plain(retry) => {
                let result = self.execute(request(managed), operation, queue, retry);
                let elapsed = self.now.saturating_sub(operation_started);
                managed.finish(result, elapsed, command, self.now)
            }
            ManagedStart::Quick(retry) => {
                let result = self.execute(request(managed), operation, queue, retry);
                let elapsed = self.now.saturating_sub(operation_started);
                match managed.settle_quick(result, policy, elapsed, elapsed, command, self.now) {
                    QuickStep::Finished(outcome) => outcome,
                    QuickStep::Repeat(fallback) => {
                        let started = self.now;
                        let result = self.execute(request(managed), operation, queue, fallback);
                        let elapsed = self.now.saturating_sub(started);
                        managed.finish(result, elapsed, command, self.now)
                    }
                }
            }
        }
    }

    fn discover(&mut self, mut discovery: Discovery) -> DiscoveryReport {
        loop {
            match discovery.next_step() {
                DiscoveryStep::Sleep(span) => self.now = self.now.saturating_add(span),
                DiscoveryStep::Probe(probe) => {
                    let lane = self.link.priority_queue(probe.priority);
                    let (queue, job) = self
                        .link
                        .prepare_start(
                            probe.request,
                            probe.prefix,
                            lane,
                            probe.retry,
                            self.now,
                            &Decisions::none(),
                        )
                        .unwrap();
                    let pending = match self.link.enqueue(queue, job, self.now) {
                        EnqueueStep::Queued(pending) => pending,
                        _ => panic!("the queue has room"),
                    };
                    let result = self.wait(pending);
                    discovery.answer(result);
                }
                DiscoveryStep::Finished => return discovery.into_report(),
            }
        }
    }

    fn stop(mut self) {
        self.link.close_input();
        assert!(matches!(
            self.runner.next_job(&mut self.link, &self.closed, self.now),
            NextJob::Stopped
        ));
    }
}

/// A link with a service queue and a normal queue.
fn two_queues() -> LinkBuilder {
    LinkBuilder::new().queues(priority_queues(64, 256, QueueScheduling::equal()).unwrap())
}

fn zero() -> Duration {
    Duration::zero()
}

fn response(address: Address, wire_command: u8, payload: Vec<u8>) -> Vec<u8> {
    Frame {
        preambles: 5,
        kind: FrameKind::Response,
        physical_layer: PhysicalLayer::Fsk,
        address,
        expansion: vec![],
        wire_command,
        payload,
        repair: None,
    }
    .encode()
    .unwrap()
}

fn encoded(request: &Request) -> Vec<u8> {
    request.to_frame().unwrap().encode().unwrap()
}

fn queued(link: &LinkClient, queue: QueueId) -> usize {
    link.queue_snapshot(queue).unwrap().queued
}

const NORMAL: Priority = Priority::Normal;
const SERVICE: Priority = Priority::Service;

#[test]
fn runner_handles_echo_noise_fragments_and_many_clients() {
    let address = Address::polling(3, Master::Primary).unwrap();
    let line = DeviceLine::new(address)
        .with_host_faults(FaultPlan { echo: true, ..FaultPlan::default() })
        .with_device_faults(FaultPlan {
            noise_prefix: vec![0x00, 0x55, 0x7e],
            fragment_size: Some(2),
            ..FaultPlan::default()
        });
    let mut bus = Bus::new(two_queues().build(zero()).unwrap(), line);

    let request = ReadDeviceIdentity.request(address).unwrap();
    let identity = bus
        .execute(request, &ReadDeviceIdentity, SERVICE.queue(), RetryPolicy::default())
        .unwrap();
    let session = DeviceSession::from_identity(address, identity).unwrap();
    let identity = &session.profile().identity;
    assert_eq!(identity.device_id, 0x12_34_56);
    assert_eq!(identity.request_preambles, 7);
    assert_eq!(
        session.profile().address,
        Address::unique(0x042a, 0x12_34_56, Master::Primary).unwrap()
    );
    let request = session.request(&ReadPrimaryValue).unwrap();
    let session_value = bus
        .execute(request, &ReadPrimaryValue, NORMAL.queue(), RetryPolicy::default())
        .unwrap();
    assert!((number(session_value.value) - 123.5).abs() < f32::EPSILON);

    let mut waits = Vec::new();
    for index in 0..24 {
        let request = if index % 2 == 0 {
            ReadPrimaryValue.request(address).unwrap()
        } else {
            ReadLoopSignal.request(address).unwrap()
        };
        waits.push(bus.start(request, NORMAL.queue(), RetryPolicy::default()).unwrap());
    }
    for (index, wait) in waits.into_iter().enumerate() {
        let reply = bus.wait(wait).unwrap();
        let value = if index % 2 == 0 {
            number(ReadPrimaryValue.decode_reply(&reply).unwrap().value)
        } else {
            number(ReadLoopSignal.decode_reply(&reply).unwrap().percent)
        };
        assert!((value - 123.5).abs() < f32::EPSILON || (value - 50.0).abs() < f32::EPSILON);
    }
    let snapshot = bus.link.snapshot();
    assert_eq!(snapshot.completed, 26);
    assert_eq!(snapshot.failed, 0);
    let events = bus.link.take_events();
    assert!(events.iter().any(|event| matches!(event, LinkEvent::EchoDiscarded { .. })));
}

#[test]
fn managed_session_opens_cooldown_without_consuming_queue_capacity() {
    let polling = Address::polling(3, Master::Primary).unwrap();
    let line = DeviceLine::new(polling)
        .with_device_faults(FaultPlan { drop_next: true, ..FaultPlan::default() });
    let mut bus =
        Bus::new(two_queues().late_response_guard(zero()).build(zero()).unwrap(), line);
    let session = DeviceSession::from_identity(polling, test_identity()).unwrap();
    let mut managed = ManagedDeviceSession::new(
        session,
        DeviceHealthOptions::default()
            .with_failure_threshold(NonZeroU8::one())
            .with_cooldown(Duration::from_secs(1))
            .with_adaptive(None),
    )
    .unwrap();
    let retry = RetryPolicy::single_attempt(Duration::from_millis(15), Duration::from_millis(100));
    let command = ReadPrimaryValue.command();

    let start = managed.execute(command, retry, bus.now);
    let first = bus
        .managed(&mut managed, start, &ReadPrimaryValue, NORMAL.queue(), retry)
        .unwrap_err();
    assert!(matches!(
        first,
        ManagedSessionError::Session(SessionError::Exchange(ExchangeError::ResponseTimeout))
    ));
    let started = bus.link.snapshot().started;
    let start = managed.execute(command, retry, bus.now);
    let second = bus
        .managed(&mut managed, start, &ReadPrimaryValue, NORMAL.queue(), retry)
        .unwrap_err();
    assert!(matches!(second, ManagedSessionError::CoolingDown { .. }));
    assert_eq!(bus.link.snapshot().started, started);

    let start = managed.probe(command, retry, bus.now);
    let value = bus
        .managed(&mut managed, start, &ReadPrimaryValue, SERVICE.queue(), retry)
        .unwrap();
    assert!((number(value.value) - 123.5).abs() < f32::EPSILON);
    let health = managed.snapshot(bus.now);
    assert_eq!(health.successes, 1);
    assert_eq!(health.failures, 1);
    assert_eq!(health.cooldown_activations, 1);
    assert_eq!(health.cooldown_rejections, 1);
    assert_eq!(health.consecutive_transport_failures, 0);
    assert_eq!(health.cooldown_remaining, Duration::zero());
}

#[test]
fn managed_session_adapts_only_registered_read_only_commands() {
    let polling = Address::polling(3, Master::Primary).unwrap();
    let mut bus = Bus::new(
        two_queues().late_response_guard(zero()).build(zero()).unwrap(),
        DeviceLine::new(polling),
    );
    let session = DeviceSession::from_identity(polling, test_identity()).unwrap();
    let mut managed = ManagedDeviceSession::new(
        session,
        DeviceHealthOptions::default().with_adaptive(Some(
            AdaptiveTiming::default()
                .with_minimum(Duration::from_millis(20))
                .with_maximum(Duration::from_millis(50))
                .with_margin(Duration::from_millis(20)),
        )),
    )
    .unwrap();
    let retry = RetryPolicy::default()
        .with_response_timeout(Duration::from_millis(100))
        .with_total_timeout(Duration::from_secs(1));

    for _ in 0..2 {
        let start = managed.execute(ReadPrimaryValue.command(), retry, bus.now);
        bus.managed(&mut managed, start, &ReadPrimaryValue, NORMAL.queue(), retry).unwrap();
    }
    let health = managed.snapshot(bus.now);
    assert!(health.learned_response.is_some());
    assert_eq!(health.adaptive_attempts, 1);
    assert_eq!(health.adaptive_fallbacks, 0);

    let forged_vendor_read = RawOperation::read(60_000u16, Vec::new());
    let start = managed.probe(forged_vendor_read.command(), retry, bus.now);
    let error = bus
        .managed(&mut managed, start, &forged_vendor_read, SERVICE.queue(), retry)
        .unwrap_err();
    assert!(matches!(error, ManagedSessionError::UnsafeProbe { command: 60_000 }));
    assert_eq!(managed.snapshot(bus.now).adaptive_attempts, 1);
}

#[test]
fn adaptive_timeout_falls_back_within_the_original_retry_budget() {
    let polling = Address::polling(3, Master::Primary).unwrap();
    let unique = test_identity().unique_address(Master::Primary).unwrap();
    let line = AdaptiveScriptLine { address: unique, sends: 0, pending: Vec::new() };
    let mut bus =
        Bus::new(two_queues().late_response_guard(zero()).build(zero()).unwrap(), line);
    let session = DeviceSession::from_identity(polling, test_identity()).unwrap();
    let mut managed = ManagedDeviceSession::new(
        session,
        DeviceHealthOptions::default().with_adaptive(Some(
            AdaptiveTiming::default()
                .with_minimum(Duration::from_millis(5))
                .with_maximum(Duration::from_millis(20))
                .with_margin(Duration::from_millis(5)),
        )),
    )
    .unwrap();
    let retry = RetryPolicy::default()
        .with_transport_retries(1)
        .with_response_timeout(Duration::from_millis(50))
        .with_total_timeout(Duration::from_millis(200));

    let start = managed.execute(ReadPrimaryValue.command(), retry, bus.now);
    bus.managed(&mut managed, start, &ReadPrimaryValue, NORMAL.queue(), retry).unwrap();
    let start = managed.execute(ReadPrimaryValue.command(), retry, bus.now);
    let value =
        bus.managed(&mut managed, start, &ReadPrimaryValue, NORMAL.queue(), retry).unwrap();
    assert!((number(value.value) - 123.5).abs() < f32::EPSILON);
    assert_eq!(bus.line.sends, 3);
    let health = managed.snapshot(bus.now);
    assert_eq!(health.successes, 2);
    assert_eq!(health.failures, 0);
    assert_eq!(health.adaptive_attempts, 1);
    assert_eq!(health.adaptive_fallbacks, 1);
    assert_eq!(bus.now, Duration::from_millis(5));
    bus.stop();
}

/// Runs the commands of a snapshot one by one and collects what they give.
fn snapshot(
    bus: &mut Bus<DeviceLine>,
    polling: Address,
    options: SnapshotOptions,
) -> DeviceSnapshot {
    let session = DeviceSession::from_identity(polling, test_identity()).unwrap();
    let mut results = SnapshotResults {
        primary_value: None,
        loop_signal: None,
        dynamic_values: None,
        tag: None,
        long_tag: None,
        additional_status: None,
    };
    let queue = bus.link.default_queue_id();
    let retry = bus.link.default_retry();
    for command in options.commands(session.profile().identity.universal_revision) {
        match command.get() {
            1 => {
                let request = session.request(&ReadPrimaryValue).unwrap();
                results.primary_value =
                    Some(bus.execute(request, &ReadPrimaryValue, queue, retry));
            }
            2 => {
                let request = session.request(&ReadLoopSignal).unwrap();
                results.loop_signal = Some(bus.execute(request, &ReadLoopSignal, queue, retry));
            }
            3 => {
                let request = session.request(&ReadDynamicValues).unwrap();
                results.dynamic_values =
                    Some(bus.execute(request, &ReadDynamicValues, queue, retry));
            }
            13 => {
                let request = session.request(&ReadTagDescriptorDate).unwrap();
                results.tag = Some(bus.execute(request, &ReadTagDescriptorDate, queue, retry));
            }
            20 => {
                let request = session.request(&ReadLongTag).unwrap();
                results.long_tag = Some(bus.execute(request, &ReadLongTag, queue, retry));
            }
            48 => {
                let request = session.request(&ReadAdditionalStatus).unwrap();
                results.additional_status =
                    Some(bus.execute(request, &ReadAdditionalStatus, queue, retry));
            }
            other => panic!("unexpected command {}", other),
        }
    }
    let profile = DeviceSession::from_identity(polling, test_identity()).unwrap();
    let profile = hart_link::service::SessionProfile {
        address: profile.profile().address,
        identity: test_identity(),
        request_preambles: profile.profile().request_preambles,
    };
    DeviceSnapshot::collect(bus.now, profile, options, results)
}

#[test]
fn device_snapshot_preserves_successes_when_other_commands_fail() {
    let polling = Address::polling(3, Master::Primary).unwrap();
    let mut bus =
        Bus::new(LinkBuilder::new().build(zero()).unwrap(), DeviceLine::new(polling));

    let identity_only = snapshot(&mut bus, polling, SnapshotOptions::identity_only());
    assert!(!identity_only.has_errors());
    assert!(matches!(identity_only.primary_value, SnapshotField::NotRequested));
    assert_eq!(bus.link.snapshot().started, 0);

    let snapshot = snapshot(&mut bus, polling, SnapshotOptions::full());
    assert!(snapshot.primary_value.value().is_some());
    assert!(snapshot.loop_signal.value().is_some());
    assert_eq!(snapshot.dynamic_values.error().unwrap().command.get(), 3);
    assert_eq!(snapshot.tag.error().unwrap().command.get(), 13);
    assert_eq!(snapshot.long_tag.error().unwrap().command.get(), 20);
    assert_eq!(snapshot.additional_status.value().unwrap().bytes, vec![1, 2, 3, 4]);
    assert!(snapshot.has_errors());
}

#[test]
fn total_deadline_limits_waiting_for_queue_capacity() {
    let address = Address::polling(1, Master::Primary).unwrap();
    let config = LinkConfig { queue_capacity: 1, ..LinkConfig::default() };
    let (mut link, _runner) = create_link(config);
    let decisions = Decisions::none();
    let queue = NORMAL.queue();
    let first = link
        .try_start(
            Request::new(address, 0u8, vec![]),
            queue,
            RetryPolicy::default(),
            zero(),
            &decisions,
        )
        .unwrap();
    let (queue, job) = link
        .prepare_start(
            Request::new(address, 1u8, vec![]),
            vec![],
            queue,
            RetryPolicy { total_timeout: Duration::from_millis(20), ..RetryPolicy::default() },
            zero(),
            &decisions,
        )
        .unwrap();
    assert_eq!(job.deadline, Duration::from_millis(20));
    let job = match link.enqueue(queue, job, Duration::from_millis(19)) {
        EnqueueStep::Waiting(job) => job,
        _ => panic!("the queue is full and there is time left"),
    };
    let error = match link.enqueue(queue, job, Duration::from_millis(20)) {
        EnqueueStep::Refused(error) => ExchangeError::from_start(error),
        _ => panic!("the time is over"),
    };
    assert!(matches!(error, ExchangeError::Deadline));
    assert_eq!(queued(&link, queue), 1);
    drop(first);
}

#[test]
fn runner_routes_burst_frames_while_the_queue_is_idle() {
    let address = Address::polling(3, Master::Primary).unwrap();
    let mut hub = BurstHub::default();
    let mut subscription = hub
        .subscribe(BurstKey { address, command: CommandCode::new(1) }, 1)
        .unwrap();
    let (mut link, runner) = create_link(LinkConfig::default());
    let mut runner = runner.with_burst_hub(hub);
    let frame = Frame {
        preambles: 5,
        kind: FrameKind::Burst,
        physical_layer: PhysicalLayer::Fsk,
        address,
        expansion: vec![],
        wire_command: 1,
        payload: vec![0, 0, 45, 0, 0, 0, 0],
        repair: None,
    }
    .encode()
    .unwrap();
    let mut buffer = vec![0u8; runner.read_buffer_size()];
    buffer[..frame.len()].copy_from_slice(&frame);
    assert!(runner.process_idle_input(&mut link, &buffer, &Ok(frame.len()), zero(), zero()));
    assert_eq!(subscription.try_receive().unwrap().reply.command, CommandCode::new(1));
    assert!(matches!(link.take_events()[..], [LinkEvent::Unsolicited(_)]));
}

#[test]
fn validated_link_constructor_rejects_ambiguous_zero_limits() {
    let result = try_create_link(LinkConfig { queue_capacity: 0, ..LinkConfig::default() });
    assert!(matches!(result, Err(LinkConfigError::QueueCapacity)));
}

#[test]
fn validated_link_constructor_rejects_resource_amplifying_limits() {
    assert!(matches!(
        try_create_link(LinkConfig { queue_capacity: usize::MAX, ..LinkConfig::default() }),
        Err(LinkConfigError::QueueCapacityLimit(_))
    ));

    assert!(matches!(
        LinkBuilder::new().event_capacity(usize::MAX).build(zero()),
        Err(LinkBuildError::EventCapacityLimit(_))
    ));

    let mut config = LinkConfig::default();
    config.decoder.buffer_capacity = 64;
    assert!(matches!(
        try_create_link(config),
        Err(LinkConfigError::DecoderFrameCapacity { .. })
    ));

    let guard = Duration { nanos: MAXIMUM_LATE_RESPONSE_GUARD }
        .saturating_add(Duration::from_secs(1));
    assert!(matches!(
        LinkBuilder::new().late_response_guard(guard).build(zero()),
        Err(LinkBuildError::LateResponseGuard)
    ));

    assert!(matches!(
        LinkBuilder::new()
            .default_retry(RetryPolicy {
                response_timeout: Duration::maximum(),
                ..RetryPolicy::default()
            })
            .build(zero()),
        Err(LinkBuildError::RetryPolicy(RetryPolicyError::ResponseTimeoutLimit))
    ));
}

#[test]
fn request_rejects_resource_pinning_timeouts_before_enqueueing() {
    let mut bus = Bus::new(create_link(LinkConfig::default()), SilentLine::default());
    let request = Request::new(Address::polling(1, Master::Primary).unwrap(), 0u8, vec![]);
    let policy = RetryPolicy::default().with_total_timeout(
        Duration { nanos: MAXIMUM_RETRY_DURATION }.saturating_add(Duration::from_secs(1)),
    );
    let error = bus.start(request, NORMAL.queue(), policy).unwrap_err();
    assert!(matches!(error, StartError::RetryPolicy(RetryPolicyError::TotalTimeoutLimit)));
    assert_eq!(queued(&bus.link, NORMAL.queue()), 0);
}

#[test]
fn request_rejects_a_zero_timeout_before_enqueueing() {
    let address = Address::polling(1, Master::Primary).unwrap();
    let mut bus = Bus::new(create_link(LinkConfig::default()), SilentLine::default());
    let error = bus
        .request(
            Request::new(address, 0u8, vec![]),
            NORMAL.queue(),
            RetryPolicy { response_timeout: Duration::zero(), ..RetryPolicy::default() },
        )
        .unwrap_err();
    assert!(matches!(error, ExchangeError::RetryPolicy(RetryPolicyError::ResponseTimeout)));
    assert_eq!(queued(&bus.link, NORMAL.queue()), 0);
}

#[test]
fn request_rejects_an_oversized_transmit_prefix_before_enqueueing() {
    let address = Address::polling(1, Master::Primary).unwrap();
    let (mut link, _runner) = two_queues().build(zero()).unwrap();
    let error = link
        .prepare_start(
            Request::new(address, 0u8, vec![]),
            vec![0; MAXIMUM_TRANSMIT_PREFIX + 1],
            SERVICE.queue(),
            RetryPolicy::default(),
            zero(),
            &Decisions::none(),
        )
        .unwrap_err();
    assert!(matches!(error, StartError::TransmitPrefix(_)));
    assert_eq!(queued(&link, SERVICE.queue()), 0);
}

#[test]
fn request_rejects_an_oversized_frame_before_enqueueing() {
    let address = Address::polling(1, Master::Primary).unwrap();
    let mut bus = Bus::new(create_link(LinkConfig::default()), SilentLine::default());
    let error = bus
        .start(
            Request::new(address, 1u8, vec![0; 256]),
            NORMAL.queue(),
            RetryPolicy::default(),
        )
        .unwrap_err();
    assert!(matches!(error, StartError::Operation(_)));
    assert_eq!(queued(&bus.link, NORMAL.queue()), 0);
}

#[test]
fn an_indeterminate_send_stops_the_runner_instead_of_reusing_the_stream() {
    let address = Address::polling(1, Master::Primary).unwrap();
    let mut bus = Bus::new(create_link(LinkConfig::default()), HangingSend);
    let error = bus
        .request(
            Request::new(address, 0u8, vec![]),
            NORMAL.queue(),
            RetryPolicy {
                response_timeout: Duration::from_millis(10),
                total_timeout: Duration::from_millis(20),
                ..RetryPolicy::default()
            },
        )
        .unwrap_err();
    assert!(matches!(error, ExchangeError::SendTimeout));
    assert!(!bus.runner.channel_usable());
    assert!(matches!(
        bus.start(
            Request::new(address, 0u8, vec![]),
            NORMAL.queue(),
            RetryPolicy::default(),
        ),
        Err(StartError::Closed)
    ));
}

#[test]
fn total_deadline_covers_missing_response() {
    let address = Address::polling(1, Master::Primary).unwrap();
    let line = DeviceLine::new(address)
        .with_host_faults(FaultPlan { drop_next: true, ..FaultPlan::default() });
    let mut bus = Bus::new(create_link(LinkConfig::default()), line);
    let policy = RetryPolicy {
        transport_retries: 0,
        busy_retries: 0,
        response_timeout: Duration::from_millis(20),
        total_timeout: Duration::from_millis(30),
        ..RetryPolicy::default()
    };
    let request = ReadDeviceIdentity.request(address).unwrap();
    let error = bus.request(request, NORMAL.queue(), policy).unwrap_err();
    assert!(matches!(error, ExchangeError::ResponseTimeout | ExchangeError::Deadline));
}

#[test]
fn late_response_guard_drains_an_uncorrelatable_timed_out_reply() {
    let address = Address::polling(1, Master::Primary).unwrap();
    let line = DeviceLine::new(address).with_device_faults(FaultPlan {
        latency: Duration::from_millis(30),
        ..FaultPlan::default()
    });
    let mut bus = Bus::new(
        LinkBuilder::new()
            .late_response_guard(Duration::from_millis(80))
            .build(zero())
            .unwrap(),
        line,
    );
    let first = bus.request(
        Request::new(address, 1u8, vec![]),
        NORMAL.queue(),
        RetryPolicy::default()
            .with_transport_retries(0)
            .with_response_timeout(Duration::from_millis(10))
            .with_total_timeout(Duration::from_millis(20)),
    );
    assert!(matches!(first, Err(ExchangeError::ResponseTimeout)));

    let second = bus
        .request(
            Request::new(address, 1u8, vec![]),
            NORMAL.queue(),
            RetryPolicy::default()
                .with_transport_retries(0)
                .with_response_timeout(Duration::from_millis(100))
                .with_total_timeout(Duration::from_millis(200)),
        )
        .unwrap();
    assert_eq!(second.command.get(), 1);
    let late_seen = bus
        .link
        .take_events()
        .iter()
        .any(|event| matches!(event, LinkEvent::LateResponse(_)));
    assert!(late_seen);
}

#[test]
fn busy_and_delayed_response_have_independent_retry_limits() {
    let address = Address::polling(1, Master::Primary).unwrap();
    let request = Request::new(address, 1u8, vec![]);
    let request_bytes = encoded(&request);
    let answer = |code| response(address, 1, vec![code, 0]);
    let channel = ReplayChannel::new(vec![
        ReplayStep::Expect(request_bytes.clone()),
        ReplayStep::Provide(answer(32)),
        ReplayStep::Expect(request_bytes.clone()),
        ReplayStep::Provide(answer(33)),
        ReplayStep::Expect(request_bytes.clone()),
        ReplayStep::Provide(answer(34)),
        ReplayStep::Expect(request_bytes),
        ReplayStep::Provide(answer(0)),
    ])
    .expect("bounded replay scenario");
    let mut bus = Bus::new(create_link(LinkConfig::default()), channel);
    let reply = bus
        .request(
            request,
            NORMAL.queue(),
            RetryPolicy {
                transport_retries: 0,
                busy_retries: 1,
                delayed_response_polls: 2,
                retry_delay: Duration::zero(),
                response_timeout: Duration::from_millis(100),
                total_timeout: Duration::from_secs(1),
            },
        )
        .unwrap();
    assert_eq!(reply.response_code, 0);
    assert_eq!(bus.link.snapshot().completed, 1);
    assert!(bus.line.is_complete());
    bus.stop();
}

#[test]
fn identical_read_only_requests_share_one_successful_exchange() {
    let address = Address::polling(1, Master::Primary).unwrap();
    let request = || Request::new(address, 1u8, vec![]);
    let channel = ReplayChannel::new(vec![
        ReplayStep::Expect(encoded(&request())),
        ReplayStep::Provide(response(address, 1, vec![0, 0])),
    ])
    .expect("bounded replay scenario");
    let mut bus = Bus::new(create_link(LinkConfig::default()), channel);
    let first = bus.start(request(), NORMAL.queue(), RetryPolicy::default()).unwrap();
    let second = bus.start(request(), NORMAL.queue(), RetryPolicy::default()).unwrap();
    bus.run();
    assert_eq!(bus.wait(first).unwrap().response_code, 0);
    assert_eq!(bus.wait(second).unwrap().response_code, 0);
    let snapshot = bus.link.snapshot();
    assert_eq!(snapshot.started, 1);
    assert_eq!(snapshot.completed, 2);
    assert_eq!(snapshot.coalesced, 1);
    assert_eq!(queued(&bus.link, NORMAL.queue()), 0);
    bus.stop();
}

#[test]
fn action_requests_are_never_coalesced() {
    let address = Address::polling(1, Master::Primary).unwrap();
    let request = || Request::new(address, 41u8, vec![]);
    let answer = response(address, 41, vec![0, 0]);
    let channel = ReplayChannel::new(vec![
        ReplayStep::Expect(encoded(&request())),
        ReplayStep::Provide(answer.clone()),
        ReplayStep::Expect(encoded(&request())),
        ReplayStep::Provide(answer),
    ])
    .expect("bounded replay scenario");
    let mut bus = Bus::new(create_link(LinkConfig::default()), channel);
    let first = bus.start(request(), NORMAL.queue(), RetryPolicy::default()).unwrap();
    let second = bus.start(request(), NORMAL.queue(), RetryPolicy::default()).unwrap();
    bus.wait(first).unwrap();
    bus.wait(second).unwrap();
    assert_eq!(bus.link.snapshot().started, 2);
    assert_eq!(bus.link.snapshot().coalesced, 0);
    bus.stop();
}

#[test]
fn calibration_timeout_never_repeats_the_physical_request() {
    let mut bus = Bus::new(
        LinkBuilder::new().late_response_guard(zero()).build(zero()).unwrap(),
        SilentLine::default(),
    );
    let error = bus
        .request(
            Request::new(Address::polling(1, Master::Primary).unwrap(), 36u8, Vec::new()),
            NORMAL.queue(),
            RetryPolicy::default()
                .with_transport_retries(5)
                .with_response_timeout(Duration::from_millis(10))
                .with_total_timeout(Duration::from_millis(100)),
        )
        .unwrap_err();
    assert!(matches!(error, ExchangeError::ResponseTimeout));
    assert_eq!(bus.line.sends, 1);
    bus.stop();
}

#[test]
fn service_weight_prevents_normal_queue_starvation() {
    let address = Address::polling(1, Master::Primary).unwrap();
    let mut steps = Vec::new();
    for command in [10u8, 11, 20, 12, 13, 21, 14] {
        steps.push(ReplayStep::Expect(encoded(&Request::new(address, command, vec![]))));
        steps.push(ReplayStep::Provide(response(address, command, vec![0, 0])));
    }
    let channel = ReplayChannel::new(steps).expect("bounded replay scenario");
    let scheduling = QueueScheduling::custom(2).unwrap();
    let link = LinkBuilder::new()
        .queues(priority_queues(64, 256, scheduling).unwrap())
        .build(zero())
        .unwrap();
    let mut bus = Bus::new(link, channel);
    let mut waits = Vec::new();
    for command in 10u8..=14 {
        waits.push(
            bus.start(
                Request::new(address, command, vec![]),
                SERVICE.queue(),
                RetryPolicy::default(),
            )
            .unwrap(),
        );
    }
    for command in 20u8..=21 {
        waits.push(
            bus.start(
                Request::new(address, command, vec![]),
                NORMAL.queue(),
                RetryPolicy::default(),
            )
            .unwrap(),
        );
    }
    bus.run();
    for wait in waits {
        bus.wait(wait).unwrap();
    }
    assert_eq!(bus.link.snapshot().completed, 7);
    assert!(bus.line.is_complete());
    bus.stop();
}

#[test]
fn queue_scheduling_presets_are_valid_and_explicit() {
    assert_eq!(QueueScheduling::equal().service_weight(), 1);
    assert_eq!(QueueScheduling::maximum_service().service_weight(), u8::MAX);
    assert_eq!(QueueScheduling::custom(4).unwrap().service_weight(), 4);
    assert!(QueueScheduling::custom(0).is_err());

    let queues = priority_queues(64, 256, QueueScheduling::equal()).unwrap();
    assert_eq!(queues[0].id(), SERVICE.queue());
    assert_eq!(queues[0].priority().weight(), Some(1));
}

#[test]
fn managed_device_limits_reject_zero_reversed_and_oversized_timing() {
    let over = Duration { nanos: MAXIMUM_RETRY_DURATION + 1 };
    assert!(matches!(
        AdaptiveTiming::default().with_minimum(Duration::zero()).validate(),
        Err(DeviceHealthConfigError::ZeroAdaptiveTimeout)
    ));
    assert!(matches!(
        AdaptiveTiming::default()
            .with_minimum(Duration::from_secs(2))
            .with_maximum(Duration::from_secs(1))
            .validate(),
        Err(DeviceHealthConfigError::AdaptiveOrder)
    ));
    assert!(matches!(
        AdaptiveTiming::default().with_maximum(over).validate(),
        Err(DeviceHealthConfigError::AdaptiveLimit)
    ));
    assert!(matches!(
        DeviceHealthOptions::default().with_cooldown(over).validate(),
        Err(DeviceHealthConfigError::CooldownLimit)
    ));
}

#[test]
fn command_policy_rejects_before_queue_capacity_is_used() {
    let (mut link, _runner) = two_queues()
        .command_policy(CommandPolicy::read_only())
        .build(zero())
        .unwrap();
    let request = Request::new(Address::polling(1, Master::Primary).unwrap(), 42u8, vec![])
        .with_retry_safety(OperationSafety::Action);
    let error = link.try_start_default(request, zero(), &Decisions::none()).unwrap_err();
    let normal = NORMAL.queue();
    assert_eq!(
        error,
        StartError::CommandDenied {
            command: 42,
            safety: OperationSafety::Action,
            queue: normal,
        }
    );
    let events = link.take_events();
    assert!(matches!(
        events[..],
        [LinkEvent::Denied { command: 42, safety: OperationSafety::Action, queue }]
            if queue == normal
    ));
    assert_eq!(link.snapshot().denied, 1);
    assert_eq!(queued(&link, SERVICE.queue()) + queued(&link, normal), 0);
}

#[test]
fn strict_safety_policy_cannot_be_bypassed_by_request_metadata() {
    let vendor_command = CommandCode::new(60000);
    let decisions = Decisions::none();
    let (mut strict, _runner) = LinkBuilder::new()
        .command_policy(CommandPolicy::read_only())
        .build(zero())
        .unwrap();
    let address = Address::polling(1, Master::Primary).unwrap();
    let forged = Request::new(address, vendor_command, vec![])
        .with_retry_safety(OperationSafety::ReadOnly);
    assert!(matches!(
        strict.try_start_default(forged, zero(), &decisions),
        Err(StartError::CommandDenied { command: 60000, .. })
    ));

    let accepted_vendor =
        CommandPolicy::read_only().or(CommandPolicy::allow_commands(vec![vendor_command]));
    let (mut explicit, _runner) =
        LinkBuilder::new().command_policy(accepted_vendor).build(zero()).unwrap();
    let accepted = explicit
        .try_start_default(
            Request::new(address, vendor_command, vec![])
                .with_retry_safety(OperationSafety::ReadOnly),
            zero(),
            &decisions,
        )
        .unwrap();
    assert_eq!(queued(&explicit, NORMAL.queue()), 1);
    drop(accepted);
}

#[test]
fn routing_is_applied_before_queue_specific_admission() {
    let routing =
        CommandRouting::commands_to(SERVICE.queue(), vec![CommandCode::new(0)]);
    let policy = CommandPolicy::custom(0);
    let request = Request::new(Address::polling(1, Master::Primary).unwrap(), 0u8, vec![]);
    let routed = routing.route(
        hart_link::CommandContext::new(&request, NORMAL.queue()),
        &Decisions::none(),
    );
    let decisions = Decisions {
        verdicts: vec![
            request.command == CommandCode::new(0) && routed == SERVICE.queue(),
        ],
        routes: vec![],
    };
    let (mut link, _runner) = two_queues()
        .command_routing(routing)
        .command_policy(policy)
        .build(zero())
        .unwrap();
    let _pending = link
        .try_start(request, NORMAL.queue(), RetryPolicy::default(), zero(), &decisions)
        .unwrap();
    assert_eq!(queued(&link, SERVICE.queue()), 1);
    assert_eq!(queued(&link, NORMAL.queue()), 0);
}

#[test]
fn policy_sugar_composes_command_and_queue_filters() {
    let command_0 = CommandCode::new(0);
    let command_42 = CommandCode::new(42);
    let service_policy = CommandPolicy::queue_allowlist(SERVICE.queue(), vec![command_0]);
    let policy = service_policy.and(CommandPolicy::deny_commands(vec![command_42]));
    let routing = CommandRouting::commands_to(SERVICE.queue(), vec![command_0, command_42]);
    let (mut link, _runner) = two_queues()
        .command_routing(routing)
        .command_policy(policy)
        .build(zero())
        .unwrap();
    let address = Address::polling(1, Master::Primary).unwrap();
    let decisions = Decisions::none();

    let accepted = link
        .try_start_default(Request::new(address, 0u8, vec![]), zero(), &decisions)
        .unwrap();
    let denied = link
        .try_start_default(
            Request::new(address, 42u8, vec![]).with_retry_safety(OperationSafety::ReadOnly),
            zero(),
            &decisions,
        )
        .unwrap_err();

    assert!(matches!(denied, StartError::CommandDenied { command: 42, .. }));
    assert_eq!(queued(&link, SERVICE.queue()), 1);
    assert_eq!(link.snapshot().denied, 1);
    drop(accepted);
}

#[test]
fn single_queue_preserves_global_fifo_and_ignores_priority() {
    let address = Address::polling(1, Master::Primary).unwrap();
    let mut steps = Vec::new();
    for command in [20u8, 10] {
        steps.push(ReplayStep::Expect(encoded(&Request::new(address, command, vec![]))));
        steps.push(ReplayStep::Provide(response(address, command, vec![0, 0])));
    }
    let channel = ReplayChannel::new(steps).unwrap();
    let queue = QueueId::default();
    let link = LinkBuilder::new()
        .queues(vec![QueueConfig::weighted(queue, 8, 1).unwrap()])
        .build(zero())
        .unwrap();
    let mut bus = Bus::new(link, channel);
    let normal = bus.link.priority_queue(NORMAL);
    let service = bus.link.priority_queue(SERVICE);
    let first = bus
        .start(Request::new(address, 20u8, vec![]), normal, RetryPolicy::default())
        .unwrap();
    let second = bus
        .start(Request::new(address, 10u8, vec![]), service, RetryPolicy::default())
        .unwrap();
    assert_eq!(bus.link.queue_snapshots().len(), 1);
    assert!(bus.link.queue_snapshot(SERVICE.queue()).is_err());
    assert_eq!(queued(&bus.link, NORMAL.queue()), 2);
    bus.wait(first).unwrap();
    bus.wait(second).unwrap();
    bus.stop();
}

fn one_address(name: &str, first: u64, steady: u64, scan_interval: Duration) -> LineProfile {
    LineProfile {
        name: name.into(),
        timing: TimingProfile {
            connect_settle: Duration::zero(),
            first_response: Duration::from_millis(first),
            steady_response: Duration::from_millis(steady),
            scan_interval,
        },
        modules: vec![ModuleWindow {
            module: 1,
            polling: PollingWindow::new(3, 3).unwrap(),
            address_shift: 0,
        }],
        discovery_preambles: 20,
        wake_prefix: Vec::new(),
    }
}

#[test]
fn discovery_gives_the_retry_a_complete_response_window() {
    let address = Address::polling(3, Master::Primary).unwrap();
    let line = DeviceLine::new(address)
        .with_device_faults(FaultPlan { drop_next: true, ..FaultPlan::default() });
    let mut bus = Bus::new(two_queues().build(zero()).unwrap(), line);
    let profile = one_address("retry-discovery", 20, 20, Duration::zero());
    let report = bus.discover(discover_line(&profile, Master::Primary).unwrap());
    assert_eq!(report.devices.len(), 1);
    assert_eq!(report.devices[0].identity.device_id, 0x12_34_56);
}

#[test]
fn discovery_revisits_only_missing_addresses_on_later_passes() {
    let address = Address::polling(3, Master::Primary).unwrap();
    let line = DeviceLine::new(address)
        .with_device_faults(FaultPlan { drop_next: true, ..FaultPlan::default() });
    let retry = RetryPolicy::default()
        .with_transport_retries(0)
        .with_response_timeout(Duration::from_millis(20))
        .with_total_timeout(Duration::from_millis(20));
    let link = two_queues()
        .default_retry(retry)
        .event_capacity(32)
        .maximum_coalesced(8)
        .build(zero())
        .unwrap();
    let mut bus = Bus::new(link, line);
    let profile = one_address("multi-pass-discovery", 20, 20, Duration::zero());
    let report = bus.discover(
        discover_line_with_options(
            &profile,
            Master::Primary,
            DiscoveryOptions {
                passes: NonZeroU8::new(2).unwrap(),
                priority: SERVICE,
                retry,
                pass_delay: Duration::zero(),
                preamble_hints: DiscoveryHints::new(),
            },
        )
        .unwrap(),
    );
    assert_eq!(report.devices.len(), 1);
    assert_eq!(report.attempts, 2);
    assert_eq!(report.passes_completed, 2);
}

#[test]
fn discovery_stops_after_the_first_complete_pass() {
    let address = Address::polling(3, Master::Primary).unwrap();
    let retry = RetryPolicy::default()
        .with_transport_retries(0)
        .with_response_timeout(Duration::from_millis(50))
        .with_total_timeout(Duration::from_millis(50));
    let link = two_queues().default_retry(retry).build(zero()).unwrap();
    let mut bus = Bus::new(link, DeviceLine::new(address));
    let profile = one_address("complete-discovery", 50, 50, Duration::from_secs(1));
    let report = bus.discover(
        discover_line_with_options(
            &profile,
            Master::Primary,
            DiscoveryOptions::default()
                .with_passes(NonZeroU8::new(3).unwrap())
                .with_retry(retry)
                .with_pass_delay(Duration::from_secs(1)),
        )
        .unwrap(),
    );
    assert_eq!(report.attempts, 1);
    assert_eq!(report.passes_completed, 1);
    assert_eq!(report.devices.len(), 1);
}

#[test]
fn stale_discovery_hint_falls_back_to_conservative_preambles() {
    let address = Address::polling(3, Master::Primary).unwrap();
    let line = DeviceLine::new(address)
        .with_host_faults(FaultPlan { drop_next: true, ..FaultPlan::default() });
    let retry = RetryPolicy::default()
        .with_transport_retries(0)
        .with_response_timeout(Duration::from_millis(30))
        .with_total_timeout(Duration::from_millis(30));
    let link = two_queues().default_retry(retry).build(zero()).unwrap();
    let mut bus = Bus::new(link, line);
    let profile = one_address("hint-fallback", 50, 30, Duration::zero());
    let mut hints = DiscoveryHints::new();
    hints.insert(address, 5).unwrap();
    let report = bus.discover(
        discover_line_with_options(
            &profile,
            Master::Primary,
            DiscoveryOptions::default().with_retry(retry).with_preamble_hints(hints),
        )
        .unwrap(),
    );
    assert_eq!(report.attempts, 2);
    assert_eq!(report.hinted_attempts, 1);
    assert_eq!(report.hint_fallbacks, 1);
    assert_eq!(report.devices.len(), 1);
}

#[test]
fn discovery_hints_reject_unusable_values() {
    let mut hints = DiscoveryHints::new();
    assert!(hints.insert(Address::polling(1, Master::Primary).unwrap(), 1).is_err());
    assert!(hints.insert(Address::unique(1, 1, Master::Primary).unwrap(), 5).is_err());
}

#[test]
fn plan_data_prefix_never_turns_an_error_response_into_success() {
    let address = Address::polling(1, Master::Primary).unwrap();
    let request = || Request::new(address, 1u8, vec![]);
    let channel = ReplayChannel::new(vec![
        ReplayStep::Expect(encoded(&request())),
        ReplayStep::Provide(response(address, 1, vec![8, 0, 0xaa])),
    ])
    .expect("bounded replay scenario");
    let mut bus = Bus::new(create_link(LinkConfig::default()), channel);
    let plan = Plan {
        steps: vec![PlanStep {
            name: "error-prefix".into(),
            request: request(),
            queue: NORMAL.queue(),
            retry: RetryPolicy::default(),
            expectation: PlanExpectation::DataPrefix(vec![0xaa]),
        }],
        continue_after_failure: false,
    };
    let mut report = PlanReport::default();
    while let Some(step) = plan.next_step(&report) {
        let result = bus.request(request(), step.queue, step.retry);
        plan.record(&mut report, result);
    }
    assert!(!report.steps[0].expectation_met);
    assert_eq!(report.steps[0].result.as_ref().unwrap().data, vec![0xaa]);
}

#[test]
fn dropping_the_waiter_drains_an_inflight_exchange_before_cancelling_interest() {
    let address = Address::polling(1, Master::Primary).unwrap();
    let line = DeviceLine::new(address).with_device_faults(FaultPlan {
        latency: Duration::from_millis(25),
        ..FaultPlan::default()
    });
    let mut bus = Bus::new(create_link(LinkConfig::default()), line);
    let pending = bus
        .start(
            Request::new(address, 0u8, vec![]),
            NORMAL.queue(),
            RetryPolicy {
                response_timeout: Duration::from_secs(5),
                total_timeout: Duration::from_secs(10),
                ..RetryPolicy::default()
            },
        )
        .unwrap();
    let request_id = pending.id();
    let selected = bus.select().unwrap();
    assert!(bus
        .link
        .take_events()
        .iter()
        .any(|event| matches!(event, LinkEvent::Started { id, .. } if *id == request_id)));

    bus.closed.insert(request_id, ());
    bus.carry_out(selected);
    assert_eq!(bus.now, Duration::from_millis(25));
    assert!(bus
        .link
        .take_events()
        .iter()
        .any(|event| matches!(event, LinkEvent::Cancelled { id } if *id == request_id)));
    assert_eq!(bus.link.snapshot().cancelled, 1);
    assert_eq!(bus.link.snapshot().failed, 0);
    assert!(bus.done.is_empty());
    bus.stop();
}

#[test]
fn tcp_configuration_rejects_zero_or_implausible_durations() {
    assert!(TcpOptions::default().with_keepalive(Some(Duration::zero())).validate().is_err());
    assert!(TcpOptions::default()
        .with_keepalive(Some(Duration::maximum()))
        .validate()
        .is_err());
}

#[test]
fn emulator_strict_configuration_rejects_resource_amplification() {
    assert!(try_channel_capacity(0).is_err());
    assert!(try_channel_capacity(usize::MAX).is_err());

    let mut channel = MemoryEndpoint::default();
    assert!(channel.try_set_faults(FaultPlan::default().with_fragment_size(0)).is_err());
    assert!(channel
        .try_set_faults(
            FaultPlan::default()
                .with_noise_prefix(vec![0; MAXIMUM_EMULATOR_NOISE_PREFIX + 1])
        )
        .is_err());
    let kept: Result<Option<Vec<u8>>, ChannelError> = channel.receive(8);
    assert!(matches!(kept, Ok(None)));
}
