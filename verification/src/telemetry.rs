//! Export of bounded metrics to an external observability system.

use vstd::prelude::*;

use crate::service::event::LinkSnapshot;
use crate::service::health::DeviceHealthSnapshot;

verus! {

/// One exported number.
#[derive(Debug, Clone, Copy, PartialEq, Eq)]
pub enum Metric {
    /// A monotonic counter.
    Counter(&'static str, u64),
    /// A current value.
    Gauge(&'static str, u64),
}

/// What an exported number says, with its name as text.
#[verifier::ext_equal]
pub enum MetricView {
    Counter(Seq<char>, u64),
    Gauge(Seq<char>, u64),
}

impl View for Metric {
    type V = MetricView;

    open spec fn view(&self) -> MetricView {
        match self {
            Metric::Counter(name, value) => MetricView::Counter(name@, *value),
            Metric::Gauge(name, value) => MetricView::Gauge(name@, *value),
        }
    }
}

/// Sink for counters and current values.
pub trait MetricSink: Sized {
    /// What was recorded, in order.
    spec fn recorded(&self) -> Seq<MetricView>;

    /// Records a monotonic counter.
    fn counter(&mut self, name: &'static str, value: u64)
        ensures
            final(self).recorded() == old(self).recorded().push(
                MetricView::Counter(name@, value),
            ),
    ;

    /// Records a current integer value.
    fn gauge(&mut self, name: &'static str, value: u64)
        ensures
            final(self).recorded() == old(self).recorded().push(MetricView::Gauge(name@, value)),
    ;
}

/// A sink that keeps what it records.
#[derive(Debug)]
pub struct MetricLog {
    /// What was recorded, in order.
    pub metrics: Vec<Metric>,
}

impl MetricLog {
    /// Creates an empty log.
    pub fn new() -> (log: Self)
        ensures
            log.recorded() == Seq::<MetricView>::empty(),
    {
        let log = MetricLog { metrics: Vec::new() };
        assert(log.recorded() =~= Seq::<MetricView>::empty());
        log
    }
}

impl MetricSink for MetricLog {
    open spec fn recorded(&self) -> Seq<MetricView> {
        self.metrics@.map_values(|metric: Metric| metric@)
    }

    fn counter(&mut self, name: &'static str, value: u64) {
        self.metrics.push(Metric::Counter(name, value));
        assert(self.recorded() =~= old(self).recorded().push(MetricView::Counter(name@, value)));
    }

    fn gauge(&mut self, name: &'static str, value: u64) {
        self.metrics.push(Metric::Gauge(name, value));
        assert(self.recorded() =~= old(self).recorded().push(MetricView::Gauge(name@, value)));
    }
}

/// A number held at the largest 64-bit one.
pub open spec fn fitted(value: int) -> u64 {
    if value > u64::MAX {
        u64::MAX
    } else {
        value as u64
    }
}

fn fit(value: u128) -> (fitting: u64)
    ensures
        fitting == fitted(value as int),
{
    if value > u64::MAX as u128 {
        u64::MAX
    } else {
        value as u64
    }
}

/// The numbers of a link.
pub open spec fn link_metrics(snapshot: LinkSnapshot) -> Seq<MetricView> {
    seq![
        MetricView::Gauge("hart_link_queue_pending"@, snapshot.queued as u64),
        MetricView::Counter("hart_link_started_total"@, snapshot.started),
        MetricView::Counter("hart_link_completed_total"@, snapshot.completed),
        MetricView::Counter("hart_link_failed_total"@, snapshot.failed),
        MetricView::Counter("hart_link_cancelled_total"@, snapshot.cancelled),
        MetricView::Counter("hart_link_coalesced_total"@, snapshot.coalesced),
        MetricView::Counter("hart_link_denied_total"@, snapshot.denied),
    ]
}

/// Exports a snapshot with fixed names and no high-cardinality labels.
pub fn export_link_snapshot<S: MetricSink>(snapshot: LinkSnapshot, sink: &mut S)
    ensures
        final(sink).recorded() == old(sink).recorded() + link_metrics(snapshot),
{
    sink.gauge("hart_link_queue_pending", snapshot.queued as u64);
    sink.counter("hart_link_started_total", snapshot.started);
    sink.counter("hart_link_completed_total", snapshot.completed);
    sink.counter("hart_link_failed_total", snapshot.failed);
    sink.counter("hart_link_cancelled_total", snapshot.cancelled);
    sink.counter("hart_link_coalesced_total", snapshot.coalesced);
    sink.counter("hart_link_denied_total", snapshot.denied);
    assert(sink.recorded() =~= old(sink).recorded() + link_metrics(snapshot));
}

/// The numbers of a managed device.
pub open spec fn health_metrics(snapshot: DeviceHealthSnapshot) -> Seq<MetricView> {
    seq![
        MetricView::Counter("hart_link_device_successes_total"@, snapshot.successes),
        MetricView::Counter("hart_link_device_failures_total"@, snapshot.failures),
        MetricView::Counter(
            "hart_link_device_cooldown_activations_total"@,
            snapshot.cooldown_activations,
        ),
        MetricView::Counter(
            "hart_link_device_cooldown_rejections_total"@,
            snapshot.cooldown_rejections,
        ),
        MetricView::Counter("hart_link_device_adaptive_attempts_total"@, snapshot.adaptive_attempts),
        MetricView::Counter(
            "hart_link_device_adaptive_fallbacks_total"@,
            snapshot.adaptive_fallbacks,
        ),
        MetricView::Gauge(
            "hart_link_device_consecutive_transport_failures"@,
            snapshot.consecutive_transport_failures as u64,
        ),
        MetricView::Gauge(
            "hart_link_device_cooldown_remaining_milliseconds"@,
            fitted(snapshot.cooldown_remaining.nanos as int / 1_000_000),
        ),
        MetricView::Gauge(
            "hart_link_device_learned_response_microseconds"@,
            match snapshot.learned_response {
                Some(duration) => fitted(duration.nanos as int / 1_000),
                None => 0u64,
            },
        ),
    ]
}

/// Exports managed-device health with fixed names and no device identifiers.
pub fn export_device_health_snapshot<S: MetricSink>(snapshot: DeviceHealthSnapshot, sink: &mut S)
    ensures
        final(sink).recorded() == old(sink).recorded() + health_metrics(snapshot),
{
    sink.counter("hart_link_device_successes_total", snapshot.successes);
    sink.counter("hart_link_device_failures_total", snapshot.failures);
    sink.counter(
        "hart_link_device_cooldown_activations_total",
        snapshot.cooldown_activations,
    );
    sink.counter("hart_link_device_cooldown_rejections_total", snapshot.cooldown_rejections);
    sink.counter("hart_link_device_adaptive_attempts_total", snapshot.adaptive_attempts);
    sink.counter("hart_link_device_adaptive_fallbacks_total", snapshot.adaptive_fallbacks);
    sink.gauge(
        "hart_link_device_consecutive_transport_failures",
        snapshot.consecutive_transport_failures as u64,
    );
    sink.gauge(
        "hart_link_device_cooldown_remaining_milliseconds",
        fit(snapshot.cooldown_remaining.as_millis()),
    );
    let learned: u64 = match snapshot.learned_response {
        Some(duration) => fit(duration.as_micros()),
        None => 0,
    };
    sink.gauge("hart_link_device_learned_response_microseconds", learned);
    assert(sink.recorded() =~= old(sink).recorded() + health_metrics(snapshot));
}

/// Snapshots that are exported alike are alike: no count is left out or mixed
/// with another.
pub proof fn lemma_link_metrics_tell_all(left: LinkSnapshot, right: LinkSnapshot)
    requires
        left.queued <= u64::MAX,
        right.queued <= u64::MAX,
        link_metrics(left) == link_metrics(right),
    ensures
        left == right,
        link_metrics(left)[0]->Gauge_1 == left.queued,
        link_metrics(left)[1]->Counter_1 == left.started,
        link_metrics(left)[2]->Counter_1 == left.completed,
        link_metrics(left)[3]->Counter_1 == left.failed,
        link_metrics(left)[4]->Counter_1 == left.cancelled,
        link_metrics(left)[5]->Counter_1 == left.coalesced,
        link_metrics(left)[6]->Counter_1 == left.denied,
        link_metrics(left).len() == 7,
{
    let metrics = link_metrics(left);
    let others = link_metrics(right);
    assert(metrics[0] == others[0]);
    assert(metrics[1] == others[1]);
    assert(metrics[2] == others[2]);
    assert(metrics[3] == others[3]);
    assert(metrics[4] == others[4]);
    assert(metrics[5] == others[5]);
    assert(metrics[6] == others[6]);
}

/// The health of a device is exported with its counts as they are, the rest of
/// its cooldown in milliseconds and its learned time in microseconds.
pub proof fn lemma_health_metrics_tell_all(snapshot: DeviceHealthSnapshot)
    ensures
        ({
            let metrics = health_metrics(snapshot);
            &&& metrics.len() == 9
            &&& metrics[0]->Counter_1 == snapshot.successes
            &&& metrics[1]->Counter_1 == snapshot.failures
            &&& metrics[2]->Counter_1 == snapshot.cooldown_activations
            &&& metrics[3]->Counter_1 == snapshot.cooldown_rejections
            &&& metrics[4]->Counter_1 == snapshot.adaptive_attempts
            &&& metrics[5]->Counter_1 == snapshot.adaptive_fallbacks
            &&& metrics[6]->Gauge_1 == snapshot.consecutive_transport_failures
            &&& snapshot.cooldown_remaining.nanos / 1_000_000 <= u64::MAX ==> metrics[7]->Gauge_1
                == snapshot.cooldown_remaining.nanos / 1_000_000
            &&& (snapshot.learned_response matches Some(learned) ==> learned.nanos / 1_000
                <= u64::MAX ==> metrics[8]->Gauge_1 == learned.nanos / 1_000)
            &&& snapshot.learned_response is None ==> metrics[8]->Gauge_1 == 0
        }),
{
}

} // verus!
