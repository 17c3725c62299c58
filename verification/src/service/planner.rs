//! Sequential plans of device operations.

use vstd::prelude::*;

use crate::bytes::contains_byte;
use crate::operation::{DeviceReply, ReplyView, Request};
use crate::service::event::ExchangeError;
use crate::service::queue_set::QueueId;
use crate::service::retry::RetryPolicy;

verus! {

/// Result check for one step.
#[derive(Debug, Clone, PartialEq, Eq)]
pub enum PlanExpectation {
    /// A zero response code is required.
    Success,
    /// One of the listed codes is accepted.
    ResponseCodes(Vec<u8>),
    /// The payload must begin with the specified bytes.
    DataPrefix(Vec<u8>),
}

impl PlanExpectation {
    /// Whether a reply meets the expectation.
    pub open spec fn met_by(self, reply: ReplyView) -> bool {
        match self {
            PlanExpectation::Success => reply.response_code == 0,
            PlanExpectation::ResponseCodes(codes) => !reply.communication_error()
                && codes@.contains(reply.response_code),
            PlanExpectation::DataPrefix(prefix) => reply.response_code == 0
                && !reply.communication_error() && prefix@.is_prefix_of(reply.data),
        }
    }
}

pub(crate) fn starts_with(bytes: &[u8], prefix: &[u8]) -> (starts: bool)
    ensures
        starts == prefix@.is_prefix_of(bytes@),
{
    let length: usize = prefix.len();
    if length > bytes.len() {
        return false;
    }
    let mut index: usize = 0;
    while index < length
        invariant
            index <= length,
            length == prefix@.len(),
            length <= bytes@.len(),
            forall|at: int| 0 <= at < index ==> bytes@[at] == prefix@[at],
        decreases length - index,
    {
        if bytes[index] != prefix[index] {
            assert(bytes@.subrange(0, length as int)[index as int] != prefix@[index as int]);
            return false;
        }
        index += 1;
    }
    assert(bytes@.subrange(0, length as int) =~= prefix@);
    true
}

/// Tells whether a reply meets an expectation.
pub fn expectation_matches(expectation: &PlanExpectation, reply: &DeviceReply) -> (met: bool)
    ensures
        met == expectation.met_by(reply@),
{
    match expectation {
        PlanExpectation::Success => reply.response_code == 0,
        PlanExpectation::ResponseCodes(codes) => !reply.has_communication_error()
            && contains_byte(codes, reply.response_code),
        PlanExpectation::DataPrefix(prefix) => reply.response_code == 0
            && !reply.has_communication_error() && starts_with(&reply.data, prefix),
    }
}

/// One sequential device-operation step.
#[derive(Debug, Clone)]
pub struct PlanStep {
    /// Name used in reports.
    pub name: String,
    /// Complete request.
    pub request: Request,
    /// Queue used for this step.
    pub queue: QueueId,
    /// Retry and timing limits.
    pub retry: RetryPolicy,
    /// Expected result.
    pub expectation: PlanExpectation,
}

impl PlanStep {
    /// Creates a success step in the default queue with default retry settings.
    pub fn new(name: String, request: Request) -> (step: Self)
        ensures
            step == (PlanStep {
                name,
                request,
                queue: QueueId(0),
                retry: RetryPolicy::standard(),
                expectation: PlanExpectation::Success,
            }),
    {
        PlanStep {
            name,
            request,
            queue: QueueId::new(0),
            retry: RetryPolicy::default(),
            expectation: PlanExpectation::Success,
        }
    }

    /// Sets the queue used by this step.
    pub fn with_queue(self, queue: QueueId) -> (step: Self)
        ensures
            step == (PlanStep { queue, ..self }),
    {
        PlanStep { queue, ..self }
    }

    /// Sets timing and retry behavior.
    pub fn with_retry(self, retry: RetryPolicy) -> (step: Self)
        ensures
            step == (PlanStep { retry, ..self }),
    {
        PlanStep { retry, ..self }
    }

    /// Replaces the result expectation.
    pub fn expecting(self, expectation: PlanExpectation) -> (step: Self)
        ensures
            step == (PlanStep { expectation, ..self }),
    {
        PlanStep { expectation, ..self }
    }
}

/// Sequential plan with an explicit stopping policy.
#[derive(Debug, Clone)]
pub struct Plan {
    /// Steps in execution order.
    pub steps: Vec<PlanStep>,
    /// Whether to continue after an expectation is not met.
    pub continue_after_failure: bool,
}

impl Default for Plan {
    fn default() -> (plan: Self)
        ensures
            plan.steps@ == Seq::<PlanStep>::empty(),
            !plan.continue_after_failure,
    {
        Plan::new()
    }
}

/// Report for one step.
#[derive(Debug)]
pub struct StepReport {
    /// Step name.
    pub name: String,
    /// Received response or exchange error.
    pub result: Result<DeviceReply, ExchangeError>,
    /// Whether a successful response meets the expectation.
    pub expectation_met: bool,
}

/// Result of sequential execution.
#[derive(Debug)]
pub struct PlanReport {
    /// Reports for executed steps.
    pub steps: Vec<StepReport>,
}

impl Default for PlanReport {
    fn default() -> (report: Self)
        ensures
            report.steps@ == Seq::<StepReport>::empty(),
    {
        PlanReport { steps: Vec::new() }
    }
}

impl StepReport {
    /// Whether the report tells the result of a step.
    pub open spec fn tells(
        self,
        step: PlanStep,
        result: Result<DeviceReply, ExchangeError>,
    ) -> bool {
        &&& self.name@ == step.name@
        &&& self.result == result
        &&& self.expectation_met == match result {
            Ok(reply) => step.expectation.met_by(reply@),
            Err(_) => false,
        }
    }
}

impl Plan {
    /// Creates an empty fail-fast plan.
    pub fn new() -> (plan: Self)
        ensures
            plan.steps@ == Seq::<PlanStep>::empty(),
            !plan.continue_after_failure,
    {
        Plan { steps: Vec::new(), continue_after_failure: false }
    }

    /// Appends a step.
    pub fn with_step(self, step: PlanStep) -> (plan: Self)
        ensures
            plan.steps@ == self.steps@.push(step),
            plan.continue_after_failure == self.continue_after_failure,
    {
        let mut steps = self.steps;
        steps.push(step);
        Plan { steps, continue_after_failure: self.continue_after_failure }
    }

    /// Selects whether later steps run after an exchange or expectation failure.
    pub fn continuing_after_failure(self, enabled: bool) -> (plan: Self)
        ensures
            plan == (Plan { continue_after_failure: enabled, ..self }),
    {
        Plan { continue_after_failure: enabled, ..self }
    }

    /// The step that runs next, if one does: after a failure the next one
    /// runs only where the plan says so.
    pub open spec fn upcoming(self, report: Seq<StepReport>) -> Option<int> {
        if report.len() >= self.steps@.len() {
            None
        } else if report.len() > 0 && !report.last().expectation_met
            && !self.continue_after_failure {
            None
        } else {
            Some(report.len() as int)
        }
    }

    /// Returns the step that runs next, if one does.
    pub fn next_step(&self, report: &PlanReport) -> (step: Option<&PlanStep>)
        ensures
            match self.upcoming(report.steps@) {
                Some(index) => step == Some(&self.steps@[index]),
                None => step is None,
            },
    {
        let done: usize = report.steps.len();
        if done >= self.steps.len() {
            return None;
        }
        if done > 0 && !report.steps[done - 1].expectation_met && !self.continue_after_failure {
            return None;
        }
        Some(&self.steps[done])
    }

    /// Takes over the result of the step that ran.
    pub fn record(&self, report: &mut PlanReport, result: Result<DeviceReply, ExchangeError>)
        requires
            self.upcoming(old(report).steps@) is Some,
        ensures
            final(report).steps@.len() == old(report).steps@.len() + 1,
            final(report).steps@.drop_last() == old(report).steps@,
            final(report).steps@.last().tells(
                self.steps@[old(report).steps@.len() as int],
                result,
            ),
    {
        let step = &self.steps[report.steps.len()];
        let expectation_met = match &result {
            Ok(reply) => expectation_matches(&step.expectation, reply),
            Err(_) => false,
        };
        report.steps.push(StepReport { name: step.name.clone(), result, expectation_met });
        assert(report.steps@.drop_last() =~= old(report).steps@);
    }
}

/// A plan that stops at failures ends with the first one: no step runs behind
/// a failed exchange or an expectation that was not met.
pub proof fn lemma_plan_stops_at_failure(plan: Plan, report: Seq<StepReport>)
    requires
        !plan.continue_after_failure,
        report.len() > 0,
        !report.last().expectation_met,
    ensures
        plan.upcoming(report) is None,
{
}

/// When an expectation is met: success by code zero, a list of codes by a
/// listed code below 128, and a prefix by code zero and data that starts with
/// it.
pub proof fn lemma_expectations(codes: Vec<u8>, prefix: Vec<u8>, rest: Seq<u8>, reply: ReplyView)
    ensures
        PlanExpectation::Success.met_by(reply) <==> reply.response_code == 0,
        PlanExpectation::ResponseCodes(codes).met_by(reply) <==> reply.response_code < 128
            && codes@.contains(reply.response_code),
        PlanExpectation::DataPrefix(prefix).met_by(reply) ==> reply.response_code == 0
            && prefix@.len() <= reply.data.len() && forall|i: int|
            0 <= i < prefix@.len() ==> #[trigger] prefix@[i] == reply.data[i],
        reply.response_code == 0 && reply.data == prefix@ + rest ==> PlanExpectation::DataPrefix(
            prefix,
        ).met_by(reply),
{
    crate::operation::laws::lemma_high_bit(reply.response_code);
    if PlanExpectation::DataPrefix(prefix).met_by(reply) {
        assert forall|i: int| 0 <= i < prefix@.len() implies #[trigger] prefix@[i]
            == reply.data[i] by {
            assert(prefix@ =~= reply.data.subrange(0, prefix@.len() as int));
        }
    }
    if reply.data == prefix@ + rest {
        assert(prefix@ =~= reply.data.subrange(0, prefix@.len() as int));
    }
}

/// The steps of a plan run in their order, each once: what comes next is the
/// step behind the reported ones, until all are reported or, unless failures
/// are passed over, one has failed.
pub proof fn lemma_steps_run_in_order(plan: Plan, report: Seq<StepReport>)
    ensures
        plan.upcoming(report) matches Some(index) ==> index == report.len() && index
            < plan.steps@.len(),
        plan.upcoming(report) is Some <==> report.len() < plan.steps@.len() && (report.len() == 0
            || report.last().expectation_met || plan.continue_after_failure),
{
}

/// The report of a step carries the name of the step and its result; only a
/// reply can meet what the step expects.
pub proof fn lemma_step_is_reported(
    report: StepReport,
    step: PlanStep,
    result: Result<DeviceReply, ExchangeError>,
)
    requires
        report.tells(step, result),
    ensures
        report.name@ == step.name@,
        report.result == result,
        result is Err ==> !report.expectation_met,
        result matches Ok(reply) ==> step.expectation is Success ==> (report.expectation_met
            <==> reply@.response_code == 0),
        result matches Ok(reply) ==> (report.expectation_met <==> step.expectation.met_by(reply@)),
{
}

} // verus!
