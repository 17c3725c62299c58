//! Repeatable functional campaigns without claims of official certification.

use vstd::prelude::*;

use crate::bytes::contains_byte;
use crate::operation::{DeviceReply, ReplyView, Request};
use crate::service::event::ExchangeError;
use crate::service::planner::starts_with;
use crate::service::priority::Priority;
use crate::service::retry::RetryPolicy;
use crate::time::Duration;

verus! {

/// Expected result of one functional case.
#[derive(Debug, Clone, PartialEq, Eq)]
pub struct CaseExpectation {
    /// Accepted response codes.
    pub response_codes: Vec<u8>,
    /// Optional payload prefix.
    pub data_prefix: Option<Vec<u8>>,
}

impl CaseExpectation {
    /// Whether a reply meets the expectation.
    pub open spec fn met_by(self, reply: ReplyView) -> bool {
        &&& self.response_codes@.contains(reply.response_code)
        &&& !reply.communication_error()
        &&& match self.data_prefix {
            Some(prefix) => prefix@.is_prefix_of(reply.data),
            None => true,
        }
    }

    /// Tells whether a reply meets the expectation.
    pub fn accepts(&self, reply: &DeviceReply) -> (accepted: bool)
        ensures
            accepted == self.met_by(reply@),
    {
        let code_ok = contains_byte(&self.response_codes, reply.response_code)
            && !reply.has_communication_error();
        let data_ok = match &self.data_prefix {
            Some(prefix) => starts_with(&reply.data, prefix),
            None => true,
        };
        code_ok && data_ok
    }
}

/// One bounded verification case.
#[derive(Debug, Clone)]
pub struct VerificationCase {
    /// Unique name in the report.
    pub name: String,
    /// Complete request.
    pub request: Request,
    /// Expected result.
    pub expectation: CaseExpectation,
    /// Timing and retry policy.
    pub retry: RetryPolicy,
}

/// Result of one case.
#[derive(Debug)]
pub struct CaseResult {
    /// Case name.
    pub name: String,
    /// Duration from enqueue to result.
    pub elapsed: Duration,
    /// Whether the expectation was met.
    pub passed: bool,
    /// Exchange error when no response was received.
    pub error: Option<ExchangeError>,
}

/// Whether a result tells how a case went.
pub open spec fn case_told(
    told: CaseResult,
    case: VerificationCase,
    result: Result<DeviceReply, ExchangeError>,
    elapsed: Duration,
) -> bool {
    &&& told.name@ == case.name@
    &&& told.elapsed == elapsed
    &&& match result {
        Ok(reply) => told.passed == case.expectation.met_by(reply@) && told.error is None,
        Err(error) => !told.passed && told.error == Some(error),
    }
}

/// Result of a local campaign.
#[derive(Debug)]
pub struct VerificationReport {
    /// Results in execution order.
    pub cases: Vec<CaseResult>,
}

impl Default for VerificationReport {
    fn default() -> (report: Self)
        ensures
            report.cases@ == Seq::<CaseResult>::empty(),
    {
        VerificationReport { cases: Vec::new() }
    }
}

impl VerificationReport {
    /// Reports whether at least one case ran and every case passed.
    pub fn passed(&self) -> (passed: bool)
        ensures
            passed == (self.cases@.len() > 0 && forall|index: int|
                0 <= index < self.cases@.len() ==> (#[trigger] self.cases@[index]).passed),
    {
        let mut index: usize = 0;
        while index < self.cases.len()
            invariant
                index <= self.cases@.len(),
                forall|at: int| 0 <= at < index ==> (#[trigger] self.cases@[at]).passed,
            decreases self.cases@.len() - index,
        {
            if !self.cases[index].passed {
                return false;
            }
            index += 1;
        }
        self.cases.len() > 0
    }

    /// Takes over the result of the next case.
    pub fn record(
        &mut self,
        case: &VerificationCase,
        result: Result<DeviceReply, ExchangeError>,
        elapsed: Duration,
    )
        ensures
            final(self).cases@.len() == old(self).cases@.len() + 1,
            final(self).cases@.drop_last() == old(self).cases@,
            case_told(final(self).cases@.last(), *case, result, elapsed),
    {
        let (passed, error) = match result {
            Ok(reply) => (case.expectation.accepts(&reply), None),
            Err(error) => (false, Some(error)),
        };
        self.cases.push(CaseResult { name: case.name.clone(), elapsed, passed, error });
        assert(self.cases@.drop_last() =~= old(self).cases@);
    }
}

/// Returns the case that runs next, if one does, and whom its request serves:
/// cases run in order, whatever the earlier ones came to, as ordinary requests.
pub fn run_campaign<'a>(cases: &'a Vec<VerificationCase>, report: &VerificationReport) -> (next:
    Option<(&'a VerificationCase, Priority)>)
    ensures
        match next {
            Some((case, priority)) => report.cases@.len() < cases@.len() && *case
                == cases@[report.cases@.len() as int] && priority == Priority::Normal,
            None => report.cases@.len() >= cases@.len(),
        },
{
    let done: usize = report.cases.len();
    if done < cases.len() {
        Some((&cases[done], Priority::Normal))
    } else {
        None
    }
}

/// A case passes exactly with a reply of one of its codes, below 128, whose
/// data starts with its prefix where it has one; an exchange that failed does
/// not pass and leaves its error.
pub proof fn lemma_case_passes(
    case: VerificationCase,
    result: Result<DeviceReply, ExchangeError>,
    elapsed: Duration,
    told: CaseResult,
)
    requires
        case_told(told, case, result, elapsed),
    ensures
        told.passed <==> (result matches Ok(reply) && reply.response_code < 128
            && case.expectation.response_codes@.contains(reply.response_code) && (
        case.expectation.data_prefix matches Some(prefix) ==> prefix@.len() <= reply.data@.len()
            && forall|i: int|
            0 <= i < prefix@.len() ==> #[trigger] prefix@[i] == reply.data@[i])),
        result matches Err(error) ==> told.error == Some(error),
        result is Ok ==> told.error is None,
        told.elapsed == elapsed,
        told.name@ == case.name@,
{
    if let Ok(reply) = result {
        crate::operation::laws::lemma_high_bit(reply.response_code);
        if let Some(prefix) = case.expectation.data_prefix {
            let data = reply.data@;
            if prefix@.is_prefix_of(data) {
                assert(prefix@ =~= data.subrange(0, prefix@.len() as int));
                assert forall|i: int| 0 <= i < prefix@.len() implies #[trigger] prefix@[i]
                    == data[i] by {}
            }
            if prefix@.len() <= data.len() && forall|i: int|
                0 <= i < prefix@.len() ==> #[trigger] prefix@[i] == data[i] {
                assert(prefix@ =~= data.subrange(0, prefix@.len() as int));
            }
        }
    }
}

/// The cases of a campaign run in their order, each once, and the campaign is
/// passed only where there was a case and every one passed.
pub proof fn lemma_campaign_runs_every_case<'a>(
    cases: &'a Vec<VerificationCase>,
    report: VerificationReport,
    next: Option<(&'a VerificationCase, Priority)>,
    passed: bool,
)
    requires
        call_ensures(run_campaign, (cases, &report), next),
        call_ensures(VerificationReport::passed, (&report,), passed),
    ensures
        next is Some <==> report.cases@.len() < cases@.len(),
        next matches Some((case, priority)) ==> *case == cases@[report.cases@.len() as int]
            && priority is Normal,
        report.cases@.len() == 0 ==> !passed,
        passed ==> forall|index: int|
            0 <= index < report.cases@.len() ==> (#[trigger] report.cases@[index]).passed,
        report.cases@.len() > 0 && !passed ==> exists|index: int|
            0 <= index < report.cases@.len() && !(#[trigger] report.cases@[index]).passed,
{
}

} // verus!
