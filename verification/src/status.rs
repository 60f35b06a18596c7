//! Waiting for a run: what the client does after each report of the run's status.
//!
//! The client asks the service, sleeps while the run is running, and stops at the first
//! report that settles the run. The asking and the sleeping are the caller's; what follows
//! from each report is decided here.

use crate::error::ClientError;
use crate::text::str_eq;
use vstd::prelude::*;

verus! {

/// The seconds between two polls, unless the caller chooses otherwise.
pub const POLLING_INTERVAL: u64 = 5;

/// The status that the workflow service reports for a run.
#[derive(Debug, PartialEq, Eq)]
pub enum RunStatus {
    Running,
    Succeeded,
    Failed,
    /// A status that the client does not know, under the name that the service gave.
    Other(String),
}

/// What one description of a run says of its progress.
#[derive(Debug, PartialEq, Eq)]
pub struct RunReport {
    /// The identifier of the run.
    pub execution_arn: String,
    pub status: RunStatus,
    /// The error that the service has recorded for the run, if any.
    pub error: Option<String>,
}

/// Where a run stands, as far as the client has observed.
#[derive(Debug, PartialEq, Eq)]
pub enum RunState {
    Started,
    Running,
    Succeeded,
    /// The run has failed or has left the known states; with the failure to report.
    Failed(ClientError),
}

/// What the client does next.
#[derive(Debug, PartialEq, Eq)]
pub enum PollAction {
    /// Sleep for this many seconds, then ask again.
    Sleep(u64),
    /// The run has succeeded: stop waiting.
    Finish,
    /// Stop waiting and report the failure.
    Fail(ClientError),
}

impl RunStatus {
    /// Reads the status from the name that the service uses for it. `RUNNING`, `SUCCEEDED`
    /// and `FAILED` are known; any other name is kept as it is.
    pub fn from_name(name: &str) -> (r: RunStatus)
        ensures
            r is Running <==> name@ == "RUNNING"@,
            r is Succeeded <==> name@ == "SUCCEEDED"@,
            r is Failed <==> name@ == "FAILED"@,
            r matches RunStatus::Other(kept) ==> kept@ == name@,
    {
        proof {
            reveal_strlit("RUNNING");
            reveal_strlit("SUCCEEDED");
            reveal_strlit("FAILED");
            assert("RUNNING"@[0] != "SUCCEEDED"@[0]);
            assert("RUNNING"@[0] != "FAILED"@[0]);
            assert("SUCCEEDED"@[0] != "FAILED"@[0]);
        }
        if str_eq(name, "RUNNING") {
            RunStatus::Running
        } else if str_eq(name, "SUCCEEDED") {
            RunStatus::Succeeded
        } else if str_eq(name, "FAILED") {
            RunStatus::Failed
        } else {
            RunStatus::Other(String::from_str(name))
        }
    }
}

impl RunState {
    /// Whether the run has reached a state that it does not leave.
    pub open spec fn settled(self) -> bool {
        self is Succeeded || self is Failed
    }

    /// Whether the run has reached a state that it does not leave.
    pub fn is_settled(&self) -> (r: bool)
        ensures
            r == self.settled(),
    {
        match self {
            RunState::Succeeded => true,
            RunState::Failed(_) => true,
            _ => false,
        }
    }
}

/// The failure that a report stands for, if it stands for one.
pub open spec fn failure_of(report: RunReport) -> Option<ClientError> {
    match report.status {
        RunStatus::Failed => Some(
            ClientError::ExecutionFailed {
                execution_arn: report.execution_arn,
                error: report.error,
            },
        ),
        RunStatus::Other(name) => Some(
            ClientError::UnexpectedStatus { execution_arn: report.execution_arn, status: name },
        ),
        _ => None,
    }
}

/// The state after `report` and what the client does next. A settled run stays as it is;
/// else a running run is slept on, a succeeded run ends the wait, and a failed run or an
/// unknown status ends it with the failure.
pub open spec fn transition(state: RunState, report: RunReport, interval: u64) -> (
    RunState,
    PollAction,
) {
    match state {
        RunState::Succeeded => (state, PollAction::Finish),
        RunState::Failed(e) => (state, PollAction::Fail(e)),
        _ => match report.status {
            RunStatus::Running => (RunState::Running, PollAction::Sleep(interval)),
            RunStatus::Succeeded => (RunState::Succeeded, PollAction::Finish),
            _ => (
                RunState::Failed(failure_of(report)->0),
                PollAction::Fail(failure_of(report)->0),
            ),
        },
    }
}

/// Takes one report of the run's status: gives the state that follows and what the client
/// does next.
pub fn advance(state: RunState, report: &RunReport, interval: u64) -> (r: (RunState, PollAction))
    ensures
        r == transition(state, *report, interval),
{
    match state {
        RunState::Succeeded => (RunState::Succeeded, PollAction::Finish),
        RunState::Failed(e) => {
            let again = e.duplicate();
            (RunState::Failed(e), PollAction::Fail(again))
        },
        _ => match &report.status {
            RunStatus::Running => (RunState::Running, PollAction::Sleep(interval)),
            RunStatus::Succeeded => (RunState::Succeeded, PollAction::Finish),
            RunStatus::Failed => {
                let error = match &report.error {
                    Some(text) => Some(text.clone()),
                    None => None,
                };
                let failure = ClientError::ExecutionFailed {
                    execution_arn: report.execution_arn.clone(),
                    error,
                };
                let again = failure.duplicate();
                (RunState::Failed(failure), PollAction::Fail(again))
            },
            RunStatus::Other(name) => {
                let failure = ClientError::UnexpectedStatus {
                    execution_arn: report.execution_arn.clone(),
                    status: name.clone(),
                };
                let again = failure.duplicate();
                (RunState::Failed(failure), PollAction::Fail(again))
            },
        },
    }
}

/// The index of the first report whose status is not `Running`; `reports.len()` if there is
/// none.
pub open spec fn first_settling(reports: Seq<RunReport>) -> int
    decreases reports.len(),
{
    if reports.len() == 0 {
        0
    } else if !(reports[0].status is Running) {
        0
    } else {
        1 + first_settling(reports.drop_first())
    }
}

/// The state in which waiting on `reports` ends: that of the first report that settles the
/// run; without such a report the run is still running, or has only been started where
/// there is no report at all.
pub open spec fn final_state(reports: Seq<RunReport>, interval: u64) -> RunState {
    let k = first_settling(reports);
    if k < reports.len() {
        transition(RunState::Started, reports[k], interval).0
    } else if reports.len() == 0 {
        RunState::Started
    } else {
        RunState::Running
    }
}

/// How waiting for a run went.
#[derive(Debug, PartialEq, Eq)]
pub struct WaitOutcome {
    /// How often the client slept.
    pub sleeps: usize,
    /// Where the run stood when the client stopped.
    pub state: RunState,
}

/// Waits for a run whose successive reports are `reports`: sleeps once for each report of
/// a running run, and stops at the first report that settles the run, or when the reports
/// end.
pub fn wait_for_completion(reports: &[RunReport], interval: u64) -> (r: WaitOutcome)
    ensures
        r.sleeps == first_settling(reports@),
        r.state == final_state(reports@, interval),
{
    let mut state = RunState::Started;
    let mut sleeps: usize = 0;
    assert(reports@.skip(0) =~= reports@);
    while sleeps < reports.len()
        invariant
            sleeps <= reports.len(),
            first_settling(reports@) == sleeps + first_settling(reports@.skip(sleeps as int)),
            forall|j: int| 0 <= j < sleeps ==> reports@[j].status is Running,
            sleeps == 0 ==> state is Started,
            sleeps > 0 ==> state is Running,
        decreases reports.len() - sleeps,
    {
        assert(reports@.skip(sleeps as int)[0] == reports@[sleeps as int]);
        let (next, action) = advance(state, &reports[sleeps], interval);
        match action {
            PollAction::Sleep(_) => {
                assert(reports@.skip(sleeps as int).drop_first() =~= reports@.skip(sleeps + 1));
                state = next;
                sleeps += 1;
            },
            _ => {
                return WaitOutcome { sleeps, state: next };
            },
        }
    }
    WaitOutcome { sleeps, state }
}

/// A settled run stays as it is, whatever is reported of it afterwards.
pub proof fn lemma_settled_stays(state: RunState, report: RunReport, interval: u64)
    requires
        state.settled(),
    ensures
        transition(state, report, interval).0 == state,
{
}

/// Every report settles a run that is not settled yet, unless it reports the run as
/// running; then the client sleeps for the interval.
pub proof fn lemma_report_settles(state: RunState, report: RunReport, interval: u64)
    requires
        !state.settled(),
    ensures
        report.status is Running ==> transition(state, report, interval) == (
            RunState::Running,
            PollAction::Sleep(interval),
        ),
        !(report.status is Running) ==> transition(state, report, interval).0.settled(),
        report.status is Succeeded <==> transition(state, report, interval).1 is Finish,
{
}

/// Where the first `k` reports show the run as running and the next one does not, the
/// client sleeps exactly `k` times and ends in the state that this next report settles.
pub proof fn lemma_sleeps_while_running(reports: Seq<RunReport>, interval: u64, k: int)
    requires
        0 <= k < reports.len(),
        forall|j: int| 0 <= j < k ==> (#[trigger] reports[j]).status is Running,
        !(reports[k].status is Running),
    ensures
        first_settling(reports) == k,
        final_state(reports, interval) == transition(RunState::Started, reports[k], interval).0,
        final_state(reports, interval).settled(),
    decreases k,
{
    if k > 0 {
        let rest = reports.drop_first();
        assert forall|j: int| 0 <= j < k - 1 implies (#[trigger] rest[j]).status is Running by {
            assert(reports[j + 1].status is Running);
        }
        assert(rest[k - 1] == reports[k]);
        lemma_sleeps_while_running(rest, interval, k - 1);
        assert(reports[0].status is Running);
    }
}

} // verus!
