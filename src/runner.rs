//! The decisions of an evaluation run around the search engine's calls.

use vstd::prelude::*;
use crate::model::EvaluationQueryOutcome;

verus! {

/// How many results one search asks for.
pub const SEARCH_RESULT_LIMIT: usize = 8;

/// A project is evaluated only when its checkout exists and is not marked skipped.
pub fn should_evaluate(checkout_exists: bool, skip_marker_exists: bool) -> (r: bool)
    ensures
        r == (checkout_exists && !skip_marker_exists),
{
    checkout_exists && !skip_marker_exists
}

/// Running sums over the outcomes of a run.
pub struct RunTotals {
    pub covered_result_count: usize,
    pub total_result_count: usize,
}

impl RunTotals {
    /// Totals before any outcome.
    pub fn new() -> (r: RunTotals)
        ensures
            r.covered_result_count == 0,
            r.total_result_count == 0,
    {
        RunTotals { covered_result_count: 0, total_result_count: 0 }
    }

    /// Tells whether `record` can add `outcome` without leaving `usize`.
    pub fn can_record(&self, outcome: &EvaluationQueryOutcome) -> (r: bool)
        ensures
            r == (self.covered_result_count + outcome.covered_result_count <= usize::MAX
                && self.total_result_count + outcome.total_result_count <= usize::MAX),
    {
        outcome.covered_result_count <= usize::MAX - self.covered_result_count
            && outcome.total_result_count <= usize::MAX - self.total_result_count
    }

    /// Adds an outcome's counters to the sums.
    pub fn record(&mut self, outcome: &EvaluationQueryOutcome)
        requires
            old(self).covered_result_count + outcome.covered_result_count <= usize::MAX,
            old(self).total_result_count + outcome.total_result_count <= usize::MAX,
        ensures
            final(self).covered_result_count == old(self).covered_result_count + outcome.covered_result_count,
            final(self).total_result_count == old(self).total_result_count + outcome.total_result_count,
    {
        self.covered_result_count = self.covered_result_count + outcome.covered_result_count;
        self.total_result_count = self.total_result_count + outcome.total_result_count;
    }
}

/// Where the evaluation of one project stands.
#[derive(PartialEq, Eq, Structural, Clone, Copy, Debug)]
pub enum RunPhase {
    /// Nothing was done for the project yet.
    NotLoaded,
    /// The checkout was registered as a worktree; its scan is awaited.
    WorktreeScanning,
    /// Indexing was asked for; the engine's idle status is awaited.
    IndexingPending,
    /// The query with this index was sent; its results are awaited.
    Querying(usize),
    /// Nothing more happens for the project.
    Done,
}

/// What the engine or the file system reports to the runner.
#[derive(PartialEq, Eq, Structural, Clone, Copy, Debug)]
pub enum RunEvent {
    /// The checkout directory and its skip marker were looked for.
    CheckoutInspected { checkout_exists: bool, skip_marker_exists: bool },
    /// The worktree's initial scan completed.
    ScanComplete,
    /// The index reported a status change; `idle` when it has nothing pending.
    StatusChanged { idle: bool },
    /// A search answered.
    SearchAnswered,
}

/// What the runner asks for next.
#[derive(PartialEq, Eq, Structural, Clone, Copy, Debug)]
pub enum RunAction {
    /// Register the checkout as a worktree and await its scan.
    RegisterWorktree,
    /// Ask the engine to index the project and await its idle status.
    StartIndexing,
    /// Send the query with this index, asking for `SEARCH_RESULT_LIMIT` results.
    Search(usize),
    /// Leave the project out: its checkout is missing or marked skipped.
    SkipProject,
    /// Keep waiting: the event changes nothing.
    Wait,
    /// The project is done.
    Finish,
}

/// The transition table of the evaluation of a project with `query_count` queries.
pub open spec fn run_next(phase: RunPhase, event: RunEvent, query_count: usize) -> (RunPhase, RunAction) {
    match (phase, event) {
        (RunPhase::NotLoaded, RunEvent::CheckoutInspected { checkout_exists, skip_marker_exists }) => {
            if checkout_exists && !skip_marker_exists {
                (RunPhase::WorktreeScanning, RunAction::RegisterWorktree)
            } else {
                (RunPhase::Done, RunAction::SkipProject)
            }
        },
        (RunPhase::WorktreeScanning, RunEvent::ScanComplete) => (RunPhase::IndexingPending, RunAction::StartIndexing),
        (RunPhase::IndexingPending, RunEvent::StatusChanged { idle }) => if !idle {
            (RunPhase::IndexingPending, RunAction::Wait)
        } else if query_count == 0 {
            (RunPhase::Done, RunAction::Finish)
        } else {
            (RunPhase::Querying(0), RunAction::Search(0))
        },
        (RunPhase::Querying(n), RunEvent::SearchAnswered) => if n + 1 < query_count {
            (RunPhase::Querying((n + 1) as usize), RunAction::Search((n + 1) as usize))
        } else {
            (RunPhase::Done, RunAction::Finish)
        },
        _ => (phase, RunAction::Wait),
    }
}

/// One step of the evaluation of a project: the next phase and the action to take.
pub fn run_step(phase: RunPhase, event: RunEvent, query_count: usize) -> (r: (RunPhase, RunAction))
    ensures
        r == run_next(phase, event, query_count),
{
    match (phase, event) {
        (RunPhase::NotLoaded, RunEvent::CheckoutInspected { checkout_exists, skip_marker_exists }) => {
            if should_evaluate(checkout_exists, skip_marker_exists) {
                (RunPhase::WorktreeScanning, RunAction::RegisterWorktree)
            } else {
                (RunPhase::Done, RunAction::SkipProject)
            }
        },
        (RunPhase::WorktreeScanning, RunEvent::ScanComplete) => (RunPhase::IndexingPending, RunAction::StartIndexing),
        (RunPhase::IndexingPending, RunEvent::StatusChanged { idle }) => if !idle {
            (RunPhase::IndexingPending, RunAction::Wait)
        } else if query_count == 0 {
            (RunPhase::Done, RunAction::Finish)
        } else {
            (RunPhase::Querying(0), RunAction::Search(0))
        },
        (RunPhase::Querying(n), RunEvent::SearchAnswered) => if n < query_count && query_count - n > 1 {
            (RunPhase::Querying(n + 1), RunAction::Search(n + 1))
        } else {
            (RunPhase::Done, RunAction::Finish)
        },
        _ => (phase, RunAction::Wait),
    }
}

/// The actions of a project's evaluation in `phase` as it receives `events`.
pub open spec fn run_actions(phase: RunPhase, events: Seq<RunEvent>, query_count: usize) -> Seq<RunAction>
    decreases events.len(),
{
    if events.len() == 0 {
        Seq::empty()
    } else {
        let (next, action) = run_next(phase, events[0], query_count);
        seq![action] + run_actions(next, events.drop_first(), query_count)
    }
}

/// Once idle was seen, further status changes are ignored: only one idle
/// notification is awaited.
pub proof fn lemma_one_idle_awaited(n: usize, idle: bool, query_count: usize)
    ensures
        run_next(RunPhase::Querying(n), RunEvent::StatusChanged { idle }, query_count) == (
            RunPhase::Querying(n),
            RunAction::Wait,
        ),
        run_next(RunPhase::Done, RunEvent::StatusChanged { idle }, query_count) == (RunPhase::Done, RunAction::Wait),
{
}

/// A project whose checkout is missing or marked skipped is never searched.
pub proof fn lemma_skipped_project_is_never_searched(
    checkout_exists: bool,
    skip_marker_exists: bool,
    events: Seq<RunEvent>,
    query_count: usize,
)
    requires
        !(checkout_exists && !skip_marker_exists),
        events.len() > 0,
        events[0] == (RunEvent::CheckoutInspected { checkout_exists, skip_marker_exists }),
    ensures
        forall|i: int| 0 <= i < events.len() ==> !(#[trigger] run_actions(RunPhase::NotLoaded, events, query_count)[i] is Search),
{
    lemma_done_waits(events.drop_first(), query_count);
    let s = run_actions(RunPhase::NotLoaded, events, query_count);
    let t = run_actions(RunPhase::Done, events.drop_first(), query_count);
    assert(s == seq![RunAction::SkipProject] + t);
    assert forall|i: int| 0 <= i < events.len() implies !(s[i] is Search) by {
        if i > 0 {
            assert(s[i] == t[i - 1]);
        }
    }
}

proof fn lemma_done_waits(events: Seq<RunEvent>, query_count: usize)
    ensures
        run_actions(RunPhase::Done, events, query_count).len() == events.len(),
        forall|i: int| 0 <= i < events.len() ==> #[trigger] run_actions(RunPhase::Done, events, query_count)[i] == RunAction::Wait,
    decreases events.len(),
{
    if events.len() > 0 {
        lemma_done_waits(events.drop_first(), query_count);
        let s = run_actions(RunPhase::Done, events, query_count);
        let t = run_actions(RunPhase::Done, events.drop_first(), query_count);
        assert(s == seq![RunAction::Wait] + t);
        assert forall|i: int| 0 <= i < events.len() implies s[i] == RunAction::Wait by {
            if i > 0 {
                assert(s[i] == t[i - 1]);
            }
        }
    }
}

} // verus!
