//! Keeping a repository checkout at its pinned revision: the decisions of the
//! per-repository procedure, the URLs it uses, and the split of the work among
//! fetch workers.

use vstd::prelude::*;
use vstd::slice::slice_subrange;
use crate::annotation::{char_index_from, chars_of, find_char, github_prefix, github_prefix_chars, string_of};

verus! {

/// The name of the marker file that says a repository is gone for good.
pub const SKIP_EVAL_PATH: &'static str = ".skip_eval";

/// How many workers share the fetch work.
pub const FETCH_WORKERS: usize = 8;

/// How the procedure for one repository ended.
#[derive(PartialEq, Eq, Structural, Clone, Copy, Debug)]
pub enum SyncOutcome {
    /// A skip marker was already there.
    Skipped,
    /// The checkout already stood at the revision.
    UpToDate,
    /// The probe said the repository is gone; a skip marker is written.
    Unavailable,
    /// `git init` failed.
    InitFailed,
    /// Fetching the revision failed.
    FetchFailed,
    /// Checking out the revision failed.
    CheckoutFailed,
    /// The checkout now stands at the revision.
    Synchronized,
}

/// Where the procedure for one repository stands.
#[derive(PartialEq, Eq, Structural, Clone, Copy, Debug)]
pub enum SyncState {
    Start,
    Probing,
    Initializing,
    AddingRemote,
    Fetching,
    CheckingOut,
    Done(SyncOutcome),
}

/// What the outside world reports to the procedure.
#[derive(PartialEq, Eq, Structural, Clone, Copy, Debug)]
pub enum SyncEvent {
    /// The local directory was looked at: is there a skip marker, and does the
    /// recorded head name the target revision.
    Inspected { skip_marker: bool, head_matches: bool },
    /// The existence probe answered with `status`; `has_git_dir` tells whether
    /// repository metadata exists locally.
    ProbeAnswered { status: u16, has_git_dir: bool },
    /// The command that was asked for finished.
    CommandFinished { success: bool },
}

/// What the procedure asks the outside world to do next.
#[derive(PartialEq, Eq, Structural, Clone, Copy, Debug)]
pub enum SyncAction {
    /// Send the existence probe (an HTTP `HEAD` of the repository's page).
    Probe,
    /// Write the skip marker.
    WriteSkipMarker,
    /// Run `git init`.
    InitRepository,
    /// Run `git remote add -f origin <url>`.
    AddRemote,
    /// Run `git fetch --depth 1 origin <sha>`.
    FetchRevision,
    /// Run `git checkout <sha>`.
    CheckoutRevision,
    /// Nothing more to do.
    Stop,
}

/// A probe status lets the procedure go on when it is a success or a redirection.
pub open spec fn probe_ok(status: u16) -> bool {
    200 <= status && status <= 399
}

/// The transition table of the per-repository procedure.
///
/// A checkout whose head already names the revision is left alone without a
/// probe, so a repository that was reachable once and later became private is
/// not noticed until its pinned revision changes.
pub open spec fn sync_next(state: SyncState, event: SyncEvent) -> (SyncState, SyncAction) {
    match (state, event) {
        (SyncState::Start, SyncEvent::Inspected { skip_marker, head_matches }) => if skip_marker {
            (SyncState::Done(SyncOutcome::Skipped), SyncAction::Stop)
        } else if head_matches {
            (SyncState::Done(SyncOutcome::UpToDate), SyncAction::Stop)
        } else {
            (SyncState::Probing, SyncAction::Probe)
        },
        (SyncState::Probing, SyncEvent::ProbeAnswered { status, has_git_dir }) => if !probe_ok(status) {
            (SyncState::Done(SyncOutcome::Unavailable), SyncAction::WriteSkipMarker)
        } else if has_git_dir {
            (SyncState::AddingRemote, SyncAction::AddRemote)
        } else {
            (SyncState::Initializing, SyncAction::InitRepository)
        },
        (SyncState::Initializing, SyncEvent::CommandFinished { success }) => if success {
            (SyncState::AddingRemote, SyncAction::AddRemote)
        } else {
            (SyncState::Done(SyncOutcome::InitFailed), SyncAction::Stop)
        },
        (SyncState::AddingRemote, SyncEvent::CommandFinished { .. }) => (
            SyncState::Fetching,
            SyncAction::FetchRevision,
        ),
        (SyncState::Fetching, SyncEvent::CommandFinished { success }) => if success {
            (SyncState::CheckingOut, SyncAction::CheckoutRevision)
        } else {
            (SyncState::Done(SyncOutcome::FetchFailed), SyncAction::Stop)
        },
        (SyncState::CheckingOut, SyncEvent::CommandFinished { success }) => if success {
            (SyncState::Done(SyncOutcome::Synchronized), SyncAction::Stop)
        } else {
            (SyncState::Done(SyncOutcome::CheckoutFailed), SyncAction::Stop)
        },
        _ => (state, SyncAction::Stop),
    }
}

/// The actions that a procedure in `state` asks for as it receives `events`.
pub open spec fn sync_actions(state: SyncState, events: Seq<SyncEvent>) -> Seq<SyncAction>
    decreases events.len(),
{
    if events.len() == 0 {
        Seq::empty()
    } else {
        let (next, action) = sync_next(state, events[0]);
        seq![action] + sync_actions(next, events.drop_first())
    }
}

/// An action that goes over the network or runs a command.
pub open spec fn is_outside_work(a: SyncAction) -> bool {
    a != SyncAction::Stop && a != SyncAction::WriteSkipMarker
}

/// Tells whether a probe status lets the procedure go on.
pub fn probe_allows_sync(status: u16) -> (r: bool)
    ensures
        r == probe_ok(status),
{
    200 <= status && status <= 399
}

/// One step of the per-repository procedure: the next state and the action to take.
pub fn sync_step(state: SyncState, event: SyncEvent) -> (r: (SyncState, SyncAction))
    ensures
        r == sync_next(state, event),
{
    match (state, event) {
        (SyncState::Start, SyncEvent::Inspected { skip_marker, head_matches }) => if skip_marker {
            (SyncState::Done(SyncOutcome::Skipped), SyncAction::Stop)
        } else if head_matches {
            (SyncState::Done(SyncOutcome::UpToDate), SyncAction::Stop)
        } else {
            (SyncState::Probing, SyncAction::Probe)
        },
        (SyncState::Probing, SyncEvent::ProbeAnswered { status, has_git_dir }) => if !probe_allows_sync(
            status,
        ) {
            (SyncState::Done(SyncOutcome::Unavailable), SyncAction::WriteSkipMarker)
        } else if has_git_dir {
            (SyncState::AddingRemote, SyncAction::AddRemote)
        } else {
            (SyncState::Initializing, SyncAction::InitRepository)
        },
        (SyncState::Initializing, SyncEvent::CommandFinished { success }) => if success {
            (SyncState::AddingRemote, SyncAction::AddRemote)
        } else {
            (SyncState::Done(SyncOutcome::InitFailed), SyncAction::Stop)
        },
        (SyncState::AddingRemote, SyncEvent::CommandFinished { .. }) => (
            SyncState::Fetching,
            SyncAction::FetchRevision,
        ),
        (SyncState::Fetching, SyncEvent::CommandFinished { success }) => if success {
            (SyncState::CheckingOut, SyncAction::CheckoutRevision)
        } else {
            (SyncState::Done(SyncOutcome::FetchFailed), SyncAction::Stop)
        },
        (SyncState::CheckingOut, SyncEvent::CommandFinished { success }) => if success {
            (SyncState::Done(SyncOutcome::Synchronized), SyncAction::Stop)
        } else {
            (SyncState::Done(SyncOutcome::CheckoutFailed), SyncAction::Stop)
        },
        _ => (state, SyncAction::Stop),
    }
}

/// A procedure answers each event with one action.
pub proof fn lemma_one_action_per_event(state: SyncState, events: Seq<SyncEvent>)
    ensures
        sync_actions(state, events).len() == events.len(),
    decreases events.len(),
{
    if events.len() > 0 {
        lemma_one_action_per_event(sync_next(state, events[0]).0, events.drop_first());
    }
}

/// A finished procedure asks for nothing more, whatever it is told.
pub proof fn lemma_done_stays_done(outcome: SyncOutcome, events: Seq<SyncEvent>)
    ensures
        forall|i: int| 0 <= i < events.len() ==> #[trigger] sync_actions(SyncState::Done(outcome), events)[i]
            == SyncAction::Stop,
    decreases events.len(),
{
    if events.len() > 0 {
        lemma_done_stays_done(outcome, events.drop_first());
        let s = sync_actions(SyncState::Done(outcome), events);
        let t = sync_actions(SyncState::Done(outcome), events.drop_first());
        lemma_one_action_per_event(SyncState::Done(outcome), events.drop_first());
        assert(s == seq![SyncAction::Stop] + t);
        assert forall|i: int| 0 <= i < events.len() implies s[i] == SyncAction::Stop by {
            if i > 0 {
                assert(s[i] == t[i - 1]);
            }
        }
    }
}

/// Synchronizing a checkout that already stands at its revision does no outside
/// work: no probe, no fetch, no command, whatever else happens.
pub proof fn lemma_up_to_date_checkout_is_left_alone(skip_marker: bool, events: Seq<SyncEvent>)
    requires
        events.len() > 0,
        events[0] == (SyncEvent::Inspected { skip_marker, head_matches: true }),
    ensures
        forall|i: int| 0 <= i < events.len() ==> !is_outside_work(#[trigger] sync_actions(SyncState::Start, events)[i]),
{
    let (next, _) = sync_next(SyncState::Start, events[0]);
    let outcome = if skip_marker { SyncOutcome::Skipped } else { SyncOutcome::UpToDate };
    assert(next == SyncState::Done(outcome));
    lemma_done_stays_done(outcome, events.drop_first());
    let s = sync_actions(SyncState::Start, events);
    let t = sync_actions(next, events.drop_first());
    lemma_one_action_per_event(next, events.drop_first());
    assert(s == seq![sync_next(SyncState::Start, events[0]).1] + t);
    assert forall|i: int| 0 <= i < events.len() implies !is_outside_work(s[i]) by {
        if i > 0 {
            assert(s[i] == t[i - 1]);
        }
    }
}

/// A repository with a skip marker is never probed or fetched again.
pub proof fn lemma_skipped_repository_is_left_alone(head_matches: bool, events: Seq<SyncEvent>)
    requires
        events.len() > 0,
        events[0] == (SyncEvent::Inspected { skip_marker: true, head_matches }),
    ensures
        forall|i: int| 0 <= i < events.len() ==> !is_outside_work(#[trigger] sync_actions(SyncState::Start, events)[i]),
{
    let (next, _) = sync_next(SyncState::Start, events[0]);
    assert(next == SyncState::Done(SyncOutcome::Skipped));
    lemma_done_stays_done(SyncOutcome::Skipped, events.drop_first());
    let s = sync_actions(SyncState::Start, events);
    let t = sync_actions(next, events.drop_first());
    lemma_one_action_per_event(next, events.drop_first());
    assert(s == seq![sync_next(SyncState::Start, events[0]).1] + t);
    assert forall|i: int| 0 <= i < events.len() implies !is_outside_work(s[i]) by {
        if i > 0 {
            assert(s[i] == t[i - 1]);
        }
    }
}

/// A probe that fails (a status that is neither success nor redirection) has the
/// skip marker written and ends the procedure.
pub proof fn lemma_failed_probe_marks_skip(status: u16, has_git_dir: bool)
    requires
        !probe_ok(status),
    ensures
        sync_next(SyncState::Probing, SyncEvent::ProbeAnswered { status, has_git_dir }) == (
            SyncState::Done(SyncOutcome::Unavailable),
            SyncAction::WriteSkipMarker,
        ),
{
}

/// What `str::trim` makes of a text.
pub uninterp spec fn trimmed_of(s: Seq<char>) -> Seq<char>;

/// Relies on `str::trim`: the text without its leading and trailing white
/// space, which depends on the characters alone.
#[verifier::external_body]
fn trim_text(s: &str) -> (r: &str)
    ensures
        r@ == trimmed_of(s@),
{
    s.trim()
}

/// Tells whether an already trimmed head record names the revision `sha`.
pub fn same_revision(trimmed_head: &str, sha: &str) -> (r: bool)
    ensures
        r == (trimmed_head@ == sha@),
{
    let a = String::from_str(trimmed_head);
    let b = String::from_str(sha);
    a == b
}

/// Tells whether the content of a checkout's head record, trimmed, is `sha`.
pub fn head_names_revision(head_content: &str, sha: &str) -> (r: bool)
    ensures
        r == (trimmed_of(head_content@) == sha@),
{
    same_revision(trim_text(head_content), sha)
}

/// Splits `owner/name` at its first `/`; `None` when there is none.
pub fn split_repo(repo: &str) -> (r: Option<(String, String)>)
    ensures
        match r {
            Some((owner, name)) => {
                let k = char_index_from(repo@, '/', 0);
                k >= 0 && owner@ == repo@.subrange(0, k) && name@ == repo@.subrange(k + 1, repo@.len() as int)
            },
            None => char_index_from(repo@, '/', 0) == -1,
        },
{
    let s = chars_of(repo);
    match find_char(&s, '/', 0) {
        Some(k) => {
            let owner = string_of(slice_subrange(s.as_slice(), 0, k));
            let name = string_of(slice_subrange(s.as_slice(), k + 1, s.len()));
            Some((owner, name))
        },
        None => None,
    }
}

pub open spec fn git_suffix() -> Seq<char> {
    seq!['.', 'g', 'i', 't']
}

/// The page of a repository on GitHub, which the existence probe asks for.
pub fn repository_url(repo: &str) -> (r: String)
    ensures
        r@ == github_prefix() + repo@,
{
    let prefix = github_prefix_chars();
    let mut url = string_of(prefix.as_slice());
    url.append(repo);
    url
}

/// The URL of a repository's git remote.
pub fn remote_url(repo: &str) -> (r: String)
    ensures
        r@ == github_prefix() + repo@ + git_suffix(),
{
    let mut url = repository_url(repo);
    let suffix = vec!['.', 'g', 'i', 't'];
    assert(suffix@ =~= git_suffix());
    let tail = string_of(suffix.as_slice());
    url.append(tail.as_str());
    url
}

/// The size of each chunk when `n` items are split among `workers`: the
/// quotient rounded up.
pub open spec fn chunk_size_for(n: nat, workers: nat) -> nat {
    if n % workers == 0 { n / workers } else { n / workers + 1 }
}

proof fn lemma_chunks_cover(n: nat, workers: nat)
    requires
        workers > 0,
    ensures
        n <= workers * chunk_size_for(n, workers),
        n > 0 ==> chunk_size_for(n, workers) > 0,
{
    vstd::arithmetic::div_mod::lemma_fundamental_div_mod(n as int, workers as int);
    let q = n / workers;
    let m = n % workers;
    assert(n == workers * q + m);
    assert(m < workers);
    assert(n > 0 ==> chunk_size_for(n, workers) > 0) by (nonlinear_arith)
        requires
            n == workers * q + m,
            chunk_size_for(n, workers) == (if m == 0 { q } else { q + 1 }),
    ;
    assert(n <= workers * chunk_size_for(n, workers)) by (nonlinear_arith)
        requires
            n == workers * q + m,
            m < workers,
            chunk_size_for(n, workers) == (if m == 0 { q } else { q + 1 }),
    ;
}

/// Splits the items `0..n` into at most `workers` contiguous, non-empty,
/// disjoint ranges `[start, end)` that together cover them, in order.
pub fn chunk_ranges(n: usize, workers: usize) -> (r: Vec<(usize, usize)>)
    requires
        workers > 0,
    ensures
        r.len() <= workers,
        n == 0 ==> r.len() == 0,
        n > 0 ==> r.len() > 0 && r@[0].0 == 0 && r@.last().1 == n,
        forall|i: int| 0 <= i < r.len() ==> r@[i].0 < #[trigger] r@[i].1,
        forall|i: int| 0 <= i < r.len() - 1 ==> #[trigger] r@[i].1 == r@[i + 1].0,
{
    let q: usize = n / workers;
    proof {
        vstd::arithmetic::div_mod::lemma_fundamental_div_mod(n as int, workers as int);
        let m = n % workers;
        assert(m > 0 ==> q < usize::MAX) by (nonlinear_arith)
            requires
                n == workers * q + m,
                m < workers,
                n <= usize::MAX,
                q >= 0,
        ;
    }
    let size: usize = if n % workers == 0 { q } else { q + 1 };
    proof {
        lemma_chunks_cover(n as nat, workers as nat);
    }
    let mut r: Vec<(usize, usize)> = Vec::new();
    let mut start: usize = 0;
    assert(0 * size == 0) by (nonlinear_arith);
    while start < n
        invariant
            n > 0 ==> size > 0,
            n <= workers * size,
            start <= n,
            start < n ==> r.len() * size == start,
            r.len() <= workers,
            r.len() == 0 <==> start == 0,
            r.len() > 0 ==> r@[0].0 == 0 && r@.last().1 == start,
            forall|i: int| 0 <= i < r.len() ==> r@[i].0 < #[trigger] r@[i].1,
            forall|i: int| 0 <= i < r.len() - 1 ==> #[trigger] r@[i].1 == r@[i + 1].0,
        decreases n - start,
    {
        proof {
            let len = r.len() as int;
            assert(len < workers) by (nonlinear_arith)
                requires
                    len * size < n,
                    n <= workers * size,
                    size > 0,
            ;
        }
        let end: usize = if n - start > size { start + size } else { n };
        let ghost old_r = r@;
        r.push((start, end));
        assert(r@[r.len() - 1] == (start, end));
        assert forall|i: int| 0 <= i < r.len() - 1 implies #[trigger] r@[i].1 == r@[i + 1].0 by {
            if i < r.len() - 2 {
                assert(r@[i] == old_r[i] && r@[i + 1] == old_r[i + 1]);
            } else {
                assert(r@[i] == old_r.last());
            }
        }
        assert(r@[0] == if old_r.len() > 0 { old_r[0] } else { (start, end) });
        start = end;
        proof {
            if start < n {
                assert(r.len() * size == (r.len() - 1) * size + size) by (nonlinear_arith);
            }
        }
    }
    r
}

} // verus!
