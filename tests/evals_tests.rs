use evals::annotation::{decode_fragment, parse_annotation_line, parse_annotations};
use evals::dataset::build_dataset;
use evals::model::{AnnotationRow, EvaluationQuery, EvaluationSearchResult};
use evals::runner::{
    run_step, should_evaluate, RunAction, RunEvent, RunPhase, RunTotals, SEARCH_RESULT_LIMIT,
};
use evals::scoring::{count_covered, is_covered, result_covers, score_query};
use evals::sync::{
    chunk_ranges, head_names_revision, probe_allows_sync, remote_url, repository_url,
    same_revision, split_repo, sync_step, SyncAction, SyncEvent, SyncOutcome, SyncState,
    FETCH_WORKERS, SKIP_EVAL_PATH,
};

fn res(file: &str, start: u32, end: u32) -> EvaluationSearchResult {
    EvaluationSearchResult { file: file.to_string(), lines: start..end }
}

fn row(repo: &str, sha: &str, query: &str, file: &str, start: u32, end: u32) -> AnnotationRow {
    AnnotationRow {
        repo: repo.to_string(),
        sha: sha.to_string(),
        query: query.to_string(),
        file: file.to_string(),
        lines: start..end,
    }
}

#[test]
fn fragment_range_pair() {
    assert_eq!(decode_fragment("L10-L14"), Some(10..14));
}

#[test]
fn fragment_single_line() {
    assert_eq!(decode_fragment("L7"), Some(7..8));
}

#[test]
fn fragment_malformed() {
    assert_eq!(decode_fragment("10-14"), None);
    assert_eq!(decode_fragment("Lx"), None);
    assert_eq!(decode_fragment("L"), None);
    assert_eq!(decode_fragment("L1-"), None);
    assert_eq!(decode_fragment(""), None);
    assert_eq!(decode_fragment("L4294967296"), None);
    assert_eq!(decode_fragment("L4294967295"), None);
    assert_eq!(decode_fragment("L4294967294"), Some(4294967294..4294967295));
    assert_eq!(decode_fragment("L+3"), Some(3..4));
}

#[test]
fn line_decodes_permalink() {
    let line = "Go,parse json,https://github.com/a/b/blob/deadbeef/src/x.go#L1-L5,3,extra";
    let r = parse_annotation_line(line).unwrap();
    assert_eq!(r.repo, "a/b");
    assert_eq!(r.sha, "deadbeef");
    assert_eq!(r.query, "parse json");
    assert_eq!(r.file, "src/x.go");
    assert_eq!(r.lines, 1..5);
}

#[test]
fn line_with_zero_score_is_dropped() {
    let line = "Go,parse json,https://github.com/a/b/blob/deadbeef/src/x.go#L1-L5,0";
    assert!(parse_annotation_line(line).is_none());
}

#[test]
fn line_with_score_zero_prefix_is_kept() {
    let line = "Go,q,https://github.com/a/b/blob/s/f.rs#L2,00";
    assert_eq!(parse_annotation_line(line).unwrap().lines, 2..3);
}

#[test]
fn malformed_lines_are_dropped() {
    assert!(parse_annotation_line("Go,q,https://github.com/a/b/blob/s/f.rs#L2").is_none());
    assert!(parse_annotation_line("Go,q,http://github.com/a/b/blob/s/f.rs#L2,1").is_none());
    assert!(parse_annotation_line("Go,q,https://github.com/a/b/tree/s/f.rs#L2,1").is_none());
    assert!(parse_annotation_line("Go,q,https://github.com/a/b/blob/s/f.rs,1").is_none());
    assert!(parse_annotation_line("Go,q,https://github.com/a/b/blob/s#L2,1").is_none());
    assert!(parse_annotation_line("Go,q,https://github.com/a/b/blob/s/f.rs#X2,1").is_none());
}

#[test]
fn annotations_split_lines() {
    let text = "Language,Query,GitHubUrl,Relevance,Notes\r\n\
Go,q1,https://github.com/a/b/blob/s/f.go#L1-L3,2,\r\n\
Go,q2,https://github.com/a/b/blob/s/f.go#L4,0,\n\
Go,q3,https://github.com/c/d/blob/t/g.go#L9,1";
    let rows = parse_annotations(text);
    assert_eq!(rows.len(), 2);
    assert_eq!(rows[0].query, "q1");
    assert_eq!(rows[0].lines, 1..3);
    assert_eq!(rows[1].repo, "c/d");
    assert_eq!(rows[1].lines, 9..10);
    assert_eq!(parse_annotations("").len(), 0);
}

#[test]
fn build_groups_and_deduplicates() {
    let rows = vec![
        row("a/b", "s1", "q", "f.rs", 1, 2),
        row("c/d", "s2", "q", "g.rs", 3, 4),
        row("a/b", "s1", "q", "f.rs", 1, 2),
        row("a/b", "s1", "q", "f.rs", 5, 6),
        row("a/b", "s1", "r", "f.rs", 1, 2),
        row("a/b", "s9", "q", "f.rs", 1, 2),
    ];
    let ds = build_dataset(&rows);
    assert_eq!(ds.len(), 3);
    assert_eq!(ds[0].repo, "a/b");
    assert_eq!(ds[0].sha, "s1");
    assert_eq!(ds[1].repo, "c/d");
    assert_eq!(ds[2].sha, "s9");
    assert_eq!(ds[0].queries.len(), 2);
    assert_eq!(ds[0].queries[0].query, "q");
    assert_eq!(ds[0].queries[0].expected_results.len(), 2);
    assert_eq!(ds[0].queries[0].expected_results[0].lines, 1..2);
    assert_eq!(ds[0].queries[0].expected_results[1].lines, 5..6);
    assert_eq!(ds[0].queries[1].query, "r");
    assert!(build_dataset(&Vec::new()).is_empty());
}

#[test]
fn build_is_order_independent() {
    let a = vec![
        row("a/b", "s", "q", "f.rs", 1, 2),
        row("a/b", "s", "q", "g.rs", 3, 4),
        row("c/d", "t", "p", "h.rs", 5, 6),
    ];
    let b = vec![
        row("c/d", "t", "p", "h.rs", 5, 6),
        row("a/b", "s", "q", "g.rs", 3, 4),
        row("a/b", "s", "q", "f.rs", 1, 2),
    ];
    let da = build_dataset(&a);
    let db = build_dataset(&b);
    assert_eq!(da.len(), db.len());
    let pa = da.iter().find(|p| p.repo == "a/b").unwrap();
    let pb = db.iter().find(|p| p.repo == "a/b").unwrap();
    let mut fa: Vec<String> = pa.queries[0].expected_results.iter().map(|r| r.file.clone()).collect();
    let mut fb: Vec<String> = pb.queries[0].expected_results.iter().map(|r| r.file.clone()).collect();
    fa.sort();
    fb.sort();
    assert_eq!(fa, fb);
}

#[test]
fn zero_score_rows_never_reach_the_dataset() {
    let text = "Go,q,https://github.com/a/b/blob/s/f.go#L1,0\nGo,q,https://github.com/a/b/blob/s/g.go#L2,3";
    let ds = build_dataset(&parse_annotations(text));
    assert_eq!(ds.len(), 1);
    assert_eq!(ds[0].queries[0].expected_results.len(), 1);
    assert_eq!(ds[0].queries[0].expected_results[0].file, "g.go");
}

#[test]
fn coverage_containment() {
    let actual = res("a.rs", 5, 20);
    assert!(result_covers(&actual, &res("a.rs", 8, 12)));
    assert!(!result_covers(&actual, &res("a.rs", 3, 9)));
    assert!(!result_covers(&actual, &res("a.rs", 21, 25)));
    assert!(!result_covers(&actual, &res("b.rs", 8, 12)));
    assert!(!result_covers(&actual, &res("a.rs", 8, 20)));
}

#[test]
fn coverage_counts() {
    let expected = vec![res("a.rs", 8, 12), res("a.rs", 3, 9), res("b.rs", 1, 2)];
    let actual = vec![res("a.rs", 5, 20), res("b.rs", 0, 5)];
    assert!(is_covered(&actual, &expected[2]));
    assert!(!is_covered(&actual, &expected[1]));
    assert_eq!(count_covered(&expected, &actual), 2);
    assert_eq!(count_covered(&expected, &Vec::new()), 0);
}

#[test]
fn end_to_end_scoring() {
    let query = EvaluationQuery {
        query: "parse json".to_string(),
        expected_results: vec![res("src/x.go", 1, 5)],
    };
    let outcome = score_query(query, vec![res("src/x.go", 0, 10)]);
    assert_eq!(outcome.covered_result_count, 1);
    assert_eq!(outcome.total_result_count, 1);
    assert_eq!(outcome.query, "parse json");
    assert_eq!(outcome.actual_results.len(), 1);
    let mut totals = RunTotals::new();
    assert!(totals.can_record(&outcome));
    totals.record(&outcome);
    totals.record(&outcome);
    assert_eq!(totals.covered_result_count, 2);
    assert_eq!(totals.total_result_count, 2);
}

#[test]
fn evaluation_skips_missing_or_marked_checkouts() {
    assert!(should_evaluate(true, false));
    assert!(!should_evaluate(false, false));
    assert!(!should_evaluate(true, true));
    assert_eq!(SEARCH_RESULT_LIMIT, 8);
}

#[test]
fn failed_probe_writes_skip_marker() {
    let (s, a) = sync_step(SyncState::Start, SyncEvent::Inspected { skip_marker: false, head_matches: false });
    assert_eq!((s, a), (SyncState::Probing, SyncAction::Probe));
    let (s, a) = sync_step(s, SyncEvent::ProbeAnswered { status: 404, has_git_dir: false });
    assert_eq!(s, SyncState::Done(SyncOutcome::Unavailable));
    assert_eq!(a, SyncAction::WriteSkipMarker);
    let (s, a) = sync_step(SyncState::Start, SyncEvent::Inspected { skip_marker: true, head_matches: false });
    assert_eq!((s, a), (SyncState::Done(SyncOutcome::Skipped), SyncAction::Stop));
    assert_eq!(SKIP_EVAL_PATH, ".skip_eval");
}

#[test]
fn full_sync_then_second_run_does_nothing() {
    let mut actions = Vec::new();
    let mut state = SyncState::Start;
    let events = [
        SyncEvent::Inspected { skip_marker: false, head_matches: false },
        SyncEvent::ProbeAnswered { status: 301, has_git_dir: false },
        SyncEvent::CommandFinished { success: true },
        SyncEvent::CommandFinished { success: false },
        SyncEvent::CommandFinished { success: true },
        SyncEvent::CommandFinished { success: true },
    ];
    for e in events {
        let (s, a) = sync_step(state, e);
        state = s;
        actions.push(a);
    }
    assert_eq!(
        actions,
        vec![
            SyncAction::Probe,
            SyncAction::InitRepository,
            SyncAction::AddRemote,
            SyncAction::FetchRevision,
            SyncAction::CheckoutRevision,
            SyncAction::Stop
        ]
    );
    assert_eq!(state, SyncState::Done(SyncOutcome::Synchronized));
    let (s, a) = sync_step(SyncState::Start, SyncEvent::Inspected { skip_marker: false, head_matches: true });
    assert_eq!((s, a), (SyncState::Done(SyncOutcome::UpToDate), SyncAction::Stop));
    let (s2, a2) = sync_step(s, SyncEvent::CommandFinished { success: true });
    assert_eq!((s2, a2), (s, SyncAction::Stop));
}

#[test]
fn sync_failures() {
    let (s, a) = sync_step(SyncState::Fetching, SyncEvent::CommandFinished { success: false });
    assert_eq!((s, a), (SyncState::Done(SyncOutcome::FetchFailed), SyncAction::Stop));
    let (s, _) = sync_step(SyncState::Initializing, SyncEvent::CommandFinished { success: false });
    assert_eq!(s, SyncState::Done(SyncOutcome::InitFailed));
    let (s, _) = sync_step(SyncState::CheckingOut, SyncEvent::CommandFinished { success: false });
    assert_eq!(s, SyncState::Done(SyncOutcome::CheckoutFailed));
    let (s, a) = sync_step(SyncState::Probing, SyncEvent::ProbeAnswered { status: 200, has_git_dir: true });
    assert_eq!((s, a), (SyncState::AddingRemote, SyncAction::AddRemote));
}

#[test]
fn probe_statuses() {
    assert!(probe_allows_sync(200));
    assert!(probe_allows_sync(302));
    assert!(!probe_allows_sync(404));
    assert!(!probe_allows_sync(199));
    assert!(!probe_allows_sync(400));
}

#[test]
fn head_record_is_trimmed() {
    assert!(head_names_revision("deadbeef\n", "deadbeef"));
    assert!(head_names_revision("  deadbeef \r\n", "deadbeef"));
    assert!(!head_names_revision("ref: refs/heads/main\n", "deadbeef"));
    assert!(same_revision("abc", "abc"));
    assert!(!same_revision("abc ", "abc"));
}

#[test]
fn repository_paths_and_urls() {
    assert_eq!(split_repo("owner/name"), Some(("owner".to_string(), "name".to_string())));
    assert_eq!(split_repo("owner/na/me"), Some(("owner".to_string(), "na/me".to_string())));
    assert_eq!(split_repo("plain"), None);
    assert_eq!(repository_url("a/b"), "https://github.com/a/b");
    assert_eq!(remote_url("a/b"), "https://github.com/a/b.git");
}

#[test]
fn chunks_cover_the_work() {
    assert!(chunk_ranges(0, FETCH_WORKERS).is_empty());
    assert_eq!(chunk_ranges(3, 8), vec![(0, 1), (1, 2), (2, 3)]);
    assert_eq!(chunk_ranges(16, 8).len(), 8);
    let c = chunk_ranges(17, 8);
    assert_eq!(c.len(), 6);
    assert_eq!(c[0], (0, 3));
    assert_eq!(c[5], (15, 17));
}

#[test]
fn run_phases_in_order() {
    let (p, a) = run_step(
        RunPhase::NotLoaded,
        RunEvent::CheckoutInspected { checkout_exists: true, skip_marker_exists: false },
        2,
    );
    assert_eq!((p, a), (RunPhase::WorktreeScanning, RunAction::RegisterWorktree));
    let (p, a) = run_step(p, RunEvent::ScanComplete, 2);
    assert_eq!((p, a), (RunPhase::IndexingPending, RunAction::StartIndexing));
    let (p, a) = run_step(p, RunEvent::StatusChanged { idle: false }, 2);
    assert_eq!((p, a), (RunPhase::IndexingPending, RunAction::Wait));
    let (p, a) = run_step(p, RunEvent::StatusChanged { idle: true }, 2);
    assert_eq!((p, a), (RunPhase::Querying(0), RunAction::Search(0)));
    let (p, a) = run_step(p, RunEvent::StatusChanged { idle: true }, 2);
    assert_eq!((p, a), (RunPhase::Querying(0), RunAction::Wait));
    let (p, a) = run_step(p, RunEvent::SearchAnswered, 2);
    assert_eq!((p, a), (RunPhase::Querying(1), RunAction::Search(1)));
    let (p, a) = run_step(p, RunEvent::SearchAnswered, 2);
    assert_eq!((p, a), (RunPhase::Done, RunAction::Finish));
}

#[test]
fn run_skips_missing_checkout() {
    let (p, a) = run_step(
        RunPhase::NotLoaded,
        RunEvent::CheckoutInspected { checkout_exists: false, skip_marker_exists: false },
        3,
    );
    assert_eq!((p, a), (RunPhase::Done, RunAction::SkipProject));
    let (p, a) = run_step(
        RunPhase::NotLoaded,
        RunEvent::CheckoutInspected { checkout_exists: true, skip_marker_exists: true },
        3,
    );
    assert_eq!((p, a), (RunPhase::Done, RunAction::SkipProject));
    let (p, a) = run_step(RunPhase::IndexingPending, RunEvent::StatusChanged { idle: true }, 0);
    assert_eq!((p, a), (RunPhase::Done, RunAction::Finish));
}
