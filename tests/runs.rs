use gha_logs_miner::classify::{ClassifyError, NightwatchPatterns, Verdict};
use gha_logs_miner::pattern::Matcher;
use gha_logs_miner::runs::{sort_by_start, RunListing, WorkflowRun};
use gha_logs_miner::scan::{run_passed, scan_entries, Classifier, LogEntry, ENTRY_PATTERN};

fn run(id: u64, name: &str, at: i64) -> WorkflowRun {
    on_branch(id, name, "develop", at)
}

fn on_branch(id: u64, name: &str, branch: &str, at: i64) -> WorkflowRun {
    WorkflowRun {
        id,
        name: name.to_string(),
        head_branch: branch.to_string(),
        run_started_at: at,
        html_url: format!("https://example.com/{id}"),
    }
}

fn ids(v: &[WorkflowRun]) -> Vec<u64> {
    v.iter().map(|r| r.id).collect()
}

#[test]
fn listing_keeps_recent_runs_of_workflow() {
    let mut l = RunListing::new(100, "develop".to_string(), "CD".to_string());
    assert_eq!(l.next_page(), Some(0));
    l.accept_page(vec![run(1, "CD", 150), run(2, "CI", 160), run(3, "CD", 90), run(4, "CD", 101)]);
    assert_eq!(l.next_page(), Some(1));
    l.accept_page(vec![run(5, "CI", 120)]);
    assert_eq!(l.next_page(), Some(2));
    l.accept_page(vec![run(6, "CD", 100), run(7, "CD", 50)]);
    assert_eq!(l.next_page(), None);
    assert_eq!(ids(&l.into_runs()), vec![1, 4]);
}

#[test]
fn empty_page_stops_listing() {
    let mut l = RunListing::new(0, "develop".to_string(), "CD".to_string());
    l.accept_page(vec![run(1, "CD", 10)]);
    assert_eq!(l.next_page(), Some(1));
    l.accept_page(vec![]);
    assert_eq!(l.next_page(), None);
    assert_eq!(ids(&l.into_runs()), vec![1]);
}

#[test]
fn page_of_other_workflows_does_not_stop_listing() {
    let mut l = RunListing::new(0, "develop".to_string(), "CD".to_string());
    l.accept_page(vec![run(1, "CI", 10)]);
    assert_eq!(l.next_page(), Some(1));
    assert_eq!(ids(&l.into_runs()), Vec::<u64>::new());
}

#[test]
fn sort_orders_by_start_time() {
    let mut v = vec![run(1, "CD", 30), run(2, "CD", 10), run(3, "CD", 20), run(4, "CD", 10)];
    sort_by_start(&mut v);
    assert_eq!(ids(&v), vec![2, 4, 3, 1]);
    let mut e: Vec<WorkflowRun> = vec![];
    sort_by_start(&mut e);
    assert!(e.is_empty());
}

fn entry(name: &str, lines: &[&str]) -> LogEntry {
    LogEntry { name: name.to_string(), lines: lines.iter().map(|s| s.to_string()).collect() }
}

#[test]
fn scan_selects_matching_entries() {
    let selector = Matcher::new(ENTRY_PATTERN).ok().unwrap();
    let classifier = Classifier::Nightwatch(NightwatchPatterns::new().ok().unwrap());
    let entries = vec![
        entry("Nightwatch/3_Run Nightwatch.txt", &["Running: a", "    at z.js:1", "OK 1 total assertions passed"]),
        entry("Build/1_Set up job.txt", &["    at z.js:1"]),
        entry("Nightwatch/4_Run Nightwatch.txt", &["Running: b", "OK 1 total assertions passed"]),
    ];
    let out = scan_entries(&selector, &classifier, &entries);
    assert_eq!(out.len(), 3);
    match &out[0] {
        Some(Ok(Verdict::Failed(v))) => assert_eq!(v, &vec!["a".to_string()]),
        _ => panic!("first entry should fail"),
    }
    assert!(out[1].is_none());
    assert!(matches!(out[2], Some(Ok(Verdict::Clean))));
    assert!(!run_passed(&out));
}

#[test]
fn run_passes_when_entries_clean() {
    let selector = Matcher::new(ENTRY_PATTERN).ok().unwrap();
    let entries = vec![entry("Nightwatch/3_Run Nightwatch.txt", &["ZAP ok"]), entry("other.txt", &["FAIL-NEW"])];
    let out = scan_entries(&selector, &Classifier::Zap, &entries);
    assert!(run_passed(&out));
    let with_error: Vec<Option<Result<Verdict, ClassifyError>>> = vec![None, Some(Err(ClassifyError::MissingTestName))];
    assert!(!run_passed(&with_error));
    assert!(run_passed(&vec![]));
}

#[test]
fn timed_out_passes_are_found() {
    let selector = Matcher::new(ENTRY_PATTERN).ok().unwrap();
    let success = Matcher::new(gha_logs_miner::classify::SUCCESS_PATTERN).ok().unwrap();
    let timed = &["Timed out while waiting for element <#x>", "OK 2 total assertions passed"];
    let entries = vec![
        entry("Nightwatch/2_Run Nightwatch.txt", timed),
        entry("Other/2_Run Nightwatch.txt", timed),
        entry("Nightwatch/5_Run Nightwatch.txt", &["OK 2 total assertions passed"]),
        entry("Nightwatch/7_Run Nightwatch.txt", timed),
    ];
    assert_eq!(gha_logs_miner::scan::timed_out_passes(&selector, &success, &entries), vec![0, 3]);
}

#[test]
fn listing_keeps_each_id_once() {
    let mut l = RunListing::new(0, "develop".to_string(), "CD".to_string());
    l.accept_page(vec![run(1, "CD", 10), run(2, "CD", 11), run(1, "CD", 10)]);
    l.accept_page(vec![run(2, "CD", 11), run(3, "CD", 12)]);
    l.accept_page(vec![]);
    assert_eq!(ids(&l.into_runs()), vec![1, 2, 3]);
}

#[test]
fn listing_keeps_only_wanted_branch() {
    let mut l = RunListing::new(0, "develop".to_string(), "CD".to_string());
    l.accept_page(vec![on_branch(1, "CD", "main", 10), on_branch(2, "CD", "develop", 11)]);
    assert_eq!(l.next_page(), Some(1));
    l.accept_page(vec![on_branch(3, "CD", "feature", 12)]);
    assert_eq!(l.next_page(), Some(2));
    assert_eq!(ids(&l.into_runs()), vec![2]);
}

#[test]
fn sorted_order_does_not_depend_on_arrival() {
    let mut a = vec![run(1, "CD", 30), run(2, "CD", 10), run(3, "CD", 20)];
    let mut b = vec![run(3, "CD", 20), run(1, "CD", 30), run(2, "CD", 10)];
    sort_by_start(&mut a);
    sort_by_start(&mut b);
    assert_eq!(ids(&a), ids(&b));
    assert_eq!(ids(&a), vec![2, 3, 1]);
}
