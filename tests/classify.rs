use gha_logs_miner::classify::{
    classify_zap, timed_out_then_passed, ClassifyError, NightwatchPatterns, Verdict, SUCCESS_PATTERN,
};
use gha_logs_miner::pattern::Matcher;

fn lines(v: &[&str]) -> Vec<String> {
    v.iter().map(|s| s.to_string()).collect()
}

fn patterns() -> NightwatchPatterns {
    match NightwatchPatterns::new() {
        Ok(p) => p,
        Err(e) => panic!("patterns refused: {}", e.message),
    }
}

fn failed_names(r: Result<Verdict, ClassifyError>) -> Vec<String> {
    match r {
        Ok(Verdict::Failed(v)) => v,
        Ok(Verdict::Clean) => vec![],
        Err(e) => panic!("unexpected error {:?}", e),
    }
}

#[test]
fn success_banner_after_stack_frame_is_silent_failure() {
    let r = patterns().classify(&lines(&["Running: testA", "    at foo.js:10", "OK 5 total assertions passed"]));
    assert_eq!(failed_names(r), vec!["testA".to_string()]);
}

#[test]
fn honest_failure_banner_is_clean() {
    let r = patterns().classify(&lines(&[
        "Running: testA",
        "    at foo.js:10",
        "FAILED 1 assertions failed",
        "Running: testB",
        "OK 5 total assertions passed",
    ]));
    assert!(matches!(r, Ok(Verdict::Clean)));
}

#[test]
fn unmarked_lines_are_clean() {
    let r = patterns().classify(&lines(&["hello", "world", "", "nothing to see"]));
    assert!(matches!(r, Ok(Verdict::Clean)));
    let r = patterns().classify(&lines(&[]));
    assert!(matches!(r, Ok(Verdict::Clean)));
}

#[test]
fn trailing_stack_frame_fails_current_test() {
    let r = patterns().classify(&lines(&["Running: loginPage", "    at a.js:1", "some output", "    at b.js:2"]));
    assert_eq!(failed_names(r), vec!["loginPage".to_string()]);
}

#[test]
fn stack_frame_before_any_test_names_unknown() {
    let r = patterns().classify(&lines(&["    at a.js:1", "OK 3 total assertions passed"]));
    assert_eq!(failed_names(r), vec!["[unknown]".to_string()]);
}

#[test]
fn pending_failure_recorded_at_next_boundary() {
    let r = patterns().classify(&lines(&[
        "2023-01-01T00:00:00Z  Running:  first test",
        "    at x.js:5",
        "2023-01-01T00:00:01Z  Running:  second test",
        "    at y.js:6",
        "OK 9 total assertions passed",
    ]));
    assert_eq!(failed_names(r), vec!["first test".to_string(), "second test".to_string()]);
}

#[test]
fn classifying_twice_gives_same_verdict() {
    let p = patterns();
    let input = lines(&["Running: t1", "    at q.js:1", "OK 1 total assertions passed", "Running: t2"]);
    let a = failed_names(p.classify(&input));
    let b = failed_names(p.classify(&input));
    assert_eq!(a, b);
    assert_eq!(a, vec!["t1".to_string()]);
}

#[test]
fn zap_marker_fails_entry() {
    match classify_zap(&lines(&["PASS: a", "FAIL-NEW: Cookie without flag", "PASS: b"])) {
        Verdict::Failed(v) => assert_eq!(v, vec!["Found FAIL-NEW in ZAP log.".to_string()]),
        Verdict::Clean => panic!("expected a failure"),
    }
}

#[test]
fn zap_without_marker_is_clean() {
    assert!(matches!(classify_zap(&lines(&["PASS: a", "WARN-NEW: b", "FAIL-INPROG: c"])), Verdict::Clean));
}

#[test]
fn timeout_then_success_banner_counts() {
    let m = Matcher::new(SUCCESS_PATTERN).ok().unwrap();
    assert!(timed_out_then_passed(
        &m,
        &lines(&["x", "Timed out while waiting for element <#btn> to be present", "OK 4 total assertions passed"])
    ));
    assert!(!timed_out_then_passed(&m, &lines(&["x", "OK 4 total assertions passed"])));
    assert!(!timed_out_then_passed(
        &m,
        &lines(&["Timed out while waiting for element <a>", "OK 4 total assertions passed", "done"])
    ));
    assert!(!timed_out_then_passed(&m, &lines(&[])));
}

#[test]
fn invalid_pattern_is_refused() {
    assert!(Matcher::new("(unclosed").is_err());
    assert!(Matcher::new("ok.*").is_ok());
}

#[test]
fn matcher_group_reads_capture() {
    let m = Matcher::new("Running: +(.*)$").ok().unwrap();
    assert_eq!(m.group1("x Running:  abc"), Some(Some("abc".to_string())));
    assert_eq!(m.group1("nothing"), None);
    let opt = Matcher::new("a(b)?").ok().unwrap();
    assert_eq!(opt.group1("a"), Some(None));
}
