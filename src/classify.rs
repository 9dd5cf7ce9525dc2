//! Classifiers that read the lines of one log entry and decide whether it
//! holds a silent failure.
use vstd::prelude::*;
use crate::pattern::{regex_group1, regex_is_match, Matcher, PatternError};

verus! {

/// Announces the start of a test and captures its name.
pub const BOUNDARY_PATTERN: &'static str = "Running: +(.*)$";

/// A frame of an exception trace.
pub const STACK_FRAME_PATTERN: &'static str = "    at ";

/// The runner's own success banner.
pub const SUCCESS_PATTERN: &'static str = "OK.*total assertions passed";

/// The runner's own, honest failure banner.
pub const FAILURE_PATTERN: &'static str = "FAILED.* assertions failed";

/// Marks a newly failing check in a ZAP report.
pub const ZAP_MARKER: &'static str = "FAIL-NEW";

/// The reason given for a ZAP entry that holds `ZAP_MARKER`.
pub const ZAP_REASON: &'static str = "Found FAIL-NEW in ZAP log.";

/// A wait for a page element that ran out of time.
pub const TIMEOUT_MARKER: &'static str = "Timed out while waiting for element";

/// The test name in effect before any boundary line is seen.
pub const UNKNOWN_TEST: &'static str = "[unknown]";

/// The four patterns of the test-boundary classifier.
pub struct NightwatchPatterns {
    pub boundary: Matcher,
    pub stack_frame: Matcher,
    pub success: Matcher,
    pub failure: Matcher,
}

/// The outcome of classifying one log entry.
pub enum Verdict {
    Clean,
    /// The names of the silently failed tests, in the order they were found.
    Failed(Vec<String>),
}

/// Why an entry could not be classified.
#[derive(Debug, PartialEq, Eq, Structural)]
pub enum ClassifyError {
    /// A boundary line matched but its capture group held no test name.
    MissingTestName,
}

/// What one line means to the test-boundary classifier; earlier kinds win.
pub enum Marker {
    Boundary,
    StackFrame,
    Success,
    Failure,
    Plain,
}

/// The state of the test-boundary classifier after a prefix of the lines.
pub struct ScanModel {
    pub current: Seq<char>,
    pub pending: bool,
    pub failed: Seq<Seq<char>>,
}

pub open spec fn strings_view(v: Seq<String>) -> Seq<Seq<char>> {
    v.map_values(|s: String| s@)
}

impl Verdict {
    /// The failed test names; empty for a clean entry.
    pub open spec fn reasons(&self) -> Seq<Seq<char>> {
        match self {
            Verdict::Clean => Seq::empty(),
            Verdict::Failed(v) => strings_view(v@),
        }
    }

    pub fn is_clean(&self) -> (r: bool)
        ensures
            r == (self is Clean),
    {
        match self {
            Verdict::Clean => true,
            Verdict::Failed(_) => false,
        }
    }
}

pub open spec fn marker(p: NightwatchPatterns, line: Seq<char>) -> Marker {
    if regex_group1(p.boundary.source(), line) is Some {
        Marker::Boundary
    } else if regex_is_match(p.stack_frame.source(), line) {
        Marker::StackFrame
    } else if regex_is_match(p.success.source(), line) {
        Marker::Success
    } else if regex_is_match(p.failure.source(), line) {
        Marker::Failure
    } else {
        Marker::Plain
    }
}

pub open spec fn initial_model() -> ScanModel {
    ScanModel { current: UNKNOWN_TEST@, pending: false, failed: Seq::empty() }
}

/// The failed tests once a pending failure, if any, is recorded.
pub open spec fn recorded(s: ScanModel) -> Seq<Seq<char>> {
    if s.pending {
        s.failed.push(s.current)
    } else {
        s.failed
    }
}

/// One line's effect; `None` once a boundary line came without a test name.
pub open spec fn step(p: NightwatchPatterns, s: Option<ScanModel>, line: Seq<char>) -> Option<ScanModel> {
    match s {
        None => None,
        Some(s) => match marker(p, line) {
            Marker::Boundary => match regex_group1(p.boundary.source(), line) {
                Some(Some(name)) => Some(ScanModel { current: name, pending: false, failed: recorded(s) }),
                _ => None,
            },
            Marker::StackFrame => Some(ScanModel { current: s.current, pending: true, failed: s.failed }),
            Marker::Success => Some(ScanModel { current: s.current, pending: false, failed: recorded(s) }),
            Marker::Failure => Some(ScanModel { current: s.current, pending: false, failed: s.failed }),
            Marker::Plain => Some(s),
        },
    }
}

pub open spec fn scan(p: NightwatchPatterns, lines: Seq<Seq<char>>) -> Option<ScanModel>
    decreases lines.len(),
{
    if lines.len() == 0 {
        Some(initial_model())
    } else {
        step(p, scan(p, lines.drop_last()), lines.last())
    }
}

/// The silently failed tests of an entry, or `None` if it cannot be classified.
pub open spec fn silent_failures(p: NightwatchPatterns, lines: Seq<Seq<char>>) -> Option<Seq<Seq<char>>> {
    match scan(p, lines) {
        None => None,
        Some(s) => Some(recorded(s)),
    }
}

/// What the test-boundary classifier returns for `lines`.
pub open spec fn nightwatch_outcome(
    p: NightwatchPatterns,
    lines: Seq<Seq<char>>,
    r: Result<Verdict, ClassifyError>,
) -> bool {
    match silent_failures(p, lines) {
        None => r == Err::<Verdict, ClassifyError>(ClassifyError::MissingTestName),
        Some(f) => match r {
            Ok(v) => v.reasons() == f && (v is Clean <==> f.len() == 0),
            Err(_) => false,
        },
    }
}

proof fn lemma_scan_stays_none(p: NightwatchPatterns, lines: Seq<Seq<char>>, k: int)
    requires
        0 <= k <= lines.len(),
        scan(p, lines.take(k)) is None,
    ensures
        scan(p, lines) is None,
    decreases lines.len() - k,
{
    if k < lines.len() {
        assert(lines.take(k + 1).drop_last() =~= lines.take(k));
        lemma_scan_stays_none(p, lines, k + 1);
    } else {
        assert(lines.take(k) =~= lines);
    }
}

/// A line that neither starts a test nor reports a result: a stack frame or
/// an unmarked line.
pub open spec fn is_quiet(p: NightwatchPatterns, line: Seq<char>) -> bool {
    marker(p, line) is StackFrame || marker(p, line) is Plain
}

proof fn lemma_plain_prefix(p: NightwatchPatterns, lines: Seq<Seq<char>>)
    requires
        forall|i: int| 0 <= i < lines.len() ==> #[trigger] marker(p, lines[i]) is Plain,
    ensures
        scan(p, lines) == Some(initial_model()),
    decreases lines.len(),
{
    if lines.len() > 0 {
        lemma_plain_prefix(p, lines.drop_last());
    }
}

proof fn lemma_quiet_suffix(p: NightwatchPatterns, xs: Seq<Seq<char>>, after: Seq<Seq<char>>, s: ScanModel)
    requires
        scan(p, xs) == Some(s),
        s.pending,
        forall|i: int| 0 <= i < after.len() ==> is_quiet(p, #[trigger] after[i]),
    ensures
        scan(p, xs + after) == Some(s),
    decreases after.len(),
{
    if after.len() == 0 {
        assert(xs + after =~= xs);
    } else {
        lemma_quiet_suffix(p, xs, after.drop_last(), s);
        assert((xs + after).drop_last() =~= xs + after.drop_last());
        assert((xs + after).last() == after.last());
    }
}

/// Lines that carry none of the four markers leave an entry clean.
pub proof fn lemma_unmarked_lines_are_clean(p: NightwatchPatterns, lines: Seq<Seq<char>>)
    requires
        forall|i: int| 0 <= i < lines.len() ==> #[trigger] marker(p, lines[i]) is Plain,
    ensures
        silent_failures(p, lines) == Some(Seq::<Seq<char>>::empty()),
{
    lemma_plain_prefix(p, lines);
}

/// A stack frame followed, up to the end of the entry, only by further stack
/// frames or unmarked lines is a silent failure of the test running at the
/// time of the frame.
pub proof fn lemma_trailing_stack_frame_fails(
    p: NightwatchPatterns,
    before: Seq<Seq<char>>,
    frame: Seq<char>,
    after: Seq<Seq<char>>,
)
    requires
        scan(p, before) is Some,
        marker(p, frame) is StackFrame,
        forall|i: int| 0 <= i < after.len() ==> is_quiet(p, #[trigger] after[i]),
    ensures
        silent_failures(p, before.push(frame) + after) == Some(
            scan(p, before).unwrap().failed.push(scan(p, before).unwrap().current),
        ),
        silent_failures(p, before.push(frame) + after).unwrap().contains(scan(p, before).unwrap().current),
{
    let s = scan(p, before).unwrap();
    assert(before.push(frame).drop_last() =~= before);
    let t = ScanModel { current: s.current, pending: true, failed: s.failed };
    lemma_quiet_suffix(p, before.push(frame), after, t);
    let f = s.failed.push(s.current);
    assert(f[f.len() - 1] == s.current);
}

/// A stack frame directly followed by the runner's honest failure banner is
/// not a silent failure: the failed tests stay as they were.
pub proof fn lemma_reported_failure_not_silent(
    p: NightwatchPatterns,
    before: Seq<Seq<char>>,
    frame: Seq<char>,
    banner: Seq<char>,
)
    requires
        scan(p, before) is Some,
        marker(p, frame) is StackFrame,
        marker(p, banner) is Failure,
    ensures
        scan(p, before.push(frame).push(banner)) == Some(
            ScanModel {
                current: scan(p, before).unwrap().current,
                pending: false,
                failed: scan(p, before).unwrap().failed,
            },
        ),
{
    let s = scan(p, before).unwrap();
    assert(before.push(frame).drop_last() =~= before);
    assert(scan(p, before.push(frame)) == Some(
        ScanModel { current: s.current, pending: true, failed: s.failed },
    ));
    assert(before.push(frame).push(banner).drop_last() =~= before.push(frame));
}

/// A stack frame followed by a success banner, with only stack frames or
/// unmarked lines between them, records exactly one failed test: the one
/// running at the time of the frame.
pub proof fn lemma_success_after_stack_frame(
    p: NightwatchPatterns,
    before: Seq<Seq<char>>,
    frame: Seq<char>,
    middle: Seq<Seq<char>>,
    banner: Seq<char>,
)
    requires
        scan(p, before) is Some,
        marker(p, frame) is StackFrame,
        forall|i: int| 0 <= i < middle.len() ==> is_quiet(p, #[trigger] middle[i]),
        marker(p, banner) is Success,
    ensures
        scan(p, (before.push(frame) + middle).push(banner)) == Some(
            ScanModel {
                current: scan(p, before).unwrap().current,
                pending: false,
                failed: scan(p, before).unwrap().failed.push(scan(p, before).unwrap().current),
            },
        ),
{
    let s = scan(p, before).unwrap();
    assert(before.push(frame).drop_last() =~= before);
    let t = ScanModel { current: s.current, pending: true, failed: s.failed };
    lemma_quiet_suffix(p, before.push(frame), middle, t);
    assert((before.push(frame) + middle).push(banner).drop_last() =~= before.push(frame) + middle);
}

/// The failed tests a classification reports, or `None` for an error.
pub open spec fn outcome_view(r: Result<Verdict, ClassifyError>) -> Option<Seq<Seq<char>>> {
    match r {
        Ok(v) => Some(v.reasons()),
        Err(_) => None,
    }
}

/// Any two classifications of one sequence of lines agree: the outcome is a
/// function of the patterns and the lines.
pub proof fn lemma_classify_deterministic(
    p: NightwatchPatterns,
    lines: Seq<Seq<char>>,
    r1: Result<Verdict, ClassifyError>,
    r2: Result<Verdict, ClassifyError>,
)
    requires
        nightwatch_outcome(p, lines, r1),
        nightwatch_outcome(p, lines, r2),
    ensures
        outcome_view(r1) == outcome_view(r2),
        r1 is Ok <==> r2 is Ok,
        (r1 matches Ok(v) && v is Clean) <==> (r2 matches Ok(w) && w is Clean),
{
}

impl NightwatchPatterns {
    pub open spec fn sources_are_standard(&self) -> bool {
        &&& self.boundary.source() == BOUNDARY_PATTERN@
        &&& self.stack_frame.source() == STACK_FRAME_PATTERN@
        &&& self.success.source() == SUCCESS_PATTERN@
        &&& self.failure.source() == FAILURE_PATTERN@
    }

    /// Compiles the standard patterns.
    pub fn new() -> (r: Result<NightwatchPatterns, PatternError>)
        ensures
            r is Ok <==> (crate::pattern::regex_valid(BOUNDARY_PATTERN@)
                && crate::pattern::regex_valid(STACK_FRAME_PATTERN@)
                && crate::pattern::regex_valid(SUCCESS_PATTERN@)
                && crate::pattern::regex_valid(FAILURE_PATTERN@)),
            r matches Ok(p) ==> p.sources_are_standard(),
    {
        let boundary = Matcher::new(BOUNDARY_PATTERN)?;
        let stack_frame = Matcher::new(STACK_FRAME_PATTERN)?;
        let success = Matcher::new(SUCCESS_PATTERN)?;
        let failure = Matcher::new(FAILURE_PATTERN)?;
        Ok(NightwatchPatterns { boundary, stack_frame, success, failure })
    }

    /// Runs the test-boundary classifier over the lines of one entry.
    pub fn classify(&self, lines: &Vec<String>) -> (r: Result<Verdict, ClassifyError>)
        ensures
            nightwatch_outcome(*self, strings_view(lines@), r),
    {
        let ghost all = strings_view(lines@);
        let mut current: String = UNKNOWN_TEST.to_owned();
        let mut pending = false;
        let mut failed: Vec<String> = Vec::new();
        let mut i: usize = 0;
        proof {
            assert(all.take(0) =~= Seq::<Seq<char>>::empty());
            assert(strings_view(failed@) =~= Seq::<Seq<char>>::empty());
        }
        while i < lines.len()
            invariant
                0 <= i <= lines.len(),
                all == strings_view(lines@),
                scan(*self, all.take(i as int)) == Some(
                    ScanModel { current: current@, pending, failed: strings_view(failed@) },
                ),
            decreases lines.len() - i,
        {
            let line = lines[i].as_str();
            proof {
                assert(all.take(i + 1).drop_last() =~= all.take(i as int));
            }
            let ghost s = ScanModel { current: current@, pending, failed: strings_view(failed@) };
            match self.boundary.group1(line) {
                Some(Some(name)) => {
                    if pending {
                        failed.push(current);
                    }
                    current = name;
                    pending = false;
                    proof {
                        assert(strings_view(failed@) =~= recorded(s));
                    }
                },
                Some(None) => {
                    proof {
                        lemma_scan_stays_none(*self, all, i + 1);
                    }
                    return Err(ClassifyError::MissingTestName);
                },
                None => {
                    if self.stack_frame.is_match(line) {
                        pending = true;
                    } else if self.success.is_match(line) {
                        if pending {
                            failed.push(current.clone());
                            pending = false;
                        }
                        proof {
                            assert(strings_view(failed@) =~= recorded(s));
                        }
                    } else if self.failure.is_match(line) {
                        pending = false;
                    }
                },
            }
            i += 1;
        }
        proof {
            assert(all.take(lines.len() as int) =~= all);
        }
        let ghost s_end = ScanModel { current: current@, pending, failed: strings_view(failed@) };
        if pending {
            failed.push(current);
        }
        proof {
            assert(strings_view(failed@) =~= recorded(s_end));
        }
        if failed.len() == 0 {
            proof {
                assert(recorded(s_end) =~= Seq::<Seq<char>>::empty());
            }
            Ok(Verdict::Clean)
        } else {
            Ok(Verdict::Failed(failed))
        }
    }
}

/// Whether `needle` occurs in `hay` as a contiguous run of characters.
pub open spec fn has_substring(hay: Seq<char>, needle: Seq<char>) -> bool {
    exists|i: int|
        0 <= i && i + needle.len() <= hay.len() && #[trigger] hay.subrange(i, i + needle.len()) == needle
}

/// Relies on `str::contains` with a `&str` pattern: whether `needle` occurs
/// in `hay`.
#[verifier::external_body]
fn contains(hay: &str, needle: &str) -> (r: bool)
    ensures
        r == has_substring(hay@, needle@),
{
    hay.contains(needle)
}

/// Whether some line holds `needle`.
pub open spec fn some_line_has(lines: Seq<Seq<char>>, needle: Seq<char>) -> bool {
    exists|i: int| 0 <= i < lines.len() && has_substring(#[trigger] lines[i], needle)
}

/// What the terminal-state classifier returns for `lines`.
pub open spec fn zap_outcome(lines: Seq<Seq<char>>, v: Verdict) -> bool {
    if some_line_has(lines, ZAP_MARKER@) {
        v.reasons() == seq![ZAP_REASON@] && v is Failed
    } else {
        v is Clean
    }
}

/// The terminal-state classifier: an entry fails as soon as one line holds
/// `ZAP_MARKER`.
pub fn classify_zap(lines: &Vec<String>) -> (r: Verdict)
    ensures
        zap_outcome(strings_view(lines@), r),
{
    let ghost all = strings_view(lines@);
    let mut i: usize = 0;
    while i < lines.len()
        invariant
            0 <= i <= lines.len(),
            all == strings_view(lines@),
            forall|j: int| 0 <= j < i ==> !has_substring(#[trigger] all[j], ZAP_MARKER@),
        decreases lines.len() - i,
    {
        if contains(lines[i].as_str(), ZAP_MARKER) {
            let mut reasons: Vec<String> = Vec::new();
            reasons.push(ZAP_REASON.to_owned());
            proof {
                assert(all[i as int] == lines@[i as int]@);
                assert(strings_view(reasons@) =~= seq![ZAP_REASON@]);
            }
            return Verdict::Failed(reasons);
        }
        i += 1;
    }
    Verdict::Clean
}

/// The last line of an entry, or the empty line for an empty entry.
pub open spec fn last_line(lines: Seq<Seq<char>>) -> Seq<char> {
    if lines.len() == 0 {
        Seq::empty()
    } else {
        lines.last()
    }
}

/// The coarse timeout check: an entry counts as a silent failure when some
/// line reports a timeout and the last line is a success banner.
pub fn timed_out_then_passed(success: &Matcher, lines: &Vec<String>) -> (r: bool)
    ensures
        r == (some_line_has(strings_view(lines@), TIMEOUT_MARKER@) && regex_is_match(
            success.source(),
            last_line(strings_view(lines@)),
        )),
{
    let ghost all = strings_view(lines@);
    let mut saw_timeout = false;
    let mut i: usize = 0;
    while i < lines.len()
        invariant
            0 <= i <= lines.len(),
            all == strings_view(lines@),
            saw_timeout == exists|j: int| 0 <= j < i && has_substring(#[trigger] all[j], TIMEOUT_MARKER@),
        decreases lines.len() - i,
    {
        if contains(lines[i].as_str(), TIMEOUT_MARKER) {
            saw_timeout = true;
        }
        proof {
            assert(all[i as int] == lines@[i as int]@);
        }
        i += 1;
    }
    let ends_in_success = if lines.len() == 0 {
        success.is_match("")
    } else {
        success.is_match(lines[lines.len() - 1].as_str())
    };
    proof {
        if lines.len() > 0 {
            assert(all.last() == lines@[lines.len() - 1]@);
        }
        assert(""@ =~= Seq::<char>::empty()) by {
            reveal_strlit("");
        }
    }
    saw_timeout && ends_in_success
}

} // verus!
