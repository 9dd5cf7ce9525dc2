//! Applies a classifier to the entries of one run's log bundle and decides
//! the run's outcome.
use vstd::prelude::*;
use crate::classify::{
    classify_zap, last_line, some_line_has, timed_out_then_passed, TIMEOUT_MARKER, nightwatch_outcome, strings_view, zap_outcome, ClassifyError, NightwatchPatterns,
    Verdict,
};
use crate::pattern::{regex_is_match, Matcher};

verus! {

/// Selects the entries of a bundle that hold the Nightwatch step's output.
pub const ENTRY_PATTERN: &'static str = "^Nightwatch.*Run Nightwatch.txt$";

/// The check to run on each selected entry.
pub enum Classifier {
    /// The stateful test-boundary check.
    Nightwatch(NightwatchPatterns),
    /// The terminal-state check for ZAP reports.
    Zap,
}

/// One named entry of a log bundle, as lines of text.
pub struct LogEntry {
    pub name: String,
    pub lines: Vec<String>,
}

/// What `classifier` returns for `lines`.
pub open spec fn classifier_outcome(
    classifier: Classifier,
    lines: Seq<Seq<char>>,
    r: Result<Verdict, ClassifyError>,
) -> bool {
    match classifier {
        Classifier::Nightwatch(p) => nightwatch_outcome(p, lines, r),
        Classifier::Zap => match r {
            Ok(v) => zap_outcome(lines, v),
            Err(_) => false,
        },
    }
}

impl Classifier {
    /// Classifies the lines of one entry.
    pub fn classify(&self, lines: &Vec<String>) -> (r: Result<Verdict, ClassifyError>)
        ensures
            classifier_outcome(*self, strings_view(lines@), r),
    {
        match self {
            Classifier::Nightwatch(p) => p.classify(lines),
            Classifier::Zap => Ok(classify_zap(lines)),
        }
    }
}

/// The outcome for each entry of a bundle, in archive order: `None` for an
/// entry whose name `selector` does not match, else the classification.
pub fn scan_entries(selector: &Matcher, classifier: &Classifier, entries: &Vec<LogEntry>) -> (r: Vec<
    Option<Result<Verdict, ClassifyError>>,
>)
    ensures
        r.len() == entries.len(),
        forall|i: int|
            0 <= i < entries.len() ==> (r[i] is None <==> !regex_is_match(
                selector.source(),
                #[trigger] entries[i].name@,
            )),
        forall|i: int|
            0 <= i < entries.len() ==> (#[trigger] r[i] matches Some(o) ==> classifier_outcome(
                *classifier,
                strings_view(entries[i].lines@),
                o,
            )),
{
    let mut out: Vec<Option<Result<Verdict, ClassifyError>>> = Vec::new();
    let mut i: usize = 0;
    while i < entries.len()
        invariant
            0 <= i <= entries.len(),
            out.len() == i,
            forall|j: int|
                0 <= j < i ==> (out[j] is None <==> !regex_is_match(
                    selector.source(),
                    #[trigger] entries[j].name@,
                )),
            forall|j: int|
                0 <= j < i ==> (#[trigger] out[j] matches Some(o) ==> classifier_outcome(
                    *classifier,
                    strings_view(entries[j].lines@),
                    o,
                )),
        decreases entries.len() - i,
    {
        let entry = &entries[i];
        if selector.is_match(entry.name.as_str()) {
            out.push(Some(classifier.classify(&entry.lines)));
        } else {
            out.push(None);
        }
        i += 1;
    }
    out
}

/// Whether an entry outcome spoils its run: a failed or unclassifiable entry.
pub open spec fn entry_fails(o: Option<Result<Verdict, ClassifyError>>) -> bool {
    match o {
        None => false,
        Some(Ok(v)) => v is Failed,
        Some(Err(_)) => true,
    }
}

/// A run passes when none of its selected entries failed or could not be
/// classified.
pub fn run_passed(outcomes: &Vec<Option<Result<Verdict, ClassifyError>>>) -> (r: bool)
    ensures
        r == forall|i: int| 0 <= i < outcomes.len() ==> !entry_fails(#[trigger] outcomes[i]),
{
    let mut i: usize = 0;
    while i < outcomes.len()
        invariant
            0 <= i <= outcomes.len(),
            forall|j: int| 0 <= j < i ==> !entry_fails(#[trigger] outcomes[j]),
        decreases outcomes.len() - i,
    {
        let failed = match &outcomes[i] {
            None => false,
            Some(Ok(v)) => !v.is_clean(),
            Some(Err(_)) => true,
        };
        if failed {
            return false;
        }
        i += 1;
    }
    true
}

/// Whether an entry is selected and, by the coarse timeout check, silently
/// failed.
pub open spec fn timed_out_entry(selector: Seq<char>, success: Seq<char>, e: LogEntry) -> bool {
    regex_is_match(selector, e.name@) && some_line_has(strings_view(e.lines@), TIMEOUT_MARKER@)
        && regex_is_match(success, last_line(strings_view(e.lines@)))
}

/// The positions, in order, of the entries that `timed_out_entry` holds of.
pub open spec fn timed_out_positions(selector: Seq<char>, success: Seq<char>, entries: Seq<LogEntry>) -> Seq<usize>
    decreases entries.len(),
{
    if entries.len() == 0 {
        Seq::empty()
    } else {
        let rest = timed_out_positions(selector, success, entries.drop_last());
        if timed_out_entry(selector, success, entries.last()) {
            rest.push((entries.len() - 1) as usize)
        } else {
            rest
        }
    }
}

/// The positions of the selected entries of a bundle that report a timeout
/// and yet end on a success banner.
pub fn timed_out_passes(selector: &Matcher, success: &Matcher, entries: &Vec<LogEntry>) -> (r: Vec<usize>)
    ensures
        r@ == timed_out_positions(selector.source(), success.source(), entries@),
{
    let mut found: Vec<usize> = Vec::new();
    let mut i: usize = 0;
    while i < entries.len()
        invariant
            0 <= i <= entries.len(),
            found@ == timed_out_positions(selector.source(), success.source(), entries@.take(i as int)),
        decreases entries.len() - i,
    {
        proof {
            assert(entries@.take(i + 1).drop_last() =~= entries@.take(i as int));
            assert(entries@.take(i + 1).last() == entries@[i as int]);
        }
        let entry = &entries[i];
        if selector.is_match(entry.name.as_str()) && timed_out_then_passed(success, &entry.lines) {
            found.push(i);
        }
        i += 1;
    }
    proof {
        assert(entries@.take(entries.len() as int) =~= entries@);
    }
    found
}

} // verus!
