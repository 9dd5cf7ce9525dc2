//! Compiled line patterns, backed by the `regex` crate.
use vstd::prelude::*;

verus! {

#[verifier::external_type_specification]
#[verifier::external_body]
pub struct ExRegex(regex::Regex);

#[verifier::external_type_specification]
#[verifier::external_body]
pub struct ExRegexError(regex::Error);

/// Whether `regex::Regex::new` accepts `pattern`.
pub uninterp spec fn regex_valid(pattern: Seq<char>) -> bool;

/// What `regex::Regex::is_match` answers for `pattern` on `hay`.
pub uninterp spec fn regex_is_match(pattern: Seq<char>, hay: Seq<char>) -> bool;

/// What `regex::Regex::captures` followed by `get(1)` gives for `pattern` on
/// `hay`: `None` when there is no match, `Some(None)` when the first group did
/// not take part in the match, `Some(Some(text))` otherwise.
pub uninterp spec fn regex_group1(pattern: Seq<char>, hay: Seq<char>) -> Option<Option<Seq<char>>>;

/// The text a `regex` match result stands for, viewed as characters.
pub open spec fn group_view(g: Option<Option<String>>) -> Option<Option<Seq<char>>> {
    match g {
        None => None,
        Some(None) => Some(None),
        Some(Some(s)) => Some(Some(s@)),
    }
}

/// A regular expression together with the source text it was compiled from.
pub struct Matcher {
    source: String,
    re: regex::Regex,
}

/// A pattern that `regex` refused to compile.
pub struct PatternError {
    pub message: String,
}

impl Matcher {
    /// The source text of the expression.
    pub closed spec fn source(&self) -> Seq<char> {
        self.source@
    }

    /// Relies on `regex::Regex::new`: it succeeds exactly on valid patterns,
    /// and the compiled expression is the one written in `pattern`.
    #[verifier::external_body]
    fn compile(pattern: &str) -> (r: Result<Matcher, regex::Error>)
        ensures
            r is Ok <==> regex_valid(pattern@),
            r matches Ok(m) ==> m.source() == pattern@,
    {
        match regex::Regex::new(pattern) {
            Ok(re) => Ok(Matcher { source: pattern.to_string(), re }),
            Err(e) => Err(e),
        }
    }

    /// Relies on `regex::Error`'s `Display` text, to report a refused pattern.
    #[verifier::external_body]
    fn error_message(e: &regex::Error) -> (r: String) {
        e.to_string()
    }

    /// Compiles `pattern`; fails exactly when `regex` refuses it.
    pub fn new(pattern: &str) -> (r: Result<Matcher, PatternError>)
        ensures
            r is Ok <==> regex_valid(pattern@),
            r matches Ok(m) ==> m.source() == pattern@,
    {
        match Matcher::compile(pattern) {
            Ok(m) => Ok(m),
            Err(e) => Err(PatternError { message: Matcher::error_message(&e) }),
        }
    }

    /// Relies on `regex::Regex::is_match`: whether the expression matches
    /// anywhere in `hay`.
    #[verifier::external_body]
    pub fn is_match(&self, hay: &str) -> (r: bool)
        ensures
            r == regex_is_match(self.source(), hay@),
    {
        self.re.is_match(hay)
    }

    /// Relies on `regex::Regex::captures` and `Captures::get`: the text of the
    /// first capture group of the leftmost match in `hay`.
    #[verifier::external_body]
    pub fn group1(&self, hay: &str) -> (r: Option<Option<String>>)
        ensures
            group_view(r) == regex_group1(self.source(), hay@),
    {
        self.re.captures(hay).map(|c| c.get(1).map(|g| g.as_str().to_string()))
    }
}

} // verus!
