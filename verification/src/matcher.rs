//! The per-line matchers: a literal substring matcher and a compiled
//! regular-expression matcher, both behind one capability.

use vstd::prelude::*;
use vstd::string::StringExecFns;

use crate::errors::SearchError;

verus! {

/// `needle` occurs somewhere in `hay` as a contiguous run of characters.
pub open spec fn is_substring_of(needle: Seq<char>, hay: Seq<char>) -> bool {
    exists|i: int|
        0 <= i && i + needle.len() <= hay.len() && #[trigger] hay.subrange(
            i,
            i + needle.len(),
        ) == needle
}

/// Literal-matcher law: a substring match survives appending unrelated text
/// on either side of the line.
pub proof fn lemma_substring_extension(
    needle: Seq<char>,
    hay: Seq<char>,
    prefix: Seq<char>,
    suffix: Seq<char>,
)
    requires
        is_substring_of(needle, hay),
    ensures
        is_substring_of(needle, prefix + hay + suffix),
{
    let i = choose|i: int|
        0 <= i && i + needle.len() <= hay.len() && #[trigger] hay.subrange(
            i,
            i + needle.len(),
        ) == needle;
    let j = i + prefix.len();
    assert((prefix + hay + suffix).subrange(j, j + needle.len()) =~= needle);
}

/// One matcher capability shared by both strategies: a pure predicate over a
/// line, cheaply duplicable so each workload owns an independent instance.
pub trait MatchEngine: Sized {
    /// Which lines this matcher accepts.
    spec fn spec_match(&self, line: Seq<char>) -> bool;

    /// True iff the matcher accepts `line`.
    fn match_line(&self, line: &str) -> (r: bool)
        ensures
            r == self.spec_match(line@),
    ;

    /// An independent matcher accepting exactly the same lines.
    fn duplicate(&self) -> (r: Self)
        ensures
            forall|l: Seq<char>| #[trigger] r.spec_match(l) == self.spec_match(l),
    ;
}

/// Relies on `str::contains` with a `&str` pattern: true iff `pattern`
/// occurs as a contiguous substring of `line`.
#[verifier::external_body]
fn str_contains(line: &str, pattern: &str) -> (r: bool)
    ensures
        r == is_substring_of(pattern@, line@),
{
    line.contains(pattern)
}

/// Matches a line iff it contains a fixed pattern string, case-sensitively.
pub struct ContainsMatcher {
    pattern: String,
}

impl ContainsMatcher {
    /// The pattern this matcher searches for.
    pub closed spec fn pattern_view(&self) -> Seq<char> {
        self.pattern@
    }

    /// Builds a literal matcher for `pattern`. Construction never fails.
    pub fn new(pattern: &String) -> (r: Self)
        ensures
            r.pattern_view() == pattern@,
    {
        ContainsMatcher { pattern: String::from_str(pattern.as_str()) }
    }
}

impl MatchEngine for ContainsMatcher {
    open spec fn spec_match(&self, line: Seq<char>) -> bool {
        is_substring_of(self.pattern_view(), line)
    }

    fn match_line(&self, line: &str) -> (r: bool) {
        str_contains(line, self.pattern.as_str())
    }

    fn duplicate(&self) -> (r: Self) {
        ContainsMatcher { pattern: String::from_str(self.pattern.as_str()) }
    }
}

#[verifier::external_type_specification]
#[verifier::external_body]
pub struct ExRegex(regex::Regex);

/// Whether `regex::Regex::new` accepts `pattern`; compilation depends on the
/// pattern alone.
pub uninterp spec fn regex_compiles(pattern: Seq<char>) -> bool;

/// What `regex::Regex::is_match` returns for a regex compiled from `pattern`
/// on `line`; the result depends on the pattern and the line alone.
pub uninterp spec fn regex_match(pattern: Seq<char>, line: Seq<char>) -> bool;

/// Relies on `regex::Regex::new`: whether a pattern string compiles is a
/// function of the pattern alone. The error value is dropped here; the
/// caller reports it as `SearchError::InvalidPattern`.
#[verifier::external_body]
fn compile_regex(pattern: &str) -> (r: Option<regex::Regex>)
    ensures
        r is Some <==> regex_compiles(pattern@),
{
    match regex::Regex::new(pattern) {
        Ok(re) => Some(re),
        Err(_) => None,
    }
}

/// Matches a line iff a compiled regular expression finds at least one match
/// anywhere in it.
pub struct RegexMatcher {
    matcher: regex::Regex,
    pattern: String,
}

impl RegexMatcher {
    /// The pattern string this matcher was compiled from.
    pub closed spec fn pattern_view(&self) -> Seq<char> {
        self.pattern@
    }

    /// Compiles `pattern`; an invalid pattern is rejected here, before any
    /// file is touched.
    pub fn new(pattern: &String) -> (r: Result<Self, SearchError>)
        ensures
            r is Ok <==> regex_compiles(pattern@),
            r matches Ok(m) ==> m.pattern_view() == pattern@,
            r matches Err(e) ==> e == SearchError::InvalidPattern,
    {
        match compile_regex(pattern.as_str()) {
            Some(re) => Ok(
                RegexMatcher { matcher: re, pattern: String::from_str(pattern.as_str()) },
            ),
            None => Err(SearchError::InvalidPattern),
        }
    }

    /// Relies on `regex::Regex::is_match`: true iff the compiled pattern
    /// matches anywhere in `line`, a function of the pattern and the line
    /// alone. The `matcher` field is always the compilation of `pattern`:
    /// `new` is the only constructor of this type.
    #[verifier::external_body]
    fn is_match_line(&self, line: &str) -> (r: bool)
        ensures
            r == regex_match(self.pattern_view(), line@),
    {
        self.matcher.is_match(line)
    }

    /// Relies on `regex::Regex::clone`: the clone is the same compiled
    /// pattern, so it matches exactly the same lines.
    #[verifier::external_body]
    fn clone_matcher(&self) -> (r: Self)
        ensures
            r.pattern_view() == self.pattern_view(),
    {
        RegexMatcher { matcher: self.matcher.clone(), pattern: self.pattern.clone() }
    }
}

impl MatchEngine for RegexMatcher {
    open spec fn spec_match(&self, line: Seq<char>) -> bool {
        regex_match(self.pattern_view(), line)
    }

    fn match_line(&self, line: &str) -> (r: bool) {
        self.is_match_line(line)
    }

    fn duplicate(&self) -> (r: Self) {
        self.clone_matcher()
    }
}

} // verus!
