//! Regular-expression rewriting through the `regex` crate.
//!
//! The matcher's text rules are written as regular expressions; the `regex`
//! crate does the matching. Each operation used here is one call into that
//! crate, whose result is named by a specification function of the pattern
//! text and the input text.

use vstd::prelude::*;

verus! {

#[verifier::external_type_specification]
#[verifier::external_body]
pub struct ExRegex(regex::Regex);

/// A compiled regular expression, remembered together with its source text.
struct Pattern {
    re: regex::Regex,
    source: String,
}

impl Pattern {
    /// The pattern text this expression was compiled from.
    spec fn source(&self) -> Seq<char> {
        self.source@
    }
}

/// Whether `regex::Regex::new` accepts the pattern text.
pub uninterp spec fn regex_compiles(pattern: Seq<char>) -> bool;

/// What `Regex::replace_all` returns for the pattern, the haystack and the
/// replacement text.
pub uninterp spec fn regex_replace_all(
    pattern: Seq<char>,
    haystack: Seq<char>,
    replacement: Seq<char>,
) -> Seq<char>;

/// What `Regex::replace` (leftmost match only) returns for the pattern, the
/// haystack and the replacement text.
pub uninterp spec fn regex_replace_first(
    pattern: Seq<char>,
    haystack: Seq<char>,
    replacement: Seq<char>,
) -> Seq<char>;

/// What `Regex::is_match` returns for the pattern and the haystack.
pub uninterp spec fn regex_is_match(pattern: Seq<char>, haystack: Seq<char>) -> bool;

/// The text of capture group `group` of the leftmost match of the pattern in
/// the haystack (`Regex::captures` followed by `Captures::get`), if any.
pub uninterp spec fn regex_capture(
    pattern: Seq<char>,
    haystack: Seq<char>,
    group: nat,
) -> Option<Seq<char>>;

/// `regex::Regex::new`: compiles a pattern; `None` when the crate rejects it.
#[verifier::external_body]
fn compile(pattern: &str) -> (r: Option<Pattern>)
    ensures
        r is Some <==> regex_compiles(pattern@),
        r matches Some(p) ==> p.source() == pattern@,
{
    match regex::Regex::new(pattern) {
        Ok(re) => Some(Pattern { re, source: pattern.to_string() }),
        Err(_) => None,
    }
}

impl Pattern {
    /// `Regex::replace_all`: every non-overlapping match replaced.
    #[verifier::external_body]
    fn replace_all(&self, haystack: &str, replacement: &str) -> (r: String)
        ensures
            r@ == regex_replace_all(self.source(), haystack@, replacement@),
    {
        self.re.replace_all(haystack, replacement).into_owned()
    }

    /// `Regex::replace`: the leftmost match replaced.
    #[verifier::external_body]
    fn replace_first(&self, haystack: &str, replacement: &str) -> (r: String)
        ensures
            r@ == regex_replace_first(self.source(), haystack@, replacement@),
    {
        self.re.replace(haystack, replacement).into_owned()
    }

    /// `Regex::is_match`.
    #[verifier::external_body]
    fn is_match(&self, haystack: &str) -> (b: bool)
        ensures
            b == regex_is_match(self.source(), haystack@),
    {
        self.re.is_match(haystack)
    }

    /// `Regex::captures` and then `Captures::get(group)`.
    #[verifier::external_body]
    fn capture(&self, haystack: &str, group: usize) -> (r: Option<String>)
        ensures
            r matches Some(t) ==> regex_capture(self.source(), haystack@, group as nat) == Some(
                t@,
            ),
            r is None ==> regex_capture(self.source(), haystack@, group as nat) is None,
    {
        match self.re.captures(haystack) {
            Some(c) => match c.get(group) {
                Some(m) => Some(m.as_str().to_string()),
                None => None,
            },
            None => None,
        }
    }
}

// ---------------------------------------------------------------------------
// Rewriting with a pattern given as text
// ---------------------------------------------------------------------------
//
// The patterns of this library are fixed texts that the crate accepts; should
// one ever be rejected, the rewrite leaves the text unchanged (and a test
// would show it).

/// Every match of `pattern` in `s` replaced by `rep`.
pub open spec fn rewrite_all(pattern: Seq<char>, s: Seq<char>, rep: Seq<char>) -> Seq<char> {
    if regex_compiles(pattern) {
        regex_replace_all(pattern, s, rep)
    } else {
        s
    }
}

/// The leftmost match of `pattern` in `s` replaced by `rep`.
pub open spec fn rewrite_first(pattern: Seq<char>, s: Seq<char>, rep: Seq<char>) -> Seq<char> {
    if regex_compiles(pattern) {
        regex_replace_first(pattern, s, rep)
    } else {
        s
    }
}

/// Whether `pattern` matches somewhere in `s`.
pub open spec fn found(pattern: Seq<char>, s: Seq<char>) -> bool {
    regex_compiles(pattern) && regex_is_match(pattern, s)
}

/// Capture group `group` of the leftmost match of `pattern` in `s`.
pub open spec fn captured(pattern: Seq<char>, s: Seq<char>, group: nat) -> Option<Seq<char>> {
    if regex_compiles(pattern) {
        regex_capture(pattern, s, group)
    } else {
        None
    }
}

pub fn replace_all_matches(pattern: &str, s: &str, rep: &str) -> (r: String)
    ensures
        r@ == rewrite_all(pattern@, s@, rep@),
{
    match compile(pattern) {
        Some(p) => p.replace_all(s, rep),
        None => s.to_owned(),
    }
}

pub fn replace_first_match(pattern: &str, s: &str, rep: &str) -> (r: String)
    ensures
        r@ == rewrite_first(pattern@, s@, rep@),
{
    match compile(pattern) {
        Some(p) => p.replace_first(s, rep),
        None => s.to_owned(),
    }
}

pub fn matches_somewhere(pattern: &str, s: &str) -> (b: bool)
    ensures
        b == found(pattern@, s@),
{
    match compile(pattern) {
        Some(p) => p.is_match(s),
        None => false,
    }
}

pub fn capture_group(pattern: &str, s: &str, group: usize) -> (r: Option<String>)
    ensures
        r matches Some(t) ==> captured(pattern@, s@, group as nat) == Some(t@),
        r is None ==> captured(pattern@, s@, group as nat) is None,
{
    match compile(pattern) {
        Some(p) => p.capture(s, group),
        None => None,
    }
}

} // verus!
