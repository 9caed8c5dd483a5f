//! The match decisions — narratarr's only owned state — and the rules over
//! them: their identity key, their status text, and whether a cycle should
//! work on a book given its prior decision.
//!
//! The decisions themselves live in an SQLite table kept by the program
//! around this library; every other fact is queried live from the system
//! that owns it, so that table can be deleted and fully regenerated.

use vstd::prelude::*;

use crate::matcher::{normalize_author, normalize_title, normalized_author, normalized_title};
use crate::text::{
    chars_of, find_char, find_char_from, find_char_index, push_all, push_str, slice_chars, string_of,
};

verus! {

/// How long to wait before re-searching a book whose audiobook wasn't found.
/// Availability changes on the scale of months, and indexer goodwill is finite.
pub const NOT_FOUND_RETRY_SECS: i64 = 2592000;

#[derive(Debug, Clone, Copy, PartialEq, Eq, Structural)]
pub enum DecisionStatus {
    Matched,
    Ambiguous,
    NotFound,
    Skipped,
}

/// The stored text of a status.
pub open spec fn status_text(s: DecisionStatus) -> Seq<char> {
    match s {
        DecisionStatus::Matched => "matched"@,
        DecisionStatus::Ambiguous => "ambiguous"@,
        DecisionStatus::NotFound => "not_found"@,
        DecisionStatus::Skipped => "skipped"@,
    }
}

/// The status a stored text names, if any.
pub open spec fn status_of_text(t: Seq<char>) -> Option<DecisionStatus> {
    if t == "matched"@ {
        Some(DecisionStatus::Matched)
    } else if t == "ambiguous"@ {
        Some(DecisionStatus::Ambiguous)
    } else if t == "not_found"@ {
        Some(DecisionStatus::NotFound)
    } else if t == "skipped"@ {
        Some(DecisionStatus::Skipped)
    } else {
        None
    }
}

impl DecisionStatus {
    pub fn as_str(self) -> (r: &'static str)
        ensures
            r@ == status_text(self),
    {
        match self {
            DecisionStatus::Matched => "matched",
            DecisionStatus::Ambiguous => "ambiguous",
            DecisionStatus::NotFound => "not_found",
            DecisionStatus::Skipped => "skipped",
        }
    }

    pub fn parse(s: &str) -> (r: Option<DecisionStatus>)
        ensures
            r == status_of_text(s@),
    {
        let v = chars_of(s);
        if crate::text::chars_eq_str(&v, "matched") {
            Some(DecisionStatus::Matched)
        } else if crate::text::chars_eq_str(&v, "ambiguous") {
            Some(DecisionStatus::Ambiguous)
        } else if crate::text::chars_eq_str(&v, "not_found") {
            Some(DecisionStatus::NotFound)
        } else if crate::text::chars_eq_str(&v, "skipped") {
            Some(DecisionStatus::Skipped)
        } else {
            None
        }
    }
}

/// Every status survives being stored as text and read back.
pub proof fn lemma_status_text_roundtrip(s: DecisionStatus)
    ensures
        status_of_text(status_text(s)) == Some(s),
{
    reveal_strlit("matched");
    reveal_strlit("ambiguous");
    reveal_strlit("not_found");
    reveal_strlit("skipped");
    match s {
        DecisionStatus::Matched => {},
        DecisionStatus::Ambiguous => {
            assert("ambiguous"@.len() != "matched"@.len());
        },
        DecisionStatus::NotFound => {
            assert("not_found"@.len() != "matched"@.len());
            assert("not_found"@[0] != "ambiguous"@[0]);
        },
        DecisionStatus::Skipped => {
            assert("skipped"@[0] != "matched"@[0]);
            assert("skipped"@[0] != "ambiguous"@[0]);
            assert("skipped"@.len() != "not_found"@.len());
        },
    }
}

/// One match decision.
///
/// `confidence` is the best candidate's total score, carried as the bit
/// pattern of the 64-bit float the scorer produced (`f64::to_bits`); this
/// library never computes with it.
#[derive(Debug, Clone)]
pub struct Decision {
    pub ebook_key: String,
    pub status: DecisionStatus,
    pub asin: Option<String>,
    pub confidence: Option<u64>,
    pub attempts: i64,
    /// Epoch seconds; `None` = never retry automatically.
    pub next_retry: Option<i64>,
    /// Epoch seconds.
    pub updated_at: i64,
    /// Human context, e.g. the best candidate's title.
    pub note: Option<String>,
    /// The source ebook, for re-search and display.
    pub ebook_title: Option<String>,
    pub ebook_author: Option<String>,
    /// Cover art of the best candidate.
    pub image_url: Option<String>,
    /// Comma-separated reasons shown with a review card.
    pub reasons: Option<String>,
}

/// Bit pattern of the float 1.0: the confidence of a human verdict.
pub const FULL_CONFIDENCE_BITS: u64 = 4607182418800017408;

/// Stable identity for an ebook across cycles: normalized author, `|`,
/// normalized title.
pub open spec fn key_of(title: Seq<char>, author: Seq<char>) -> Seq<char> {
    normalized_author(author) + "|"@ + normalized_title(title)
}

/// Stable identity for an ebook across cycles: normalized author + title.
pub fn ebook_key(title: &str, author: &str) -> (r: String)
    ensures
        r@ == key_of(title@, author@),
{
    let a = normalize_author(author);
    let t = normalize_title(title);
    let mut v = chars_of(a.as_str());
    push_str(&mut v, "|");
    let tv = chars_of(t.as_str());
    push_all(&mut v, &tv);
    string_of(&v)
}

/// The author part of a decision key: the text before its first `|`.
pub open spec fn key_author_of(key: Seq<char>) -> Seq<char> {
    key.take(find_char(key, '|') as int)
}

/// The title part of a decision key: the text between its first and second
/// `|`; the whole key when it holds no `|`.
pub open spec fn key_title_of(key: Seq<char>) -> Seq<char> {
    let k = find_char(key, '|');
    if k < key.len() {
        let rest = key.skip(k + 1 as int);
        rest.take(find_char(rest, '|') as int)
    } else {
        key
    }
}

/// The author part of a decision key.
pub fn key_author(key: &str) -> (r: String)
    ensures
        r@ == key_author_of(key@),
{
    let v = chars_of(key);
    let k = find_char_index(&v, '|');
    let a = slice_chars(&v, 0, k);
    proof {
        assert(a@ =~= key@.take(k as int));
    }
    string_of(&a)
}

/// The title part of a decision key.
pub fn key_title(key: &str) -> (r: String)
    ensures
        r@ == key_title_of(key@),
{
    let v = chars_of(key);
    let k = find_char_index(&v, '|');
    if k == v.len() {
        return key.to_owned();
    }
    let e = find_char_from(&v, k + 1, '|');
    let t = slice_chars(&v, k + 1, e);
    proof {
        assert(t@ =~= key@.skip(k + 1).take(e - (k + 1)));
    }
    string_of(&t)
}

#[verifier::external_type_specification]
#[verifier::external_body]
pub struct ExSystemTime(std::time::SystemTime);

/// `SystemTime::now`.
#[verifier::external_body]
fn system_now() -> std::time::SystemTime {
    std::time::SystemTime::now()
}

/// `SystemTime::duration_since(UNIX_EPOCH)`; `None` for a time before the
/// epoch.
#[verifier::external_body]
fn since_unix_epoch(t: &std::time::SystemTime) -> Option<std::time::Duration> {
    match t.duration_since(std::time::UNIX_EPOCH) {
        Ok(d) => Some(d),
        Err(_) => None,
    }
}

/// `Duration::as_secs`: the whole seconds of a duration.
#[verifier::external_body]
fn whole_seconds(d: &std::time::Duration) -> u64 {
    d.as_secs()
}

/// Epoch seconds from a clock reading: the whole seconds since 1970 (`None`
/// when the clock reads earlier, which gives 0).
pub fn epoch_seconds(since: Option<u64>) -> (r: i64)
    ensures
        r == match since {
            Some(s) => s as i64,
            None => 0i64,
        },
{
    match since {
        Some(s) => s as i64,
        None => 0,
    }
}

/// The current time in epoch seconds (0 when the clock reads before 1970).
pub fn now_epoch() -> i64 {
    let t = system_now();
    let since = match since_unix_epoch(&t) {
        Some(d) => Some(whole_seconds(&d)),
        None => None,
    };
    epoch_seconds(since)
}

/// Should this cycle do work on a book, given its prior decision?
///
/// - no prior decision      → yes, it's new
/// - matched                → no, done forever (Listenarr owns it now)
/// - ambiguous / skipped    → no, waiting on a human
/// - not_found              → only once its retry backoff expires
pub open spec fn actionable(prior: Option<Decision>, now: i64) -> bool {
    match prior {
        None => true,
        Some(d) => match d.status {
            DecisionStatus::NotFound => match d.next_retry {
                None => true,
                Some(t) => now >= t,
            },
            _ => false,
        },
    }
}

pub open spec fn opt_deref(prior: Option<&Decision>) -> Option<Decision> {
    match prior {
        Some(d) => Some(*d),
        None => None,
    }
}

/// Should this cycle do work on a book, given its prior decision?
pub fn is_actionable(prior: Option<&Decision>, now: i64) -> (b: bool)
    ensures
        b == actionable(opt_deref(prior), now),
{
    match prior {
        None => true,
        Some(d) => match d.status {
            DecisionStatus::Matched | DecisionStatus::Ambiguous | DecisionStatus::Skipped => false,
            DecisionStatus::NotFound => match d.next_retry {
                None => true,
                Some(t) => now >= t,
            },
        },
    }
}

/// What a cycle does with a book, given its prior decision.
pub enum BookStep {
    /// Match it against the catalog.
    Match,
    /// Leave it; a book matched earlier still has its Listenarr presence
    /// confirmed under `resync` (its ASIN).
    Skip { resync: Option<String> },
}

/// A cycle matches a book exactly when it is actionable; otherwise it skips
/// it, re-syncing the ASIN of a prior match.
pub open spec fn is_book_step(step: BookStep, prior: Option<Decision>, now: i64) -> bool {
    match step {
        BookStep::Match => actionable(prior, now),
        BookStep::Skip { resync } => {
            &&& !actionable(prior, now)
            &&& match prior {
                Some(d) => if d.status == DecisionStatus::Matched {
                    crate::text::opt_string_view(resync) == crate::text::opt_string_view(d.asin)
                } else {
                    resync is None
                },
                None => resync is None,
            }
        },
    }
}

/// The cycle's step for a book with prior decision `prior` at time `now`.
pub fn book_step(prior: Option<&Decision>, now: i64) -> (r: BookStep)
    ensures
        is_book_step(r, opt_deref(prior), now),
{
    if is_actionable(prior, now) {
        return BookStep::Match;
    }
    let resync = match prior {
        Some(d) => if d.status == DecisionStatus::Matched {
            crate::text::copy_opt(&d.asin)
        } else {
            None
        },
        None => None,
    };
    BookStep::Skip { resync }
}

} // verus!
