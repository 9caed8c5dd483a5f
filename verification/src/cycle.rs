//! The decisions of one reconcile cycle: which books to work on and in
//! what order, what each verdict records, how the human override file is
//! applied, and the check-then-act sync of a matched book into Listenarr.
//!
//! The program around the library runs the loop: it performs each HTTP
//! call, reads and writes the decision table, and hands the outcomes back.

use vstd::prelude::*;

use crate::abs::LibraryInfo;
use crate::listenarr::{AddOutcome, BookMetadata};
use crate::matcher::{first_listed, primary_author, Candidate, Ebook, Status};
use crate::reconcile::OverrideAction;
use crate::store::{
    actionable, key_author, key_author_of, key_title, key_title_of, Decision, DecisionStatus,
    FULL_CONFIDENCE_BITS, NOT_FOUND_RETRY_SECS,
};
use crate::text::{
    chars_eq_ignore_ascii_case, chars_of, copy_opt, eq_ignore_ascii_case, lemma_prefix_len_while,
    not_char, opt_string_view, pieces, push_str, string_of, strings_view,
};

verus! {

// ---------------------------------------------------------------------------
// Listenarr sync
// ---------------------------------------------------------------------------

/// What the Listenarr sync did this cycle.
pub struct SyncStats {
    /// Books already in Listenarr.
    pub present: usize,
    /// Books a dry run would have added.
    pub would_add: usize,
    /// Books added.
    pub added: usize,
    /// Lookups or adds that failed.
    pub errors: usize,
}

impl SyncStats {
    pub fn new() -> (s: Self)
        ensures
            s.present == 0 && s.would_add == 0 && s.added == 0 && s.errors == 0,
    {
        SyncStats { present: 0, would_add: 0, added: 0, errors: 0 }
    }

    /// No counter is at its limit, so one more event can be counted.
    pub open spec fn has_room(&self) -> bool {
        &&& self.present < usize::MAX
        &&& self.would_add < usize::MAX
        &&& self.added < usize::MAX
        &&& self.errors < usize::MAX
    }

    /// Counts the lookup of a matched book's ASIN in Listenarr (`lookup`:
    /// `Some(true)` present, `Some(false)` absent, `None` failed) and says
    /// whether to add it now. A book is added only when the lookup found it
    /// absent and changes are applied; a dry run only counts what it would
    /// add.
    pub fn after_lookup(&mut self, lookup: Option<bool>, apply: bool) -> (add: bool)
        requires
            old(self).has_room(),
        ensures
            add == (lookup == Some(false) && apply),
            final(self).present == old(self).present + if lookup == Some(true) {
                1int
            } else {
                0int
            },
            final(self).would_add == old(self).would_add + if lookup == Some(false) && !apply {
                1int
            } else {
                0int
            },
            final(self).added == old(self).added,
            final(self).errors == old(self).errors + if lookup is None {
                1int
            } else {
                0int
            },
    {
        match lookup {
            Some(true) => {
                self.present = self.present + 1;
                false
            },
            Some(false) => {
                if apply {
                    true
                } else {
                    self.would_add = self.would_add + 1;
                    false
                }
            },
            None => {
                self.errors = self.errors + 1;
                false
            },
        }
    }

    /// Counts the outcome of an add (`None`: the add failed).
    pub fn after_add(&mut self, outcome: Option<AddOutcome>)
        requires
            old(self).has_room(),
        ensures
            final(self).present == old(self).present + if outcome == Some(
                AddOutcome::AlreadyExists,
            ) {
                1int
            } else {
                0int
            },
            final(self).would_add == old(self).would_add,
            final(self).added == old(self).added + if outcome == Some(AddOutcome::Added) {
                1int
            } else {
                0int
            },
            final(self).errors == old(self).errors + if outcome is None {
                1int
            } else {
                0int
            },
    {
        match outcome {
            Some(AddOutcome::Added) => {
                self.added = self.added + 1;
            },
            Some(AddOutcome::AlreadyExists) => {
                self.present = self.present + 1;
            },
            None => {
                self.errors = self.errors + 1;
            },
        }
    }
}

/// The metadata sent for a book the matcher just matched to `asin`: the
/// winning candidate's (`cand`), with the ebook's title when the candidate
/// is missing.
pub open spec fn is_match_metadata(m: BookMetadata, asin: Seq<char>, cand: Option<Candidate>, e: Ebook) -> bool {
    &&& m.asin@ == asin
    &&& match cand {
        Some(c) => {
            &&& m.title@ == c.title@
            &&& opt_string_view(m.subtitle) == opt_string_view(c.subtitle)
            &&& strings_view(m.authors@) == strings_view(c.authors@)
            &&& strings_view(m.narrators@) == strings_view(c.narrators@)
            &&& opt_string_view(m.language) == opt_string_view(c.language)
        },
        None => {
            &&& m.title@ == e.title@
            &&& m.subtitle is None
            &&& m.authors@.len() == 0
            &&& m.narrators@.len() == 0
            &&& m.language is None
        },
    }
}

fn copy_strings(v: &Vec<String>) -> (r: Vec<String>)
    ensures
        strings_view(r@) == strings_view(v@),
{
    let mut r: Vec<String> = Vec::new();
    let mut i: usize = 0;
    while i < v.len()
        invariant
            i <= v@.len(),
            r@.len() == i,
            forall|k: int| 0 <= k < i ==> (#[trigger] r@[k])@ == v@[k]@,
        decreases v.len() - i,
    {
        r.push(v[i].as_str().to_owned());
        i = i + 1;
    }
    proof {
        assert(strings_view(r@) =~= strings_view(v@));
    }
    r
}

/// The metadata sent to Listenarr for a freshly matched book.
pub fn match_metadata(asin: &str, cand: Option<&Candidate>, e: &Ebook) -> (m: BookMetadata)
    ensures
        is_match_metadata(m, asin@, crate::matcher::opt_candidate(cand), *e),
{
    match cand {
        Some(c) => BookMetadata {
            asin: asin.to_owned(),
            title: c.title.as_str().to_owned(),
            subtitle: copy_opt(&c.subtitle),
            authors: copy_strings(&c.authors),
            narrators: copy_strings(&c.narrators),
            language: copy_opt(&c.language),
        },
        None => BookMetadata {
            asin: asin.to_owned(),
            title: e.title.as_str().to_owned(),
            subtitle: None,
            authors: Vec::new(),
            narrators: Vec::new(),
            language: None,
        },
    }
}

/// The metadata sent to confirm a book matched in an earlier cycle: the
/// ebook's own title, its primary author and its language.
pub open spec fn is_known_match_metadata(m: BookMetadata, asin: Seq<char>, e: Ebook) -> bool {
    &&& m.asin@ == asin
    &&& m.title@ == e.title@
    &&& m.subtitle is None
    &&& strings_view(m.authors@) == seq![first_listed(e.author@)]
    &&& m.narrators@.len() == 0
    &&& opt_string_view(m.language) == opt_string_view(e.language)
}

pub fn known_match_metadata(asin: &str, e: &Ebook) -> (m: BookMetadata)
    ensures
        is_known_match_metadata(m, asin@, *e),
{
    let mut authors: Vec<String> = Vec::new();
    authors.push(primary_author(e.author.as_str()));
    proof {
        assert(strings_view(authors@) =~= seq![first_listed(e.author@)]);
    }
    BookMetadata {
        asin: asin.to_owned(),
        title: e.title.as_str().to_owned(),
        subtitle: None,
        authors,
        narrators: Vec::new(),
        language: copy_opt(&e.language),
    }
}

/// The metadata sent for a book accepted in the override file: the title
/// and author parts of its key.
pub open spec fn is_override_metadata(m: BookMetadata, key: Seq<char>, asin: Seq<char>) -> bool {
    &&& m.asin@ == asin
    &&& m.title@ == key_title_of(key)
    &&& m.subtitle is None
    &&& strings_view(m.authors@) == seq![key_author_of(key)]
    &&& m.narrators@.len() == 0
    &&& m.language is None
}

pub fn override_metadata(key: &str, asin: &str) -> (m: BookMetadata)
    ensures
        is_override_metadata(m, key@, asin@),
{
    let mut authors: Vec<String> = Vec::new();
    authors.push(key_author(key));
    proof {
        assert(strings_view(authors@) =~= seq![key_author_of(key@)]);
    }
    BookMetadata {
        asin: asin.to_owned(),
        title: key_title(key),
        subtitle: None,
        authors,
        narrators: Vec::new(),
        language: None,
    }
}

// ---------------------------------------------------------------------------
// The override file
// ---------------------------------------------------------------------------

/// Whether an override still has to be recorded, given the book's current
/// decision: a skip unless the book is already skipped, an ASIN unless the
/// book is already matched to that ASIN.
pub open spec fn override_needed(action: OverrideAction, prior: Option<Decision>) -> bool {
    match action {
        OverrideAction::Skip => !(prior matches Some(p) && p.status == DecisionStatus::Skipped),
        OverrideAction::Asin(a) => !(prior matches Some(p) && p.status == DecisionStatus::Matched
            && opt_string_view(p.asin) == Some(a@)),
    }
}

/// `d` is what an override records for the book `key` at time `now`.
pub open spec fn is_override_record(
    d: Decision,
    key: Seq<char>,
    action: OverrideAction,
    prior: Option<Decision>,
    now: i64,
) -> bool {
    &&& d.ebook_key@ == key
    &&& match action {
        OverrideAction::Skip => {
            &&& d.status == DecisionStatus::Skipped
            &&& d.asin is None
            &&& d.confidence is None
            &&& opt_string_view(d.note) == Some("manual override: skip"@)
        },
        OverrideAction::Asin(a) => {
            &&& d.status == DecisionStatus::Matched
            &&& opt_string_view(d.asin) == Some(a@)
            &&& d.confidence == Some(FULL_CONFIDENCE_BITS)
            &&& opt_string_view(d.note) == Some("manual override"@)
        },
    }
    &&& d.attempts == match prior {
        Some(p) => p.attempts,
        None => 0,
    }
    &&& d.next_retry is None
    &&& d.updated_at == now
    &&& match prior {
        Some(p) => {
            &&& opt_string_view(d.ebook_title) == opt_string_view(p.ebook_title)
            &&& opt_string_view(d.ebook_author) == opt_string_view(p.ebook_author)
            &&& opt_string_view(d.image_url) == opt_string_view(p.image_url)
            &&& opt_string_view(d.reasons) == opt_string_view(p.reasons)
        },
        None => {
            &&& d.ebook_title is None
            &&& d.ebook_author is None
            &&& d.image_url is None
            &&& d.reasons is None
        },
    }
}

/// The decision one override line records for the book `key`, given its
/// current decision; `None` when the current decision already says so.
pub fn override_decision(key: &str, action: &OverrideAction, prior: Option<&Decision>, now: i64) -> (r:
    Option<Decision>)
    ensures
        match r {
            Some(d) => override_needed(*action, crate::store::opt_deref(prior)) && is_override_record(
                d,
                key@,
                *action,
                crate::store::opt_deref(prior),
                now,
            ),
            None => !override_needed(*action, crate::store::opt_deref(prior)),
        },
{
    let needed = match action {
        OverrideAction::Skip => match prior {
            Some(p) => p.status != DecisionStatus::Skipped,
            None => true,
        },
        OverrideAction::Asin(a) => match prior {
            Some(p) => {
                let same = match &p.asin {
                    Some(pa) => {
                        let pv = chars_of(pa.as_str());
                        crate::text::chars_eq_str(&pv, a.as_str())
                    },
                    None => false,
                };
                !(p.status == DecisionStatus::Matched && same)
            },
            None => true,
        },
    };
    if !needed {
        return None;
    }
    let (status, asin, confidence, note) = match action {
        OverrideAction::Skip => (DecisionStatus::Skipped, None, None, "manual override: skip"),
        OverrideAction::Asin(a) => (
            DecisionStatus::Matched,
            Some(a.as_str().to_owned()),
            Some(FULL_CONFIDENCE_BITS),
            "manual override",
        ),
    };
    let (attempts, ebook_title, ebook_author, image_url, reasons) = match prior {
        Some(p) => (
            p.attempts,
            copy_opt(&p.ebook_title),
            copy_opt(&p.ebook_author),
            copy_opt(&p.image_url),
            copy_opt(&p.reasons),
        ),
        None => (0, None, None, None, None),
    };
    Some(
        Decision {
            ebook_key: key.to_owned(),
            status,
            asin,
            confidence,
            attempts,
            next_retry: None,
            updated_at: now,
            note: Some(note.to_owned()),
            ebook_title,
            ebook_author,
            image_url,
            reasons,
        },
    )
}

/// Overrides are idempotent: once an override is recorded, applying the
/// same line again, at any later time, records nothing.
pub proof fn lemma_override_idempotent(
    d: Decision,
    key: Seq<char>,
    action: OverrideAction,
    prior: Option<Decision>,
    now: i64,
)
    requires
        is_override_record(d, key, action, prior, now),
    ensures
        !override_needed(action, Some(d)),
{
}

// ---------------------------------------------------------------------------
// Audiobookshelf library choice
// ---------------------------------------------------------------------------

/// The position of the first library named `want`, ignoring ASCII case.
pub fn find_library(libs: &Vec<LibraryInfo>, want: &str) -> (r: Option<usize>)
    ensures
        match r {
            Some(i) => i < libs@.len() && eq_ignore_ascii_case(libs@[i as int].1@, want@)
                && forall|k: int| 0 <= k < i ==> !eq_ignore_ascii_case(#[trigger] libs@[k].1@, want@),
            None => forall|k: int|
                0 <= k < libs@.len() ==> !eq_ignore_ascii_case(#[trigger] libs@[k].1@, want@),
        },
{
    let mut i: usize = 0;
    while i < libs.len()
        invariant
            i <= libs@.len(),
            forall|k: int| 0 <= k < i ==> !eq_ignore_ascii_case(#[trigger] libs@[k].1@, want@),
        decreases libs.len() - i,
    {
        let name = chars_of(libs[i].1.as_str());
        if chars_eq_ignore_ascii_case(&name, want) {
            return Some(i);
        }
        i = i + 1;
    }
    None
}

/// `name (media type)` for each library, joined with `, `.
pub open spec fn library_list(libs: Seq<LibraryInfo>) -> Seq<char>
    decreases libs.len(),
{
    if libs.len() == 0 {
        seq![]
    } else if libs.len() == 1 {
        libs[0].1@ + " ("@ + libs[0].2@ + ")"@
    } else {
        library_list(libs.drop_last()) + ", "@ + libs.last().1@ + " ("@ + libs.last().2@ + ")"@
    }
}

/// The error when no library carries the configured name.
pub fn library_choices(libs: &Vec<LibraryInfo>) -> (r: String)
    ensures
        r@ == "abs library must name one of: "@ + library_list(libs@),
{
    let mut v: Vec<char> = Vec::new();
    let mut i: usize = 0;
    while i < libs.len()
        invariant
            i <= libs@.len(),
            v@ == library_list(libs@.take(i as int)),
        decreases libs.len() - i,
    {
        proof {
            assert(libs@.take(i + 1).drop_last() =~= libs@.take(i as int));
            assert(libs@.take(i + 1).last() == libs@[i as int]);
        }
        if i > 0 {
            push_str(&mut v, ", ");
        }
        push_str(&mut v, libs[i].1.as_str());
        push_str(&mut v, " (");
        push_str(&mut v, libs[i].2.as_str());
        push_str(&mut v, ")");
        proof {
            if i == 0 {
                assert(libs@.take(1)[0] == libs@[0]);
            }
        }
        i = i + 1;
    }
    proof {
        assert(libs@.take(libs@.len() as int) =~= libs@);
    }
    let mut out = chars_of("abs library must name one of: ");
    crate::text::push_all(&mut out, &v);
    string_of(&out)
}

// ---------------------------------------------------------------------------
// Which books, in what order
// ---------------------------------------------------------------------------

/// The order of `str`: the first differing character decides (by code
/// point), and a proper prefix comes first.
pub open spec fn text_lt(a: Seq<char>, b: Seq<char>) -> bool
    decreases a.len(),
{
    if a.len() == 0 {
        b.len() > 0
    } else if b.len() == 0 {
        false
    } else if a[0] != b[0] {
        (a[0] as u32) < (b[0] as u32)
    } else {
        text_lt(a.drop_first(), b.drop_first())
    }
}

proof fn lemma_text_lt_transitive(a: Seq<char>, b: Seq<char>, c: Seq<char>)
    requires
        text_lt(a, b),
        text_lt(b, c),
    ensures
        text_lt(a, c),
    decreases a.len(),
{
    if a.len() > 0 && b.len() > 0 && c.len() > 0 && a[0] == b[0] && b[0] == c[0] {
        lemma_text_lt_transitive(a.drop_first(), b.drop_first(), c.drop_first());
    }
}

proof fn lemma_text_lt_total(a: Seq<char>, b: Seq<char>)
    ensures
        a == b || text_lt(a, b) || text_lt(b, a),
    decreases a.len(),
{
    if a.len() > 0 && b.len() > 0 {
        if a[0] == b[0] {
            lemma_text_lt_total(a.drop_first(), b.drop_first());
            if a.drop_first() == b.drop_first() {
                assert(a =~= seq![a[0]] + a.drop_first());
                assert(b =~= seq![b[0]] + b.drop_first());
            }
        } else {
            vstd::utf8::char_u32_cast(a[0], a[0] as u32);
            vstd::utf8::char_u32_cast(b[0], b[0] as u32);
        }
    } else if a.len() == 0 && b.len() == 0 {
        assert(a =~= b);
    }
}

/// Whether `a` comes before `b` in `str` order.
fn text_less(a: &Vec<char>, b: &Vec<char>) -> (r: bool)
    ensures
        r == text_lt(a@, b@),
{
    let mut i: usize = 0;
    proof {
        assert(a@.skip(0) =~= a@);
        assert(b@.skip(0) =~= b@);
    }
    while i < a.len() && i < b.len()
        invariant
            i <= a@.len(),
            i <= b@.len(),
            text_lt(a@, b@) == text_lt(a@.skip(i as int), b@.skip(i as int)),
        decreases a.len() - i,
    {
        let x = a[i];
        let y = b[i];
        proof {
            assert(a@.skip(i as int)[0] == x);
            assert(b@.skip(i as int)[0] == y);
        }
        if x != y {
            return (x as u32) < (y as u32);
        }
        proof {
            assert(a@.skip(i as int).drop_first() =~= a@.skip(i + 1));
            assert(b@.skip(i as int).drop_first() =~= b@.skip(i + 1));
        }
        i = i + 1;
    }
    a.len() < b.len()
}

/// In a cycle, book `a` comes before book `b`: by title, and in the order
/// listed when the titles are equal (a stable sort).
pub open spec fn title_first(bs: Seq<Ebook>, a: int, b: int) -> bool {
    text_lt(bs[a].title@, bs[b].title@) || (bs[a].title@ == bs[b].title@ && a < b)
}

/// `o` lists each index of `bs` once, in title order.
pub open spec fn is_title_order(bs: Seq<Ebook>, o: Seq<usize>) -> bool {
    &&& o.len() == bs.len()
    &&& forall|i: int| 0 <= i < o.len() ==> #[trigger] o[i] < bs.len()
    &&& forall|i: int, j: int|
        0 <= i < j < o.len() ==> title_first(bs, #[trigger] o[i] as int, #[trigger] o[j] as int)
}

/// The positions of the books in title order; books with equal titles keep
/// their order.
pub fn title_order(books: &[Ebook]) -> (o: Vec<usize>)
    ensures
        is_title_order(books@, o@),
{
    let ghost bs = books@;
    let mut titles: Vec<Vec<char>> = Vec::new();
    let mut j: usize = 0;
    while j < books.len()
        invariant
            j <= bs.len(),
            bs == books@,
            titles@.len() == j,
            forall|k: int| 0 <= k < j ==> (#[trigger] titles@[k])@ == bs[k].title@,
        decreases books.len() - j,
    {
        titles.push(chars_of(books[j].title.as_str()));
        j = j + 1;
    }
    let mut o: Vec<usize> = Vec::new();
    let mut i: usize = 0;
    while i < books.len()
        invariant
            i <= bs.len(),
            bs == books@,
            titles@.len() == bs.len(),
            forall|k: int| 0 <= k < bs.len() ==> (#[trigger] titles@[k])@ == bs[k].title@,
            o@.len() == i,
            forall|k: int| 0 <= k < o@.len() ==> #[trigger] o@[k] < i,
            forall|a: int, b: int|
                0 <= a < b < o@.len() ==> title_first(bs, #[trigger] o@[a] as int, #[trigger] o@[b] as int),
        decreases books.len() - i,
    {
        let ghost t = bs[i as int].title@;
        let mut p: usize = 0;
        while p < o.len() && !text_less(&titles[i], &titles[o[p]])
            invariant
                p <= o@.len(),
                i < bs.len(),
                titles@.len() == bs.len(),
                forall|k: int| 0 <= k < bs.len() ==> (#[trigger] titles@[k])@ == bs[k].title@,
                t == bs[i as int].title@,
                forall|k: int| 0 <= k < o@.len() ==> #[trigger] o@[k] < i,
                forall|k: int| 0 <= k < p ==> !text_lt(t, bs[#[trigger] o@[k] as int].title@),
            decreases o@.len() - p,
        {
            p = p + 1;
        }
        let ghost old_o = o@;
        proof {
            if p < old_o.len() {
                assert(text_lt(t, bs[old_o[p as int] as int].title@));
                assert forall|k: int| p <= k < old_o.len() implies text_lt(
                    t,
                    bs[#[trigger] old_o[k] as int].title@,
                ) by {
                    if k > p {
                        assert(title_first(bs, old_o[p as int] as int, old_o[k] as int));
                        if text_lt(bs[old_o[p as int] as int].title@, bs[old_o[k] as int].title@) {
                            lemma_text_lt_transitive(
                                t,
                                bs[old_o[p as int] as int].title@,
                                bs[old_o[k] as int].title@,
                            );
                        }
                    }
                }
            }
        }
        o.insert(p, i);
        proof {
            assert(o@ == old_o.insert(p as int, i));
            assert forall|k: int| 0 <= k < o@.len() implies #[trigger] o@[k] < i + 1 by {
                if k < p {
                    assert(o@[k] == old_o[k]);
                } else if k > p {
                    assert(o@[k] == old_o[k - 1]);
                }
            }
            assert forall|a: int, b: int|
                0 <= a < b < o@.len() implies title_first(bs, #[trigger] o@[a] as int, #[trigger] o@[b] as int) by {
                if b < p {
                    assert(o@[a] == old_o[a]);
                    assert(o@[b] == old_o[b]);
                } else if b == p {
                    assert(o@[a] == old_o[a]);
                    assert(!text_lt(t, bs[old_o[a] as int].title@));
                    lemma_text_lt_total(t, bs[old_o[a] as int].title@);
                } else if a < p {
                    assert(o@[a] == old_o[a]);
                    assert(o@[b] == old_o[b - 1]);
                } else if a == p {
                    assert(o@[b] == old_o[b - 1]);
                    assert(text_lt(t, bs[old_o[b - 1] as int].title@));
                } else {
                    assert(o@[a] == old_o[a - 1]);
                    assert(o@[b] == old_o[b - 1]);
                }
            }
        }
        i = i + 1;
    }
    o
}

/// The books a cycle works on: in title order, at most `limit` of them,
/// each with the configured language (per-book language metadata is
/// unreliable).
pub open spec fn is_cycle_books(r: Seq<Ebook>, books: Seq<Ebook>, limit: usize, lang: Seq<char>) -> bool {
    exists|o: Seq<usize>|
        {
            &&& is_title_order(books, o)
            &&& r.len() == if books.len() < limit {
                books.len() as int
            } else {
                limit as int
            }
            &&& forall|k: int|
                0 <= k < r.len() ==> {
                    &&& (#[trigger] r[k]).title@ == books[o[k] as int].title@
                    &&& r[k].author@ == books[o[k] as int].author@
                    &&& opt_string_view(r[k].language) == Some(lang)
                }
        }
}

pub fn cycle_books(books: &[Ebook], limit: usize, lang: &str) -> (r: Vec<Ebook>)
    ensures
        is_cycle_books(r@, books@, limit, lang@),
{
    let o = title_order(books);
    let n = if books.len() < limit {
        books.len()
    } else {
        limit
    };
    let mut r: Vec<Ebook> = Vec::new();
    let mut k: usize = 0;
    while k < n
        invariant
            n <= books@.len(),
            is_title_order(books@, o@),
            k <= n,
            r@.len() == k,
            forall|x: int|
                0 <= x < k ==> {
                    &&& (#[trigger] r@[x]).title@ == books@[o@[x] as int].title@
                    &&& r@[x].author@ == books@[o@[x] as int].author@
                    &&& opt_string_view(r@[x].language) == Some(lang@)
                },
        decreases n - k,
    {
        let b = &books[o[k]];
        r.push(
            Ebook {
                title: b.title.as_str().to_owned(),
                author: b.author.as_str().to_owned(),
                language: Some(lang.to_owned()),
            },
        );
        k = k + 1;
    }
    let ghost og = o@;
    proof {
        assert(is_title_order(books@, og));
    }
    r
}

/// The author to search the catalog with: the primary author, unless the
/// ebook names none.
pub fn search_author(author: &str) -> (r: Option<String>)
    ensures
        match r {
            Some(a) => a@ == first_listed(author@) && a@.len() > 0,
            None => first_listed(author@).len() == 0,
        },
{
    let primary = primary_author(author);
    if primary.as_str().unicode_len() > 0 {
        Some(primary)
    } else {
        None
    }
}

/// Bad author metadata is common: a search with an author that finds
/// nothing is repeated on the title alone, and the scorer decides (a wrong
/// author can then never auto-match).
pub fn search_again_without_author(found: usize, searched_with_author: bool) -> (b: bool)
    ensures
        b == (found == 0 && searched_with_author),
{
    found == 0 && searched_with_author
}

// ---------------------------------------------------------------------------
// Recording a verdict
// ---------------------------------------------------------------------------

/// The best candidate of a verdict, as a decision records it.
pub struct BestPick {
    pub asin: Option<String>,
    pub title: String,
    /// Bit pattern of the total score (`f64::to_bits`).
    pub total_bits: u64,
    pub image_url: Option<String>,
    /// The penalty labels of the best candidate.
    pub penalties: Vec<String>,
}

pub open spec fn status_decision(s: Status) -> DecisionStatus {
    match s {
        Status::Matched => DecisionStatus::Matched,
        Status::Ambiguous => DecisionStatus::Ambiguous,
        Status::NotFound => DecisionStatus::NotFound,
    }
}

/// The texts joined with `sep` between them.
pub open spec fn joined_by(v: Seq<Seq<char>>, sep: char) -> Seq<char>
    decreases v.len(),
{
    if v.len() == 0 {
        seq![]
    } else if v.len() == 1 {
        v[0]
    } else {
        v[0] + seq![sep] + joined_by(v.drop_first(), sep)
    }
}

pub open spec fn prior_attempts(prior: Option<Decision>) -> i64 {
    match prior {
        Some(p) => p.attempts,
        None => 0,
    }
}

/// `d` is what a cycle records for the ebook `e` (key `key`) after the
/// matcher's verdict `status` with best candidate `best`, at time `now`.
pub open spec fn is_cycle_record(
    d: Decision,
    key: Seq<char>,
    e: Ebook,
    status: Status,
    best: Option<BestPick>,
    prior: Option<Decision>,
    now: i64,
) -> bool {
    &&& d.ebook_key@ == key
    &&& d.status == status_decision(status)
    &&& d.next_retry == if status == Status::NotFound {
        Some((now + NOT_FOUND_RETRY_SECS) as i64)
    } else {
        None::<i64>
    }
    &&& d.attempts == prior_attempts(prior) + 1
    &&& d.updated_at == now
    &&& opt_string_view(d.ebook_title) == Some(e.title@)
    &&& opt_string_view(d.ebook_author) == Some(e.author@)
    &&& match best {
        Some(b) => {
            &&& opt_string_view(d.asin) == opt_string_view(b.asin)
            &&& d.confidence == Some(b.total_bits)
            &&& opt_string_view(d.note) == Some(b.title@)
            &&& opt_string_view(d.image_url) == opt_string_view(b.image_url)
            &&& opt_string_view(d.reasons) == if b.penalties@.len() > 0 {
                Some(joined_by(strings_view(b.penalties@), ','))
            } else {
                None::<Seq<char>>
            }
        },
        None => {
            &&& d.asin is None
            &&& d.confidence is None
            &&& d.note is None
            &&& d.image_url is None
            &&& d.reasons is None
        },
    }
}

fn join_labels(v: &Vec<String>) -> (r: String)
    ensures
        r@ == joined_by(strings_view(v@), ','),
{
    let mut out: Vec<char> = Vec::new();
    let mut i: usize = v.len();
    while i > 0
        invariant
            i <= v@.len(),
            out@ == joined_by(strings_view(v@.skip(i as int)), ','),
        decreases i,
    {
        i = i - 1;
        let ghost rest = v@.skip(i + 1);
        proof {
            assert(v@.skip(i as int).drop_first() =~= rest);
            assert(strings_view(v@.skip(i as int)).drop_first() =~= strings_view(rest));
            assert(strings_view(v@.skip(i as int))[0] == v@[i as int]@);
        }
        let mut piece = chars_of(v[i].as_str());
        if i + 1 < v.len() {
            piece.push(',');
        }
        crate::text::push_all(&mut piece, &out);
        out = piece;
    }
    proof {
        assert(v@.skip(0) =~= v@);
    }
    string_of(&out)
}

/// What a cycle records for a book after the matcher's verdict.
pub fn cycle_decision(
    key: &str,
    e: &Ebook,
    status: Status,
    best: Option<&BestPick>,
    prior: Option<&Decision>,
    now: i64,
) -> (d: Decision)
    requires
        status == Status::NotFound ==> now + NOT_FOUND_RETRY_SECS <= i64::MAX,
        prior_attempts(crate::store::opt_deref(prior)) < i64::MAX,
    ensures
        is_cycle_record(
            d,
            key@,
            *e,
            status,
            match best {
                Some(b) => Some(*b),
                None => None,
            },
            crate::store::opt_deref(prior),
            now,
        ),
{
    let (st, next_retry) = match status {
        Status::Matched => (DecisionStatus::Matched, None),
        Status::Ambiguous => (DecisionStatus::Ambiguous, None),
        Status::NotFound => (DecisionStatus::NotFound, Some(now + NOT_FOUND_RETRY_SECS)),
    };
    let attempts = match prior {
        Some(p) => p.attempts + 1,
        None => 1,
    };
    let (asin, confidence, note, image_url, reasons) = match best {
        Some(b) => (
            copy_opt(&b.asin),
            Some(b.total_bits),
            Some(b.title.as_str().to_owned()),
            copy_opt(&b.image_url),
            if b.penalties.len() > 0 {
                Some(join_labels(&b.penalties))
            } else {
                None
            },
        ),
        None => (None, None, None, None, None),
    };
    Decision {
        ebook_key: key.to_owned(),
        status: st,
        asin,
        confidence,
        attempts,
        next_retry,
        updated_at: now,
        note,
        ebook_title: Some(e.title.as_str().to_owned()),
        ebook_author: Some(e.author.as_str().to_owned()),
        image_url,
        reasons,
    }
}

/// The lanes of a cycle's verdicts: a matched or ambiguous book is never
/// worked on again by the cycle, and a not-found book is worked on again
/// exactly from the end of its backoff on.
pub proof fn lemma_cycle_record_lanes(
    d: Decision,
    key: Seq<char>,
    e: Ebook,
    status: Status,
    best: Option<BestPick>,
    prior: Option<Decision>,
    now: i64,
    later: i64,
)
    requires
        is_cycle_record(d, key, e, status, best, prior, now),
        status == Status::NotFound ==> now + NOT_FOUND_RETRY_SECS <= i64::MAX,
    ensures
        actionable(Some(d), later) <==> (status == Status::NotFound && later >= now
            + NOT_FOUND_RETRY_SECS),
{
}

/// The reasons a cycle records with a verdict come back on the review card
/// as the same list of labels, when there is at least one and none holds a
/// comma.
pub proof fn lemma_reasons_roundtrip(v: Seq<Seq<char>>)
    requires
        v.len() > 0,
        forall|i: int| 0 <= i < v.len() ==> !(#[trigger] v[i]).contains(','),
    ensures
        pieces(joined_by(v, ','), ',') == v,
    decreases v.len(),
{
    let first = v[0];
    assert forall|k: int| 0 <= k < first.len() implies (not_char(','))(#[trigger] first[k]) by {
        if first[k] == ',' {
            assert(first.contains(','));
        }
    }
    if v.len() == 1 {
        lemma_prefix_len_while(first, not_char(','), first.len() as int);
        assert(v =~= seq![first]);
    } else {
        let rest = v.drop_first();
        let s = joined_by(v, ',');
        assert(s == first + seq![','] + joined_by(rest, ','));
        assert forall|k: int| 0 <= k < first.len() implies (not_char(','))(#[trigger] s[k]) by {
            assert(s[k] == first[k]);
        }
        assert(s[first.len() as int] == ',');
        lemma_prefix_len_while(s, not_char(','), first.len() as int);
        assert(s.take(first.len() as int) =~= first);
        assert(s.skip(first.len() + 1 as int) =~= joined_by(rest, ','));
        assert forall|i: int| 0 <= i < rest.len() implies !(#[trigger] rest[i]).contains(',') by {
            assert(rest[i] == v[i + 1]);
        }
        lemma_reasons_roundtrip(rest);
        assert(v =~= seq![first] + rest);
    }
}

// ---------------------------------------------------------------------------
// Display
// ---------------------------------------------------------------------------

/// The first `n` characters of `s` (all of it when shorter).
pub fn truncate(s: &str, n: usize) -> (r: String)
    ensures
        r@ == if s@.len() <= n {
            s@
        } else {
            s@.take(n as int)
        },
{
    let v = chars_of(s);
    if v.len() <= n {
        return string_of(&v);
    }
    let t = crate::text::slice_chars(&v, 0, n);
    proof {
        assert(t@ =~= s@.take(n as int));
    }
    string_of(&t)
}

} // verus!
