//! Reconcile-loop plumbing: interval parsing, the human override file, and
//! the review report.

use vstd::prelude::*;

use crate::store::{Decision, DecisionStatus};
use crate::text::{
    chars_after_last, chars_after_last_index, chars_eq_ignore_ascii_case, chars_of, contains_text,
    decimal, eq_ignore_ascii_case, find_char, find_char_index, i64_text, is_white_space,
    lemma_contains_concat, lemma_contains_self, lemma_contains_trans, lemma_prefix_len_while,
    lemma_suffix_len_while, lines, lines_of, not_char, parse_u64, parsed_u64, push_all, push_str,
    signed_decimal, slice_chars, string_of, strings_view, trim, trim_chars, u64_text, views,
    ws_pred,
};

verus! {

// ---------------------------------------------------------------------------
// Intervals
// ---------------------------------------------------------------------------

/// Seconds per interval unit: `s`, `m`, `h`, `d`.
pub open spec fn unit_seconds(u: char) -> Option<int> {
    if u == 's' {
        Some(1)
    } else if u == 'm' {
        Some(60)
    } else if u == 'h' {
        Some(3600)
    } else if u == 'd' {
        Some(86400)
    } else {
        None
    }
}

/// The number of seconds an interval text names: a decimal count followed
/// by a one-character unit, surrounding whitespace ignored.
pub open spec fn interval_seconds(s: Seq<char>) -> Option<int> {
    let t = trim(s);
    if t.len() == 0 {
        None
    } else {
        match parsed_u64(t.drop_last()) {
            None => None,
            Some(n) => match unit_seconds(t.last()) {
                Some(m) => Some(n * m),
                None => None,
            },
        }
    }
}

/// The interval texts the parser handles: the last character (after
/// trimming) is ASCII, and the number of seconds fits in 64 bits.
pub open spec fn interval_text_supported(s: Seq<char>) -> bool {
    let t = trim(s);
    &&& (t.len() == 0 || (t.last() as u32) < 128)
    &&& match interval_seconds(s) {
        Some(x) => x <= u64::MAX,
        None => true,
    }
}

/// "90s" / "30m" / "6h" / "1d" → seconds.
pub fn parse_interval(s: &str) -> (r: Option<u64>)
    requires
        interval_text_supported(s@),
    ensures
        match r {
            Some(x) => interval_seconds(s@) == Some(x as int),
            None => interval_seconds(s@) is None,
        },
{
    let t = crate::text::trim_str(s);
    if t.len() == 0 {
        return None;
    }
    let num = slice_chars(&t, 0, t.len() - 1);
    let unit = t[t.len() - 1];
    proof {
        assert(num@ =~= t@.drop_last());
    }
    let n = match parse_u64(&num) {
        Some(n) => n,
        None => return None,
    };
    proof {
        assert(t@.last() == unit);
        assert(interval_seconds(s@) == match unit_seconds(unit) {
            Some(m) => Some(n * m),
            None => None::<int>,
        });
    }
    if unit == 's' {
        Some(n)
    } else if unit == 'm' {
        Some(n * 60)
    } else if unit == 'h' {
        Some(n * 3600)
    } else if unit == 'd' {
        Some(n * 86400)
    } else {
        None
    }
}

/// Whether `parse_interval` handles this text (see
/// `interval_text_supported`).
pub fn interval_text_is_supported(s: &str) -> (b: bool)
    ensures
        b == interval_text_supported(s@),
{
    let t = crate::text::trim_str(s);
    if t.len() == 0 {
        return true;
    }
    if (t[t.len() - 1] as u32) >= 128 {
        return false;
    }
    let num = slice_chars(&t, 0, t.len() - 1);
    let unit = t[t.len() - 1];
    proof {
        assert(num@ =~= t@.drop_last());
    }
    let n = match parse_u64(&num) {
        Some(n) => n,
        None => return true,
    };
    proof {
        assert(t@.last() == unit);
        assert((t@.last() as u32) < 128);
        assert(trim(s@).len() == 0 || (trim(s@).last() as u32) < 128);
        assert(interval_seconds(s@) == match unit_seconds(unit) {
            Some(m) => Some(n * m),
            None => None::<int>,
        });
    }
    if unit == 'm' {
        assert(n <= 307445734561825860 <==> n * 60 <= u64::MAX) by (nonlinear_arith);
        n <= 307445734561825860
    } else if unit == 'h' {
        assert(n <= 5124095576030431 <==> n * 3600 <= u64::MAX) by (nonlinear_arith);
        n <= 5124095576030431
    } else if unit == 'd' {
        assert(n <= 213503982334601 <==> n * 86400 <= u64::MAX) by (nonlinear_arith);
        n <= 213503982334601
    } else {
        true
    }
}

// ---------------------------------------------------------------------------
// Overrides
// ---------------------------------------------------------------------------

#[derive(Debug, Clone, PartialEq, Eq)]
pub enum OverrideAction {
    Asin(String),
    Skip,
}

/// An override action as plain values.
pub enum ActionSpec {
    Asin(Seq<char>),
    Skip,
}

impl OverrideAction {
    pub open spec fn spec(self) -> ActionSpec {
        match self {
            OverrideAction::Asin(a) => ActionSpec::Asin(a@),
            OverrideAction::Skip => ActionSpec::Skip,
        }
    }
}

/// One line of the overrides file: `<ebook_key> = <ASIN>` or
/// `<ebook_key> = skip` (any case); `#` starts a comment. The key is what
/// precedes the last `=`; blank keys or values make the line malformed.
pub open spec fn override_of_line(line: Seq<char>) -> Option<(Seq<char>, ActionSpec)> {
    let l = trim(line.take(find_char(line, '#') as int));
    if l.len() == 0 {
        None
    } else {
        let m = chars_after_last(l, '=');
        if m == l.len() {
            None
        } else {
            let key = trim(l.take(l.len() - m - 1));
            let value = trim(l.skip(l.len() - m));
            if key.len() == 0 || value.len() == 0 {
                None
            } else if eq_ignore_ascii_case(value, "skip"@) {
                Some((key, ActionSpec::Skip))
            } else {
                Some((key, ActionSpec::Asin(value)))
            }
        }
    }
}

/// The overrides a text holds, line by line; malformed lines are skipped.
pub open spec fn overrides_of(text: Seq<char>) -> Seq<(Seq<char>, ActionSpec)> {
    lines(text).filter_map(|l: Seq<char>| override_of_line(l))
}

proof fn lemma_filter_map_no_longer<A, B>(s: Seq<A>, f: spec_fn(A) -> Option<B>)
    ensures
        s.filter_map(f).len() <= s.len(),
    decreases s.len(),
{
    if s.len() > 0 {
        lemma_filter_map_no_longer(s.drop_last(), f);
    }
}

/// The overrides file yields at most one override per line.
pub proof fn lemma_overrides_at_most_lines(text: Seq<char>)
    ensures
        overrides_of(text).len() <= lines(text).len(),
{
    lemma_filter_map_no_longer(lines(text), |l: Seq<char>| override_of_line(l));
}

pub open spec fn overrides_view(v: Seq<(String, OverrideAction)>) -> Seq<(Seq<char>, ActionSpec)> {
    v.map_values(|p: (String, OverrideAction)| (p.0@, p.1.spec()))
}

fn parse_override_line(line: &Vec<char>) -> (r: Option<(String, OverrideAction)>)
    ensures
        match r {
            Some(p) => override_of_line(line@) == Some((p.0@, p.1.spec())),
            None => override_of_line(line@) is None,
        },
{
    let k = find_char_index(line, '#');
    let head = slice_chars(line, 0, k);
    let l = trim_chars(&head);
    if l.len() == 0 {
        return None;
    }
    let m = chars_after_last_index(&l, '=');
    if m == l.len() {
        return None;
    }
    let key = slice_chars(&l, 0, l.len() - m - 1);
    let key = trim_chars(&key);
    let value = slice_chars(&l, l.len() - m, l.len());
    let value = trim_chars(&value);
    proof {
        assert(l@.subrange(0, l@.len() - m - 1) =~= l@.take(l@.len() - m - 1));
        assert(l@.subrange(l@.len() - m, l@.len() as int) =~= l@.skip(l@.len() - m));
    }
    if key.len() == 0 || value.len() == 0 {
        return None;
    }
    let action = if chars_eq_ignore_ascii_case(&value, "skip") {
        OverrideAction::Skip
    } else {
        OverrideAction::Asin(string_of(&value))
    };
    Some((string_of(&key), action))
}

/// One override per line: `<ebook_key> = <ASIN>` or `<ebook_key> = skip`.
/// `#` starts a comment. Malformed lines are ignored.
pub fn parse_overrides(text: &str) -> (r: Vec<(String, OverrideAction)>)
    ensures
        overrides_view(r@) == overrides_of(text@),
{
    let v = chars_of(text);
    let ls = lines_of(&v);
    let ghost f = |l: Seq<char>| override_of_line(l);
    let mut out: Vec<(String, OverrideAction)> = Vec::new();
    let mut i: usize = 0;
    proof {
        assert(views(ls@).take(0) =~= Seq::<Seq<char>>::empty());
        assert(overrides_view(out@) =~= views(ls@).take(0).filter_map(f));
    }
    while i < ls.len()
        invariant
            i <= ls.len(),
            f == (|l: Seq<char>| override_of_line(l)),
            overrides_view(out@) == views(ls@).take(i as int).filter_map(f),
        decreases ls.len() - i,
    {
        let parsed = parse_override_line(&ls[i]);
        proof {
            views(ls@).lemma_filter_map_take_succ(f, i as int);
            assert(views(ls@)[i as int] == ls@[i as int]@);
        }
        match parsed {
            Some(p) => {
                let ghost before = out@;
                out.push(p);
                proof {
                    assert(overrides_view(out@) =~= overrides_view(before) + seq![(p.0@, p.1.spec())]);
                }
            },
            None => {},
        }
        i = i + 1;
    }
    proof {
        assert(views(ls@).take(ls@.len() as int) =~= views(ls@));
    }
    out
}

// ---------------------------------------------------------------------------
// The review report
// ---------------------------------------------------------------------------

pub open spec fn opt_text(o: Option<String>, default: Seq<char>) -> Seq<char> {
    match o {
        Some(s) => s@,
        None => default,
    }
}

/// The paste-ready line that accepts a review candidate.
pub open spec fn accept_line(d: Decision) -> Seq<char> {
    "`"@ + d.ebook_key@ + " = "@ + opt_text(d.asin, "?"@) + "`"@
}

/// The paste-ready line that rejects a review candidate.
pub open spec fn reject_line(d: Decision) -> Seq<char> {
    "`"@ + d.ebook_key@ + " = skip`"@
}

/// A "Needs review" entry: the book, its best candidate with ASIN and the
/// confidence as labelled, and the two override lines.
pub open spec fn review_entry(d: Decision, confidence: Seq<char>) -> Seq<char> {
    "- **"@ + d.ebook_key@ + "**\n  best candidate: "@ + opt_text(d.note, "(unknown candidate)"@)
        + " ["@ + opt_text(d.asin, "?"@) + "] (confidence "@ + confidence + ")\n  accept: "@
        + accept_line(d) + "\n  reject: "@ + reject_line(d) + "\n\n"@
}

/// Whole days until a not-found book is retried (never negative).
pub open spec fn retry_days(d: Decision, now: i64) -> int {
    match d.next_retry {
        Some(t) => if t - now > 0 {
            (t - now) / 86400
        } else {
            0
        },
        None => 0,
    }
}

/// A "Not found" entry: the book, its attempt count and the days to retry.
pub open spec fn not_found_entry(d: Decision, now: i64) -> Seq<char> {
    "- "@ + d.ebook_key@ + " (attempt "@ + signed_decimal(d.attempts as int) + ", retry in "@
        + signed_decimal(retry_days(d, now)) + "d)\n"@
}

/// How many of the first `n` decisions have status `s`.
pub open spec fn count_status(ds: Seq<Decision>, s: DecisionStatus, n: int) -> nat
    decreases n,
{
    if n <= 0 {
        0
    } else {
        count_status(ds, s, n - 1) + if ds[n - 1].status == s {
            1nat
        } else {
            0nat
        }
    }
}

/// The review entries of the ambiguous decisions among the first `n`.
pub open spec fn review_entries(ds: Seq<Decision>, labels: Seq<Seq<char>>, n: int) -> Seq<char>
    decreases n,
{
    if n <= 0 {
        seq![]
    } else {
        review_entries(ds, labels, n - 1) + if ds[n - 1].status == DecisionStatus::Ambiguous {
            review_entry(ds[n - 1], labels[n - 1])
        } else {
            seq![]
        }
    }
}

/// The not-found entries among the first `n` decisions.
pub open spec fn not_found_entries(ds: Seq<Decision>, now: i64, n: int) -> Seq<char>
    decreases n,
{
    if n <= 0 {
        seq![]
    } else {
        not_found_entries(ds, now, n - 1) + if ds[n - 1].status == DecisionStatus::NotFound {
            not_found_entry(ds[n - 1], now)
        } else {
            seq![]
        }
    }
}

pub open spec fn review_header() -> Seq<char> {
    "## Needs review\n\nAccept a match by adding the line to your overrides file; reject with `= skip`.\n\n"@
}

pub open spec fn not_found_header() -> Seq<char> {
    "## Not found\n\nRetried automatically; add an override if you know the ASIN.\n\n"@
}

/// The whole report for decisions `ds`, where `labels[i]` is how the
/// confidence of `ds[i]` is shown.
pub open spec fn report(ds: Seq<Decision>, labels: Seq<Seq<char>>, now: i64) -> Seq<char> {
    let n = ds.len() as int;
    let amb = count_status(ds, DecisionStatus::Ambiguous, n);
    let nf = count_status(ds, DecisionStatus::NotFound, n);
    "# narratarr review report\n\n"@ + decimal(count_status(ds, DecisionStatus::Matched, n))
        + " matched · "@ + decimal(amb) + " needing review · "@ + decimal(nf) + " not found\n\n"@
        + (if amb > 0 {
        review_header() + review_entries(ds, labels, n)
    } else {
        seq![]
    }) + (if nf > 0 {
        not_found_header() + not_found_entries(ds, now, n)
    } else {
        seq![]
    })
}

/// Whether a decision has status `s`.
pub open spec fn has_status(s: DecisionStatus) -> spec_fn(Decision) -> bool {
    |d: Decision| d.status == s
}

proof fn lemma_count_is_filter(ds: Seq<Decision>, s: DecisionStatus, n: int)
    requires
        0 <= n <= ds.len(),
    ensures
        count_status(ds, s, n) == ds.take(n).filter(has_status(s)).len(),
    decreases n,
{
    reveal(Seq::filter);
    if n == 0 {
        assert(ds.take(0) =~= Seq::<Decision>::empty());
    } else {
        lemma_count_is_filter(ds, s, n - 1);
        assert(ds.take(n).drop_last() =~= ds.take(n - 1));
        assert(ds.take(n).last() == ds[n - 1]);
    }
}

/// The report opens with the lane counts: exactly how many decisions are
/// matched, how many are ambiguous (needing review) and how many were not
/// found; skipped decisions are in none of them.
pub proof fn lemma_report_header_counts(ds: Seq<Decision>, labels: Seq<Seq<char>>, now: i64)
    ensures
        ("# narratarr review report\n\n"@ + decimal(
            ds.filter(has_status(DecisionStatus::Matched)).len(),
        ) + " matched · "@ + decimal(ds.filter(has_status(DecisionStatus::Ambiguous)).len())
            + " needing review · "@ + decimal(ds.filter(has_status(DecisionStatus::NotFound)).len())
            + " not found\n\n"@).is_prefix_of(report(ds, labels, now)),
{
    let n = ds.len() as int;
    assert(ds.take(n) =~= ds);
    lemma_count_is_filter(ds, DecisionStatus::Matched, n);
    lemma_count_is_filter(ds, DecisionStatus::Ambiguous, n);
    lemma_count_is_filter(ds, DecisionStatus::NotFound, n);
    let head = "# narratarr review report\n\n"@ + decimal(count_status(ds, DecisionStatus::Matched, n))
        + " matched · "@ + decimal(count_status(ds, DecisionStatus::Ambiguous, n))
        + " needing review · "@ + decimal(count_status(ds, DecisionStatus::NotFound, n))
        + " not found\n\n"@;
    let r = report(ds, labels, now);
    let tail = r.skip(head.len() as int);
    assert(r =~= head + tail);
    assert(head =~= r.subrange(0, head.len() as int));
}

/// Report inputs on which the day arithmetic stays within 64 bits.
pub open spec fn retry_arithmetic_fits(ds: Seq<Decision>, now: i64) -> bool {
    forall|i: int|
        0 <= i < ds.len() && (#[trigger] ds[i]).status == DecisionStatus::NotFound
            && ds[i].next_retry is Some ==> i64::MIN <= ds[i].next_retry->0 - now <= i64::MAX
}

fn opt_chars(o: &Option<String>, default: &str) -> (r: Vec<char>)
    ensures
        r@ == opt_text(*o, default@),
{
    match o {
        Some(s) => chars_of(s.as_str()),
        None => chars_of(default),
    }
}

fn push_review_entry(md: &mut Vec<char>, d: &Decision, confidence: &String)
    ensures
        final(md)@ == old(md)@ + review_entry(*d, confidence@),
{
    let key = chars_of(d.ebook_key.as_str());
    let cand = opt_chars(&d.note, "(unknown candidate)");
    let asin = opt_chars(&d.asin, "?");
    let conf = chars_of(confidence.as_str());
    let ghost m0 = md@;
    push_str(md, "- **");
    push_all(md, &key);
    push_str(md, "**\n  best candidate: ");
    push_all(md, &cand);
    push_str(md, " [");
    push_all(md, &asin);
    push_str(md, "] (confidence ");
    push_all(md, &conf);
    push_str(md, ")\n  accept: ");
    let ghost m1 = md@;
    push_str(md, "`");
    push_all(md, &key);
    push_str(md, " = ");
    push_all(md, &asin);
    push_str(md, "`");
    let ghost m2 = md@;
    push_str(md, "\n  reject: ");
    let ghost m3 = md@;
    push_str(md, "`");
    push_all(md, &key);
    push_str(md, " = skip`");
    let ghost m4 = md@;
    push_str(md, "\n\n");
    proof {
        assert(m2 =~= m1 + accept_line(*d));
        assert(m4 =~= m3 + reject_line(*d));
        assert(md@ =~= m0 + review_entry(*d, confidence@));
    }
}

fn push_not_found_entry(md: &mut Vec<char>, d: &Decision, now: i64)
    requires
        d.next_retry matches Some(t) ==> i64::MIN <= t - now <= i64::MAX,
    ensures
        final(md)@ == old(md)@ + not_found_entry(*d, now),
{
    let key = chars_of(d.ebook_key.as_str());
    let days: i64 = match d.next_retry {
        Some(t) => {
            let diff = t - now;
            if diff > 0 {
                diff / 86400
            } else {
                0
            }
        },
        None => 0,
    };
    let attempts = i64_text(d.attempts);
    let days_text = i64_text(days);
    let ghost m0 = md@;
    push_str(md, "- ");
    push_all(md, &key);
    push_str(md, " (attempt ");
    push_all(md, &attempts);
    push_str(md, ", retry in ");
    push_all(md, &days_text);
    push_str(md, "d)\n");
    proof {
        assert(days == retry_days(*d, now));
        assert(md@ =~= m0 + not_found_entry(*d, now));
    }
}

/// The cycle's human-facing output: what needs review (with ready-to-paste
/// override lines) and what wasn't found. `confidence_labels[i]` is how the
/// confidence of `decisions[i]` is shown (two decimals).
pub fn render_report(decisions: &[Decision], confidence_labels: &[String], now: i64) -> (r: String)
    requires
        confidence_labels@.len() == decisions@.len(),
        retry_arithmetic_fits(decisions@, now),
    ensures
        r@ == report(decisions@, strings_view(confidence_labels@), now),
{
    let ghost ds = decisions@;
    let ghost ls = strings_view(confidence_labels@);
    let n = decisions.len();
    let mut matched: u64 = 0;
    let mut ambiguous: u64 = 0;
    let mut not_found: u64 = 0;
    let mut reviews: Vec<char> = Vec::new();
    let mut misses: Vec<char> = Vec::new();
    let mut i: usize = 0;
    while i < n
        invariant
            i <= n == decisions@.len() == confidence_labels@.len(),
            ds == decisions@,
            ls == strings_view(confidence_labels@),
            retry_arithmetic_fits(ds, now),
            matched == count_status(ds, DecisionStatus::Matched, i as int),
            ambiguous == count_status(ds, DecisionStatus::Ambiguous, i as int),
            not_found == count_status(ds, DecisionStatus::NotFound, i as int),
            matched <= i && ambiguous <= i && not_found <= i,
            reviews@ == review_entries(ds, ls, i as int),
            misses@ == not_found_entries(ds, now, i as int),
        decreases n - i,
    {
        let d = &decisions[i];
        match d.status {
            DecisionStatus::Matched => {
                matched = matched + 1;
            },
            DecisionStatus::Ambiguous => {
                ambiguous = ambiguous + 1;
                push_review_entry(&mut reviews, d, &confidence_labels[i]);
            },
            DecisionStatus::NotFound => {
                not_found = not_found + 1;
                proof {
                    assert(ds[i as int] == *d);
                }
                push_not_found_entry(&mut misses, d, now);
            },
            DecisionStatus::Skipped => {},
        }
        proof {
            assert(ls[i as int] == confidence_labels@[i as int]@);
            assert(reviews@ =~= review_entries(ds, ls, i + 1));
            assert(misses@ =~= not_found_entries(ds, now, i + 1));
        }
        i = i + 1;
    }
    let mut md: Vec<char> = Vec::new();
    push_str(&mut md, "# narratarr review report\n\n");
    let t = u64_text(matched);
    push_all(&mut md, &t);
    push_str(&mut md, " matched · ");
    let t = u64_text(ambiguous);
    push_all(&mut md, &t);
    push_str(&mut md, " needing review · ");
    let t = u64_text(not_found);
    push_all(&mut md, &t);
    push_str(&mut md, " not found\n\n");
    let ghost head = md@;
    if ambiguous > 0 {
        push_str(&mut md, "## Needs review\n\nAccept a match by adding the line to your overrides file; reject with `= skip`.\n\n");
        push_all(&mut md, &reviews);
    }
    let ghost mid = md@;
    if not_found > 0 {
        push_str(&mut md, "## Not found\n\nRetried automatically; add an override if you know the ASIN.\n\n");
        push_all(&mut md, &misses);
    }
    proof {
        if ambiguous > 0 {
            assert(mid =~= head + (review_header() + review_entries(ds, ls, n as int)));
        } else {
            assert(mid =~= head + Seq::<char>::empty());
        }
        if not_found > 0 {
            assert(md@ =~= mid + (not_found_header() + not_found_entries(ds, now, n as int)));
        } else {
            assert(md@ =~= mid + Seq::<char>::empty());
        }
        assert(md@ =~= report(ds, ls, now));
    }
    string_of(&md)
}

proof fn lemma_count_positive(ds: Seq<Decision>, s: DecisionStatus, n: int, i: int)
    requires
        0 <= i < n <= ds.len(),
        ds[i].status == s,
    ensures
        count_status(ds, s, n) > 0,
    decreases n,
{
    if i < n - 1 {
        lemma_count_positive(ds, s, n - 1, i);
    }
}

proof fn lemma_review_entries_contain(ds: Seq<Decision>, ls: Seq<Seq<char>>, n: int, i: int)
    requires
        0 <= i < n <= ds.len(),
        ds[i].status == DecisionStatus::Ambiguous,
    ensures
        contains_text(review_entries(ds, ls, n), review_entry(ds[i], ls[i])),
    decreases n,
{
    let tail = if ds[n - 1].status == DecisionStatus::Ambiguous {
        review_entry(ds[n - 1], ls[n - 1])
    } else {
        seq![]
    };
    lemma_contains_concat(review_entries(ds, ls, n - 1), tail, review_entry(ds[i], ls[i]));
    if i < n - 1 {
        lemma_review_entries_contain(ds, ls, n - 1, i);
    } else {
        lemma_contains_self(review_entry(ds[i], ls[i]));
    }
}

/// Every book awaiting review appears in the report together with a
/// paste-ready override line that accepts its candidate and one that
/// rejects it.
pub proof fn lemma_report_offers_override_lines(
    ds: Seq<Decision>,
    labels: Seq<Seq<char>>,
    now: i64,
    i: int,
)
    requires
        0 <= i < ds.len(),
        ds[i].status == DecisionStatus::Ambiguous,
    ensures
        contains_text(report(ds, labels, now), accept_line(ds[i])),
        contains_text(report(ds, labels, now), reject_line(ds[i])),
{
    let d = ds[i];
    let n = ds.len() as int;
    let e = review_entry(d, labels[i]);
    lemma_count_positive(ds, DecisionStatus::Ambiguous, n, i);
    lemma_review_entries_contain(ds, labels, n, i);
    let pre_accept = "- **"@ + d.ebook_key@ + "**\n  best candidate: "@ + opt_text(
        d.note,
        "(unknown candidate)"@,
    ) + " ["@ + opt_text(d.asin, "?"@) + "] (confidence "@ + labels[i] + ")\n  accept: "@;
    let post_accept = "\n  reject: "@ + reject_line(d) + "\n\n"@;
    assert(e =~= pre_accept + accept_line(d) + post_accept);
    lemma_contains_self(accept_line(d));
    lemma_contains_concat(pre_accept, accept_line(d), accept_line(d));
    lemma_contains_concat(pre_accept + accept_line(d), post_accept, accept_line(d));
    let pre_reject = pre_accept + accept_line(d) + "\n  reject: "@;
    assert(e =~= pre_reject + reject_line(d) + "\n\n"@);
    lemma_contains_self(reject_line(d));
    lemma_contains_concat(pre_reject, reject_line(d), reject_line(d));
    lemma_contains_concat(pre_reject + reject_line(d), "\n\n"@, reject_line(d));
    let entries = review_entries(ds, labels, n);
    lemma_contains_trans(entries, e, accept_line(d));
    lemma_contains_trans(entries, e, reject_line(d));
    let head = "# narratarr review report\n\n"@ + decimal(count_status(ds, DecisionStatus::Matched, n))
        + " matched · "@ + decimal(count_status(ds, DecisionStatus::Ambiguous, n))
        + " needing review · "@ + decimal(count_status(ds, DecisionStatus::NotFound, n))
        + " not found\n\n"@;
    let nf = count_status(ds, DecisionStatus::NotFound, n);
    let tail = if nf > 0 {
        not_found_header() + not_found_entries(ds, now, n)
    } else {
        seq![]
    };
    assert(report(ds, labels, now) =~= head + (review_header() + entries) + tail);
    lemma_contains_concat(review_header(), entries, accept_line(d));
    lemma_contains_concat(review_header(), entries, reject_line(d));
    lemma_contains_concat(head, review_header() + entries, accept_line(d));
    lemma_contains_concat(head, review_header() + entries, reject_line(d));
    lemma_contains_concat(head + (review_header() + entries), tail, accept_line(d));
    lemma_contains_concat(head + (review_header() + entries), tail, reject_line(d));
}

/// A text as the overrides file can carry it: not blank, no surrounding
/// whitespace, and neither `#` nor `=` inside.
pub open spec fn plain_token(t: Seq<char>) -> bool {
    &&& t.len() > 0
    &&& !is_white_space(t[0])
    &&& !is_white_space(t.last())
    &&& !t.contains('#')
    &&& !t.contains('=')
}

proof fn lemma_trim_around(pre: nat, t: Seq<char>, post: nat)
    requires
        t.len() > 0,
        !is_white_space(t[0]),
        !is_white_space(t.last()),
        pre <= 1,
        post <= 1,
    ensures
        trim(
            (if pre == 1 {
                seq![' ']
            } else {
                seq![]
            }) + t + (if post == 1 {
                seq![' ']
            } else {
                seq![]
            }),
        ) == t,
{
    let a: Seq<char> = if pre == 1 {
        seq![' ']
    } else {
        seq![]
    };
    let b: Seq<char> = if post == 1 {
        seq![' ']
    } else {
        seq![]
    };
    let s = a + t + b;
    assert forall|k: int| 0 <= k < pre implies (ws_pred())(#[trigger] s[k]) by {
        assert(s[k] == ' ');
    }
    assert(s[pre as int] == t[0]);
    lemma_prefix_len_while(s, ws_pred(), pre as int);
    let u = s.skip(pre as int);
    assert(u =~= t + b);
    assert forall|k: int| u.len() - post <= k < u.len() implies (ws_pred())(#[trigger] u[k]) by {
        assert(u[k] == ' ');
    }
    assert(u[u.len() - post - 1] == t.last());
    lemma_suffix_len_while(u, ws_pred(), post as int);
    assert(u.take(u.len() - post) =~= t);
}

/// The line `key = value` of an overrides file is read as the override of
/// `key` that `value` names.
proof fn lemma_line_reads_back(key: Seq<char>, value: Seq<char>)
    requires
        plain_token(key),
        plain_token(value),
    ensures
        override_of_line(key + " = "@ + value) == Some(
            (
                key,
                if eq_ignore_ascii_case(value, "skip"@) {
                    ActionSpec::Skip
                } else {
                    ActionSpec::Asin(value)
                },
            ),
        ),
{
    reveal_strlit(" = ");
    let l = key + " = "@ + value;
    let n = l.len();
    assert forall|k: int| 0 <= k < n implies (not_char('#'))(#[trigger] l[k]) by {
        if k < key.len() {
            assert(l[k] == key[k]);
            if key[k] == '#' {
                assert(key.contains('#'));
            }
        } else if k >= key.len() + 3 {
            assert(l[k] == value[k - key.len() - 3]);
            if value[k - key.len() - 3] == '#' {
                assert(value.contains('#'));
            }
        }
    }
    lemma_prefix_len_while(l, not_char('#'), n as int);
    assert(l.take(n as int) =~= l);
    assert(l =~= seq![] + l + seq![]);
    assert(l[0] == key[0]);
    assert(l.last() == value.last());
    lemma_trim_around(0, l, 0);
    let m = value.len() + 1;
    assert forall|k: int| n - m <= k < n implies (not_char('='))(#[trigger] l[k]) by {
        if k >= key.len() + 3 {
            assert(l[k] == value[k - key.len() - 3]);
            if value[k - key.len() - 3] == '=' {
                assert(value.contains('='));
            }
        }
    }
    assert(l[n - m - 1] == '=');
    lemma_suffix_len_while(l, not_char('='), m as int);
    assert(l.take(n - m - 1) =~= seq![] + key + seq![' ']);
    lemma_trim_around(0, key, 1);
    assert(l.skip(n - m) =~= seq![' '] + value + seq![]);
    lemma_trim_around(1, value, 0);
}

/// The override lines a review report offers for a book, pasted into the
/// overrides file (the text between the backticks), are read back as the
/// overrides they offer: the book's key with its candidate's ASIN, or a
/// skip.
pub proof fn lemma_offered_lines_read_back(d: Decision)
    requires
        plain_token(d.ebook_key@),
        d.asin matches Some(a) && plain_token(a@) && !eq_ignore_ascii_case(a@, "skip"@),
    ensures
        accept_line(d) == "`"@ + (d.ebook_key@ + " = "@ + d.asin->0@) + "`"@,
        override_of_line(d.ebook_key@ + " = "@ + d.asin->0@) == Some(
            (d.ebook_key@, ActionSpec::Asin(d.asin->0@)),
        ),
        reject_line(d) == "`"@ + (d.ebook_key@ + " = skip"@) + "`"@,
        override_of_line(d.ebook_key@ + " = skip"@) == Some((d.ebook_key@, ActionSpec::Skip)),
{
    reveal_strlit("skip");
    reveal_strlit(" = ");
    reveal_strlit(" = skip");
    lemma_line_reads_back(d.ebook_key@, d.asin->0@);
    let skip = "skip"@;
    assert(!skip.contains('#')) by {
        if skip.contains('#') {
            let k = choose|k: int| 0 <= k < skip.len() && skip[k] == '#';
        }
    }
    assert(!skip.contains('=')) by {
        if skip.contains('=') {
            let k = choose|k: int| 0 <= k < skip.len() && skip[k] == '=';
        }
    }
    lemma_line_reads_back(d.ebook_key@, skip);
    assert(" = skip"@ =~= " = "@ + skip);
    assert(d.ebook_key@ + " = skip"@ =~= d.ebook_key@ + " = "@ + skip);
    assert(eq_ignore_ascii_case(skip, "skip"@));
    reveal_strlit("`");
    reveal_strlit(" = skip`");
    assert(reject_line(d) =~= "`"@ + (d.ebook_key@ + " = skip"@) + "`"@);
}

} // verus!
