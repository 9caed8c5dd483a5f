//! Matching logic: the title and author normalizers, and the decisions that
//! turn a scored candidate list into a verdict. No I/O, no state.
//!
//! The similarity ratios themselves (and the weighted totals built from them)
//! are floating-point arithmetic and are computed by the program around this
//! library; everything they are computed *from* and every decision taken on
//! them is here.

use vstd::prelude::*;

use crate::pattern::{
    capture_group, captured, found, matches_somewhere, replace_all_matches, replace_first_match,
    rewrite_all, rewrite_first,
};
use crate::text::{
    chars_eq, lemma_trim_shape, not_char, pieces, chars_eq_str, chars_of, contains_char, contains_chars, eq_char, find_char,
    find_char_from, not_alphanumeric_pred, push_all, replace_char, slice_chars, string_of,
    strings_view, strip_char, strip_non_alphanumeric, strip_while, to_lowercase, trim, trim_chars,
    trim_str, trimmed_parts, trimmed_parts_of, unicode_lowercase, views, words, words_of,
};

verus! {

// ---------------------------------------------------------------------------
// The patterns
// ---------------------------------------------------------------------------

/// Candidate titles matching this are derivative junk, not the book.
pub const JUNK: &'static str = r"(?ix)\b(
            summary\s+(?:of|and\s+analysis)|
            workbook\s+for|
            study\s+guide|
            key\s+takeaways|
            analysis\s+of|
            conversation\s+starters|
            trivia|
            in\s+\d+\s+minutes
        )\b";

/// Dramatized adaptations are a different work, not a narration of the book.
/// (Deliberately does NOT match "full cast": full-cast unabridged narrations
/// are legitimate editions.)
pub const DRAMATIZED: &'static str = r"(?i)\b(dramati[sz]ed|dramati[sz]ation|graphic\s*audio|audio\s+drama)\b";

/// "Cline, Ernest - Armada": an author name embedded at the front of the title.
pub const AUTHOR_PREFIX_IN_TITLE: &'static str = r"^[A-Z][\w']+,\s+[A-Z][\w.' ]*?\s+-\s+";

/// "The Lord of the Rings #01 - The Fellowship of the Ring": keep what follows.
pub const SERIES_INDEX_HASH: &'static str = r"#\d+\s*-\s*(.+)$";

/// "Mistborn 06 - The Bands of Mourning": a leading series-and-number segment.
pub const SERIES_NUMBER_PREFIX: &'static str = r"^[A-Za-z][\w:' ]*?\s\d{1,2}\s+-\s+";

/// Bracketed duplicates, "& site.com" tags and credentials in author fields.
pub const AUTHOR_NOISE: &'static str = r"(?ix)(
            \[.*?\]|
            &\s*\S*\.(?:com|net|org)\S*|
            \b(?:phd|md|esq|jr|sr|iii?)\b\.?
        )";

/// "Alloy of Law, The": a trailing, comma-separated article.
pub const ARTICLE_SUFFIX: &'static str = r"(?i),\s*(the|a|an)$";

/// "(2010)": a trailing year tag.
pub const YEAR_SUFFIX: &'static str = r"\s*\(\d{4}\)\s*$";

/// "a mistborn novel", "book 3", "#2": series hints inside a title.
pub const SERIES_HINT: &'static str = r"(?i)(\ba\s+.{2,40}?\s+novel\b|\bbook\s+\d+\b|#\d+)";

/// Any character that is neither a word character, whitespace nor a colon.
pub const NON_WORD_KEEP_COLON: &'static str = r"[^\w\s:]";

/// Any character that is neither a word character nor whitespace.
pub const NON_WORD: &'static str = r"[^\w\s]";

/// A run of whitespace.
pub const SPACES: &'static str = r"\s+";

/// "(wow-4)": a trailing parenthesised tag.
pub const PAREN_TAIL: &'static str = r"\s*\([^)]*\)\s*$";

// ---------------------------------------------------------------------------
// The data
// ---------------------------------------------------------------------------

#[derive(Debug, Clone, Default)]
pub struct Ebook {
    pub title: String,
    pub author: String,
    pub language: Option<String>,
}

#[derive(Debug, Clone, Default)]
pub struct Candidate {
    pub asin: Option<String>,
    pub title: String,
    pub subtitle: Option<String>,
    pub authors: Vec<String>,
    pub narrators: Vec<String>,
    pub format_type: Option<String>,
    pub language: Option<String>,
    pub runtime_min: Option<i64>,
    pub image_url: Option<String>,
}

#[derive(Debug, Clone, Copy, PartialEq, Eq, Structural)]
pub enum Status {
    Matched,
    Ambiguous,
    NotFound,
}

// ---------------------------------------------------------------------------
// Normalizers
// ---------------------------------------------------------------------------

/// Trimmed, with every whitespace run replaced by one space.
pub open spec fn squeezed(s: Seq<char>) -> Seq<char> {
    rewrite_all(SPACES@, trim(s), " "@)
}

fn squeeze(s: &str) -> (r: String)
    ensures
        r@ == squeezed(s@),
{
    let t = trim_str(s);
    let t = string_of(&t);
    replace_all_matches(SPACES, &t, " ")
}

/// `_` turned back into the colon that file names cannot hold.
pub open spec fn underscores_to_colons(s: Seq<char>) -> Seq<char> {
    s.map_values(|x: char| if x == '_' { ':' } else { x })
}

fn underscores_to_colons_str(s: &str) -> (r: String)
    ensures
        r@ == underscores_to_colons(s@),
{
    let v = chars_of(s);
    let v = replace_char(&v, '_', ':');
    string_of(&v)
}

/// The title with a trailing "(YYYY)" and a trailing ", The" removed.
pub open spec fn without_year_and_article(t: Seq<char>) -> Seq<char> {
    rewrite_first(ARTICLE_SUFFIX@, rewrite_first(YEAR_SUFFIX@, t, ""@), ""@)
}

/// Lowercased title with articles, years, punctuation and filename artifacts removed.
pub open spec fn normalized_title(raw: Seq<char>) -> Seq<char> {
    let t = without_year_and_article(trim(raw));
    let t = unicode_lowercase(underscores_to_colons(t));
    squeezed(rewrite_all(NON_WORD_KEEP_COLON@, t, " "@))
}

/// Lowercased title with articles, years, punctuation and filename artifacts removed.
pub fn normalize_title(raw: &str) -> (r: String)
    ensures
        r@ == normalized_title(raw@),
{
    let t = trim_str(raw);
    let t = string_of(&t);
    let t = replace_first_match(YEAR_SUFFIX, &t, "");
    let t = replace_first_match(ARTICLE_SUFFIX, &t, "");
    let t = underscores_to_colons_str(&t);
    let t = to_lowercase(&t);
    let t = replace_all_matches(NON_WORD_KEEP_COLON, &t, " ");
    squeeze(&t)
}

/// The part of a normalized title before any subtitle, series hints removed;
/// the whole title when nothing would be left.
pub open spec fn base_title_of(normalized: Seq<char>) -> Seq<char> {
    let head = trim(normalized.take(find_char(normalized, ':') as int));
    let head = squeezed(rewrite_all(SERIES_HINT@, head, ""@));
    if head.len() == 0 {
        normalized
    } else {
        head
    }
}

/// The part before any subtitle: "alloy of law: a mistborn novel" -> "alloy of law".
pub fn base_title(normalized: &str) -> (r: String)
    ensures
        r@ == base_title_of(normalized@),
{
    let v = chars_of(normalized);
    let k = find_char_from(&v, 0, ':');
    proof {
        assert(v@.skip(0) =~= v@);
    }
    let head = slice_chars(&v, 0, k);
    let head = trim_chars(&head);
    let head = string_of(&head);
    let head = replace_all_matches(SERIES_HINT, &head, "");
    let head = squeeze(&head);
    if head.as_str().is_empty() {
        proof {
            assert(head@.len() == 0);
        }
        normalized.to_owned()
    } else {
        proof {
            assert(head@.len() != 0);
        }
        head
    }
}

/// A search-query form of a title: filename artifacts fixed, punctuation
/// kept, subtitle and trailing tags dropped; the trimmed input when nothing
/// would be left.
pub open spec fn query_title_of(raw: Seq<char>) -> Seq<char> {
    let t = underscores_to_colons(without_year_and_article(trim(raw)));
    let t = trim(t.take(find_char(t, ':') as int));
    let t = trim(rewrite_first(PAREN_TAIL@, t, ""@));
    if t.len() == 0 {
        trim(raw)
    } else {
        t
    }
}

/// Light cleanup for a SEARCH QUERY: fix filename artifacts but keep
/// punctuation — search engines want "Abaddon's Gate", not "abaddon s gate".
pub fn query_title(raw: &str) -> (r: String)
    ensures
        r@ == query_title_of(raw@),
{
    let t0 = trim_str(raw);
    let t = string_of(&t0);
    let t = replace_first_match(YEAR_SUFFIX, &t, "");
    let t = replace_first_match(ARTICLE_SUFFIX, &t, "");
    let v = chars_of(&t);
    let v = replace_char(&v, '_', ':');
    let k = find_char_from(&v, 0, ':');
    proof {
        assert(v@.skip(0) =~= v@);
    }
    let head = slice_chars(&v, 0, k);
    let head = trim_chars(&head);
    let head = string_of(&head);
    let t = replace_first_match(PAREN_TAIL, &head, "");
    let t = trim_str(&t);
    if t.len() == 0 {
        string_of(&t0)
    } else {
        string_of(&t)
    }
}

/// A title with filename-style junk removed: a leading "Last, First - ",
/// everything up to "#NN - ", and a leading "Series NN - "; the trimmed input
/// when nothing would be left.
pub open spec fn precleaned_title(raw: Seq<char>) -> Seq<char> {
    let t = rewrite_first(AUTHOR_PREFIX_IN_TITLE@, trim(raw), ""@);
    let t = match captured(SERIES_INDEX_HASH@, t, 1) {
        Some(rest) => rest,
        None => t,
    };
    let t = trim(rewrite_first(SERIES_NUMBER_PREFIX@, t, ""@));
    if t.len() == 0 {
        trim(raw)
    } else {
        t
    }
}

/// Filename-style junk some libraries embed in the TITLE field itself.
/// Applied once at ingestion, so scoring and querying both see the cleaned
/// title.
pub fn preclean_title(raw: &str) -> (r: String)
    ensures
        r@ == precleaned_title(raw@),
{
    let t0 = trim_str(raw);
    let t = string_of(&t0);
    let t = replace_first_match(AUTHOR_PREFIX_IN_TITLE, &t, "");
    let t = match capture_group(SERIES_INDEX_HASH, &t, 1) {
        Some(rest) => rest,
        None => t,
    };
    let t = replace_first_match(SERIES_NUMBER_PREFIX, &t, "");
    let t = trim_str(&t);
    if t.len() == 0 {
        string_of(&t0)
    } else {
        string_of(&t)
    }
}

/// The first non-empty trimmed entry of a `;`-separated list ("" when none).
pub open spec fn first_listed(s: Seq<char>) -> Seq<char>
    decreases s.len(),
{
    let k = find_char(s, ';');
    let seg = trim(s.take(k as int));
    if seg.len() > 0 {
        seg
    } else if k < s.len() {
        first_listed(s.skip(k + 1 as int))
    } else {
        seq![]
    }
}

/// The first listed author holds no `;` and no surrounding whitespace; it
/// is empty exactly when every `;`-separated entry is blank, and otherwise
/// it is the first entry that is not blank, trimmed.
pub proof fn lemma_first_listed_shape(s: Seq<char>)
    ensures
        !first_listed(s).contains(';'),
        trim(first_listed(s)) == first_listed(s),
        first_listed(s).len() == 0 <==> forall|i: int|
            0 <= i < pieces(s, ';').len() ==> trim(#[trigger] pieces(s, ';')[i]).len() == 0,
        first_listed(s).len() > 0 ==> exists|i: int|
            0 <= i < pieces(s, ';').len() && first_listed(s) == trim(pieces(s, ';')[i])
                && forall|j: int| 0 <= j < i ==> trim(#[trigger] pieces(s, ';')[j]).len() == 0,
    decreases s.len(),
{
    let k = find_char(s, ';');
    crate::text::lemma_prefix_len_while_bound(s, not_char(';'));
    let seg = s.take(k as int);
    let ps = pieces(s, ';');
    lemma_trim_shape(seg);
    lemma_trim_shape(seq![]);
    assert(!seg.contains(';')) by {
        if seg.contains(';') {
            let x = choose|x: int| 0 <= x < seg.len() && seg[x] == ';';
            assert((not_char(';'))(s[x]));
        }
    }
    if k == s.len() {
        assert(seg =~= s);
    }
    assert(ps[0] == seg);
    if trim(seg).len() > 0 {
        assert(first_listed(s) == trim(seg));
        assert(!(trim(ps[0]).len() == 0));
    } else if k < s.len() {
        let rest = s.skip(k + 1 as int);
        lemma_first_listed_shape(rest);
        let pr = pieces(rest, ';');
        assert(ps =~= seq![seg] + pr);
        assert(first_listed(s) == first_listed(rest));
        if first_listed(rest).len() > 0 {
            let i0 = choose|i: int|
                0 <= i < pr.len() && first_listed(rest) == trim(pr[i]) && forall|j: int|
                    0 <= j < i ==> trim(#[trigger] pr[j]).len() == 0;
            assert(ps[i0 + 1] == pr[i0]);
            assert forall|j: int| 0 <= j < i0 + 1 implies trim(#[trigger] ps[j]).len() == 0 by {
                if j > 0 {
                    assert(ps[j] == pr[j - 1]);
                }
            }
            assert(!(trim(ps[i0 + 1]).len() == 0));
        } else {
            assert forall|i: int| 0 <= i < ps.len() implies trim(#[trigger] ps[i]).len() == 0 by {
                if i > 0 {
                    assert(ps[i] == pr[i - 1]);
                }
            }
        }
    } else {
        assert(ps == seq![s]);
        assert(first_listed(s) == Seq::<char>::empty());
    }
}

/// First author of a possibly semicolon-separated list: "A;B;C" -> "A".
pub fn primary_author(raw: &str) -> (r: String)
    ensures
        r@ == first_listed(raw@),
{
    let v = chars_of(raw);
    let n = v.len();
    let mut start: usize = 0;
    proof {
        assert(v@.skip(0) =~= v@);
    }
    loop
        invariant
            start <= n == v.len(),
            v@ == raw@,
            first_listed(v@) == first_listed(v@.skip(start as int)),
        decreases n - start,
    {
        let k = find_char_from(&v, start, ';');
        let seg = slice_chars(&v, start, k);
        let seg = trim_chars(&seg);
        let ghost s = v@.skip(start as int);
        proof {
            assert(s.take(k - start) =~= v@.subrange(start as int, k as int));
            if k < n {
                assert(s.skip(k - start + 1) =~= v@.skip(k + 1));
            }
        }
        if seg.len() > 0 {
            return string_of(&seg);
        }
        if k == n {
            return String::new();
        }
        start = k + 1;
    }
}

/// "Last, First" turned into "First Last" when the text splits on commas
/// into exactly two non-empty parts and the first has no space.
pub open spec fn unreversed(a: Seq<char>) -> Seq<char> {
    let parts = trimmed_parts(a, ',');
    if parts.len() == 2 && !parts[0].contains(' ') {
        parts[1] + seq![' '] + parts[0]
    } else {
        a
    }
}

/// Normalized author: first listed author, credentials and site tags
/// removed, "Last, First" reordered, lowercased, punctuation removed.
pub open spec fn normalized_author(raw: Seq<char>) -> Seq<char> {
    let a = rewrite_all(AUTHOR_NOISE@, first_listed(raw), " "@);
    let a = trim(strip_while(trim(a), eq_char('&')));
    let a = unicode_lowercase(unreversed(a));
    squeezed(rewrite_all(NON_WORD@, a, " "@))
}

/// "Bryson, Bill" -> "bill bryson"; strips credentials and bracket/site junk.
pub fn normalize_author(raw: &str) -> (r: String)
    ensures
        r@ == normalized_author(raw@),
{
    let p = primary_author(raw);
    let a = replace_all_matches(AUTHOR_NOISE, &p, " ");
    let a = trim_str(&a);
    let a = strip_char(&a, '&');
    let a = trim_chars(&a);
    let parts = trimmed_parts_of(&a, ',');
    let a = if parts.len() == 2 && !contains_char(&parts[0], ' ') {
        let mut out: Vec<char> = Vec::new();
        push_all(&mut out, &parts[1]);
        out.push(' ');
        push_all(&mut out, &parts[0]);
        proof {
            assert(parts@[0]@ == views(parts@)[0]);
            assert(parts@[1]@ == views(parts@)[1]);
        }
        out
    } else {
        proof {
            if views(parts@).len() == 2 {
                assert(parts@[0]@ == views(parts@)[0]);
            }
        }
        a
    };
    let a = string_of(&a);
    assert(a@ == unreversed(
        trim(strip_while(trim(rewrite_all(AUTHOR_NOISE@, first_listed(raw@), " "@)), eq_char('&'))),
    ));
    let a = to_lowercase(&a);
    let a = replace_all_matches(NON_WORD, &a, " ");
    squeeze(&a)
}

// ---------------------------------------------------------------------------
// Content words
// ---------------------------------------------------------------------------

/// Words that carry no identity.
pub open spec fn is_stopword(w: Seq<char>) -> bool {
    w == "the"@ || w == "a"@ || w == "an"@ || w == "of"@ || w == "and"@ || w == "in"@ || w
        == "on"@ || w == "at"@ || w == "to"@ || w == "for"@ || w == "with"@ || w == "s"@
}

/// Words that describe an EDITION rather than identify a work. A candidate
/// differing only by these is the same book repackaged, not a different book.
pub open spec fn is_edition_word(w: Seq<char>) -> bool {
    w == "edition"@ || w == "revised"@ || w == "updated"@ || w == "expanded"@ || w
        == "anniversary"@ || w == "complete"@ || w == "unabridged"@ || w == "new"@ || w
        == "special"@
}

pub open spec fn is_ascii_digit(c: char) -> bool {
    '0' <= c && c <= '9'
}

/// "10th", "2nd", "15th": edition ordinals.
pub open spec fn is_ordinal_word(w: Seq<char>) -> bool {
    &&& w.len() > 0
    &&& is_ascii_digit(w[0])
    &&& ("st"@.is_suffix_of(w) || "nd"@.is_suffix_of(w) || "rd"@.is_suffix_of(w)
        || "th"@.is_suffix_of(w))
}

/// A word that identifies the work.
pub open spec fn is_content_word(w: Seq<char>) -> bool {
    w.len() > 0 && !is_stopword(w) && !is_edition_word(w) && !is_ordinal_word(w)
}

/// A word with its leading and trailing non-alphanumeric characters removed.
pub open spec fn word_core(w: Seq<char>) -> Seq<char> {
    strip_while(w, not_alphanumeric_pred())
}

/// The content words among `ws`, in order (cores of the words).
pub open spec fn content_words_in(ws: Seq<Seq<char>>) -> Seq<Seq<char>>
    decreases ws.len(),
{
    if ws.len() == 0 {
        seq![]
    } else {
        let w = word_core(ws[0]);
        let rest = content_words_in(ws.drop_first());
        if is_content_word(w) {
            seq![w] + rest
        } else {
            rest
        }
    }
}

/// The content words of a text.
pub open spec fn content_words_of(s: Seq<char>) -> Seq<Seq<char>> {
    content_words_in(words(s))
}

fn is_one_of(w: &Vec<char>, list: &[&str]) -> (b: bool)
    ensures
        b == exists|k: int| 0 <= k < list@.len() && w@ == list@[k]@,
{
    let mut i: usize = 0;
    while i < list.len()
        invariant
            i <= list@.len(),
            forall|k: int| 0 <= k < i ==> w@ != list@[k]@,
        decreases list.len() - i,
    {
        if chars_eq_str(w, list[i]) {
            return true;
        }
        i = i + 1;
    }
    false
}

fn is_stopword_chars(w: &Vec<char>) -> (b: bool)
    ensures
        b == is_stopword(w@),
{
    let list: [&str; 12] = ["the", "a", "an", "of", "and", "in", "on", "at", "to", "for", "with", "s"];
    let b = is_one_of(w, &list);
    proof {
        if is_stopword(w@) {
            if w@ == "the"@ { assert(w@ == list@[0]@); }
            if w@ == "a"@ { assert(w@ == list@[1]@); }
            if w@ == "an"@ { assert(w@ == list@[2]@); }
            if w@ == "of"@ { assert(w@ == list@[3]@); }
            if w@ == "and"@ { assert(w@ == list@[4]@); }
            if w@ == "in"@ { assert(w@ == list@[5]@); }
            if w@ == "on"@ { assert(w@ == list@[6]@); }
            if w@ == "at"@ { assert(w@ == list@[7]@); }
            if w@ == "to"@ { assert(w@ == list@[8]@); }
            if w@ == "for"@ { assert(w@ == list@[9]@); }
            if w@ == "with"@ { assert(w@ == list@[10]@); }
            if w@ == "s"@ { assert(w@ == list@[11]@); }
        }
    }
    b
}

fn is_edition_word_chars(w: &Vec<char>) -> (b: bool)
    ensures
        b == is_edition_word(w@),
{
    let list: [&str; 9] = [
        "edition",
        "revised",
        "updated",
        "expanded",
        "anniversary",
        "complete",
        "unabridged",
        "new",
        "special",
    ];
    let b = is_one_of(w, &list);
    proof {
        if is_edition_word(w@) {
            if w@ == "edition"@ { assert(w@ == list@[0]@); }
            if w@ == "revised"@ { assert(w@ == list@[1]@); }
            if w@ == "updated"@ { assert(w@ == list@[2]@); }
            if w@ == "expanded"@ { assert(w@ == list@[3]@); }
            if w@ == "anniversary"@ { assert(w@ == list@[4]@); }
            if w@ == "complete"@ { assert(w@ == list@[5]@); }
            if w@ == "unabridged"@ { assert(w@ == list@[6]@); }
            if w@ == "new"@ { assert(w@ == list@[7]@); }
            if w@ == "special"@ { assert(w@ == list@[8]@); }
        }
    }
    b
}

fn ends_with_pair(w: &Vec<char>, a: char, b: char) -> (r: bool)
    ensures
        r == seq![a, b].is_suffix_of(w@),
{
    let n = w.len();
    if n < 2 {
        return false;
    }
    let r = w[n - 2] == a && w[n - 1] == b;
    proof {
        if r {
            assert(w@.subrange(n - 2, n as int) =~= seq![a, b]);
        } else {
            assert(w@.subrange(n - 2, n as int)[0] == w@[n - 2]);
            assert(w@.subrange(n - 2, n as int)[1] == w@[n - 1]);
        }
    }
    r
}

/// "10th", "2nd", "15th": edition ordinals.
fn is_ordinal(w: &Vec<char>) -> (b: bool)
    ensures
        b == is_ordinal_word(w@),
{
    proof {
        reveal_strlit("st");
        reveal_strlit("nd");
        reveal_strlit("rd");
        reveal_strlit("th");
        assert("st"@ =~= seq!['s', 't']);
        assert("nd"@ =~= seq!['n', 'd']);
        assert("rd"@ =~= seq!['r', 'd']);
        assert("th"@ =~= seq!['t', 'h']);
    }
    w.len() > 0 && '0' <= w[0] && w[0] <= '9' && (ends_with_pair(w, 's', 't') || ends_with_pair(
        w,
        'n',
        'd',
    ) || ends_with_pair(w, 'r', 'd') || ends_with_pair(w, 't', 'h'))
}

fn is_content(w: &Vec<char>) -> (b: bool)
    ensures
        b == is_content_word(w@),
{
    w.len() > 0 && !is_stopword_chars(w) && !is_edition_word_chars(w) && !is_ordinal(w)
}

/// The content words of `s`, in order of appearance.
pub fn content_words(s: &str) -> (r: Vec<Vec<char>>)
    ensures
        views(r@) == content_words_of(s@),
{
    let v = chars_of(s);
    let ws = words_of(&v);
    let mut out: Vec<Vec<char>> = Vec::new();
    let mut i: usize = 0;
    proof {
        assert(views(ws@).skip(0) =~= views(ws@));
        assert(views(out@) + content_words_in(views(ws@).skip(0)) =~= content_words_in(views(ws@)));
    }
    while i < ws.len()
        invariant
            i <= ws.len(),
            content_words_in(views(ws@)) == views(out@) + content_words_in(views(ws@).skip(i as int)),
        decreases ws.len() - i,
    {
        let w = strip_non_alphanumeric(&ws[i]);
        let ghost rest = views(ws@).skip(i as int);
        proof {
            assert(rest[0] == ws@[i as int]@);
            assert(rest.drop_first() =~= views(ws@).skip(i + 1));
        }
        if is_content(&w) {
            let ghost before = out@;
            out.push(w);
            proof {
                assert(views(out@) =~= views(before) + seq![w@]);
                assert(views(out@) + content_words_in(views(ws@).skip(i + 1)) =~= views(before)
                    + (seq![w@] + content_words_in(views(ws@).skip(i + 1))));
            }
        }
        i = i + 1;
    }
    proof {
        assert(views(ws@).skip(ws@.len() as int) =~= Seq::<Seq<char>>::empty());
        assert(views(out@) + Seq::<Seq<char>>::empty() =~= views(out@));
    }
    out
}

/// Every element of `a` occurs in `b`.
pub open spec fn all_within(a: Seq<Seq<char>>, b: Seq<Seq<char>>) -> bool {
    forall|w: Seq<char>| a.contains(w) ==> b.contains(w)
}

fn all_within_exec(a: &Vec<Vec<char>>, b: &Vec<Vec<char>>) -> (r: bool)
    ensures
        r == all_within(views(a@), views(b@)),
{
    let mut i: usize = 0;
    while i < a.len()
        invariant
            i <= a.len(),
            forall|k: int| 0 <= k < i ==> views(b@).contains(#[trigger] a@[k]@),
        decreases a.len() - i,
    {
        if !contains_chars(b, &a[i]) {
            proof {
                assert(views(a@)[i as int] == a@[i as int]@);
            }
            return false;
        }
        i = i + 1;
    }
    proof {
        assert forall|w: Seq<char>| views(a@).contains(w) implies views(b@).contains(w) by {
            let k = choose|k: int| 0 <= k < views(a@).len() && views(a@)[k] == w;
            assert(views(a@)[k] == a@[k]@);
        }
    }
    true
}

/// Two base titles name the same work: they are equal and non-empty, or
/// they have the same non-empty set of content words ("Start with Why" vs
/// "Start with Why 15th Anniversary Edition").
pub open spec fn same_work(e_base: Seq<char>, c_base: Seq<char>) -> bool {
    ||| (e_base.len() > 0 && e_base == c_base)
    ||| (content_words_of(e_base).len() > 0 && all_within(
        content_words_of(e_base),
        content_words_of(c_base),
    ) && all_within(content_words_of(c_base), content_words_of(e_base)))
}

pub fn same_work_exec(e_base: &str, c_base: &str) -> (b: bool)
    ensures
        b == same_work(e_base@, c_base@),
{
    let ev = chars_of(e_base);
    let cv = chars_of(c_base);
    if ev.len() > 0 && chars_eq(&ev, &cv) {
        return true;
    }
    let ew = content_words(e_base);
    let cw = content_words(c_base);
    ew.len() > 0 && all_within_exec(&ew, &cw) && all_within_exec(&cw, &ew)
}

/// The candidate's base title carries content words that the ebook's full
/// title lacks ("The Effective HIRING Manager").
pub open spec fn has_extra_words(cand_base: Seq<char>, ebook_full: Seq<char>) -> bool {
    !all_within(content_words_of(cand_base), content_words_of(ebook_full))
}

// ---------------------------------------------------------------------------
// What the similarity scores are computed from
// ---------------------------------------------------------------------------

/// The normalized forms a title comparison works on.
pub struct TitleForms {
    /// Normalized ebook title.
    pub ebook_full: String,
    /// Normalized candidate title, with its subtitle when it has one.
    pub candidate_full: String,
    /// Base title of the ebook.
    pub ebook_base: String,
    /// Base title of the candidate (without its subtitle).
    pub candidate_base: String,
    /// The two base titles name the same work.
    pub same_base: bool,
}

/// The candidate's displayed title: "title: subtitle" when there is a
/// non-empty subtitle.
pub open spec fn titled(title: Seq<char>, subtitle: Option<Seq<char>>) -> Seq<char> {
    match subtitle {
        Some(sub) => if sub.len() > 0 {
            title + ": "@ + sub
        } else {
            title
        },
        None => title,
    }
}

pub open spec fn opt_view(o: Option<&str>) -> Option<Seq<char>> {
    match o {
        Some(s) => Some(s@),
        None => None,
    }
}

fn joined(a: &str, sep: &str, b: &str) -> (r: String)
    ensures
        r@ == a@ + sep@ + b@,
{
    let mut v = chars_of(a);
    crate::text::push_str(&mut v, sep);
    crate::text::push_str(&mut v, b);
    string_of(&v)
}

/// Everything a title similarity is computed from, for an ebook title and a
/// candidate's title and subtitle.
pub fn title_forms(ebook_title: &str, cand_title: &str, cand_subtitle: Option<&str>) -> (r:
    TitleForms)
    ensures
        r.ebook_full@ == normalized_title(ebook_title@),
        r.candidate_full@ == normalized_title(titled(cand_title@, opt_view(cand_subtitle))),
        r.ebook_base@ == base_title_of(normalized_title(ebook_title@)),
        r.candidate_base@ == base_title_of(normalized_title(cand_title@)),
        r.same_base == same_work(r.ebook_base@, r.candidate_base@),
{
    let ebook_full = normalize_title(ebook_title);
    let candidate_full = match cand_subtitle {
        Some(sub) => if !sub.is_empty() {
            let t = joined(cand_title, ": ", sub);
            normalize_title(&t)
        } else {
            normalize_title(cand_title)
        },
        None => normalize_title(cand_title),
    };
    let ebook_base = base_title(&ebook_full);
    let cand_norm = normalize_title(cand_title);
    let candidate_base = base_title(&cand_norm);
    let same_base = same_work_exec(&ebook_base, &candidate_base);
    TitleForms { ebook_full, candidate_full, ebook_base, candidate_base, same_base }
}

/// One credited author, normalized, and whether its surname (last word)
/// agrees with the ebook author's.
pub struct CreditedAuthor {
    pub name: String,
    pub same_surname: bool,
}

/// The normalized forms an author comparison works on.
pub struct AuthorForms {
    /// Normalized ebook author.
    pub ebook: String,
    /// The candidate's credited authors that do not normalize to nothing.
    pub credited: Vec<CreditedAuthor>,
}

/// The last word of a text ("" when it has none).
pub open spec fn last_word(s: Seq<char>) -> Seq<char> {
    if words(s).len() > 0 {
        words(s).last()
    } else {
        seq![]
    }
}

/// The normalized, non-empty credited authors with their surname agreement.
pub open spec fn credited_authors(e: Seq<char>, raws: Seq<Seq<char>>) -> Seq<(Seq<char>, bool)>
    decreases raws.len(),
{
    if raws.len() == 0 {
        seq![]
    } else {
        let c = normalized_author(raws[0]);
        let rest = credited_authors(e, raws.drop_first());
        if c.len() > 0 {
            seq![(c, words(c).len() > 0 && words(c).last() == last_word(e))] + rest
        } else {
            rest
        }
    }
}

pub open spec fn credited_view(v: Seq<CreditedAuthor>) -> Seq<(Seq<char>, bool)> {
    v.map_values(|a: CreditedAuthor| (a.name@, a.same_surname))
}

fn last_word_exec(v: &Vec<char>) -> (r: Vec<char>)
    ensures
        r@ == last_word(v@),
{
    let ws = words_of(v);
    if ws.len() > 0 {
        let r = slice_chars(&ws[ws.len() - 1], 0, ws[ws.len() - 1].len());
        proof {
            assert(r@ =~= views(ws@).last());
        }
        r
    } else {
        Vec::new()
    }
}

/// Everything an author similarity is computed from.
pub fn author_forms(ebook_author: &str, cand_authors: &Vec<String>) -> (r: AuthorForms)
    ensures
        r.ebook@ == normalized_author(ebook_author@),
        credited_view(r.credited@) == credited_authors(r.ebook@, strings_view(cand_authors@)),
{
    let ebook = normalize_author(ebook_author);
    let ev = chars_of(ebook.as_str());
    let e_last = last_word_exec(&ev);
    let mut credited: Vec<CreditedAuthor> = Vec::new();
    let mut i: usize = 0;
    let ghost raws = strings_view(cand_authors@);
    proof {
        assert(raws.skip(0) =~= raws);
        assert(credited_view(credited@) + credited_authors(ebook@, raws.skip(0)) =~= credited_authors(ebook@, raws));
    }
    while i < cand_authors.len()
        invariant
            i <= cand_authors.len(),
            raws == strings_view(cand_authors@),
            e_last@ == last_word(ebook@),
            credited_authors(ebook@, raws) == credited_view(credited@) + credited_authors(
                ebook@,
                raws.skip(i as int),
            ),
        decreases cand_authors.len() - i,
    {
        let c = normalize_author(cand_authors[i].as_str());
        let ghost rest = raws.skip(i as int);
        proof {
            assert(rest[0] == cand_authors@[i as int]@);
            assert(rest.drop_first() =~= raws.skip(i + 1));
        }
        let cv = chars_of(c.as_str());
        if cv.len() > 0 {
            let ws = words_of(&cv);
            let same_surname = if ws.len() > 0 {
                proof {
                    assert(ws@[ws@.len() - 1]@ == views(ws@).last());
                }
                chars_eq(&ws[ws.len() - 1], &e_last)
            } else {
                false
            };
            let ghost before = credited@;
            credited.push(CreditedAuthor { name: c, same_surname });
            proof {
                assert(credited_view(credited@) =~= credited_view(before) + seq![(cv@, same_surname)]);
                assert(credited_view(credited@) + credited_authors(ebook@, raws.skip(i + 1))
                    =~= credited_view(before) + (seq![(cv@, same_surname)] + credited_authors(
                    ebook@,
                    raws.skip(i + 1),
                )));
            }
        }
        i = i + 1;
    }
    proof {
        assert(raws.skip(cand_authors@.len() as int) =~= Seq::<Seq<char>>::empty());
        assert(credited_view(credited@) + Seq::<(Seq<char>, bool)>::empty() =~= credited_view(
            credited@,
        ));
    }
    AuthorForms { ebook, credited }
}

// ---------------------------------------------------------------------------
// What a candidate is penalized or rewarded for
// ---------------------------------------------------------------------------

/// The edition kind named by a candidate's format type.
#[derive(Debug, Clone, Copy, PartialEq, Eq, Structural)]
pub enum FormatKind {
    Abridged,
    Unabridged,
    Other,
}

/// How the ebook's language compares with the candidate's (first two
/// lowercase characters of each).
#[derive(Debug, Clone, Copy, PartialEq, Eq, Structural)]
pub enum LanguageCheck {
    Same,
    Different,
    Unknown,
}

/// The facts about a candidate that move its score up or down.
#[derive(Debug, Clone, Copy, PartialEq, Eq, Structural)]
pub struct Assessment {
    /// Its base title carries content words the ebook's title lacks.
    pub extra_words: bool,
    /// Its title or subtitle names a derivative work ("Summary of ...").
    pub derivative: bool,
    /// It is a dramatized adaptation.
    pub dramatized: bool,
    pub format: FormatKind,
    pub language: LanguageCheck,
}

/// "title subtitle" (a trailing space when there is no subtitle).
pub open spec fn title_and_subtitle(c: Candidate) -> Seq<char> {
    c.title@ + " "@ + match c.subtitle {
        Some(s) => s@,
        None => seq![],
    }
}

pub open spec fn format_kind(format_type: Option<String>) -> FormatKind {
    match format_type {
        Some(f) => if unicode_lowercase(f@) == "abridged"@ {
            FormatKind::Abridged
        } else if unicode_lowercase(f@) == "unabridged"@ {
            FormatKind::Unabridged
        } else {
            FormatKind::Other
        },
        None => FormatKind::Other,
    }
}

/// The first two characters of the lowercased language tag, if any.
pub open spec fn language_prefix(lang: Option<String>) -> Option<Seq<char>> {
    match lang {
        Some(l) => {
            let q = unicode_lowercase(l@);
            let p = if q.len() < 2 {
                q
            } else {
                q.take(2)
            };
            if p.len() > 0 {
                Some(p)
            } else {
                None
            }
        },
        None => None,
    }
}

pub open spec fn language_check(e: Option<String>, c: Option<String>) -> LanguageCheck {
    match (language_prefix(e), language_prefix(c)) {
        (Some(a), Some(b)) => if a == b {
            LanguageCheck::Same
        } else {
            LanguageCheck::Different
        },
        _ => LanguageCheck::Unknown,
    }
}

/// The assessment of a candidate against an ebook.
pub open spec fn assessment_of(e: Ebook, c: Candidate) -> Assessment {
    Assessment {
        extra_words: has_extra_words(
            base_title_of(normalized_title(c.title@)),
            normalized_title(e.title@),
        ),
        derivative: found(JUNK@, title_and_subtitle(c)),
        dramatized: found(DRAMATIZED@, title_and_subtitle(c)),
        format: format_kind(c.format_type),
        language: language_check(e.language, c.language),
    }
}

fn format_kind_exec(format_type: &Option<String>) -> (r: FormatKind)
    ensures
        r == format_kind(*format_type),
{
    match format_type {
        Some(f) => {
            let l = to_lowercase(f.as_str());
            let lv = chars_of(l.as_str());
            if chars_eq_str(&lv, "abridged") {
                FormatKind::Abridged
            } else if chars_eq_str(&lv, "unabridged") {
                FormatKind::Unabridged
            } else {
                FormatKind::Other
            }
        },
        None => FormatKind::Other,
    }
}

fn language_prefix_exec(lang: &Option<String>) -> (r: Option<Vec<char>>)
    ensures
        match r {
            Some(p) => language_prefix(*lang) == Some(p@),
            None => language_prefix(*lang) is None,
        },
{
    match lang {
        Some(l) => {
            let low = to_lowercase(l.as_str());
            let v = chars_of(low.as_str());
            let n = if v.len() < 2 {
                v.len()
            } else {
                2
            };
            let p = slice_chars(&v, 0, n);
            proof {
                if v@.len() < 2 {
                    assert(p@ =~= v@);
                } else {
                    assert(p@ =~= v@.take(2));
                }
            }
            if p.len() > 0 {
                Some(p)
            } else {
                None
            }
        },
        None => None,
    }
}

/// What about the candidate moves its score, judged against the ebook.
pub fn assess_candidate(ebook: &Ebook, cand: &Candidate) -> (r: Assessment)
    ensures
        r == assessment_of(*ebook, *cand),
{
    let cand_norm = normalize_title(cand.title.as_str());
    let cand_base = base_title(&cand_norm);
    let ebook_full = normalize_title(ebook.title.as_str());
    let cw = content_words(&cand_base);
    let ew = content_words(&ebook_full);
    let extra_words = !all_within_exec(&cw, &ew);
    let sub: &str = match &cand.subtitle {
        Some(s) => s.as_str(),
        None => "",
    };
    proof {
        reveal_strlit("");
    }
    let full = joined(cand.title.as_str(), " ", sub);
    proof {
        assert(full@ == title_and_subtitle(*cand));
    }
    let derivative = matches_somewhere(JUNK, &full);
    let dramatized = matches_somewhere(DRAMATIZED, &full);
    let format = format_kind_exec(&cand.format_type);
    let e_lang = language_prefix_exec(&ebook.language);
    let c_lang = language_prefix_exec(&cand.language);
    let language = match (e_lang, c_lang) {
        (Some(a), Some(b)) => if chars_eq(&a, &b) {
            LanguageCheck::Same
        } else {
            LanguageCheck::Different
        },
        _ => LanguageCheck::Unknown,
    };
    Assessment { extra_words, derivative, dramatized, format, language }
}

/// The penalty labels of an assessment, in the order they are applied.
pub open spec fn penalty_labels(a: Assessment) -> Seq<Seq<char>> {
    (if a.derivative { seq!["derivative-work"@] } else { seq![] })
        + (if a.dramatized { seq!["dramatized"@] } else { seq![] })
        + (if a.extra_words { seq!["title-extra-words"@] } else { seq![] })
        + (if a.format == FormatKind::Abridged { seq!["abridged"@] } else { seq![] })
        + (if a.language == LanguageCheck::Different { seq!["language-mismatch"@] } else { seq![] })
}

/// The bonus labels of an assessment, in the order they are applied.
pub open spec fn bonus_labels(a: Assessment) -> Seq<Seq<char>> {
    (if a.format == FormatKind::Unabridged { seq!["unabridged"@] } else { seq![] })
        + (if a.language == LanguageCheck::Same { seq!["language"@] } else { seq![] })
}

pub open spec fn labels_view(v: Seq<&'static str>) -> Seq<Seq<char>> {
    v.map_values(|s: &'static str| s@)
}

fn push_label(v: &mut Vec<&'static str>, s: &'static str)
    ensures
        labels_view(final(v)@) == labels_view(old(v)@) + seq![s@],
{
    v.push(s);
    proof {
        assert(labels_view(v@) =~= labels_view(old(v)@) + seq![s@]);
    }
}

pub fn penalties(a: &Assessment) -> (r: Vec<&'static str>)
    ensures
        labels_view(r@) == penalty_labels(*a),
{
    let mut v: Vec<&'static str> = Vec::new();
    let ghost l0 = labels_view(v@);
    if a.derivative {
        push_label(&mut v, "derivative-work");
    }
    let ghost l1 = labels_view(v@);
    if a.dramatized {
        push_label(&mut v, "dramatized");
    }
    let ghost l2 = labels_view(v@);
    if a.extra_words {
        push_label(&mut v, "title-extra-words");
    }
    let ghost l3 = labels_view(v@);
    if a.format == FormatKind::Abridged {
        push_label(&mut v, "abridged");
    }
    let ghost l4 = labels_view(v@);
    if a.language == LanguageCheck::Different {
        push_label(&mut v, "language-mismatch");
    }
    proof {
        assert(l0 =~= Seq::<Seq<char>>::empty());
        assert(labels_view(v@) =~= penalty_labels(*a));
    }
    v
}

pub fn bonuses(a: &Assessment) -> (r: Vec<&'static str>)
    ensures
        labels_view(r@) == bonus_labels(*a),
{
    let mut v: Vec<&'static str> = Vec::new();
    let ghost l0 = labels_view(v@);
    if a.format == FormatKind::Unabridged {
        push_label(&mut v, "unabridged");
    }
    if a.language == LanguageCheck::Same {
        push_label(&mut v, "language");
    }
    proof {
        assert(l0 =~= Seq::<Seq<char>>::empty());
        assert(labels_view(v@) =~= bonus_labels(*a));
    }
    v
}

// ---------------------------------------------------------------------------
// The verdict
// ---------------------------------------------------------------------------

/// Threshold comparisons of the best candidate's scores.
#[derive(Debug, Clone, Copy, PartialEq, Eq, Structural)]
pub struct BestFacts {
    /// Its total reaches the auto-match threshold.
    pub confident: bool,
    /// Its author score reaches the minimum author score.
    pub author_confirmed: bool,
    /// Its total reaches the review threshold.
    pub plausible: bool,
    /// Its title score is very strong (at least 0.9).
    pub strong_title: bool,
}

/// The verdict for an ebook, given its best eligible candidate (if any) and
/// whether the ebook has no usable author.
pub open spec fn verdict(best: Option<BestFacts>, author_unknown: bool) -> Status {
    match best {
        None => Status::NotFound,
        Some(b) => if b.confident && b.author_confirmed && !author_unknown {
            Status::Matched
        } else if b.plausible {
            Status::Ambiguous
        } else if author_unknown && b.strong_title {
            Status::Ambiguous
        } else {
            Status::NotFound
        },
    }
}

/// Classify an ebook: a confident match needs a confirmed author (an ebook
/// without author metadata can confirm none); a plausible one, or (when
/// the ebook has no author at all) a very strong title, goes to human
/// review; anything else is not found.
pub fn classify(best: Option<BestFacts>, author_unknown: bool) -> (s: Status)
    ensures
        s == verdict(best, author_unknown),
        s == Status::Matched ==> (best matches Some(b) && b.confident && b.author_confirmed
            && !author_unknown),
        best is None ==> s == Status::NotFound,
        (best matches Some(b) && b.plausible && !(b.confident && b.author_confirmed
            && !author_unknown)) ==> s == Status::Ambiguous,
{
    match best {
        None => Status::NotFound,
        Some(b) => if b.confident && b.author_confirmed && !author_unknown {
            Status::Matched
        } else if b.plausible {
            Status::Ambiguous
        } else if author_unknown && b.strong_title {
            Status::Ambiguous
        } else {
            Status::NotFound
        },
    }
}

/// The three lanes: a best candidate that is confident, with a confirmed
/// author and author metadata, is matched; any other best candidate whose
/// total reaches the review threshold, or whose title is very strong when
/// the ebook has no author, goes to review; everything else is not found.
pub proof fn lemma_verdict_lanes(best: Option<BestFacts>, author_unknown: bool)
    ensures
        (verdict(best, author_unknown) == Status::Matched) == (best matches Some(b)
            && b.confident && b.author_confirmed && !author_unknown),
        (best matches Some(b) && b.plausible && !(b.confident && b.author_confirmed
            && !author_unknown)) ==> verdict(best, author_unknown) == Status::Ambiguous,
        (verdict(best, author_unknown) == Status::Ambiguous) == (best matches Some(b) && !(
        b.confident && b.author_confirmed && !author_unknown) && (b.plausible || (author_unknown
            && b.strong_title))),
        (verdict(best, author_unknown) == Status::NotFound) == (best is None || (best matches Some(
            b,
        ) && !(b.confident && b.author_confirmed && !author_unknown) && !b.plausible && !(
        author_unknown && b.strong_title))),
{
}

/// An ebook without author metadata is never auto-matched: it degrades to
/// review when its best candidate's title is very strong, and an ebook
/// whose author is not confirmed is never auto-matched either.
pub proof fn lemma_unknown_author_never_matches(best: Option<BestFacts>, author_unknown: bool)
    ensures
        author_unknown ==> verdict(best, author_unknown) != Status::Matched,
        (author_unknown && (best matches Some(b) && b.strong_title)) ==> verdict(
            best,
            author_unknown,
        ) == Status::Ambiguous,
        (best matches Some(b) && !b.author_confirmed) ==> verdict(best, author_unknown)
            != Status::Matched,
{
}

/// An ebook whose author normalizes to nothing can never confirm a match.
pub fn author_unknown(ebook: &Ebook) -> (b: bool)
    ensures
        b == (normalized_author(ebook.author@).len() == 0),
{
    let a = normalize_author(ebook.author.as_str());
    a.as_str().is_empty()
}

/// Index of the first candidate (in ranked order) that is not a derivative
/// work: derivative junk is never eligible as the best candidate.
pub fn first_eligible(derivative: &Vec<bool>) -> (r: Option<usize>)
    ensures
        match r {
            Some(i) => i < derivative@.len() && !derivative@[i as int] && forall|k: int|
                0 <= k < i ==> derivative@[k],
            None => forall|k: int| 0 <= k < derivative@.len() ==> derivative@[k],
        },
{
    let mut i: usize = 0;
    while i < derivative.len()
        invariant
            i <= derivative.len(),
            forall|k: int| 0 <= k < i ==> derivative@[k],
        decreases derivative.len() - i,
    {
        if !derivative[i] {
            return Some(i);
        }
        i = i + 1;
    }
    None
}

/// The candidate carries this ASIN.
pub open spec fn has_asin(c: Candidate, asin: Seq<char>) -> bool {
    c.asin matches Some(a) && a@ == asin
}

/// The position of the first candidate with this ASIN.
pub fn find_by_asin(cands: &Vec<Candidate>, asin: &str) -> (r: Option<usize>)
    ensures
        match r {
            Some(i) => i < cands@.len() && has_asin(cands@[i as int], asin@) && forall|k: int|
                0 <= k < i ==> !has_asin(#[trigger] cands@[k], asin@),
            None => forall|k: int| 0 <= k < cands@.len() ==> !has_asin(#[trigger] cands@[k], asin@),
        },
{
    let want = chars_of(asin);
    let mut i: usize = 0;
    while i < cands.len()
        invariant
            i <= cands@.len(),
            want@ == asin@,
            forall|k: int| 0 <= k < i ==> !has_asin(#[trigger] cands@[k], asin@),
        decreases cands.len() - i,
    {
        if let Some(a) = &cands[i].asin {
            let av = chars_of(a.as_str());
            if chars_eq(&av, &want) {
                return Some(i);
            }
        }
        i = i + 1;
    }
    None
}

pub open spec fn opt_candidate(c: Option<&Candidate>) -> Option<Candidate> {
    match c {
        Some(x) => Some(*x),
        None => None,
    }
}

} // verus!
