//! Read title/author/language from the text of a Calibre .opf sidecar.
//!
//! Deliberately pattern-based rather than a full XML parser: Calibre OPF
//! files are machine-generated and regular.

use vstd::prelude::*;

use crate::matcher::{precleaned_title, preclean_title, Ebook};
use crate::pattern::{capture_group, captured};
use crate::text::{chars_of, push_all, push_str, string_of, trim, trim_chars};

verus! {

/// Every non-overlapping occurrence of `from` (scanning left to right)
/// replaced by `to`: `str::replace`.
pub open spec fn replaced(s: Seq<char>, from: Seq<char>, to: Seq<char>) -> Seq<char>
    recommends
        from.len() > 0,
    decreases s.len(),
{
    if s.len() == 0 || from.len() == 0 {
        s
    } else if from.is_prefix_of(s) {
        to + replaced(s.skip(from.len() as int), from, to)
    } else {
        seq![s[0]] + replaced(s.drop_first(), from, to)
    }
}

fn starts_at(v: &Vec<char>, i: usize, p: &Vec<char>) -> (b: bool)
    requires
        i <= v.len(),
    ensures
        b == p@.is_prefix_of(v@.skip(i as int)),
{
    if p.len() > v.len() - i {
        return false;
    }
    let mut k: usize = 0;
    while k < p.len()
        invariant
            k <= p.len(),
            i + p.len() <= v.len(),
            forall|j: int| 0 <= j < k ==> p@[j] == v@[i + j],
        decreases p.len() - k,
    {
        if p[k] != v[i + k] {
            proof {
                assert(v@.skip(i as int)[k as int] == v@[i + k]);
            }
            return false;
        }
        k = k + 1;
    }
    proof {
        assert(v@.skip(i as int).take(p@.len() as int) =~= p@);
    }
    true
}

/// `str::replace(from, to)`.
pub fn replace_text(s: &Vec<char>, from: &str, to: &str) -> (r: Vec<char>)
    requires
        from@.len() > 0,
    ensures
        r@ == replaced(s@, from@, to@),
{
    let f = chars_of(from);
    let t = chars_of(to);
    let mut out: Vec<char> = Vec::new();
    let mut i: usize = 0;
    proof {
        assert(s@.skip(0) =~= s@);
    }
    while i < s.len()
        invariant
            i <= s.len(),
            f@ == from@,
            t@ == to@,
            f@.len() > 0,
            replaced(s@, from@, to@) == out@ + replaced(s@.skip(i as int), from@, to@),
        decreases s.len() - i,
    {
        let ghost rest = s@.skip(i as int);
        if starts_at(s, i, &f) {
            push_all(&mut out, &t);
            proof {
                assert(rest.skip(f@.len() as int) =~= s@.skip(i + f@.len()));
            }
            i = i + f.len();
        } else {
            out.push(s[i]);
            proof {
                assert(rest[0] == s@[i as int]);
                assert(rest.drop_first() =~= s@.skip(i + 1));
                assert(out@ + replaced(s@.skip(i + 1), from@, to@) =~= (out@.drop_last() + seq![
                    s@[i as int],
                ]) + replaced(s@.skip(i + 1), from@, to@));
            }
            i = i + 1;
        }
    }
    proof {
        assert(s@.skip(s@.len() as int) =~= Seq::<char>::empty());
        assert(out@ + Seq::<char>::empty() =~= out@);
    }
    out
}

/// XML entities decoded (`&amp;` first, then `&lt;`, `&gt;`, `&quot;`,
/// `&apos;`, `&#39;`), and the result trimmed.
pub open spec fn unescaped(s: Seq<char>) -> Seq<char> {
    let t = replaced(s, "&amp;"@, "&"@);
    let t = replaced(t, "&lt;"@, "<"@);
    let t = replaced(t, "&gt;"@, ">"@);
    let t = replaced(t, "&quot;"@, "\""@);
    let t = replaced(t, "&apos;"@, "'"@);
    let t = replaced(t, "&#39;"@, "'"@);
    trim(t)
}

/// Decodes the XML entities Calibre writes, then trims.
pub fn unescape(s: &str) -> (r: String)
    ensures
        r@ == unescaped(s@),
{
    proof {
        reveal_strlit("&amp;");
        reveal_strlit("&lt;");
        reveal_strlit("&gt;");
        reveal_strlit("&quot;");
        reveal_strlit("&apos;");
        reveal_strlit("&#39;");
    }
    let v = chars_of(s);
    let v = replace_text(&v, "&amp;", "&");
    let v = replace_text(&v, "&lt;", "<");
    let v = replace_text(&v, "&gt;", ">");
    let v = replace_text(&v, "&quot;", "\"");
    let v = replace_text(&v, "&apos;", "'");
    let v = replace_text(&v, "&#39;", "'");
    let v = trim_chars(&v);
    string_of(&v)
}

/// The pattern that captures the text of a `<dc:tag ...>text</dc:tag>`
/// element (across lines).
pub open spec fn tag_pattern(tag: Seq<char>) -> Seq<char> {
    "(?s)<dc:"@ + tag + "[^>]*>([^<]+)</dc:"@ + tag + ">"@
}

fn tag_pattern_exec(tag: &str) -> (r: String)
    ensures
        r@ == tag_pattern(tag@),
{
    let mut v = chars_of("(?s)<dc:");
    push_str(&mut v, tag);
    push_str(&mut v, "[^>]*>([^<]+)</dc:");
    push_str(&mut v, tag);
    push_str(&mut v, ">");
    string_of(&v)
}

/// The raw text of the first `dc:tag` element, if any.
pub open spec fn element_text(xml: Seq<char>, tag: Seq<char>) -> Option<Seq<char>> {
    captured(tag_pattern(tag), xml, 1)
}

fn element(xml: &str, tag: &str) -> (r: Option<String>)
    ensures
        match r {
            Some(t) => element_text(xml@, tag@) == Some(t@),
            None => element_text(xml@, tag@) is None,
        },
{
    let p = tag_pattern_exec(tag);
    capture_group(p.as_str(), xml, 1)
}

/// The ebook an OPF document describes: its (unescaped, precleaned) title,
/// its first creator (or ""), and its language; `None` without a title.
pub open spec fn opf_ebook(xml: Seq<char>) -> Option<(Seq<char>, Seq<char>, Option<Seq<char>>)> {
    match element_text(xml, "title"@) {
        None => None,
        Some(t) => Some(
            (
                precleaned_title(unescaped(t)),
                match element_text(xml, "creator"@) {
                    Some(a) => unescaped(a),
                    None => seq![],
                },
                match element_text(xml, "language"@) {
                    Some(l) => Some(unescaped(l)),
                    None => None,
                },
            ),
        ),
    }
}

/// Reads title, author and language from the text of a Calibre .opf file.
pub fn read_opf(xml: &str) -> (r: Option<Ebook>)
    ensures
        match r {
            Some(e) => opf_ebook(xml@) == Some(crate::abs::ebook_view(e)),
            None => opf_ebook(xml@) is None,
        },
{
    let title = match element(xml, "title") {
        Some(t) => t,
        None => return None,
    };
    let author = match element(xml, "creator") {
        Some(a) => unescape(a.as_str()),
        None => String::new(),
    };
    let language = match element(xml, "language") {
        Some(l) => Some(unescape(l.as_str())),
        None => None,
    };
    let t = unescape(title.as_str());
    Some(Ebook { title: preclean_title(t.as_str()), author, language })
}

proof fn lemma_replaced_absent(x: Seq<char>, from: Seq<char>, to: Seq<char>, c: char)
    requires
        from.len() > 0,
        from.contains(c),
        !x.contains(c),
    ensures
        replaced(x, from, to) == x,
    decreases x.len(),
{
    if x.len() > 0 {
        if from.is_prefix_of(x) {
            let k = choose|k: int| 0 <= k < from.len() && from[k] == c;
            assert(x[k] == from[k]);
        }
        let rest = x.drop_first();
        assert(!rest.contains(c)) by {
            if rest.contains(c) {
                let k = choose|k: int| 0 <= k < rest.len() && rest[k] == c;
                assert(x[k + 1] == c);
            }
        }
        lemma_replaced_absent(rest, from, to, c);
        assert(x =~= seq![x[0]] + rest);
    }
}

proof fn lemma_replaced_once(a: Seq<char>, b: Seq<char>, from: Seq<char>, to: Seq<char>)
    requires
        from.len() > 0,
        !a.contains(from[0]),
        !b.contains(from[0]),
    ensures
        replaced(a + from + b, from, to) == a + to + b,
    decreases a.len(),
{
    let x = a + from + b;
    if a.len() == 0 {
        assert(x =~= from + b);
        assert(x.subrange(0, from.len() as int) =~= from);
        assert(x.skip(from.len() as int) =~= b);
        assert(from.contains(from[0]));
        lemma_replaced_absent(b, from, to, from[0]);
        assert(a + to + b =~= to + b);
    } else {
        assert(a.contains(a[0]));
        assert(x[0] == a[0]);
        assert(!from.is_prefix_of(x));
        let a2 = a.drop_first();
        assert(!a2.contains(from[0])) by {
            if a2.contains(from[0]) {
                let k = choose|k: int| 0 <= k < a2.len() && a2[k] == from[0];
                assert(a[k + 1] == from[0]);
            }
        }
        assert(x.drop_first() =~= a2 + from + b);
        lemma_replaced_once(a2, b, from, to);
        assert(a + to + b =~= seq![a[0]] + (a2 + to + b));
    }
}

/// Decoding changes nothing but the trimming in a text without `&`.
pub proof fn lemma_unescaped_plain(t: Seq<char>)
    requires
        !t.contains('&'),
    ensures
        unescaped(t) == trim(t),
{
    reveal_strlit("&amp;");
    reveal_strlit("&lt;");
    reveal_strlit("&gt;");
    reveal_strlit("&quot;");
    reveal_strlit("&apos;");
    reveal_strlit("&#39;");
    assert("&amp;"@[0] == '&');
    assert("&lt;"@[0] == '&');
    assert("&gt;"@[0] == '&');
    assert("&quot;"@[0] == '&');
    assert("&apos;"@[0] == '&');
    assert("&#39;"@[0] == '&');
    lemma_replaced_absent(t, "&amp;"@, "&"@, '&');
    lemma_replaced_absent(t, "&lt;"@, "<"@, '&');
    lemma_replaced_absent(t, "&gt;"@, ">"@, '&');
    lemma_replaced_absent(t, "&quot;"@, "\""@, '&');
    lemma_replaced_absent(t, "&apos;"@, "'"@, '&');
    lemma_replaced_absent(t, "&#39;"@, "'"@, '&');
}

/// `&amp;` decodes to `&`: a text holding one `&amp;` among characters that
/// are neither `&` nor `;` decodes to the same text with `&` in its place,
/// trimmed.
pub proof fn lemma_unescaped_amp(a: Seq<char>, b: Seq<char>)
    requires
        !a.contains('&'),
        !b.contains('&'),
        !a.contains(';'),
        !b.contains(';'),
    ensures
        unescaped(a + "&amp;"@ + b) == trim(a + "&"@ + b),
{
    reveal_strlit("&amp;");
    reveal_strlit("&");
    reveal_strlit("&lt;");
    reveal_strlit("&gt;");
    reveal_strlit("&quot;");
    reveal_strlit("&apos;");
    reveal_strlit("&#39;");
    assert("&amp;"@[0] == '&');
    lemma_replaced_once(a, b, "&amp;"@, "&"@);
    let x = a + "&"@ + b;
    assert(!x.contains(';')) by {
        if x.contains(';') {
            let k = choose|k: int| 0 <= k < x.len() && x[k] == ';';
            if k < a.len() {
                assert(a[k] == ';');
            } else if k > a.len() {
                assert(b[k - a.len() - 1] == ';');
            }
        }
    }
    assert("&lt;"@[3] == ';');
    assert("&gt;"@[3] == ';');
    assert("&quot;"@[5] == ';');
    assert("&apos;"@[5] == ';');
    assert("&#39;"@[4] == ';');
    lemma_replaced_absent(x, "&lt;"@, "<"@, ';');
    lemma_replaced_absent(x, "&gt;"@, ">"@, ';');
    lemma_replaced_absent(x, "&quot;"@, "\""@, ';');
    lemma_replaced_absent(x, "&apos;"@, "'"@, ';');
    lemma_replaced_absent(x, "&#39;"@, "'"@, ';');
}

/// An OPF document describes an ebook exactly when it has a `dc:title`
/// element. The ebook's title is that element's text with its entities
/// decoded, trimmed and precleaned (a `&amp;` reads back as `&`); its author
/// and language are the decoded texts of the first `dc:creator` and
/// `dc:language` elements (no creator gives "", no language gives none).
pub proof fn lemma_opf_fields(
    xml: Seq<char>,
    t: Seq<char>,
    a: Seq<char>,
    b: Seq<char>,
    c: Seq<char>,
    l: Seq<char>,
)
    ensures
        opf_ebook(xml) is Some <==> element_text(xml, "title"@) is Some,
        (element_text(xml, "title"@) == Some(a + "&amp;"@ + b) && !a.contains('&') && !b.contains(
            '&',
        ) && !a.contains(';') && !b.contains(';')) ==> (opf_ebook(xml) matches Some(e) && e.0
            == precleaned_title(trim(a + "&"@ + b))),
        (element_text(xml, "title"@) == Some(t) && !t.contains('&')) ==> (opf_ebook(
            xml,
        ) matches Some(e) && e.0 == precleaned_title(trim(t))),
        (element_text(xml, "title"@) is Some && element_text(xml, "creator"@) == Some(c)
            && !c.contains('&')) ==> (opf_ebook(xml) matches Some(e) && e.1 == trim(c)),
        (element_text(xml, "title"@) is Some && element_text(xml, "creator"@) is None) ==> (
        opf_ebook(xml) matches Some(e) && e.1.len() == 0),
        (element_text(xml, "title"@) is Some && element_text(xml, "language"@) == Some(l)
            && !l.contains('&')) ==> (opf_ebook(xml) matches Some(e) && e.2 == Some(trim(l))),
        (element_text(xml, "title"@) is Some && element_text(xml, "language"@) is None) ==> (
        opf_ebook(xml) matches Some(e) && e.2 is None),
{
    if !a.contains('&') && !b.contains('&') && !a.contains(';') && !b.contains(';') {
        lemma_unescaped_amp(a, b);
    }
    if !t.contains('&') {
        lemma_unescaped_plain(t);
    }
    if !c.contains('&') {
        lemma_unescaped_plain(c);
    }
    if !l.contains('&') {
        lemma_unescaped_plain(l);
    }
}

} // verus!
