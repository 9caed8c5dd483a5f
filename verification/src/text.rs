//! Character-level text primitives shared by the matcher, the override
//! parser and the report writer: conversion between strings and character
//! vectors, Unicode-whitespace trimming, searching and splitting.

use vstd::prelude::*;

verus! {

// ---------------------------------------------------------------------------
// Unicode whitespace
// ---------------------------------------------------------------------------

/// The Unicode `White_Space` property, which is what `char::is_whitespace`,
/// `str::trim` and `str::split_whitespace` test for.
pub open spec fn is_white_space(c: char) -> bool {
    ||| ('\u{9}' <= c && c <= '\u{d}')
    ||| c == ' '
    ||| c == '\u{85}'
    ||| c == '\u{a0}'
    ||| c == '\u{1680}'
    ||| ('\u{2000}' <= c && c <= '\u{200a}')
    ||| c == '\u{2028}'
    ||| c == '\u{2029}'
    ||| c == '\u{202f}'
    ||| c == '\u{205f}'
    ||| c == '\u{3000}'
}

pub fn is_whitespace(c: char) -> (b: bool)
    ensures
        b == is_white_space(c),
{
    ('\u{9}' <= c && c <= '\u{d}') || c == ' ' || c == '\u{85}' || c == '\u{a0}' || c == '\u{1680}'
        || ('\u{2000}' <= c && c <= '\u{200a}') || c == '\u{2028}' || c == '\u{2029}' || c
        == '\u{202f}' || c == '\u{205f}' || c == '\u{3000}'
}

// ---------------------------------------------------------------------------
// Strings <-> character vectors
// ---------------------------------------------------------------------------

/// The characters of a string slice, in order.
pub fn chars_of(s: &str) -> (v: Vec<char>)
    ensures
        v@ == s@,
{
    let mut v: Vec<char> = Vec::new();
    for c in it: s.chars()
        invariant
            v@ == it.seq().take(it.index() as int),
            it.seq() == s@,
    {
        v.push(c);
    }
    v
}

/// `String::push`: appends one character.
#[verifier::external_body]
fn push_char(s: &mut String, c: char)
    ensures
        final(s)@ == old(s)@.push(c),
{
    s.push(c);
}

/// The string spelled by a sequence of characters.
pub fn string_of(v: &Vec<char>) -> (s: String)
    ensures
        s@ == v@,
{
    let mut s = String::new();
    let mut i: usize = 0;
    while i < v.len()
        invariant
            i <= v.len(),
            s@ == v@.take(i as int),
        decreases v.len() - i,
    {
        push_char(&mut s, v[i]);
        proof {
            assert(v@.take(i + 1) =~= v@.take(i as int).push(v@[i as int]));
        }
        i = i + 1;
    }
    proof {
        assert(v@.take(v@.len() as int) =~= v@);
    }
    s
}

/// A copy of `v[from..to]`.
pub fn slice_chars(v: &Vec<char>, from: usize, to: usize) -> (r: Vec<char>)
    requires
        from <= to <= v.len(),
    ensures
        r@ == v@.subrange(from as int, to as int),
{
    let mut r: Vec<char> = Vec::new();
    let mut i = from;
    while i < to
        invariant
            from <= i <= to <= v.len(),
            r@ == v@.subrange(from as int, i as int),
        decreases to - i,
    {
        r.push(v[i]);
        proof {
            assert(v@.subrange(from as int, i + 1) =~= v@.subrange(from as int, i as int).push(
                v@[i as int],
            ));
        }
        i = i + 1;
    }
    r
}

/// Appends all of `tail` to `v`.
pub fn push_all(v: &mut Vec<char>, tail: &Vec<char>)
    ensures
        final(v)@ == old(v)@ + tail@,
{
    let mut i: usize = 0;
    while i < tail.len()
        invariant
            i <= tail.len(),
            v@ == old(v)@ + tail@.take(i as int),
        decreases tail.len() - i,
    {
        v.push(tail[i]);
        proof {
            assert(tail@.take(i + 1) =~= tail@.take(i as int).push(tail@[i as int]));
        }
        i = i + 1;
    }
    proof {
        assert(tail@.take(tail@.len() as int) =~= tail@);
    }
}

/// Appends the characters of a string slice to `v`.
pub fn push_str(v: &mut Vec<char>, s: &str)
    ensures
        final(v)@ == old(v)@ + s@,
{
    let t = chars_of(s);
    push_all(v, &t);
}

// ---------------------------------------------------------------------------
// Runs of characters at either end
// ---------------------------------------------------------------------------

/// Length of the longest prefix of `s` whose characters all satisfy `p`.
pub open spec fn prefix_len_while(s: Seq<char>, p: spec_fn(char) -> bool) -> nat
    decreases s.len(),
{
    if s.len() > 0 && p(s[0]) {
        1 + prefix_len_while(s.drop_first(), p)
    } else {
        0
    }
}

/// Length of the longest suffix of `s` whose characters all satisfy `p`.
pub open spec fn suffix_len_while(s: Seq<char>, p: spec_fn(char) -> bool) -> nat
    decreases s.len(),
{
    if s.len() > 0 && p(s.last()) {
        1 + suffix_len_while(s.drop_last(), p)
    } else {
        0
    }
}

pub proof fn lemma_prefix_len_while(s: Seq<char>, p: spec_fn(char) -> bool, i: int)
    requires
        0 <= i <= s.len(),
        forall|k: int| 0 <= k < i ==> p(#[trigger] s[k]),
        i == s.len() || !p(s[i]),
    ensures
        prefix_len_while(s, p) == i,
    decreases i,
{
    if i > 0 {
        let t = s.drop_first();
        assert forall|k: int| 0 <= k < i - 1 implies p(#[trigger] t[k]) by {
            assert(t[k] == s[k + 1]);
        }
        if i - 1 < t.len() {
            assert(t[i - 1] == s[i]);
        }
        lemma_prefix_len_while(t, p, i - 1);
    }
}

pub proof fn lemma_suffix_len_while(s: Seq<char>, p: spec_fn(char) -> bool, i: int)
    requires
        0 <= i <= s.len(),
        forall|k: int| s.len() - i <= k < s.len() ==> p(#[trigger] s[k]),
        i == s.len() || !p(s[s.len() - i - 1]),
    ensures
        suffix_len_while(s, p) == i,
    decreases i,
{
    if i > 0 {
        let t = s.drop_last();
        assert forall|k: int| t.len() - (i - 1) <= k < t.len() implies p(#[trigger] t[k]) by {
            assert(t[k] == s[k]);
        }
        if i - 1 < t.len() {
            assert(t[t.len() - (i - 1) - 1] == s[s.len() - i - 1]);
        }
        lemma_suffix_len_while(t, p, i - 1);
    }
}

pub proof fn lemma_prefix_len_while_bound(s: Seq<char>, p: spec_fn(char) -> bool)
    ensures
        prefix_len_while(s, p) <= s.len(),
        forall|k: int| 0 <= k < prefix_len_while(s, p) ==> p(#[trigger] s[k]),
        prefix_len_while(s, p) < s.len() ==> !p(s[prefix_len_while(s, p) as int]),
    decreases s.len(),
{
    if s.len() > 0 && p(s[0]) {
        let t = s.drop_first();
        lemma_prefix_len_while_bound(t, p);
        assert forall|k: int| 0 <= k < prefix_len_while(s, p) implies p(#[trigger] s[k]) by {
            if k > 0 {
                assert(s[k] == t[k - 1]);
            }
        }
        if prefix_len_while(s, p) < s.len() {
            assert(s[prefix_len_while(s, p) as int] == t[prefix_len_while(t, p) as int]);
        }
    }
}

// ---------------------------------------------------------------------------
// Trimming
// ---------------------------------------------------------------------------

pub open spec fn ws_pred() -> spec_fn(char) -> bool {
    |c: char| is_white_space(c)
}

/// The part of `s` left after dropping every leading and every trailing
/// character that satisfies `p` (`str::trim_matches` with a predicate).
pub open spec fn strip_while(s: Seq<char>, p: spec_fn(char) -> bool) -> Seq<char> {
    let t = s.skip(prefix_len_while(s, p) as int);
    t.take(t.len() - suffix_len_while(t, p))
}

/// `str::trim`: drops leading and trailing Unicode whitespace.
pub open spec fn trim(s: Seq<char>) -> Seq<char> {
    strip_while(s, ws_pred())
}

pub open spec fn eq_char(c: char) -> spec_fn(char) -> bool {
    |x: char| x == c
}

pub proof fn lemma_suffix_len_while_bound(s: Seq<char>, p: spec_fn(char) -> bool)
    ensures
        suffix_len_while(s, p) <= s.len(),
    decreases s.len(),
{
    if s.len() > 0 && p(s.last()) {
        lemma_suffix_len_while_bound(s.drop_last(), p);
    }
}

proof fn lemma_suffix_len_while_stop(s: Seq<char>, p: spec_fn(char) -> bool)
    ensures
        suffix_len_while(s, p) <= s.len(),
        suffix_len_while(s, p) < s.len() ==> !p(s[s.len() - suffix_len_while(s, p) - 1]),
    decreases s.len(),
{
    if s.len() > 0 && p(s.last()) {
        let t = s.drop_last();
        lemma_suffix_len_while_stop(t, p);
        if suffix_len_while(s, p) < s.len() {
            assert(s[s.len() - suffix_len_while(s, p) - 1] == t[t.len() - suffix_len_while(t, p)
                - 1]);
        }
    }
}

/// A trimmed text starts and ends with a non-whitespace character, trims to
/// itself, and holds only characters of the text it came from.
pub proof fn lemma_trim_shape(s: Seq<char>)
    ensures
        trim(s).len() > 0 ==> !is_white_space(trim(s)[0]) && !is_white_space(trim(s).last()),
        trim(trim(s)) == trim(s),
        forall|c: char| trim(s).contains(c) ==> s.contains(c),
{
    let pre = prefix_len_while(s, ws_pred());
    lemma_prefix_len_while_bound(s, ws_pred());
    let u = s.skip(pre as int);
    let suf = suffix_len_while(u, ws_pred());
    lemma_suffix_len_while_stop(u, ws_pred());
    let t = u.take(u.len() - suf);
    assert(t == trim(s));
    if t.len() > 0 {
        assert(t[0] == s[pre as int]);
        assert(t.last() == u[u.len() - suf - 1]);
    }
    lemma_prefix_len_while(t, ws_pred(), 0);
    assert(t.skip(0) =~= t);
    lemma_suffix_len_while(t, ws_pred(), 0);
    assert(t.take(t.len() as int) =~= t);
    assert forall|c: char| t.contains(c) implies s.contains(c) by {
        let k = choose|k: int| 0 <= k < t.len() && t[k] == c;
        assert(s[pre + k] == c);
    }
}

/// The characters of `v` with leading and trailing Unicode whitespace removed.
pub fn trim_chars(v: &Vec<char>) -> (r: Vec<char>)
    ensures
        r@ == trim(v@),
{
    let n = v.len();
    let mut i: usize = 0;
    while i < n && is_whitespace(v[i])
        invariant
            i <= n == v.len(),
            forall|k: int| 0 <= k < i ==> is_white_space(#[trigger] v@[k]),
        decreases n - i,
    {
        i = i + 1;
    }
    proof {
        lemma_prefix_len_while(v@, ws_pred(), i as int);
    }
    let ghost t = v@.skip(i as int);
    let mut j: usize = n;
    while j > i && is_whitespace(v[j - 1])
        invariant
            i <= j <= n == v.len(),
            t == v@.skip(i as int),
            forall|k: int| j <= k < n ==> is_white_space(#[trigger] v@[k]),
        decreases j,
    {
        j = j - 1;
    }
    proof {
        assert forall|k: int| t.len() - (n - j) <= k < t.len() implies (ws_pred())(
            #[trigger] t[k],
        ) by {
            assert(t[k] == v@[k + i]);
        }
        if n - j < t.len() {
            assert(t[t.len() - (n - j) - 1] == v@[j - 1]);
        }
        lemma_suffix_len_while(t, ws_pred(), (n - j) as int);
        assert(trim(v@) =~= v@.subrange(i as int, j as int));
    }
    slice_chars(v, i, j)
}

/// `str::trim` on a string slice.
pub fn trim_str(s: &str) -> (r: Vec<char>)
    ensures
        r@ == trim(s@),
{
    let v = chars_of(s);
    trim_chars(&v)
}

/// `trim_matches(c)`: drops every leading and trailing `c`.
pub fn strip_char(v: &Vec<char>, c: char) -> (r: Vec<char>)
    ensures
        r@ == strip_while(v@, eq_char(c)),
{
    let n = v.len();
    let mut i: usize = 0;
    while i < n && v[i] == c
        invariant
            i <= n == v.len(),
            forall|k: int| 0 <= k < i ==> #[trigger] v@[k] == c,
        decreases n - i,
    {
        i = i + 1;
    }
    proof {
        assert forall|k: int| 0 <= k < i implies (eq_char(c))(#[trigger] v@[k]) by {}
        lemma_prefix_len_while(v@, eq_char(c), i as int);
    }
    let ghost t = v@.skip(i as int);
    let mut j: usize = n;
    while j > i && v[j - 1] == c
        invariant
            i <= j <= n == v.len(),
            t == v@.skip(i as int),
            forall|k: int| j <= k < n ==> #[trigger] v@[k] == c,
        decreases j,
    {
        j = j - 1;
    }
    proof {
        assert forall|k: int| t.len() - (n - j) <= k < t.len() implies (eq_char(c))(
            #[trigger] t[k],
        ) by {
            assert(t[k] == v@[k + i]);
        }
        if n - j < t.len() {
            assert(t[t.len() - (n - j) - 1] == v@[j - 1]);
        }
        lemma_suffix_len_while(t, eq_char(c), (n - j) as int);
        assert(strip_while(v@, eq_char(c)) =~= v@.subrange(i as int, j as int));
    }
    slice_chars(v, i, j)
}

// ---------------------------------------------------------------------------
// Searching
// ---------------------------------------------------------------------------

pub open spec fn not_char(c: char) -> spec_fn(char) -> bool {
    |x: char| x != c
}

/// Index of the first `c` in `s`, or `s.len()` when there is none.
pub open spec fn find_char(s: Seq<char>, c: char) -> nat {
    prefix_len_while(s, not_char(c))
}

/// Number of characters after the last `c` in `s` (all of `s` when none).
pub open spec fn chars_after_last(s: Seq<char>, c: char) -> nat {
    suffix_len_while(s, not_char(c))
}

pub fn find_char_from(v: &Vec<char>, from: usize, c: char) -> (i: usize)
    requires
        from <= v.len(),
    ensures
        from <= i <= v.len(),
        forall|k: int| from <= k < i ==> v@[k] != c,
        i < v.len() ==> v@[i as int] == c,
        i - from == find_char(v@.skip(from as int), c),
{
    let mut i = from;
    while i < v.len() && v[i] != c
        invariant
            from <= i <= v.len(),
            forall|k: int| from <= k < i ==> v@[k] != c,
        decreases v.len() - i,
    {
        i = i + 1;
    }
    proof {
        let t = v@.skip(from as int);
        assert forall|k: int| 0 <= k < i - from implies (not_char(c))(#[trigger] t[k]) by {
            assert(t[k] == v@[k + from]);
        }
        if i - from < t.len() {
            assert(t[i - from] == v@[i as int]);
        }
        lemma_prefix_len_while(t, not_char(c), i - from);
    }
    i
}

/// Index of the first `c` in `v` (or `v.len()`).
pub fn find_char_index(v: &Vec<char>, c: char) -> (i: usize)
    ensures
        i == find_char(v@, c),
        i <= v.len(),
        forall|k: int| 0 <= k < i ==> v@[k] != c,
        i < v.len() ==> v@[i as int] == c,
{
    let i = find_char_from(v, 0, c);
    proof {
        assert(v@.skip(0) =~= v@);
    }
    i
}

/// Number of characters after the last `c` in `v` (or `v.len()`).
pub fn chars_after_last_index(v: &Vec<char>, c: char) -> (m: usize)
    ensures
        m == chars_after_last(v@, c),
        m <= v.len(),
        forall|k: int| v.len() - m <= k < v.len() ==> v@[k] != c,
        m < v.len() ==> v@[v.len() - m - 1] == c,
{
    let n = v.len();
    let mut j = n;
    while j > 0 && v[j - 1] != c
        invariant
            j <= n == v.len(),
            forall|k: int| j <= k < n ==> v@[k] != c,
        decreases j,
    {
        j = j - 1;
    }
    proof {
        assert forall|k: int| v@.len() - (n - j) <= k < v@.len() implies (not_char(c))(
            #[trigger] v@[k],
        ) by {}
        lemma_suffix_len_while(v@, not_char(c), (n - j) as int);
    }
    n - j
}

/// Whether `c` occurs in `s`.
pub fn contains_char(v: &Vec<char>, c: char) -> (b: bool)
    ensures
        b == v@.contains(c),
{
    let i = find_char_index(v, c);
    if i < v.len() {
        assert(v@[i as int] == c);
        true
    } else {
        assert forall|k: int| 0 <= k < v@.len() implies v@[k] != c by {}
        false
    }
}

/// Replaces every `from` character with `to`.
pub fn replace_char(v: &Vec<char>, from: char, to: char) -> (r: Vec<char>)
    ensures
        r@ == v@.map_values(|x: char| if x == from { to } else { x }),
{
    let mut r: Vec<char> = Vec::new();
    let mut i: usize = 0;
    while i < v.len()
        invariant
            i <= v.len(),
            r@ == v@.take(i as int).map_values(|x: char| if x == from { to } else { x }),
        decreases v.len() - i,
    {
        let x = v[i];
        r.push(if x == from { to } else { x });
        proof {
            assert(v@.take(i + 1) =~= v@.take(i as int).push(x));
            assert(v@.take(i + 1).map_values(|x: char| if x == from { to } else { x })
                =~= v@.take(i as int).map_values(|x: char| if x == from { to } else { x }).push(
                if x == from { to } else { x }));
        }
        i = i + 1;
    }
    proof {
        assert(v@.take(v@.len() as int) =~= v@);
    }
    r
}

/// Whether two character sequences are equal.
pub fn chars_eq(a: &Vec<char>, b: &Vec<char>) -> (r: bool)
    ensures
        r == (a@ == b@),
{
    if a.len() != b.len() {
        return false;
    }
    let mut i: usize = 0;
    while i < a.len()
        invariant
            i <= a.len() == b.len(),
            forall|k: int| 0 <= k < i ==> a@[k] == b@[k],
        decreases a.len() - i,
    {
        if a[i] != b[i] {
            return false;
        }
        i = i + 1;
    }
    assert(a@ =~= b@);
    true
}

// ---------------------------------------------------------------------------
// Splitting
// ---------------------------------------------------------------------------

/// The views of a vector of character vectors.
pub open spec fn views(v: Seq<Vec<char>>) -> Seq<Seq<char>> {
    v.map_values(|x: Vec<char>| x@)
}

pub open spec fn non_ws_pred() -> spec_fn(char) -> bool {
    |c: char| !is_white_space(c)
}

/// `str::split_whitespace`: the maximal runs of non-whitespace characters.
pub open spec fn words(s: Seq<char>) -> Seq<Seq<char>>
    decreases s.len(),
{
    let a = prefix_len_while(s, ws_pred());
    if a >= s.len() {
        seq![]
    } else {
        let t = s.skip(a as int);
        let k = prefix_len_while(t, non_ws_pred());
        if k == 0 {
            seq![]
        } else {
            proof {
                lemma_prefix_len_while_bound(t, non_ws_pred());
            }
            seq![t.take(k as int)] + words(t.skip(k as int))
        }
    }
}

proof fn lemma_views_push(v: Seq<Vec<char>>, x: Vec<char>)
    ensures
        views(v.push(x)) == views(v).push(x@),
{
    assert(views(v.push(x)) =~= views(v).push(x@));
}

/// The words of `v`, as `split_whitespace` yields them.
pub fn words_of(v: &Vec<char>) -> (r: Vec<Vec<char>>)
    ensures
        views(r@) == words(v@),
{
    let n = v.len();
    let mut out: Vec<Vec<char>> = Vec::new();
    let mut pos: usize = 0;
    proof {
        assert(v@.skip(0) =~= v@);
    }
    loop
        invariant
            pos <= n == v.len(),
            words(v@) == views(out@) + words(v@.skip(pos as int)),
        decreases n - pos,
    {
        let mut a = pos;
        while a < n && is_whitespace(v[a])
            invariant
                pos <= a <= n == v.len(),
                forall|k: int| pos <= k < a ==> is_white_space(#[trigger] v@[k]),
            decreases n - a,
        {
            a = a + 1;
        }
        let ghost s = v@.skip(pos as int);
        proof {
            assert forall|k: int| 0 <= k < a - pos implies (ws_pred())(#[trigger] s[k]) by {
                assert(s[k] == v@[k + pos]);
            }
            if a - pos < s.len() {
                assert(s[a - pos] == v@[a as int]);
            }
            lemma_prefix_len_while(s, ws_pred(), a - pos);
        }
        if a == n {
            proof {
                assert(words(s) == Seq::<Seq<char>>::empty());
                assert(views(out@) + words(s) =~= views(out@));
            }
            return out;
        }
        let mut b = a;
        while b < n && !is_whitespace(v[b])
            invariant
                a <= b <= n == v.len(),
                forall|k: int| a <= k < b ==> !is_white_space(#[trigger] v@[k]),
            decreases n - b,
        {
            b = b + 1;
        }
        let ghost t = s.skip(a - pos);
        proof {
            assert(t =~= v@.skip(a as int));
            assert forall|k: int| 0 <= k < b - a implies (non_ws_pred())(#[trigger] t[k]) by {
                assert(t[k] == v@[k + a]);
            }
            if b - a < t.len() {
                assert(t[b - a] == v@[b as int]);
            }
            lemma_prefix_len_while(t, non_ws_pred(), b - a);
            assert(t.take(b - a) =~= v@.subrange(a as int, b as int));
            assert(t.skip(b - a) =~= v@.skip(b as int));
        }
        let w = slice_chars(v, a, b);
        let ghost before = out@;
        out.push(w);
        proof {
            lemma_views_push(before, w);
            assert(views(out@) + words(v@.skip(b as int)) =~= views(before) + (seq![w@] + words(
                v@.skip(b as int),
            )));
        }
        pos = b;
    }
}

/// The segments of `s` between occurrences of `c`, each trimmed, with the
/// empty ones left out: `s.split(c).map(str::trim).filter(|p| !p.is_empty())`.
pub open spec fn trimmed_parts(s: Seq<char>, c: char) -> Seq<Seq<char>>
    decreases s.len(),
{
    let k = find_char(s, c);
    let seg = trim(s.take(k as int));
    let rest = if k < s.len() {
        trimmed_parts(s.skip(k + 1 as int), c)
    } else {
        seq![]
    };
    if seg.len() > 0 {
        seq![seg] + rest
    } else {
        rest
    }
}

/// The trimmed, non-empty segments of `v` between occurrences of `c`.
pub fn trimmed_parts_of(v: &Vec<char>, c: char) -> (r: Vec<Vec<char>>)
    ensures
        views(r@) == trimmed_parts(v@, c),
{
    let n = v.len();
    let mut out: Vec<Vec<char>> = Vec::new();
    let mut start: usize = 0;
    proof {
        assert(v@.skip(0) =~= v@);
    }
    loop
        invariant
            start <= n == v.len(),
            trimmed_parts(v@, c) == views(out@) + trimmed_parts(v@.skip(start as int), c),
        decreases n - start,
    {
        let k = find_char_from(v, start, c);
        let seg = slice_chars(v, start, k);
        let seg = trim_chars(&seg);
        let ghost s = v@.skip(start as int);
        proof {
            assert(s.take(k - start) =~= v@.subrange(start as int, k as int));
            if k < n {
                assert(s.skip(k - start + 1) =~= v@.skip(k + 1));
            }
        }
        let ghost before = out@;
        if seg.len() > 0 {
            out.push(seg);
            proof {
                lemma_views_push(before, seg);
            }
        }
        if k == n {
            proof {
                assert(views(out@) + Seq::<Seq<char>>::empty() =~= views(out@));
                if seg@.len() > 0 {
                    assert(views(out@) =~= views(before) + seq![seg@]);
                }
            }
            return out;
        }
        proof {
            if seg@.len() > 0 {
                assert(views(out@) + trimmed_parts(v@.skip(k + 1), c) =~= views(before) + (seq![
                    seg@,
                ] + trimmed_parts(v@.skip(k + 1), c)));
            }
        }
        start = k + 1;
    }
}

// ---------------------------------------------------------------------------
// Containment
// ---------------------------------------------------------------------------

/// `needle` occurs in `hay` as a contiguous piece.
pub open spec fn contains_text(hay: Seq<char>, needle: Seq<char>) -> bool {
    exists|p: int|
        0 <= p && p + needle.len() <= hay.len() && #[trigger] hay.subrange(p, p + needle.len())
            == needle
}

pub proof fn lemma_contains_self(a: Seq<char>)
    ensures
        contains_text(a, a),
{
    assert(a.subrange(0, 0int + a.len()) =~= a);
}

pub proof fn lemma_contains_concat(a: Seq<char>, b: Seq<char>, needle: Seq<char>)
    ensures
        contains_text(a, needle) ==> contains_text(a + b, needle),
        contains_text(b, needle) ==> contains_text(a + b, needle),
{
    if contains_text(a, needle) {
        let p = choose|p: int|
            0 <= p && p + needle.len() <= a.len() && #[trigger] a.subrange(p, p + needle.len())
                == needle;
        assert((a + b).subrange(p, p + needle.len()) =~= a.subrange(p, p + needle.len()));
    }
    if contains_text(b, needle) {
        let p = choose|p: int|
            0 <= p && p + needle.len() <= b.len() && #[trigger] b.subrange(p, p + needle.len())
                == needle;
        assert((a + b).subrange(a.len() + p, a.len() + p + needle.len()) =~= b.subrange(
            p,
            p + needle.len(),
        ));
    }
}

pub proof fn lemma_contains_trans(a: Seq<char>, b: Seq<char>, c: Seq<char>)
    requires
        contains_text(a, b),
        contains_text(b, c),
    ensures
        contains_text(a, c),
{
    let p = choose|p: int|
        0 <= p && p + b.len() <= a.len() && #[trigger] a.subrange(p, p + b.len()) == b;
    let q = choose|q: int|
        0 <= q && q + c.len() <= b.len() && #[trigger] b.subrange(q, q + c.len()) == c;
    assert(a.subrange(p + q, p + q + c.len()) =~= b.subrange(q, q + c.len()));
}

// ---------------------------------------------------------------------------
// Lines
// ---------------------------------------------------------------------------

/// A line with the `\r` of a `\r\n` ending removed.
pub open spec fn without_cr(l: Seq<char>) -> Seq<char> {
    if l.len() > 0 && l.last() == '\r' {
        l.drop_last()
    } else {
        l
    }
}

/// `str::lines`: the text split at `\n` (and `\r\n`) line endings; a final
/// line ending is optional and adds no empty line.
pub open spec fn lines(s: Seq<char>) -> Seq<Seq<char>>
    decreases s.len(),
{
    if s.len() == 0 {
        seq![]
    } else {
        let k = find_char(s, '\n');
        if k < s.len() {
            seq![without_cr(s.take(k as int))] + lines(s.skip(k + 1 as int))
        } else {
            seq![s]
        }
    }
}

/// The lines of a text.
pub fn lines_of(v: &Vec<char>) -> (r: Vec<Vec<char>>)
    ensures
        views(r@) == lines(v@),
{
    let n = v.len();
    let mut out: Vec<Vec<char>> = Vec::new();
    let mut start: usize = 0;
    proof {
        assert(v@.skip(0) =~= v@);
    }
    while start < n
        invariant
            start <= n == v.len(),
            lines(v@) == views(out@) + lines(v@.skip(start as int)),
        decreases n - start,
    {
        let k = find_char_from(v, start, '\n');
        let ghost s = v@.skip(start as int);
        let ghost before = out@;
        if k < n {
            let mut end = k;
            if end > start && v[end - 1] == '\r' {
                end = end - 1;
            }
            let line = slice_chars(v, start, end);
            proof {
                assert(s.take(k - start) =~= v@.subrange(start as int, k as int));
                assert(line@ =~= without_cr(v@.subrange(start as int, k as int)));
                assert(s.skip(k - start + 1) =~= v@.skip(k + 1));
            }
            out.push(line);
            proof {
                lemma_views_push(before, line);
                assert(views(out@) + lines(v@.skip(k + 1)) =~= views(before) + (seq![line@]
                    + lines(v@.skip(k + 1))));
            }
            start = k + 1;
        } else {
            let line = slice_chars(v, start, n);
            proof {
                assert(line@ =~= s);
            }
            out.push(line);
            proof {
                lemma_views_push(before, line);
                assert(v@.skip(n as int) =~= Seq::<char>::empty());
                assert(views(out@) + lines(v@.skip(n as int)) =~= views(before) + seq![line@]);
            }
            start = n;
        }
    }
    proof {
        assert(v@.skip(n as int) =~= Seq::<char>::empty());
        assert(views(out@) + Seq::<Seq<char>>::empty() =~= views(out@));
    }
    out
}

// ---------------------------------------------------------------------------
// Decimal numbers
// ---------------------------------------------------------------------------

pub open spec fn is_digit(c: char) -> bool {
    '0' <= c && c <= '9'
}

pub open spec fn digit_value(c: char) -> nat {
    ((c as u32) - ('0' as u32)) as nat
}

/// The value of a string of decimal digits.
pub open spec fn digits_value(d: Seq<char>) -> nat
    decreases d.len(),
{
    if d.len() == 0 {
        0
    } else {
        digits_value(d.drop_last()) * 10 + digit_value(d.last())
    }
}

/// The text after an optional leading `+`.
pub open spec fn unsigned_digits(s: Seq<char>) -> Seq<char> {
    if s.len() > 0 && s[0] == '+' {
        s.drop_first()
    } else {
        s
    }
}

pub open spec fn all_digits(d: Seq<char>) -> bool {
    forall|k: int| 0 <= k < d.len() ==> is_digit(#[trigger] d[k])
}

/// What `str::parse::<u64>` accepts: an optional `+`, then one or more
/// ASCII digits whose value fits in 64 bits.
pub open spec fn parsed_u64(s: Seq<char>) -> Option<u64> {
    let d = unsigned_digits(s);
    if d.len() > 0 && all_digits(d) && digits_value(d) <= u64::MAX {
        Some(digits_value(d) as u64)
    } else {
        None
    }
}

proof fn lemma_digits_value_grows(d: Seq<char>, i: int, j: int)
    requires
        0 <= i <= j <= d.len(),
    ensures
        digits_value(d.take(i)) <= digits_value(d.take(j)),
    decreases j - i,
{
    if i < j {
        lemma_digits_value_grows(d, i, j - 1);
        assert(d.take(j).drop_last() =~= d.take(j - 1));
    }
}

/// `str::parse::<u64>`.
pub fn parse_u64(v: &Vec<char>) -> (r: Option<u64>)
    ensures
        r == parsed_u64(v@),
{
    let start: usize = if v.len() > 0 && v[0] == '+' {
        1
    } else {
        0
    };
    let ghost d = if v@.len() > 0 && v@[0] == '+' {
        v@.drop_first()
    } else {
        v@
    };
    proof {
        assert(d =~= v@.skip(start as int));
    }
    if start == v.len() {
        return None;
    }
    let mut acc: u64 = 0;
    let mut i = start;
    proof {
        assert(d.take(0) =~= Seq::<char>::empty());
    }
    while i < v.len()
        invariant
            start <= i <= v.len(),
            start < v.len(),
            d == v@.skip(start as int),
            d == unsigned_digits(v@),
            forall|k: int| 0 <= k < i - start ==> is_digit(#[trigger] d[k]),
            acc as nat == digits_value(d.take(i - start)),
        decreases v.len() - i,
    {
        let c = v[i];
        if !('0' <= c && c <= '9') {
            proof {
                assert(d[i - start] == c);
                assert(!is_digit(d[i - start]));
                assert(!all_digits(d));
            }
            return None;
        }
        let dv = (c as u32 - '0' as u32) as u64;
        proof {
            assert(d[i - start] == c);
            assert(d.take(i - start + 1).drop_last() =~= d.take(i - start));
            assert(d.take(i - start + 1).last() == c);
        }
        match acc.checked_mul(10) {
            Some(m) => match m.checked_add(dv) {
                Some(a) => {
                    acc = a;
                },
                None => {
                    proof {
                        assert(digit_value(c) == dv);
                        assert(digits_value(d.take(i - start + 1)) == acc * 10 + dv);
                        lemma_digits_value_grows(d, i - start + 1, d.len() as int);
                        assert(d.take(d.len() as int) =~= d);
                    }
                    return None;
                },
            },
            None => {
                proof {
                    lemma_digits_value_grows(d, i - start + 1, d.len() as int);
                    assert(d.take(d.len() as int) =~= d);
                }
                return None;
            },
        }
        i = i + 1;
    }
    proof {
        assert(d.take(d.len() as int) =~= d);
    }
    Some(acc)
}

/// The decimal spelling of a natural number.
pub open spec fn decimal(n: nat) -> Seq<char>
    decreases n,
{
    if n < 10 {
        seq![(('0' as u32) + n) as char]
    } else {
        decimal(n / 10) + seq![(('0' as u32) + (n % 10)) as char]
    }
}

/// The decimal spelling of an integer, with a leading `-` when negative.
pub open spec fn signed_decimal(n: int) -> Seq<char> {
    if n < 0 {
        seq!['-'] + decimal((-n) as nat)
    } else {
        decimal(n as nat)
    }
}

fn digit_char(d: u64) -> (c: char)
    requires
        d < 10,
    ensures
        c == (('0' as u32) + d) as char,
{
    let b = (48 + d) as u8;
    b as char
}

/// The decimal spelling of `n`.
pub fn u64_text(n: u64) -> (r: Vec<char>)
    ensures
        r@ == decimal(n as nat),
    decreases n,
{
    if n < 10 {
        let mut v: Vec<char> = Vec::new();
        v.push(digit_char(n));
        proof {
            assert(v@ =~= decimal(n as nat));
        }
        v
    } else {
        let mut v = u64_text(n / 10);
        v.push(digit_char(n % 10));
        proof {
            assert(v@ =~= decimal(n as nat));
        }
        v
    }
}

/// The decimal spelling of `n`, signed.
pub fn i64_text(n: i64) -> (r: Vec<char>)
    ensures
        r@ == signed_decimal(n as int),
{
    if n < 0 {
        let m: u64 = if n == i64::MIN {
            9223372036854775808u64
        } else {
            (-n) as u64
        };
        let mut v: Vec<char> = Vec::new();
        v.push('-');
        let t = u64_text(m);
        push_all(&mut v, &t);
        v
    } else {
        u64_text(n as u64)
    }
}

// ---------------------------------------------------------------------------
// Character classes
// ---------------------------------------------------------------------------

/// What `char::is_alphanumeric` returns: the Unicode `Alphabetic` or
/// `Numeric` property.
pub uninterp spec fn char_alphanumeric(c: char) -> bool;

/// `char::is_alphanumeric`.
#[verifier::external_body]
pub(crate) fn is_alphanumeric(c: char) -> (b: bool)
    ensures
        b == char_alphanumeric(c),
{
    c.is_alphanumeric()
}

pub open spec fn not_alphanumeric_pred() -> spec_fn(char) -> bool {
    |c: char| !char_alphanumeric(c)
}

/// `trim_matches(|c| !c.is_alphanumeric())`.
pub fn strip_non_alphanumeric(v: &Vec<char>) -> (r: Vec<char>)
    ensures
        r@ == strip_while(v@, not_alphanumeric_pred()),
{
    let n = v.len();
    let mut i: usize = 0;
    while i < n && !is_alphanumeric(v[i])
        invariant
            i <= n == v.len(),
            forall|k: int| 0 <= k < i ==> !char_alphanumeric(#[trigger] v@[k]),
        decreases n - i,
    {
        i = i + 1;
    }
    proof {
        assert forall|k: int| 0 <= k < i implies (not_alphanumeric_pred())(#[trigger] v@[k]) by {}
        lemma_prefix_len_while(v@, not_alphanumeric_pred(), i as int);
    }
    let ghost t = v@.skip(i as int);
    let mut j: usize = n;
    while j > i && !is_alphanumeric(v[j - 1])
        invariant
            i <= j <= n == v.len(),
            t == v@.skip(i as int),
            forall|k: int| j <= k < n ==> !char_alphanumeric(#[trigger] v@[k]),
        decreases j,
    {
        j = j - 1;
    }
    proof {
        assert forall|k: int| t.len() - (n - j) <= k < t.len() implies (not_alphanumeric_pred())(
            #[trigger] t[k],
        ) by {
            assert(t[k] == v@[k + i]);
        }
        if n - j < t.len() {
            assert(t[t.len() - (n - j) - 1] == v@[j - 1]);
        }
        lemma_suffix_len_while(t, not_alphanumeric_pred(), (n - j) as int);
        assert(strip_while(v@, not_alphanumeric_pred()) =~= v@.subrange(i as int, j as int));
    }
    slice_chars(v, i, j)
}

/// Whether a character vector spells the given string.
pub fn chars_eq_str(v: &Vec<char>, s: &str) -> (b: bool)
    ensures
        b == (v@ == s@),
{
    let w = chars_of(s);
    chars_eq(v, &w)
}

/// Whether `v` contains a vector equal to `w`.
pub fn contains_chars(v: &Vec<Vec<char>>, w: &Vec<char>) -> (b: bool)
    ensures
        b == views(v@).contains(w@),
{
    let mut i: usize = 0;
    while i < v.len()
        invariant
            i <= v.len(),
            forall|k: int| 0 <= k < i ==> v@[k]@ != w@,
        decreases v.len() - i,
    {
        if chars_eq(&v[i], w) {
            proof {
                assert(views(v@)[i as int] == w@);
            }
            return true;
        }
        i = i + 1;
    }
    proof {
        assert forall|k: int| 0 <= k < views(v@).len() implies views(v@)[k] != w@ by {
            assert(views(v@)[k] == v@[k]@);
        }
    }
    false
}

// ---------------------------------------------------------------------------
// Case mapping
// ---------------------------------------------------------------------------

/// What `str::to_lowercase` returns for a string: its Unicode lowercase
/// mapping (including the context-dependent final sigma).
pub uninterp spec fn unicode_lowercase(s: Seq<char>) -> Seq<char>;

/// `str::to_lowercase`.
#[verifier::external_body]
pub(crate) fn to_lowercase(s: &str) -> (r: String)
    ensures
        r@ == unicode_lowercase(s@),
{
    s.to_lowercase()
}

/// ASCII case folding of one character (`char::to_ascii_lowercase`).
pub open spec fn ascii_lower(c: char) -> char {
    if 'A' <= c && c <= 'Z' {
        ((c as u32) + 32) as char
    } else {
        c
    }
}

pub fn ascii_lower_char(c: char) -> (r: char)
    ensures
        r == ascii_lower(c),
{
    if 'A' <= c && c <= 'Z' {
        let u = (c as u32) + 32;
        proof {
            assert('a' as u32 <= u <= 'z' as u32);
        }
        char_from_ascii(u)
    } else {
        c
    }
}

/// An ASCII code point as a character.
fn char_from_ascii(u: u32) -> (c: char)
    requires
        u < 128,
    ensures
        c == u as char,
{
    let b = u as u8;
    b as char
}

/// `str::eq_ignore_ascii_case`.
pub open spec fn eq_ignore_ascii_case(a: Seq<char>, b: Seq<char>) -> bool {
    a.len() == b.len() && forall|k: int| 0 <= k < a.len() ==> ascii_lower(#[trigger] a[k])
        == ascii_lower(b[k])
}

pub fn chars_eq_ignore_ascii_case(a: &Vec<char>, b: &str) -> (r: bool)
    ensures
        r == eq_ignore_ascii_case(a@, b@),
{
    let w = chars_of(b);
    if a.len() != w.len() {
        return false;
    }
    let mut i: usize = 0;
    while i < a.len()
        invariant
            i <= a.len() == w.len(),
            w@ == b@,
            forall|k: int| 0 <= k < i ==> ascii_lower(#[trigger] a@[k]) == ascii_lower(w@[k]),
        decreases a.len() - i,
    {
        if ascii_lower_char(a[i]) != ascii_lower_char(w[i]) {
            return false;
        }
        i = i + 1;
    }
    true
}

/// The texts of a sequence of strings.
pub open spec fn strings_view(v: Seq<String>) -> Seq<Seq<char>> {
    v.map_values(|s: String| s@)
}

/// The text of an optional string.
pub open spec fn opt_string_view(o: Option<String>) -> Option<Seq<char>> {
    match o {
        Some(s) => Some(s@),
        None => None,
    }
}

/// A copy of an optional string.
pub fn copy_opt(o: &Option<String>) -> (r: Option<String>)
    ensures
        opt_string_view(r) == opt_string_view(*o),
{
    match o {
        Some(s) => Some(s.as_str().to_owned()),
        None => None,
    }
}

/// The pieces of `s` between occurrences of `c` (`str::split`): one more
/// than the number of `c`s, empty pieces included.
pub open spec fn pieces(s: Seq<char>, c: char) -> Seq<Seq<char>>
    decreases s.len(),
{
    let k = find_char(s, c);
    if k < s.len() {
        seq![s.take(k as int)] + pieces(s.skip(k + 1 as int), c)
    } else {
        seq![s]
    }
}

} // verus!
