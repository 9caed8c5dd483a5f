//! The review web UI's logic: request routing, query decoding, the JSON
//! payloads of the page, and applying a human verdict.
//!
//! The web side only ever writes DECISIONS; the reconcile loop remains the
//! sole component that talks to Listenarr. Serving HTTP and reaching the
//! decision table are left to the program around the library.

use vstd::prelude::*;

use crate::json::{
    entry, float_or_null, int_or_null, is_float_or_null, is_int_or_null, is_text, is_text_list,
    is_text_or_null, Json, lemma_members, member, member_text, text, text_list, text_of,
    text_or_null,
};
use crate::matcher::{first_listed, query_title, query_title_of, Candidate};
use crate::reconcile::count_status;
use crate::store::{
    actionable, key_author, key_author_of, key_title, key_title_of, opt_deref, status_text, Decision,
    DecisionStatus, FULL_CONFIDENCE_BITS,
};
use crate::text::{
    chars_eq, chars_eq_str, chars_of, copy_opt, find_char, find_char_from, opt_string_view, pieces,
    slice_chars, string_of, strings_view, trim, trim_str,
};
use vstd::utf8::{
    decode_utf8, encode_scalar, encode_utf8, has_width_1_encoding, is_continuation_byte, is_scalar,
    leading_byte_width_1, valid_utf8,
};

verus! {

// ---------------------------------------------------------------------------
// Percent-decoding
// ---------------------------------------------------------------------------

pub open spec fn hex_value(b: u8) -> Option<u8> {
    if 0x30 <= b <= 0x39 {
        Some((b - 0x30) as u8)
    } else if 0x61 <= b <= 0x66 {
        Some((b - 0x61 + 10) as u8)
    } else if 0x41 <= b <= 0x46 {
        Some((b - 0x41 + 10) as u8)
    } else {
        None
    }
}

/// What `u8::from_str_radix(.., 16)` makes of the two bytes after a `%`:
/// two hex digits, or `+` and one hex digit.
pub open spec fn hex_pair(b1: u8, b2: u8) -> Option<u8> {
    match (hex_value(b1), hex_value(b2)) {
        (Some(h), Some(l)) => Some((h * 16 + l) as u8),
        (None, Some(l)) => if b1 == 0x2b {
            Some(l)
        } else {
            None
        },
        _ => None,
    }
}

/// Query-string decoding of bytes: `+` is a space, `%` and a hex pair is
/// that byte, anything else (a `%` included) stands for itself.
pub open spec fn url_decoded_bytes(b: Seq<u8>) -> Seq<u8>
    decreases b.len(),
{
    if b.len() == 0 {
        seq![]
    } else if b[0] == 0x2b {
        seq![0x20u8] + url_decoded_bytes(b.drop_first())
    } else if b[0] == 0x25 && 2 < b.len() && hex_pair(b[1], b[2]) is Some {
        seq![hex_pair(b[1], b[2])->0] + url_decoded_bytes(b.skip(3))
    } else {
        seq![b[0]] + url_decoded_bytes(b.drop_first())
    }
}

/// What `String::from_utf8_lossy` returns: the text of the bytes, with
/// each invalid sequence replaced by U+FFFD.
pub uninterp spec fn utf8_lossy(bytes: Seq<u8>) -> Seq<char>;

/// `String::from_utf8_lossy`; valid UTF-8 is decoded as it is.
#[verifier::external_body]
fn from_utf8_lossy(bytes: &[u8]) -> (r: String)
    ensures
        r@ == utf8_lossy(bytes@),
        valid_utf8(bytes@) ==> r@ == decode_utf8(bytes@),
{
    String::from_utf8_lossy(bytes).into_owned()
}

/// The decoded text of a query-string value.
pub open spec fn url_decoded(s: Seq<char>) -> Seq<char> {
    utf8_lossy(url_decoded_bytes(encode_utf8(s)))
}

/// The texts `urldecode` handles: every `%` with two more bytes after it is
/// followed by two whole characters (decoding slices the text after the `%`).
pub open spec fn url_decodable(s: Seq<char>) -> bool {
    let b = encode_utf8(s);
    forall|i: int|
        0 <= i && i + 2 < b.len() && #[trigger] b[i] == 0x25 ==> i + 3 == b.len()
            || !is_continuation_byte(b[i + 3])
}

fn hex_value_exec(b: u8) -> (r: Option<u8>)
    ensures
        r == hex_value(b),
{
    if 0x30 <= b && b <= 0x39 {
        Some(b - 0x30)
    } else if 0x61 <= b && b <= 0x66 {
        Some(b - 0x61 + 10)
    } else if 0x41 <= b && b <= 0x46 {
        Some(b - 0x41 + 10)
    } else {
        None
    }
}

fn hex_pair_exec(b1: u8, b2: u8) -> (r: Option<u8>)
    ensures
        r == hex_pair(b1, b2),
{
    match (hex_value_exec(b1), hex_value_exec(b2)) {
        (Some(h), Some(l)) => Some(h * 16 + l),
        (None, Some(l)) => if b1 == 0x2b {
            Some(l)
        } else {
            None
        },
        _ => None,
    }
}

/// Decodes a query-string value.
pub fn urldecode(s: &str) -> (r: String)
    requires
        url_decodable(s@),
    ensures
        r@ == url_decoded(s@),
        valid_utf8(url_decoded_bytes(encode_utf8(s@))) ==> r@ == decode_utf8(
            url_decoded_bytes(encode_utf8(s@)),
        ),
        !s@.contains('%') && !s@.contains('+') ==> r@ == s@,
{
    let bytes = s.as_bytes();
    let ghost b = bytes@;
    let mut out: Vec<u8> = Vec::new();
    let mut i: usize = 0;
    proof {
        assert(b.skip(0) =~= b);
    }
    while i < bytes.len()
        invariant
            i <= bytes@.len(),
            b == bytes@,
            url_decoded_bytes(b) == out@ + url_decoded_bytes(b.skip(i as int)),
        decreases bytes.len() - i,
    {
        let ghost rest = b.skip(i as int);
        let ghost before = out@;
        proof {
            assert(rest[0] == b[i as int]);
            assert(rest.drop_first() =~= b.skip(i + 1));
        }
        if bytes[i] == 0x2b {
            out.push(0x20);
            proof {
                assert(out@ + url_decoded_bytes(b.skip(i + 1)) =~= before + (seq![0x20u8]
                    + url_decoded_bytes(b.skip(i + 1))));
            }
            i = i + 1;
        } else if bytes[i] == 0x25 && bytes.len() - i > 2 {
            proof {
                assert(rest[1] == b[i + 1]);
                assert(rest[2] == b[i + 2]);
            }
            match hex_pair_exec(bytes[i + 1], bytes[i + 2]) {
                Some(v) => {
                    out.push(v);
                    proof {
                        assert(rest.skip(3) =~= b.skip(i + 3));
                        assert(out@ + url_decoded_bytes(b.skip(i + 3)) =~= before + (seq![v]
                            + url_decoded_bytes(b.skip(i + 3))));
                    }
                    i = i + 3;
                },
                None => {
                    out.push(0x25);
                    proof {
                        assert(out@ + url_decoded_bytes(b.skip(i + 1)) =~= before + (seq![0x25u8]
                            + url_decoded_bytes(b.skip(i + 1))));
                    }
                    i = i + 1;
                },
            }
        } else {
            let c = bytes[i];
            out.push(c);
            proof {
                assert(out@ + url_decoded_bytes(b.skip(i + 1)) =~= before + (seq![c]
                    + url_decoded_bytes(b.skip(i + 1))));
            }
            i = i + 1;
        }
    }
    proof {
        assert(b.skip(b.len() as int) =~= Seq::<u8>::empty());
        assert(out@ + Seq::<u8>::empty() =~= out@);
        if !s@.contains('%') && !s@.contains('+') {
            lemma_plain_text_plain_bytes(s@);
            lemma_plain_bytes_decode_to_themselves(b);
            vstd::utf8::encode_utf8_valid_utf8(s@);
            vstd::utf8::encode_utf8_decode_utf8(s@);
        }
    }
    from_utf8_lossy(out.as_slice())
}

/// Whether `urldecode` handles this text (see `url_decodable`).
pub fn is_url_decodable(s: &str) -> (b: bool)
    ensures
        b == url_decodable(s@),
{
    let bytes = s.as_bytes();
    let n = bytes.len();
    let mut i: usize = 0;
    while i < n
        invariant
            i <= n == bytes@.len(),
            bytes@ == encode_utf8(s@),
            forall|k: int|
                0 <= k < i && k + 2 < n && #[trigger] bytes@[k] == 0x25 ==> k + 3 == n
                    || !is_continuation_byte(bytes@[k + 3]),
        decreases n - i,
    {
        if bytes[i] == 0x25 && n - i > 3 {
            let c = bytes[i + 3];
            if 0x80 <= c && c <= 0xbf {
                return false;
            }
        }
        i = i + 1;
    }
    true
}

proof fn lemma_plain_bytes_decode_to_themselves(b: Seq<u8>)
    requires
        forall|i: int| 0 <= i < b.len() ==> #[trigger] b[i] != 0x25 && b[i] != 0x2b,
    ensures
        url_decoded_bytes(b) == b,
    decreases b.len(),
{
    if b.len() > 0 {
        let t = b.drop_first();
        assert forall|i: int| 0 <= i < t.len() implies #[trigger] t[i] != 0x25 && t[i] != 0x2b by {
            assert(t[i] == b[i + 1]);
        }
        lemma_plain_bytes_decode_to_themselves(t);
        assert(b =~= seq![b[0]] + t);
    }
}

proof fn lemma_multibyte_bytes_high(v: u32)
    requires
        is_scalar(v),
        !has_width_1_encoding(v),
    ensures
        forall|i: int| 0 <= i < encode_scalar(v).len() ==> #[trigger] encode_scalar(v)[i] >= 0x80,
{
    let a = (v >> 6) & 0x1F;
    let b = (v >> 12) & 0x0F;
    let c = (v >> 18) & 0x7;
    let d = v & 0x3F;
    let e = (v >> 6) & 0x3F;
    let f = (v >> 12) & 0x3F;
    assert((0xC0u8 | (a as u8)) >= 0x80) by (bit_vector);
    assert((0xE0u8 | (b as u8)) >= 0x80) by (bit_vector);
    assert((0xF0u8 | (c as u8)) >= 0x80) by (bit_vector);
    assert((0x80u8 | (d as u8)) >= 0x80) by (bit_vector);
    assert((0x80u8 | (e as u8)) >= 0x80) by (bit_vector);
    assert((0x80u8 | (f as u8)) >= 0x80) by (bit_vector);
}

proof fn lemma_ascii_byte_is_char(v: u32)
    requires
        has_width_1_encoding(v),
    ensures
        leading_byte_width_1(v) as u32 == v,
{
    assert(v <= 0x7F ==> ((v & 0x7F) as u8) as u32 == v) by (bit_vector);
}

/// A byte below 0x80 in the UTF-8 encoding of a text is one of its
/// characters.
proof fn lemma_low_byte_is_a_char(s: Seq<char>, i: int)
    requires
        0 <= i < encode_utf8(s).len(),
        encode_utf8(s)[i] < 0x80,
    ensures
        s.contains(encode_utf8(s)[i] as char),
    decreases s.len(),
{
    let v = s[0] as u32;
    vstd::utf8::char_is_scalar(s[0]);
    let first = encode_scalar(v);
    let rest = s.drop_first();
    assert(encode_utf8(s) == first + encode_utf8(rest));
    if i < first.len() {
        if has_width_1_encoding(v) {
            lemma_ascii_byte_is_char(v);
            assert(encode_utf8(s)[i] == first[0]);
            vstd::utf8::char_u32_cast(s[0], v);
            assert((encode_utf8(s)[i] as u32) == v);
            assert(encode_utf8(s)[i] as char == s[0]);
        } else {
            lemma_multibyte_bytes_high(v);
            assert(encode_utf8(s)[i] == first[i]);
        }
    } else {
        assert(encode_utf8(s)[i] == encode_utf8(rest)[i - first.len()]);
        lemma_low_byte_is_a_char(rest, i - first.len());
        let c = encode_utf8(s)[i] as char;
        let k = choose|k: int| 0 <= k < rest.len() && rest[k] == c;
        assert(s[k + 1] == c);
    }
}

proof fn lemma_plain_text_plain_bytes(s: Seq<char>)
    requires
        !s.contains('%'),
        !s.contains('+'),
    ensures
        forall|i: int|
            0 <= i < encode_utf8(s).len() ==> #[trigger] encode_utf8(s)[i] != 0x25
                && encode_utf8(s)[i] != 0x2b,
{
    assert forall|i: int| 0 <= i < encode_utf8(s).len() implies #[trigger] encode_utf8(s)[i]
        != 0x25 && encode_utf8(s)[i] != 0x2b by {
        if encode_utf8(s)[i] == 0x25 || encode_utf8(s)[i] == 0x2b {
            lemma_low_byte_is_a_char(s, i);
            assert((0x25u8 as char) == '%');
            assert((0x2bu8 as char) == '+');
        }
    }
}

// ---------------------------------------------------------------------------
// Query strings and routes
// ---------------------------------------------------------------------------

/// The raw value of the first `name=value` pair of a query string (pairs
/// separated by `&`, each split at its first `=`; pairs without `=` are
/// skipped).
pub open spec fn query_value(q: Seq<char>, name: Seq<char>) -> Option<Seq<char>>
    decreases q.len(),
{
    let k = find_char(q, '&');
    let kv = q.take(k as int);
    let e = find_char(kv, '=');
    if e < kv.len() && kv.take(e as int) == name {
        Some(kv.skip(e + 1 as int))
    } else if k < q.len() {
        query_value(q.skip(k + 1 as int), name)
    } else {
        None
    }
}

/// The query texts `query_param` handles: the value it would decode is
/// decodable.
pub open spec fn query_param_supported(q: Seq<char>, name: Seq<char>) -> bool {
    match query_value(q, name) {
        Some(v) => url_decodable(v),
        None => true,
    }
}

fn raw_query_value(q: &Vec<char>, name: &str) -> (r: Option<Vec<char>>)
    ensures
        match r {
            Some(v) => query_value(q@, name@) == Some(v@),
            None => query_value(q@, name@) is None,
        },
{
    let nv = chars_of(name);
    let n = q.len();
    let mut start: usize = 0;
    proof {
        assert(q@.skip(0) =~= q@);
    }
    loop
        invariant
            start <= n == q.len(),
            nv@ == name@,
            query_value(q@, name@) == query_value(q@.skip(start as int), name@),
        decreases n - start,
    {
        let k = find_char_from(q, start, '&');
        let kv = slice_chars(q, start, k);
        let ghost rest = q@.skip(start as int);
        proof {
            assert(rest.take(k - start) =~= kv@);
            if k < n {
                assert(rest.skip(k - start + 1) =~= q@.skip(k + 1));
            }
        }
        let e = find_char_from(&kv, 0, '=');
        proof {
            assert(kv@.skip(0) =~= kv@);
        }
        if e < kv.len() {
            let key = slice_chars(&kv, 0, e);
            proof {
                assert(key@ =~= kv@.take(e as int));
            }
            if chars_eq(&key, &nv) {
                let v = slice_chars(&kv, e + 1, kv.len());
                proof {
                    assert(v@ =~= kv@.skip(e + 1));
                }
                return Some(v);
            }
        }
        if k == n {
            return None;
        }
        start = k + 1;
    }
}

/// The decoded value of the first `name=value` pair of a query string.
pub fn query_param(query: &str, name: &str) -> (r: Option<String>)
    requires
        query_param_supported(query@, name@),
    ensures
        match r {
            Some(v) => query_value(query@, name@) matches Some(raw) && v@ == url_decoded(raw),
            None => query_value(query@, name@) is None,
        },
{
    let q = chars_of(query);
    match raw_query_value(&q, name) {
        Some(v) => {
            let t = string_of(&v);
            Some(urldecode(t.as_str()))
        },
        None => None,
    }
}

/// What the review UI serves for a request.
#[derive(Debug)]
pub enum Route {
    /// GET /: the page itself.
    Page,
    /// GET /api/status: lane counts and the last cycle.
    Status,
    /// GET /api/notfound: the not-found lane.
    NotFoundLane,
    /// GET /api/history: every decision, newest first.
    History,
    /// GET /api/queue: the review queue.
    Queue,
    /// GET /api/alternatives: a live search for a book (`key`, optional `q`).
    Alternatives { key: Option<String>, q: Option<String> },
    /// POST /api/decide: a human verdict.
    Decide,
    /// Anything else: 404.
    Unknown,
}

/// The part of a URL before the first `?`, and the part after it.
pub open spec fn url_path(url: Seq<char>) -> Seq<char> {
    url.take(find_char(url, '?') as int)
}

pub open spec fn url_query(url: Seq<char>) -> Seq<char> {
    if find_char(url, '?') < url.len() {
        url.skip(find_char(url, '?') + 1 as int)
    } else {
        seq![]
    }
}

/// The requests `route` handles: an alternatives lookup's `key` and `q`
/// must be decodable.
pub open spec fn route_supported(url: Seq<char>) -> bool {
    query_param_supported(url_query(url), "key"@) && query_param_supported(url_query(url), "q"@)
}

/// The requests `route` handles: only an alternatives lookup decodes its
/// query, so only there must `key` and `q` be decodable.
pub open spec fn route_handled(is_get: bool, url: Seq<char>) -> bool {
    is_get && url_path(url) == "/api/alternatives"@ ==> route_supported(url)
}

/// The route of a request, from its method (`is_post`: POST, else GET) and
/// URL.
pub open spec fn route_of(is_get: bool, is_post: bool, url: Seq<char>) -> int {
    let p = url_path(url);
    if is_get && p == "/"@ {
        0
    } else if is_get && p == "/api/status"@ {
        1
    } else if is_get && p == "/api/notfound"@ {
        2
    } else if is_get && p == "/api/history"@ {
        3
    } else if is_get && p == "/api/queue"@ {
        4
    } else if is_get && p == "/api/alternatives"@ {
        5
    } else if is_post && p == "/api/decide"@ {
        6
    } else {
        7
    }
}

pub open spec fn route_number(r: Route) -> int {
    match r {
        Route::Page => 0,
        Route::Status => 1,
        Route::NotFoundLane => 2,
        Route::History => 3,
        Route::Queue => 4,
        Route::Alternatives { .. } => 5,
        Route::Decide => 6,
        Route::Unknown => 7,
    }
}

/// Where a request goes. `is_get` / `is_post` say whether its method is GET
/// or POST.
pub fn route(is_get: bool, is_post: bool, url: &str) -> (r: Route)
    requires
        route_handled(is_get, url@),
    ensures
        route_number(r) == route_of(is_get, is_post, url@),
        r matches Route::Alternatives { key, q } ==> {
            &&& match key {
                Some(k) => query_value(url_query(url@), "key"@) matches Some(raw) && k@
                    == url_decoded(raw),
                None => query_value(url_query(url@), "key"@) is None,
            }
            &&& match q {
                Some(k) => query_value(url_query(url@), "q"@) matches Some(raw) && k@
                    == url_decoded(raw),
                None => query_value(url_query(url@), "q"@) is None,
            }
        },
{
    let v = chars_of(url);
    let k = find_char_from(&v, 0, '?');
    proof {
        assert(v@.skip(0) =~= v@);
    }
    let path = slice_chars(&v, 0, k);
    let query = if k < v.len() {
        slice_chars(&v, k + 1, v.len())
    } else {
        Vec::new()
    };
    proof {
        assert(path@ =~= url_path(url@));
        assert(query@ =~= url_query(url@));
    }
    if is_get && chars_eq_str(&path, "/") {
        Route::Page
    } else if is_get && chars_eq_str(&path, "/api/status") {
        Route::Status
    } else if is_get && chars_eq_str(&path, "/api/notfound") {
        Route::NotFoundLane
    } else if is_get && chars_eq_str(&path, "/api/history") {
        Route::History
    } else if is_get && chars_eq_str(&path, "/api/queue") {
        Route::Queue
    } else if is_get && chars_eq_str(&path, "/api/alternatives") {
        let qs = string_of(&query);
        Route::Alternatives { key: query_param(qs.as_str(), "key"), q: query_param(qs.as_str(), "q") }
    } else if is_post && chars_eq_str(&path, "/api/decide") {
        Route::Decide
    } else {
        Route::Unknown
    }
}

fn query_param_is_supported(q: &Vec<char>, name: &str) -> (b: bool)
    ensures
        b == query_param_supported(q@, name@),
{
    match raw_query_value(q, name) {
        Some(v) => {
            let t = string_of(&v);
            is_url_decodable(t.as_str())
        },
        None => true,
    }
}

/// Whether `route` handles this request (see `route_handled`).
pub fn is_route_supported(is_get: bool, url: &str) -> (b: bool)
    ensures
        b == route_handled(is_get, url@),
{
    let v = chars_of(url);
    let k = find_char_from(&v, 0, '?');
    proof {
        assert(v@.skip(0) =~= v@);
    }
    let path = slice_chars(&v, 0, k);
    proof {
        assert(path@ =~= url_path(url@));
    }
    if !(is_get && chars_eq_str(&path, "/api/alternatives")) {
        return true;
    }
    let query = if k < v.len() {
        slice_chars(&v, k + 1, v.len())
    } else {
        Vec::new()
    };
    proof {
        assert(query@ =~= url_query(url@));
    }
    query_param_is_supported(&query, "key") && query_param_is_supported(&query, "q")
}

// ---------------------------------------------------------------------------
// Payloads
// ---------------------------------------------------------------------------


fn split_texts(s: &str, c: char) -> (j: Json)
    ensures
        is_text_list(Some(j), pieces(s@, c)),
{
    let v = chars_of(s);
    let n = v.len();
    let mut items: Vec<Json> = Vec::new();
    let mut start: usize = 0;
    let ghost done: Seq<Seq<char>> = seq![];
    proof {
        assert(v@.skip(0) =~= v@);
    }
    loop
        invariant
            start <= n == v.len(),
            items@.len() == done.len(),
            forall|i: int| 0 <= i < done.len() ==> (#[trigger] items@[i] matches Json::Str(t) && t@
                == done[i]),
            pieces(v@, c) == done + pieces(v@.skip(start as int), c),
            v@ == s@,
        decreases n - start,
    {
        let k = find_char_from(&v, start, c);
        let piece = slice_chars(&v, start, k);
        let ghost rest = v@.skip(start as int);
        proof {
            assert(rest.take(k - start) =~= piece@);
        }
        let t = string_of(&piece);
        items.push(Json::Str(t));
        if k == n {
            proof {
                assert(pieces(rest, c) == seq![rest]);
                assert(rest =~= piece@);
                assert(pieces(v@, c) =~= done.push(piece@));
            }
            return Json::Array(items);
        }
        proof {
            assert(rest.skip(k - start + 1) =~= v@.skip(k + 1));
            assert(pieces(v@, c) =~= done.push(piece@) + pieces(v@.skip(k + 1), c));
            done = done.push(piece@);
        }
        start = k + 1;
    }
}

/// The decisions with status `s`, in order.
pub open spec fn with_status(ds: Seq<Decision>, s: DecisionStatus) -> Seq<Decision>
    decreases ds.len(),
{
    if ds.len() == 0 {
        seq![]
    } else {
        with_status(ds.drop_last(), s) + if ds.last().status == s {
            seq![ds.last()]
        } else {
            seq![]
        }
    }
}

/// A review-queue card for an ambiguous decision.
pub open spec fn is_queue_item(j: Json, d: Decision) -> bool {
    &&& is_text(member(j, "key"@), d.ebook_key@)
    &&& is_text_or_null(member(j, "ebook_title"@), d.ebook_title)
    &&& is_text_or_null(member(j, "ebook_author"@), d.ebook_author)
    &&& is_text_or_null(member(j, "candidate"@), d.note)
    &&& is_text_or_null(member(j, "asin"@), d.asin)
    &&& is_float_or_null(member(j, "confidence"@), d.confidence)
    &&& is_text_or_null(member(j, "image_url"@), d.image_url)
    &&& is_text_list(
        member(j, "reasons"@),
        match d.reasons {
            Some(r) => pieces(r@, ','),
            None => seq![],
        },
    )
}

fn queue_item(d: &Decision) -> (j: Json)
    ensures
        is_queue_item(j, *d),
{
    let mut es: Vec<(String, Json)> = Vec::new();
    es.push(entry("key", text(d.ebook_key.as_str())));
    es.push(entry("ebook_title", text_or_null(&d.ebook_title)));
    es.push(entry("ebook_author", text_or_null(&d.ebook_author)));
    es.push(entry("candidate", text_or_null(&d.note)));
    es.push(entry("asin", text_or_null(&d.asin)));
    es.push(entry("confidence", float_or_null(d.confidence)));
    es.push(entry("image_url", text_or_null(&d.image_url)));
    let reasons = match &d.reasons {
        Some(r) => split_texts(r.as_str(), ','),
        None => Json::Array(Vec::new()),
    };
    es.push(entry("reasons", reasons));
    proof {
        reveal_strlit("key");
        reveal_strlit("ebook_title");
        reveal_strlit("ebook_author");
        reveal_strlit("candidate");
        reveal_strlit("asin");
        reveal_strlit("confidence");
        reveal_strlit("image_url");
        reveal_strlit("reasons");
        let names = seq![
            "key"@,
            "ebook_title"@,
            "ebook_author"@,
            "candidate"@,
            "asin"@,
            "confidence"@,
            "image_url"@,
            "reasons"@,
        ];
        assert forall|a: int, b: int|
            0 <= a < names.len() && 0 <= b < names.len() && a != b implies names[a]
            != names[b] by {
            if names[a].len() == names[b].len() {
                assert(names[a][0] != names[b][0]);
            }
        }
        lemma_members(es@, names);
        assert(names[0] == "key"@);
        assert(names[1] == "ebook_title"@);
        assert(names[2] == "ebook_author"@);
        assert(names[3] == "candidate"@);
        assert(names[4] == "asin"@);
        assert(names[5] == "confidence"@);
        assert(names[6] == "image_url"@);
        assert(names[7] == "reasons"@);
    }
    Json::Object(es)
}

/// An object with the single member `name`.
fn single(name: &str, value: Json) -> (j: Json)
    ensures
        member(j, name@) == Some(value),
{
    let mut es: Vec<(String, Json)> = Vec::new();
    es.push(entry(name, value));
    Json::Object(es)
}

/// The review queue: a card for each ambiguous decision, in order.
pub open spec fn is_queue_payload(j: Json, ds: Seq<Decision>) -> bool {
    let q = with_status(ds, DecisionStatus::Ambiguous);
    &&& member(j, "items"@) matches Some(Json::Array(items))
    &&& items@.len() == q.len()
    &&& forall|i: int| 0 <= i < q.len() ==> is_queue_item(#[trigger] items@[i], q[i])
}

/// The ambiguous queue as JSON for the page.
pub fn queue_json(all: &[Decision]) -> (j: Json)
    ensures
        is_queue_payload(j, all@),
{
    let mut items: Vec<Json> = Vec::new();
    let mut i: usize = 0;
    while i < all.len()
        invariant
            i <= all@.len(),
            items@.len() == with_status(all@.take(i as int), DecisionStatus::Ambiguous).len(),
            forall|k: int|
                0 <= k < items@.len() ==> is_queue_item(
                    #[trigger] items@[k],
                    with_status(all@.take(i as int), DecisionStatus::Ambiguous)[k],
                ),
        decreases all.len() - i,
    {
        let ghost before = with_status(all@.take(i as int), DecisionStatus::Ambiguous);
        proof {
            assert(all@.take(i + 1).drop_last() =~= all@.take(i as int));
            assert(all@.take(i + 1).last() == all@[i as int]);
        }
        if all[i].status == DecisionStatus::Ambiguous {
            let card = queue_item(&all[i]);
            items.push(card);
            proof {
                assert(with_status(all@.take(i + 1), DecisionStatus::Ambiguous) =~= before.push(
                    all@[i as int],
                ));
            }
        } else {
            proof {
                assert(with_status(all@.take(i + 1), DecisionStatus::Ambiguous) =~= before);
            }
        }
        i = i + 1;
    }
    proof {
        assert(all@.take(all@.len() as int) =~= all@);
    }
    single("items", Json::Array(items))
}

/// How many of the decisions have status `s`.
fn count_with(all: &[Decision], s: DecisionStatus) -> (n: usize)
    ensures
        n == count_status(all@, s, all@.len() as int),
        n <= all@.len(),
{
    let mut n: usize = 0;
    let mut i: usize = 0;
    while i < all.len()
        invariant
            i <= all@.len(),
            n == count_status(all@, s, i as int),
            n <= i,
        decreases all.len() - i,
    {
        if all[i].status == s {
            n = n + 1;
        }
        i = i + 1;
    }
    n
}

/// The dashboard: lane counts, the total, the time, and the last cycle's
/// summary (`null` when there is none).
pub open spec fn is_status_payload(j: Json, ds: Seq<Decision>, last_cycle: Option<Json>, now: i64) -> bool {
    let n = ds.len() as int;
    &&& member(j, "counts"@) matches Some(c) && {
        &&& member(c, "matched"@) matches Some(Json::UInt(m)) && m == count_status(
            ds,
            DecisionStatus::Matched,
            n,
        )
        &&& member(c, "ambiguous"@) matches Some(Json::UInt(a)) && a == count_status(
            ds,
            DecisionStatus::Ambiguous,
            n,
        )
        &&& member(c, "not_found"@) matches Some(Json::UInt(f)) && f == count_status(
            ds,
            DecisionStatus::NotFound,
            n,
        )
        &&& member(c, "skipped"@) matches Some(Json::UInt(k)) && k == count_status(
            ds,
            DecisionStatus::Skipped,
            n,
        )
    }
    &&& member(j, "total"@) matches Some(Json::UInt(t)) && t == ds.len()
    &&& member(j, "now"@) == Some(Json::Int(now))
    &&& member(j, "last_cycle"@) == Some(
        match last_cycle {
            Some(v) => v,
            None => Json::Null,
        },
    )
}

/// Dashboard payload: lane counts, coverage, last-cycle summary.
pub fn status_json(all: &[Decision], last_cycle: Option<Json>, now: i64) -> (j: Json)
    ensures
        is_status_payload(j, all@, last_cycle, now),
{
    let m = count_with(all, DecisionStatus::Matched);
    let a = count_with(all, DecisionStatus::Ambiguous);
    let f = count_with(all, DecisionStatus::NotFound);
    let k = count_with(all, DecisionStatus::Skipped);
    let mut cs: Vec<(String, Json)> = Vec::new();
    cs.push(entry("matched", Json::UInt(m as u64)));
    cs.push(entry("ambiguous", Json::UInt(a as u64)));
    cs.push(entry("not_found", Json::UInt(f as u64)));
    cs.push(entry("skipped", Json::UInt(k as u64)));
    let counts = Json::Object(cs);
    let ghost cg = counts;
    let lc = match last_cycle {
        Some(v) => v,
        None => Json::Null,
    };
    let mut es: Vec<(String, Json)> = Vec::new();
    es.push(entry("counts", counts));
    es.push(entry("total", Json::UInt(all.len() as u64)));
    es.push(entry("now", Json::Int(now)));
    es.push(entry("last_cycle", lc));
    proof {
        reveal_strlit("matched");
        reveal_strlit("ambiguous");
        reveal_strlit("not_found");
        reveal_strlit("skipped");
        reveal_strlit("counts");
        reveal_strlit("total");
        reveal_strlit("now");
        reveal_strlit("last_cycle");
        let cn = seq!["matched"@, "ambiguous"@, "not_found"@, "skipped"@];
        assert forall|x: int, y: int|
            0 <= x < cn.len() && 0 <= y < cn.len() && x != y implies cn[x] != cn[y] by {
            if cn[x].len() == cn[y].len() {
                assert(cn[x][0] != cn[y][0]);
            }
        }
        if let Json::Object(ce) = cg {
            lemma_members(ce@, cn);
        }
        assert(cn[0] == "matched"@);
        assert(cn[1] == "ambiguous"@);
        assert(cn[2] == "not_found"@);
        assert(cn[3] == "skipped"@);
        let names = seq!["counts"@, "total"@, "now"@, "last_cycle"@];
        assert forall|x: int, y: int|
            0 <= x < names.len() && 0 <= y < names.len() && x != y implies names[x]
            != names[y] by {
            assert(names[x].len() != names[y].len());
        }
        lemma_members(es@, names);
        assert(names[0] == "counts"@);
        assert(names[1] == "total"@);
        assert(names[2] == "now"@);
        assert(names[3] == "last_cycle"@);
    }
    Json::Object(es)
}

/// A card of the not-found lane.
pub open spec fn is_not_found_item(j: Json, d: Decision) -> bool {
    &&& is_text(member(j, "key"@), d.ebook_key@)
    &&& is_text_or_null(member(j, "ebook_title"@), d.ebook_title)
    &&& is_text_or_null(member(j, "ebook_author"@), d.ebook_author)
    &&& member(j, "attempts"@) == Some(Json::Int(d.attempts))
    &&& is_int_or_null(member(j, "next_retry"@), d.next_retry)
}

fn not_found_item(d: &Decision) -> (j: Json)
    ensures
        is_not_found_item(j, *d),
{
    let mut es: Vec<(String, Json)> = Vec::new();
    es.push(entry("key", text(d.ebook_key.as_str())));
    es.push(entry("ebook_title", text_or_null(&d.ebook_title)));
    es.push(entry("ebook_author", text_or_null(&d.ebook_author)));
    es.push(entry("attempts", Json::Int(d.attempts)));
    es.push(entry("next_retry", int_or_null(d.next_retry)));
    proof {
        reveal_strlit("key");
        reveal_strlit("ebook_title");
        reveal_strlit("ebook_author");
        reveal_strlit("attempts");
        reveal_strlit("next_retry");
        let names = seq!["key"@, "ebook_title"@, "ebook_author"@, "attempts"@, "next_retry"@];
        assert forall|x: int, y: int|
            0 <= x < names.len() && 0 <= y < names.len() && x != y implies names[x]
            != names[y] by {
            assert(names[x].len() != names[y].len());
        }
        lemma_members(es@, names);
        assert(names[0] == "key"@);
        assert(names[1] == "ebook_title"@);
        assert(names[2] == "ebook_author"@);
        assert(names[3] == "attempts"@);
        assert(names[4] == "next_retry"@);
    }
    Json::Object(es)
}

/// The not-found lane: a card for each not-found decision, in order, and
/// the time.
pub open spec fn is_not_found_payload(j: Json, ds: Seq<Decision>, now: i64) -> bool {
    let q = with_status(ds, DecisionStatus::NotFound);
    &&& member(j, "items"@) matches Some(Json::Array(items))
    &&& items@.len() == q.len()
    &&& forall|i: int| 0 <= i < q.len() ==> is_not_found_item(#[trigger] items@[i], q[i])
    &&& member(j, "now"@) == Some(Json::Int(now))
}

/// An object with the members `items` and `now`.
fn items_and_now(items: Json, now: i64) -> (j: Json)
    ensures
        member(j, "items"@) == Some(items),
        member(j, "now"@) == Some(Json::Int(now)),
{
    let mut es: Vec<(String, Json)> = Vec::new();
    es.push(entry("items", items));
    es.push(entry("now", Json::Int(now)));
    proof {
        reveal_strlit("items");
        reveal_strlit("now");
        let names = seq!["items"@, "now"@];
        assert(names[0].len() != names[1].len());
        lemma_members(es@, names);
        assert(names[0] == "items"@);
        assert(names[1] == "now"@);
    }
    Json::Object(es)
}

/// The not-found lane: books awaiting their monthly retry.
pub fn notfound_json(all: &[Decision], now: i64) -> (j: Json)
    ensures
        is_not_found_payload(j, all@, now),
{
    let mut items: Vec<Json> = Vec::new();
    let mut i: usize = 0;
    while i < all.len()
        invariant
            i <= all@.len(),
            items@.len() == with_status(all@.take(i as int), DecisionStatus::NotFound).len(),
            forall|k: int|
                0 <= k < items@.len() ==> is_not_found_item(
                    #[trigger] items@[k],
                    with_status(all@.take(i as int), DecisionStatus::NotFound)[k],
                ),
        decreases all.len() - i,
    {
        let ghost before = with_status(all@.take(i as int), DecisionStatus::NotFound);
        proof {
            assert(all@.take(i + 1).drop_last() =~= all@.take(i as int));
            assert(all@.take(i + 1).last() == all@[i as int]);
        }
        if all[i].status == DecisionStatus::NotFound {
            let card = not_found_item(&all[i]);
            items.push(card);
            proof {
                assert(with_status(all@.take(i + 1), DecisionStatus::NotFound) =~= before.push(
                    all@[i as int],
                ));
            }
        } else {
            proof {
                assert(with_status(all@.take(i + 1), DecisionStatus::NotFound) =~= before);
            }
        }
        i = i + 1;
    }
    proof {
        assert(all@.take(all@.len() as int) =~= all@);
    }
    items_and_now(Json::Array(items), now)
}

/// In the history, decision `a` comes before decision `b`: newer first,
/// and in the order given when both were updated at the same second.
pub open spec fn newer_first(ds: Seq<Decision>, a: int, b: int) -> bool {
    ds[a].updated_at > ds[b].updated_at || (ds[a].updated_at == ds[b].updated_at && a < b)
}

/// `o` lists each index of `ds` once, newest first (a stable sort by
/// descending `updated_at`).
pub open spec fn is_recency_order(ds: Seq<Decision>, o: Seq<usize>) -> bool {
    &&& o.len() == ds.len()
    &&& forall|i: int| 0 <= i < o.len() ==> #[trigger] o[i] < ds.len()
    &&& forall|i: int, j: int|
        0 <= i < j < o.len() ==> newer_first(ds, #[trigger] o[i] as int, #[trigger] o[j] as int)
}

/// The positions of the decisions, newest first; decisions updated at the
/// same second keep their order.
pub fn recency_order(all: &[Decision]) -> (o: Vec<usize>)
    ensures
        is_recency_order(all@, o@),
{
    let ghost ds = all@;
    let mut o: Vec<usize> = Vec::new();
    let mut i: usize = 0;
    while i < all.len()
        invariant
            i <= ds.len(),
            ds == all@,
            o@.len() == i,
            forall|k: int| 0 <= k < o@.len() ==> #[trigger] o@[k] < i,
            forall|a: int, b: int|
                0 <= a < b < o@.len() ==> newer_first(ds, #[trigger] o@[a] as int, #[trigger] o@[b] as int),
        decreases all.len() - i,
    {
        let t = all[i].updated_at;
        let mut p: usize = 0;
        while p < o.len() && !(all[o[p]].updated_at < t)
            invariant
                p <= o@.len(),
                i < ds.len(),
                ds == all@,
                t == ds[i as int].updated_at,
                forall|k: int| 0 <= k < o@.len() ==> #[trigger] o@[k] < i,
                forall|k: int| 0 <= k < p ==> ds[#[trigger] o@[k] as int].updated_at >= t,
            decreases o@.len() - p,
        {
            p = p + 1;
        }
        let ghost old_o = o@;
        proof {
            if p < old_o.len() {
                assert(ds[old_o[p as int] as int].updated_at < t);
                assert forall|k: int| p <= k < old_o.len() implies ds[#[trigger] old_o[k] as int].updated_at < t by {
                    if k > p {
                        assert(newer_first(ds, old_o[p as int] as int, old_o[k] as int));
                    }
                }
            }
        }
        o.insert(p, i);
        proof {
            assert(o@ == old_o.insert(p as int, i));
            assert forall|k: int| 0 <= k < o@.len() implies #[trigger] o@[k] < i + 1 by {
                if k < p {
                    assert(o@[k] == old_o[k]);
                } else if k > p {
                    assert(o@[k] == old_o[k - 1]);
                }
            }
            assert forall|a: int, b: int|
                0 <= a < b < o@.len() implies newer_first(ds, #[trigger] o@[a] as int, #[trigger] o@[b] as int) by {
                if b < p {
                    assert(o@[a] == old_o[a]);
                    assert(o@[b] == old_o[b]);
                } else if b == p {
                    assert(o@[a] == old_o[a]);
                    assert(ds[old_o[a] as int].updated_at >= t);
                } else if a < p {
                    assert(o@[a] == old_o[a]);
                    assert(o@[b] == old_o[b - 1]);
                } else if a == p {
                    assert(o@[b] == old_o[b - 1]);
                    assert(ds[old_o[b - 1] as int].updated_at < t);
                } else {
                    assert(o@[a] == old_o[a - 1]);
                    assert(o@[b] == old_o[b - 1]);
                }
            }
        }
        i = i + 1;
    }
    o
}

/// A history row.
pub open spec fn is_history_item(j: Json, d: Decision) -> bool {
    &&& is_text(member(j, "key"@), d.ebook_key@)
    &&& is_text_or_null(member(j, "ebook_title"@), d.ebook_title)
    &&& is_text_or_null(member(j, "ebook_author"@), d.ebook_author)
    &&& is_text(member(j, "status"@), status_text(d.status))
    &&& is_text_or_null(member(j, "candidate"@), d.note)
    &&& is_text_or_null(member(j, "asin"@), d.asin)
    &&& is_float_or_null(member(j, "confidence"@), d.confidence)
    &&& is_text_or_null(member(j, "image_url"@), d.image_url)
    &&& member(j, "updated_at"@) == Some(Json::Int(d.updated_at))
}

fn history_item(d: &Decision) -> (j: Json)
    ensures
        is_history_item(j, *d),
{
    let mut es: Vec<(String, Json)> = Vec::new();
    es.push(entry("key", text(d.ebook_key.as_str())));
    es.push(entry("ebook_title", text_or_null(&d.ebook_title)));
    es.push(entry("ebook_author", text_or_null(&d.ebook_author)));
    es.push(entry("status", text(d.status.as_str())));
    es.push(entry("candidate", text_or_null(&d.note)));
    es.push(entry("asin", text_or_null(&d.asin)));
    es.push(entry("confidence", float_or_null(d.confidence)));
    es.push(entry("image_url", text_or_null(&d.image_url)));
    es.push(entry("updated_at", Json::Int(d.updated_at)));
    proof {
        reveal_strlit("key");
        reveal_strlit("ebook_title");
        reveal_strlit("ebook_author");
        reveal_strlit("status");
        reveal_strlit("candidate");
        reveal_strlit("asin");
        reveal_strlit("confidence");
        reveal_strlit("image_url");
        reveal_strlit("updated_at");
        let names = seq![
            "key"@,
            "ebook_title"@,
            "ebook_author"@,
            "status"@,
            "candidate"@,
            "asin"@,
            "confidence"@,
            "image_url"@,
            "updated_at"@,
        ];
        assert forall|a: int, b: int|
            0 <= a < names.len() && 0 <= b < names.len() && a != b implies names[a]
            != names[b] by {
            if names[a].len() == names[b].len() {
                assert(names[a][0] != names[b][0]);
            }
        }
        lemma_members(es@, names);
        assert(names[0] == "key"@);
        assert(names[1] == "ebook_title"@);
        assert(names[2] == "ebook_author"@);
        assert(names[3] == "status"@);
        assert(names[4] == "candidate"@);
        assert(names[5] == "asin"@);
        assert(names[6] == "confidence"@);
        assert(names[7] == "image_url"@);
        assert(names[8] == "updated_at"@);
    }
    Json::Object(es)
}

/// The history: every decision, newest first, and the time.
pub open spec fn is_history_payload(j: Json, ds: Seq<Decision>, now: i64) -> bool {
    &&& member(j, "items"@) matches Some(Json::Array(items)) && exists|o: Seq<usize>|
        {
            &&& is_recency_order(ds, o)
            &&& items@.len() == ds.len()
            &&& forall|k: int|
                0 <= k < items@.len() ==> is_history_item(#[trigger] items@[k], ds[o[k] as int])
        }
    &&& member(j, "now"@) == Some(Json::Int(now))
}

/// Every decision, newest first.
pub fn history_json(all: &[Decision], now: i64) -> (j: Json)
    ensures
        is_history_payload(j, all@, now),
{
    let o = recency_order(all);
    let n = all.len();
    let mut items: Vec<Json> = Vec::new();
    let mut k: usize = 0;
    while k < n
        invariant
            n <= all@.len(),
            is_recency_order(all@, o@),
            k <= n,
            items@.len() == k,
            forall|x: int| 0 <= x < k ==> is_history_item(#[trigger] items@[x], all@[o@[x] as int]),
        decreases n - k,
    {
        let row = history_item(&all[o[k]]);
        items.push(row);
        k = k + 1;
    }
    let ghost og = o@;
    let j = items_and_now(Json::Array(items), now);
    proof {
        assert(is_recency_order(all@, og));
    }
    j
}

// ---------------------------------------------------------------------------
// Human verdicts
// ---------------------------------------------------------------------------

/// The text of member `name` of a request body, if it is a string.
pub open spec fn body_text(body: Json, name: Seq<char>) -> Option<Seq<char>> {
    text_of(member(body, name))
}

pub open spec fn prior_asin(prior: Option<Decision>) -> Option<Seq<char>> {
    match prior {
        Some(p) => opt_string_view(p.asin),
        None => None,
    }
}

/// Why a verdict is refused, if it is. The body carries `key`, `action`
/// (`accept`, `skip`, `reopen` or `retry`) and, for `accept`, an optional
/// `asin`; `prior` is the book's current decision.
pub open spec fn verdict_error(body: Json, prior: Option<Decision>) -> Option<Seq<char>> {
    let action = body_text(body, "action"@);
    if body_text(body, "key"@) is None {
        Some("missing key"@)
    } else if action is None {
        Some("missing action"@)
    } else if action == Some("skip"@) || action == Some("retry"@) {
        None
    } else if action == Some("reopen"@) {
        if prior is None {
            Some("cannot reopen an unknown book"@)
        } else {
            None
        }
    } else if action == Some("accept"@) {
        if body_text(body, "asin"@) is None && prior_asin(prior) is None {
            Some("accept needs an asin"@)
        } else {
            None
        }
    } else {
        Some("action must be accept, skip, reopen, or retry"@)
    }
}

/// The lane a verdict puts the book in.
pub open spec fn verdict_status(action: Seq<char>) -> DecisionStatus {
    if action == "skip"@ {
        DecisionStatus::Skipped
    } else if action == "reopen"@ {
        DecisionStatus::Ambiguous
    } else if action == "retry"@ {
        DecisionStatus::NotFound
    } else {
        DecisionStatus::Matched
    }
}

pub open spec fn verdict_note(action: Seq<char>) -> Seq<char> {
    if action == "skip"@ {
        "web review: rejected"@
    } else if action == "reopen"@ {
        "web review: reopened"@
    } else if action == "retry"@ {
        "web review: retry requested"@
    } else {
        "web review: accepted"@
    }
}

/// The ASIN a verdict records: none for skip and retry, the prior one on
/// reopen, and on accept the body's, else the prior one.
pub open spec fn verdict_asin(body: Json, action: Seq<char>, prior: Option<Decision>) -> Option<
    Seq<char>,
> {
    if action == "skip"@ || action == "retry"@ {
        None
    } else if action == "reopen"@ {
        prior_asin(prior)
    } else {
        match body_text(body, "asin"@) {
            Some(a) => Some(a),
            None => prior_asin(prior),
        }
    }
}

/// `d` is the decision a verdict records at time `now`: full confidence, no
/// automatic retry, the prior attempt count, and the prior display fields.
pub open spec fn is_verdict(d: Decision, body: Json, prior: Option<Decision>, now: i64) -> bool {
    let action = body_text(body, "action"@)->0;
    &&& body_text(body, "key"@) == Some(d.ebook_key@)
    &&& d.status == verdict_status(action)
    &&& opt_string_view(d.asin) == verdict_asin(body, action, prior)
    &&& d.confidence == Some(FULL_CONFIDENCE_BITS)
    &&& d.attempts == match prior {
        Some(p) => p.attempts,
        None => 0,
    }
    &&& d.next_retry is None
    &&& d.updated_at == now
    &&& opt_string_view(d.note) == Some(verdict_note(action))
    &&& match prior {
        Some(p) => {
            &&& opt_string_view(d.ebook_title) == opt_string_view(p.ebook_title)
            &&& opt_string_view(d.ebook_author) == opt_string_view(p.ebook_author)
            &&& opt_string_view(d.image_url) == opt_string_view(p.image_url)
            &&& opt_string_view(d.reasons) == opt_string_view(p.reasons)
        },
        None => {
            &&& d.ebook_title is None
            &&& d.ebook_author is None
            &&& d.image_url is None
            &&& d.reasons is None
        },
    }
}

/// Applies a human verdict from the page, given the book's current
/// decision: the decision to record, or why the verdict is refused.
pub fn decide(body: &Json, prior: Option<&Decision>, now: i64) -> (r: Result<Decision, String>)
    ensures
        match r {
            Ok(d) => verdict_error(*body, opt_deref(prior)) is None && is_verdict(
                d,
                *body,
                opt_deref(prior),
                now,
            ),
            Err(e) => verdict_error(*body, opt_deref(prior)) == Some(e@),
        },
{
    let key = match member_text(body, "key") {
        Some(k) => k,
        None => {
            return Err("missing key".to_owned());
        },
    };
    let action = match member_text(body, "action") {
        Some(a) => chars_of(a.as_str()),
        None => {
            return Err("missing action".to_owned());
        },
    };
    proof {
        reveal_strlit("skip");
        reveal_strlit("reopen");
        reveal_strlit("retry");
        reveal_strlit("accept");
        assert("reopen"@[0] != "accept"@[0]);
        assert("skip"@.len() != "retry"@.len());
    }
    let prior_asin_copy = match prior {
        Some(p) => copy_opt(&p.asin),
        None => None,
    };
    let (status, asin, note) = if chars_eq_str(&action, "skip") {
        (DecisionStatus::Skipped, None, "web review: rejected")
    } else if chars_eq_str(&action, "reopen") {
        if prior.is_none() {
            return Err("cannot reopen an unknown book".to_owned());
        }
        (DecisionStatus::Ambiguous, prior_asin_copy, "web review: reopened")
    } else if chars_eq_str(&action, "retry") {
        (DecisionStatus::NotFound, None, "web review: retry requested")
    } else if chars_eq_str(&action, "accept") {
        let asin = match member_text(body, "asin") {
            Some(a) => a,
            None => match prior_asin_copy {
                Some(a) => a,
                None => {
                    return Err("accept needs an asin".to_owned());
                },
            },
        };
        (DecisionStatus::Matched, Some(asin), "web review: accepted")
    } else {
        return Err("action must be accept, skip, reopen, or retry".to_owned());
    };
    let (attempts, ebook_title, ebook_author, image_url, reasons) = match prior {
        Some(p) => (
            p.attempts,
            copy_opt(&p.ebook_title),
            copy_opt(&p.ebook_author),
            copy_opt(&p.image_url),
            copy_opt(&p.reasons),
        ),
        None => (0, None, None, None, None),
    };
    Ok(
        Decision {
            ebook_key: key,
            status,
            asin,
            confidence: Some(FULL_CONFIDENCE_BITS),
            attempts,
            next_retry: None,
            updated_at: now,
            note: Some(note.to_owned()),
            ebook_title,
            ebook_author,
            image_url,
            reasons,
        },
    )
}

/// The page's acknowledgement of a recorded verdict.
/// It is the object `{"ok": true, "key": <key>, "status": <status>}`, with
/// exactly these three members in this order.
pub open spec fn is_decide_response(j: Json, d: Decision) -> bool {
    &&& j matches Json::Object(es) && {
        &&& es@.len() == 3
        &&& es@[0].0@ == "ok"@ && es@[0].1 == Json::Bool(true)
        &&& es@[1].0@ == "key"@
        &&& es@[1].1 matches Json::Str(k) && k@ == d.ebook_key@
        &&& es@[2].0@ == "status"@
        &&& es@[2].1 matches Json::Str(t) && t@ == status_text(d.status)
    }
    &&& member(j, "ok"@) == Some(Json::Bool(true))
    &&& is_text(member(j, "key"@), d.ebook_key@)
    &&& is_text(member(j, "status"@), status_text(d.status))
}

pub fn decide_response(d: &Decision) -> (j: Json)
    ensures
        is_decide_response(j, *d),
{
    let mut es: Vec<(String, Json)> = Vec::new();
    es.push(entry("ok", Json::Bool(true)));
    es.push(entry("key", text(d.ebook_key.as_str())));
    es.push(entry("status", text(d.status.as_str())));
    proof {
        reveal_strlit("ok");
        reveal_strlit("key");
        reveal_strlit("status");
        let names = seq!["ok"@, "key"@, "status"@];
        assert forall|x: int, y: int|
            0 <= x < names.len() && 0 <= y < names.len() && x != y implies names[x]
            != names[y] by {
            assert(names[x].len() != names[y].len());
        }
        lemma_members(es@, names);
        assert(names[0] == "ok"@);
        assert(names[1] == "key"@);
        assert(names[2] == "status"@);
    }
    Json::Object(es)
}

/// Whatever the time, a book that a human verdict sent back to search
/// (`retry`) is worked on by the next cycle, and a book under any other
/// verdict (accepted, rejected, reopened for review) is left alone.
pub proof fn lemma_verdict_actionability(
    d: Decision,
    body: Json,
    prior: Option<Decision>,
    now: i64,
    later: i64,
)
    requires
        verdict_error(body, prior) is None,
        is_verdict(d, body, prior, now),
    ensures
        actionable(Some(d), later) <==> body_text(body, "action"@) == Some("retry"@),
{
    reveal_strlit("skip");
    reveal_strlit("reopen");
    reveal_strlit("retry");
    reveal_strlit("accept");
    assert("skip"@.len() != "retry"@.len());
    assert("reopen"@.len() != "retry"@.len());
}

// ---------------------------------------------------------------------------
// Alternatives
// ---------------------------------------------------------------------------

/// What a live search for a book's alternatives asks for.
pub struct AlternativesQuery {
    /// The ebook's title: the stored one, else the key's title part.
    pub title: String,
    /// The ebook's author: the stored one, else the key's author part.
    pub author: String,
    /// The catalog query: the user's own text, trimmed, when it is not
    /// blank; else the query form of the title.
    pub q: String,
    /// The author to search with: the primary author, unless empty.
    pub search_author: Option<String>,
}

pub open spec fn stored_or(o: Option<String>, fallback: Seq<char>) -> Seq<char> {
    match o {
        Some(s) => s@,
        None => fallback,
    }
}

pub open spec fn opt_str_view(o: Option<&str>) -> Option<Seq<char>> {
    match o {
        Some(s) => Some(s@),
        None => None,
    }
}

/// The query of an alternatives search for the book with decision `d` and
/// key `key`, with the user's optional query text `custom`.
pub open spec fn is_alternatives_query(
    r: AlternativesQuery,
    d: Decision,
    key: Seq<char>,
    custom: Option<Seq<char>>,
) -> bool {
    &&& r.title@ == stored_or(d.ebook_title, key_title_of(key))
    &&& r.author@ == stored_or(d.ebook_author, key_author_of(key))
    &&& r.q@ == match custom {
        Some(c) => if trim(c).len() > 0 {
            trim(c)
        } else {
            query_title_of(r.title@)
        },
        None => query_title_of(r.title@),
    }
    &&& match r.search_author {
        Some(a) => a@ == first_listed(r.author@) && a@.len() > 0,
        None => first_listed(r.author@).len() == 0,
    }
}

/// What to search for when listing a book's alternatives.
pub fn alternatives_query(d: &Decision, key: &str, custom_q: Option<&str>) -> (r: AlternativesQuery)
    ensures
        is_alternatives_query(r, *d, key@, opt_str_view(custom_q)),
{
    let title = match &d.ebook_title {
        Some(t) => t.as_str().to_owned(),
        None => key_title(key),
    };
    let author = match &d.ebook_author {
        Some(a) => a.as_str().to_owned(),
        None => key_author(key),
    };
    let q = match custom_q {
        Some(c) => {
            let t = trim_str(c);
            if t.len() > 0 {
                string_of(&t)
            } else {
                query_title(title.as_str())
            }
        },
        None => query_title(title.as_str()),
    };
    let search_author = crate::cycle::search_author(author.as_str());
    AlternativesQuery { title, author, q, search_author }
}

/// One alternative offered for a book: a catalog candidate with its score
/// (`total_bits`, the bit pattern of the total) and penalty labels.
pub open spec fn is_alternative_item(
    j: Json,
    asin: Seq<char>,
    c: Candidate,
    total_bits: u64,
    penalties: Seq<Seq<char>>,
) -> bool {
    &&& is_text(member(j, "asin"@), asin)
    &&& is_text(member(j, "title"@), c.title@)
    &&& is_text_or_null(member(j, "subtitle"@), c.subtitle)
    &&& is_text_list(member(j, "authors"@), strings_view(c.authors@))
    &&& is_text_list(member(j, "narrators"@), strings_view(c.narrators@))
    &&& is_int_or_null(member(j, "runtime_min"@), c.runtime_min)
    &&& is_text_or_null(member(j, "image_url"@), c.image_url)
    &&& member(j, "total"@) == Some(Json::Float(total_bits))
    &&& is_text_list(member(j, "penalties"@), penalties)
}

pub fn alternative_item(asin: &str, c: &Candidate, total_bits: u64, penalties: &Vec<String>) -> (j:
    Json)
    ensures
        is_alternative_item(j, asin@, *c, total_bits, strings_view(penalties@)),
{
    let mut es: Vec<(String, Json)> = Vec::new();
    es.push(entry("asin", text(asin)));
    es.push(entry("title", text(c.title.as_str())));
    es.push(entry("subtitle", text_or_null(&c.subtitle)));
    es.push(entry("authors", text_list(&c.authors)));
    es.push(entry("narrators", text_list(&c.narrators)));
    es.push(entry("runtime_min", int_or_null(c.runtime_min)));
    es.push(entry("image_url", text_or_null(&c.image_url)));
    es.push(entry("total", Json::Float(total_bits)));
    es.push(entry("penalties", text_list(penalties)));
    proof {
        reveal_strlit("asin");
        reveal_strlit("title");
        reveal_strlit("subtitle");
        reveal_strlit("authors");
        reveal_strlit("narrators");
        reveal_strlit("runtime_min");
        reveal_strlit("image_url");
        reveal_strlit("total");
        reveal_strlit("penalties");
        let names = seq![
            "asin"@,
            "title"@,
            "subtitle"@,
            "authors"@,
            "narrators"@,
            "runtime_min"@,
            "image_url"@,
            "total"@,
            "penalties"@,
        ];
        assert forall|a: int, b: int|
            0 <= a < names.len() && 0 <= b < names.len() && a != b implies names[a]
            != names[b] by {
            if names[a].len() == names[b].len() {
                assert(names[a][0] != names[b][0] || names[a][1] != names[b][1]);
            }
        }
        lemma_members(es@, names);
        assert(names[0] == "asin"@);
        assert(names[1] == "title"@);
        assert(names[2] == "subtitle"@);
        assert(names[3] == "authors"@);
        assert(names[4] == "narrators"@);
        assert(names[5] == "runtime_min"@);
        assert(names[6] == "image_url"@);
        assert(names[7] == "total"@);
        assert(names[8] == "penalties"@);
    }
    Json::Object(es)
}

/// The alternatives of a book for the page.
pub open spec fn is_alternatives_payload(j: Json, key: Seq<char>, title: Seq<char>, items: Seq<Json>) -> bool {
    &&& is_text(member(j, "key"@), key)
    &&& is_text(member(j, "ebook_title"@), title)
    &&& member(j, "items"@) matches Some(Json::Array(v)) && v@ == items
}

pub fn alternatives_payload(key: &str, title: &str, items: Vec<Json>) -> (j: Json)
    ensures
        is_alternatives_payload(j, key@, title@, items@),
{
    let ghost iv = items@;
    let mut es: Vec<(String, Json)> = Vec::new();
    es.push(entry("key", text(key)));
    es.push(entry("ebook_title", text(title)));
    es.push(entry("items", Json::Array(items)));
    proof {
        reveal_strlit("key");
        reveal_strlit("ebook_title");
        reveal_strlit("items");
        let names = seq!["key"@, "ebook_title"@, "items"@];
        assert forall|x: int, y: int|
            0 <= x < names.len() && 0 <= y < names.len() && x != y implies names[x]
            != names[y] by {
            assert(names[x].len() != names[y].len());
        }
        lemma_members(es@, names);
        assert(names[0] == "key"@);
        assert(names[1] == "ebook_title"@);
        assert(names[2] == "items"@);
    }
    Json::Object(es)
}

} // verus!
