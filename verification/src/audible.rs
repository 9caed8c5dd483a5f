//! Candidate retrieval from Audible's public catalog API (unauthenticated,
//! read-only): the search request and the reading of its reply.

use vstd::prelude::*;

use crate::http::{pair, pairs_view, Method, Request};
use crate::json::{array_of, i64_of, member, text_of, Json};
use crate::matcher::Candidate;
use crate::text::{opt_string_view, strings_view};

verus! {

pub const API: &'static str = "https://api.audible.com/1.0/catalog/products";

pub const GROUPS: &'static str = "contributors,product_attrs,product_desc,series";

/// The catalog search for a title, optionally narrowed to an author.
pub open spec fn search_params(title: Seq<char>, author: Option<Seq<char>>) -> Seq<(Seq<char>, Seq<char>)> {
    seq![
        ("title"@, title),
        ("num_results"@, "20"@),
        ("response_groups"@, GROUPS@),
        ("products_sort_by"@, "Relevance"@),
    ] + match author {
        Some(a) => seq![("author"@, a)],
        None => seq![],
    }
}

/// The catalog search request for a title, optionally narrowed to an author.
pub fn search(title: &str, author: Option<&str>) -> (r: Request)
    ensures
        r.method == Method::Get,
        r.url@ == API@,
        pairs_view(r.query@) == search_params(title@, crate::matcher::opt_view(author)),
        pairs_view(r.headers@) == seq![("User-Agent"@, "narratarr/0.1"@)],
        r.body is None,
        r.timeout_secs == 20,
{
    let mut query: Vec<(String, String)> = Vec::new();
    query.push(pair("title", title));
    query.push(pair("num_results", "20"));
    query.push(pair("response_groups", GROUPS));
    query.push(pair("products_sort_by", "Relevance"));
    let ghost base = pairs_view(query@);
    match author {
        Some(a) => {
            query.push(pair("author", a));
        },
        None => {},
    }
    proof {
        assert(pairs_view(query@) =~= search_params(title@, crate::matcher::opt_view(author)));
    }
    let mut headers: Vec<(String, String)> = Vec::new();
    headers.push(pair("User-Agent", "narratarr/0.1"));
    proof {
        assert(pairs_view(headers@) =~= seq![("User-Agent"@, "narratarr/0.1"@)]);
    }
    Request { method: Method::Get, url: API.to_owned(), query, headers, body: None, timeout_secs: 20 }
}

/// The `name`s of an array of people (none when it is not an array).
pub open spec fn names_of(v: Option<Json>) -> Seq<Seq<char>> {
    match array_of(v) {
        Some(items) => items.filter_map(|p: Json| text_of(member(p, "name"@))),
        None => seq![],
    }
}

/// A catalog product read as a candidate; a missing title reads as "".
pub open spec fn is_candidate_of(c: Candidate, p: Json) -> bool {
    &&& opt_string_view(c.asin) == text_of(member(p, "asin"@))
    &&& c.title@ == match text_of(member(p, "title"@)) {
        Some(t) => t,
        None => seq![],
    }
    &&& opt_string_view(c.subtitle) == text_of(member(p, "subtitle"@))
    &&& strings_view(c.authors@) == names_of(member(p, "authors"@))
    &&& strings_view(c.narrators@) == names_of(member(p, "narrators"@))
    &&& opt_string_view(c.format_type) == text_of(member(p, "format_type"@))
    &&& opt_string_view(c.language) == text_of(member(p, "language"@))
    &&& c.runtime_min == i64_of(member(p, "runtime_length_min"@))
    &&& c.image_url is None
}

/// A candidate read from a catalog product carries the product's own ASIN,
/// subtitle, format, language and running time (each absent when the
/// product's is not given), its title (or "" without one), and the names of
/// its authors and narrators.
pub proof fn lemma_candidate_carries_product(c: Candidate, p: Json)
    requires
        is_candidate_of(c, p),
    ensures
        text_of(member(p, "asin"@)) matches Some(a) ==> c.asin matches Some(x) && x@ == a,
        text_of(member(p, "asin"@)) is None ==> c.asin is None,
        text_of(member(p, "title"@)) matches Some(t) ==> c.title@ == t,
        text_of(member(p, "title"@)) is None ==> c.title@.len() == 0,
        text_of(member(p, "subtitle"@)) matches Some(t) ==> c.subtitle matches Some(x) && x@ == t,
        text_of(member(p, "subtitle"@)) is None ==> c.subtitle is None,
        text_of(member(p, "format_type"@)) matches Some(f) ==> c.format_type matches Some(x) && x@
            == f,
        text_of(member(p, "format_type"@)) is None ==> c.format_type is None,
        text_of(member(p, "language"@)) matches Some(l) ==> c.language matches Some(x) && x@ == l,
        text_of(member(p, "language"@)) is None ==> c.language is None,
        i64_of(member(p, "runtime_length_min"@)) == c.runtime_min,
        c.authors@.len() == names_of(member(p, "authors"@)).len(),
        forall|i: int| 0 <= i < c.authors@.len() ==> c.authors@[i]@ == names_of(member(p, "authors"@))[i],
        forall|i: int|
            0 <= i < c.narrators@.len() ==> c.narrators@[i]@ == names_of(member(p, "narrators"@))[i],
{
    assert forall|i: int| 0 <= i < c.authors@.len() implies c.authors@[i]@ == names_of(
        member(p, "authors"@),
    )[i] by {
        assert(strings_view(c.authors@)[i] == c.authors@[i]@);
    }
    assert forall|i: int| 0 <= i < c.narrators@.len() implies c.narrators@[i]@ == names_of(
        member(p, "narrators"@),
    )[i] by {
        assert(strings_view(c.narrators@)[i] == c.narrators@[i]@);
    }
}

fn text_member(p: &Json, key: &str) -> (r: Option<String>)
    ensures
        opt_string_view(r) == text_of(member(*p, key@)),
{
    crate::json::member_text(p, key)
}

fn names(v: Option<&Json>) -> (r: Vec<String>)
    ensures
        strings_view(r@) == names_of(crate::json::deref_opt(v)),
{
    let mut out: Vec<String> = Vec::new();
    match v {
        Some(j) => match j.as_array() {
            Some(items) => {
                let ghost f = |p: Json| text_of(member(p, "name"@));
                let mut i: usize = 0;
                proof {
                    assert(strings_view(out@) =~= items@.take(0).filter_map(f));
                }
                while i < items.len()
                    invariant
                        i <= items@.len(),
                        f == (|p: Json| text_of(member(p, "name"@))),
                        array_of(crate::json::deref_opt(v)) == Some(items@),
                        strings_view(out@) == items@.take(i as int).filter_map(f),
                    decreases items.len() - i,
                {
                    let n = text_member(&items[i], "name");
                    proof {
                        items@.lemma_filter_map_take_succ(f, i as int);
                    }
                    match n {
                        Some(s) => {
                            let ghost before = out@;
                            out.push(s);
                            proof {
                                assert(strings_view(out@) =~= strings_view(before) + seq![s@]);
                            }
                        },
                        None => {},
                    }
                    i = i + 1;
                }
                proof {
                    assert(items@.take(items@.len() as int) =~= items@);
                }
                out
            },
            None => out,
        },
        None => out,
    }
}

fn to_candidate(p: &Json) -> (c: Candidate)
    ensures
        is_candidate_of(c, *p),
{
    let title = match text_member(p, "title") {
        Some(t) => t,
        None => String::new(),
    };
    let runtime_min = match p.get("runtime_length_min") {
        Some(v) => v.as_i64(),
        None => None,
    };
    Candidate {
        asin: text_member(p, "asin"),
        title,
        subtitle: text_member(p, "subtitle"),
        authors: names(p.get("authors")),
        narrators: names(p.get("narrators")),
        format_type: text_member(p, "format_type"),
        language: text_member(p, "language"),
        runtime_min,
        image_url: None,
    }
}

/// The candidates of a catalog reply: one per entry of `products`, in order
/// (none when `products` is not an array).
pub fn candidates(payload: &Json) -> (r: Vec<Candidate>)
    ensures
        match array_of(member(*payload, "products"@)) {
            Some(items) => r@.len() == items.len() && forall|i: int|
                0 <= i < items.len() ==> is_candidate_of(#[trigger] r@[i], items[i]),
            None => r@.len() == 0,
        },
{
    let mut out: Vec<Candidate> = Vec::new();
    match payload.get("products") {
        Some(list) => match list.as_array() {
            Some(items) => {
                let mut i: usize = 0;
                while i < items.len()
                    invariant
                        i <= items@.len(),
                        array_of(member(*payload, "products"@)) == Some(items@),
                        out@.len() == i,
                        forall|k: int| 0 <= k < i ==> is_candidate_of(#[trigger] out@[k], items@[k]),
                    decreases items.len() - i,
                {
                    out.push(to_candidate(&items[i]));
                    i = i + 1;
                }
                out
            },
            None => out,
        },
        None => out,
    }
}

} // verus!
