//! Listenarr client — the target side of the bridge.
//!
//! Two calls only: "is this ASIN in the library?" and "add it, monitored."
//! Every mutation is check-then-act (a timed-out add is UNKNOWN, not failed,
//! and gets re-verified next cycle), and Listenarr's own ASIN dedup on add is
//! the server-side backstop. This module builds the requests and reads the
//! replies; sending them is left to the caller.

use vstd::prelude::*;

use crate::http::{pair, pairs_view, Method, Request};
use crate::json::{
    bool_of, entry, is_text, is_text_list, is_text_or_null, member, text, text_list, text_or_null,
    Json,
};
use crate::text::{chars_of, push_str, string_of, strings_view};

verus! {

pub struct Client {
    base_url: String,
    api_key: String,
}

#[derive(Debug, Clone)]
pub struct BookMetadata {
    pub asin: String,
    pub title: String,
    pub subtitle: Option<String>,
    pub authors: Vec<String>,
    pub narrators: Vec<String>,
    pub language: Option<String>,
}

#[derive(Debug, Clone, Copy, PartialEq, Eq, Structural)]
pub enum AddOutcome {
    Added,
    AlreadyExists,
}

/// The add request's body: the book's metadata (subtitle and language as
/// `null` when absent, source "Audible"), `monitored` and `autoSearch`.
pub open spec fn is_add_body(j: Json, m: BookMetadata, monitored: bool, auto_search: bool) -> bool {
    let md = member(j, "metadata"@);
    &&& md is Some
    &&& is_text(member(md->0, "asin"@), m.asin@)
    &&& is_text(member(md->0, "title"@), m.title@)
    &&& is_text_or_null(member(md->0, "subtitle"@), m.subtitle)
    &&& is_text_list(member(md->0, "authors"@), strings_view(m.authors@))
    &&& is_text_list(member(md->0, "narrators"@), strings_view(m.narrators@))
    &&& is_text_or_null(member(md->0, "language"@), m.language)
    &&& is_text(member(md->0, "source"@), "Audible"@)
    &&& member(j, "monitored"@) == Some(Json::Bool(monitored))
    &&& member(j, "autoSearch"@) == Some(Json::Bool(auto_search))
}

/// Pure request-body construction.
pub fn add_request_body(m: &BookMetadata, monitored: bool, auto_search: bool) -> (j: Json)
    ensures
        is_add_body(j, *m, monitored, auto_search),
{
    let mut md: Vec<(String, Json)> = Vec::new();
    md.push(entry("asin", text(m.asin.as_str())));
    md.push(entry("title", text(m.title.as_str())));
    md.push(entry("subtitle", text_or_null(&m.subtitle)));
    md.push(entry("authors", text_list(&m.authors)));
    md.push(entry("narrators", text_list(&m.narrators)));
    md.push(entry("language", text_or_null(&m.language)));
    md.push(entry("source", text("Audible")));
    let metadata = Json::Object(md);
    let ghost mdg = metadata;
    let mut top: Vec<(String, Json)> = Vec::new();
    top.push(entry("metadata", metadata));
    top.push(entry("monitored", Json::Bool(monitored)));
    top.push(entry("autoSearch", Json::Bool(auto_search)));
    let body = Json::Object(top);
    let ghost bodyg = body;
    proof {
        reveal_strlit("metadata");
        reveal_strlit("monitored");
        reveal_strlit("autoSearch");
        reveal_strlit("asin");
        reveal_strlit("title");
        reveal_strlit("subtitle");
        reveal_strlit("authors");
        reveal_strlit("narrators");
        reveal_strlit("language");
        reveal_strlit("source");
        if let Json::Object(es) = bodyg {
            assert(es@[1].0@ == "monitored"@);
            assert(es@[2].0@ == "autoSearch"@);
            assert("monitored"@.len() != "metadata"@.len());
            assert("autoSearch"@.len() != "metadata"@.len());
            assert("autoSearch"@.len() != "monitored"@.len());
            assert(crate::json::lookup(es@, "metadata"@) == Some(es@[0].1));
            assert(es@.drop_first()[0] == es@[1]);
            assert(crate::json::lookup(es@.drop_first(), "monitored"@) == Some(es@[1].1));
            assert(crate::json::lookup(es@, "monitored"@) == Some(es@[1].1));
            assert(es@.drop_first().drop_first()[0] == es@[2]);
            assert(crate::json::lookup(es@.drop_first(), "autoSearch"@) == crate::json::lookup(
                es@.drop_first().drop_first(),
                "autoSearch"@,
            ));
            assert(crate::json::lookup(es@, "autoSearch"@) == Some(es@[2].1));
        }
        if let Json::Object(ms) = mdg {
            let names = seq!["asin"@, "title"@, "subtitle"@, "authors"@, "narrators"@, "language"@, "source"@];
            assert("subtitle"@[0] != "language"@[0]);
            assert forall|a: int, b: int| 0 <= a < names.len() && 0 <= b < names.len() && a != b implies names[a] != names[b] by {
                if names[a].len() == names[b].len() {
                    assert(names[a][0] != names[b][0]);
                }
            }
            crate::json::lemma_members(ms@, names);
            assert(names[0] == "asin"@);
            assert(names[1] == "title"@);
            assert(names[2] == "subtitle"@);
            assert(names[3] == "authors"@);
            assert(names[4] == "narrators"@);
            assert(names[5] == "language"@);
            assert(names[6] == "source"@);
        }
    }
    body
}

/// The outcome of an add, from the reply body: `alreadyExists: true` means
/// the book was already there; anything else counts as added.
pub fn add_outcome(body: &Json) -> (r: AddOutcome)
    ensures
        r == if bool_of(member(*body, "alreadyExists"@)) == Some(true) {
            AddOutcome::AlreadyExists
        } else {
            AddOutcome::Added
        },
{
    let already = match body.get("alreadyExists") {
        Some(v) => match v.as_bool() {
            Some(b) => b,
            None => false,
        },
        None => false,
    };
    if already {
        AddOutcome::AlreadyExists
    } else {
        AddOutcome::Added
    }
}

/// Whether the book exists, from the HTTP status of the lookup: success
/// means present, 404 means absent, any other error status is a failure.
pub fn existence(status: u16) -> (r: Option<bool>)
    ensures
        r == if status < 400 {
            Some(true)
        } else if status == 404 {
            Some(false)
        } else {
            None::<bool>
        },
{
    if status < 400 {
        Some(true)
    } else if status == 404 {
        Some(false)
    } else {
        None
    }
}

impl Client {
    pub closed spec fn base(&self) -> Seq<char> {
        self.base_url@
    }

    pub closed spec fn key(&self) -> Seq<char> {
        self.api_key@
    }

    pub fn new(base_url: &str, api_key: &str) -> (c: Self)
        ensures
            c.base() == crate::abs::without_trailing_slashes(base_url@),
            c.key() == api_key@,
    {
        Self {
            base_url: crate::abs::strip_trailing_slashes(base_url),
            api_key: api_key.to_owned(),
        }
    }

    /// The lookup of an ASIN in Listenarr's library.
    pub fn exists_by_asin(&self, asin: &str) -> (r: Request)
        ensures
            r.method == Method::Get,
            r.url@ == self.base() + "/api/v1/library/by-asin/"@ + asin@,
            pairs_view(r.headers@) == seq![("X-Api-Key"@, self.key())],
            r.body is None,
            r.timeout_secs == 15,
    {
        let mut url = chars_of(self.base_url.as_str());
        push_str(&mut url, "/api/v1/library/by-asin/");
        push_str(&mut url, asin);
        let mut headers: Vec<(String, String)> = Vec::new();
        headers.push(pair("X-Api-Key", self.api_key.as_str()));
        proof {
            assert(pairs_view(headers@) =~= seq![("X-Api-Key"@, self.key())]);
        }
        Request {
            method: Method::Get,
            url: string_of(&url),
            query: Vec::new(),
            headers,
            body: None,
            timeout_secs: 15,
        }
    }

    /// The request adding a book to the library.
    pub fn add(&self, m: &BookMetadata, monitored: bool, auto_search: bool) -> (r: Request)
        ensures
            r.method == Method::Post,
            r.url@ == self.base() + "/api/v1/library/add"@,
            pairs_view(r.headers@) == seq![
                ("X-Api-Key"@, self.key()),
                ("Content-Type"@, "application/json"@),
            ],
            r.body matches Some(b) && is_add_body(b, *m, monitored, auto_search),
            r.timeout_secs == 60,
    {
        let mut url = chars_of(self.base_url.as_str());
        push_str(&mut url, "/api/v1/library/add");
        let mut headers: Vec<(String, String)> = Vec::new();
        headers.push(pair("X-Api-Key", self.api_key.as_str()));
        headers.push(pair("Content-Type", "application/json"));
        proof {
            assert(pairs_view(headers@) =~= seq![
                ("X-Api-Key"@, self.key()),
                ("Content-Type"@, "application/json"@),
            ]);
        }
        Request {
            method: Method::Post,
            url: string_of(&url),
            query: Vec::new(),
            headers,
            body: Some(add_request_body(m, monitored, auto_search)),
            timeout_secs: 60,
        }
    }
}

} // verus!
