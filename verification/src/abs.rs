//! Audiobookshelf client — the source side of the bridge.
//!
//! Read-only: lists the ebooks in one ABS library. ABS is the owner of "what
//! books do I have"; narratarr never writes to it. This module builds the
//! requests and reads the replies; sending them is left to the caller.

use vstd::prelude::*;

use crate::http::{pair, pairs_view, Method, Request};
use crate::json::{array_of, member, text_of, u64_of, Json};
use crate::matcher::{precleaned_title, preclean_title, Ebook};
use crate::text::{
    chars_of, decimal, eq_char, opt_string_view, push_all, push_str, string_of, suffix_len_while,
    trim, trim_str, u64_text,
};

verus! {

pub struct Client {
    base_url: String,
    token: String,
}

/// (id, name, media_type) of an ABS library.
pub type LibraryInfo = (String, String, String);

/// Items per page when listing a library.
pub const PAGE_SIZE: usize = 100;

/// The page after which listing stops even if the server claims more.
pub const MAX_PAGE: usize = 1000;

/// `trim_end_matches('/')`.
pub open spec fn without_trailing_slashes(s: Seq<char>) -> Seq<char> {
    s.take(s.len() - suffix_len_while(s, eq_char('/')))
}

pub(crate) fn strip_trailing_slashes(s: &str) -> (r: String)
    ensures
        r@ == without_trailing_slashes(s@),
{
    let v = chars_of(s);
    let n = v.len();
    let mut j = n;
    while j > 0 && v[j - 1] == '/'
        invariant
            j <= n == v.len(),
            forall|k: int| j <= k < n ==> #[trigger] v@[k] == '/',
        decreases j,
    {
        j = j - 1;
    }
    proof {
        assert forall|k: int| v@.len() - (n - j) <= k < v@.len() implies (eq_char('/'))(
            #[trigger] v@[k],
        ) by {}
        crate::text::lemma_suffix_len_while(v@, eq_char('/'), (n - j) as int);
    }
    let r = crate::text::slice_chars(&v, 0, j);
    proof {
        assert(r@ =~= without_trailing_slashes(s@));
    }
    string_of(&r)
}

impl Client {
    pub closed spec fn base(&self) -> Seq<char> {
        self.base_url@
    }

    pub closed spec fn secret(&self) -> Seq<char> {
        self.token@
    }

    pub fn new(base_url: &str, token: &str) -> (c: Self)
        ensures
            c.base() == without_trailing_slashes(base_url@),
            c.secret() == token@,
    {
        Self { base_url: strip_trailing_slashes(base_url), token: token.to_owned() }
    }

    /// `r` is the authenticated GET of `path` on the server.
    pub open spec fn is_get_of(&self, r: Request, path: Seq<char>) -> bool {
        &&& r.method == Method::Get
        &&& r.url@ == self.base() + path
        &&& pairs_view(r.headers@) == seq![("Authorization"@, "Bearer "@ + self.secret())]
        &&& r.query@.len() == 0
        &&& r.body is None
        &&& r.timeout_secs == 30
    }

    /// An authenticated GET of `path` on the server.
    pub fn get(&self, path: &str) -> (r: Request)
        ensures
            self.is_get_of(r, path@),
    {
        let mut url = chars_of(self.base_url.as_str());
        push_str(&mut url, path);
        let mut auth = chars_of("Bearer ");
        let tok = chars_of(self.token.as_str());
        push_all(&mut auth, &tok);
        let auth = string_of(&auth);
        let mut headers: Vec<(String, String)> = Vec::new();
        headers.push(pair("Authorization", auth.as_str()));
        proof {
            assert(pairs_view(headers@) =~= seq![("Authorization"@, "Bearer "@ + self.secret())]);
        }
        Request {
            method: Method::Get,
            url: string_of(&url),
            query: Vec::new(),
            headers,
            body: None,
            timeout_secs: 30,
        }
    }

    /// The request listing every library on the server.
    pub fn libraries(&self) -> (r: Request)
        ensures
            self.is_get_of(r, "/api/libraries"@),
    {
        self.get("/api/libraries")
    }

    /// The request for the next page of a library's items, or `None` once
    /// the listing is complete.
    pub fn ebooks(&self, library_id: &str, listing: &EbookListing) -> (r: Option<Request>)
        ensures
            match r {
                Some(req) => !listing.finished() && self.is_get_of(
                    req,
                    items_path(library_id@, listing.page() as nat),
                ),
                None => listing.finished(),
            },
    {
        if listing.finished {
            return None;
        }
        let mut p = chars_of("/api/libraries/");
        push_str(&mut p, library_id);
        push_str(&mut p, "/items?limit=");
        let size = u64_text(PAGE_SIZE as u64);
        push_all(&mut p, &size);
        push_str(&mut p, "&page=");
        let page = u64_text(listing.page as u64);
        push_all(&mut p, &page);
        let path = string_of(&p);
        Some(self.get(path.as_str()))
    }
}

/// The path of one page of a library's items.
pub open spec fn items_path(library_id: Seq<char>, page: nat) -> Seq<char> {
    "/api/libraries/"@ + library_id + "/items?limit="@ + decimal(PAGE_SIZE as nat) + "&page="@
        + decimal(page)
}

// ---------------------------------------------------------------------------
// Reading replies
// ---------------------------------------------------------------------------

pub open spec fn member_of(j: Option<Json>, key: Seq<char>) -> Option<Json> {
    match j {
        Some(v) => member(v, key),
        None => None,
    }
}

pub open spec fn text_or_empty(t: Option<Seq<char>>) -> Seq<char> {
    match t {
        Some(s) => s,
        None => seq![],
    }
}

/// A library entry as (id, name, media type); missing fields read as "".
pub open spec fn library_of(l: Json) -> (Seq<char>, Seq<char>, Seq<char>) {
    (
        text_or_empty(text_of(member(l, "id"@))),
        text_or_empty(text_of(member(l, "name"@))),
        text_or_empty(text_of(member(l, "mediaType"@))),
    )
}

pub open spec fn library_view(l: LibraryInfo) -> (Seq<char>, Seq<char>, Seq<char>) {
    (l.0@, l.1@, l.2@)
}

fn text_member_or_empty(j: &Json, key: &str) -> (r: String)
    ensures
        r@ == text_or_empty(text_of(member(*j, key@))),
{
    match crate::json::member_text(j, key) {
        Some(s) => s,
        None => String::new(),
    }
}

/// (id, name, media_type) for every library in a `/api/libraries` reply.
pub fn parse_libraries(v: &Json) -> (r: Vec<LibraryInfo>)
    ensures
        r@.map_values(|l: LibraryInfo| library_view(l)) == match array_of(member(*v, "libraries"@)) {
            Some(items) => items.map_values(|l: Json| library_of(l)),
            None => seq![],
        },
{
    let mut out: Vec<LibraryInfo> = Vec::new();
    match v.get("libraries") {
        Some(list) => match list.as_array() {
            Some(items) => {
                let mut i: usize = 0;
                while i < items.len()
                    invariant
                        i <= items@.len(),
                        array_of(member(*v, "libraries"@)) == Some(items@),
                        out@.map_values(|l: LibraryInfo| library_view(l)) == items@.take(
                            i as int,
                        ).map_values(|l: Json| library_of(l)),
                    decreases items.len() - i,
                {
                    let l = &items[i];
                    let info = (
                        text_member_or_empty(l, "id"),
                        text_member_or_empty(l, "name"),
                        text_member_or_empty(l, "mediaType"),
                    );
                    let ghost before = out@;
                    out.push(info);
                    proof {
                        assert(*l == items@[i as int]);
                        assert(library_view(info) == library_of(items@[i as int]));
                        assert(out@ == before.push(info));
                        assert(items@.take(i + 1) =~= items@.take(i as int).push(items@[i as int]));
                        assert(before.push(info).map_values(|l: LibraryInfo| library_view(l))
                            =~= before.map_values(|l: LibraryInfo| library_view(l)).push(
                            library_view(info),
                        ));
                        assert(items@.take(i as int).push(items@[i as int]).map_values(
                            |l: Json| library_of(l),
                        ) =~= items@.take(i as int).map_values(|l: Json| library_of(l)).push(
                            library_of(items@[i as int]),
                        ));
                        assert(out@.map_values(|l: LibraryInfo| library_view(l)) =~= items@.take(
                            i + 1,
                        ).map_values(|l: Json| library_of(l)));
                    }
                    i = i + 1;
                }
                proof {
                    assert(items@.take(items@.len() as int) =~= items@);
                }
                out
            },
            None => out,
        },
        None => out,
    }
}

/// An item of a library page as an ebook: its metadata title (trimmed,
/// precleaned), author name (or "") and language; items without a
/// non-blank title are skipped.
pub open spec fn ebook_of_item(item: Json) -> Option<(Seq<char>, Seq<char>, Option<Seq<char>>)> {
    let md = member_of(member(item, "media"@), "metadata"@);
    match text_of(member_of(md, "title"@)) {
        None => None,
        Some(t) => if trim(t).len() == 0 {
            None
        } else {
            Some(
                (
                    precleaned_title(trim(t)),
                    text_or_empty(text_of(member_of(md, "authorName"@))),
                    text_of(member_of(md, "language"@)),
                ),
            )
        },
    }
}

/// The `media.metadata` object of a library item.
pub open spec fn item_metadata(item: Json) -> Option<Json> {
    member_of(member(item, "media"@), "metadata"@)
}

/// A library item yields an ebook exactly when its metadata carries a
/// non-blank title string; the ebook then has that title trimmed and
/// precleaned, the item's `authorName` string as its author ("" without
/// one), and its `language` string as its language.
pub proof fn lemma_item_ebook_fields(item: Json)
    ensures
        ebook_of_item(item) is Some <==> (text_of(member_of(item_metadata(item), "title"@)) matches Some(
            t,
        ) && trim(t).len() > 0),
        ebook_of_item(item) matches Some(e) ==> {
            &&& text_of(member_of(item_metadata(item), "title"@)) matches Some(t) && e.0
                == precleaned_title(trim(t))
            &&& (text_of(member_of(item_metadata(item), "authorName"@)) matches Some(a) ==> e.1 == a)
            &&& (text_of(member_of(item_metadata(item), "authorName"@)) is None ==> e.1.len() == 0)
            &&& e.2 == text_of(member_of(item_metadata(item), "language"@))
        },
{
}

pub open spec fn ebook_view(e: Ebook) -> (Seq<char>, Seq<char>, Option<Seq<char>>) {
    (e.title@, e.author@, opt_string_view(e.language))
}

pub open spec fn ebooks_view(v: Seq<Ebook>) -> Seq<(Seq<char>, Seq<char>, Option<Seq<char>>)> {
    v.map_values(|e: Ebook| ebook_view(e))
}

/// The ebooks of a page's `results`, in order.
pub open spec fn page_ebooks(v: Json) -> Seq<(Seq<char>, Seq<char>, Option<Seq<char>>)> {
    match array_of(member(v, "results"@)) {
        Some(items) => items.filter_map(|i: Json| ebook_of_item(i)),
        None => seq![],
    }
}

/// The total the server reports for a page (0 when absent).
pub open spec fn page_total(v: Json) -> usize {
    match u64_of(member(v, "total"@)) {
        Some(t) => t as usize,
        None => 0,
    }
}

fn member_of_opt<'a>(j: Option<&'a Json>, key: &str) -> (r: Option<&'a Json>)
    ensures
        match r {
            Some(x) => member_of(crate::json::deref_opt(j), key@) == Some(*x),
            None => member_of(crate::json::deref_opt(j), key@) is None,
        },
{
    match j {
        Some(v) => v.get(key),
        None => None,
    }
}

fn text_of_opt(j: Option<&Json>) -> (r: Option<String>)
    ensures
        match r {
            Some(s) => text_of(crate::json::deref_opt(j)) == Some(s@),
            None => text_of(crate::json::deref_opt(j)) is None,
        },
{
    match j {
        Some(v) => match v.as_str() {
            Some(s) => Some(s.to_owned()),
            None => None,
        },
        None => None,
    }
}

fn item_ebook(item: &Json) -> (r: Option<Ebook>)
    ensures
        match r {
            Some(e) => ebook_of_item(*item) == Some(ebook_view(e)),
            None => ebook_of_item(*item) is None,
        },
{
    let md = member_of_opt(item.get("media"), "metadata");
    let title = match text_of_opt(member_of_opt(md, "title")) {
        Some(t) => t,
        None => return None,
    };
    let t = trim_str(title.as_str());
    if t.len() == 0 {
        return None;
    }
    let t = string_of(&t);
    let author = match text_of_opt(member_of_opt(md, "authorName")) {
        Some(a) => a,
        None => String::new(),
    };
    let language = text_of_opt(member_of_opt(md, "language"));
    Some(Ebook { title: preclean_title(t.as_str()), author, language })
}

/// Pure page parser. Returns (books, server_total).
pub fn parse_items_page(v: &Json) -> (r: (Vec<Ebook>, usize))
    ensures
        ebooks_view(r.0@) == page_ebooks(*v),
        r.1 == page_total(*v),
{
    let total: usize = match v.get("total") {
        Some(t) => match t.as_u64() {
            Some(n) => n as usize,
            None => 0,
        },
        None => 0,
    };
    let mut books: Vec<Ebook> = Vec::new();
    match v.get("results") {
        Some(list) => match list.as_array() {
            Some(items) => {
                let ghost f = |i: Json| ebook_of_item(i);
                let mut i: usize = 0;
                proof {
                    assert(items@.take(0) =~= Seq::<Json>::empty());
                    assert(ebooks_view(books@) =~= items@.take(0).filter_map(f));
                }
                while i < items.len()
                    invariant
                        i <= items@.len(),
                        f == (|i: Json| ebook_of_item(i)),
                        array_of(member(*v, "results"@)) == Some(items@),
                        ebooks_view(books@) == items@.take(i as int).filter_map(f),
                    decreases items.len() - i,
                {
                    let e = item_ebook(&items[i]);
                    proof {
                        items@.lemma_filter_map_take_succ(f, i as int);
                    }
                    match e {
                        Some(b) => {
                            let ghost before = books@;
                            books.push(b);
                            proof {
                                assert(ebooks_view(books@) =~= ebooks_view(before) + seq![
                                    ebook_view(b),
                                ]);
                            }
                        },
                        None => {},
                    }
                    i = i + 1;
                }
                proof {
                    assert(items@.take(items@.len() as int) =~= items@);
                }
            },
            None => {},
        },
        None => {},
    }
    (books, total)
}

// ---------------------------------------------------------------------------
// Paginated listing
// ---------------------------------------------------------------------------

/// The progress of listing one library, page by page.
pub struct EbookListing {
    books: Vec<Ebook>,
    page: usize,
    finished: bool,
}

impl EbookListing {
    pub closed spec fn page(&self) -> usize {
        self.page
    }

    pub closed spec fn finished(&self) -> bool {
        self.finished
    }

    pub closed spec fn collected(&self) -> Seq<Ebook> {
        self.books@
    }

    /// Nothing listed yet.
    pub fn new() -> (l: Self)
        ensures
            l.page() == 0,
            !l.finished(),
            l.collected().len() == 0,
    {
        EbookListing { books: Vec::new(), page: 0, finished: false }
    }

    /// Takes in one page: its books are appended, and the listing is
    /// complete once at least the server's total is collected or more than
    /// `MAX_PAGE` pages were fetched.
    pub fn add_page(&mut self, v: &Json)
        requires
            !old(self).finished(),
            old(self).page() <= MAX_PAGE,
        ensures
            ebooks_view(final(self).collected()) == ebooks_view(old(self).collected()) + page_ebooks(
                *v,
            ),
            final(self).page() == old(self).page() + 1,
            final(self).finished() == (final(self).collected().len() >= page_total(*v)
                || final(self).page() > MAX_PAGE),
            !final(self).finished() ==> final(self).page() <= MAX_PAGE,
    {
        let (mut books, total) = parse_items_page(v);
        let ghost before = self.books@;
        let ghost added = books@;
        self.books.append(&mut books);
        proof {
            assert(ebooks_view(self.books@) =~= ebooks_view(before) + ebooks_view(added));
        }
        self.page = self.page + 1;
        self.finished = self.books.len() >= total || self.page > MAX_PAGE;
    }

    /// The books collected so far.
    pub fn into_books(self) -> (r: Vec<Ebook>)
        ensures
            r@ == self.collected(),
    {
        self.books
    }
}

} // verus!
