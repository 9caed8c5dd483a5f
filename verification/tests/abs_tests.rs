//! Page-parser and request contracts for the Audiobookshelf items API.

use narratarr::abs::{parse_items_page, parse_libraries, Client, EbookListing};
use narratarr::http::Method;
use narratarr::json::Json;

fn s(x: &str) -> Json {
    Json::Str(x.to_string())
}

fn obj(pairs: Vec<(&str, Json)>) -> Json {
    Json::Object(pairs.into_iter().map(|(k, v)| (k.to_string(), v)).collect())
}

fn item(id: &str, metadata: Json) -> Json {
    obj(vec![("id", s(id)), ("media", obj(vec![("metadata", metadata)]))])
}

fn page() -> Json {
    obj(vec![
        ("total", Json::UInt(236)),
        (
            "results",
            Json::Array(vec![
                item(
                    "a",
                    obj(vec![
                        ("title", s("Cline, Ernest - Armada: A Novel")),
                        ("authorName", s("Ernest Cline")),
                        ("language", Json::Null),
                    ]),
                ),
                item("b", obj(vec![("title", s("  ")), ("authorName", s("Nobody"))])),
                item(
                    "c",
                    obj(vec![
                        ("title", s("Anathem")),
                        ("authorName", s("Neal Stephenson")),
                        ("language", s("en")),
                    ]),
                ),
            ]),
        ),
    ])
}

#[test]
fn parses_items_and_applies_preclean() {
    let (books, total) = parse_items_page(&page());
    assert_eq!(total, 236);
    assert_eq!(books.len(), 2);
    assert_eq!(books[0].title, "Armada: A Novel");
    assert_eq!(books[1].language.as_deref(), Some("en"));
}

#[test]
fn page_without_results_is_empty() {
    let (books, total) = parse_items_page(&obj(vec![("total", s("x"))]));
    assert_eq!(total, 0);
    assert!(books.is_empty());
    let (books, _) = parse_items_page(&obj(vec![(
        "results",
        Json::Array(vec![item("d", obj(vec![("authorName", s("No Title"))]))]),
    )]));
    assert!(books.is_empty());
}

#[test]
fn requests_carry_the_token() {
    let c = Client::new("http://abs:80//", "tok");
    let r = c.libraries();
    assert_eq!(r.method, Method::Get);
    assert_eq!(r.url, "http://abs:80/api/libraries");
    assert_eq!(r.headers, vec![("Authorization".to_string(), "Bearer tok".to_string())]);
    assert_eq!(r.timeout_secs, 30);
}

#[test]
fn listing_pages_until_total() {
    let c = Client::new("http://abs", "t");
    let mut l = EbookListing::new();
    let r = c.ebooks("lib1", &l).unwrap();
    assert_eq!(r.url, "http://abs/api/libraries/lib1/items?limit=100&page=0");
    l.add_page(&page());
    // 2 of 236 collected: ask for the next page
    let r = c.ebooks("lib1", &l).unwrap();
    assert_eq!(r.url, "http://abs/api/libraries/lib1/items?limit=100&page=1");
    let last = obj(vec![("total", Json::UInt(2)), ("results", Json::Array(vec![]))]);
    l.add_page(&last);
    assert!(c.ebooks("lib1", &l).is_none());
    let books = l.into_books();
    assert_eq!(books.len(), 2);
    assert_eq!(books[1].title, "Anathem");
}

#[test]
fn libraries_reply_is_read() {
    let v = obj(vec![(
        "libraries",
        Json::Array(vec![
            obj(vec![("id", s("l1")), ("name", s("Books")), ("mediaType", s("book"))]),
            obj(vec![("id", s("l2"))]),
        ]),
    )]);
    let libs = parse_libraries(&v);
    assert_eq!(libs.len(), 2);
    assert_eq!(libs[0], ("l1".to_string(), "Books".to_string(), "book".to_string()));
    assert_eq!(libs[1], ("l2".to_string(), String::new(), String::new()));
    assert!(parse_libraries(&Json::Null).is_empty());
}
