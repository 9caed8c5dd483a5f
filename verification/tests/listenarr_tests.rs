//! Request-body contract for the Listenarr add call: camelCase field names
//! matching ASP.NET's default binding, minimal-but-sufficient metadata.

use narratarr::http::Method;
use narratarr::json::Json;
use narratarr::listenarr::{add_outcome, add_request_body, existence, AddOutcome, BookMetadata, Client};

fn member<'a>(j: &'a Json, k: &str) -> &'a Json {
    j.get(k).expect("member present")
}

fn metadata() -> BookMetadata {
    BookMetadata {
        asin: "B003ZWFO7E".into(),
        title: "The Way of Kings".into(),
        subtitle: None,
        authors: vec!["Brandon Sanderson".into()],
        narrators: vec!["Michael Kramer".into(), "Kate Reading".into()],
        language: Some("english".into()),
    }
}

#[test]
fn add_body_shape() {
    let m = metadata();
    let body = add_request_body(&m, true, false);
    let md = member(&body, "metadata");
    assert_eq!(member(md, "asin").as_str(), Some("B003ZWFO7E"));
    let authors = member(md, "authors").as_array().unwrap();
    assert_eq!(authors[0].as_str(), Some("Brandon Sanderson"));
    assert_eq!(member(&body, "monitored").as_bool(), Some(true));
    assert_eq!(member(&body, "autoSearch").as_bool(), Some(false));
    // subtitle serializes as null, not omitted
    assert!(matches!(member(md, "subtitle"), Json::Null));
}

#[test]
fn body_names_the_source() {
    let body = add_request_body(&metadata(), false, true);
    let md = member(&body, "metadata");
    assert_eq!(member(md, "source").as_str(), Some("Audible"));
    assert_eq!(member(md, "language").as_str(), Some("english"));
    assert_eq!(member(md, "narrators").as_array().unwrap().len(), 2);
    assert_eq!(member(&body, "autoSearch").as_bool(), Some(true));
}

#[test]
fn requests_and_replies() {
    let c = Client::new("http://larr:4545/", "key1");
    let r = c.exists_by_asin("B01");
    assert_eq!(r.method, Method::Get);
    assert_eq!(r.url, "http://larr:4545/api/v1/library/by-asin/B01");
    assert_eq!(r.headers, vec![("X-Api-Key".to_string(), "key1".to_string())]);
    let r = c.add(&metadata(), true, false);
    assert_eq!(r.method, Method::Post);
    assert_eq!(r.url, "http://larr:4545/api/v1/library/add");
    assert_eq!(r.timeout_secs, 60);
    assert!(r.body.is_some());

    assert_eq!(existence(200), Some(true));
    assert_eq!(existence(404), Some(false));
    assert_eq!(existence(500), None);
    let yes = Json::Object(vec![("alreadyExists".to_string(), Json::Bool(true))]);
    assert_eq!(add_outcome(&yes), AddOutcome::AlreadyExists);
    assert_eq!(add_outcome(&Json::Null), AddOutcome::Added);
}
