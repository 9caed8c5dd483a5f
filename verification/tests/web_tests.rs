//! Contracts for the review page's logic: verdicts, payloads, routing and
//! query decoding. The decision table is kept in a vector here, the way the
//! program keeps it in its database: one row per key, last write wins.

use narratarr::json::{member_text, Json};
use narratarr::matcher::Candidate;
use narratarr::store::{is_actionable, now_epoch, Decision, DecisionStatus, FULL_CONFIDENCE_BITS};
use narratarr::web::{
    alternative_item, alternatives_payload, alternatives_query, decide, decide_response,
    history_json, is_route_supported, notfound_json, query_param, queue_json, recency_order, route,
    status_json, urldecode, Route,
};

fn s(x: &str) -> Json {
    Json::Str(x.to_string())
}

fn obj(pairs: Vec<(&str, Json)>) -> Json {
    Json::Object(pairs.into_iter().map(|(k, v)| (k.to_string(), v)).collect())
}

fn at<'a>(j: &'a Json, k: &str) -> &'a Json {
    j.get(k).expect("member present")
}

fn ambiguous(key: &str) -> Decision {
    Decision {
        ebook_key: key.into(),
        status: DecisionStatus::Ambiguous,
        asin: Some("B000BEST".into()),
        confidence: Some(0.7f64.to_bits()),
        attempts: 1,
        next_retry: None,
        updated_at: now_epoch(),
        note: Some("Best Candidate".into()),
        ebook_title: Some("Some Book".into()),
        ebook_author: Some("Some Author".into()),
        image_url: Some("https://img/cover.jpg".into()),
        reasons: Some("no-author-metadata".into()),
    }
}

fn get<'a>(store: &'a [Decision], key: &str) -> Option<&'a Decision> {
    store.iter().find(|d| d.ebook_key == key)
}

fn record(store: &mut Vec<Decision>, d: Decision) {
    match store.iter().position(|x| x.ebook_key == d.ebook_key) {
        Some(i) => store[i] = d,
        None => store.push(d),
    }
}

/// What the page's POST does: read the key, look up the prior decision,
/// apply the verdict and record it.
fn post(store: &mut Vec<Decision>, body: Json) -> Result<Json, String> {
    let key = member_text(&body, "key");
    let prior = key.as_deref().and_then(|k| get(store, k)).cloned();
    let d = decide(&body, prior.as_ref(), now_epoch())?;
    let reply = decide_response(&d);
    match &reply {
        Json::Object(es) => {
            let names: Vec<&str> = es.iter().map(|(k, _)| k.as_str()).collect();
            assert_eq!(names, vec!["ok", "key", "status"]);
        }
        _ => panic!("expected an object"),
    }
    record(store, d);
    Ok(reply)
}

fn verdict(key: &str, action: &str) -> Json {
    obj(vec![("key", s(key)), ("action", s(action))])
}

#[test]
fn accept_reject_reopen_roundtrip() {
    let mut store = vec![ambiguous("k1")];

    post(&mut store, verdict("k1", "accept")).unwrap();
    assert_eq!(get(&store, "k1").unwrap().status, DecisionStatus::Matched);
    assert_eq!(get(&store, "k1").unwrap().asin.as_deref(), Some("B000BEST"));

    post(&mut store, verdict("k1", "reopen")).unwrap();
    let d = get(&store, "k1").unwrap();
    assert_eq!(d.status, DecisionStatus::Ambiguous);
    assert_eq!(d.ebook_title.as_deref(), Some("Some Book"));
    assert_eq!(d.image_url.as_deref(), Some("https://img/cover.jpg"));

    post(
        &mut store,
        obj(vec![("key", s("k1")), ("action", s("accept")), ("asin", s("B000OTHER"))]),
    )
    .unwrap();
    assert_eq!(get(&store, "k1").unwrap().asin.as_deref(), Some("B000OTHER"));

    post(&mut store, verdict("k1", "skip")).unwrap();
    assert_eq!(get(&store, "k1").unwrap().status, DecisionStatus::Skipped);
}

#[test]
fn retry_makes_notfound_actionable_again() {
    let mut store = Vec::new();
    let mut d = ambiguous("k2");
    d.status = DecisionStatus::NotFound;
    d.next_retry = Some(now_epoch() + 999_999);
    record(&mut store, d);
    assert!(!is_actionable(get(&store, "k2"), now_epoch()));

    post(&mut store, verdict("k2", "retry")).unwrap();
    assert!(is_actionable(get(&store, "k2"), now_epoch()));
}

#[test]
fn queue_and_status_shapes() {
    let mut store = Vec::new();
    record(&mut store, ambiguous("k3"));
    let last = obj(vec![("at", Json::UInt(123)), ("errors", Json::UInt(0))]);

    let q = queue_json(&store);
    let items = at(&q, "items").as_array().unwrap();
    assert_eq!(at(&items[0], "image_url").as_str(), Some("https://img/cover.jpg"));
    assert_eq!(at(&items[0], "reasons").as_array().unwrap()[0].as_str(), Some("no-author-metadata"));

    let st = status_json(&store, Some(last), 5);
    assert_eq!(at(at(&st, "counts"), "ambiguous").as_u64(), Some(1));
    assert_eq!(at(at(&st, "last_cycle"), "at").as_u64(), Some(123));
}

#[test]
fn verdict_errors() {
    let prior = ambiguous("k");
    let err = |body: Json, p: Option<&Decision>| decide(&body, p, 0).unwrap_err();
    assert_eq!(err(obj(vec![("action", s("skip"))]), None), "missing key");
    assert_eq!(err(obj(vec![("key", s("k"))]), None), "missing action");
    assert_eq!(err(verdict("k", "reopen"), None), "cannot reopen an unknown book");
    assert_eq!(err(verdict("k", "accept"), None), "accept needs an asin");
    assert_eq!(err(verdict("k", "nuke"), Some(&prior)), "action must be accept, skip, reopen, or retry");
    // a non-string key counts as missing
    assert_eq!(err(obj(vec![("key", Json::UInt(3)), ("action", s("skip"))]), None), "missing key");
}

#[test]
fn verdict_fields() {
    let mut prior = ambiguous("k");
    prior.attempts = 4;
    let d = decide(&verdict("k", "skip"), Some(&prior), 77).unwrap();
    assert_eq!(d.status, DecisionStatus::Skipped);
    assert_eq!(d.asin, None);
    assert_eq!(d.confidence, Some(FULL_CONFIDENCE_BITS));
    assert_eq!(f64::from_bits(FULL_CONFIDENCE_BITS), 1.0);
    assert_eq!(d.attempts, 4);
    assert_eq!(d.next_retry, None);
    assert_eq!(d.updated_at, 77);
    assert_eq!(d.note.as_deref(), Some("web review: rejected"));
    assert_eq!(d.reasons.as_deref(), Some("no-author-metadata"));
    let d = decide(&verdict("new", "retry"), None, 1).unwrap();
    assert_eq!(d.status, DecisionStatus::NotFound);
    assert_eq!(d.attempts, 0);
    assert_eq!(d.ebook_title, None);
    assert_eq!(d.note.as_deref(), Some("web review: retry requested"));
    let reply = decide_response(&d);
    match &reply {
        Json::Object(es) => {
            let names: Vec<&str> = es.iter().map(|(k, _)| k.as_str()).collect();
            assert_eq!(names, vec!["ok", "key", "status"]);
        }
        _ => panic!("expected an object"),
    }
    assert_eq!(at(&reply, "ok").as_bool(), Some(true));
    assert_eq!(at(&reply, "key").as_str(), Some("new"));
    assert_eq!(at(&reply, "status").as_str(), Some("not_found"));
}

#[test]
fn not_found_lane_and_history() {
    let mut a = ambiguous("a");
    a.updated_at = 10;
    let mut b = ambiguous("b");
    b.status = DecisionStatus::NotFound;
    b.next_retry = Some(500);
    b.attempts = 3;
    b.updated_at = 30;
    let mut c = ambiguous("c");
    c.updated_at = 10;
    let store = vec![a, b, c];

    let nf = notfound_json(&store, 99);
    let items = at(&nf, "items").as_array().unwrap();
    assert_eq!(items.len(), 1);
    assert_eq!(at(&items[0], "key").as_str(), Some("b"));
    assert_eq!(at(&items[0], "attempts").as_i64(), Some(3));
    assert_eq!(at(&items[0], "next_retry").as_i64(), Some(500));
    assert_eq!(at(&nf, "now").as_i64(), Some(99));

    // newest first; equal times keep their order
    assert_eq!(recency_order(&store), vec![1, 0, 2]);
    let h = history_json(&store, 99);
    let rows = at(&h, "items").as_array().unwrap();
    let keys: Vec<_> = rows.iter().map(|r| at(r, "key").as_str().unwrap().to_string()).collect();
    assert_eq!(keys, vec!["b", "a", "c"]);
    assert_eq!(at(&rows[0], "status").as_str(), Some("not_found"));
    assert_eq!(at(&rows[0], "updated_at").as_i64(), Some(30));
}

#[test]
fn history_shows_every_decision() {
    let store: Vec<Decision> = (0..305)
        .map(|i| {
            let mut d = ambiguous(&format!("k{i}"));
            d.updated_at = i;
            d
        })
        .collect();
    let h = history_json(&store, 0);
    let rows = at(&h, "items").as_array().unwrap();
    assert_eq!(rows.len(), 305);
    assert_eq!(at(&rows[0], "key").as_str(), Some("k304"));
    assert_eq!(at(&rows[304], "key").as_str(), Some("k0"));
}

#[test]
fn status_counts_every_lane() {
    let mut m = ambiguous("m");
    m.status = DecisionStatus::Matched;
    let mut k = ambiguous("k");
    k.status = DecisionStatus::Skipped;
    let store = vec![m, k, ambiguous("a")];
    let st = status_json(&store, None, 42);
    let counts = at(&st, "counts");
    assert_eq!(at(counts, "matched").as_u64(), Some(1));
    assert_eq!(at(counts, "ambiguous").as_u64(), Some(1));
    assert_eq!(at(counts, "not_found").as_u64(), Some(0));
    assert_eq!(at(counts, "skipped").as_u64(), Some(1));
    assert_eq!(at(&st, "total").as_u64(), Some(3));
    assert_eq!(at(&st, "now").as_i64(), Some(42));
    assert!(matches!(at(&st, "last_cycle"), Json::Null));
}

#[test]
fn reasons_split_at_commas() {
    let mut d = ambiguous("r");
    d.reasons = Some("a,,b".into());
    let q = queue_json(&[d]);
    let items = at(&q, "items").as_array().unwrap();
    let rs: Vec<_> = at(&items[0], "reasons").as_array().unwrap().iter().map(|r| r.as_str().unwrap()).collect();
    assert_eq!(rs, vec!["a", "", "b"]);
    let mut d = ambiguous("r");
    d.reasons = None;
    let q = queue_json(&[d]);
    let items = at(&q, "items").as_array().unwrap();
    assert!(at(&items[0], "reasons").as_array().unwrap().is_empty());
}

#[test]
fn query_decoding() {
    assert_eq!(urldecode("a+b%20c"), "a b c");
    assert_eq!(urldecode("100%"), "100%");
    assert_eq!(urldecode("%zz"), "%zz");
    assert_eq!(urldecode("%E2%9C%93"), "\u{2713}");
    assert_eq!(urldecode("%FF"), "\u{FFFD}");
    assert_eq!(urldecode("plain"), "plain");
    assert_eq!(urldecode("%41%42"), "AB");
    assert_eq!(query_param("key=a%7Cb&q=x+y", "key").as_deref(), Some("a|b"));
    assert_eq!(query_param("key=a%7Cb&q=x+y", "q").as_deref(), Some("x y"));
    assert_eq!(query_param("flag&q=", "q").as_deref(), Some(""));
    assert_eq!(query_param("k=1", "key"), None);
}

#[test]
fn routing() {
    assert!(matches!(route(true, false, "/"), Route::Page));
    assert!(matches!(route(true, false, "/api/status"), Route::Status));
    assert!(matches!(route(true, false, "/api/notfound?x=1"), Route::NotFoundLane));
    assert!(matches!(route(true, false, "/api/history"), Route::History));
    assert!(matches!(route(true, false, "/api/queue"), Route::Queue));
    assert!(matches!(route(false, true, "/api/decide"), Route::Decide));
    assert!(matches!(route(true, false, "/api/decide"), Route::Unknown));
    assert!(matches!(route(false, true, "/api/queue"), Route::Unknown));
    match route(true, false, "/api/alternatives?key=x%7Cy&q=dune") {
        Route::Alternatives { key, q } => {
            assert_eq!(key.as_deref(), Some("x|y"));
            assert_eq!(q.as_deref(), Some("dune"));
        }
        _ => panic!("expected alternatives"),
    }
    match route(true, false, "/api/alternatives") {
        Route::Alternatives { key, q } => assert!(key.is_none() && q.is_none()),
        _ => panic!("expected alternatives"),
    }
    assert!(is_route_supported(true, "/api/alternatives?key=%41"));
    assert!(!is_route_supported(true, "/api/alternatives?key=%4\u{e9}"));
    // other paths never decode their query
    assert!(is_route_supported(true, "/api/status?key=%a\u{e9}"));
    assert!(matches!(route(true, false, "/api/status?key=%a\u{e9}"), Route::Status));
    assert!(is_route_supported(false, "/api/alternatives?key=%4\u{e9}"));
}

#[test]
fn alternatives_search_and_payload() {
    let mut d = ambiguous("frank herbert|dune");
    d.ebook_title = None;
    d.ebook_author = None;
    let q = alternatives_query(&d, "frank herbert|dune", None);
    assert_eq!(q.title, "dune");
    assert_eq!(q.author, "frank herbert");
    assert_eq!(q.q, "dune");
    assert_eq!(q.search_author.as_deref(), Some("frank herbert"));
    let q = alternatives_query(&ambiguous("k"), "k", Some("  Dune Messiah "));
    assert_eq!(q.title, "Some Book");
    assert_eq!(q.q, "Dune Messiah");
    let q = alternatives_query(&ambiguous("k"), "k", Some("   "));
    assert_eq!(q.q, "Some Book");
    let mut anon = ambiguous("k");
    anon.ebook_author = Some(" ; ".into());
    assert_eq!(alternatives_query(&anon, "k", None).search_author, None);

    let c = Candidate {
        asin: Some("B1".into()),
        title: "Dune".into(),
        authors: vec!["Frank Herbert".into()],
        runtime_min: Some(1260),
        ..Default::default()
    };
    let item = alternative_item("B1", &c, 0.9f64.to_bits(), &vec!["abridged".to_string()]);
    assert_eq!(at(&item, "asin").as_str(), Some("B1"));
    assert_eq!(at(&item, "runtime_min").as_i64(), Some(1260));
    assert!(matches!(at(&item, "subtitle"), Json::Null));
    assert!(matches!(at(&item, "total"), Json::Float(b) if f64::from_bits(*b) == 0.9));
    assert_eq!(at(&item, "penalties").as_array().unwrap()[0].as_str(), Some("abridged"));
    let p = alternatives_payload("k", "Dune", vec![item]);
    assert_eq!(at(&p, "key").as_str(), Some("k"));
    assert_eq!(at(&p, "ebook_title").as_str(), Some("Dune"));
    assert_eq!(at(&p, "items").as_array().unwrap().len(), 1);
}
