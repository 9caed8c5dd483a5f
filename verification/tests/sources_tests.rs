//! Reading the book sources and the catalog: .opf sidecars and Audible replies.

use narratarr::audible::{candidates, search};
use narratarr::json::Json;
use narratarr::opf::{read_opf, unescape};

fn s(x: &str) -> Json {
    Json::Str(x.to_string())
}

fn obj(pairs: Vec<(&str, Json)>) -> Json {
    Json::Object(pairs.into_iter().map(|(k, v)| (k.to_string(), v)).collect())
}

#[test]
fn opf_sidecar_is_read() {
    let xml = r#"<package><metadata>
        <dc:title>Cline, Ernest - Armada: A Novel</dc:title>
        <dc:creator opf:role="aut">Ernest Cline &amp; Co</dc:creator>
        <dc:language>eng</dc:language>
    </metadata></package>"#;
    let e = read_opf(xml).unwrap();
    assert_eq!(e.title, "Armada: A Novel");
    assert_eq!(e.author, "Ernest Cline & Co");
    assert_eq!(e.language.as_deref(), Some("eng"));
    assert!(read_opf("<package></package>").is_none());
    let e = read_opf("<dc:title>Dune</dc:title>").unwrap();
    assert_eq!(e.author, "");
    assert!(e.language.is_none());
}

#[test]
fn entities_are_unescaped() {
    assert_eq!(unescape(" &lt;b&gt; &quot;x&quot; &apos;y&#39; "), "<b> \"x\" 'y'");
    assert_eq!(unescape("&amp;lt;"), "<");
}

#[test]
fn catalog_search_request() {
    let r = search("Dune", Some("Frank Herbert"));
    assert_eq!(r.url, "https://api.audible.com/1.0/catalog/products");
    assert_eq!(r.query.len(), 5);
    assert_eq!(r.query[0], ("title".to_string(), "Dune".to_string()));
    assert_eq!(r.query[4], ("author".to_string(), "Frank Herbert".to_string()));
    assert_eq!(r.timeout_secs, 20);
    assert_eq!(search("Dune", None).query.len(), 4);
}

#[test]
fn catalog_reply_is_read() {
    let reply = obj(vec![(
        "products",
        Json::Array(vec![
            obj(vec![
                ("asin", s("B1")),
                ("title", s("Dune")),
                ("authors", Json::Array(vec![obj(vec![("name", s("Frank Herbert"))]), obj(vec![])])),
                ("narrators", Json::Array(vec![obj(vec![("name", s("Scott Brick"))])])),
                ("format_type", s("unabridged")),
                ("runtime_length_min", Json::UInt(1260)),
            ]),
            obj(vec![]),
        ]),
    )]);
    let cs = candidates(&reply);
    assert_eq!(cs.len(), 2);
    assert_eq!(cs[0].asin.as_deref(), Some("B1"));
    assert_eq!(cs[0].authors, vec!["Frank Herbert".to_string()]);
    assert_eq!(cs[0].narrators, vec!["Scott Brick".to_string()]);
    assert_eq!(cs[0].runtime_min, Some(1260));
    assert_eq!(cs[1].title, "");
    assert!(cs[1].asin.is_none());
    assert!(candidates(&Json::Null).is_empty());
}
