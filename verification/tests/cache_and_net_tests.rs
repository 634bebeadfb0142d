use rfheadless::cache::CssCache;
use rfheadless::dom::Attribute;
use rfheadless::dom::HtmlNode;
use rfheadless::dom::build_snapshot;
use rfheadless::bridge::serialize_elements;
use rfheadless::bridge::serialize_styles;
use rfheadless::net::resolve_url;
use rfheadless::net::stylesheet_sources;

#[test]
fn cache_returns_fresh_entries() {
    let mut c = CssCache::new(4, 1000);
    c.insert(b"u1".to_vec(), b"body{}".to_vec(), 0);
    assert_eq!(c.get(b"u1", 500), Some(b"body{}".to_vec()));
    assert_eq!(c.get(b"u2", 500), None);
}

#[test]
fn cache_expires_entries_after_ttl() {
    let mut c = CssCache::new(4, 1000);
    c.insert(b"u1".to_vec(), b"a{}".to_vec(), 0);
    // Past the time-to-live the entry is dropped.
    assert_eq!(c.get(b"u1", 1001), None);
    assert_eq!(c.get(b"u1", 0), None);
}

#[test]
fn cache_evicts_least_recently_inserted() {
    let mut c = CssCache::new(2, 1000);
    c.insert(b"a".to_vec(), b"1".to_vec(), 0);
    c.insert(b"b".to_vec(), b"2".to_vec(), 0);
    c.insert(b"c".to_vec(), b"3".to_vec(), 0);
    assert_eq!(c.get(b"a", 0), None);
    assert_eq!(c.get(b"b", 0), Some(b"2".to_vec()));
    assert_eq!(c.get(b"c", 0), Some(b"3".to_vec()));
}

#[test]
fn cache_refresh_moves_entry_to_back() {
    let mut c = CssCache::new(2, 1000);
    c.insert(b"a".to_vec(), b"1".to_vec(), 0);
    c.insert(b"b".to_vec(), b"2".to_vec(), 0);
    c.insert(b"a".to_vec(), b"1x".to_vec(), 1);
    // `b` is now the oldest and gets evicted next.
    c.insert(b"c".to_vec(), b"3".to_vec(), 2);
    assert_eq!(c.get(b"b", 2), None);
    assert_eq!(c.get(b"a", 2), Some(b"1x".to_vec()));
}

fn el(tag: &str, text: &str, attrs: &[(&str, &str)], children: Vec<HtmlNode>) -> HtmlNode {
    HtmlNode {
        tag: tag.as_bytes().to_vec(),
        id: Vec::new(),
        class: Vec::new(),
        text: text.as_bytes().to_vec(),
        attrs: attrs
            .iter()
            .map(|(k, v)| Attribute { name: k.as_bytes().to_vec(), value: v.as_bytes().to_vec() })
            .collect(),
        children,
    }
}

#[test]
fn stylesheets_are_collected_in_document_order() {
    let tree = el(
        "html",
        "",
        &[],
        vec![
            el(
                "head",
                "",
                &[],
                vec![
                    el("style", "body{color:red}", &[], vec![]),
                    el("link", "", &[("rel", "stylesheet"), ("href", "a.css")], vec![]),
                    el("style", "   ", &[], vec![]),
                    el("link", "", &[("rel", "icon"), ("href", "fav.ico")], vec![]),
                    el("link", "", &[("rel", "stylesheet"), ("href", "b.css")], vec![]),
                ],
            ),
        ],
    );
    let d = build_snapshot(&tree);
    let (inline, hrefs) = stylesheet_sources(&d);
    // Blank style blocks are skipped; non-stylesheet links are skipped.
    assert_eq!(inline, vec![b"body{color:red}".to_vec()]);
    assert_eq!(hrefs, vec![b"a.css".to_vec(), b"b.css".to_vec()]);
}

#[test]
fn urls_resolve_against_the_base() {
    let u = resolve_url(b"http://example.com/dir/page.html", b"style.css");
    assert_eq!(u, "http://example.com/dir/style.css");
    let abs = resolve_url(b"http://example.com/", b"https://cdn.example.org/x.css");
    assert_eq!(abs, "https://cdn.example.org/x.css");
    // An unusable base keeps the raw href.
    let raw = resolve_url(b"not a url", b"style.css");
    assert_eq!(raw, "style.css");
}

#[test]
fn snapshot_serializes_to_the_bridge_json() {
    let tree = el("div", "hi", &[("data-x", "1")], vec![el("span", "hi", &[], vec![])]);
    let d = build_snapshot(&tree);
    let json = String::from_utf8(serialize_elements(&d)).unwrap();
    let expected_first = "[{\"tag\":\"div\",\"id\":\"\",\"class\":\"\",\"text\":\"hi\",\"attributes\":[[\"data-x\",\"1\"]],\"parent\":null},";
    let expected_second = "{\"tag\":\"span\",\"id\":\"\",\"class\":\"\",\"text\":\"hi\",\"attributes\":[],\"parent\":0}]";
    assert_eq!(json, format!("{}{}", expected_first, expected_second));
}

#[test]
fn styles_serialize_with_escaping() {
    let sheets = vec![b"a{content:\"x\"}".to_vec(), b"b{}".to_vec()];
    let json = String::from_utf8(serialize_styles(&sheets)).unwrap();
    assert_eq!(json, "[\"a{content:\\\"x\\\"}\",\"b{}\"]");
}
