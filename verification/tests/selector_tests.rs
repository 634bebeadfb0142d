use rfheadless::dom::Attribute;
use rfheadless::dom::HtmlNode;
use rfheadless::dom::build_snapshot;
use rfheadless::selector::element_matches;
use rfheadless::selector::parse_selector;
use rfheadless::selector::query;
use rfheadless::selector::query_all;

fn el(tag: &str, id: &str, class: &str, text: &str, attrs: &[(&str, &str)], children: Vec<HtmlNode>) -> HtmlNode {
    HtmlNode {
        tag: tag.as_bytes().to_vec(),
        id: id.as_bytes().to_vec(),
        class: class.as_bytes().to_vec(),
        text: text.as_bytes().to_vec(),
        attrs: attrs
            .iter()
            .map(|(k, v)| Attribute { name: k.as_bytes().to_vec(), value: v.as_bytes().to_vec() })
            .collect(),
        children,
    }
}

#[test]
fn descendant_matches_grandchild_but_child_does_not() {
    // <div id=outer><div class=mid><span data-test=x>X</span></div></div>
    let tree = el(
        "div",
        "outer",
        "",
        "X",
        &[("id", "outer")],
        vec![
            el(
                "div",
                "",
                "mid",
                "X",
                &[("class", "mid")],
                vec![el("span", "", "", "X", &[("data-test", "x")], vec![])],
            ),
        ],
    );
    let d = build_snapshot(&tree);
    let descendant = parse_selector(b"div span").unwrap();
    assert_eq!(query(&d, &descendant), Some(2));
    let child = parse_selector(b"div#outer > span").unwrap();
    assert_eq!(query(&d, &child), None);
    let mid_child = parse_selector(b"div#outer > div.mid > span").unwrap();
    assert_eq!(query(&d, &mid_child), Some(2));
}

#[test]
fn attribute_operators_match_as_specified() {
    let tree = el(
        "div",
        "",
        "",
        "",
        &[],
        vec![
            el("p", "", "", "", &[("data-a", "one two")], vec![]),
            el("p", "", "", "", &[("data-a", "pre-suf")], vec![]),
            el("p", "", "", "", &[("data-a", "pre")], vec![]),
        ],
    );
    let d = build_snapshot(&tree);
    // [data-a~="two"] matches the space-separated list "one two"
    let includes = parse_selector(b"[data-a~=\"two\"]").unwrap();
    assert_eq!(query_all(&d, &includes), vec![1]);
    // [data-a^="pre"] matches "pre-suf" and "pre"
    let prefix = parse_selector(b"[data-a^=\"pre\"]").unwrap();
    assert_eq!(query_all(&d, &prefix), vec![2, 3]);
    // [data-a$="two"] matches values ending in "two"
    let suffix = parse_selector(b"[data-a$=\"two\"]").unwrap();
    assert_eq!(query_all(&d, &suffix), vec![1]);
    // [data-a|="pre"] matches "pre" and "pre-suf"
    let dash = parse_selector(b"[data-a|=\"pre\"]").unwrap();
    assert_eq!(query_all(&d, &dash), vec![2, 3]);
    // [data-a=pre] matches exactly "pre"
    let exact = parse_selector(b"[data-a=pre]").unwrap();
    assert_eq!(query_all(&d, &exact), vec![3]);
    // [data-a] matches every element carrying the attribute
    let exists = parse_selector(b"[data-a]").unwrap();
    assert_eq!(query_all(&d, &exists), vec![1, 2, 3]);
}

#[test]
fn query_all_returns_document_order() {
    let tree = el(
        "div",
        "",
        "",
        "",
        &[],
        vec![
            el("p", "", "", "a", &[], vec![el("span", "", "", "a", &[], vec![])]),
            el("p", "", "", "b", &[], vec![]),
            el("div", "", "", "", &[], vec![el("p", "", "", "c", &[], vec![])]),
        ],
    );
    let d = build_snapshot(&tree);
    let sel = parse_selector(b"p").unwrap();
    let hits = query_all(&d, &sel);
    assert_eq!(hits, vec![1, 3, 5]);
    // Strictly increasing, a subset of the traversal
    for w in hits.windows(2) {
        assert!(w[0] < w[1]);
    }
}

#[test]
fn pseudo_classes_use_sibling_order() {
    let tree = el(
        "p",
        "p1",
        "",
        "",
        &[("id", "p1")],
        vec![
            el("span", "", "", "first", &[], vec![]),
            el("span", "", "", "middle", &[], vec![]),
            el("span", "", "", "last", &[], vec![]),
        ],
    );
    let d = build_snapshot(&tree);
    let first = parse_selector(b"#p1 span:first-child").unwrap();
    assert_eq!(query(&d, &first), Some(1));
    let last = parse_selector(b"#p1 span:last-child").unwrap();
    assert_eq!(query(&d, &last), Some(3));
}

#[test]
fn class_and_tag_and_star_selectors() {
    let tree = el(
        "div",
        "",
        "a b",
        "",
        &[("class", "a b")],
        vec![el("span", "", "b", "", &[("class", "b")], vec![])],
    );
    let d = build_snapshot(&tree);
    let cls = parse_selector(b".b").unwrap();
    assert_eq!(query_all(&d, &cls), vec![0, 1]);
    let both = parse_selector(b"div.a").unwrap();
    assert_eq!(query_all(&d, &both), vec![0]);
    let star = parse_selector(b"*").unwrap();
    assert_eq!(query_all(&d, &star), vec![0, 1]);
    // An element with no parent never matches a child combinator's right side
    let child = parse_selector(b"span > div").unwrap();
    assert_eq!(query_all(&d, &child), Vec::<usize>::new());
}

#[test]
fn unparsable_selectors_yield_none() {
    assert!(parse_selector(b"").is_none());
    assert!(parse_selector(b"   ").is_none());
    assert!(parse_selector(b"div >").is_none());
    assert!(parse_selector(b"> div").is_none());
    assert!(parse_selector(b"div[unclosed").is_none());
    assert!(parse_selector(b"div:hover").is_none());
    assert!(parse_selector(b"#").is_none());
}

#[test]
fn matches_checks_one_element() {
    let tree = el("div", "x", "", "", &[("id", "x")], vec![]);
    let d = build_snapshot(&tree);
    let sel = parse_selector(b"#x").unwrap();
    assert!(element_matches(&d, 0, &sel));
    let other = parse_selector(b"#y").unwrap();
    assert!(!element_matches(&d, 0, &other));
}
