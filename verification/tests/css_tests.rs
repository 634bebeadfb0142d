use rfheadless::css::resolve_computed_style;
use rfheadless::dom::Attribute;
use rfheadless::dom::HtmlNode;
use rfheadless::dom::build_snapshot;

fn leaf(tag: &str, id: &str, class: &str) -> HtmlNode {
    let mut attrs = Vec::new();
    if !id.is_empty() {
        attrs.push(Attribute { name: b"id".to_vec(), value: id.as_bytes().to_vec() });
    }
    if !class.is_empty() {
        attrs.push(Attribute { name: b"class".to_vec(), value: class.as_bytes().to_vec() });
    }
    HtmlNode {
        tag: tag.as_bytes().to_vec(),
        id: id.as_bytes().to_vec(),
        class: class.as_bytes().to_vec(),
        text: Vec::new(),
        attrs,
        children: Vec::new(),
    }
}

fn sheets(texts: &[&str]) -> Vec<Vec<u8>> {
    texts.iter().map(|t| t.as_bytes().to_vec()).collect()
}

#[test]
fn id_specificity_beats_class() {
    let d = build_snapshot(&leaf("div", "hello", "greeting"));
    let styles = sheets(&["#hello{color:red}", ".greeting{color:green}"]);
    let v = resolve_computed_style(&d, 0, &styles, b"color");
    assert_eq!(String::from_utf8(v).unwrap(), "#ff0000");
}

#[test]
fn later_rule_wins_equal_specificity() {
    let d = build_snapshot(&leaf("div", "", "a"));
    let styles = sheets(&[".a{color:red}", ".a{color:blue}"]);
    let v = resolve_computed_style(&d, 0, &styles, b"color");
    assert_eq!(String::from_utf8(v).unwrap(), "#0000ff");
}

#[test]
fn later_declaration_wins_within_block() {
    let d = build_snapshot(&leaf("div", "", "a"));
    let styles = sheets(&[".a{color:red;color:green}"]);
    let v = resolve_computed_style(&d, 0, &styles, b"color");
    assert_eq!(String::from_utf8(v).unwrap(), "#008000");
}

#[test]
fn undeclared_property_is_empty() {
    let d = build_snapshot(&leaf("div", "", ""));
    let styles = sheets(&["p{color:red}"]);
    let v = resolve_computed_style(&d, 0, &styles, b"color");
    assert!(v.is_empty());
}

#[test]
fn colors_are_normalized() {
    let d = build_snapshot(&leaf("div", "", "a"));
    // A short hex form is expanded
    let styles = sheets(&[".a{color:#A1c}"]);
    let v = resolve_computed_style(&d, 0, &styles, b"color");
    assert_eq!(String::from_utf8(v).unwrap(), "#aa11cc");
    // A full hex form is lowercased
    let styles2 = sheets(&[".a{color:#ABCDEF}"]);
    let v2 = resolve_computed_style(&d, 0, &styles2, b"color");
    assert_eq!(String::from_utf8(v2).unwrap(), "#abcdef");
    // An unrecognized value passes through
    let styles3 = sheets(&[".a{color:inherit}"]);
    let v3 = resolve_computed_style(&d, 0, &styles3, b"color");
    assert_eq!(String::from_utf8(v3).unwrap(), "inherit");
}

#[test]
fn tag_selector_and_other_properties() {
    let d = build_snapshot(&leaf("h1", "", ""));
    let styles = sheets(&["h1{font-size:2em;color:black}"]);
    let v = resolve_computed_style(&d, 0, &styles, b"font-size");
    assert_eq!(String::from_utf8(v).unwrap(), "2em");
    let c = resolve_computed_style(&d, 0, &styles, b"color");
    assert_eq!(String::from_utf8(c).unwrap(), "#000000");
}

#[test]
fn malformed_blocks_are_skipped() {
    let d = build_snapshot(&leaf("div", "", "a"));
    let styles = sheets(&["garbage without braces", ".a{color:red}"]);
    let v = resolve_computed_style(&d, 0, &styles, b"color");
    // The malformed sheet contributes nothing; the good sheet still applies.
    assert_eq!(String::from_utf8(v).unwrap(), "#ff0000");
}
