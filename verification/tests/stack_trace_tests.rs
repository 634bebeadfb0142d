use rfheadless::stack_trace::parse_file_line_col;
use rfheadless::stack_trace::parse_stack_info;

#[test]
fn test_parse_stack_variants() {
    // V8-like
    let v8 = "Error\n    at Object.<anonymous> (/path/to/file.js:10:15)\n    at other";
    let (src, line, col) = parse_stack_info(Some(v8.as_bytes()));
    let src_text = String::from_utf8(src.unwrap_or_default()).unwrap();
    assert!(src_text.contains("/path/to/file.js"));
    assert_eq!(line, Some(10));
    assert_eq!(col, Some(15));

    // Firefox-like
    let ff = "func@http://localhost/script.js:20:5\nanother";
    let (src2, line2, col2) = parse_stack_info(Some(ff.as_bytes()));
    let src2_text = String::from_utf8(src2.unwrap_or_default()).unwrap();
    assert!(src2_text.contains("script.js"));
    assert_eq!(line2, Some(20));
    assert_eq!(col2, Some(5));

    // Minimal
    let minimal = "file.js:30:3";
    let (_s3, l3, c3) = parse_stack_info(Some(minimal.as_bytes()));
    assert_eq!(l3, Some(30));
    assert_eq!(c3, Some(3));
}

#[test]
fn parse_stack_absent_yields_nothing() {
    let (s, l, c) = parse_stack_info(None);
    assert!(s.is_none());
    assert!(l.is_none());
    assert!(c.is_none());
}

#[test]
fn parse_stack_malformed_yields_nothing() {
    let (s, l, c) = parse_stack_info(Some(b"no location here\nstill none".as_slice()));
    assert!(s.is_none());
    assert!(l.is_none());
    assert!(c.is_none());
}

#[test]
fn parse_file_line_col_exact_fields() {
    let r = parse_file_line_col(b"at src/app.js:12:34").unwrap();
    assert_eq!(String::from_utf8(r.0).unwrap(), "src/app.js");
    assert_eq!(r.1, 12);
    assert_eq!(r.2, 34);
    // Column value with trailing parens stripped
    let r2 = parse_file_line_col(b"lib.js:7:9))").unwrap();
    assert_eq!(r2.1, 7);
    assert_eq!(r2.2, 9);
    // Numbers that do not parse give no result
    assert!(parse_file_line_col(b"file.js:abc:3").is_none());
    // An out-of-range line number gives no result
    assert!(parse_file_line_col(b"file.js:99999999999:3").is_none());
}
