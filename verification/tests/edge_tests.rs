//! Edge cases of the boundaries: pointer escaping, out-of-range indices,
//! unusual front matter blocks, and documents the decoder refuses.

use yaml_doc_core::diff::apply_patch;
use yaml_doc_core::diff::yaml_diff;
use yaml_doc_core::frontmatter::parse_frontmatter;
use yaml_doc_core::path::Token;
use yaml_doc_core::pointer::parse_pointer;
use yaml_doc_core::pointer::pointer_string;

#[test]
fn pointer_parses_escapes_and_markers() {
    let p = parse_pointer("/a~0b/~1/-/0").unwrap();
    assert_eq!(p.len(), 4);
    assert!(matches!(&p[0], Token::Key(s) if s == "a~b"));
    assert!(matches!(&p[1], Token::Key(s) if s == "/"));
    assert!(matches!(&p[2], Token::Append));
    assert!(matches!(&p[3], Token::Index(0)));
}

#[test]
fn pointer_rejects_bad_escape_and_missing_slash() {
    assert!(parse_pointer("/a~2b").is_none());
    assert!(parse_pointer("a/b").is_none());
}

#[test]
fn pointer_renders_back_with_escapes() {
    let p = vec![
        Token::Key("a~b".to_string()),
        Token::Key("/".to_string()),
        Token::Append,
        Token::Index(0),
    ];
    assert_eq!(pointer_string(&p), "/a~0b/~1/-/0");
}

#[test]
fn empty_pointer_is_the_root_path() {
    assert_eq!(parse_pointer("").unwrap().len(), 0);
}

#[test]
fn huge_index_segment_fails_soft() {
    let patch = "[{\"op\":\"remove\",\"path\":\"/a/99999999999999999999999999\"}]";
    assert_eq!(apply_patch("a: [1, 2]", patch), "a: [1, 2]");
}

#[test]
fn non_string_mapping_key_is_refused() {
    // A numeric mapping key cannot be represented; diffing falls soft to
    // the empty patch.
    assert_eq!(yaml_diff("1: a", "1: b"), "[]");
}

#[test]
fn frontmatter_with_empty_block_is_an_error() {
    // The block between the markers is empty, which decodes to null, not
    // to a mapping of fields.
    assert!(parse_frontmatter("---\n---\n# X").is_err());
}

#[test]
fn frontmatter_with_null_schema_path() {
    let fm = parse_frontmatter("---\nschema_path: null\n---\n# X").unwrap();
    assert_eq!(fm.schema_path, None);
    assert_eq!(fm.validated, true);
}

#[test]
fn frontmatter_with_wrong_field_type_is_an_error() {
    assert!(parse_frontmatter("---\nvalidated: 3\n---\n# X").is_err());
    assert!(parse_frontmatter("---\nschema_path: [1]\n---\n# X").is_err());
}

#[test]
fn replace_at_root_path_swaps_the_document() {
    let patch = "[{\"op\":\"replace\",\"path\":\"\",\"value\":{\"b\":2}}]";
    let out = apply_patch("a: 1", patch);
    assert!(out.contains("b: 2"));
    assert!(!out.contains("a: 1"));
}

#[test]
fn trim_removes_unicode_whitespace() {
    // A schema_path of Unicode whitespace counts as blank, as the
    // original's trimming did.
    let fm = yaml_doc_core::frontmatter::Frontmatter {
        schema_path: Some("\u{a0}\u{2003}".to_string()),
        validated: true,
        raw: "".to_string(),
    };
    let result = yaml_doc_core::frontmatter::validate_frontmatter(&fm);
    assert!(!result.success);
}

#[test]
fn frontmatter_marker_with_unicode_whitespace() {
    // A fence line padded with a no-break space still counts as a marker.
    let md = "---\u{a0}\nschema_path: ./s.yaml\n---\n# X";
    let fm = yaml_doc_core::frontmatter::parse_frontmatter(md).unwrap();
    assert_eq!(fm.schema_path, Some("./s.yaml".to_string()));
}
