//! Tests of front matter extraction and checking.

use yaml_doc_core::error::CoreError;
use yaml_doc_core::frontmatter::default_validated;
use yaml_doc_core::frontmatter::parse_frontmatter;
use yaml_doc_core::frontmatter::validate_frontmatter;
use yaml_doc_core::frontmatter::Frontmatter;

#[test]
fn test_parse_valid_frontmatter() {
    let md = "---\nschema_path: ./schemas/note.yaml\nvalidated: true\n---\n# Test Document";

    let result = parse_frontmatter(md);
    assert!(result.is_ok());

    let fm = result.unwrap();
    assert_eq!(fm.schema_path, Some("./schemas/note.yaml".to_string()));
    assert_eq!(fm.validated, true);
}

#[test]
fn test_parse_missing_frontmatter() {
    let md = "# Test Document\nNo frontmatter here";
    let result = parse_frontmatter(md);
    assert!(result.is_err());
    match result {
        Err(CoreError::FrontmatterParseError(_)) => assert!(true),
        _ => panic!("Expected FrontmatterParseError"),
    }
}

#[test]
fn test_validate_frontmatter_empty_schema_path() {
    let frontmatter = Frontmatter {
        schema_path: Some("".to_string()),
        validated: true,
        raw: "".to_string(),
    };

    let result = validate_frontmatter(&frontmatter);
    assert!(!result.success);
    assert!(!result.errors.is_empty());
}

#[test]
fn test_default_validated() {
    let md = "---\nschema_path: ./schemas/note.yaml\n---\n# Test Document";

    let result = parse_frontmatter(md);
    assert!(result.is_ok());

    let fm = result.unwrap();
    assert_eq!(fm.validated, true);
    assert!(default_validated());
}

#[test]
fn parse_and_validate_reports_parse_failure() {
    let out = yaml_doc_core::frontmatter::parse_and_validate_frontmatter("no frontmatter");
    assert!(out.contains("\"success\":false"));
    assert!(out.contains("Frontmatter parse error: "));
}

#[test]
fn parse_and_validate_accepts_good_frontmatter() {
    let md = "---\nschema_path: ./schemas/note.yaml\n---\n# Doc";
    let out = yaml_doc_core::frontmatter::parse_and_validate_frontmatter(md);
    assert!(out.contains("\"success\":true"));
}
