//! Tests of document validation against a schema.

use yaml_doc_core::validate::find_line_for_path;
use yaml_doc_core::validate::validate_yaml;

#[test]
fn validate_ok() {
    let schema = "\ntype: object\nproperties:\n  title:\n    type: string\n  content:\n    type: string\nrequired:\n  - title\n";

    let valid_yaml = "\ntitle: Test Note\ncontent: This is a test content\n";

    let result = validate_yaml(valid_yaml, schema);
    assert!(result.contains("\"success\":true"));
}

#[test]
fn validate_error() {
    let schema = "\ntype: object\nproperties:\n  title:\n    type: string\n  content:\n    type: string\nrequired:\n  - title\n";

    let invalid_yaml = "\ncontent: Missing title field\n";

    let result = validate_yaml(invalid_yaml, schema);
    assert!(result.contains("\"success\":false"));
    assert!(result.contains("\"message\":"));
}

#[test]
fn validate_reports_parse_failure() {
    let result = validate_yaml("not: [valid", "type: object\nproperties: {}");
    assert!(result.contains("\"success\":false"));
    assert!(result.contains("\"code\":\"YamlParse\""));
}

#[test]
fn find_line_points_at_key() {
    let yaml = "title: x\ncontent: y\n";
    assert_eq!(find_line_for_path(yaml, "/content".to_string()), 2);
    assert_eq!(find_line_for_path(yaml, "/missing_key".to_string()), 0);
}

#[test]
fn validate_refuses_reference_schemas() {
    // A self-referential schema would never return from the validator;
    // the pair is refused up front instead.
    let result = validate_yaml("a: 1", "\"$ref\": \"#\"");
    assert!(result.contains("\"success\":false"));
    assert!(result.contains("unsupported schema for validation"));
}

#[test]
fn validate_refuses_integral_multiple_of_on_fractional_document() {
    // The wrapped validator would panic reading 1.5 as an unsigned
    // integer; the pair is refused up front instead.
    let result = validate_yaml("1.5", "multipleOf: 2");
    assert!(result.contains("\"success\":false"));
    assert!(result.contains("unsupported schema for validation"));
}

#[test]
fn validate_refuses_negative_count_bound() {
    // The wrapped validator would panic reading -1 as an unsigned
    // integer; the schema is refused up front instead.
    let result = validate_yaml("- 1", "minItems: -1");
    assert!(result.contains("\"success\":false"));
    assert!(result.contains("unsupported schema for validation"));
}

#[test]
fn validate_runs_integral_multiple_of_on_integral_document() {
    let bad = validate_yaml("4", "multipleOf: 3");
    assert!(bad.contains("\"success\":false"));
    assert!(bad.contains("multipleOf"));
    let good = validate_yaml("6", "multipleOf: 3");
    assert!(good.contains("\"success\":true"));
}

#[test]
fn validate_runs_fractional_multiple_of() {
    let good = validate_yaml("1.5", "multipleOf: 0.5");
    assert!(good.contains("\"success\":true"));
}

#[test]
fn validate_runs_count_bounds() {
    let bad = validate_yaml("- 1", "minItems: 2");
    assert!(bad.contains("\"success\":false"));
    let good = validate_yaml("- 1\n- 2", "minItems: 2");
    assert!(good.contains("\"success\":true"));
}
