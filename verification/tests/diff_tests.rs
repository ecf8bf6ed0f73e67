//! Tests of the textual diff/patch/conflict entry points.

use yaml_doc_core::diff::apply_patch;
use yaml_doc_core::diff::detect_conflicts;
use yaml_doc_core::diff::yaml_diff;

#[test]
fn test_yaml_diff_basic() {
    let diff = yaml_diff("a: 1", "a: 2");
    assert!(diff.contains("\"op\":\"replace\"") || diff == "[]");
}

#[test]
fn test_apply_patch_basic() {
    let diff = yaml_diff("a: 1", "a: 2");
    let patched = apply_patch("a: 1", &diff);
    assert!(patched.contains("2"));
}

#[test]
fn test_detect_conflicts() {
    let result = detect_conflicts("a: 1", "a: 2");
    println!("detect_conflicts result: {}", result);
    let parsed: serde_json::Value = serde_json::from_str(&result).expect("JSON parse failed");
    assert!(parsed.get("has_conflict").is_some());
}

#[test]
fn diff_equal_documents_is_empty() {
    assert_eq!(yaml_diff("a: 1\nb: [1, 2]", "b: [1, 2]\na: 1"), "[]");
}

#[test]
fn diff_emits_add_and_remove() {
    let diff = yaml_diff("a: 1", "b: 2");
    assert!(diff.contains("\"op\":\"add\""));
    assert!(diff.contains("\"op\":\"remove\""));
    assert!(diff.contains("\"path\":\"/b\""));
    assert!(diff.contains("\"path\":\"/a\""));
}

#[test]
fn diff_escapes_pointer_segments() {
    let diff = yaml_diff("a/b: 1", "a/b: 2");
    assert!(diff.contains("\"path\":\"/a~1b\""));
}

#[test]
fn diff_value_is_numeric() {
    let diff = yaml_diff("a: 1", "a: 2");
    assert!(diff.contains("\"value\":2"));
}

#[test]
fn apply_patch_round_trips_the_diff() {
    let base = "a: 1\nitems:\n- 1\n- 2\nnested:\n  x: true\n";
    let edited = "a: 2\nitems:\n- 1\n- 2\n- 3\nnested:\n  x: false\n  y: z\n";
    let patch = yaml_diff(base, edited);
    let patched = apply_patch(base, &patch);
    let got: serde_yaml::Value = serde_yaml::from_str(&patched).unwrap();
    let want: serde_yaml::Value = serde_yaml::from_str(edited).unwrap();
    assert_eq!(got, want);
}

#[test]
fn fail_soft_diff_on_malformed_base() {
    assert_eq!(yaml_diff("not: [valid", "a: 1"), "[]");
}

#[test]
fn fail_soft_apply_on_malformed_patch() {
    assert_eq!(apply_patch("a: 1", "not json"), "a: 1");
}

#[test]
fn fail_soft_apply_on_failing_operation() {
    // Removing a key that does not exist aborts the patch; the original
    // text comes back unchanged.
    let patch = "[{\"op\":\"remove\",\"path\":\"/missing\"}]";
    assert_eq!(apply_patch("a: 1", patch), "a: 1");
}

#[test]
fn conflict_on_replacement() {
    let result = detect_conflicts("a: 1", "a: 2");
    let parsed: serde_json::Value = serde_json::from_str(&result).unwrap();
    assert_eq!(parsed["has_conflict"], serde_json::Value::Bool(true));
    let conflicts = parsed["conflicts"].as_array().unwrap();
    assert_eq!(conflicts.len(), 1);
    assert_eq!(conflicts[0]["path"], serde_json::Value::String("/a".to_string()));
    assert_eq!(conflicts[0]["value"], serde_json::Value::from(2));
}

#[test]
fn no_conflict_on_equal_documents() {
    let result = detect_conflicts("a: 1", "a: 1");
    let parsed: serde_json::Value = serde_json::from_str(&result).unwrap();
    assert_eq!(parsed["has_conflict"], serde_json::Value::Bool(false));
    assert_eq!(parsed["conflicts"].as_array().unwrap().len(), 0);
}

#[test]
fn no_conflict_on_malformed_input() {
    let result = detect_conflicts("not: [valid", "a: 2");
    assert!(result.contains("\"has_conflict\": false"));
}
