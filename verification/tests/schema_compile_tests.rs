//! Tests of schema compilation checks.

use yaml_doc_core::schema_compile::compile_schema;

#[test]
fn test_valid_schema() {
    let schema = "\ntype: object\nproperties:\n  title:\n    type: string\n  content:\n    type: string\nrequired:\n  - title\n";

    let result = compile_schema(schema);
    let parsed: serde_json::Value = serde_json::from_str(&result).unwrap();
    assert_eq!(parsed["success"], serde_json::Value::Bool(true));
}

#[test]
fn test_invalid_yaml_syntax() {
    // Actually invalid YAML syntax with mismatched brackets.
    let schema = "\ntype: object\nproperties:\n  title: {\n    type: string\n  \n  content:\n    type: string\nrequired:\n  - title\n";

    let result = compile_schema(schema);
    let parsed: serde_json::Value = serde_json::from_str(&result).unwrap();
    assert_eq!(parsed["success"], serde_json::Value::Bool(false));
    assert!(parsed["errors"][0]["message"].as_str().unwrap().contains("\u{30b9}\u{30ad}\u{30fc}\u{30de}\u{69cb}\u{6587}\u{30a8}\u{30e9}\u{30fc}"));
}

#[test]
fn test_missing_type() {
    let schema = "\nproperties:\n  title:\n    type: string\n  content:\n    type: string\n";

    let result = compile_schema(schema);
    let parsed: serde_json::Value = serde_json::from_str(&result).unwrap();
    assert_eq!(parsed["success"], serde_json::Value::Bool(false));
    assert!(parsed["errors"][0]["message"].as_str().unwrap().contains("type"));
}

#[test]
fn test_invalid_type() {
    let schema = "\ntype: invalid_type\nproperties:\n  title:\n    type: string\n";

    let result = compile_schema(schema);
    let parsed: serde_json::Value = serde_json::from_str(&result).unwrap();
    assert_eq!(parsed["success"], serde_json::Value::Bool(false));
    assert!(parsed["errors"][0]["message"].as_str().unwrap().contains("\u{6709}\u{52b9}\u{306a}type"));
}

#[test]
fn test_missing_properties() {
    let schema = "\n            type: object\n            required:\n              - title\n        ";

    let result = compile_schema(schema);
    let parsed: serde_json::Value = serde_json::from_str(&result).unwrap();
    assert_eq!(parsed["success"], serde_json::Value::Bool(false));
    assert!(parsed["errors"][0]["message"].as_str().unwrap().contains("properties"));
}

#[test]
fn test_invalid_required() {
    let schema = "\ntype: object\nproperties:\n  title:\n    type: string\nrequired:\n  - non_existent_property\n";

    let result = compile_schema(schema);
    let parsed: serde_json::Value = serde_json::from_str(&result).unwrap();
    assert_eq!(parsed["success"], serde_json::Value::Bool(false));
    assert!(parsed["errors"][0]["message"].as_str().unwrap().contains("non_existent_property"));
}
