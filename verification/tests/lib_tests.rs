//! Round-trip sanity of the document codecs.

use yaml_doc_core::diff::decode_document;
use yaml_doc_core::diff::encode_document;

#[test]
fn parse_roundtrip_simple() {
    let yaml = "\n        title: Test Note\n        content: This is a test note\n        ";

    // The YAML -> JSON -> YAML round trip keeps the data.
    let value: serde_yaml::Value = serde_yaml::from_str(yaml).unwrap();
    let json = serde_json::to_string(&value).unwrap();
    let value2: serde_yaml::Value = serde_json::from_str(&json).unwrap();
    let yaml2 = serde_yaml::to_string(&value2).unwrap();

    let value1_norm: serde_yaml::Value = serde_yaml::from_str(yaml).unwrap();
    let yaml1_norm = serde_yaml::to_string(&value1_norm).unwrap();

    assert_eq!(yaml1_norm, yaml2);
}

#[test]
fn decode_then_encode_round_trips() {
    let tree = decode_document("title: Test Note\ncount: 3\n").unwrap();
    let out = encode_document(&tree).unwrap();
    assert_eq!(out, "title: Test Note\ncount: 3\n");
}

#[test]
fn decode_reports_line_of_failure() {
    let err = decode_document("a: 1\nb: [unclosed\n").unwrap_err();
    assert!(err.line > 0);
    assert!(!err.message.is_empty());
}
