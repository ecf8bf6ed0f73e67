//! Tests of the heading-to-document transform.

use yaml_doc_core::diff::encode_document;
use yaml_doc_core::md_transform::md_headings_to_yaml;
use yaml_doc_core::md_transform::remove_frontmatter;
use yaml_doc_core::tree::Tree;

#[test]
fn test_md_headings_to_yaml() {
    let md = "# Main Title\n## Section 1\nSome content\n## Section 2\nMore content\n### Subsection 2.1\nNested content";

    println!("ORIGINAL MARKDOWN:\n{}", md);

    let yaml = md_headings_to_yaml(md);

    println!("ACTUAL YAML OUTPUT (test_md_headings_to_yaml):\n{}", yaml);

    assert!(yaml.contains("title: Main Title"));
    assert!(yaml.contains("sections:"));

    assert!(yaml.contains("title: Section 1"));
    assert!(yaml.contains("title: Section 2"));
    assert!(yaml.contains("title: Subsection 2.1"));

    assert!(yaml.contains("content: Some content"));
    assert!(yaml.contains("content: More content"));
    assert!(yaml.contains("content: Nested content"));
}

#[test]
fn test_md_headings_to_yaml_no_sections() {
    let md = "# Only Title";
    let yaml = md_headings_to_yaml(md);

    println!(
        "ACTUAL YAML OUTPUT (test_md_headings_to_yaml_no_sections):\n{}",
        yaml
    );

    assert!(yaml.contains("title: Only Title"));
    assert!(yaml.contains("sections:"));
    assert!(yaml.contains("sections: []"));
}

#[test]
fn test_remove_frontmatter() {
    let md_with_frontmatter = "---\nschema_path: ./schemas/note.yaml\nvalidated: true\n---\n# Test Document\n## Section 1\nContent\n";

    let result = remove_frontmatter(md_with_frontmatter);

    assert!(!result.contains("schema_path:"));
    assert!(!result.contains("validated:"));

    assert!(result.contains("# Test Document"));
    assert!(result.contains("## Section 1"));
    assert!(result.contains("Content"));
}

#[test]
fn test_md_headings_to_yaml_with_frontmatter() {
    let md_with_frontmatter = "---\nschema_path: ./schemas/note.yaml\nvalidated: true\n---\n# Test Document\n## Section 1\nContent\n";

    let yaml = md_headings_to_yaml(md_with_frontmatter);

    assert!(!yaml.contains("schema_path:"));
    assert!(!yaml.contains("validated:"));

    assert!(yaml.contains("title: Test Document"));
    assert!(yaml.contains("sections:"));
    assert!(yaml.contains("title: Section 1"));
    assert!(yaml.contains("content: Content"));
}

fn doc(title: &str, content: &str, sections: Vec<Tree>) -> Tree {
    Tree::Mapping(vec![
        ("title".to_string(), Tree::Text(title.to_string())),
        ("content".to_string(), Tree::Text(content.to_string())),
        ("sections".to_string(), Tree::Sequence(sections)),
    ])
}

#[test]
fn hierarchical_conversion() {
    let md = "---\n    schema_path: ./schema.yaml\n    validated: true\n    ---\n    # Sample Note with Deep Nesting\n\n    This is the main document content.\n\n    ## Introduction\n    This is a sample note.\n\n    ## Features\n    Shows appropriate error messages\n\n    ### Advanced Features\n    These are advanced features.\n\n    #### Sub-feature 1\n    This is a sub-feature.\n\n    ##### Detail Point 1\n    Very detailed explanation.\n\n    ##### Detail Point 2\n    Another detailed explanation.\n\n    #### Sub-feature 2\n    Another sub-feature.\n\n    ### Basic Features\n    These are basic features.\n\n    ## Conclusion\n    The relative schema path feature makes the note more portable.\n\n    ### Final Thoughts\n    Some final thoughts.\n    ";

    println!("ORIGINAL MARKDOWN (Cleaned):\n{}", remove_frontmatter(md));

    let expected_doc = doc(
        "Sample Note with Deep Nesting",
        "This is the main document content.",
        vec![
            doc("Introduction", "This is a sample note.", vec![]),
            doc(
                "Features",
                "Shows appropriate error messages",
                vec![
                    doc(
                        "Advanced Features",
                        "These are advanced features.",
                        vec![
                            doc(
                                "Sub-feature 1",
                                "This is a sub-feature.",
                                vec![
                                    doc("Detail Point 1", "Very detailed explanation.", vec![]),
                                    doc(
                                        "Detail Point 2",
                                        "Another detailed explanation.",
                                        vec![],
                                    ),
                                ],
                            ),
                            doc("Sub-feature 2", "Another sub-feature.", vec![]),
                        ],
                    ),
                    doc("Basic Features", "These are basic features.", vec![]),
                ],
            ),
            doc(
                "Conclusion",
                "The relative schema path feature makes the note more portable.",
                vec![doc("Final Thoughts", "Some final thoughts.", vec![])],
            ),
        ],
    );

    let expected_yaml = encode_document(&expected_doc).unwrap();
    let expected = serde_yaml::from_str::<serde_yaml::Value>(&expected_yaml).unwrap();

    let actual_yaml = md_headings_to_yaml(md);
    println!("ACTUAL YAML OUTPUT:\n{}", actual_yaml);
    let actual = serde_yaml::from_str::<serde_yaml::Value>(&actual_yaml).unwrap();

    assert_eq!(actual, expected);
}
