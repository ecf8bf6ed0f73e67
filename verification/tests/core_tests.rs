//! Tests of the tree-level core: the resolver's addressing rules, the
//! patch applier's atomicity, and the diff engine's round trips.

use yaml_doc_core::diff::conflicts_between;
use yaml_doc_core::diff_engine::diff;
use yaml_doc_core::patch::apply;
use yaml_doc_core::patch::Op;
use yaml_doc_core::path::PathError;
use yaml_doc_core::path::Token;
use yaml_doc_core::resolver::delete;
use yaml_doc_core::resolver::insert;
use yaml_doc_core::resolver::resolve;
use yaml_doc_core::tree::Tree;

fn key(s: &str) -> Token {
    Token::Key(s.to_string())
}

fn text(s: &str) -> Tree {
    Tree::Text(s.to_string())
}

fn num(s: &str) -> Tree {
    Tree::Number(s.to_string())
}

fn mapping(entries: Vec<(&str, Tree)>) -> Tree {
    Tree::Mapping(entries.into_iter().map(|(k, v)| (k.to_string(), v)).collect())
}

#[test]
fn auto_vivification_creates_intermediate_mappings() {
    let empty = mapping(vec![]);
    let ops = vec![Op::Add(vec![key("a"), key("b"), key("c")], num("1"))];
    let got = apply(&empty, &ops).unwrap();
    let want = mapping(vec![("a", mapping(vec![("b", mapping(vec![("c", num("1"))]))]))]);
    assert!(got.deep_eq(&want));
}

#[test]
fn append_marker_appends() {
    let base = mapping(vec![("items", Tree::Sequence(vec![num("1"), num("2")]))]);
    let ops = vec![Op::Add(vec![key("items"), Token::Append], text("X"))];
    let got = apply(&base, &ops).unwrap();
    let want = mapping(vec![("items", Tree::Sequence(vec![num("1"), num("2"), text("X")]))]);
    assert!(got.deep_eq(&want));
}

#[test]
fn append_marker_only_as_final_token() {
    let base = mapping(vec![("items", Tree::Sequence(vec![num("1")]))]);
    let ops = vec![Op::Add(vec![key("items"), Token::Append, key("x")], num("2"))];
    let err = apply(&base, &ops).unwrap_err();
    assert_eq!(err.index, 0);
    assert_eq!(err.error, PathError::InvalidPath);
}

#[test]
fn descending_removal_order_is_correct() {
    let base = Tree::Sequence(vec![num("0"), num("1"), num("2"), num("3")]);
    let ops = vec![
        Op::Remove(vec![Token::Index(2)]),
        Op::Remove(vec![Token::Index(1)]),
    ];
    let got = apply(&base, &ops).unwrap();
    let want = Tree::Sequence(vec![num("0"), num("3")]);
    assert!(got.deep_eq(&want));
}

#[test]
fn ascending_removal_order_is_incorrect() {
    // Applying the same literal indices in ascending order, without
    // re-basing, removes the wrong trailing element.
    let base = Tree::Sequence(vec![num("0"), num("1"), num("2"), num("3")]);
    let ops = vec![
        Op::Remove(vec![Token::Index(1)]),
        Op::Remove(vec![Token::Index(2)]),
    ];
    let got = apply(&base, &ops).unwrap();
    let right = Tree::Sequence(vec![num("0"), num("3")]);
    let wrong = Tree::Sequence(vec![num("0"), num("2")]);
    assert!(!got.deep_eq(&right));
    assert!(got.deep_eq(&wrong));
}

#[test]
fn type_mismatch_on_descending_into_scalar() {
    let base = mapping(vec![("a", text("scalar"))]);
    let path = vec![key("a"), Token::Index(0)];
    let err = resolve(&base, &path).unwrap_err();
    assert_eq!(err, PathError::TypeMismatch);
}

#[test]
fn remove_missing_key_is_path_not_found() {
    let base = mapping(vec![("a", num("1"))]);
    let err = delete(&base, &vec![key("b")]).unwrap_err();
    assert_eq!(err, PathError::PathNotFound);
}

#[test]
fn out_of_range_index_is_index_out_of_bounds() {
    let base = Tree::Sequence(vec![num("1")]);
    let err = yaml_doc_core::resolver::set(&base, &vec![Token::Index(5)], num("2")).unwrap_err();
    assert_eq!(err, PathError::IndexOutOfBounds);
}

#[test]
fn root_cannot_be_removed() {
    let base = mapping(vec![("a", num("1"))]);
    let err = delete(&base, &vec![]).unwrap_err();
    assert_eq!(err, PathError::InvalidPath);
}

#[test]
fn insert_shifts_elements_right() {
    let base = Tree::Sequence(vec![num("1"), num("3")]);
    let got = insert(&base, &vec![Token::Index(1)], num("2")).unwrap();
    let want = Tree::Sequence(vec![num("1"), num("2"), num("3")]);
    assert!(got.deep_eq(&want));
}

#[test]
fn failed_patch_reports_first_failure_and_keeps_tree() {
    let base = mapping(vec![("a", num("1"))]);
    let snapshot = base.deep_copy();
    let ops = vec![
        Op::Replace(vec![key("a")], num("2")),
        Op::Remove(vec![key("missing")]),
        Op::Replace(vec![key("a")], num("3")),
    ];
    let err = apply(&base, &ops).unwrap_err();
    assert_eq!(err.index, 1);
    assert_eq!(err.error, PathError::PathNotFound);
    // The caller's tree is untouched: no partial edit is observable.
    assert!(base.deep_eq(&snapshot));
}

#[test]
fn diff_of_equal_trees_is_empty() {
    let t = mapping(vec![("a", num("1")), ("b", Tree::Sequence(vec![text("x")]))]);
    assert_eq!(diff(&t, &t).len(), 0);
}

#[test]
fn diff_then_apply_reaches_the_target() {
    let a = mapping(vec![
        ("keep", num("1")),
        ("change", text("old")),
        ("drop", Tree::Bool(true)),
        ("list", Tree::Sequence(vec![num("1"), num("2"), num("3")])),
    ]);
    let b = mapping(vec![
        ("keep", num("1")),
        ("change", text("new")),
        ("list", Tree::Sequence(vec![num("1"), num("9")])),
        ("fresh", Tree::Null),
    ]);
    let ops = diff(&a, &b);
    let got = apply(&a, &ops).unwrap();
    assert!(got.deep_eq(&b));
}

#[test]
fn diff_then_apply_across_kinds() {
    let a = mapping(vec![("x", Tree::Sequence(vec![num("1")]))]);
    let b = mapping(vec![("x", mapping(vec![("y", num("2"))]))]);
    let ops = diff(&a, &b);
    let got = apply(&a, &ops).unwrap();
    assert!(got.deep_eq(&b));
}

#[test]
fn conflicts_between_lists_replacements() {
    let a = mapping(vec![("a", num("1")), ("b", num("2"))]);
    let b = mapping(vec![("a", num("9")), ("b", num("2"))]);
    let cs = conflicts_between(&a, &b);
    assert_eq!(cs.len(), 1);
    assert_eq!(cs[0].0, "/a");
    assert!(cs[0].1.deep_eq(&num("9")));
}

#[test]
fn deep_eq_ignores_mapping_order() {
    let a = mapping(vec![("x", num("1")), ("y", num("2"))]);
    let b = mapping(vec![("y", num("2")), ("x", num("1"))]);
    assert!(a.deep_eq(&b));
    let c = mapping(vec![("y", num("2")), ("x", num("3"))]);
    assert!(!a.deep_eq(&c));
}

#[test]
fn three_way_conflict_on_divergent_replacements() {
    let base = mapping(vec![("a", num("1")), ("b", num("5"))]);
    let left = mapping(vec![("a", num("2")), ("b", num("5"))]);
    let right = mapping(vec![("a", num("3")), ("b", num("6"))]);
    let cs = yaml_doc_core::diff::detect_conflicts_three_way(&base, &left, &right);
    assert_eq!(cs.len(), 1);
    assert_eq!(cs[0].0, "/a");
    assert!(cs[0].1.deep_eq(&num("2")));
    assert!(cs[0].2.deep_eq(&num("3")));
}

#[test]
fn three_way_no_conflict_on_agreeing_replacements() {
    let base = mapping(vec![("a", num("1"))]);
    let left = mapping(vec![("a", num("2"))]);
    let right = mapping(vec![("a", num("2"))]);
    let cs = yaml_doc_core::diff::detect_conflicts_three_way(&base, &left, &right);
    assert_eq!(cs.len(), 0);
}

#[test]
fn three_way_no_conflict_on_one_sided_edit() {
    let base = mapping(vec![("a", num("1")), ("b", num("5"))]);
    let left = mapping(vec![("a", num("2")), ("b", num("5"))]);
    let right = mapping(vec![("a", num("1")), ("b", num("6"))]);
    let cs = yaml_doc_core::diff::detect_conflicts_three_way(&base, &left, &right);
    assert_eq!(cs.len(), 0);
}
