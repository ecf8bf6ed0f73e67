//! Structural checks on a schema document itself: the schema must carry a
//! valid `type`, an `object` schema its `properties`, an `array` schema
//! its `items`; each property definition must be a mapping with a `type`,
//! and every `required` entry must name a defined property.

use vstd::prelude::*;

use crate::codec::decode_yaml;
use crate::codec::yaml_doc_of;
use crate::error::ErrorInfo;
use crate::error::ErrorInfoV;
use crate::error::ValidationResult;
use crate::error::ValidationResultV;
use crate::error::render_result;
use crate::error_code::ErrorCode;
use crate::path::index_digits;
use crate::path::nat_digits;
use crate::tree::Tree;
use crate::tree::TreeV;
use crate::tree::entries_view;
use crate::tree::elems_view;
use crate::tree::has_key;
use crate::tree::key_idx;
use crate::tree::lemma_key_idx;
use crate::tree::map_val;

verus! {

broadcast use vstd::std_specs::vec::axiom_vec_index_decreases, vstd::seq::axiom_seq_index_decreases;

/// The names a schema `type` may carry.
pub open spec fn valid_type_name(ts: Seq<char>) -> bool {
    ||| ts == "object"@
    ||| ts == "array"@
    ||| ts == "string"@
    ||| ts == "number"@
    ||| ts == "integer"@
    ||| ts == "boolean"@
    ||| ts == "null"@
}

/// The basic shape checks: a `type` field must exist, be text, and carry a
/// valid name; an `object` schema needs `properties`, an `array` schema
/// needs `items`.
pub open spec fn schema_basics_spec(t: TreeV) -> Result<(), Seq<char>> {
    match t {
        TreeV::Mapping(m) => {
            if !has_key(m, "type"@) {
                Err("\u{30b9}\u{30ad}\u{30fc}\u{30de}\u{69cb}\u{6587}\u{30a8}\u{30e9}\u{30fc}: \u{30b9}\u{30ad}\u{30fc}\u{30de}\u{306b}\u{306f} 'type' \u{30d5}\u{30a3}\u{30fc}\u{30eb}\u{30c9}\u{304c}\u{5fc5}\u{8981}\u{3067}\u{3059}"@)
            } else {
                match map_val(m, "type"@) {
                    TreeV::Text(ts) => {
                        if !valid_type_name(ts) {
                            Err("\u{30b9}\u{30ad}\u{30fc}\u{30de}\u{69cb}\u{6587}\u{30a8}\u{30e9}\u{30fc}: '"@ + ts + "' \u{306f}\u{6709}\u{52b9}\u{306a}type\u{3067}\u{306f}\u{3042}\u{308a}\u{307e}\u{305b}\u{3093}\u{3002}object, array, string, number, integer, boolean, null\u{306e}\u{3044}\u{305a}\u{308c}\u{304b}\u{3067}\u{3042}\u{308b}\u{5fc5}\u{8981}\u{304c}\u{3042}\u{308a}\u{307e}\u{3059}"@)
                        } else if ts == "object"@ && !has_key(m, "properties"@) {
                            Err("\u{30b9}\u{30ad}\u{30fc}\u{30de}\u{69cb}\u{6587}\u{30a8}\u{30e9}\u{30fc}: object\u{30bf}\u{30a4}\u{30d7}\u{306e}\u{30b9}\u{30ad}\u{30fc}\u{30de}\u{306b}\u{306f} 'properties' \u{30d5}\u{30a3}\u{30fc}\u{30eb}\u{30c9}\u{304c}\u{5fc5}\u{8981}\u{3067}\u{3059}"@)
                        } else if ts == "array"@ && !has_key(m, "items"@) {
                            Err("\u{30b9}\u{30ad}\u{30fc}\u{30de}\u{69cb}\u{6587}\u{30a8}\u{30e9}\u{30fc}: array\u{30bf}\u{30a4}\u{30d7}\u{306e}\u{30b9}\u{30ad}\u{30fc}\u{30de}\u{306b}\u{306f} 'items' \u{30d5}\u{30a3}\u{30fc}\u{30eb}\u{30c9}\u{304c}\u{5fc5}\u{8981}\u{3067}\u{3059}"@)
                        } else {
                            Ok(())
                        }
                    },
                    _ => Err("\u{30b9}\u{30ad}\u{30fc}\u{30de}\u{69cb}\u{6587}\u{30a8}\u{30e9}\u{30fc}: 'type' \u{30d5}\u{30a3}\u{30fc}\u{30eb}\u{30c9}\u{306f}\u{6587}\u{5b57}\u{5217}\u{3067}\u{306a}\u{3051}\u{308c}\u{3070}\u{306a}\u{308a}\u{307e}\u{305b}\u{3093}"@),
                }
            }
        },
        _ => Err("\u{30b9}\u{30ad}\u{30fc}\u{30de}\u{69cb}\u{6587}\u{30a8}\u{30e9}\u{30fc}: \u{30b9}\u{30ad}\u{30fc}\u{30de}\u{306b}\u{306f} 'type' \u{30d5}\u{30a3}\u{30fc}\u{30eb}\u{30c9}\u{304c}\u{5fc5}\u{8981}\u{3067}\u{3059}"@),
    }
}

/// One property definition is well shaped: a mapping carrying a `type`.
pub open spec fn prop_ok(p: (Seq<char>, TreeV)) -> bool {
    match p.1 {
        TreeV::Mapping(pm) => has_key(pm, "type"@),
        _ => false,
    }
}

/// The first ill-shaped property from `i` on, as its error message.
pub open spec fn props_check(props: Seq<(Seq<char>, TreeV)>, i: int) -> Result<(), Seq<char>>
    decreases props.len() - i,
{
    if i < 0 || i >= props.len() {
        Ok(())
    } else {
        match props[i].1 {
            TreeV::Mapping(pm) => {
                if has_key(pm, "type"@) {
                    props_check(props, i + 1)
                } else {
                    Err("\u{30b9}\u{30ad}\u{30fc}\u{30de}\u{69cb}\u{6587}\u{30a8}\u{30e9}\u{30fc}: \u{30d7}\u{30ed}\u{30d1}\u{30c6}\u{30a3} '"@ + props[i].0 + "' \u{306b} 'type' \u{30d5}\u{30a3}\u{30fc}\u{30eb}\u{30c9}\u{304c}\u{3042}\u{308a}\u{307e}\u{305b}\u{3093}"@)
                }
            },
            _ => Err("\u{30b9}\u{30ad}\u{30fc}\u{30de}\u{69cb}\u{6587}\u{30a8}\u{30e9}\u{30fc}: \u{30d7}\u{30ed}\u{30d1}\u{30c6}\u{30a3} '"@ + props[i].0 + "' \u{306e}\u{5b9a}\u{7fa9}\u{304c}\u{30aa}\u{30d6}\u{30b8}\u{30a7}\u{30af}\u{30c8}\u{3067}\u{306f}\u{3042}\u{308a}\u{307e}\u{305b}\u{3093}"@),
        }
    }
}

/// One `required` entry is acceptable: text, and (when `properties` is a
/// mapping) the name of a defined property.
pub open spec fn req_entry_ok(m: Seq<(Seq<char>, TreeV)>, e: TreeV) -> bool {
    match e {
        TreeV::Text(name) => {
            if has_key(m, "properties"@) {
                match map_val(m, "properties"@) {
                    TreeV::Mapping(props) => has_key(props, name),
                    _ => true,
                }
            } else {
                true
            }
        },
        _ => false,
    }
}

/// The first bad `required` entry from `i` on, as its error message.
pub open spec fn req_check(
    m: Seq<(Seq<char>, TreeV)>,
    items: Seq<TreeV>,
    i: int,
) -> Result<(), Seq<char>>
    decreases items.len() - i,
{
    if i < 0 || i >= items.len() {
        Ok(())
    } else {
        match items[i] {
            TreeV::Text(name) => {
                if has_key(m, "properties"@) {
                    match map_val(m, "properties"@) {
                        TreeV::Mapping(props) => {
                            if has_key(props, name) {
                                req_check(m, items, i + 1)
                            } else {
                                Err("\u{30b9}\u{30ad}\u{30fc}\u{30de}\u{69cb}\u{6587}\u{30a8}\u{30e9}\u{30fc}: required\u{6307}\u{5b9a}\u{3055}\u{308c}\u{305f}\u{30d7}\u{30ed}\u{30d1}\u{30c6}\u{30a3} '"@ + name + "' \u{304c}properties\u{306b}\u{5b9a}\u{7fa9}\u{3055}\u{308c}\u{3066}\u{3044}\u{307e}\u{305b}\u{3093}"@)
                            }
                        },
                        _ => req_check(m, items, i + 1),
                    }
                } else {
                    req_check(m, items, i + 1)
                }
            },
            _ => Err("\u{30b9}\u{30ad}\u{30fc}\u{30de}\u{69cb}\u{6587}\u{30a8}\u{30e9}\u{30fc}: 'required' \u{914d}\u{5217}\u{306e}\u{8981}\u{7d20} "@ + nat_digits(i) + " \u{306f}\u{6587}\u{5b57}\u{5217}\u{3067}\u{306a}\u{3051}\u{308c}\u{3070}\u{306a}\u{308a}\u{307e}\u{305b}\u{3093}"@),
        }
    }
}

/// The deeper shape checks: `properties` must be a mapping of well-shaped
/// definitions, `required` a list of defined property names.
pub open spec fn schema_structure_spec(t: TreeV) -> Result<(), Seq<char>> {
    match t {
        TreeV::Mapping(m) => {
            let props_part: Result<(), Seq<char>> = if has_key(m, "properties"@) {
                match map_val(m, "properties"@) {
                    TreeV::Mapping(props) => props_check(props, 0),
                    _ => Err("\u{30b9}\u{30ad}\u{30fc}\u{30de}\u{69cb}\u{6587}\u{30a8}\u{30e9}\u{30fc}: 'properties' \u{30d5}\u{30a3}\u{30fc}\u{30eb}\u{30c9}\u{306f}\u{30aa}\u{30d6}\u{30b8}\u{30a7}\u{30af}\u{30c8}\u{3067}\u{306a}\u{3051}\u{308c}\u{3070}\u{306a}\u{308a}\u{307e}\u{305b}\u{3093}"@),
                }
            } else {
                Ok(())
            };
            match props_part {
                Err(e) => Err(e),
                Ok(()) => {
                    if has_key(m, "required"@) {
                        match map_val(m, "required"@) {
                            TreeV::Sequence(items) => req_check(m, items, 0),
                            _ => Err("\u{30b9}\u{30ad}\u{30fc}\u{30de}\u{69cb}\u{6587}\u{30a8}\u{30e9}\u{30fc}: 'required' \u{30d5}\u{30a3}\u{30fc}\u{30eb}\u{30c9}\u{306f}\u{914d}\u{5217}\u{3067}\u{306a}\u{3051}\u{308c}\u{3070}\u{306a}\u{308a}\u{307e}\u{305b}\u{3093}"@),
                        }
                    } else {
                        Ok(())
                    }
                },
            }
        },
        _ => Ok(()),
    }
}

/// What compiling a schema reports: a decode failure, the first shape
/// error, or success.
pub open spec fn compile_schema_spec(s: Seq<char>) -> Seq<char> {
    match yaml_doc_of(s) {
        Err(e) => render_result(
            ValidationResultV {
                success: false,
                errors: seq![
                    ErrorInfoV {
                        line: e.0,
                        message: "\u{30b9}\u{30ad}\u{30fc}\u{30de}\u{69cb}\u{6587}\u{30a8}\u{30e9}\u{30fc}: YAML\u{89e3}\u{6790}\u{306b}\u{5931}\u{6557}\u{3057}\u{307e}\u{3057}\u{305f} - "@ + e.1,
                        path: Seq::empty(),
                        code: ErrorCode::YamlParse,
                    },
                ],
            },
        ),
        Ok(v) => match schema_basics_spec(v) {
            Err(m) => render_result(
                ValidationResultV {
                    success: false,
                    errors: seq![
                        ErrorInfoV {
                            line: 0,
                            message: m,
                            path: Seq::empty(),
                            code: ErrorCode::SchemaCompile,
                        },
                    ],
                },
            ),
            Ok(()) => match schema_structure_spec(v) {
                Err(m) => render_result(
                    ValidationResultV {
                        success: false,
                        errors: seq![
                            ErrorInfoV {
                                line: 0,
                                message: m,
                                path: Seq::empty(),
                                code: ErrorCode::SchemaCompile,
                            },
                        ],
                    },
                ),
                Ok(()) => render_result(
                    ValidationResultV { success: true, errors: Seq::empty() },
                ),
            },
        },
    }
}

/// A well-shaped prefix does not change the check's outcome.
proof fn lemma_props_check_skip(props: Seq<(Seq<char>, TreeV)>, i: int)
    requires
        0 <= i <= props.len(),
        forall|j: int| 0 <= j < i ==> prop_ok(#[trigger] props[j]),
    ensures
        props_check(props, 0) == props_check(props, i),
    decreases i,
{
    if i > 0 {
        lemma_props_check_skip_step(props, i - 1);
        lemma_props_check_skip(props, i - 1);
    }
}

proof fn lemma_props_check_skip_step(props: Seq<(Seq<char>, TreeV)>, i: int)
    requires
        0 <= i < props.len(),
        prop_ok(props[i]),
    ensures
        props_check(props, i) == props_check(props, i + 1),
{
}

/// An acceptable prefix does not change the check's outcome.
proof fn lemma_req_check_skip(m: Seq<(Seq<char>, TreeV)>, items: Seq<TreeV>, i: int)
    requires
        0 <= i <= items.len(),
        forall|j: int| 0 <= j < i ==> req_entry_ok(m, #[trigger] items[j]),
    ensures
        req_check(m, items, 0) == req_check(m, items, i),
    decreases i,
{
    if i > 0 {
        lemma_req_check_skip(m, items, i - 1);
    }
}

/// Runs the basic shape checks on a schema tree.
fn validate_schema_basics(t: &Tree) -> (r: Result<(), String>)
    ensures
        ({
            let spec = schema_basics_spec(t@);
            match r {
                Ok(()) => spec is Ok,
                Err(m) => spec == Err::<(), Seq<char>>(m@),
            }
        }),
{
    let entries = match t {
        Tree::Mapping(entries) => entries,
        _ => {
            return Err(String::from_str("\u{30b9}\u{30ad}\u{30fc}\u{30de}\u{69cb}\u{6587}\u{30a8}\u{30e9}\u{30fc}: \u{30b9}\u{30ad}\u{30fc}\u{30de}\u{306b}\u{306f} 'type' \u{30d5}\u{30a3}\u{30fc}\u{30eb}\u{30c9}\u{304c}\u{5fc5}\u{8981}\u{3067}\u{3059}"));
        },
    };
    let ghost m = entries_view(entries@);
    let type_key = String::from_str("type");
    let tj = match Tree::map_find(entries, &type_key) {
        Some(j) => j,
        None => {
            return Err(String::from_str("\u{30b9}\u{30ad}\u{30fc}\u{30de}\u{69cb}\u{6587}\u{30a8}\u{30e9}\u{30fc}: \u{30b9}\u{30ad}\u{30fc}\u{30de}\u{306b}\u{306f} 'type' \u{30d5}\u{30a3}\u{30fc}\u{30eb}\u{30c9}\u{304c}\u{5fc5}\u{8981}\u{3067}\u{3059}"));
        },
    };
    proof {
        lemma_key_idx(m, "type"@);
        assert(m[tj as int] == (entries@[tj as int].0@, entries@[tj as int].1@));
    }
    let ts = match &entries[tj].1 {
        Tree::Text(s) => s,
        _ => {
            return Err(String::from_str("\u{30b9}\u{30ad}\u{30fc}\u{30de}\u{69cb}\u{6587}\u{30a8}\u{30e9}\u{30fc}: 'type' \u{30d5}\u{30a3}\u{30fc}\u{30eb}\u{30c9}\u{306f}\u{6587}\u{5b57}\u{5217}\u{3067}\u{306a}\u{3051}\u{308c}\u{3070}\u{306a}\u{308a}\u{307e}\u{305b}\u{3093}"));
        },
    };
    let is_valid = ts.eq(&String::from_str("object")) || ts.eq(&String::from_str("array"))
        || ts.eq(&String::from_str("string")) || ts.eq(&String::from_str("number")) || ts.eq(
        &String::from_str("integer"),
    ) || ts.eq(&String::from_str("boolean")) || ts.eq(&String::from_str("null"));
    if !is_valid {
        let mut msg = String::from_str("\u{30b9}\u{30ad}\u{30fc}\u{30de}\u{69cb}\u{6587}\u{30a8}\u{30e9}\u{30fc}: '");
        msg.append(ts.as_str());
        msg.append("' \u{306f}\u{6709}\u{52b9}\u{306a}type\u{3067}\u{306f}\u{3042}\u{308a}\u{307e}\u{305b}\u{3093}\u{3002}object, array, string, number, integer, boolean, null\u{306e}\u{3044}\u{305a}\u{308c}\u{304b}\u{3067}\u{3042}\u{308b}\u{5fc5}\u{8981}\u{304c}\u{3042}\u{308a}\u{307e}\u{3059}");
        proof {
            assert(msg@ =~= "\u{30b9}\u{30ad}\u{30fc}\u{30de}\u{69cb}\u{6587}\u{30a8}\u{30e9}\u{30fc}: '"@ + ts@ + "' \u{306f}\u{6709}\u{52b9}\u{306a}type\u{3067}\u{306f}\u{3042}\u{308a}\u{307e}\u{305b}\u{3093}\u{3002}object, array, string, number, integer, boolean, null\u{306e}\u{3044}\u{305a}\u{308c}\u{304b}\u{3067}\u{3042}\u{308b}\u{5fc5}\u{8981}\u{304c}\u{3042}\u{308a}\u{307e}\u{3059}"@);
        }
        return Err(msg);
    }
    if ts.eq(&String::from_str("object")) {
        let props_key = String::from_str("properties");
        if Tree::map_find(entries, &props_key).is_none() {
            return Err(String::from_str("\u{30b9}\u{30ad}\u{30fc}\u{30de}\u{69cb}\u{6587}\u{30a8}\u{30e9}\u{30fc}: object\u{30bf}\u{30a4}\u{30d7}\u{306e}\u{30b9}\u{30ad}\u{30fc}\u{30de}\u{306b}\u{306f} 'properties' \u{30d5}\u{30a3}\u{30fc}\u{30eb}\u{30c9}\u{304c}\u{5fc5}\u{8981}\u{3067}\u{3059}"));
        }
    }
    if ts.eq(&String::from_str("array")) {
        let items_key = String::from_str("items");
        if Tree::map_find(entries, &items_key).is_none() {
            return Err(String::from_str("\u{30b9}\u{30ad}\u{30fc}\u{30de}\u{69cb}\u{6587}\u{30a8}\u{30e9}\u{30fc}: array\u{30bf}\u{30a4}\u{30d7}\u{306e}\u{30b9}\u{30ad}\u{30fc}\u{30de}\u{306b}\u{306f} 'items' \u{30d5}\u{30a3}\u{30fc}\u{30eb}\u{30c9}\u{304c}\u{5fc5}\u{8981}\u{3067}\u{3059}"));
        }
    }
    Ok(())
}

/// Runs the deeper shape checks on a schema tree.
#[verifier::loop_isolation(false)]
fn validate_schema_structure(t: &Tree) -> (r: Result<(), String>)
    ensures
        ({
            let spec = schema_structure_spec(t@);
            match r {
                Ok(()) => spec is Ok,
                Err(m) => spec == Err::<(), Seq<char>>(m@),
            }
        }),
{
    let entries = match t {
        Tree::Mapping(entries) => entries,
        _ => {
            return Ok(());
        },
    };
    let ghost m = entries_view(entries@);
    let props_key = String::from_str("properties");
    if let Some(pj) = Tree::map_find(entries, &props_key) {
        proof {
            lemma_key_idx(m, "properties"@);
            assert(m[pj as int] == (entries@[pj as int].0@, entries@[pj as int].1@));
        }
        match &entries[pj].1 {
            Tree::Mapping(props) => {
                let ghost propsv = entries_view(props@);
                for i in 0..props.len()
                    invariant
                        forall|j: int| 0 <= j < i ==> prop_ok(#[trigger] propsv[j]),
                    decreases props@.len() - i,
                {
                    proof {
                        assert(propsv[i as int] == (props@[i as int].0@, props@[i as int].1@));
                    }
                    let pentries = match &props[i].1 {
                        Tree::Mapping(pe) => pe,
                        _ => {
                            let mut msg = String::from_str("\u{30b9}\u{30ad}\u{30fc}\u{30de}\u{69cb}\u{6587}\u{30a8}\u{30e9}\u{30fc}: \u{30d7}\u{30ed}\u{30d1}\u{30c6}\u{30a3} '");
                            msg.append(props[i].0.as_str());
                            msg.append("' \u{306e}\u{5b9a}\u{7fa9}\u{304c}\u{30aa}\u{30d6}\u{30b8}\u{30a7}\u{30af}\u{30c8}\u{3067}\u{306f}\u{3042}\u{308a}\u{307e}\u{305b}\u{3093}");
                            proof {
                                lemma_props_check_skip(propsv, i as int);
                                assert(msg@ =~= "\u{30b9}\u{30ad}\u{30fc}\u{30de}\u{69cb}\u{6587}\u{30a8}\u{30e9}\u{30fc}: \u{30d7}\u{30ed}\u{30d1}\u{30c6}\u{30a3} '"@ + propsv[i as int].0
                                    + "' \u{306e}\u{5b9a}\u{7fa9}\u{304c}\u{30aa}\u{30d6}\u{30b8}\u{30a7}\u{30af}\u{30c8}\u{3067}\u{306f}\u{3042}\u{308a}\u{307e}\u{305b}\u{3093}"@);
                            }
                            return Err(msg);
                        },
                    };
                    let type_key = String::from_str("type");
                    if Tree::map_find(pentries, &type_key).is_none() {
                        let mut msg = String::from_str("\u{30b9}\u{30ad}\u{30fc}\u{30de}\u{69cb}\u{6587}\u{30a8}\u{30e9}\u{30fc}: \u{30d7}\u{30ed}\u{30d1}\u{30c6}\u{30a3} '");
                        msg.append(props[i].0.as_str());
                        msg.append("' \u{306b} 'type' \u{30d5}\u{30a3}\u{30fc}\u{30eb}\u{30c9}\u{304c}\u{3042}\u{308a}\u{307e}\u{305b}\u{3093}");
                        proof {
                            lemma_props_check_skip(propsv, i as int);
                            assert(msg@ =~= "\u{30b9}\u{30ad}\u{30fc}\u{30de}\u{69cb}\u{6587}\u{30a8}\u{30e9}\u{30fc}: \u{30d7}\u{30ed}\u{30d1}\u{30c6}\u{30a3} '"@ + propsv[i as int].0
                                + "' \u{306b} 'type' \u{30d5}\u{30a3}\u{30fc}\u{30eb}\u{30c9}\u{304c}\u{3042}\u{308a}\u{307e}\u{305b}\u{3093}"@);
                        }
                        return Err(msg);
                    }
                }
                proof {
                    lemma_props_check_skip(propsv, props@.len() as int);
                }
            },
            _ => {
                return Err(String::from_str("\u{30b9}\u{30ad}\u{30fc}\u{30de}\u{69cb}\u{6587}\u{30a8}\u{30e9}\u{30fc}: 'properties' \u{30d5}\u{30a3}\u{30fc}\u{30eb}\u{30c9}\u{306f}\u{30aa}\u{30d6}\u{30b8}\u{30a7}\u{30af}\u{30c8}\u{3067}\u{306a}\u{3051}\u{308c}\u{3070}\u{306a}\u{308a}\u{307e}\u{305b}\u{3093}"));
            },
        }
    }
    let req_key = String::from_str("required");
    if let Some(rj) = Tree::map_find(entries, &req_key) {
        proof {
            lemma_key_idx(m, "required"@);
            assert(m[rj as int] == (entries@[rj as int].0@, entries@[rj as int].1@));
        }
        match &entries[rj].1 {
            Tree::Sequence(items) => {
                let ghost itemsv = elems_view(items@);
                for i in 0..items.len()
                    invariant
                        forall|j: int| 0 <= j < i ==> req_entry_ok(m, #[trigger] itemsv[j]),
                    decreases items@.len() - i,
                {
                    proof {
                        assert(itemsv[i as int] == items@[i as int]@);
                    }
                    let name = match &items[i] {
                        Tree::Text(s) => s,
                        _ => {
                            let mut msg = String::from_str("\u{30b9}\u{30ad}\u{30fc}\u{30de}\u{69cb}\u{6587}\u{30a8}\u{30e9}\u{30fc}: 'required' \u{914d}\u{5217}\u{306e}\u{8981}\u{7d20} ");
                            let digits = index_digits(i);
                            msg.append(digits.as_str());
                            msg.append(" \u{306f}\u{6587}\u{5b57}\u{5217}\u{3067}\u{306a}\u{3051}\u{308c}\u{3070}\u{306a}\u{308a}\u{307e}\u{305b}\u{3093}");
                            proof {
                                lemma_req_check_skip(m, itemsv, i as int);
                                assert(msg@ =~= "\u{30b9}\u{30ad}\u{30fc}\u{30de}\u{69cb}\u{6587}\u{30a8}\u{30e9}\u{30fc}: 'required' \u{914d}\u{5217}\u{306e}\u{8981}\u{7d20} "@ + nat_digits(i as int)
                                    + " \u{306f}\u{6587}\u{5b57}\u{5217}\u{3067}\u{306a}\u{3051}\u{308c}\u{3070}\u{306a}\u{308a}\u{307e}\u{305b}\u{3093}"@);
                            }
                            return Err(msg);
                        },
                    };
                    if let Some(pj) = Tree::map_find(entries, &props_key) {
                        proof {
                            lemma_key_idx(m, "properties"@);
                            assert(m[pj as int] == (
                                entries@[pj as int].0@,
                                entries@[pj as int].1@,
                            ));
                        }
                        if let Tree::Mapping(props) = &entries[pj].1 {
                            let ghost propsv = entries_view(props@);
                            if Tree::map_find(props, name).is_none() {
                                let mut msg = String::from_str("\u{30b9}\u{30ad}\u{30fc}\u{30de}\u{69cb}\u{6587}\u{30a8}\u{30e9}\u{30fc}: required\u{6307}\u{5b9a}\u{3055}\u{308c}\u{305f}\u{30d7}\u{30ed}\u{30d1}\u{30c6}\u{30a3} '");
                                msg.append(name.as_str());
                                msg.append("' \u{304c}properties\u{306b}\u{5b9a}\u{7fa9}\u{3055}\u{308c}\u{3066}\u{3044}\u{307e}\u{305b}\u{3093}");
                                proof {
                                    lemma_req_check_skip(m, itemsv, i as int);
                                    assert(msg@ =~= "\u{30b9}\u{30ad}\u{30fc}\u{30de}\u{69cb}\u{6587}\u{30a8}\u{30e9}\u{30fc}: required\u{6307}\u{5b9a}\u{3055}\u{308c}\u{305f}\u{30d7}\u{30ed}\u{30d1}\u{30c6}\u{30a3} '"@ + name@ + "' \u{304c}properties\u{306b}\u{5b9a}\u{7fa9}\u{3055}\u{308c}\u{3066}\u{3044}\u{307e}\u{305b}\u{3093}"@);
                                }
                                return Err(msg);
                            }
                        }
                    }
                }
                proof {
                    lemma_req_check_skip(m, itemsv, items@.len() as int);
                }
            },
            _ => {
                return Err(String::from_str("\u{30b9}\u{30ad}\u{30fc}\u{30de}\u{69cb}\u{6587}\u{30a8}\u{30e9}\u{30fc}: 'required' \u{30d5}\u{30a3}\u{30fc}\u{30eb}\u{30c9}\u{306f}\u{914d}\u{5217}\u{3067}\u{306a}\u{3051}\u{308c}\u{3070}\u{306a}\u{308a}\u{307e}\u{305b}\u{3093}"));
            },
        }
    }
    Ok(())
}

/// Compiles a schema: decodes it and runs the shape checks, reporting the
/// outcome as JSON text.
pub fn compile_schema(schema_yaml: &str) -> (r: String)
    ensures
        r@ == compile_schema_spec(schema_yaml@),
{
    let tree = match decode_yaml(schema_yaml) {
        Ok(t) => t,
        Err(e) => {
            let mut msg = String::from_str("\u{30b9}\u{30ad}\u{30fc}\u{30de}\u{69cb}\u{6587}\u{30a8}\u{30e9}\u{30fc}: YAML\u{89e3}\u{6790}\u{306b}\u{5931}\u{6557}\u{3057}\u{307e}\u{3057}\u{305f} - ");
            msg.append(e.message.as_str());
            proof {
                assert(msg@ =~= "\u{30b9}\u{30ad}\u{30fc}\u{30de}\u{69cb}\u{6587}\u{30a8}\u{30e9}\u{30fc}: YAML\u{89e3}\u{6790}\u{306b}\u{5931}\u{6557}\u{3057}\u{307e}\u{3057}\u{305f} - "@ + e.message@);
            }
            let info = ErrorInfo::new(e.line, msg, String::new(), ErrorCode::YamlParse);
            let vr = ValidationResult::single_error(info);
            return vr.to_json();
        },
    };
    if let Err(m) = validate_schema_basics(&tree) {
        let info = ErrorInfo::new(0, m, String::new(), ErrorCode::SchemaCompile);
        let vr = ValidationResult::single_error(info);
        return vr.to_json();
    }
    if let Err(m) = validate_schema_structure(&tree) {
        let info = ErrorInfo::new(0, m, String::new(), ErrorCode::SchemaCompile);
        let vr = ValidationResult::single_error(info);
        return vr.to_json();
    }
    ValidationResult::success().to_json()
}

} // verus!
