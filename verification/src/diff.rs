//! The textual entry points of the diff/patch/conflict core: diffing two
//! YAML documents into a JSON patch, applying a JSON patch to a YAML
//! document, and flagging conflicts. These boundaries fail soft: a text
//! that does not decode yields the empty patch, the unchanged document, or
//! an empty conflict report — never an error payload.

use vstd::prelude::*;

use crate::codec::YamlError;
use crate::codec::decode_json;
use crate::codec::decode_yaml;
use crate::codec::encode_json_raw;
use crate::codec::encode_yaml_raw;
use crate::codec::json_doc_of;
use crate::codec::json_text_of;
use crate::codec::yaml_doc_of;
use crate::codec::yaml_text_of;
use crate::diff_engine::diff;
use crate::diff_engine::diff_spec;
use crate::patch::apply;
use crate::patch::apply_ops_spec;
use crate::patchdoc::build_conflict_report;
use crate::patchdoc::build_patch_tree;
use crate::patchdoc::collect_conflicts;
use crate::patchdoc::conflict_report_tree;
use crate::patchdoc::conflicts_of;
use crate::patchdoc::ops_of_tree;
use crate::patchdoc::parse_patch_tree;
use crate::patchdoc::patch_tree;
use crate::tree::Tree;
use crate::tree::TreeV;
use crate::tree::entries_view;
use crate::tree::equiv;

verus! {

/// Decodes one document from YAML text.
pub fn decode_document(text: &str) -> (r: Result<Tree, YamlError>)
    ensures
        (match r {
            Ok(t) => Ok::<TreeV, (u32, Seq<char>)>(t@),
            Err(e) => Err::<TreeV, (u32, Seq<char>)>((e.line, e.message@)),
        }) == yaml_doc_of(text@),
        r matches Ok(t) ==> crate::tree::wf(t@),
{
    decode_yaml(text)
}

/// Encodes one document as YAML text.
pub fn encode_document(tree: &Tree) -> (r: Option<String>)
    ensures
        (match r {
            Some(s) => Some(s@),
            None => None::<Seq<char>>,
        }) == yaml_text_of(tree@),
{
    encode_yaml_raw(tree)
}

/// What diffing two YAML texts yields: the patch document of the
/// structural diff as JSON text, or `[]` when either text does not decode
/// (or the patch does not encode).
pub open spec fn yaml_diff_spec(base: Seq<char>, edited: Seq<char>) -> Seq<char> {
    match (yaml_doc_of(base), yaml_doc_of(edited)) {
        (Ok(tb), Ok(te)) => match json_text_of(patch_tree(diff_spec(tb, te))) {
            Some(s) => s,
            None => "[]"@,
        },
        _ => "[]"@,
    }
}

/// Computes the JSON patch between two YAML documents; on any decode
/// failure the result is the empty patch `[]`, never an error payload.
pub fn yaml_diff(base_yaml: &str, edited_yaml: &str) -> (r: String)
    ensures
        r@ == yaml_diff_spec(base_yaml@, edited_yaml@),
{
    let base = decode_yaml(base_yaml);
    let edited = decode_yaml(edited_yaml);
    if let (Ok(base), Ok(edited)) = (base, edited) {
        let ops = diff(&base, &edited);
        let doc = build_patch_tree(&ops);
        if let Some(s) = encode_json_raw(&doc) {
            return s;
        }
    }
    String::from_str("[]")
}

/// What applying a JSON patch text to a YAML text yields: the re-encoded
/// patched document, or the original text unchanged when the document or
/// the patch does not decode, the patch is malformed, an operation fails,
/// or the result does not encode.
pub open spec fn apply_patch_spec(doc: Seq<char>, patch: Seq<char>) -> Seq<char> {
    match yaml_doc_of(doc) {
        Err(_) => doc,
        Ok(t) => match json_doc_of(patch) {
            None => doc,
            Some(pt) => match ops_of_tree(pt) {
                None => doc,
                Some(ops) => match apply_ops_spec(t, ops) {
                    Err(_) => doc,
                    Ok(t2) => match yaml_text_of(t2) {
                        Some(s) => s,
                        None => doc,
                    },
                },
            },
        },
    }
}

/// Applies a JSON patch to a YAML document and re-encodes it; on any
/// failure the original text comes back unchanged, never an error payload.
pub fn apply_patch(yaml: &str, patch_json: &str) -> (r: String)
    ensures
        r@ == apply_patch_spec(yaml@, patch_json@),
{
    if let Ok(tree) = decode_yaml(yaml) {
        if let Some(ptree) = decode_json(patch_json) {
            if let Some(ops) = parse_patch_tree(&ptree) {
                if let Ok(patched) = apply(&tree, &ops) {
                    if let Some(s) = encode_yaml_raw(&patched) {
                        return s;
                    }
                }
            }
        }
    }
    yaml.to_owned()
}

/// The conflict candidates between two trees: every replacement the diff
/// emits, as its pointer string and new value.
pub fn conflicts_between(base: &Tree, edited: &Tree) -> (r: Vec<(String, Tree)>)
    ensures
        entries_view(r@) == conflicts_of(diff_spec(base@, edited@), 0),
{
    let ops = diff(base, edited);
    collect_conflicts(&ops)
}

/// What conflict detection over two YAML texts yields: the report of all
/// replacements in the diff, as JSON text; a decode or encode failure
/// yields the no-conflict report.
pub open spec fn detect_conflicts_spec(base: Seq<char>, edited: Seq<char>) -> Seq<char> {
    match (yaml_doc_of(base), yaml_doc_of(edited)) {
        (Ok(tb), Ok(te)) => match json_text_of(
            conflict_report_tree(conflicts_of(diff_spec(tb, te), 0)),
        ) {
            Some(s) => s,
            None => "{\"has_conflict\": false, \"conflicts\": []}"@,
        },
        _ => "{\"has_conflict\": false, \"conflicts\": []}"@,
    }
}

/// Flags conflicts between a base document and an edited one: every
/// replacement in their structural diff is reported, with its path and
/// the edited value; `has_conflict` is true exactly when one exists. On
/// any decode failure the no-conflict report comes back.
pub fn detect_conflicts(base_yaml: &str, edited_yaml: &str) -> (r: String)
    ensures
        r@ == detect_conflicts_spec(base_yaml@, edited_yaml@),
{
    let base = decode_yaml(base_yaml);
    let edited = decode_yaml(edited_yaml);
    if let (Ok(base), Ok(edited)) = (base, edited) {
        let cs = conflicts_between(&base, &edited);
        let report = build_conflict_report(&cs);
        if let Some(s) = encode_json_raw(&report) {
            return s;
        }
    }
    String::from_str("{\"has_conflict\": false, \"conflicts\": []}")
}


/// Model of a list of three-way conflicts.
pub open spec fn triples_view(cs: Seq<(String, Tree, Tree)>) -> Seq<(Seq<char>, TreeV, TreeV)> {
    Seq::new(
        cs.len(),
        |i: int|
            if 0 <= i < cs.len() {
                (cs[i].0@, cs[i].1@, cs[i].2@)
            } else {
                (Seq::<char>::empty(), TreeV::Null, TreeV::Null)
            },
    )
}

/// The value of the first replacement in `ops[i..]` whose path renders as
/// `ptr`.
pub open spec fn find_replace(ops: Seq<crate::patch::OpV>, ptr: Seq<char>, i: int) -> Option<
    TreeV,
>
    decreases ops.len() - i,
{
    if i < 0 || i >= ops.len() {
        None
    } else {
        match ops[i] {
            crate::patch::OpV::Replace(p, v) => if crate::pointer::pointer_of(p) == ptr {
                Some(v)
            } else {
                find_replace(ops, ptr, i + 1)
            },
            _ => find_replace(ops, ptr, i + 1),
        }
    }
}

/// The genuine conflicts between two patches from a common base, from
/// position `i` of the first on: every path replaced by both with
/// structurally different target values, with both values, in the first
/// patch's order.
pub open spec fn cross_conflicts(
    ops1: Seq<crate::patch::OpV>,
    ops2: Seq<crate::patch::OpV>,
    i: int,
) -> Seq<(Seq<char>, TreeV, TreeV)>
    decreases ops1.len() - i,
{
    if i < 0 || i >= ops1.len() {
        Seq::empty()
    } else {
        let here: Seq<(Seq<char>, TreeV, TreeV)> = match ops1[i] {
            crate::patch::OpV::Replace(p, v1) => {
                let ptr = crate::pointer::pointer_of(p);
                match find_replace(ops2, ptr, 0) {
                    Some(v2) => if !equiv(v1, v2) {
                        seq![(ptr, v1, v2)]
                    } else {
                        Seq::empty()
                    },
                    None => Seq::empty(),
                }
            },
            _ => Seq::empty(),
        };
        here + cross_conflicts(ops1, ops2, i + 1)
    }
}

/// The value of the first replacement in `ops[i..]` at the given pointer.
fn find_replacement_from(ops: &Vec<crate::patch::Op>, ptr: &String, i: usize) -> (r: Option<
    Tree,
>)
    requires
        i <= ops@.len(),
    ensures
        ({
            let spec = find_replace(ops.deep_view(), ptr@, i as int);
            match r {
                Some(t) => spec == Some(t@),
                None => spec is None,
            }
        }),
    decreases ops@.len() - i,
{
    if i == ops.len() {
        return None;
    }
    proof {
        assert(ops.deep_view()[i as int] == ops@[i as int]@);
    }
    if let crate::patch::Op::Replace(p, v) = &ops[i] {
        let rendered = crate::pointer::pointer_string(p);
        if rendered.eq(ptr) {
            return Some(v.deep_copy());
        }
    }
    find_replacement_from(ops, ptr, i + 1)
}

/// The genuine three-way conflicts between two edits of a common base:
/// every path that both `left` and `right` replace with structurally
/// different values, with the two values. The textual `detect_conflicts`
/// keeps the simpler single-source policy; this is the three-way form.
#[verifier::loop_isolation(false)]
pub fn detect_conflicts_three_way(base: &Tree, left: &Tree, right: &Tree) -> (r: Vec<
    (String, Tree, Tree),
>)
    ensures
        triples_view(r@) == cross_conflicts(
            diff_spec(base@, left@),
            diff_spec(base@, right@),
            0,
        ),
{
    let ops1 = diff(base, left);
    let ops2 = diff(base, right);
    let ghost o1 = ops1.deep_view();
    let ghost o2 = ops2.deep_view();
    let mut out: Vec<(String, Tree, Tree)> = Vec::new();
    for i in 0..ops1.len()
        invariant
            triples_view(out@) + cross_conflicts(o1, o2, i as int) == cross_conflicts(o1, o2, 0),
        decreases ops1@.len() - i,
    {
        let ghost before = triples_view(out@);
        proof {
            assert(o1[i as int] == ops1@[i as int]@);
        }
        if let crate::patch::Op::Replace(p, v1) = &ops1[i] {
            let ptr = crate::pointer::pointer_string(p);
            if let Some(v2) = find_replacement_from(&ops2, &ptr, 0) {
                if !v1.deep_eq(&v2) {
                    let ghost v2v = v2@;
                    out.push((ptr, v1.deep_copy(), v2));
                    proof {
                        assert(triples_view(out@)[before.len() as int] == (
                            crate::pointer::pointer_of(p.deep_view()),
                            v1@,
                            v2v,
                        ));
                    }
                }
            }
        }
        proof {
            let here: Seq<(Seq<char>, TreeV, TreeV)> = match o1[i as int] {
                crate::patch::OpV::Replace(pp, vv1) => {
                    let ptr = crate::pointer::pointer_of(pp);
                    match find_replace(o2, ptr, 0) {
                        Some(vv2) => if !equiv(vv1, vv2) {
                            seq![(ptr, vv1, vv2)]
                        } else {
                            Seq::empty()
                        },
                        None => Seq::empty(),
                    }
                },
                _ => Seq::empty(),
            };
            assert(triples_view(out@) =~~= before + here);
            assert(cross_conflicts(o1, o2, i as int) == here + cross_conflicts(
                o1,
                o2,
                i as int + 1,
            ));
            assert(before + (here + cross_conflicts(o1, o2, i as int + 1)) =~= (before + here)
                + cross_conflicts(o1, o2, i as int + 1));
        }
    }
    proof {
        assert(triples_view(out@) + Seq::<(Seq<char>, TreeV, TreeV)>::empty() =~= triples_view(
            out@,
        ));
    }
    out
}

} // verus!
