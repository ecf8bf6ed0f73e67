//! The wire form of patches and conflict reports: a patch document is a
//! sequence of mappings with `op` (`add` / `remove` / `replace`), `path` (a
//! pointer string) and, where applicable, `value`; a conflict report holds
//! `has_conflict` and the conflicting `path`/`value` pairs.

use vstd::prelude::*;

use crate::patch::Op;
use crate::patch::OpV;
use crate::pointer::parse_ptr;
use crate::pointer::canonical_token;
use crate::pointer::lemma_pointer_round_trip;
use crate::pointer::parse_pointer;
use crate::pointer::pointer_of;
use crate::pointer::pointer_string;
use crate::tree::Tree;
use crate::tree::TreeV;
use crate::tree::entries_view;
use crate::tree::elems_view;
use crate::tree::has_key;
use crate::tree::key_idx;
use crate::tree::lemma_key_idx;
use crate::tree::lemma_key_idx_first;
use crate::tree::map_val;

verus! {

broadcast use vstd::std_specs::vec::axiom_vec_index_decreases, vstd::seq::axiom_seq_index_decreases;

/// The wire tree of one operation.
pub open spec fn op_tree(op: OpV) -> TreeV {
    match op {
        OpV::Add(p, v) => TreeV::Mapping(
            seq![
                ("op"@, TreeV::Text("add"@)),
                ("path"@, TreeV::Text(pointer_of(p))),
                ("value"@, v),
            ],
        ),
        OpV::Remove(p) => TreeV::Mapping(
            seq![("op"@, TreeV::Text("remove"@)), ("path"@, TreeV::Text(pointer_of(p)))],
        ),
        OpV::Replace(p, v) => TreeV::Mapping(
            seq![
                ("op"@, TreeV::Text("replace"@)),
                ("path"@, TreeV::Text(pointer_of(p))),
                ("value"@, v),
            ],
        ),
    }
}

/// The wire tree of a whole patch.
pub open spec fn patch_tree(ops: Seq<OpV>) -> TreeV {
    TreeV::Sequence(Seq::new(ops.len(), |i: int| op_tree(ops[i])))
}

/// Builds the wire tree of `ops`.
#[verifier::loop_isolation(false)]
pub fn build_patch_tree(ops: &Vec<Op>) -> (t: Tree)
    ensures
        t@ == patch_tree(ops.deep_view()),
{
    let mut elems: Vec<Tree> = Vec::new();
    for i in 0..ops.len()
        invariant
            elems@.len() == i,
            forall|j: int| 0 <= j < i ==> elems@[j]@ == op_tree(ops.deep_view()[j]),
        decreases ops@.len() - i,
    {
        let e = build_op_tree(&ops[i]);
        proof {
            assert(ops.deep_view()[i as int] == ops@[i as int]@);
        }
        elems.push(e);
    }
    let t = Tree::Sequence(elems);
    proof {
        assert(t@->Sequence_0 =~= patch_tree(ops.deep_view())->Sequence_0);
        assert(t@ =~= patch_tree(ops.deep_view()));
    }
    t
}

/// Builds the wire tree of one operation.
fn build_op_tree(op: &Op) -> (t: Tree)
    ensures
        t@ == op_tree(op@),
{
    proof {
        reveal_strlit("op");
        reveal_strlit("path");
        reveal_strlit("value");
        reveal_strlit("add");
        reveal_strlit("remove");
        reveal_strlit("replace");
    }
    match op {
        Op::Add(p, v) => {
            let k0 = String::from_str("op");
            let v0 = Tree::Text(String::from_str("add"));
            let k1 = String::from_str("path");
            let v1 = Tree::Text(pointer_string(p));
            let k2 = String::from_str("value");
            let v2 = v.deep_copy();
            proof {
                assert(v0@ == TreeV::Text("add"@));
                assert(v1@ == TreeV::Text(pointer_of(p.deep_view())));
                assert(op@ == OpV::Add(p.deep_view(), v@));
            }
            let mut entries: Vec<(String, Tree)> = Vec::new();
            entries.push((k0, v0));
            entries.push((k1, v1));
            entries.push((k2, v2));
            let t = Tree::Mapping(entries);
            proof {
                assert(entries_view(entries@)[0] == ("op"@, TreeV::Text("add"@)));
                assert(entries_view(entries@)[1] == (
                    "path"@,
                    TreeV::Text(pointer_of(p.deep_view())),
                ));
                assert(entries_view(entries@)[2] == ("value"@, v@));
                assert(t@ == TreeV::Mapping(entries_view(entries@)));
                assert(t@->Mapping_0 =~~= op_tree(op@)->Mapping_0);
                assert(t@ =~~= op_tree(op@));
            }
            t
        },
        Op::Remove(p) => {
            let k0 = String::from_str("op");
            let v0 = Tree::Text(String::from_str("remove"));
            let k1 = String::from_str("path");
            let v1 = Tree::Text(pointer_string(p));
            proof {
                assert(k0@ == "op"@);
                assert(v0@ == TreeV::Text("remove"@));
                assert(k1@ == "path"@);
                assert(v1@ == TreeV::Text(pointer_of(p.deep_view())));
                assert(op@ == OpV::Remove(p.deep_view()));
            }
            let mut entries: Vec<(String, Tree)> = Vec::new();
            entries.push((k0, v0));
            entries.push((k1, v1));
            let t = Tree::Mapping(entries);
            proof {
                assert(entries@.len() == 2);
                assert(entries_view(entries@)[0] == ("op"@, TreeV::Text("remove"@)));
                assert(entries_view(entries@)[1] == ("path"@, TreeV::Text(pointer_of(p.deep_view()))));
                assert(t@ == TreeV::Mapping(entries_view(entries@)));
                assert(op_tree(op@) == TreeV::Mapping(
                    seq![
                        ("op"@, TreeV::Text("remove"@)),
                        ("path"@, TreeV::Text(pointer_of(p.deep_view()))),
                    ],
                ));
                assert(op_tree(op@)->Mapping_0.len() == 2);
                assert(entries_view(entries@).len() == 2);
                assert(t@->Mapping_0 =~~= op_tree(op@)->Mapping_0);
                assert(t@ =~~= op_tree(op@));
            }
            t
        },
        Op::Replace(p, v) => {
            let k0 = String::from_str("op");
            let v0 = Tree::Text(String::from_str("replace"));
            let k1 = String::from_str("path");
            let v1 = Tree::Text(pointer_string(p));
            let k2 = String::from_str("value");
            let v2 = v.deep_copy();
            proof {
                assert(v0@ == TreeV::Text("replace"@));
                assert(v1@ == TreeV::Text(pointer_of(p.deep_view())));
                assert(op@ == OpV::Replace(p.deep_view(), v@));
            }
            let mut entries: Vec<(String, Tree)> = Vec::new();
            entries.push((k0, v0));
            entries.push((k1, v1));
            entries.push((k2, v2));
            let t = Tree::Mapping(entries);
            proof {
                assert(entries_view(entries@)[0] == ("op"@, TreeV::Text("replace"@)));
                assert(entries_view(entries@)[1] == (
                    "path"@,
                    TreeV::Text(pointer_of(p.deep_view())),
                ));
                assert(entries_view(entries@)[2] == ("value"@, v@));
                assert(t@ == TreeV::Mapping(entries_view(entries@)));
                assert(t@->Mapping_0 =~~= op_tree(op@)->Mapping_0);
                assert(t@ =~~= op_tree(op@));
            }
            t
        },
    }
}

/// The operation a wire mapping denotes, if it is well formed.
pub open spec fn op_of_tree(t: TreeV) -> Option<OpV> {
    match t {
        TreeV::Mapping(m) => {
            if !has_key(m, "op"@) || !has_key(m, "path"@) {
                None
            } else {
                match (map_val(m, "op"@), map_val(m, "path"@)) {
                    (TreeV::Text(os), TreeV::Text(ps)) => match parse_ptr(ps) {
                        None => None,
                        Some(p) => {
                            if os == "remove"@ {
                                Some(OpV::Remove(p))
                            } else if (os == "add"@ || os == "replace"@) && has_key(m, "value"@) {
                                if os == "add"@ {
                                    Some(OpV::Add(p, map_val(m, "value"@)))
                                } else {
                                    Some(OpV::Replace(p, map_val(m, "value"@)))
                                }
                            } else {
                                None
                            }
                        },
                    },
                    _ => None,
                }
            }
        },
        _ => None,
    }
}

/// The operations of the wire elements `s[i..]`, if all are well formed.
pub open spec fn ops_of_elems(s: Seq<TreeV>, i: int) -> Option<Seq<OpV>>
    decreases s.len() - i,
{
    if i < 0 || i >= s.len() {
        Some(Seq::empty())
    } else {
        match op_of_tree(s[i]) {
            None => None,
            Some(op) => match ops_of_elems(s, i + 1) {
                None => None,
                Some(rest) => Some(seq![op] + rest),
            },
        }
    }
}

/// The patch a wire tree denotes: a sequence of well-formed operation
/// mappings, or nothing.
pub open spec fn ops_of_tree(t: TreeV) -> Option<Seq<OpV>> {
    match t {
        TreeV::Sequence(s) => ops_of_elems(s, 0),
        _ => None,
    }
}

/// Reads one operation out of a wire mapping.
fn parse_op_tree(t: &Tree) -> (r: Option<Op>)
    ensures
        ({
            let spec = op_of_tree(t@);
            match r {
                Some(op) => spec == Some(op@),
                None => spec is None,
            }
        }),
{
    proof {
        reveal_strlit("op");
        reveal_strlit("path");
        reveal_strlit("value");
        reveal_strlit("add");
        reveal_strlit("remove");
        reveal_strlit("replace");
    }
    match t {
        Tree::Mapping(entries) => {
            let ghost m = entries_view(entries@);
            let op_key = String::from_str("op");
            let path_key = String::from_str("path");
            let value_key = String::from_str("value");
            let oj = match Tree::map_find(entries, &op_key) {
                Some(j) => j,
                None => {
                    return None;
                },
            };
            let pj = match Tree::map_find(entries, &path_key) {
                Some(j) => j,
                None => {
                    return None;
                },
            };
            proof {
                lemma_key_idx(m, "op"@);
                lemma_key_idx(m, "path"@);
                assert(m[oj as int] == (entries@[oj as int].0@, entries@[oj as int].1@));
                assert(m[pj as int] == (entries@[pj as int].0@, entries@[pj as int].1@));
            }
            let os = match &entries[oj].1 {
                Tree::Text(s) => s,
                _ => {
                    return None;
                },
            };
            let ps = match &entries[pj].1 {
                Tree::Text(s) => s,
                _ => {
                    return None;
                },
            };
            let p = match parse_pointer(ps.as_str()) {
                Some(p) => p,
                None => {
                    return None;
                },
            };
            let remove_lit = String::from_str("remove");
            let add_lit = String::from_str("add");
            let replace_lit = String::from_str("replace");
            if os.eq(&remove_lit) {
                return Some(Op::Remove(p));
            }
            if os.eq(&add_lit) || os.eq(&replace_lit) {
                let vj = match Tree::map_find(entries, &value_key) {
                    Some(j) => j,
                    None => {
                        return None;
                    },
                };
                proof {
                    lemma_key_idx(m, "value"@);
                    assert(m[vj as int] == (entries@[vj as int].0@, entries@[vj as int].1@));
                }
                let v = entries[vj].1.deep_copy();
                if os.eq(&add_lit) {
                    return Some(Op::Add(p, v));
                }
                return Some(Op::Replace(p, v));
            }
            None
        },
        _ => None,
    }
}

/// Reads a whole patch out of a wire tree, if it is a well-formed sequence
/// of operation mappings.
#[verifier::loop_isolation(false)]
pub fn parse_patch_tree(t: &Tree) -> (r: Option<Vec<Op>>)
    ensures
        ({
            let spec = ops_of_tree(t@);
            match r {
                Some(ops) => spec == Some(ops.deep_view()),
                None => spec is None,
            }
        }),
{
    match t {
        Tree::Sequence(elems) => {
            let ghost s = elems_view(elems@);
            let mut out: Vec<Op> = Vec::new();
            for i in 0..elems.len()
                invariant
                    out@.len() == i,
                    ops_of_elems(s, 0) == (match ops_of_elems(s, i as int) {
                        Some(rest) => Some(out.deep_view() + rest),
                        None => None::<Seq<OpV>>,
                    }),
                decreases elems@.len() - i,
            {
                proof {
                    assert(s[i as int] == elems@[i as int]@);
                }
                let ghost before = out.deep_view();
                match parse_op_tree(&elems[i]) {
                    Some(op) => {
                        out.push(op);
                        proof {
                            assert(out.deep_view() =~= before.push(op@));
                            assert(ops_of_elems(s, i as int) == (match ops_of_elems(
                                s,
                                i as int + 1,
                            ) {
                                Some(rest) => Some(seq![op@] + rest),
                                None => None::<Seq<OpV>>,
                            }));
                            if ops_of_elems(s, i as int + 1) is Some {
                                let rest = ops_of_elems(s, i as int + 1)->Some_0;
                                assert(before + (seq![op@] + rest) =~= before.push(op@) + rest);
                            }
                        }
                    },
                    None => {
                        return None;
                    },
                }
            }
            proof {
                assert(ops_of_elems(s, elems@.len() as int) == Some(Seq::<OpV>::empty()));
                if ops_of_elems(s, 0) is Some {
                    assert(out.deep_view() + Seq::<OpV>::empty() =~= out.deep_view());
                }
            }
            Some(out)
        },
        _ => None,
    }
}

/// The conflict candidates of a patch: every `Replace`, as its pointer
/// string and new value, in patch order.
pub open spec fn conflicts_of(ops: Seq<OpV>, i: int) -> Seq<(Seq<char>, TreeV)>
    decreases ops.len() - i,
{
    if i < 0 || i >= ops.len() {
        Seq::empty()
    } else {
        let here: Seq<(Seq<char>, TreeV)> = match ops[i] {
            OpV::Replace(p, v) => seq![(pointer_of(p), v)],
            _ => Seq::empty(),
        };
        here + conflicts_of(ops, i + 1)
    }
}

/// Collects the conflict candidates of `ops`: every `Replace`, as its
/// pointer string and new value.
#[verifier::loop_isolation(false)]
pub fn collect_conflicts(ops: &Vec<Op>) -> (r: Vec<(String, Tree)>)
    ensures
        entries_view(r@) == conflicts_of(ops.deep_view(), 0),
{
    let mut out: Vec<(String, Tree)> = Vec::new();
    for i in 0..ops.len()
        invariant
            entries_view(out@) + conflicts_of(ops.deep_view(), i as int) == conflicts_of(
                ops.deep_view(),
                0,
            ),
        decreases ops@.len() - i,
    {
        let ghost before = entries_view(out@);
        proof {
            assert(ops.deep_view()[i as int] == ops@[i as int]@);
        }
        if let Op::Replace(p, v) = &ops[i] {
            let pstr = pointer_string(p);
            let vc = v.deep_copy();
            proof {
                assert(pstr@ == pointer_of(p.deep_view()));
                assert(vc@ == v@);
                assert(ops.deep_view()[i as int] == OpV::Replace(p.deep_view(), v@));
            }
            out.push((pstr, vc));
            proof {
                assert(entries_view(out@)[before.len() as int] == (
                    pointer_of(p.deep_view()),
                    v@,
                ));
            }
        }
        proof {
            let here: Seq<(Seq<char>, TreeV)> = match ops.deep_view()[i as int] {
                OpV::Replace(p, v) => seq![(pointer_of(p), v)],
                _ => Seq::empty(),
            };
            assert(entries_view(out@) =~~= before + here);
            assert(before + (here + conflicts_of(ops.deep_view(), i as int + 1)) =~= (before
                + here) + conflicts_of(ops.deep_view(), i as int + 1));
        }
    }
    proof {
        assert(entries_view(out@) + Seq::<(Seq<char>, TreeV)>::empty() =~= entries_view(out@));
    }
    out
}

/// The wire tree of a conflict report over the candidates `cs`.
pub open spec fn conflict_report_tree(cs: Seq<(Seq<char>, TreeV)>) -> TreeV {
    TreeV::Mapping(
        seq![
            ("has_conflict"@, TreeV::Bool(cs.len() > 0)),
            (
                "conflicts"@,
                TreeV::Sequence(
                    Seq::new(
                        cs.len(),
                        |i: int|
                            TreeV::Mapping(
                                seq![("path"@, TreeV::Text(cs[i].0)), ("value"@, cs[i].1)],
                            ),
                    ),
                ),
            ),
        ],
    )
}

/// Builds the wire tree of a conflict report.
#[verifier::loop_isolation(false)]
pub fn build_conflict_report(cs: &Vec<(String, Tree)>) -> (t: Tree)
    ensures
        t@ == conflict_report_tree(entries_view(cs@)),
{
    proof {
        reveal_strlit("has_conflict");
        reveal_strlit("conflicts");
        reveal_strlit("path");
        reveal_strlit("value");
    }
    let ghost csv = entries_view(cs@);
    let mut items: Vec<Tree> = Vec::new();
    for i in 0..cs.len()
        invariant
            items@.len() == i,
            forall|j: int|
                0 <= j < i ==> items@[j]@ == TreeV::Mapping(
                    seq![("path"@, TreeV::Text(csv[j].0)), ("value"@, csv[j].1)],
                ),
        decreases cs@.len() - i,
    {
        proof {
            assert(csv[i as int] == (cs@[i as int].0@, cs@[i as int].1@));
        }
        let pk = String::from_str("path");
        let pv = Tree::Text(cs[i].0.clone());
        let vk = String::from_str("value");
        let vv = cs[i].1.deep_copy();
        proof {
            assert(pv@ == TreeV::Text(csv[i as int].0));
            assert(vv@ == csv[i as int].1);
        }
        let mut entry: Vec<(String, Tree)> = Vec::new();
        entry.push((pk, pv));
        entry.push((vk, vv));
        let item = Tree::Mapping(entry);
        proof {
            assert(entries_view(entry@)[0] == ("path"@, TreeV::Text(csv[i as int].0)));
            assert(entries_view(entry@)[1] == ("value"@, csv[i as int].1));
            assert(item@ == TreeV::Mapping(entries_view(entry@)));
            assert(item@->Mapping_0 =~~= seq![
                ("path"@, TreeV::Text(csv[i as int].0)),
                ("value"@, csv[i as int].1),
            ]);
            assert(item@ =~~= TreeV::Mapping(
                seq![("path"@, TreeV::Text(csv[i as int].0)), ("value"@, csv[i as int].1)],
            ));
        }
        items.push(item);
    }
    let ghost itemsv = crate::tree::elems_view(items@);
    let conflicts_tree = Tree::Sequence(items);
    proof {
        assert(conflicts_tree@ == TreeV::Sequence(itemsv));
        assert(itemsv =~~= conflict_report_tree(csv)->Mapping_0[1].1->Sequence_0);
    }
    let hk = String::from_str("has_conflict");
    let hv = Tree::Bool(cs.len() > 0);
    let ck = String::from_str("conflicts");
    let mut entries: Vec<(String, Tree)> = Vec::new();
    entries.push((hk, hv));
    entries.push((ck, conflicts_tree));
    let t = Tree::Mapping(entries);
    proof {
        assert(entries_view(entries@)[0] == ("has_conflict"@, TreeV::Bool(csv.len() > 0)));
        assert(entries_view(entries@)[1] == ("conflicts"@, TreeV::Sequence(itemsv)));
        assert(t@ == TreeV::Mapping(entries_view(entries@)));
        assert(t@->Mapping_0 =~~= conflict_report_tree(csv)->Mapping_0);
        assert(t@ =~~= conflict_report_tree(csv));
    }
    t
}


/// An operation whose path renders and reads back unchanged.
pub open spec fn canonical_op(op: OpV) -> bool {
    match op {
        OpV::Add(p, _) => forall|i: int| 0 <= i < p.len() ==> canonical_token(#[trigger] p[i]),
        OpV::Remove(p) => forall|i: int| 0 <= i < p.len() ==> canonical_token(#[trigger] p[i]),
        OpV::Replace(p, _) => forall|i: int|
            0 <= i < p.len() ==> canonical_token(#[trigger] p[i]),
    }
}

/// Reading a built operation mapping yields the operation back.
proof fn lemma_op_tree_round_trip(op: OpV)
    requires
        canonical_op(op),
    ensures
        op_of_tree(op_tree(op)) == Some(op),
{
    reveal_strlit("op");
    reveal_strlit("path");
    reveal_strlit("value");
    reveal_strlit("add");
    reveal_strlit("remove");
    reveal_strlit("replace");
    let t = op_tree(op);
    let m = t->Mapping_0;
    assert(m[0].0 == "op"@);
    assert(m[1].0 == "path"@);
    assert("op"@ != "path"@);
    lemma_key_idx_first(m, "op"@, 0);
    assert(forall|q: int| 0 <= q < 1 ==> #[trigger] m[q].0 != "path"@);
    lemma_key_idx_first(m, "path"@, 1);
    match op {
        OpV::Add(p, v) => {
            lemma_pointer_round_trip(p);
            assert("value"@ != "op"@ && "value"@ != "path"@);
            lemma_key_idx_first(m, "value"@, 2);
            assert("add"@ != "remove"@) by {
                assert("add"@.len() == 3);
                assert("remove"@.len() == 6);
            }
            assert("add"@ != "replace"@) by {
                assert("add"@.len() == 3);
                assert("replace"@.len() == 7);
            }
        },
        OpV::Remove(p) => {
            lemma_pointer_round_trip(p);
            assert("remove"@ != "add"@) by {
                assert("remove"@.len() == 6);
                assert("add"@.len() == 3);
            }
        },
        OpV::Replace(p, v) => {
            lemma_pointer_round_trip(p);
            assert("value"@ != "op"@ && "value"@ != "path"@);
            lemma_key_idx_first(m, "value"@, 2);
            assert("replace"@ != "remove"@) by {
                assert("replace"@[2] == 'p');
                assert("remove"@[2] == 'm');
            }
            assert("replace"@ != "add"@) by {
                assert("replace"@.len() == 7);
                assert("add"@.len() == 3);
            }
        },
    }
}

/// Reading the built wire elements from position `i` yields the remaining
/// operations.
proof fn lemma_patch_elems_round_trip(ops: Seq<OpV>, i: int)
    requires
        0 <= i <= ops.len(),
        forall|j: int| 0 <= j < ops.len() ==> canonical_op(#[trigger] ops[j]),
    ensures
        ops_of_elems(patch_tree(ops)->Sequence_0, i) == Some(ops.skip(i)),
    decreases ops.len() - i,
{
    let s = patch_tree(ops)->Sequence_0;
    if i == ops.len() {
        assert(ops.skip(i) =~= Seq::<OpV>::empty());
    } else {
        assert(s[i] == op_tree(ops[i]));
        lemma_op_tree_round_trip(ops[i]);
        lemma_patch_elems_round_trip(ops, i + 1);
        assert(seq![ops[i]] + ops.skip(i + 1) =~= ops.skip(i));
    }
}

/// Parsing undoes building: the wire tree of a patch whose paths are
/// canonical reads back as the same patch.
pub proof fn lemma_patch_doc_round_trip(ops: Seq<OpV>)
    requires
        forall|j: int| 0 <= j < ops.len() ==> canonical_op(#[trigger] ops[j]),
    ensures
        ops_of_tree(patch_tree(ops)) == Some(ops),
{
    lemma_patch_elems_round_trip(ops, 0);
    assert(ops.skip(0) =~= ops);
}

} // verus!
