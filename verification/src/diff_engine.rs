//! The diff engine: a structural, deterministic (non-minimal) difference
//! between two trees, as an ordered operation sequence transforming the
//! base into the target. Mapping keys are visited in target order, then the
//! removed base keys in base order; sequences are compared position-wise,
//! with trailing additions at increasing indices and trailing removals in
//! descending index order, so earlier removals never shift later ones.

use vstd::prelude::*;

use crate::patch::Op;
use crate::patch::OpV;
use crate::path::Token;
use crate::path::TokenV;
use crate::tree::Tree;
use crate::tree::TreeV;
use crate::tree::entries_view;
use crate::tree::elems_view;
use crate::tree::equiv;
use crate::tree::has_key;
use crate::tree::key_idx;
use crate::tree::lemma_key_idx;
use crate::tree::map_val;

verus! {

broadcast use vstd::std_specs::vec::axiom_vec_index_decreases, vstd::seq::axiom_seq_index_decreases;

/// The operation with one more leading path token.
pub open spec fn prefix_op(tok: TokenV, op: OpV) -> OpV {
    match op {
        OpV::Add(p, v) => OpV::Add(seq![tok] + p, v),
        OpV::Remove(p) => OpV::Remove(seq![tok] + p),
        OpV::Replace(p, v) => OpV::Replace(seq![tok] + p, v),
    }
}

/// All operations of `ops` with one more leading path token.
pub open spec fn prefix_ops(tok: TokenV, ops: Seq<OpV>) -> Seq<OpV> {
    Seq::new(ops.len(), |i: int| prefix_op(tok, ops[i]))
}

/// The operation sequence turning `a` into `b`: empty when they are equal,
/// recursion per key for two mappings, position-wise recursion plus
/// trailing additions or descending removals for two sequences, and a
/// single root replacement otherwise. Diffing is total: it never fails.
pub open spec fn diff_spec(a: TreeV, b: TreeV) -> Seq<OpV>
    decreases b, 0int, 0int,
{
    if equiv(a, b) {
        Seq::empty()
    } else {
        match (a, b) {
            (TreeV::Mapping(x), TreeV::Mapping(y)) => diff_map_updates(x, y, 0)
                + diff_map_removes(x, y, 0),
            (TreeV::Sequence(x), TreeV::Sequence(y)) => diff_seq_common(x, y, 0) + seq_tail_ops(
                x,
                y,
            ),
            _ => seq![OpV::Replace(Seq::empty(), b)],
        }
    }
}

/// Per-key operations for the keys of `y` from index `i` on, in `y` order:
/// recursion under keys `x` also holds, an addition for fresh keys.
pub open spec fn diff_map_updates(
    x: Seq<(Seq<char>, TreeV)>,
    y: Seq<(Seq<char>, TreeV)>,
    i: int,
) -> Seq<OpV>
    decreases y, 1int, y.len() - i,
{
    if i < 0 || i >= y.len() {
        Seq::empty()
    } else {
        let k = y[i].0;
        let here = if has_key(x, k) {
            prefix_ops(TokenV::Key(k), diff_spec(map_val(x, k), y[i].1))
        } else {
            seq![OpV::Add(seq![TokenV::Key(k)], y[i].1)]
        };
        here + diff_map_updates(x, y, i + 1)
    }
}

/// Removals for the keys of `x` absent from `y`, from index `i` on, in `x`
/// order.
pub open spec fn diff_map_removes(
    x: Seq<(Seq<char>, TreeV)>,
    y: Seq<(Seq<char>, TreeV)>,
    i: int,
) -> Seq<OpV>
    decreases x.len() - i,
{
    if i < 0 || i >= x.len() {
        Seq::empty()
    } else {
        let here: Seq<OpV> = if has_key(y, x[i].0) {
            Seq::empty()
        } else {
            seq![OpV::Remove(seq![TokenV::Key(x[i].0)])]
        };
        here + diff_map_removes(x, y, i + 1)
    }
}

/// Position-wise operations over the indices both sequences share, from
/// index `i` on.
pub open spec fn diff_seq_common(x: Seq<TreeV>, y: Seq<TreeV>, i: int) -> Seq<OpV>
    decreases y, 1int, y.len() - i,
{
    if i < 0 || i >= x.len() || i >= y.len() {
        Seq::empty()
    } else {
        prefix_ops(TokenV::Index(i), diff_spec(x[i], y[i])) + diff_seq_common(x, y, i + 1)
    }
}

/// Additions of the trailing elements of `y` from index `i` on, at
/// increasing indices (each lands one past the end when applied in order).
pub open spec fn seq_adds(y: Seq<TreeV>, i: int) -> Seq<OpV>
    decreases y.len() - i,
{
    if i < 0 || i >= y.len() {
        Seq::empty()
    } else {
        seq![OpV::Add(seq![TokenV::Index(i)], y[i])] + seq_adds(y, i + 1)
    }
}

/// Removals of the trailing positions `to..from`, in descending index
/// order, so earlier removals do not shift later ones.
pub open spec fn seq_removes(from: int, to: int) -> Seq<OpV>
    decreases from - to,
{
    if from <= to {
        Seq::empty()
    } else {
        seq![OpV::Remove(seq![TokenV::Index(from - 1)])] + seq_removes(from - 1, to)
    }
}

/// Trailing operations after the shared indices of two sequences.
pub open spec fn seq_tail_ops(x: Seq<TreeV>, y: Seq<TreeV>) -> Seq<OpV> {
    if y.len() > x.len() {
        seq_adds(y, x.len() as int)
    } else {
        seq_removes(x.len() as int, y.len() as int)
    }
}

/// The path `[tok] + p`, as fresh tokens.
#[verifier::loop_isolation(false)]
fn cons_token(tok: &Token, p: &Vec<Token>) -> (np: Vec<Token>)
    ensures
        np.deep_view() == seq![tok@] + p.deep_view(),
{
    let mut np: Vec<Token> = Vec::new();
    np.push(tok.dup());
    for i in 0..p.len()
        invariant
            np@.len() == i + 1,
            np@[0]@ == tok@,
            forall|j: int| 0 <= j < i ==> np@[j + 1]@ == p@[j]@,
        decreases p@.len() - i,
    {
        np.push(p[i].dup());
    }
    proof {
        assert(np.deep_view() =~= seq![tok@] + p.deep_view());
    }
    np
}

/// Appends every operation of `ops` to `out`, each with `tok` prefixed to
/// its path.
#[verifier::loop_isolation(false)]
fn push_prefixed(out: &mut Vec<Op>, tok: &Token, ops: &Vec<Op>)
    ensures
        final(out).deep_view() == old(out).deep_view() + prefix_ops(tok@, ops.deep_view()),
{
    for i in 0..ops.len()
        invariant
            out.deep_view() == old(out).deep_view() + prefix_ops(
                tok@,
                ops.deep_view().take(i as int),
            ),
        decreases ops@.len() - i,
    {
        let nop = match &ops[i] {
            Op::Add(p, v) => Op::Add(cons_token(tok, p), v.deep_copy()),
            Op::Remove(p) => Op::Remove(cons_token(tok, p)),
            Op::Replace(p, v) => Op::Replace(cons_token(tok, p), v.deep_copy()),
        };
        proof {
            assert(ops.deep_view()[i as int] == ops@[i as int]@);
            assert(nop@ == prefix_op(tok@, ops.deep_view()[i as int]));
        }
        let ghost pre = out.deep_view();
        out.push(nop);
        proof {
            let s = ops.deep_view();
            assert(s.take(i as int + 1).drop_last() =~= s.take(i as int));
            assert(prefix_ops(tok@, s.take(i as int + 1)) =~= prefix_ops(tok@, s.take(i as int)).push(
                prefix_op(tok@, s[i as int]),
            ));
            assert(out.deep_view() =~= pre.push(nop@));
            assert(old(out).deep_view() + prefix_ops(tok@, s.take(i as int)).push(nop@) =~= (old(
                out,
            ).deep_view() + prefix_ops(tok@, s.take(i as int))).push(nop@));
        }
    }
    proof {
        assert(ops.deep_view().take(ops@.len() as int) =~= ops.deep_view());
    }
}

/// Per-key operations between two mapping entry lists: target keys in
/// target order, then removals of the base keys absent from the target.
#[verifier::loop_isolation(false)]
fn diff_map_part(x: &Vec<(String, Tree)>, y: &Vec<(String, Tree)>) -> (r: Vec<Op>)
    ensures
        r.deep_view() == diff_map_updates(entries_view(x@), entries_view(y@), 0)
            + diff_map_removes(entries_view(x@), entries_view(y@), 0),
    decreases y@, 1int,
{
    let ghost xv = entries_view(x@);
    let ghost yv = entries_view(y@);
    let mut out: Vec<Op> = Vec::new();
    for i in 0..y.len()
        invariant
            out.deep_view() + diff_map_updates(xv, yv, i as int) == diff_map_updates(xv, yv, 0),
        decreases y@.len() - i,
    {
        let ghost before = out.deep_view();
        proof {
            assert(yv[i as int] == (y@[i as int].0@, y@[i as int].1@));
        }
        match Tree::map_find(x, &y[i].0) {
            Some(j) => {
                proof {
                    lemma_key_idx(xv, yv[i as int].0);
                    assert(xv[j as int] == (x@[j as int].0@, x@[j as int].1@));
                }
                let child = diff(&x[j].1, &y[i].1);
                let tok = Token::Key(y[i].0.clone());
                push_prefixed(&mut out, &tok, &child);
            },
            None => {
                let mut p: Vec<Token> = Vec::new();
                p.push(Token::Key(y[i].0.clone()));
                let nop = Op::Add(p, y[i].1.deep_copy());
                proof {
                    assert(nop@ == OpV::Add(seq![TokenV::Key(yv[i as int].0)], yv[i as int].1))
                        by {
                        assert(nop->Add_0.deep_view() =~= seq![TokenV::Key(yv[i as int].0)]);
                    }
                }
                out.push(nop);
            },
        }
        proof {
            let here = if has_key(xv, yv[i as int].0) {
                prefix_ops(
                    TokenV::Key(yv[i as int].0),
                    diff_spec(map_val(xv, yv[i as int].0), yv[i as int].1),
                )
            } else {
                seq![OpV::Add(seq![TokenV::Key(yv[i as int].0)], yv[i as int].1)]
            };
            assert(out.deep_view() =~= before + here);
            assert(diff_map_updates(xv, yv, i as int) == here + diff_map_updates(
                xv,
                yv,
                i as int + 1,
            ));
            assert(before + (here + diff_map_updates(xv, yv, i as int + 1)) =~= (before + here)
                + diff_map_updates(xv, yv, i as int + 1));
        }
    }
    for i in 0..x.len()
        invariant
            out.deep_view() + diff_map_removes(xv, yv, i as int) == diff_map_updates(xv, yv, 0)
                + diff_map_removes(xv, yv, 0),
        decreases x@.len() - i,
    {
        let ghost before = out.deep_view();
        proof {
            assert(xv[i as int] == (x@[i as int].0@, x@[i as int].1@));
        }
        if Tree::map_find(y, &x[i].0).is_none() {
            let mut p: Vec<Token> = Vec::new();
            p.push(Token::Key(x[i].0.clone()));
            let nop = Op::Remove(p);
            proof {
                assert(nop@ == OpV::Remove(seq![TokenV::Key(xv[i as int].0)])) by {
                    assert(nop->Remove_0.deep_view() =~= seq![TokenV::Key(xv[i as int].0)]);
                }
            }
            out.push(nop);
        }
        proof {
            let here: Seq<OpV> = if has_key(yv, xv[i as int].0) {
                Seq::empty()
            } else {
                seq![OpV::Remove(seq![TokenV::Key(xv[i as int].0)])]
            };
            assert(out.deep_view() =~= before + here);
            assert(diff_map_removes(xv, yv, i as int) == here + diff_map_removes(
                xv,
                yv,
                i as int + 1,
            ));
            assert(before + (here + diff_map_removes(xv, yv, i as int + 1)) =~= (before + here)
                + diff_map_removes(xv, yv, i as int + 1));
        }
    }
    proof {
        assert(out.deep_view() + Seq::<OpV>::empty() =~= out.deep_view());
    }
    out
}

/// Position-wise operations between two element lists, with trailing
/// additions or descending removals.
#[verifier::loop_isolation(false)]
fn diff_seq_part(x: &Vec<Tree>, y: &Vec<Tree>) -> (r: Vec<Op>)
    ensures
        r.deep_view() == diff_seq_common(elems_view(x@), elems_view(y@), 0) + seq_tail_ops(
            elems_view(x@),
            elems_view(y@),
        ),
    decreases y@, 1int,
{
    let ghost xv = elems_view(x@);
    let ghost yv = elems_view(y@);
    let mut out: Vec<Op> = Vec::new();
    let min = if x.len() < y.len() {
        x.len()
    } else {
        y.len()
    };
    for i in 0..min
        invariant
            min <= x@.len() && min <= y@.len(),
            out.deep_view() + diff_seq_common(xv, yv, i as int) == diff_seq_common(xv, yv, 0),
        decreases min - i,
    {
        let ghost before = out.deep_view();
        proof {
            assert(xv[i as int] == x@[i as int]@);
            assert(yv[i as int] == y@[i as int]@);
        }
        let child = diff(&x[i], &y[i]);
        let tok = Token::Index(i);
        push_prefixed(&mut out, &tok, &child);
        proof {
            let here = prefix_ops(TokenV::Index(i as int), diff_spec(xv[i as int], yv[i as int]));
            assert(out.deep_view() =~= before + here);
            assert(diff_seq_common(xv, yv, i as int) == here + diff_seq_common(
                xv,
                yv,
                i as int + 1,
            ));
            assert(before + (here + diff_seq_common(xv, yv, i as int + 1)) =~= (before + here)
                + diff_seq_common(xv, yv, i as int + 1));
        }
    }
    proof {
        assert(diff_seq_common(xv, yv, min as int) =~= Seq::<OpV>::empty());
        assert(out.deep_view() + Seq::<OpV>::empty() =~= out.deep_view());
    }
    if y.len() > x.len() {
        let mut i = x.len();
        while i < y.len()
            invariant
                x@.len() <= i <= y@.len(),
                out.deep_view() + seq_adds(yv, i as int) == diff_seq_common(xv, yv, 0) + seq_adds(
                    yv,
                    x@.len() as int,
                ),
            decreases y@.len() - i,
        {
            let ghost before = out.deep_view();
            proof {
                assert(yv[i as int] == y@[i as int]@);
            }
            let mut p: Vec<Token> = Vec::new();
            p.push(Token::Index(i));
            let nop = Op::Add(p, y[i].deep_copy());
            proof {
                assert(nop@ == OpV::Add(seq![TokenV::Index(i as int)], yv[i as int])) by {
                    assert(nop->Add_0.deep_view() =~= seq![TokenV::Index(i as int)]);
                }
            }
            out.push(nop);
            proof {
                let here = seq![OpV::Add(seq![TokenV::Index(i as int)], yv[i as int])];
                assert(out.deep_view() =~= before + here);
                assert(seq_adds(yv, i as int) == here + seq_adds(yv, i as int + 1));
                assert(before + (here + seq_adds(yv, i as int + 1)) =~= (before + here) + seq_adds(
                    yv,
                    i as int + 1,
                ));
            }
            i = i + 1;
        }
        proof {
            assert(seq_adds(yv, y@.len() as int) =~= Seq::<OpV>::empty());
            assert(out.deep_view() + Seq::<OpV>::empty() =~= out.deep_view());
        }
    } else {
        let mut i = x.len();
        while i > y.len()
            invariant
                y@.len() <= i <= x@.len(),
                out.deep_view() + seq_removes(i as int, y@.len() as int) == diff_seq_common(
                    xv,
                    yv,
                    0,
                ) + seq_removes(x@.len() as int, y@.len() as int),
            decreases i,
        {
            let ghost before = out.deep_view();
            let j = i - 1;
            let mut p: Vec<Token> = Vec::new();
            p.push(Token::Index(j));
            let nop = Op::Remove(p);
            proof {
                assert(nop@ == OpV::Remove(seq![TokenV::Index(j as int)])) by {
                    assert(nop->Remove_0.deep_view() =~= seq![TokenV::Index(j as int)]);
                }
            }
            out.push(nop);
            proof {
                let here = seq![OpV::Remove(seq![TokenV::Index(j as int)])];
                assert(out.deep_view() =~= before + here);
                assert(seq_removes(i as int, y@.len() as int) == here + seq_removes(
                    j as int,
                    y@.len() as int,
                ));
                assert(before + (here + seq_removes(j as int, y@.len() as int)) =~= (before + here)
                    + seq_removes(j as int, y@.len() as int));
            }
            i = j;
        }
        proof {
            assert(seq_removes(y@.len() as int, y@.len() as int) =~= Seq::<OpV>::empty());
            assert(out.deep_view() + Seq::<OpV>::empty() =~= out.deep_view());
        }
    }
    out
}

/// Computes the ordered operation sequence turning `base` into `target`.
/// Diffing is total: structurally equal trees give the empty patch, and
/// incomparable structures degrade to a root-level replacement.
pub fn diff(base: &Tree, target: &Tree) -> (r: Vec<Op>)
    ensures
        r.deep_view() == diff_spec(base@, target@),
    decreases target, 0int,
{
    if base.deep_eq(target) {
        let r: Vec<Op> = Vec::new();
        proof {
            assert(r.deep_view() =~= diff_spec(base@, target@));
        }
        return r;
    }
    match (base, target) {
        (Tree::Mapping(x), Tree::Mapping(y)) => diff_map_part(x, y),
        (Tree::Sequence(x), Tree::Sequence(y)) => diff_seq_part(x, y),
        _ => {
            let mut out: Vec<Op> = Vec::new();
            let p: Vec<Token> = Vec::new();
            let nop = Op::Replace(p, target.deep_copy());
            proof {
                assert(nop@ == OpV::Replace(Seq::<TokenV>::empty(), target@)) by {
                    assert(nop->Replace_0.deep_view() =~= Seq::<TokenV>::empty());
                }
            }
            out.push(nop);
            proof {
                assert(out.deep_view() =~= seq![OpV::Replace(Seq::<TokenV>::empty(), target@)]);
            }
            out
        },
    }
}

} // verus!
