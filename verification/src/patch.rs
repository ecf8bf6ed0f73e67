//! Edit operations and the patch applier: a patch is an ordered sequence of
//! `Add` / `Remove` / `Replace` steps; applying one executes the steps
//! strictly in order against a working copy and reports the first failure,
//! leaving the caller's tree untouched in every case.

use vstd::prelude::*;

use crate::path::PathError;
use crate::path::Token;
use crate::path::TokenV;
use crate::resolver::delete_spec;
use crate::resolver::insert_spec;
use crate::resolver::set_spec;
use crate::resolver::delete;
use crate::resolver::insert;
use crate::tree::Tree;
use crate::tree::TreeV;

verus! {

broadcast use vstd::std_specs::vec::axiom_vec_index_decreases, vstd::seq::axiom_seq_index_decreases;

/// One edit operation, addressed by a token path.
#[derive(Debug)]
pub enum Op {
    /// Insert a value, creating missing intermediate mappings.
    Add(Vec<Token>, Tree),
    /// Remove the addressed node, which must exist.
    Remove(Vec<Token>),
    /// Replace the addressed node.
    Replace(Vec<Token>, Tree),
}

/// Mathematical model of an edit operation.
#[verifier::ext_equal]
pub enum OpV {
    Add(Seq<TokenV>, TreeV),
    Remove(Seq<TokenV>),
    Replace(Seq<TokenV>, TreeV),
}

impl View for Op {
    type V = OpV;

    open spec fn view(&self) -> OpV {
        match self {
            Op::Add(p, v) => OpV::Add(p.deep_view(), v@),
            Op::Remove(p) => OpV::Remove(p.deep_view()),
            Op::Replace(p, v) => OpV::Replace(p.deep_view(), v@),
        }
    }
}

impl DeepView for Op {
    type V = OpV;

    open spec fn deep_view(&self) -> OpV {
        self@
    }
}

/// What one operation does to a tree.
pub open spec fn apply_op_spec(t: TreeV, op: OpV) -> Result<TreeV, PathError> {
    match op {
        OpV::Add(p, v) => insert_spec(t, p, v),
        OpV::Remove(p) => delete_spec(t, p),
        OpV::Replace(p, v) => set_spec(t, p, v),
    }
}

/// Sequential application of `ops[i..]`, stopping at the first failure,
/// whose absolute index and error are reported.
pub open spec fn apply_from(t: TreeV, ops: Seq<OpV>, i: int) -> Result<TreeV, (int, PathError)>
    decreases ops.len() - i,
{
    if i < 0 || i >= ops.len() {
        Ok(t)
    } else {
        match apply_op_spec(t, ops[i]) {
            Ok(t2) => apply_from(t2, ops, i + 1),
            Err(e) => Err((i, e)),
        }
    }
}

/// What applying a whole patch yields: the edited tree, or the index of the
/// first failing operation together with its addressing error.
pub open spec fn apply_ops_spec(t: TreeV, ops: Seq<OpV>) -> Result<TreeV, (int, PathError)> {
    apply_from(t, ops, 0)
}

/// A failed patch application: the index of the first failing operation and
/// the addressing error it hit.
#[derive(PartialEq, Eq, Structural, Clone, Copy, Debug)]
pub struct ApplyError {
    pub index: usize,
    pub error: PathError,
}

impl Op {
    /// A structurally identical copy of the operation.
    #[verifier::loop_isolation(false)]
    pub fn dup(&self) -> (r: Op)
        ensures
            r@ == self@,
    {
        match self {
            Op::Add(p, v) => Op::Add(Self::dup_path(p), v.deep_copy()),
            Op::Remove(p) => Op::Remove(Self::dup_path(p)),
            Op::Replace(p, v) => Op::Replace(Self::dup_path(p), v.deep_copy()),
        }
    }

    /// A structurally identical copy of a path.
    #[verifier::loop_isolation(false)]
    pub fn dup_path(p: &Vec<Token>) -> (r: Vec<Token>)
        ensures
            r.deep_view() == p.deep_view(),
    {
        let mut out: Vec<Token> = Vec::new();
        for i in 0..p.len()
            invariant
                out@.len() == i,
                forall|j: int| 0 <= j < i ==> out@[j]@ == p@[j]@,
            decreases p@.len() - i,
        {
            out.push(p[i].dup());
        }
        proof {
            assert(out.deep_view() =~= p.deep_view());
        }
        out
    }
}

/// Applies `ops` to (a working copy of) `tree`, strictly in order; the
/// first failing operation aborts the whole patch and is reported, and the
/// caller's tree is never touched, so no partial edit is ever observable.
#[verifier::loop_isolation(false)]
pub fn apply(tree: &Tree, ops: &Vec<Op>) -> (r: Result<Tree, ApplyError>)
    ensures
        match r {
            Ok(out) => apply_ops_spec(tree@, ops.deep_view()) == Ok::<TreeV, (int, PathError)>(
                out@,
            ),
            Err(e) => apply_ops_spec(tree@, ops.deep_view()) == Err::<TreeV, (int, PathError)>(
                (e.index as int, e.error),
            ),
        },
{
    let ghost opsv = ops.deep_view();
    let mut cur = tree.deep_copy();
    for i in 0..ops.len()
        invariant
            apply_from(tree@, opsv, 0) == apply_from(cur@, opsv, i as int),
        decreases ops@.len() - i,
    {
        proof {
            assert(opsv[i as int] == ops@[i as int]@);
        }
        let step = match &ops[i] {
            Op::Add(p, v) => insert(&cur, p, v.deep_copy()),
            Op::Remove(p) => delete(&cur, p),
            Op::Replace(p, v) => crate::resolver::set(&cur, p, v.deep_copy()),
        };
        match step {
            Ok(next) => {
                cur = next;
            },
            Err(e) => {
                return Err(ApplyError { index: i, error: e });
            },
        }
    }
    Ok(cur)
}

} // verus!
