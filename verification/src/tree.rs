//! The tree model: a closed sum type over null, booleans, numbers, text,
//! sequences and mappings, together with its mathematical model, its
//! well-formedness invariant, and the structural-equality relation used
//! throughout the diff/patch core.

use vstd::prelude::*;

verus! {

broadcast use vstd::std_specs::vec::axiom_vec_index_decreases, vstd::seq::axiom_seq_index_decreases;

/// Mathematical model of a document tree. Numbers are carried as their
/// canonical decimal rendering, so the model is free of floating point.
#[verifier::ext_equal]
pub enum TreeV {
    Null,
    Bool(bool),
    Number(Seq<char>),
    Text(Seq<char>),
    Sequence(Seq<TreeV>),
    Mapping(Seq<(Seq<char>, TreeV)>),
}

/// One snapshot of a document: null, boolean, number (kept as its decimal
/// rendering), text, ordered sequence, or ordered mapping with string keys.
#[derive(Debug)]
pub enum Tree {
    Null,
    Bool(bool),
    Number(String),
    Text(String),
    Sequence(Vec<Tree>),
    Mapping(Vec<(String, Tree)>),
}

/// Model of the element list of a sequence node.
pub open spec fn elems_view(elems: Seq<Tree>) -> Seq<TreeV>
    decreases elems,
{
    Seq::new(
        elems.len(),
        |i: int|
            if 0 <= i < elems.len() {
                elems[i]@
            } else {
                TreeV::Null
            },
    )
}

/// Model of the entry list of a mapping node.
pub open spec fn entries_view(entries: Seq<(String, Tree)>) -> Seq<(Seq<char>, TreeV)>
    decreases entries,
{
    Seq::new(
        entries.len(),
        |i: int|
            if 0 <= i < entries.len() {
                (entries[i].0@, entries[i].1@)
            } else {
                (Seq::<char>::empty(), TreeV::Null)
            },
    )
}

impl View for Tree {
    type V = TreeV;

    open spec fn view(&self) -> TreeV
        decreases self,
    {
        match self {
            Tree::Null => TreeV::Null,
            Tree::Bool(b) => TreeV::Bool(*b),
            Tree::Number(s) => TreeV::Number(s@),
            Tree::Text(s) => TreeV::Text(s@),
            Tree::Sequence(v) => TreeV::Sequence(elems_view(v@)),
            Tree::Mapping(v) => TreeV::Mapping(entries_view(v@)),
        }
    }
}

impl DeepView for Tree {
    type V = TreeV;

    open spec fn deep_view(&self) -> TreeV {
        self@
    }
}

/// The keys of a mapping level are pairwise distinct.
pub open spec fn keys_unique(m: Seq<(Seq<char>, TreeV)>) -> bool {
    forall|i: int, j: int| 0 <= i < j < m.len() ==> m[i].0 != m[j].0
}

/// Well-formedness of a tree: every mapping level has pairwise-distinct keys.
pub open spec fn wf(t: TreeV) -> bool
    decreases t,
{
    match t {
        TreeV::Sequence(s) => forall|i: int| 0 <= i < s.len() ==> wf(#[trigger] s[i]),
        TreeV::Mapping(m) => keys_unique(m) && forall|i: int|
            0 <= i < m.len() ==> wf(#[trigger] m[i].1),
        _ => true,
    }
}

/// Index of the first entry of `m` whose key is `k`, or -1 when absent.
pub open spec fn key_idx(m: Seq<(Seq<char>, TreeV)>, k: Seq<char>) -> int
    decreases m.len(),
{
    if m.len() == 0 {
        -1
    } else if m[0].0 == k {
        0
    } else {
        let r = key_idx(m.drop_first(), k);
        if r < 0 {
            -1
        } else {
            r + 1
        }
    }
}

pub open spec fn has_key(m: Seq<(Seq<char>, TreeV)>, k: Seq<char>) -> bool {
    key_idx(m, k) >= 0
}

/// Value stored under key `k` (meaningful only when `has_key(m, k)`).
pub open spec fn map_val(m: Seq<(Seq<char>, TreeV)>, k: Seq<char>) -> TreeV {
    m[key_idx(m, k)].1
}

/// `key_idx` points at the first entry carrying its key, when there is one.
pub proof fn lemma_key_idx(m: Seq<(Seq<char>, TreeV)>, k: Seq<char>)
    ensures
        key_idx(m, k) >= 0 ==> key_idx(m, k) < m.len() && m[key_idx(m, k)].0 == k,
        key_idx(m, k) < 0 ==> forall|i: int| 0 <= i < m.len() ==> m[i].0 != k,
        key_idx(m, k) >= 0 ==> forall|i: int| 0 <= i < key_idx(m, k) ==> m[i].0 != k,
    decreases m.len(),
{
    if m.len() > 0 && m[0].0 != k {
        lemma_key_idx(m.drop_first(), k);
        assert forall|i: int| 1 <= i < m.len() implies m.drop_first()[i - 1] == m[i] by {}
        let r = key_idx(m.drop_first(), k);
        if r < 0 {
            assert forall|i: int| 0 <= i < m.len() implies m[i].0 != k by {
                if i >= 1 {
                    assert(m.drop_first()[i - 1].0 != k);
                }
            }
        } else {
            assert forall|i: int| 0 <= i < key_idx(m, k) implies m[i].0 != k by {
                if i >= 1 {
                    assert(m.drop_first()[i - 1].0 != k);
                }
            }
        }
    }
}

/// The first entry carrying key `k` determines `key_idx`.
pub proof fn lemma_key_idx_first(m: Seq<(Seq<char>, TreeV)>, k: Seq<char>, i: int)
    requires
        0 <= i < m.len(),
        m[i].0 == k,
        forall|j: int| 0 <= j < i ==> m[j].0 != k,
    ensures
        key_idx(m, k) == i,
    decreases m.len(),
{
    if m[0].0 != k {
        assert forall|j: int| 1 <= j < m.len() implies m.drop_first()[j - 1] == m[j] by {}
        lemma_key_idx_first(m.drop_first(), k, i - 1);
    }
}

/// Structural equality between two trees: deep, order-sensitive for
/// sequences, and key-set-and-value-sensitive for mappings regardless of the
/// order in which a mapping stores its entries.
pub open spec fn equiv(a: TreeV, b: TreeV) -> bool
    decreases a,
{
    match (a, b) {
        (TreeV::Null, TreeV::Null) => true,
        (TreeV::Bool(x), TreeV::Bool(y)) => x == y,
        (TreeV::Number(x), TreeV::Number(y)) => x == y,
        (TreeV::Text(x), TreeV::Text(y)) => x == y,
        (TreeV::Sequence(x), TreeV::Sequence(y)) => x.len() == y.len() && (forall|i: int|
            0 <= i < x.len() ==> equiv(#[trigger] x[i], y[i])),
        (TreeV::Mapping(x), TreeV::Mapping(y)) => {
            &&& forall|i: int|
                0 <= i < x.len() ==> has_key(y, #[trigger] x[i].0) && equiv(
                    x[i].1,
                    map_val(y, x[i].0),
                )
            &&& forall|i: int| 0 <= i < y.len() ==> has_key(x, #[trigger] y[i].0)
        },
        _ => false,
    }
}

/// On well-formed trees, structural equality is reflexive.
pub proof fn lemma_equiv_reflexive(t: TreeV)
    requires
        wf(t),
    ensures
        equiv(t, t),
    decreases t,
{
    match t {
        TreeV::Sequence(s) => {
            assert forall|i: int| 0 <= i < s.len() implies equiv(#[trigger] s[i], s[i]) by {
                lemma_equiv_reflexive(s[i]);
            }
        },
        TreeV::Mapping(m) => {
            assert forall|i: int|
                0 <= i < m.len() implies has_key(m, #[trigger] m[i].0) && equiv(
                m[i].1,
                map_val(m, m[i].0),
            ) by {
                lemma_key_idx(m, m[i].0);
                let j = key_idx(m, m[i].0);
                assert(j >= 0) by {
                    if j < 0 {
                        assert(m[i].0 != m[i].0);
                    }
                }
                assert(j == i) by {
                    if j < i {
                        assert(m[j].0 == m[i].0);
                    }
                }
                lemma_equiv_reflexive(m[i].1);
            }
        },
        _ => {},
    }
}

impl Tree {
    /// Deep structural equality, insensitive to the storage order of mapping
    /// entries.
    #[verifier::loop_isolation(false)]
    pub fn deep_eq(&self, other: &Tree) -> (r: bool)
        ensures
            r == equiv(self@, other@),
        decreases self,
    {
        match (self, other) {
            (Tree::Null, Tree::Null) => true,
            (Tree::Bool(x), Tree::Bool(y)) => x == y,
            (Tree::Number(x), Tree::Number(y)) => x.eq(y),
            (Tree::Text(x), Tree::Text(y)) => x.eq(y),
            (Tree::Sequence(x), Tree::Sequence(y)) => {
                let ghost xs = elems_view(x@);
                let ghost ys = elems_view(y@);
                if x.len() != y.len() {
                    return false;
                }
                for i in 0..x.len()
                    invariant
                        forall|j: int| 0 <= j < i ==> equiv(#[trigger] xs[j], ys[j]),
                    decreases x@.len() - i,
                {
                    if !x[i].deep_eq(&y[i]) {
                        proof {
                            assert(!equiv(xs[i as int], ys[i as int]));
                        }
                        return false;
                    }
                }
                true
            },
            (Tree::Mapping(x), Tree::Mapping(y)) => {
                let ghost xs = entries_view(x@);
                let ghost ys = entries_view(y@);
                for i in 0..x.len()
                    invariant
                        forall|j: int|
                            0 <= j < i ==> has_key(ys, #[trigger] xs[j].0) && equiv(
                                xs[j].1,
                                map_val(ys, xs[j].0),
                            ),
                    decreases x@.len() - i,
                {
                    proof {
                        lemma_key_idx(ys, xs[i as int].0);
                    }
                    match Self::map_find(y, &x[i].0) {
                        Some(j) => {
                            if !x[i].1.deep_eq(&y[j].1) {
                                proof {
                                    assert(map_val(ys, xs[i as int].0) == ys[j as int].1);
                                    assert(!equiv(xs[i as int].1, map_val(ys, xs[i as int].0)));
                                }
                                return false;
                            }
                        },
                        None => {
                            proof {
                                assert(!has_key(ys, xs[i as int].0));
                            }
                            return false;
                        },
                    }
                }
                for i in 0..y.len()
                    invariant
                        forall|j: int|
                            0 <= j < xs.len() ==> has_key(ys, #[trigger] xs[j].0) && equiv(
                                xs[j].1,
                                map_val(ys, xs[j].0),
                            ),
                        forall|j: int| 0 <= j < i ==> has_key(xs, #[trigger] ys[j].0),
                    decreases y@.len() - i,
                {
                    if Self::map_find(x, &y[i].0).is_none() {
                        proof {
                            assert(!has_key(xs, ys[i as int].0));
                        }
                        return false;
                    }
                }
                true
            },
            _ => {
                assert(!equiv(self@, other@));
                false
            },
        }
    }

    /// Index of the first entry with key `k` in a mapping's entry list.
    #[verifier::loop_isolation(false)]
    pub fn map_find(entries: &Vec<(String, Tree)>, k: &String) -> (r: Option<usize>)
        ensures
            match r {
                Some(j) => key_idx(entries_view(entries@), k@) == j,
                None => key_idx(entries_view(entries@), k@) < 0,
            },
    {
        let ghost m = entries_view(entries@);
        for i in 0..entries.len()
            invariant
                forall|j: int| 0 <= j < i ==> m[j].0 != k@,
            decreases entries@.len() - i,
        {
            if entries[i].0.eq(k) {
                proof {
                    lemma_key_idx_first(m, k@, i as int);
                }
                return Some(i);
            }
        }
        proof {
            lemma_key_idx(m, k@);
            if key_idx(m, k@) >= 0 {
                assert(m[key_idx(m, k@)].0 == k@);
            }
        }
        None
    }

    /// A structurally identical copy of the tree.
    #[verifier::loop_isolation(false)]
    pub fn deep_copy(&self) -> (r: Tree)
        ensures
            r@ == self@,
        decreases self,
    {
        match self {
            Tree::Null => Tree::Null,
            Tree::Bool(b) => Tree::Bool(*b),
            Tree::Number(s) => Tree::Number(s.clone()),
            Tree::Text(s) => Tree::Text(s.clone()),
            Tree::Sequence(v) => {
                let mut out: Vec<Tree> = Vec::new();
                for i in 0..v.len()
                    invariant
                        out@.len() == i,
                        forall|j: int| 0 <= j < i ==> out@[j]@ == v@[j]@,
                    decreases v@.len() - i,
                {
                    out.push(v[i].deep_copy());
                }
                let r = Tree::Sequence(out);
                proof {
                    assert(r@->Sequence_0 =~= self@->Sequence_0);
                    assert(r@ =~= self@);
                }
                r
            },
            Tree::Mapping(v) => {
                let mut out: Vec<(String, Tree)> = Vec::new();
                for i in 0..v.len()
                    invariant
                        out@.len() == i,
                        forall|j: int|
                            0 <= j < i ==> out@[j].0@ == v@[j].0@ && out@[j].1@ == v@[j].1@,
                    decreases v@.len() - i,
                {
                    out.push((v[i].0.clone(), v[i].1.deep_copy()));
                }
                let r = Tree::Mapping(out);
                proof {
                    assert(r@->Mapping_0 =~= self@->Mapping_0);
                    assert(r@ =~= self@);
                }
                r
            },
        }
    }
}

} // verus!
