//! The laws of the diff/patch core, proved over the spec functions that the
//! contracts of `diff` and `apply` state: diffing a tree against itself
//! yields the empty patch, and applying `diff(a, b)` to `a` yields a tree
//! structurally equal to `b`.

use vstd::prelude::*;

use crate::diff_engine::diff_map_removes;
use crate::diff_engine::diff_map_updates;
use crate::diff_engine::diff_seq_common;
use crate::diff_engine::diff_spec;
use crate::diff_engine::prefix_op;
use crate::diff_engine::prefix_ops;
use crate::diff_engine::seq_adds;
use crate::diff_engine::seq_removes;
use crate::diff_engine::seq_tail_ops;
use crate::patch::OpV;
use crate::patch::apply_from;
use crate::patch::apply_op_spec;
use crate::patch::apply_ops_spec;
use crate::path::PathError;
use crate::path::TokenV;
use crate::resolver::map_set;
use crate::resolver::tok_key;
use crate::resolver::tok_seq_addr;
use crate::resolver::SeqAddr;
use crate::tree::TreeV;
use crate::tree::equiv;
use crate::tree::has_key;
use crate::tree::key_idx;
use crate::tree::keys_unique;
use crate::tree::lemma_equiv_reflexive;
use crate::tree::lemma_key_idx;
use crate::tree::lemma_key_idx_first;
use crate::tree::map_val;
use crate::tree::wf;

verus! {

/// Every `Add` operation of `ops` carries a non-empty path.
pub open spec fn adds_nonempty(ops: Seq<OpV>) -> bool {
    forall|i: int|
        0 <= i < ops.len() ==> match #[trigger] ops[i] {
            OpV::Add(p, _) => p.len() >= 1,
            _ => true,
        }
}

/// Applying from position `i` is applying the suffix from its start.
proof fn lemma_apply_from_skip(t: TreeV, ops: Seq<OpV>, i: int, r: TreeV)
    requires
        0 <= i <= ops.len(),
    ensures
        (apply_from(t, ops, i) == Ok::<TreeV, (int, PathError)>(r)) <==> (apply_from(
            t,
            ops.skip(i),
            0,
        ) == Ok::<TreeV, (int, PathError)>(r)),
    decreases ops.len() - i,
{
    if i < ops.len() {
        assert(ops.skip(i)[0] == ops[i]);
        match apply_op_spec(t, ops[i]) {
            Ok(t2) => {
                lemma_apply_from_skip(t2, ops, i + 1, r);
                assert(ops.skip(i + 1) =~= ops.skip(i).skip(1));
                lemma_apply_from_skip(t2, ops.skip(i), 1, r);
            },
            Err(_) => {},
        }
    } else {
        assert(ops.skip(i) =~= Seq::<OpV>::empty());
    }
}

/// Successful application distributes over concatenation.
proof fn lemma_apply_append(t: TreeV, ops1: Seq<OpV>, ops2: Seq<OpV>, m: TreeV, r: TreeV)
    requires
        apply_ops_spec(t, ops1) == Ok::<TreeV, (int, PathError)>(m),
        apply_ops_spec(m, ops2) == Ok::<TreeV, (int, PathError)>(r),
    ensures
        apply_ops_spec(t, ops1 + ops2) == Ok::<TreeV, (int, PathError)>(r),
    decreases ops1.len(),
{
    if ops1.len() == 0 {
        assert(t == m);
        assert(ops1 + ops2 =~= ops2);
    } else {
        assert((ops1 + ops2)[0] == ops1[0]);
        match apply_op_spec(t, ops1[0]) {
            Ok(t1) => {
                lemma_apply_from_skip(t1, ops1, 1, m);
                assert(ops1.skip(1) =~= ops1.drop_first());
                lemma_apply_append(t1, ops1.drop_first(), ops2, m, r);
                assert(ops1.drop_first() + ops2 =~= (ops1 + ops2).skip(1));
                lemma_apply_from_skip(t1, ops1 + ops2, 1, r);
            },
            Err(_) => {
                assert(false);
            },
        }
    }
}

/// `key_idx` only reads keys: lists with the same keys agree on it.
proof fn lemma_key_idx_same_keys(
    m1: Seq<(Seq<char>, TreeV)>,
    m2: Seq<(Seq<char>, TreeV)>,
    k: Seq<char>,
)
    requires
        m1.len() == m2.len(),
        forall|i: int| 0 <= i < m1.len() ==> m1[i].0 == m2[i].0,
    ensures
        key_idx(m1, k) == key_idx(m2, k),
    decreases m1.len(),
{
    if m1.len() > 0 && m1[0].0 != k {
        assert(forall|i: int|
            0 <= i < m1.len() - 1 ==> #[trigger] m1.drop_first()[i].0 == m2.drop_first()[i].0);
        lemma_key_idx_same_keys(m1.drop_first(), m2.drop_first(), k);
    }
}

/// How `key_idx` and `map_val` change under appending one entry.
proof fn lemma_key_idx_push(m: Seq<(Seq<char>, TreeV)>, e: (Seq<char>, TreeV), k: Seq<char>)
    ensures
        has_key(m, k) ==> key_idx(m.push(e), k) == key_idx(m, k) && map_val(m.push(e), k)
            == map_val(m, k),
        !has_key(m, k) && e.0 == k ==> key_idx(m.push(e), k) == m.len(),
        !has_key(m, k) && e.0 != k ==> !has_key(m.push(e), k),
{
    lemma_key_idx(m, k);
    lemma_key_idx(m.push(e), k);
    if has_key(m, k) {
        let j = key_idx(m, k);
        assert(m.push(e)[j] == m[j]);
        assert(forall|q: int| 0 <= q < j ==> #[trigger] m.push(e)[q] == m[q]);
        lemma_key_idx_first(m.push(e), k, j);
    } else if e.0 == k {
        assert(m.push(e)[m.len() as int] == e);
        assert(forall|q: int| 0 <= q < m.len() ==> #[trigger] m.push(e)[q] == m[q]);
        lemma_key_idx_first(m.push(e), k, m.len() as int);
    } else {
        if has_key(m.push(e), k) {
            let j = key_idx(m.push(e), k);
            assert(m.push(e)[j].0 == k);
            if j < m.len() {
                assert(m[j].0 == k);
            }
            assert(false);
        }
    }
}

/// How `key_idx` and `map_val` change under removing one entry, when keys
/// are unique.
proof fn lemma_key_idx_remove(m: Seq<(Seq<char>, TreeV)>, j: int, k: Seq<char>)
    requires
        keys_unique(m),
        0 <= j < m.len(),
    ensures
        k == m[j].0 ==> !has_key(m.remove(j), k),
        k != m[j].0 && has_key(m, k) ==> has_key(m.remove(j), k) && map_val(m.remove(j), k)
            == map_val(m, k),
        !has_key(m, k) ==> !has_key(m.remove(j), k),
{
    let m2 = m.remove(j);
    lemma_key_idx(m, k);
    lemma_key_idx(m2, k);
    assert(forall|q: int| 0 <= q < j ==> #[trigger] m2[q] == m[q]);
    assert(forall|q: int| j <= q < m2.len() ==> #[trigger] m2[q] == m[q + 1]);
    if k == m[j].0 {
        if has_key(m2, k) {
            let q = key_idx(m2, k);
            assert(m2[q].0 == k);
            if q < j {
                assert(m[q].0 == m[j].0);
            } else {
                assert(m[q + 1].0 == m[j].0);
            }
            assert(false);
        }
    } else if has_key(m, k) {
        let idx = key_idx(m, k);
        assert(m[idx].0 == k);
        if idx < j {
            lemma_key_idx_first(m2, k, idx);
        } else {
            assert(idx != j);
            assert(m2[idx - 1] == m[idx]);
            assert(forall|q: int| 0 <= q < idx - 1 ==> #[trigger] m2[q].0 != k);
            lemma_key_idx_first(m2, k, idx - 1);
        }
    } else {
        if has_key(m2, k) {
            let q = key_idx(m2, k);
            assert(m2[q].0 == k);
            if q < j {
                assert(m[q].0 == k);
            } else {
                assert(m[q + 1].0 == k);
            }
            assert(false);
        }
    }
}

/// Unique keys survive removing an entry.
proof fn lemma_keys_unique_remove(m: Seq<(Seq<char>, TreeV)>, j: int)
    requires
        keys_unique(m),
        0 <= j < m.len(),
    ensures
        keys_unique(m.remove(j)),
{
    let m2 = m.remove(j);
    assert(forall|q: int| 0 <= q < j ==> #[trigger] m2[q] == m[q]);
    assert(forall|q: int| j <= q < m2.len() ==> #[trigger] m2[q] == m[q + 1]);
    assert forall|p: int, q: int| 0 <= p < q < m2.len() implies m2[p].0 != m2[q].0 by {
        if p < j && q < j {
            assert(m[p].0 != m[q].0);
        } else if p < j {
            assert(m[p].0 != m[q + 1].0);
        } else {
            assert(m[p + 1].0 != m[q + 1].0);
        }
    }
}

/// In a list with unique keys, each entry is the first with its key.
proof fn lemma_key_idx_unique_self(m: Seq<(Seq<char>, TreeV)>, q: int)
    requires
        keys_unique(m),
        0 <= q < m.len(),
    ensures
        key_idx(m, m[q].0) == q,
        has_key(m, m[q].0),
        map_val(m, m[q].0) == m[q].1,
{
    assert(forall|p: int| 0 <= p < q ==> #[trigger] m[p].0 != m[q].0);
    lemma_key_idx_first(m, m[q].0, q);
}

/// Applying child operations under a present mapping key edits exactly that
/// key's value.
proof fn lemma_apply_prefixed_key(
    m: Seq<(Seq<char>, TreeV)>,
    k: Seq<char>,
    ops: Seq<OpV>,
    c2: TreeV,
)
    requires
        has_key(m, k),
        apply_ops_spec(map_val(m, k), ops) == Ok::<TreeV, (int, PathError)>(c2),
    ensures
        apply_ops_spec(TreeV::Mapping(m), prefix_ops(TokenV::Key(k), ops)) == Ok::<
            TreeV,
            (int, PathError),
        >(TreeV::Mapping(map_set(m, k, c2))),
    decreases ops.len(),
{
    let c = map_val(m, k);
    lemma_key_idx(m, k);
    let j = key_idx(m, k);
    if ops.len() == 0 {
        assert(c2 == c);
        assert(map_set(m, k, c2) =~= m) by {
            assert(m[j] == (m[j].0, m[j].1));
            assert(m[j].0 == k && m[j].1 == c);
        }
        assert(prefix_ops(TokenV::Key(k), ops) =~= Seq::<OpV>::empty());
    } else {
        let o = ops[0];
        let po = prefix_op(TokenV::Key(k), o);
        assert(prefix_ops(TokenV::Key(k), ops)[0] == po);
        match apply_op_spec(c, o) {
            Ok(c1) => {
                let m1 = map_set(m, k, c1);
                // One prefixed step edits the key's value the way the child
                // step edits the child.
                assert(apply_op_spec(TreeV::Mapping(m), po) == Ok::<TreeV, PathError>(
                    TreeV::Mapping(m1),
                )) by {
                    match o {
                        OpV::Add(p, v) => {
                            let fp = seq![TokenV::Key(k)] + p;
                            assert(fp[0] == TokenV::Key(k));
                            assert(tok_key(fp[0]) == k);
                            if p.len() == 0 {
                                assert(fp.len() == 1);
                                assert(c1 == v);
                            } else {
                                assert(fp.drop_first() =~= p);
                            }
                        },
                        OpV::Remove(p) => {
                            let fp = seq![TokenV::Key(k)] + p;
                            assert(fp[0] == TokenV::Key(k));
                            assert(tok_key(fp[0]) == k);
                            assert(p.len() >= 1);
                            assert(fp.drop_first() =~= p);
                        },
                        OpV::Replace(p, v) => {
                            let fp = seq![TokenV::Key(k)] + p;
                            assert(fp[0] == TokenV::Key(k));
                            assert(tok_key(fp[0]) == k);
                            if p.len() == 0 {
                                assert(fp.len() == 1);
                                assert(c1 == v);
                            } else {
                                assert(fp.drop_first() =~= p);
                            }
                        },
                    }
                }
                // The key and its index are stable under `map_set`.
                assert(forall|q: int| 0 <= q < m.len() ==> m1[q].0 == #[trigger] m[q].0);
                lemma_key_idx_same_keys(m, m1, k);
                assert(has_key(m1, k) && map_val(m1, k) == c1);
                // The remaining child steps apply to the updated value.
                lemma_apply_from_skip(c1, ops, 1, c2);
                assert(ops.skip(1) =~= ops.drop_first());
                lemma_apply_prefixed_key(m1, k, ops.drop_first(), c2);
                assert(prefix_ops(TokenV::Key(k), ops).skip(1) =~= prefix_ops(
                    TokenV::Key(k),
                    ops.drop_first(),
                ));
                assert(map_set(m1, k, c2) =~= map_set(m, k, c2));
                lemma_apply_from_skip(
                    TreeV::Mapping(m1),
                    prefix_ops(TokenV::Key(k), ops),
                    1,
                    TreeV::Mapping(map_set(m, k, c2)),
                );
            },
            Err(_) => {
                assert(false);
            },
        }
    }
}

/// Applying child operations under an in-range sequence index edits exactly
/// that element (given no child `Add` addresses its own root).
proof fn lemma_apply_prefixed_index(s: Seq<TreeV>, i: int, ops: Seq<OpV>, c2: TreeV)
    requires
        0 <= i < s.len(),
        adds_nonempty(ops),
        apply_ops_spec(s[i], ops) == Ok::<TreeV, (int, PathError)>(c2),
    ensures
        apply_ops_spec(TreeV::Sequence(s), prefix_ops(TokenV::Index(i), ops)) == Ok::<
            TreeV,
            (int, PathError),
        >(TreeV::Sequence(s.update(i, c2))),
    decreases ops.len(),
{
    let c = s[i];
    if ops.len() == 0 {
        assert(c2 == c);
        assert(s.update(i, c2) =~= s);
        assert(prefix_ops(TokenV::Index(i), ops) =~= Seq::<OpV>::empty());
    } else {
        let o = ops[0];
        let po = prefix_op(TokenV::Index(i), o);
        assert(prefix_ops(TokenV::Index(i), ops)[0] == po);
        match apply_op_spec(c, o) {
            Ok(c1) => {
                let s1 = s.update(i, c1);
                assert(apply_op_spec(TreeV::Sequence(s), po) == Ok::<TreeV, PathError>(
                    TreeV::Sequence(s1),
                )) by {
                    match o {
                        OpV::Add(p, v) => {
                            let fp = seq![TokenV::Index(i)] + p;
                            assert(fp[0] == TokenV::Index(i));
                            assert(tok_seq_addr(fp[0]) == SeqAddr::At(i));
                            assert(p.len() >= 1);
                            assert(fp.drop_first() =~= p);
                        },
                        OpV::Remove(p) => {
                            let fp = seq![TokenV::Index(i)] + p;
                            assert(fp[0] == TokenV::Index(i));
                            assert(tok_seq_addr(fp[0]) == SeqAddr::At(i));
                            assert(p.len() >= 1);
                            assert(fp.drop_first() =~= p);
                        },
                        OpV::Replace(p, v) => {
                            let fp = seq![TokenV::Index(i)] + p;
                            assert(fp[0] == TokenV::Index(i));
                            assert(tok_seq_addr(fp[0]) == SeqAddr::At(i));
                            if p.len() == 0 {
                                assert(fp.len() == 1);
                                assert(c1 == v);
                            } else {
                                assert(fp.drop_first() =~= p);
                            }
                        },
                    }
                }
                assert(s1[i] == c1);
                lemma_apply_from_skip(c1, ops, 1, c2);
                assert(ops.skip(1) =~= ops.drop_first());
                assert(adds_nonempty(ops.drop_first())) by {
                    assert(forall|q: int|
                        0 <= q < ops.len() - 1 ==> #[trigger] ops.drop_first()[q] == ops[q + 1]);
                }
                lemma_apply_prefixed_index(s1, i, ops.drop_first(), c2);
                assert(prefix_ops(TokenV::Index(i), ops).skip(1) =~= prefix_ops(
                    TokenV::Index(i),
                    ops.drop_first(),
                ));
                assert(s1.update(i, c2) =~= s.update(i, c2));
                lemma_apply_from_skip(
                    TreeV::Sequence(s1),
                    prefix_ops(TokenV::Index(i), ops),
                    1,
                    TreeV::Sequence(s.update(i, c2)),
                );
            },
            Err(_) => {
                assert(false);
            },
        }
    }
}

/// Trailing additions at increasing indices append the target's tail.
proof fn lemma_apply_seq_adds(y: Seq<TreeV>, s: Seq<TreeV>, i: int)
    requires
        0 <= i <= y.len(),
        s.len() == i,
    ensures
        apply_ops_spec(TreeV::Sequence(s), seq_adds(y, i)) == Ok::<TreeV, (int, PathError)>(
            TreeV::Sequence(s + y.skip(i)),
        ),
    decreases y.len() - i,
{
    if i == y.len() {
        assert(seq_adds(y, i) =~= Seq::<OpV>::empty());
        assert(s + y.skip(i) =~= s);
    } else {
        let o = OpV::Add(seq![TokenV::Index(i)], y[i]);
        assert(seq_adds(y, i)[0] == o);
        assert(apply_op_spec(TreeV::Sequence(s), o) == Ok::<TreeV, PathError>(
            TreeV::Sequence(s.push(y[i])),
        )) by {
            let fp = seq![TokenV::Index(i)];
            assert(tok_seq_addr(fp[0]) == SeqAddr::At(i));
            assert(s.insert(i, y[i]) =~= s.push(y[i]));
        }
        lemma_apply_seq_adds(y, s.push(y[i]), i + 1);
        assert(seq_adds(y, i).skip(1) =~= seq_adds(y, i + 1));
        assert(s.push(y[i]) + y.skip(i + 1) =~= s + y.skip(i));
        lemma_apply_from_skip(
            TreeV::Sequence(s.push(y[i])),
            seq_adds(y, i),
            1,
            TreeV::Sequence(s + y.skip(i)),
        );
    }
}

/// Trailing removals in descending order cut the base's tail.
proof fn lemma_apply_seq_removes(s: Seq<TreeV>, to: int)
    requires
        0 <= to <= s.len(),
    ensures
        apply_ops_spec(TreeV::Sequence(s), seq_removes(s.len() as int, to)) == Ok::<
            TreeV,
            (int, PathError),
        >(TreeV::Sequence(s.take(to))),
    decreases s.len() - to,
{
    if s.len() == to {
        assert(seq_removes(s.len() as int, to) =~= Seq::<OpV>::empty());
        assert(s.take(to) =~= s);
    } else {
        let last = s.len() - 1;
        let o = OpV::Remove(seq![TokenV::Index(last)]);
        assert(seq_removes(s.len() as int, to)[0] == o);
        let s1 = s.take(last);
        assert(apply_op_spec(TreeV::Sequence(s), o) == Ok::<TreeV, PathError>(TreeV::Sequence(s1)))
            by {
            let fp = seq![TokenV::Index(last)];
            assert(tok_seq_addr(fp[0]) == SeqAddr::At(last));
            assert(s.remove(last) =~= s.take(last));
        }
        lemma_apply_seq_removes(s1, to);
        assert(seq_removes(s.len() as int, to).skip(1) =~= seq_removes(s1.len() as int, to));
        assert(s1.take(to) =~= s.take(to));
        lemma_apply_from_skip(
            TreeV::Sequence(s1),
            seq_removes(s.len() as int, to),
            1,
            TreeV::Sequence(s.take(to)),
        );
    }
}

/// Every branch of the diff engine emits `Add` operations with non-empty
/// paths only.
proof fn lemma_diff_adds_nonempty(a: TreeV, b: TreeV)
    ensures
        adds_nonempty(diff_spec(a, b)),
{
    if !equiv(a, b) {
        match (a, b) {
            (TreeV::Mapping(x), TreeV::Mapping(y)) => {
                lemma_map_updates_adds_nonempty(x, y, 0);
                lemma_map_removes_adds_nonempty(x, y, 0);
                lemma_adds_nonempty_concat(diff_map_updates(x, y, 0), diff_map_removes(x, y, 0));
            },
            (TreeV::Sequence(x), TreeV::Sequence(y)) => {
                lemma_seq_common_adds_nonempty(x, y, 0);
                if y.len() > x.len() {
                    lemma_seq_adds_adds_nonempty(y, x.len() as int);
                } else {
                    lemma_seq_removes_adds_nonempty(x.len() as int, y.len() as int);
                }
                lemma_adds_nonempty_concat(diff_seq_common(x, y, 0), seq_tail_ops(x, y));
            },
            _ => {},
        }
    }
}

proof fn lemma_adds_nonempty_concat(s1: Seq<OpV>, s2: Seq<OpV>)
    requires
        adds_nonempty(s1),
        adds_nonempty(s2),
    ensures
        adds_nonempty(s1 + s2),
{
    assert forall|i: int| 0 <= i < (s1 + s2).len() implies match #[trigger] (s1 + s2)[i] {
        OpV::Add(p, _) => p.len() >= 1,
        _ => true,
    } by {
        if i < s1.len() {
            assert((s1 + s2)[i] == s1[i]);
        } else {
            assert((s1 + s2)[i] == s2[i - s1.len()]);
        }
    }
}

proof fn lemma_prefix_ops_adds_nonempty(tok: TokenV, ops: Seq<OpV>)
    ensures
        adds_nonempty(prefix_ops(tok, ops)),
{
    assert forall|i: int| 0 <= i < prefix_ops(tok, ops).len() implies match #[trigger] prefix_ops(
        tok,
        ops,
    )[i] {
        OpV::Add(p, _) => p.len() >= 1,
        _ => true,
    } by {
        assert(prefix_ops(tok, ops)[i] == prefix_op(tok, ops[i]));
    }
}

proof fn lemma_map_updates_adds_nonempty(
    x: Seq<(Seq<char>, TreeV)>,
    y: Seq<(Seq<char>, TreeV)>,
    i: int,
)
    ensures
        adds_nonempty(diff_map_updates(x, y, i)),
    decreases y.len() - i,
{
    if 0 <= i < y.len() {
        let k = y[i].0;
        let here = if has_key(x, k) {
            prefix_ops(TokenV::Key(k), diff_spec(map_val(x, k), y[i].1))
        } else {
            seq![OpV::Add(seq![TokenV::Key(k)], y[i].1)]
        };
        if has_key(x, k) {
            lemma_prefix_ops_adds_nonempty(TokenV::Key(k), diff_spec(map_val(x, k), y[i].1));
        }
        lemma_map_updates_adds_nonempty(x, y, i + 1);
        lemma_adds_nonempty_concat(here, diff_map_updates(x, y, i + 1));
    }
}

proof fn lemma_map_removes_adds_nonempty(
    x: Seq<(Seq<char>, TreeV)>,
    y: Seq<(Seq<char>, TreeV)>,
    i: int,
)
    ensures
        adds_nonempty(diff_map_removes(x, y, i)),
    decreases x.len() - i,
{
    if 0 <= i < x.len() {
        let here: Seq<OpV> = if has_key(y, x[i].0) {
            Seq::empty()
        } else {
            seq![OpV::Remove(seq![TokenV::Key(x[i].0)])]
        };
        lemma_map_removes_adds_nonempty(x, y, i + 1);
        lemma_adds_nonempty_concat(here, diff_map_removes(x, y, i + 1));
    }
}

proof fn lemma_seq_common_adds_nonempty(x: Seq<TreeV>, y: Seq<TreeV>, i: int)
    ensures
        adds_nonempty(diff_seq_common(x, y, i)),
    decreases y.len() - i,
{
    if 0 <= i && i < x.len() && i < y.len() {
        lemma_prefix_ops_adds_nonempty(TokenV::Index(i), diff_spec(x[i], y[i]));
        lemma_seq_common_adds_nonempty(x, y, i + 1);
        lemma_adds_nonempty_concat(
            prefix_ops(TokenV::Index(i), diff_spec(x[i], y[i])),
            diff_seq_common(x, y, i + 1),
        );
    }
}

proof fn lemma_seq_adds_adds_nonempty(y: Seq<TreeV>, i: int)
    ensures
        adds_nonempty(seq_adds(y, i)),
    decreases y.len() - i,
{
    if 0 <= i < y.len() {
        lemma_seq_adds_adds_nonempty(y, i + 1);
        lemma_adds_nonempty_concat(
            seq![OpV::Add(seq![TokenV::Index(i)], y[i])],
            seq_adds(y, i + 1),
        );
    }
}

proof fn lemma_seq_removes_adds_nonempty(from: int, to: int)
    ensures
        adds_nonempty(seq_removes(from, to)),
    decreases from - to,
{
    if from > to {
        lemma_seq_removes_adds_nonempty(from - 1, to);
        lemma_adds_nonempty_concat(
            seq![OpV::Remove(seq![TokenV::Index(from - 1)])],
            seq_removes(from - 1, to),
        );
    }
}

/// State of a mapping while the per-key operations of the diff run, after
/// the first `i` target keys were handled: base keys are all still present;
/// unprocessed target keys look exactly as in the base; processed target
/// keys carry values structurally equal to the target's; no key from
/// outside the base and the processed targets exists.
pub open spec fn upd_inv(
    x: Seq<(Seq<char>, TreeV)>,
    y: Seq<(Seq<char>, TreeV)>,
    i: int,
    m: Seq<(Seq<char>, TreeV)>,
) -> bool {
    &&& keys_unique(m)
    &&& forall|q: int| 0 <= q < m.len() ==> wf(#[trigger] m[q].1)
    &&& forall|q: int| 0 <= q < x.len() ==> has_key(m, #[trigger] x[q].0)
    &&& forall|j: int|
        i <= j < y.len() ==> ((has_key(m, #[trigger] y[j].0) == has_key(x, y[j].0)) && (has_key(
            x,
            y[j].0,
        ) ==> map_val(m, y[j].0) == map_val(x, y[j].0)))
    &&& forall|j: int|
        0 <= j < i ==> has_key(m, #[trigger] y[j].0) && equiv(map_val(m, y[j].0), y[j].1)
    &&& forall|q: int|
        0 <= q < m.len() ==> has_key(x, #[trigger] m[q].0) || exists|j: int|
            0 <= j < i && #[trigger] y[j].0 == m[q].0
}

/// State of a mapping while the removals of the diff run, after the first
/// `i` base keys were considered: base keys absent from the target and not
/// yet considered are still present; every target key carries a value
/// structurally equal to the target's; every key is a target key or such a
/// pending removal.
pub open spec fn rem_inv(
    x: Seq<(Seq<char>, TreeV)>,
    y: Seq<(Seq<char>, TreeV)>,
    i: int,
    m: Seq<(Seq<char>, TreeV)>,
) -> bool {
    &&& keys_unique(m)
    &&& forall|q: int| 0 <= q < m.len() ==> wf(#[trigger] m[q].1)
    &&& forall|j: int|
        i <= j < x.len() && !has_key(y, x[j].0) ==> has_key(m, #[trigger] x[j].0)
    &&& forall|j: int|
        0 <= j < y.len() ==> has_key(m, #[trigger] y[j].0) && equiv(map_val(m, y[j].0), y[j].1)
    &&& forall|q: int|
        0 <= q < m.len() ==> has_key(y, #[trigger] m[q].0) || exists|j: int|
            i <= j < x.len() && #[trigger] x[j].0 == m[q].0 && !has_key(y, x[j].0)
}

/// Running the per-key operations from target key `i` on carries `upd_inv`
/// to the end of the target's key list.
proof fn lemma_apply_map_updates(
    x: Seq<(Seq<char>, TreeV)>,
    y: Seq<(Seq<char>, TreeV)>,
    i: int,
    m: Seq<(Seq<char>, TreeV)>,
) -> (mf: Seq<(Seq<char>, TreeV)>)
    requires
        0 <= i <= y.len(),
        keys_unique(y),
        forall|q: int| 0 <= q < x.len() ==> wf(#[trigger] x[q].1),
        forall|q: int| 0 <= q < y.len() ==> wf(#[trigger] y[q].1),
        upd_inv(x, y, i, m),
    ensures
        apply_ops_spec(TreeV::Mapping(m), diff_map_updates(x, y, i)) == Ok::<
            TreeV,
            (int, PathError),
        >(TreeV::Mapping(mf)),
        upd_inv(x, y, y.len() as int, mf),
    decreases y, 1int, y.len() - i,
{
    if i == y.len() {
        assert(diff_map_updates(x, y, i) =~= Seq::<OpV>::empty());
        m
    } else {
        let k = y[i].0;
        if has_key(x, k) {
            let c = map_val(x, k);
            proof_wf_map_entry(x, k);
            assert(wf(y[i].1));
            lemma_diff_then_apply(c, y[i].1);
            let child_ops = diff_spec(c, y[i].1);
            let c2 = apply_ops_spec(c, child_ops)->Ok_0;
            assert(has_key(m, k) && map_val(m, k) == c);
            lemma_apply_prefixed_key(m, k, child_ops, c2);
            let m1 = map_set(m, k, c2);
            lemma_key_idx(m, k);
            let j = key_idx(m, k);
            assert(forall|q: int| 0 <= q < m.len() ==> m1[q].0 == #[trigger] m[q].0);
            assert(m1.len() == m.len());
            assert(keys_unique(m1));
            assert forall|q: int| 0 <= q < m1.len() implies wf(#[trigger] m1[q].1) by {
                if q != j {
                    assert(m1[q] == m[q]);
                }
            }
            assert forall|q: int| 0 <= q < x.len() implies has_key(m1, #[trigger] x[q].0) by {
                lemma_key_idx_same_keys(m, m1, x[q].0);
            }
            assert forall|jj: int|
                i + 1 <= jj < y.len() implies ((has_key(m1, #[trigger] y[jj].0) == has_key(
                x,
                y[jj].0,
            )) && (has_key(x, y[jj].0) ==> map_val(m1, y[jj].0) == map_val(x, y[jj].0))) by {
                lemma_key_idx_same_keys(m, m1, y[jj].0);
                if has_key(m, y[jj].0) {
                    let q = key_idx(m, y[jj].0);
                    lemma_key_idx(m, y[jj].0);
                    if q == j {
                        assert(m[j].0 == k);
                        assert(y[jj].0 == y[i].0);
                        assert(false);
                    }
                    assert(m1[q] == m[q]);
                }
            }
            assert forall|jj: int|
                0 <= jj < i + 1 implies has_key(m1, #[trigger] y[jj].0) && equiv(
                map_val(m1, y[jj].0),
                y[jj].1,
            ) by {
                lemma_key_idx_same_keys(m, m1, y[jj].0);
                if jj == i {
                    assert(key_idx(m1, k) == j);
                    assert(m1[j].1 == c2);
                } else {
                    let q = key_idx(m, y[jj].0);
                    lemma_key_idx(m, y[jj].0);
                    if q == j {
                        assert(m[j].0 == k);
                        assert(false);
                    }
                    assert(m1[q] == m[q]);
                }
            }
            assert forall|q: int|
                0 <= q < m1.len() implies has_key(x, #[trigger] m1[q].0) || exists|jj: int|
                0 <= jj < i + 1 && #[trigger] y[jj].0 == m1[q].0 by {
                assert(m1[q].0 == m[q].0);
                if !has_key(x, m[q].0) {
                    let jj = choose|jj: int| 0 <= jj < i && #[trigger] y[jj].0 == m[q].0;
                    assert(0 <= jj < i + 1 && y[jj].0 == m1[q].0);
                }
            }
            let mf = lemma_apply_map_updates(x, y, i + 1, m1);
            lemma_apply_append(
                TreeV::Mapping(m),
                prefix_ops(TokenV::Key(k), child_ops),
                diff_map_updates(x, y, i + 1),
                TreeV::Mapping(m1),
                TreeV::Mapping(mf),
            );
            mf
        } else {
            assert(!has_key(m, k));
            let m1 = m.push((k, y[i].1));
            let op = OpV::Add(seq![TokenV::Key(k)], y[i].1);
            let here = seq![op];
            assert(apply_ops_spec(TreeV::Mapping(m), here) == Ok::<TreeV, (int, PathError)>(
                TreeV::Mapping(m1),
            )) by {
                assert(here[0] == op);
                let fp = seq![TokenV::Key(k)];
                assert(tok_key(fp[0]) == k);
                assert(apply_op_spec(TreeV::Mapping(m), op) == Ok::<TreeV, PathError>(
                    TreeV::Mapping(m1),
                ));
                assert(apply_from(TreeV::Mapping(m1), here, 1) == Ok::<TreeV, (int, PathError)>(
                    TreeV::Mapping(m1),
                ));
            }
            lemma_key_idx(m, k);
            assert(keys_unique(m1)) by {
                assert(forall|q: int| 0 <= q < m.len() ==> #[trigger] m1[q] == m[q]);
                assert(forall|q: int| 0 <= q < m.len() ==> #[trigger] m[q].0 != k);
            }
            assert forall|q: int| 0 <= q < m1.len() implies wf(#[trigger] m1[q].1) by {
                if q < m.len() {
                    assert(m1[q] == m[q]);
                } else {
                    assert(m1[q].1 == y[i].1);
                }
            }
            assert forall|q: int| 0 <= q < x.len() implies has_key(m1, #[trigger] x[q].0) by {
                lemma_key_idx_push(m, (k, y[i].1), x[q].0);
            }
            assert forall|jj: int|
                i + 1 <= jj < y.len() implies ((has_key(m1, #[trigger] y[jj].0) == has_key(
                x,
                y[jj].0,
            )) && (has_key(x, y[jj].0) ==> map_val(m1, y[jj].0) == map_val(x, y[jj].0))) by {
                lemma_key_idx_push(m, (k, y[i].1), y[jj].0);
                assert(y[jj].0 != k);
            }
            assert forall|jj: int|
                0 <= jj < i + 1 implies has_key(m1, #[trigger] y[jj].0) && equiv(
                map_val(m1, y[jj].0),
                y[jj].1,
            ) by {
                lemma_key_idx_push(m, (k, y[i].1), y[jj].0);
                if jj == i {
                    assert(key_idx(m1, k) == m.len());
                    assert(m1[m.len() as int].1 == y[i].1);
                    lemma_equiv_reflexive(y[i].1);
                } else {
                    assert(y[jj].0 != k);
                }
            }
            assert forall|q: int|
                0 <= q < m1.len() implies has_key(x, #[trigger] m1[q].0) || exists|jj: int|
                0 <= jj < i + 1 && #[trigger] y[jj].0 == m1[q].0 by {
                if q < m.len() {
                    assert(m1[q].0 == m[q].0);
                    if !has_key(x, m[q].0) {
                        let jj = choose|jj: int| 0 <= jj < i && #[trigger] y[jj].0 == m[q].0;
                        assert(0 <= jj < i + 1 && y[jj].0 == m1[q].0);
                    }
                } else {
                    assert(m1[q].0 == k);
                    assert(0 <= i < i + 1 && y[i].0 == m1[q].0);
                }
            }
            let mf = lemma_apply_map_updates(x, y, i + 1, m1);
            lemma_apply_append(
                TreeV::Mapping(m),
                here,
                diff_map_updates(x, y, i + 1),
                TreeV::Mapping(m1),
                TreeV::Mapping(mf),
            );
            mf
        }
    }
}

/// A present key of a well-formed entry list has a well-formed value.
proof fn proof_wf_map_entry(x: Seq<(Seq<char>, TreeV)>, k: Seq<char>)
    requires
        forall|q: int| 0 <= q < x.len() ==> wf(#[trigger] x[q].1),
        has_key(x, k),
    ensures
        wf(map_val(x, k)),
{
    lemma_key_idx(x, k);
}

/// Running the removals from base key `i` on carries `rem_inv` to the end
/// of the base's key list.
proof fn lemma_apply_map_removes(
    x: Seq<(Seq<char>, TreeV)>,
    y: Seq<(Seq<char>, TreeV)>,
    i: int,
    m: Seq<(Seq<char>, TreeV)>,
) -> (mf: Seq<(Seq<char>, TreeV)>)
    requires
        0 <= i <= x.len(),
        keys_unique(x),
        keys_unique(y),
        rem_inv(x, y, i, m),
    ensures
        apply_ops_spec(TreeV::Mapping(m), diff_map_removes(x, y, i)) == Ok::<
            TreeV,
            (int, PathError),
        >(TreeV::Mapping(mf)),
        rem_inv(x, y, x.len() as int, mf),
    decreases x.len() - i,
{
    if i == x.len() {
        assert(diff_map_removes(x, y, i) =~= Seq::<OpV>::empty());
        m
    } else {
        let k = x[i].0;
        if has_key(y, k) {
            assert(rem_inv(x, y, i + 1, m)) by {
                assert forall|q: int|
                    0 <= q < m.len() implies has_key(y, #[trigger] m[q].0) || exists|jj: int|
                    i + 1 <= jj < x.len() && #[trigger] x[jj].0 == m[q].0 && !has_key(
                    y,
                    x[jj].0,
                ) by {
                    if !has_key(y, m[q].0) {
                        let jj = choose|jj: int|
                            i <= jj < x.len() && #[trigger] x[jj].0 == m[q].0 && !has_key(
                                y,
                                x[jj].0,
                            );
                        assert(jj != i);
                        assert(i + 1 <= jj < x.len() && x[jj].0 == m[q].0 && !has_key(y, x[jj].0));
                    }
                }
            }
            let mf = lemma_apply_map_removes(x, y, i + 1, m);
            assert(diff_map_removes(x, y, i) =~= Seq::<OpV>::empty() + diff_map_removes(
                x,
                y,
                i + 1,
            ));
            lemma_apply_append(
                TreeV::Mapping(m),
                Seq::<OpV>::empty(),
                diff_map_removes(x, y, i + 1),
                TreeV::Mapping(m),
                TreeV::Mapping(mf),
            );
            mf
        } else {
            assert(has_key(m, k));
            lemma_key_idx(m, k);
            let j = key_idx(m, k);
            let m1 = m.remove(j);
            let op = OpV::Remove(seq![TokenV::Key(k)]);
            let here = seq![op];
            assert(apply_ops_spec(TreeV::Mapping(m), here) == Ok::<TreeV, (int, PathError)>(
                TreeV::Mapping(m1),
            )) by {
                assert(here[0] == op);
                let fp = seq![TokenV::Key(k)];
                assert(tok_key(fp[0]) == k);
                assert(apply_op_spec(TreeV::Mapping(m), op) == Ok::<TreeV, PathError>(
                    TreeV::Mapping(m1),
                ));
                assert(apply_from(TreeV::Mapping(m1), here, 1) == Ok::<TreeV, (int, PathError)>(
                    TreeV::Mapping(m1),
                ));
            }
            lemma_keys_unique_remove(m, j);
            assert(forall|q: int| 0 <= q < j ==> #[trigger] m1[q] == m[q]);
            assert(forall|q: int| j <= q < m1.len() ==> #[trigger] m1[q] == m[q + 1]);
            assert forall|q: int| 0 <= q < m1.len() implies wf(#[trigger] m1[q].1) by {
                if q < j {
                    assert(m1[q] == m[q]);
                } else {
                    assert(m1[q] == m[q + 1]);
                }
            }
            assert forall|jj: int|
                i + 1 <= jj < x.len() && !has_key(y, x[jj].0) implies has_key(
                m1,
                #[trigger] x[jj].0,
            ) by {
                assert(x[jj].0 != k);
                lemma_key_idx_remove(m, j, x[jj].0);
            }
            assert forall|jj: int|
                0 <= jj < y.len() implies has_key(m1, #[trigger] y[jj].0) && equiv(
                map_val(m1, y[jj].0),
                y[jj].1,
            ) by {
                lemma_key_idx_unique_self(y, jj);
                assert(has_key(y, y[jj].0));
                assert(y[jj].0 != k);
                lemma_key_idx_remove(m, j, y[jj].0);
            }
            assert forall|q: int|
                0 <= q < m1.len() implies has_key(y, #[trigger] m1[q].0) || exists|jj: int|
                i + 1 <= jj < x.len() && #[trigger] x[jj].0 == m1[q].0 && !has_key(
                y,
                x[jj].0,
            ) by {
                let q0: int = if q < j {
                    q
                } else {
                    q + 1
                };
                assert(m1[q] == m[q0]);
                if !has_key(y, m[q0].0) {
                    let jj = choose|jj: int|
                        i <= jj < x.len() && #[trigger] x[jj].0 == m[q0].0 && !has_key(
                            y,
                            x[jj].0,
                        );
                    assert(m[q0].0 != k) by {
                        assert(m[q0] == m1[q]);
                        if m[q0].0 == k {
                            lemma_key_idx_remove(m, j, k);
                            lemma_key_idx_unique_self(m1, q);
                            assert(false);
                        }
                    }
                    assert(jj != i);
                    assert(i + 1 <= jj < x.len() && x[jj].0 == m1[q].0 && !has_key(y, x[jj].0));
                }
            }
            let mf = lemma_apply_map_removes(x, y, i + 1, m1);
            lemma_apply_append(
                TreeV::Mapping(m),
                here,
                diff_map_removes(x, y, i + 1),
                TreeV::Mapping(m1),
                TreeV::Mapping(mf),
            );
            mf
        }
    }
}

/// Running the position-wise operations from index `i` on makes every
/// shared position structurally equal to the target's element.
proof fn lemma_apply_seq_common(x: Seq<TreeV>, y: Seq<TreeV>, i: int, s: Seq<TreeV>) -> (sf: Seq<
    TreeV,
>)
    requires
        0 <= i,
        i <= x.len(),
        i <= y.len(),
        s.len() == x.len(),
        forall|j: int| i <= j < s.len() ==> s[j] == x[j],
        forall|j: int| 0 <= j < i && j < y.len() ==> equiv(#[trigger] s[j], y[j]) && wf(s[j]),
        forall|j: int| 0 <= j < x.len() ==> wf(#[trigger] x[j]),
        forall|j: int| 0 <= j < y.len() ==> wf(#[trigger] y[j]),
    ensures
        apply_ops_spec(TreeV::Sequence(s), diff_seq_common(x, y, i)) == Ok::<
            TreeV,
            (int, PathError),
        >(TreeV::Sequence(sf)),
        sf.len() == x.len(),
        forall|j: int|
            0 <= j < sf.len() && j < y.len() ==> equiv(#[trigger] sf[j], y[j]) && wf(sf[j]),
        forall|j: int| y.len() <= j < sf.len() ==> sf[j] == x[j],
        forall|j: int| 0 <= j < sf.len() ==> wf(#[trigger] sf[j]),
    decreases y, 1int, y.len() - i,
{
    if i >= x.len() || i >= y.len() {
        assert(diff_seq_common(x, y, i) =~= Seq::<OpV>::empty());
        assert forall|j: int| 0 <= j < s.len() implies wf(#[trigger] s[j]) by {
            if i <= j {
                assert(s[j] == x[j]);
            }
        }
        s
    } else {
        assert(wf(x[i]) && wf(y[i]));
        lemma_diff_then_apply(x[i], y[i]);
        let child_ops = diff_spec(x[i], y[i]);
        let c2 = apply_ops_spec(x[i], child_ops)->Ok_0;
        assert(s[i] == x[i]);
        lemma_diff_adds_nonempty(x[i], y[i]);
        lemma_apply_prefixed_index(s, i, child_ops, c2);
        let s1 = s.update(i, c2);
        let sf = lemma_apply_seq_common(x, y, i + 1, s1);
        lemma_apply_append(
            TreeV::Sequence(s),
            prefix_ops(TokenV::Index(i), child_ops),
            diff_seq_common(x, y, i + 1),
            TreeV::Sequence(s1),
            TreeV::Sequence(sf),
        );
        sf
    }
}

/// Diff-then-apply: applying `diff(a, b)` to `a` succeeds and yields a tree
/// structurally equal to `b` (and well-formed). Structural equality is the
/// order-insensitive tree equality `equiv`.
pub proof fn lemma_diff_then_apply(a: TreeV, b: TreeV)
    requires
        wf(a),
        wf(b),
    ensures
        ({
            let res = apply_ops_spec(a, diff_spec(a, b));
            &&& res is Ok
            &&& equiv(res->Ok_0, b)
            &&& wf(res->Ok_0)
        }),
    decreases b, 0int, 0int,
{
    if equiv(a, b) {
        assert(diff_spec(a, b) =~= Seq::<OpV>::empty());
        assert(apply_ops_spec(a, diff_spec(a, b)) == Ok::<TreeV, (int, PathError)>(a));
    } else {
        match (a, b) {
            (TreeV::Mapping(x), TreeV::Mapping(y)) => {
                assert(keys_unique(x) && keys_unique(y));
                assert(upd_inv(x, y, 0, x)) by {
                    assert forall|q: int| 0 <= q < x.len() implies has_key(
                        x,
                        #[trigger] x[q].0,
                    ) by {
                        lemma_key_idx_unique_self(x, q);
                    }
                }
                let m1 = lemma_apply_map_updates(x, y, 0, x);
                assert(rem_inv(x, y, 0, m1)) by {
                    assert forall|jj: int|
                        0 <= jj < x.len() && !has_key(y, x[jj].0) implies has_key(
                        m1,
                        #[trigger] x[jj].0,
                    ) by {}
                    assert forall|jj: int|
                        0 <= jj < y.len() implies has_key(m1, #[trigger] y[jj].0) && equiv(
                        map_val(m1, y[jj].0),
                        y[jj].1,
                    ) by {}
                    assert forall|q: int|
                        0 <= q < m1.len() implies has_key(y, #[trigger] m1[q].0) || exists|jj: int|
                        0 <= jj < x.len() && #[trigger] x[jj].0 == m1[q].0 && !has_key(
                        y,
                        x[jj].0,
                    ) by {
                        if has_key(x, m1[q].0) {
                            if !has_key(y, m1[q].0) {
                                let jj = key_idx(x, m1[q].0);
                                lemma_key_idx(x, m1[q].0);
                                assert(0 <= jj < x.len() && x[jj].0 == m1[q].0 && !has_key(
                                    y,
                                    x[jj].0,
                                ));
                            }
                        } else {
                            let jj = choose|jj: int|
                                0 <= jj < y.len() && #[trigger] y[jj].0 == m1[q].0;
                            lemma_key_idx_unique_self(y, jj);
                            assert(has_key(y, m1[q].0));
                        }
                    }
                }
                let m2 = lemma_apply_map_removes(x, y, 0, m1);
                lemma_apply_append(
                    a,
                    diff_map_updates(x, y, 0),
                    diff_map_removes(x, y, 0),
                    TreeV::Mapping(m1),
                    TreeV::Mapping(m2),
                );
                assert(equiv(TreeV::Mapping(m2), b)) by {
                    assert forall|q: int|
                        0 <= q < m2.len() implies has_key(y, #[trigger] m2[q].0) && equiv(
                        m2[q].1,
                        map_val(y, m2[q].0),
                    ) by {
                        assert(has_key(y, m2[q].0));
                        let jj = key_idx(y, m2[q].0);
                        lemma_key_idx(y, m2[q].0);
                        assert(has_key(m2, y[jj].0) && equiv(map_val(m2, y[jj].0), y[jj].1));
                        lemma_key_idx_unique_self(m2, q);
                        assert(map_val(m2, m2[q].0) == m2[q].1);
                        assert(map_val(y, m2[q].0) == y[jj].1);
                    }
                    assert forall|jj: int| 0 <= jj < y.len() implies has_key(
                        m2,
                        #[trigger] y[jj].0,
                    ) by {}
                }
                assert(wf(TreeV::Mapping(m2)));
            },
            (TreeV::Sequence(sx), TreeV::Sequence(sy)) => {
                assert(forall|j: int| 0 <= j < sx.len() ==> wf(#[trigger] sx[j]));
                assert(forall|j: int| 0 <= j < sy.len() ==> wf(#[trigger] sy[j]));
                let s1 = lemma_apply_seq_common(sx, sy, 0, sx);
                if sy.len() > sx.len() {
                    lemma_apply_seq_adds(sy, s1, sx.len() as int);
                    let s2 = s1 + sy.skip(sx.len() as int);
                    lemma_apply_append(
                        a,
                        diff_seq_common(sx, sy, 0),
                        seq_adds(sy, sx.len() as int),
                        TreeV::Sequence(s1),
                        TreeV::Sequence(s2),
                    );
                    assert(equiv(TreeV::Sequence(s2), b)) by {
                        assert(s2.len() == sy.len());
                        assert forall|j: int| 0 <= j < s2.len() implies equiv(
                            #[trigger] s2[j],
                            sy[j],
                        ) by {
                            if j < sx.len() {
                                assert(s2[j] == s1[j]);
                            } else {
                                assert(s2[j] == sy[j]);
                                lemma_equiv_reflexive(sy[j]);
                            }
                        }
                    }
                    assert(wf(TreeV::Sequence(s2))) by {
                        assert forall|j: int| 0 <= j < s2.len() implies wf(#[trigger] s2[j]) by {
                            if j < sx.len() {
                                assert(s2[j] == s1[j]);
                            } else {
                                assert(s2[j] == sy[j]);
                            }
                        }
                    }
                } else {
                    lemma_apply_seq_removes(s1, sy.len() as int);
                    let s2 = s1.take(sy.len() as int);
                    lemma_apply_append(
                        a,
                        diff_seq_common(sx, sy, 0),
                        seq_removes(sx.len() as int, sy.len() as int),
                        TreeV::Sequence(s1),
                        TreeV::Sequence(s2),
                    );
                    assert(equiv(TreeV::Sequence(s2), b)) by {
                        assert(s2.len() == sy.len());
                        assert forall|j: int| 0 <= j < s2.len() implies equiv(
                            #[trigger] s2[j],
                            sy[j],
                        ) by {
                            assert(s2[j] == s1[j]);
                        }
                    }
                    assert(wf(TreeV::Sequence(s2))) by {
                        assert forall|j: int| 0 <= j < s2.len() implies wf(#[trigger] s2[j]) by {
                            assert(s2[j] == s1[j]);
                        }
                    }
                }
            },
            _ => {
                let op = OpV::Replace(Seq::<TokenV>::empty(), b);
                assert(diff_spec(a, b) == seq![op]);
                assert(apply_op_spec(a, op) == Ok::<TreeV, PathError>(b));
                assert(apply_ops_spec(a, seq![op]) == Ok::<TreeV, (int, PathError)>(b)) by {
                    assert(seq![op][0] == op);
                    assert(apply_from(b, seq![op], 1) == Ok::<TreeV, (int, PathError)>(b));
                }
                lemma_equiv_reflexive(b);
            },
        }
    }
}

/// Round trip: diffing a well-formed tree against itself yields the empty
/// patch, and applying that patch gives the tree back unchanged.
pub proof fn lemma_diff_self_round_trip(t: TreeV)
    requires
        wf(t),
    ensures
        diff_spec(t, t) == Seq::<OpV>::empty(),
        apply_ops_spec(t, diff_spec(t, t)) == Ok::<TreeV, (int, PathError)>(t),
{
    lemma_equiv_reflexive(t);
    assert(diff_spec(t, t) =~= Seq::<OpV>::empty());
}

} // verus!
