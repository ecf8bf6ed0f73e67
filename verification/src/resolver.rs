//! The path resolver: locating, inserting, removing and replacing nodes
//! addressed by a token path, with precise error semantics per node kind.
//!
//! All mutators are functional: they leave their input untouched and return
//! a fresh tree, so a failed operation can never leave a half-edited
//! document behind.

use vstd::prelude::*;

use crate::path::PathError;
use crate::path::ParsedIndex;
use crate::path::Token;
use crate::path::TokenV;
use crate::path::digits_val;
use crate::path::index_digits;
use crate::path::nat_digits;
use crate::path::parse_index_value;
use crate::path::valid_index_digits;
use crate::tree::Tree;
use crate::tree::TreeV;
use crate::tree::entries_view;
use crate::tree::elems_view;
use crate::tree::has_key;
use crate::tree::key_idx;
use crate::tree::lemma_key_idx;
use crate::tree::map_val;

verus! {

broadcast use vstd::std_specs::vec::axiom_vec_index_decreases, vstd::seq::axiom_seq_index_decreases;

/// The mapping key a token addresses: the key itself, the decimal rendering
/// of an index, or the literal `-` for the append marker.
pub open spec fn tok_key(t: TokenV) -> Seq<char> {
    match t {
        TokenV::Key(s) => s,
        TokenV::Index(i) => nat_digits(i),
        TokenV::Append => seq!['-'],
    }
}

/// The place within a sequence that a token addresses.
pub enum SeqAddr {
    /// A numeric position.
    At(int),
    /// One past the last element.
    End,
    /// Not a sequence address at all.
    Bad,
}

/// How a token addresses a sequence: indices address their position, the
/// append marker (or a key spelling `-`) addresses the end, a key spelling
/// a canonical digit string addresses that position, anything else is
/// invalid.
pub open spec fn tok_seq_addr(t: TokenV) -> SeqAddr {
    match t {
        TokenV::Index(i) => SeqAddr::At(i),
        TokenV::Append => SeqAddr::End,
        TokenV::Key(s) => if s.len() == 1 && s[0] == '-' {
            SeqAddr::End
        } else if valid_index_digits(s) {
            SeqAddr::At(digits_val(s))
        } else {
            SeqAddr::Bad
        },
    }
}

/// The entry list with the value under (present) key `k` replaced by `v`.
pub open spec fn map_set(m: Seq<(Seq<char>, TreeV)>, k: Seq<char>, v: TreeV) -> Seq<
    (Seq<char>, TreeV),
> {
    m.update(key_idx(m, k), (k, v))
}

/// Locates the node addressed by `p`, per §resolution rules: empty path is
/// the node itself, mapping keys must exist, sequence tokens must be
/// in-range indices, scalars cannot be traversed.
pub open spec fn get_spec(t: TreeV, p: Seq<TokenV>) -> Result<TreeV, PathError>
    decreases p.len(),
{
    if p.len() == 0 {
        Ok(t)
    } else {
        match t {
            TreeV::Mapping(m) => {
                let k = tok_key(p[0]);
                if has_key(m, k) {
                    get_spec(map_val(m, k), p.drop_first())
                } else {
                    Err(PathError::PathNotFound)
                }
            },
            TreeV::Sequence(s) => match tok_seq_addr(p[0]) {
                SeqAddr::At(i) => if 0 <= i < s.len() {
                    get_spec(s[i], p.drop_first())
                } else {
                    Err(PathError::IndexOutOfBounds)
                },
                SeqAddr::End => Err(PathError::IndexOutOfBounds),
                SeqAddr::Bad => Err(PathError::InvalidPath),
            },
            _ => Err(PathError::TypeMismatch),
        }
    }
}

/// Inserts `v` at `p`: an empty path replaces the root; a final mapping key
/// is created or overwritten; a missing non-final mapping key is created as
/// an empty mapping and traversal continues (auto-vivification); a sequence
/// index `i` with `0 <= i <= len` shifts elements right; the append marker
/// appends and is valid only as the final token.
pub open spec fn insert_spec(t: TreeV, p: Seq<TokenV>, v: TreeV) -> Result<TreeV, PathError>
    decreases p.len(),
{
    if p.len() == 0 {
        Ok(v)
    } else {
        match t {
            TreeV::Mapping(m) => {
                let k = tok_key(p[0]);
                if p.len() == 1 {
                    if has_key(m, k) {
                        Ok(TreeV::Mapping(map_set(m, k, v)))
                    } else {
                        Ok(TreeV::Mapping(m.push((k, v))))
                    }
                } else if has_key(m, k) {
                    match insert_spec(map_val(m, k), p.drop_first(), v) {
                        Ok(c) => Ok(TreeV::Mapping(map_set(m, k, c))),
                        Err(e) => Err(e),
                    }
                } else {
                    match insert_spec(TreeV::Mapping(Seq::empty()), p.drop_first(), v) {
                        Ok(c) => Ok(TreeV::Mapping(m.push((k, c)))),
                        Err(e) => Err(e),
                    }
                }
            },
            TreeV::Sequence(s) => match tok_seq_addr(p[0]) {
                SeqAddr::End => if p.len() == 1 {
                    Ok(TreeV::Sequence(s.push(v)))
                } else {
                    Err(PathError::InvalidPath)
                },
                SeqAddr::At(i) => if p.len() == 1 {
                    if 0 <= i <= s.len() {
                        Ok(TreeV::Sequence(s.insert(i, v)))
                    } else {
                        Err(PathError::IndexOutOfBounds)
                    }
                } else if 0 <= i < s.len() {
                    match insert_spec(s[i], p.drop_first(), v) {
                        Ok(c) => Ok(TreeV::Sequence(s.update(i, c))),
                        Err(e) => Err(e),
                    }
                } else {
                    Err(PathError::IndexOutOfBounds)
                },
                SeqAddr::Bad => Err(PathError::InvalidPath),
            },
            _ => Err(PathError::TypeMismatch),
        }
    }
}

/// Removes the node at `p`: the root cannot be removed; a mapping key or
/// sequence index must exist.
pub open spec fn delete_spec(t: TreeV, p: Seq<TokenV>) -> Result<TreeV, PathError>
    decreases p.len(),
{
    if p.len() == 0 {
        Err(PathError::InvalidPath)
    } else {
        match t {
            TreeV::Mapping(m) => {
                let k = tok_key(p[0]);
                if !has_key(m, k) {
                    Err(PathError::PathNotFound)
                } else if p.len() == 1 {
                    Ok(TreeV::Mapping(m.remove(key_idx(m, k))))
                } else {
                    match delete_spec(map_val(m, k), p.drop_first()) {
                        Ok(c) => Ok(TreeV::Mapping(map_set(m, k, c))),
                        Err(e) => Err(e),
                    }
                }
            },
            TreeV::Sequence(s) => match tok_seq_addr(p[0]) {
                SeqAddr::At(i) => if 0 <= i < s.len() {
                    if p.len() == 1 {
                        Ok(TreeV::Sequence(s.remove(i)))
                    } else {
                        match delete_spec(s[i], p.drop_first()) {
                            Ok(c) => Ok(TreeV::Sequence(s.update(i, c))),
                            Err(e) => Err(e),
                        }
                    }
                } else {
                    Err(PathError::IndexOutOfBounds)
                },
                SeqAddr::End => Err(PathError::IndexOutOfBounds),
                SeqAddr::Bad => Err(PathError::InvalidPath),
            },
            _ => Err(PathError::TypeMismatch),
        }
    }
}

/// Replaces the node at `p`: an empty path replaces the root; a final
/// mapping key is created or overwritten; sequence indices must be in
/// range.
pub open spec fn set_spec(t: TreeV, p: Seq<TokenV>, v: TreeV) -> Result<TreeV, PathError>
    decreases p.len(),
{
    if p.len() == 0 {
        Ok(v)
    } else {
        match t {
            TreeV::Mapping(m) => {
                let k = tok_key(p[0]);
                if p.len() == 1 {
                    if has_key(m, k) {
                        Ok(TreeV::Mapping(map_set(m, k, v)))
                    } else {
                        Ok(TreeV::Mapping(m.push((k, v))))
                    }
                } else if has_key(m, k) {
                    match set_spec(map_val(m, k), p.drop_first(), v) {
                        Ok(c) => Ok(TreeV::Mapping(map_set(m, k, c))),
                        Err(e) => Err(e),
                    }
                } else {
                    Err(PathError::PathNotFound)
                }
            },
            TreeV::Sequence(s) => match tok_seq_addr(p[0]) {
                SeqAddr::At(i) => if 0 <= i < s.len() {
                    if p.len() == 1 {
                        Ok(TreeV::Sequence(s.update(i, v)))
                    } else {
                        match set_spec(s[i], p.drop_first(), v) {
                            Ok(c) => Ok(TreeV::Sequence(s.update(i, c))),
                            Err(e) => Err(e),
                        }
                    }
                } else {
                    Err(PathError::IndexOutOfBounds)
                },
                SeqAddr::End => Err(PathError::IndexOutOfBounds),
                SeqAddr::Bad => Err(PathError::InvalidPath),
            },
            _ => Err(PathError::TypeMismatch),
        }
    }
}

/// The mapping key a token addresses, as a fresh string.
pub fn token_key_string(tok: &Token) -> (k: String)
    ensures
        k@ == tok_key(tok@),
{
    match tok {
        Token::Key(s) => s.clone(),
        Token::Index(i) => index_digits(*i),
        Token::Append => {
            let r = String::from_str("-");
            proof {
                reveal_strlit("-");
                assert(r@ =~= seq!['-']);
            }
            r
        },
    }
}

/// Outcome of addressing a sequence of length `len` with a token.
pub enum SeqPlace {
    /// A position strictly inside the sequence.
    Inside(usize),
    /// The position exactly one past the last element, as a number.
    AtLen,
    /// A numeric position beyond the length.
    Beyond,
    /// The append marker.
    End,
    /// Not a sequence address.
    Bad,
}

/// Decides how `tok` addresses a sequence of `len` elements.
pub fn seq_place(tok: &Token, len: usize) -> (r: SeqPlace)
    ensures
        match r {
            SeqPlace::Inside(i) => tok_seq_addr(tok@) == SeqAddr::At(i as int) && i < len,
            SeqPlace::AtLen => tok_seq_addr(tok@) == SeqAddr::At(len as int),
            SeqPlace::Beyond => tok_seq_addr(tok@) matches SeqAddr::At(v) && v > len,
            SeqPlace::End => tok_seq_addr(tok@) == SeqAddr::End,
            SeqPlace::Bad => tok_seq_addr(tok@) == SeqAddr::Bad,
        },
{
    match tok {
        Token::Index(i) => {
            if *i < len {
                SeqPlace::Inside(*i)
            } else if *i == len {
                SeqPlace::AtLen
            } else {
                SeqPlace::Beyond
            }
        },
        Token::Append => SeqPlace::End,
        Token::Key(s) => {
            let sl = s.as_str();
            if sl.unicode_len() == 1 && sl.get_char(0) == '-' {
                return SeqPlace::End;
            }
            match parse_index_value(sl) {
                ParsedIndex::Val(v) => {
                    if v < len {
                        SeqPlace::Inside(v)
                    } else if v == len {
                        SeqPlace::AtLen
                    } else {
                        SeqPlace::Beyond
                    }
                },
                ParsedIndex::Huge => SeqPlace::Beyond,
                ParsedIndex::NotDigits => SeqPlace::Bad,
            }
        },
    }
}

/// A fresh element list with the same models.
#[verifier::loop_isolation(false)]
fn clone_elems(v: &Vec<Tree>) -> (out: Vec<Tree>)
    ensures
        out@.len() == v@.len(),
        forall|q: int| 0 <= q < v@.len() ==> out@[q]@ == v@[q]@,
{
    let mut out: Vec<Tree> = Vec::new();
    for i in 0..v.len()
        invariant
            out@.len() == i,
            forall|q: int| 0 <= q < i ==> out@[q]@ == v@[q]@,
        decreases v@.len() - i,
    {
        out.push(v[i].deep_copy());
    }
    out
}

/// A fresh entry list with the same models.
#[verifier::loop_isolation(false)]
fn clone_entries(v: &Vec<(String, Tree)>) -> (out: Vec<(String, Tree)>)
    ensures
        out@.len() == v@.len(),
        forall|q: int| 0 <= q < v@.len() ==> out@[q].0@ == v@[q].0@ && out@[q].1@ == v@[q].1@,
{
    let mut out: Vec<(String, Tree)> = Vec::new();
    for i in 0..v.len()
        invariant
            out@.len() == i,
            forall|q: int| 0 <= q < i ==> out@[q].0@ == v@[q].0@ && out@[q].1@ == v@[q].1@,
        decreases v@.len() - i,
    {
        out.push((v[i].0.clone(), v[i].1.deep_copy()));
    }
    out
}

/// The element list with position `j` replaced by `nv`.
fn elems_replaced(v: &Vec<Tree>, j: usize, nv: Tree) -> (out: Vec<Tree>)
    requires
        j < v@.len(),
    ensures
        elems_view(out@) == elems_view(v@).update(j as int, nv@),
{
    let ghost nvv = nv@;
    let mut out = clone_elems(v);
    out[j] = nv;
    proof {
        assert(elems_view(out@) =~= elems_view(v@).update(j as int, nvv));
    }
    out
}

/// The element list with `nv` inserted at position `j`.
fn elems_inserted(v: &Vec<Tree>, j: usize, nv: Tree) -> (out: Vec<Tree>)
    requires
        j <= v@.len(),
    ensures
        elems_view(out@) == elems_view(v@).insert(j as int, nv@),
{
    let ghost nvv = nv@;
    let mut out = clone_elems(v);
    out.insert(j, nv);
    proof {
        assert(elems_view(out@) =~= elems_view(v@).insert(j as int, nvv));
    }
    out
}

/// The element list with position `j` removed.
fn elems_removed(v: &Vec<Tree>, j: usize) -> (out: Vec<Tree>)
    requires
        j < v@.len(),
    ensures
        elems_view(out@) == elems_view(v@).remove(j as int),
{
    let mut out = clone_elems(v);
    out.remove(j);
    proof {
        assert(elems_view(out@) =~= elems_view(v@).remove(j as int));
    }
    out
}

/// The entry list with the value at position `j` replaced by `nv`, its key
/// kept.
fn entries_replaced(entries: &Vec<(String, Tree)>, j: usize, nv: Tree) -> (out: Vec<
    (String, Tree),
>)
    requires
        j < entries@.len(),
    ensures
        entries_view(out@) == entries_view(entries@).update(
            j as int,
            (entries@[j as int].0@, nv@),
        ),
{
    let ghost nvv = nv@;
    let mut out = clone_entries(entries);
    let key = entries[j].0.clone();
    out[j] = (key, nv);
    proof {
        assert(entries_view(out@) =~= entries_view(entries@).update(
            j as int,
            (entries@[j as int].0@, nvv),
        ));
    }
    out
}

/// The entry list extended by the entry `(k, nv)`.
fn entries_pushed(entries: &Vec<(String, Tree)>, k: String, nv: Tree) -> (out: Vec<(String, Tree)>)
    ensures
        entries_view(out@) == entries_view(entries@).push((k@, nv@)),
{
    let ghost kv = k@;
    let ghost nvv = nv@;
    let mut out = clone_entries(entries);
    out.push((k, nv));
    proof {
        assert(entries_view(out@) =~= entries_view(entries@).push((kv, nvv)));
    }
    out
}

/// The entry list with position `j` removed.
fn entries_removed(entries: &Vec<(String, Tree)>, j: usize) -> (out: Vec<(String, Tree)>)
    requires
        j < entries@.len(),
    ensures
        entries_view(out@) == entries_view(entries@).remove(j as int),
{
    let mut out = clone_entries(entries);
    out.remove(j);
    proof {
        assert(entries_view(out@) =~= entries_view(entries@).remove(j as int));
    }
    out
}

/// Inserts `v` at the path `path[pi..]` within `t`, leaving `t` untouched.
#[verifier::loop_isolation(false)]
fn insert_at(t: &Tree, path: &Vec<Token>, pi: usize, v: Tree) -> (r: Result<Tree, PathError>)
    requires
        pi <= path@.len(),
    ensures
        ({
            let s = insert_spec(t@, path.deep_view().skip(pi as int), v@);
            match r {
                Ok(out) => s == Ok::<TreeV, PathError>(out@),
                Err(e) => s == Err::<TreeV, PathError>(e),
            }
        }),
    decreases path@.len() - pi,
{
    let ghost p = path.deep_view().skip(pi as int);
    if pi == path.len() {
        return Ok(v);
    }
    proof {
        assert(p[0] == path.deep_view()[pi as int]);
        assert(p.drop_first() =~= path.deep_view().skip(pi as int + 1));
    }
    let last = pi + 1 == path.len();
    match t {
        Tree::Mapping(entries) => {
            let ghost m = entries_view(entries@);
            let k = token_key_string(&path[pi]);
            match Tree::map_find(entries, &k) {
                Some(j) => {
                    proof {
                        lemma_key_idx(m, k@);
                        assert(m[j as int] == (entries@[j as int].0@, entries@[j as int].1@));
                        assert(m[j as int].0 == k@);
                    }
                    if last {
                        let out = entries_replaced(entries, j, v);
                        return Ok(Tree::Mapping(out));
                    }
                    match insert_at(&entries[j].1, path, pi + 1, v) {
                        Ok(c) => Ok(Tree::Mapping(entries_replaced(entries, j, c))),
                        Err(e) => Err(e),
                    }
                },
                None => {
                    if last {
                        return Ok(Tree::Mapping(entries_pushed(entries, k, v)));
                    }
                    let empty = Tree::Mapping(Vec::new());
                    proof {
                        assert(empty@->Mapping_0 =~= Seq::<(Seq<char>, TreeV)>::empty());
                    }
                    match insert_at(&empty, path, pi + 1, v) {
                        Ok(c) => Ok(Tree::Mapping(entries_pushed(entries, k, c))),
                        Err(e) => Err(e),
                    }
                },
            }
        },
        Tree::Sequence(elems) => {
            match seq_place(&path[pi], elems.len()) {
                SeqPlace::End => {
                    if last {
                        let mut out = clone_elems(elems);
                        out.push(v);
                        proof {
                            assert(elems_view(out@) =~= elems_view(elems@).push(v@));
                        }
                        Ok(Tree::Sequence(out))
                    } else {
                        Err(PathError::InvalidPath)
                    }
                },
                SeqPlace::Inside(i) => {
                    if last {
                        Ok(Tree::Sequence(elems_inserted(elems, i, v)))
                    } else {
                        match insert_at(&elems[i], path, pi + 1, v) {
                            Ok(c) => Ok(Tree::Sequence(elems_replaced(elems, i, c))),
                            Err(e) => Err(e),
                        }
                    }
                },
                SeqPlace::AtLen => {
                    if last {
                        Ok(Tree::Sequence(elems_inserted(elems, elems.len(), v)))
                    } else {
                        Err(PathError::IndexOutOfBounds)
                    }
                },
                SeqPlace::Beyond => Err(PathError::IndexOutOfBounds),
                SeqPlace::Bad => Err(PathError::InvalidPath),
            }
        },
        _ => Err(PathError::TypeMismatch),
    }
}

/// Inserts `v` at `path` within `t`, creating missing intermediate mapping
/// keys; the input tree is left untouched.
pub fn insert(t: &Tree, path: &Vec<Token>, v: Tree) -> (r: Result<Tree, PathError>)
    ensures
        ({
            let s = insert_spec(t@, path.deep_view(), v@);
            match r {
                Ok(out) => s == Ok::<TreeV, PathError>(out@),
                Err(e) => s == Err::<TreeV, PathError>(e),
            }
        }),
{
    proof {
        assert(path.deep_view().skip(0) =~= path.deep_view());
    }
    insert_at(t, path, 0, v)
}

/// Removes the node at `path[pi..]` within `t`, leaving `t` untouched.
#[verifier::loop_isolation(false)]
fn delete_at(t: &Tree, path: &Vec<Token>, pi: usize) -> (r: Result<Tree, PathError>)
    requires
        pi <= path@.len(),
    ensures
        ({
            let s = delete_spec(t@, path.deep_view().skip(pi as int));
            match r {
                Ok(out) => s == Ok::<TreeV, PathError>(out@),
                Err(e) => s == Err::<TreeV, PathError>(e),
            }
        }),
    decreases path@.len() - pi,
{
    let ghost p = path.deep_view().skip(pi as int);
    if pi == path.len() {
        return Err(PathError::InvalidPath);
    }
    proof {
        assert(p[0] == path.deep_view()[pi as int]);
        assert(p.drop_first() =~= path.deep_view().skip(pi as int + 1));
    }
    let last = pi + 1 == path.len();
    match t {
        Tree::Mapping(entries) => {
            let ghost m = entries_view(entries@);
            let k = token_key_string(&path[pi]);
            match Tree::map_find(entries, &k) {
                Some(j) => {
                    proof {
                        lemma_key_idx(m, k@);
                        assert(m[j as int] == (entries@[j as int].0@, entries@[j as int].1@));
                        assert(m[j as int].0 == k@);
                    }
                    if last {
                        Ok(Tree::Mapping(entries_removed(entries, j)))
                    } else {
                        match delete_at(&entries[j].1, path, pi + 1) {
                            Ok(c) => Ok(Tree::Mapping(entries_replaced(entries, j, c))),
                            Err(e) => Err(e),
                        }
                    }
                },
                None => Err(PathError::PathNotFound),
            }
        },
        Tree::Sequence(elems) => {
            match seq_place(&path[pi], elems.len()) {
                SeqPlace::Inside(i) => {
                    if last {
                        Ok(Tree::Sequence(elems_removed(elems, i)))
                    } else {
                        match delete_at(&elems[i], path, pi + 1) {
                            Ok(c) => Ok(Tree::Sequence(elems_replaced(elems, i, c))),
                            Err(e) => Err(e),
                        }
                    }
                },
                SeqPlace::AtLen => Err(PathError::IndexOutOfBounds),
                SeqPlace::Beyond => Err(PathError::IndexOutOfBounds),
                SeqPlace::End => Err(PathError::IndexOutOfBounds),
                SeqPlace::Bad => Err(PathError::InvalidPath),
            }
        },
        _ => Err(PathError::TypeMismatch),
    }
}

/// Removes the node at `path` within `t`; the root cannot be removed and a
/// missing path is an error. The input tree is left untouched.
pub fn delete(t: &Tree, path: &Vec<Token>) -> (r: Result<Tree, PathError>)
    ensures
        ({
            let s = delete_spec(t@, path.deep_view());
            match r {
                Ok(out) => s == Ok::<TreeV, PathError>(out@),
                Err(e) => s == Err::<TreeV, PathError>(e),
            }
        }),
{
    proof {
        assert(path.deep_view().skip(0) =~= path.deep_view());
    }
    delete_at(t, path, 0)
}

/// Replaces the node at `path[pi..]` within `t`, leaving `t` untouched.
#[verifier::loop_isolation(false)]
fn set_at(t: &Tree, path: &Vec<Token>, pi: usize, v: Tree) -> (r: Result<Tree, PathError>)
    requires
        pi <= path@.len(),
    ensures
        ({
            let s = set_spec(t@, path.deep_view().skip(pi as int), v@);
            match r {
                Ok(out) => s == Ok::<TreeV, PathError>(out@),
                Err(e) => s == Err::<TreeV, PathError>(e),
            }
        }),
    decreases path@.len() - pi,
{
    let ghost p = path.deep_view().skip(pi as int);
    if pi == path.len() {
        return Ok(v);
    }
    proof {
        assert(p[0] == path.deep_view()[pi as int]);
        assert(p.drop_first() =~= path.deep_view().skip(pi as int + 1));
    }
    let last = pi + 1 == path.len();
    match t {
        Tree::Mapping(entries) => {
            let ghost m = entries_view(entries@);
            let k = token_key_string(&path[pi]);
            match Tree::map_find(entries, &k) {
                Some(j) => {
                    proof {
                        lemma_key_idx(m, k@);
                        assert(m[j as int] == (entries@[j as int].0@, entries@[j as int].1@));
                        assert(m[j as int].0 == k@);
                    }
                    if last {
                        Ok(Tree::Mapping(entries_replaced(entries, j, v)))
                    } else {
                        match set_at(&entries[j].1, path, pi + 1, v) {
                            Ok(c) => Ok(Tree::Mapping(entries_replaced(entries, j, c))),
                            Err(e) => Err(e),
                        }
                    }
                },
                None => {
                    if last {
                        Ok(Tree::Mapping(entries_pushed(entries, k, v)))
                    } else {
                        Err(PathError::PathNotFound)
                    }
                },
            }
        },
        Tree::Sequence(elems) => {
            match seq_place(&path[pi], elems.len()) {
                SeqPlace::Inside(i) => {
                    if last {
                        Ok(Tree::Sequence(elems_replaced(elems, i, v)))
                    } else {
                        match set_at(&elems[i], path, pi + 1, v) {
                            Ok(c) => Ok(Tree::Sequence(elems_replaced(elems, i, c))),
                            Err(e) => Err(e),
                        }
                    }
                },
                SeqPlace::AtLen => Err(PathError::IndexOutOfBounds),
                SeqPlace::Beyond => Err(PathError::IndexOutOfBounds),
                SeqPlace::End => Err(PathError::IndexOutOfBounds),
                SeqPlace::Bad => Err(PathError::InvalidPath),
            }
        },
        _ => Err(PathError::TypeMismatch),
    }
}

/// Replaces the node at `path` within `t`; a final mapping key is created
/// when missing, anything else missing is an error. The input tree is left
/// untouched.
pub fn set(t: &Tree, path: &Vec<Token>, v: Tree) -> (r: Result<Tree, PathError>)
    ensures
        ({
            let s = set_spec(t@, path.deep_view(), v@);
            match r {
                Ok(out) => s == Ok::<TreeV, PathError>(out@),
                Err(e) => s == Err::<TreeV, PathError>(e),
            }
        }),
{
    proof {
        assert(path.deep_view().skip(0) =~= path.deep_view());
    }
    set_at(t, path, 0, v)
}

/// Locates the node at `path[pi..]` within `t`.
#[verifier::loop_isolation(false)]
fn resolve_at<'a>(t: &'a Tree, path: &Vec<Token>, pi: usize) -> (r: Result<&'a Tree, PathError>)
    requires
        pi <= path@.len(),
    ensures
        ({
            let s = get_spec(t@, path.deep_view().skip(pi as int));
            match r {
                Ok(n) => s == Ok::<TreeV, PathError>(n@),
                Err(e) => s == Err::<TreeV, PathError>(e),
            }
        }),
    decreases path@.len() - pi,
{
    let ghost p = path.deep_view().skip(pi as int);
    if pi == path.len() {
        return Ok(t);
    }
    proof {
        assert(p[0] == path.deep_view()[pi as int]);
        assert(p.drop_first() =~= path.deep_view().skip(pi as int + 1));
    }
    match t {
        Tree::Mapping(entries) => {
            let ghost m = entries_view(entries@);
            let k = token_key_string(&path[pi]);
            match Tree::map_find(entries, &k) {
                Some(j) => {
                    proof {
                        lemma_key_idx(m, k@);
                        assert(m[j as int] == (entries@[j as int].0@, entries@[j as int].1@));
                    }
                    resolve_at(&entries[j].1, path, pi + 1)
                },
                None => Err(PathError::PathNotFound),
            }
        },
        Tree::Sequence(elems) => {
            match seq_place(&path[pi], elems.len()) {
                SeqPlace::Inside(i) => resolve_at(&elems[i], path, pi + 1),
                SeqPlace::AtLen => Err(PathError::IndexOutOfBounds),
                SeqPlace::Beyond => Err(PathError::IndexOutOfBounds),
                SeqPlace::End => Err(PathError::IndexOutOfBounds),
                SeqPlace::Bad => Err(PathError::InvalidPath),
            }
        },
        _ => Err(PathError::TypeMismatch),
    }
}

/// Locates the node addressed by `path` within `t`.
pub fn resolve<'a>(t: &'a Tree, path: &Vec<Token>) -> (r: Result<&'a Tree, PathError>)
    ensures
        ({
            let s = get_spec(t@, path.deep_view());
            match r {
                Ok(n) => s == Ok::<TreeV, PathError>(n@),
                Err(e) => s == Err::<TreeV, PathError>(e),
            }
        }),
{
    proof {
        assert(path.deep_view().skip(0) =~= path.deep_view());
    }
    resolve_at(t, path, 0)
}

} // verus!
