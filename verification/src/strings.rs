//! Verified text utilities over character sequences: line splitting,
//! whitespace trimming, substring search, prefix stripping and joining.

use vstd::prelude::*;

verus! {

/// The characters that trimming removes: those with the Unicode
/// White_Space property.
pub open spec fn is_space(c: char) -> bool {
    ||| c == '\u{9}'
    ||| c == '\u{a}'
    ||| c == '\u{b}'
    ||| c == '\u{c}'
    ||| c == '\u{d}'
    ||| c == ' '
    ||| c == '\u{85}'
    ||| c == '\u{a0}'
    ||| c == '\u{1680}'
    ||| ('\u{2000}' <= c && c <= '\u{200a}')
    ||| c == '\u{2028}'
    ||| c == '\u{2029}'
    ||| c == '\u{202f}'
    ||| c == '\u{205f}'
    ||| c == '\u{3000}'
}

/// Index of the first newline in `s` at or after `from`, or `s.len()`.
pub open spec fn nl_idx(s: Seq<char>, from: int) -> int
    decreases s.len() - from,
{
    if from < 0 || from >= s.len() {
        s.len() as int
    } else if s[from] == '\n' {
        from
    } else {
        nl_idx(s, from + 1)
    }
}

/// One line: everything before the index, with one trailing carriage
/// return removed.
pub open spec fn strip_cr(x: Seq<char>) -> Seq<char> {
    if x.len() > 0 && x.last() == '\r' {
        x.drop_last()
    } else {
        x
    }
}

/// The lines of `s`: split at newlines, each with a trailing carriage
/// return removed, without a final empty line.
pub open spec fn lines_of(s: Seq<char>) -> Seq<Seq<char>>
    decreases s.len(),
{
    if s.len() == 0 {
        Seq::empty()
    } else {
        let j0 = nl_idx(s, 0);
        let j = if 0 <= j0 <= s.len() {
            j0
        } else {
            s.len() as int
        };
        let line = strip_cr(s.take(j));
        if j == s.len() {
            seq![line]
        } else {
            seq![line] + lines_of(s.skip(j + 1))
        }
    }
}

pub open spec fn trim_start_of(s: Seq<char>) -> Seq<char>
    decreases s.len(),
{
    if s.len() > 0 && is_space(s[0]) {
        trim_start_of(s.drop_first())
    } else {
        s
    }
}

pub open spec fn trim_end_of(s: Seq<char>) -> Seq<char>
    decreases s.len(),
{
    if s.len() > 0 && is_space(s.last()) {
        trim_end_of(s.drop_last())
    } else {
        s
    }
}

/// `s` without leading and trailing whitespace.
pub open spec fn trim_of(s: Seq<char>) -> Seq<char> {
    trim_end_of(trim_start_of(s))
}

/// `sub` occurs in `s` starting at `i`.
pub open spec fn occurs_at(s: Seq<char>, sub: Seq<char>, i: int) -> bool {
    0 <= i && i + sub.len() <= s.len() && s.subrange(i, i + sub.len()) == sub
}

/// `sub` occurs somewhere in `s`.
pub open spec fn contains_of(s: Seq<char>, sub: Seq<char>) -> bool {
    exists|i: int| occurs_at(s, sub, i)
}

/// The lines joined by single newlines.
pub open spec fn join_nl(ls: Seq<Seq<char>>) -> Seq<char>
    decreases ls.len(),
{
    if ls.len() == 0 {
        Seq::empty()
    } else if ls.len() == 1 {
        ls[0]
    } else {
        ls[0] + seq!['\n'] + join_nl(ls.drop_first())
    }
}

/// Leading whitespace of `s` reaches exactly to `a`.
proof fn lemma_trim_start(s: Seq<char>, a: int)
    requires
        0 <= a <= s.len(),
        forall|j: int| 0 <= j < a ==> is_space(#[trigger] s[j]),
        a < s.len() ==> !is_space(s[a]),
    ensures
        trim_start_of(s) == s.skip(a),
    decreases a,
{
    if a == 0 {
        assert(s.skip(0) =~= s);
    } else {
        assert(is_space(s[0]));
        assert(forall|j: int| 0 <= j < a - 1 ==> #[trigger] s.drop_first()[j] == s[j + 1]);
        lemma_trim_start(s.drop_first(), a - 1);
        assert(s.drop_first().skip(a - 1) =~= s.skip(a));
    }
}

/// Trailing whitespace of `s` reaches exactly back to `b`.
proof fn lemma_trim_end(s: Seq<char>, b: int)
    requires
        0 <= b <= s.len(),
        forall|j: int| b <= j < s.len() ==> is_space(#[trigger] s[j]),
        b > 0 ==> !is_space(s[b - 1]),
    ensures
        trim_end_of(s) == s.take(b),
    decreases s.len() - b,
{
    if b == s.len() {
        assert(s.take(b) =~= s);
    } else {
        assert(is_space(s.last()));
        assert(forall|j: int| 0 <= j < s.len() - 1 ==> #[trigger] s.drop_last()[j] == s[j]);
        lemma_trim_end(s.drop_last(), b);
        assert(s.drop_last().take(b) =~= s.take(b));
    }
}

/// `s` without leading and trailing whitespace, as a fresh string.
#[verifier::loop_isolation(false)]
pub fn trim(s: &str) -> (r: String)
    ensures
        r@ == trim_of(s@),
{
    let n = s.unicode_len();
    let mut a: usize = 0;
    while a < n && is_space_char(s.get_char(a))
        invariant
            a <= n,
            forall|j: int| 0 <= j < a ==> is_space(#[trigger] s@[j]),
        decreases n - a,
    {
        a = a + 1;
    }
    proof {
        lemma_trim_start(s@, a as int);
    }
    if a == n {
        let r = String::new();
        proof {
            assert(trim_end_of(Seq::<char>::empty()) =~= Seq::<char>::empty());
            assert(s@.skip(a as int) =~= Seq::<char>::empty());
        }
        return r;
    }
    let mut b: usize = n;
    while b > a && is_space_char(s.get_char(b - 1))
        invariant
            a <= b <= n,
            forall|j: int| b <= j < n ==> is_space(#[trigger] s@[j]),
        decreases b,
    {
        b = b - 1;
    }
    // The scan stopped on a non-space at `a`, so `b` cannot reach `a`.
    proof {
        let t = s@.skip(a as int);
        assert(forall|j: int| 0 <= j < t.len() ==> t[j] == s@[a + j]);
        assert(!is_space(t[0]));
        assert(b > a) by {
            if b == a {
                assert(is_space(s@[a as int]));
            }
        }
        lemma_trim_end(t, b - a);
        assert(t.take(b - a) =~= s@.subrange(a as int, b as int));
    }
    let piece = s.substring_char(a, b);
    piece.to_owned()
}

fn is_space_char(c: char) -> (r: bool)
    ensures
        r == is_space(c),
{
    c == '\u{9}' || c == '\u{a}' || c == '\u{b}' || c == '\u{c}' || c == '\u{d}' || c == ' '
        || c == '\u{85}' || c == '\u{a0}' || c == '\u{1680}' || ('\u{2000}' <= c && c
        <= '\u{200a}') || c == '\u{2028}' || c == '\u{2029}' || c == '\u{202f}' || c
        == '\u{205f}' || c == '\u{3000}'
}

/// The lines of `s` from position `i` on.
#[verifier::loop_isolation(false)]
fn lines_from(s: &str, i: usize) -> (r: Vec<String>)
    requires
        i <= s@.len(),
    ensures
        r.deep_view() == lines_of(s@.skip(i as int)),
    decreases s@.len() - i,
{
    let ghost tail = s@.skip(i as int);
    let n = s.unicode_len();
    if i == n {
        let r: Vec<String> = Vec::new();
        proof {
            assert(tail =~= Seq::<char>::empty());
            assert(r.deep_view() =~= lines_of(tail));
        }
        return r;
    }
    let mut j = i;
    while j < n && s.get_char(j) != '\n'
        invariant
            i <= j <= n,
            forall|q: int| i <= q < j ==> s@[q] != '\n',
        decreases n - j,
    {
        j = j + 1;
    }
    proof {
        lemma_nl_idx(tail, 0, j - i);
        assert(tail.take(j - i) =~= s@.subrange(i as int, j as int));
    }
    let mut end = j;
    if end > i && s.get_char(end - 1) == '\r' {
        end = end - 1;
    }
    let line = s.substring_char(i, end).to_owned();
    proof {
        assert(line@ == strip_cr(tail.take(j - i))) by {
            let piece = tail.take(j - i);
            if j > i && s@[j - 1] == '\r' {
                assert(piece.last() == '\r');
                assert(piece.drop_last() =~= s@.subrange(i as int, j - 1));
            } else {
                if piece.len() > 0 && piece.last() == '\r' {
                    assert(s@[j - 1] == '\r');
                }
            }
        }
    }
    if j == n {
        let mut r: Vec<String> = Vec::new();
        r.push(line);
        proof {
            assert(nl_idx(tail, 0) == tail.len());
            assert(r.deep_view() =~= lines_of(tail));
        }
        r
    } else {
        let mut r = lines_from(s, j + 1);
        proof {
            assert(nl_idx(tail, 0) == j - i);
            assert(tail.skip(j - i + 1) =~= s@.skip(j + 1));
        }
        r.insert(0, line);
        proof {
            assert(r.deep_view() =~= seq![strip_cr(tail.take(j - i))] + lines_of(
                s@.skip(j + 1),
            ));
        }
        r
    }
}

/// The first newline of `s[from..]` sits at distance `d`.
proof fn lemma_nl_idx(s: Seq<char>, from: int, d: int)
    requires
        0 <= from,
        from + d <= s.len(),
        0 <= d,
        forall|q: int| from <= q < from + d ==> s[q] != '\n',
        from + d < s.len() ==> s[from + d] == '\n',
    ensures
        nl_idx(s, from) == if from + d < s.len() {
            from + d
        } else {
            s.len() as int
        },
    decreases d,
{
    if d > 0 {
        lemma_nl_idx(s, from + 1, d - 1);
    }
}

/// The lines of `s`, split at newlines, each without a trailing carriage
/// return, without a final empty line.
pub fn split_lines(s: &str) -> (r: Vec<String>)
    ensures
        r.deep_view() == lines_of(s@),
{
    let r = lines_from(s, 0);
    proof {
        assert(s@.skip(0) =~= s@);
    }
    r
}

/// Whether `sub` occurs in `s`.
#[verifier::loop_isolation(false)]
pub fn contains(s: &str, sub: &str) -> (r: bool)
    ensures
        r == contains_of(s@, sub@),
{
    let n = s.unicode_len();
    let m = sub.unicode_len();
    if m > n {
        proof {
            assert forall|i: int| !occurs_at(s@, sub@, i) by {}
        }
        return false;
    }
    if m == 0 {
        proof {
            assert(occurs_at(s@, sub@, 0)) by {
                assert(s@.subrange(0, 0) =~= sub@);
            }
        }
        return true;
    }
    let mut i: usize = 0;
    while i <= n - m
        invariant
            i <= n - m + 1,
            m <= n,
            1 <= m,
            forall|q: int| 0 <= q < i ==> !occurs_at(s@, sub@, q),
        decreases n - i,
    {
        if match_at(s, sub, i) {
            return true;
        }
        i = i + 1;
    }
    proof {
        assert forall|q: int| !occurs_at(s@, sub@, q) by {
            if 0 <= q && q + sub@.len() <= s@.len() {
                assert(q < i);
            }
        }
    }
    false
}

/// Whether `sub` occurs in `s` at position `i`.
#[verifier::loop_isolation(false)]
fn match_at(s: &str, sub: &str, i: usize) -> (r: bool)
    requires
        i + sub@.len() <= s@.len(),
    ensures
        r == occurs_at(s@, sub@, i as int),
{
    let n = s.unicode_len();
    let m = sub.unicode_len();
    let mut j: usize = 0;
    while j < m
        invariant
            j <= m,
            forall|q: int| 0 <= q < j ==> s@[i + q] == sub@[q],
        decreases m - j,
    {
        if s.get_char(i + j) != sub.get_char(j) {
            proof {
                assert(s@.subrange(i as int, i + sub@.len())[j as int] == s@[i + j]);
            }
            return false;
        }
        j = j + 1;
    }
    proof {
        assert(s@.subrange(i as int, i + sub@.len()) =~= sub@);
    }
    true
}

/// Whether `s` starts with `prefix`.
pub open spec fn starts_with_of(s: Seq<char>, prefix: Seq<char>) -> bool {
    prefix.len() <= s.len() && s.take(prefix.len() as int) == prefix
}

/// Whether `s` starts with `prefix`.
pub fn starts_with(s: &str, prefix: &str) -> (r: bool)
    ensures
        r == starts_with_of(s@, prefix@),
{
    let m = prefix.unicode_len();
    if m > s.unicode_len() {
        return false;
    }
    let r = match_at(s, prefix, 0);
    proof {
        assert(s@.subrange(0, prefix@.len() as int) =~= s@.take(prefix@.len() as int));
    }
    r
}

/// The lines `ls[from..]` joined by single newlines.
#[verifier::loop_isolation(false)]
pub fn join_lines(ls: &Vec<String>, from: usize, to: usize) -> (r: String)
    requires
        from <= to <= ls@.len(),
    ensures
        r@ == join_nl(ls.deep_view().subrange(from as int, to as int)),
    decreases to - from,
{
    if from == to {
        let r = String::new();
        proof {
            assert(ls.deep_view().subrange(from as int, to as int) =~= Seq::<Seq<char>>::empty());
        }
        return r;
    }
    let mut r = ls[from].clone();
    if from + 1 == to {
        proof {
            let part = ls.deep_view().subrange(from as int, to as int);
            assert(part.len() == 1);
            assert(part[0] == ls@[from as int]@);
        }
        return r;
    }
    r.append("\n");
    let rest = join_lines(ls, from + 1, to);
    r.append(rest.as_str());
    proof {
        let part = ls.deep_view().subrange(from as int, to as int);
        assert(part[0] == ls@[from as int]@);
        assert(part.drop_first() =~= ls.deep_view().subrange(from as int + 1, to as int));
        reveal_strlit("\n");
        assert(r@ =~= part[0] + seq!['\n'] + join_nl(part.drop_first()));
    }
    r
}


/// The pieces joined by single slashes.
pub open spec fn join_slash(ls: Seq<Seq<char>>) -> Seq<char>
    decreases ls.len(),
{
    if ls.len() == 0 {
        Seq::empty()
    } else if ls.len() == 1 {
        ls[0]
    } else {
        ls[0] + seq!['/'] + join_slash(ls.drop_first())
    }
}

/// The pieces `ls[from..]` joined by single slashes.
#[verifier::loop_isolation(false)]
pub fn join_pieces_slash(ls: &Vec<String>, from: usize) -> (r: String)
    requires
        from <= ls@.len(),
    ensures
        r@ == join_slash(ls.deep_view().subrange(from as int, ls@.len() as int)),
    decreases ls@.len() - from,
{
    if from == ls.len() {
        let r = String::new();
        proof {
            assert(ls.deep_view().subrange(from as int, ls@.len() as int)
                =~= Seq::<Seq<char>>::empty());
        }
        return r;
    }
    let mut r = ls[from].clone();
    if from + 1 == ls.len() {
        proof {
            let part = ls.deep_view().subrange(from as int, ls@.len() as int);
            assert(part.len() == 1);
            assert(part[0] == ls@[from as int]@);
        }
        return r;
    }
    r.append("/");
    let rest = join_pieces_slash(ls, from + 1);
    r.append(rest.as_str());
    proof {
        let part = ls.deep_view().subrange(from as int, ls@.len() as int);
        assert(part[0] == ls@[from as int]@);
        assert(part.drop_first() =~= ls.deep_view().subrange(from as int + 1, ls@.len() as int));
        reveal_strlit("/");
        assert(r@ =~= part[0] + seq!['/'] + join_slash(part.drop_first()));
    }
    r
}

/// Index of the last slash of `s`, or -1 when there is none.
pub open spec fn last_slash(s: Seq<char>) -> int
    decreases s.len(),
{
    if s.len() == 0 {
        -1
    } else if s.last() == '/' {
        s.len() - 1
    } else {
        last_slash(s.drop_last())
    }
}

/// The part of `s` after its last slash (all of `s` when there is none).
pub open spec fn last_segment(s: Seq<char>) -> Seq<char> {
    s.skip(last_slash(s) + 1)
}

/// The last slash of `s` sits at `d`, or nowhere.
proof fn lemma_last_slash(s: Seq<char>, d: int)
    requires
        -1 <= d < s.len(),
        d >= 0 ==> s[d] == '/',
        forall|q: int| d < q < s.len() ==> s[q] != '/',
    ensures
        last_slash(s) == d,
    decreases s.len(),
{
    if s.len() > 0 && s.last() != '/' {
        assert(forall|q: int| 0 <= q < s.len() - 1 ==> #[trigger] s.drop_last()[q] == s[q]);
        lemma_last_slash(s.drop_last(), d);
    }
}

/// The part of `s` after its last slash, as a fresh string.
#[verifier::loop_isolation(false)]
pub fn last_segment_exec(s: &str) -> (r: String)
    ensures
        r@ == last_segment(s@),
{
    let n = s.unicode_len();
    let mut b = n;
    while b > 0 && s.get_char(b - 1) != '/'
        invariant
            b <= n,
            forall|q: int| b <= q < n ==> s@[q] != '/',
        decreases b,
    {
        b = b - 1;
    }
    proof {
        if b == 0 {
            lemma_last_slash(s@, -1);
        } else {
            lemma_last_slash(s@, b - 1);
        }
        assert(s@.subrange(b as int, n as int) =~= s@.skip(last_slash(s@) + 1));
    }
    s.substring_char(b, n).to_owned()
}

} // verus!
