//! The wire form of paths: a path is rendered as a `/`-joined pointer
//! string whose segments escape `~` as `~0` and `/` as `~1`; a digit
//! segment addresses a sequence position and the literal `-` is the append
//! marker.

use vstd::prelude::*;

use crate::path::ParsedIndex;
use crate::path::Token;
use crate::path::TokenV;
use crate::path::digits_val;
use crate::path::index_digits;
use crate::path::nat_digits;
use crate::path::parse_index_value;
use crate::path::valid_index_digits;

verus! {

/// The wire form of one character of a key segment.
pub open spec fn escape_char(c: char) -> Seq<char> {
    if c == '~' {
        seq!['~', '0']
    } else if c == '/' {
        seq!['~', '1']
    } else {
        seq![c]
    }
}

/// The wire form of a key segment.
pub open spec fn escape_seg(s: Seq<char>) -> Seq<char>
    decreases s.len(),
{
    if s.len() == 0 {
        Seq::empty()
    } else {
        escape_char(s[0]) + escape_seg(s.drop_first())
    }
}

/// The wire form of one token.
pub open spec fn seg_text(t: TokenV) -> Seq<char> {
    match t {
        TokenV::Key(s) => escape_seg(s),
        TokenV::Index(i) => nat_digits(i),
        TokenV::Append => seq!['-'],
    }
}

/// The wire form of a path: one `/`-led segment per token; the empty path
/// is the empty string.
pub open spec fn pointer_of(p: Seq<TokenV>) -> Seq<char>
    decreases p.len(),
{
    if p.len() == 0 {
        Seq::empty()
    } else {
        seq!['/'] + seg_text(p[0]) + pointer_of(p.drop_first())
    }
}

/// Index of the first `/` in `s` at or after `from`, or `s.len()`.
pub open spec fn slash_idx(s: Seq<char>, from: int) -> int
    decreases s.len() - from,
{
    if from < 0 || from >= s.len() {
        s.len() as int
    } else if s[from] == '/' {
        from
    } else {
        slash_idx(s, from + 1)
    }
}

/// Unescapes one wire segment: `~0` is `~`, `~1` is `/`, a `~` before
/// anything else is malformed.
pub open spec fn unescape_seg(s: Seq<char>) -> Option<Seq<char>>
    decreases s.len(),
{
    if s.len() == 0 {
        Some(Seq::empty())
    } else if s[0] == '~' {
        if s.len() >= 2 && (s[1] == '0' || s[1] == '1') {
            let c = if s[1] == '0' {
                '~'
            } else {
                '/'
            };
            match unescape_seg(s.skip(2)) {
                Some(rest) => Some(seq![c] + rest),
                None => None,
            }
        } else {
            None
        }
    } else {
        match unescape_seg(s.skip(1)) {
            Some(rest) => Some(seq![s[0]] + rest),
            None => None,
        }
    }
}

/// The token an unescaped segment denotes: the append marker, a
/// representable sequence index, or a mapping key.
pub open spec fn classify_seg(u: Seq<char>) -> TokenV {
    if u.len() == 1 && u[0] == '-' {
        TokenV::Append
    } else if valid_index_digits(u) && digits_val(u) <= usize::MAX {
        TokenV::Index(digits_val(u))
    } else {
        TokenV::Key(u)
    }
}

/// Parses a pointer string into a path: empty means the root, every
/// segment must start with `/` and unescape cleanly.
pub open spec fn parse_ptr(s: Seq<char>) -> Option<Seq<TokenV>>
    decreases s.len(),
{
    if s.len() == 0 {
        Some(Seq::empty())
    } else if s[0] != '/' {
        None
    } else {
        let j0 = slash_idx(s, 1);
        let j = if 1 <= j0 <= s.len() {
            j0
        } else {
            s.len() as int
        };
        match unescape_seg(s.subrange(1, j)) {
            None => None,
            Some(u) => match parse_ptr(s.skip(j)) {
                None => None,
                Some(rest) => Some(seq![classify_seg(u)] + rest),
            },
        }
    }
}

/// Appends the wire form of `seg` (escaped) to `out`.
#[verifier::loop_isolation(false)]
fn append_escaped(out: &mut String, seg: &str)
    ensures
        final(out)@ == old(out)@ + escape_seg(seg@),
{
    let n = seg.unicode_len();
    let mut i: usize = 0;
    while i < n
        invariant
            i <= n,
            out@ == old(out)@ + escape_seg(seg@.take(i as int)),
        decreases n - i,
    {
        let ghost pre = out@;
        let c = seg.get_char(i);
        if c == '~' {
            out.append("~0");
            proof {
                reveal_strlit("~0");
                assert(out@ =~= pre + escape_char(c));
            }
        } else if c == '/' {
            out.append("~1");
            proof {
                reveal_strlit("~1");
                assert(out@ =~= pre + escape_char(c));
            }
        } else {
            let piece = seg.substring_char(i, i + 1);
            out.append(piece);
            proof {
                assert(piece@ =~= escape_char(c));
                assert(out@ =~= pre + escape_char(c));
            }
        }
        proof {
            lemma_escape_take_step(seg@, i as int);
            assert(out@ =~= old(out)@ + escape_seg(seg@.take(i as int + 1)));
        }
        i = i + 1;
    }
    proof {
        assert(seg@.take(n as int) =~= seg@);
    }
}

/// Escaping a prefix extends by the escape of its next character.
proof fn lemma_escape_take_step(s: Seq<char>, i: int)
    requires
        0 <= i < s.len(),
    ensures
        escape_seg(s.take(i + 1)) == escape_seg(s.take(i)) + escape_char(s[i]),
    decreases i,
{
    if i == 0 {
        assert(s.take(1).drop_first() =~= Seq::<char>::empty());
        assert(escape_seg(Seq::<char>::empty()) + escape_char(s[0]) =~= escape_char(s[0]));
        assert(escape_seg(s.take(1)) =~= escape_char(s[0]) + escape_seg(Seq::<char>::empty()));
        assert(escape_char(s[0]) + escape_seg(Seq::<char>::empty()) =~= escape_char(s[0]));
    } else {
        let t = s.take(i + 1);
        assert(t[0] == s[0]);
        assert(t.drop_first() =~= s.drop_first().take(i));
        assert(s.take(i)[0] == s[0]);
        assert(s.take(i).drop_first() =~= s.drop_first().take(i - 1));
        assert(forall|q: int| 0 <= q < s.len() - 1 ==> #[trigger] s.drop_first()[q] == s[q + 1]);
        lemma_escape_take_step(s.drop_first(), i - 1);
        assert(escape_seg(t) == escape_char(s[0]) + escape_seg(s.drop_first().take(i)));
        assert(escape_seg(s.drop_first().take(i)) == escape_seg(s.drop_first().take(i - 1))
            + escape_char(s[i]));
        assert(escape_char(s[0]) + (escape_seg(s.drop_first().take(i - 1)) + escape_char(s[i]))
            =~= (escape_char(s[0]) + escape_seg(s.drop_first().take(i - 1))) + escape_char(s[i]));
    }
}

/// Renders a path as its pointer string.
#[verifier::loop_isolation(false)]
pub fn pointer_string(path: &Vec<Token>) -> (r: String)
    ensures
        r@ == pointer_of(path.deep_view()),
{
    let mut out = String::new();
    for i in 0..path.len()
        invariant
            out@ == pointer_prefix(path.deep_view(), i as int),
        decreases path@.len() - i,
    {
        let ghost pre = out@;
        out.append("/");
        proof {
            reveal_strlit("/");
        }
        match &path[i] {
            Token::Key(s) => {
                append_escaped(&mut out, s.as_str());
            },
            Token::Index(n) => {
                let digits = index_digits(*n);
                out.append(digits.as_str());
            },
            Token::Append => {
                out.append("-");
                proof {
                    reveal_strlit("-");
                }
            },
        }
        proof {
            assert(out@ =~= pre + (seq!['/'] + seg_text(path.deep_view()[i as int])));
            lemma_pointer_prefix_step(path.deep_view(), i as int);
        }
    }
    proof {
        lemma_pointer_prefix_full(path.deep_view());
    }
    out
}

/// The pointer text of the first `i` tokens.
pub open spec fn pointer_prefix(p: Seq<TokenV>, i: int) -> Seq<char> {
    pointer_of(p.take(i))
}

proof fn lemma_pointer_prefix_step(p: Seq<TokenV>, i: int)
    requires
        0 <= i < p.len(),
    ensures
        pointer_prefix(p, i + 1) == pointer_prefix(p, i) + (seq!['/'] + seg_text(p[i])),
    decreases i,
{
    if i == 0 {
        assert(p.take(1)[0] == p[0]);
        assert(p.take(1).drop_first() =~= Seq::<TokenV>::empty());
        assert(p.take(0) =~= Seq::<TokenV>::empty());
        assert(pointer_of(Seq::<TokenV>::empty()) =~= Seq::<char>::empty());
        assert(pointer_of(p.take(1)) =~= seq!['/'] + seg_text(p[0]) + Seq::<char>::empty());
        assert(pointer_of(p.take(0)) + (seq!['/'] + seg_text(p[0])) =~= seq!['/'] + seg_text(p[0])
            + Seq::<char>::empty());
    } else {
        let t = p.take(i + 1);
        assert(t[0] == p[0]);
        assert(t.drop_first() =~= p.drop_first().take(i));
        assert(p.take(i)[0] == p[0]);
        assert(p.take(i).drop_first() =~= p.drop_first().take(i - 1));
        assert(forall|q: int| 0 <= q < p.len() - 1 ==> #[trigger] p.drop_first()[q] == p[q + 1]);
        lemma_pointer_prefix_step(p.drop_first(), i - 1);
        assert(pointer_of(t) == seq!['/'] + seg_text(p[0]) + pointer_of(p.drop_first().take(i)));
        assert(pointer_of(p.drop_first().take(i)) == pointer_of(p.drop_first().take(i - 1)) + (
        seq!['/'] + seg_text(p[i])));
        assert(seq!['/'] + seg_text(p[0]) + (pointer_of(p.drop_first().take(i - 1)) + (seq!['/']
            + seg_text(p[i]))) =~= (seq!['/'] + seg_text(p[0]) + pointer_of(
            p.drop_first().take(i - 1),
        )) + (seq!['/'] + seg_text(p[i])));
    }
}

proof fn lemma_pointer_prefix_full(p: Seq<TokenV>)
    ensures
        pointer_prefix(p, p.len() as int) == pointer_of(p),
{
    assert(p.take(p.len() as int) =~= p);
}

/// Parses the pointer suffix of `s` that starts at `i`.
#[verifier::loop_isolation(false)]
fn parse_pointer_from(s: &str, i: usize) -> (r: Option<Vec<Token>>)
    requires
        i <= s@.len(),
    ensures
        ({
            let spec = parse_ptr(s@.skip(i as int));
            match r {
                Some(p) => spec == Some(p.deep_view()),
                None => spec is None,
            }
        }),
    decreases s@.len() - i,
{
    let ghost tail = s@.skip(i as int);
    proof {
        assert(forall|q: int| 0 <= q < tail.len() ==> #[trigger] tail[q] == s@[i + q]);
    }
    let n = s.unicode_len();
    if i == n {
        let r: Vec<Token> = Vec::new();
        proof {
            assert(tail =~= Seq::<char>::empty());
            assert(r.deep_view() =~= Seq::<TokenV>::empty());
        }
        return Some(r);
    }
    if s.get_char(i) != '/' {
        return None;
    }
    let mut j = i + 1;
    while j < n && s.get_char(j) != '/'
        invariant
            i + 1 <= j <= n,
            forall|q: int| i + 1 <= q < j ==> s@[q] != '/',
        decreases n - j,
    {
        j = j + 1;
    }
    proof {
        lemma_slash_idx(tail, 1, j - i - 1);
        assert(tail.subrange(1, j - i) =~= s@.subrange(i as int + 1, j as int));
    }
    let useg = match unescape_to_string(s, i + 1, j) {
        Some(u) => u,
        None => {
            return None;
        },
    };
    let tok = classify_token(&useg);
    proof {
        assert(tail.skip(j - i) =~= s@.skip(j as int));
    }
    let rest = match parse_pointer_from(s, j) {
        Some(p) => p,
        None => {
            return None;
        },
    };
    let ghost restv = rest.deep_view();
    let mut out = rest;
    out.insert(0, tok);
    proof {
        assert(out.deep_view() =~= seq![classify_seg(useg@)] + restv);
    }
    Some(out)
}

/// The first slash of `s[from..]` sits at distance `d`.
proof fn lemma_slash_idx(s: Seq<char>, from: int, d: int)
    requires
        0 <= from,
        from + d <= s.len(),
        0 <= d,
        forall|q: int| from <= q < from + d ==> s[q] != '/',
        from + d < s.len() ==> s[from + d] == '/',
    ensures
        slash_idx(s, from) == if from + d < s.len() {
            from + d
        } else {
            s.len() as int
        },
    decreases d,
{
    if d > 0 {
        lemma_slash_idx(s, from + 1, d - 1);
    }
}

/// Unescapes the wire segment `s[from..to)`.
#[verifier::loop_isolation(false)]
fn unescape_to_string(s: &str, from: usize, to: usize) -> (r: Option<String>)
    requires
        from <= to <= s@.len(),
    ensures
        ({
            let spec = unescape_seg(s@.subrange(from as int, to as int));
            match r {
                Some(u) => spec == Some(u@),
                None => spec is None,
            }
        }),
    decreases to - from,
{
    let ghost seg = s@.subrange(from as int, to as int);
    let n = s.unicode_len();
    if from == to {
        let r = String::new();
        proof {
            assert(seg =~= Seq::<char>::empty());
        }
        return Some(r);
    }
    let c = s.get_char(from);
    proof {
        assert(seg[0] == s@[from as int]);
    }
    if c == '~' {
        if to - from < 2 {
            proof {
                assert(seg.len() < 2);
            }
            return None;
        }
        let e = s.get_char(from + 1);
        proof {
            assert(seg[1] == s@[from as int + 1]);
        }
        if e != '0' && e != '1' {
            return None;
        }
        proof {
            assert(seg.skip(2) =~= s@.subrange(from as int + 2, to as int));
        }
        let rest = match unescape_to_string(s, from + 2, to) {
            Some(u) => u,
            None => {
                return None;
            },
        };
        let mut out = if e == '0' {
            let x = String::from_str("~");
            proof {
                reveal_strlit("~");
            }
            x
        } else {
            let x = String::from_str("/");
            proof {
                reveal_strlit("/");
            }
            x
        };
        out.append(rest.as_str());
        proof {
            let cc = if seg[1] == '0' {
                '~'
            } else {
                '/'
            };
            assert(out@ =~= seq![cc] + rest@);
        }
        Some(out)
    } else {
        proof {
            assert(seg.skip(1) =~= s@.subrange(from as int + 1, to as int));
        }
        let rest = match unescape_to_string(s, from + 1, to) {
            Some(u) => u,
            None => {
                return None;
            },
        };
        let mut out = s.substring_char(from, from + 1).to_owned();
        out.append(rest.as_str());
        proof {
            assert(out@ =~= seq![seg[0]] + rest@);
        }
        Some(out)
    }
}

/// The token an unescaped segment denotes.
fn classify_token(u: &String) -> (t: Token)
    ensures
        t@ == classify_seg(u@),
{
    let sl = u.as_str();
    if sl.unicode_len() == 1 && sl.get_char(0) == '-' {
        return Token::Append;
    }
    match parse_index_value(sl) {
        ParsedIndex::Val(v) => Token::Index(v),
        ParsedIndex::Huge => Token::Key(u.clone()),
        ParsedIndex::NotDigits => Token::Key(u.clone()),
    }
}

/// Parses a pointer string into a path: the empty string is the root path,
/// and every segment must start with `/` and unescape cleanly.
pub fn parse_pointer(s: &str) -> (r: Option<Vec<Token>>)
    ensures
        ({
            let spec = parse_ptr(s@);
            match r {
                Some(p) => spec == Some(p.deep_view()),
                None => spec is None,
            }
        }),
{
    let r = parse_pointer_from(s, 0);
    proof {
        assert(s@.skip(0) =~= s@);
    }
    r
}


/// The escaped form of a segment never contains a separator.
pub proof fn lemma_escape_no_slash(s: Seq<char>)
    ensures
        forall|i: int| 0 <= i < escape_seg(s).len() ==> #[trigger] escape_seg(s)[i] != '/',
    decreases s.len(),
{
    if s.len() > 0 {
        lemma_escape_no_slash(s.drop_first());
        let e = escape_seg(s);
        let hd = escape_char(s[0]);
        assert forall|i: int| 0 <= i < e.len() implies #[trigger] e[i] != '/' by {
            if i < hd.len() {
                assert(e[i] == hd[i]);
            } else {
                assert(e[i] == escape_seg(s.drop_first())[i - hd.len()]);
            }
        }
    }
}

/// Unescaping undoes escaping: the wire form of a segment reads back as
/// the segment itself.
pub proof fn lemma_unescape_escape(s: Seq<char>)
    ensures
        unescape_seg(escape_seg(s)) == Some(s),
    decreases s.len(),
{
    if s.len() == 0 {
        assert(escape_seg(s) =~= Seq::<char>::empty());
    } else {
        lemma_unescape_escape(s.drop_first());
        let e = escape_seg(s);
        let hd = escape_char(s[0]);
        assert(forall|i: int|
            0 <= i < escape_seg(s.drop_first()).len() ==> #[trigger] e[hd.len() + i]
                == escape_seg(s.drop_first())[i]);
        if s[0] == '~' || s[0] == '/' {
            assert(hd.len() == 2);
            assert(e[0] == '~');
            assert(e[1] == (if s[0] == '~' {
                '0'
            } else {
                '1'
            }));
            assert(e.skip(2) =~= escape_seg(s.drop_first()));
            assert(seq![s[0]] + s.drop_first() =~= s);
        } else {
            assert(hd.len() == 1);
            assert(e[0] == s[0]);
            assert(e.skip(1) =~= escape_seg(s.drop_first()));
            assert(seq![s[0]] + s.drop_first() =~= s);
        }
    }
}

/// A segment without tildes unescapes to itself.
pub proof fn lemma_unescape_plain(s: Seq<char>)
    requires
        forall|i: int| 0 <= i < s.len() ==> #[trigger] s[i] != '~',
    ensures
        unescape_seg(s) == Some(s),
    decreases s.len(),
{
    if s.len() > 0 {
        assert(forall|i: int|
            0 <= i < s.len() - 1 ==> #[trigger] s.drop_first()[i] == s[i + 1]);
        lemma_unescape_plain(s.drop_first());
        assert(s.skip(1) =~= s.drop_first());
        assert(seq![s[0]] + s.drop_first() =~= s);
    }
}

/// A token whose wire form reads back as the token itself: indices and the
/// append marker always do; a key does when its text is not itself an
/// index spelling or the marker.
pub open spec fn canonical_token(t: TokenV) -> bool {
    match t {
        TokenV::Key(s) => classify_seg(s) == TokenV::Key(s),
        TokenV::Index(i) => 0 <= i <= usize::MAX,
        TokenV::Append => true,
    }
}

/// The wire form of one canonical token has no separator and reads back as
/// the token.
proof fn lemma_seg_text_reads_back(t: TokenV)
    requires
        canonical_token(t),
    ensures
        forall|i: int| 0 <= i < seg_text(t).len() ==> #[trigger] seg_text(t)[i] != '/',
        unescape_seg(seg_text(t)) is Some,
        classify_seg(unescape_seg(seg_text(t))->Some_0) == t,
{
    match t {
        TokenV::Key(s) => {
            lemma_escape_no_slash(s);
            lemma_unescape_escape(s);
        },
        TokenV::Index(i) => {
            crate::path::lemma_nat_digits_valid(i);
            let d = nat_digits(i);
            assert(forall|q: int|
                0 <= q < d.len() ==> crate::path::is_digit(#[trigger] d[q]));
            assert(forall|q: int| 0 <= q < d.len() ==> #[trigger] d[q] != '/');
            assert(forall|q: int| 0 <= q < d.len() ==> #[trigger] d[q] != '~');
            lemma_unescape_plain(d);
            assert(!(d.len() == 1 && d[0] == '-'));
            assert(classify_seg(d) == TokenV::Index(i));
        },
        TokenV::Append => {
            let d = seq!['-'];
            assert(forall|q: int| 0 <= q < d.len() ==> #[trigger] d[q] != '/');
            assert(forall|q: int| 0 <= q < d.len() ==> #[trigger] d[q] != '~');
            lemma_unescape_plain(d);
            assert(!valid_index_digits(d));
            assert(classify_seg(d) == TokenV::Append);
        },
    }
}

/// Parsing undoes rendering: the pointer string of a path of canonical
/// tokens reads back as that path.
pub proof fn lemma_pointer_round_trip(p: Seq<TokenV>)
    requires
        forall|i: int| 0 <= i < p.len() ==> canonical_token(#[trigger] p[i]),
    ensures
        parse_ptr(pointer_of(p)) == Some(p),
    decreases p.len(),
{
    if p.len() == 0 {
        assert(pointer_of(p) =~= Seq::<char>::empty());
    } else {
        let s = pointer_of(p);
        let seg = seg_text(p[0]);
        let rest = pointer_of(p.drop_first());
        assert(s =~= seq!['/'] + seg + rest);
        lemma_seg_text_reads_back(p[0]);
        assert(s[0] == '/');
        // The first separator after the segment.
        assert(forall|q: int| 1 <= q < 1 + seg.len() ==> #[trigger] s[q] == seg[q - 1]);
        if p.len() == 1 {
            assert(rest =~= Seq::<char>::empty());
            assert(s.len() == 1 + seg.len());
            lemma_slash_idx(s, 1, seg.len() as int);
            assert(slash_idx(s, 1) == s.len());
            assert(s.subrange(1, s.len() as int) =~= seg);
            assert(s.skip(s.len() as int) =~= Seq::<char>::empty());
            lemma_pointer_round_trip(p.drop_first());
            assert(pointer_of(p.drop_first()) =~= Seq::<char>::empty());
            assert(seq![p[0]] + p.drop_first() =~= p);
        } else {
            assert(rest == seq!['/'] + seg_text(p.drop_first()[0]) + pointer_of(
                p.drop_first().drop_first(),
            ));
            assert(s[1 + seg.len() as int] == rest[0]);
            assert(rest[0] == '/');
            lemma_slash_idx(s, 1, seg.len() as int);
            assert(slash_idx(s, 1) == 1 + seg.len());
            assert(s.subrange(1, 1 + seg.len() as int) =~= seg);
            assert(s.skip(1 + seg.len() as int) =~= rest);
            assert(forall|i: int|
                0 <= i < p.len() - 1 ==> #[trigger] p.drop_first()[i] == p[i + 1]);
            lemma_pointer_round_trip(p.drop_first());
            assert(seq![p[0]] + p.drop_first() =~= p);
        }
    }
}

} // verus!
