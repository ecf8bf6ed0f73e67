//! Paths: token sequences addressing a node inside a tree, and the
//! addressing errors of the path resolver. A token is a mapping key, a
//! sequence index, or the append marker (`-` on the wire) meaning one past
//! the last element of a sequence.

use vstd::prelude::*;

verus! {

/// One step of a path.
#[derive(Debug)]
pub enum Token {
    /// A mapping key.
    Key(String),
    /// A sequence index.
    Index(usize),
    /// The append marker: one past the last element of a sequence.
    Append,
}

/// Mathematical model of a token.
#[verifier::ext_equal]
pub enum TokenV {
    Key(Seq<char>),
    Index(int),
    Append,
}

impl View for Token {
    type V = TokenV;

    open spec fn view(&self) -> TokenV {
        match self {
            Token::Key(s) => TokenV::Key(s@),
            Token::Index(i) => TokenV::Index(*i as int),
            Token::Append => TokenV::Append,
        }
    }
}

impl DeepView for Token {
    type V = TokenV;

    open spec fn deep_view(&self) -> TokenV {
        self@
    }
}

impl Token {
    /// A structurally identical copy of the token.
    pub fn dup(&self) -> (r: Token)
        ensures
            r@ == self@,
    {
        match self {
            Token::Key(s) => Token::Key(s.clone()),
            Token::Index(i) => Token::Index(*i),
            Token::Append => Token::Append,
        }
    }
}

/// Failure modes of addressing a node by a path.
#[derive(PartialEq, Eq, Structural, Clone, Copy, Debug)]
pub enum PathError {
    /// A mapping key on the path does not exist (where it is not created).
    PathNotFound,
    /// A sequence index on the path lies outside the sequence.
    IndexOutOfBounds,
    /// The path itself is ill-formed for the node it addresses.
    InvalidPath,
    /// The path descends into a scalar.
    TypeMismatch,
}

pub open spec fn is_digit(c: char) -> bool {
    '0' <= c && c <= '9'
}

pub open spec fn digit_char(d: int) -> char {
    if d == 0 {
        '0'
    } else if d == 1 {
        '1'
    } else if d == 2 {
        '2'
    } else if d == 3 {
        '3'
    } else if d == 4 {
        '4'
    } else if d == 5 {
        '5'
    } else if d == 6 {
        '6'
    } else if d == 7 {
        '7'
    } else if d == 8 {
        '8'
    } else {
        '9'
    }
}

pub open spec fn digit_val(c: char) -> int {
    c as int - '0' as int
}

/// Numeric value of a digit string, most significant digit first.
pub open spec fn digits_val(s: Seq<char>) -> int
    decreases s.len(),
{
    if s.len() == 0 {
        0
    } else {
        digits_val(s.drop_last()) * 10 + digit_val(s.last())
    }
}

/// A wire segment that addresses a sequence position: digits only, no
/// superfluous leading zero.
pub open spec fn valid_index_digits(s: Seq<char>) -> bool {
    &&& s.len() > 0
    &&& forall|i: int| 0 <= i < s.len() ==> is_digit(#[trigger] s[i])
    &&& (s[0] != '0' || s.len() == 1)
}

/// Decimal rendering of a non-negative integer.
pub open spec fn nat_digits(n: int) -> Seq<char>
    decreases n,
{
    if n < 10 {
        seq![digit_char(n)]
    } else {
        nat_digits(n / 10).push(digit_char(n % 10))
    }
}

pub open spec fn pow10(n: nat) -> int
    decreases n,
{
    if n == 0 {
        1
    } else {
        10 * pow10((n - 1) as nat)
    }
}

/// A digit string is bounded by the power of ten of its length.
pub proof fn lemma_digits_val_upper(s: Seq<char>)
    requires
        forall|i: int| 0 <= i < s.len() ==> is_digit(#[trigger] s[i]),
    ensures
        0 <= digits_val(s) < pow10(s.len() as nat),
    decreases s.len(),
{
    if s.len() > 0 {
        lemma_digits_val_upper(s.drop_last());
    }
}

/// A digit string without a leading zero is at least the power of ten of
/// its length less one.
pub proof fn lemma_digits_val_lower(s: Seq<char>)
    requires
        s.len() >= 1,
        forall|i: int| 0 <= i < s.len() ==> is_digit(#[trigger] s[i]),
        s[0] != '0',
    ensures
        digits_val(s) >= pow10((s.len() - 1) as nat),
    decreases s.len(),
{
    if s.len() == 1 {
        assert(digit_val(s[0]) >= 1);
    } else {
        assert(forall|i: int| 0 <= i < s.len() - 1 ==> #[trigger] s.drop_last()[i] == s[i]);
        lemma_digits_val_lower(s.drop_last());
        assert(is_digit(s.last()));
        assert(digit_val(s.last()) >= 0);
        assert(digits_val(s) == digits_val(s.drop_last()) * 10 + digit_val(s.last()));
        assert(digits_val(s.drop_last()) >= pow10((s.len() - 2) as nat));
        assert(digits_val(s.drop_last()) * 10 >= pow10((s.len() - 2) as nat) * 10);
        assert(pow10((s.len() - 1) as nat) == 10 * pow10((s.len() - 2) as nat));
    }
}

/// Outcome of reading a wire segment as a sequence index.
pub enum ParsedIndex {
    /// The segment is a canonical digit string with this value.
    Val(usize),
    /// The segment is a canonical digit string whose value exceeds `usize`.
    Huge,
    /// The segment is not a canonical digit string.
    NotDigits,
}

/// Reads a wire segment as a non-negative decimal index.
#[verifier::loop_isolation(false)]
pub fn parse_index_value(s: &str) -> (r: ParsedIndex)
    ensures
        match r {
            ParsedIndex::Val(v) => valid_index_digits(s@) && digits_val(s@) == v,
            ParsedIndex::Huge => valid_index_digits(s@) && digits_val(s@) > usize::MAX,
            ParsedIndex::NotDigits => !valid_index_digits(s@),
        },
{
    let n = s.unicode_len();
    if n == 0 {
        return ParsedIndex::NotDigits;
    }
    let c0 = s.get_char(0);
    if c0 < '0' || c0 > '9' {
        return ParsedIndex::NotDigits;
    }
    if c0 == '0' && n != 1 {
        return ParsedIndex::NotDigits;
    }
    let mut i: usize = 0;
    let mut acc: u128 = 0;
    while i < n
        invariant
            i <= n,
            forall|j: int| 0 <= j < i ==> is_digit(#[trigger] s@[j]),
            acc == digits_val(s@.take(i as int)),
            acc < pow10(i as nat),
            i <= 21,
        decreases n - i,
    {
        if i == 21 {
            // Twenty-two or more digits always exceed the machine's index
            // range, whatever the remaining characters are.
            let ghost whole = s@;
            if !all_digits(s, i) {
                return ParsedIndex::NotDigits;
            }
            proof {
                lemma_digits_val_lower(whole);
                assert(pow10(21nat) == pow10(20nat) * 10) by {
                    assert(pow10(21nat) == 10 * pow10(20nat));
                }
                lemma_pow10_20();
                assert(whole.len() - 1 >= 21);
                lemma_pow10_monotone(21nat, (whole.len() - 1) as nat);
                assert(digits_val(whole) >= pow10(21nat));
                assert(usize::MAX < pow10(20nat));
            }
            return ParsedIndex::Huge;
        }
        let c = s.get_char(i);
        if c < '0' || c > '9' {
            return ParsedIndex::NotDigits;
        }
        let d: u128 = char_digit_value(c);
        proof {
            lemma_pow10_20();
            assert(pow10((i + 1) as nat) == 10 * pow10(i as nat));
            lemma_pow10_monotone(i as nat, 21nat);
            assert(pow10(i as nat) <= pow10(21nat));
            assert(s@.take(i + 1).drop_last() =~= s@.take(i as int));
            assert(s@.take(i + 1).last() == s@[i as int]);
        }
        acc = acc * 10 + d;
        i = i + 1;
    }
    proof {
        assert(s@.take(n as int) =~= s@);
        lemma_pow10_20();
    }
    if acc > (usize::MAX as u128) {
        ParsedIndex::Huge
    } else {
        ParsedIndex::Val(acc as usize)
    }
}

/// All characters of `s` from position `from` on are decimal digits.
#[verifier::loop_isolation(false)]
fn all_digits(s: &str, from: usize) -> (r: bool)
    requires
        from <= s@.len(),
    ensures
        r == forall|j: int| from <= j < s@.len() ==> is_digit(#[trigger] s@[j]),
{
    let n = s.unicode_len();
    let mut i: usize = from;
    while i < n
        invariant
            from <= i <= n,
            forall|j: int| from <= j < i ==> is_digit(#[trigger] s@[j]),
        decreases n - i,
    {
        let c = s.get_char(i);
        if c < '0' || c > '9' {
            return false;
        }
        i = i + 1;
    }
    true
}

fn char_digit_value(c: char) -> (d: u128)
    requires
        is_digit(c),
    ensures
        d == digit_val(c),
        d <= 9,
{
    (c as u32 - '0' as u32) as u128
}

pub proof fn lemma_pow10_monotone(a: nat, b: nat)
    requires
        a <= b,
    ensures
        1 <= pow10(a) <= pow10(b),
    decreases b,
{
    lemma_pow10_pos(a);
    if a < b {
        lemma_pow10_monotone(a, (b - 1) as nat);
    }
}

pub proof fn lemma_pow10_pos(n: nat)
    ensures
        pow10(n) >= 1,
    decreases n,
{
    if n > 0 {
        lemma_pow10_pos((n - 1) as nat);
    }
}

/// The concrete value of `pow10(20)`, and that it exceeds `usize::MAX`.
pub proof fn lemma_pow10_20()
    ensures
        pow10(20nat) == 0x56bc75e2d63100000,
        usize::MAX < pow10(20nat),
        pow10(21nat) > pow10(20nat),
{
    reveal_with_fuel(pow10, 22);
}

fn digit_str(d: usize) -> (r: &'static str)
    requires
        d < 10,
    ensures
        r@ =~= seq![digit_char(d as int)],
{
    proof {
        reveal_strlit("0");
        reveal_strlit("1");
        reveal_strlit("2");
        reveal_strlit("3");
        reveal_strlit("4");
        reveal_strlit("5");
        reveal_strlit("6");
        reveal_strlit("7");
        reveal_strlit("8");
        reveal_strlit("9");
    }
    match d {
        0 => "0",
        1 => "1",
        2 => "2",
        3 => "3",
        4 => "4",
        5 => "5",
        6 => "6",
        7 => "7",
        8 => "8",
        _ => "9",
    }
}

/// Decimal rendering of a sequence index.
pub fn index_digits(n: usize) -> (r: String)
    ensures
        r@ == nat_digits(n as int),
    decreases n,
{
    if n < 10 {
        String::from_str(digit_str(n))
    } else {
        let mut s = index_digits(n / 10);
        s.append(digit_str(n % 10));
        proof {
            assert(s@ =~= nat_digits(n as int));
        }
        s
    }
}


/// The decimal rendering of a non-negative integer is a canonical digit
/// string spelling that integer.
pub proof fn lemma_nat_digits_valid(n: int)
    requires
        0 <= n,
    ensures
        valid_index_digits(nat_digits(n)),
        digits_val(nat_digits(n)) == n,
        n >= 1 ==> nat_digits(n)[0] != '0',
    decreases n,
{
    if n < 10 {
        let s = nat_digits(n);
        assert(s.len() == 1);
        assert(s[0] == digit_char(n));
        assert(is_digit(s[0]));
        assert(s.drop_last() =~= Seq::<char>::empty());
        assert(digits_val(Seq::<char>::empty()) == 0);
        assert(s.last() == s[0]);
        assert(digits_val(s) == digit_val(digit_char(n)));
    } else {
        lemma_nat_digits_valid(n / 10);
        let head = nat_digits(n / 10);
        let s = head.push(digit_char(n % 10));
        assert(s.drop_last() =~= head);
        assert(s.last() == digit_char(n % 10));
        assert(is_digit(digit_char(n % 10)));
        assert(forall|i: int| 0 <= i < head.len() ==> #[trigger] s[i] == head[i]);
        assert(digits_val(s) == digits_val(head) * 10 + digit_val(digit_char(n % 10)));
        assert(digit_val(digit_char(n % 10)) == n % 10);
        assert(s[0] == head[0]);
        assert(head[0] != '0');
    }
}

} // verus!
