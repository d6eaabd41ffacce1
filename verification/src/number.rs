//! The decimal text of a dimension.
//!
//! Widths and heights are kept as the text the document wrote. A text counts
//! as a number when it follows the grammar of a decimal floating-point literal:
//!
//! ```text
//! Number  ::= Sign? ( 'inf' | 'infinity' | 'nan' | Decimal )
//! Decimal ::= ( Digit+ | Digit+ '.' Digit* | Digit* '.' Digit+ ) Exp?
//! Exp     ::= 'e' Sign? Digit+
//! Sign    ::= [+-]
//! Digit   ::= [0-9]
//! ```
//!
//! with letters in either case.

use vstd::prelude::*;

verus! {

/// `0` to `9`.
pub open spec fn is_digit(b: u8) -> bool {
    0x30 <= b <= 0x39
}

/// `+` or `-`.
pub open spec fn is_sign(b: u8) -> bool {
    b == 0x2b || b == 0x2d
}

/// The lower-case form of an ASCII letter; any other byte unchanged.
pub open spec fn lower(b: u8) -> u8 {
    if 0x41 <= b <= 0x5a {
        (b + 0x20) as u8
    } else {
        b
    }
}

/// How many digits `s` starts with.
pub open spec fn digits(s: Seq<u8>) -> nat
    decreases s.len(),
{
    if s.len() > 0 && is_digit(s[0]) {
        1 + digits(s.skip(1))
    } else {
        0
    }
}

/// `s` without its sign, where it starts with one.
pub open spec fn unsigned(s: Seq<u8>) -> Seq<u8> {
    if s.len() > 0 && is_sign(s[0]) {
        s.skip(1)
    } else {
        s
    }
}

/// `Exp`: the letter `e`, an optional sign, and digits to the end.
pub open spec fn is_exponent(s: Seq<u8>) -> bool {
    &&& s.len() > 0
    &&& lower(s[0]) == 0x65
    &&& unsigned(s.skip(1)).len() > 0
    &&& digits(unsigned(s.skip(1))) == unsigned(s.skip(1)).len()
}

/// Nothing, or an exponent.
pub open spec fn is_tail(s: Seq<u8>) -> bool {
    s.len() == 0 || is_exponent(s)
}

/// `Decimal`: digits with at most one point among them, at least one digit,
/// and an optional exponent.
pub open spec fn is_decimal(s: Seq<u8>) -> bool {
    let whole = digits(s);
    let rest = s.skip(whole as int);
    if rest.len() > 0 && rest[0] == 0x2e {
        let fraction = digits(rest.skip(1));
        whole + fraction > 0 && is_tail(rest.skip(1 + fraction as int))
    } else {
        whole > 0 && is_tail(rest)
    }
}

/// The word `inf`.
pub open spec fn word_inf() -> Seq<u8> {
    seq![0x69u8, 0x6eu8, 0x66u8]
}

/// The word `infinity`.
pub open spec fn word_infinity() -> Seq<u8> {
    seq![0x69u8, 0x6eu8, 0x66u8, 0x69u8, 0x6eu8, 0x69u8, 0x74u8, 0x79u8]
}

/// The word `nan`.
pub open spec fn word_nan() -> Seq<u8> {
    seq![0x6eu8, 0x61u8, 0x6eu8]
}

/// Whether `s` spells `word` in letters of either case.
pub open spec fn spells(s: Seq<u8>, word: Seq<u8>) -> bool {
    s.len() == word.len() && forall|i: int| 0 <= i < s.len() ==> lower(#[trigger] s[i]) == word[i]
}

/// One of the words for a value that is no finite number.
pub open spec fn is_special(s: Seq<u8>) -> bool {
    spells(s, word_inf()) || spells(s, word_infinity()) || spells(s, word_nan())
}

/// Whether `s` is the text of a number.
pub open spec fn is_number(s: Seq<u8>) -> bool {
    is_special(unsigned(s)) || is_decimal(unsigned(s))
}

/// Skipping `i` and then one more is skipping `i + 1`.
proof fn lemma_skip_step(s: Seq<u8>, i: int)
    requires
        0 <= i < s.len(),
    ensures
        s.skip(i).skip(1) == s.skip(i + 1),
        s.skip(i)[0] == s[i],
        s.skip(i).len() == s.len() - i,
{
}

/// Skipping `i` and then `j` is skipping `i + j`.
proof fn lemma_skip_skip(s: Seq<u8>, i: int, j: int)
    requires
        0 <= i,
        0 <= j,
        i + j <= s.len(),
    ensures
        s.skip(i).skip(j) == s.skip(i + j),
{
}

fn digit(b: u8) -> (yes: bool)
    ensures
        yes == is_digit(b),
{
    0x30 <= b && b <= 0x39
}

fn sign(b: u8) -> (yes: bool)
    ensures
        yes == is_sign(b),
{
    b == 0x2b || b == 0x2d
}

/// The lower-case form of an ASCII letter; any other byte unchanged.
pub fn lowered(b: u8) -> (l: u8)
    ensures
        l == lower(b),
{
    if 0x41 <= b && b <= 0x5a {
        b + 0x20
    } else {
        b
    }
}

/// The index behind the digits that start at `from`.
fn skip_digits(s: &[u8], from: usize) -> (to: usize)
    requires
        from <= s.len(),
    ensures
        from <= to <= s.len(),
        to - from == digits(s@.skip(from as int)),
{
    let mut to: usize = from;
    while to < s.len() && digit(s[to])
        invariant
            from <= to <= s.len(),
            digits(s@.skip(from as int)) == (to - from) + digits(s@.skip(to as int)),
        decreases s.len() - to,
    {
        proof {
            lemma_skip_step(s@, to as int);
        }
        to = to + 1;
    }
    to
}

/// The index behind the sign at `from`, where there is one.
fn skip_sign(s: &[u8], from: usize) -> (to: usize)
    requires
        from <= s.len(),
    ensures
        from <= to <= s.len(),
        s@.skip(to as int) == unsigned(s@.skip(from as int)),
{
    if from < s.len() && sign(s[from]) {
        proof {
            lemma_skip_step(s@, from as int);
        }
        from + 1
    } else {
        from
    }
}

/// Whether nothing, or an exponent, stands from `from` on.
fn tail_at(s: &[u8], from: usize) -> (yes: bool)
    requires
        from <= s.len(),
    ensures
        yes == is_tail(s@.skip(from as int)),
{
    if from == s.len() {
        return true;
    }
    proof {
        lemma_skip_step(s@, from as int);
    }
    if lowered(s[from]) != 0x65 {
        return false;
    }
    let start = skip_sign(s, from + 1);
    let end = skip_digits(s, start);
    start < s.len() && end == s.len()
}

/// Whether `s` from `from` on spells `word`.
fn spells_at(s: &[u8], from: usize, word: &[u8]) -> (yes: bool)
    requires
        from <= s.len(),
    ensures
        yes == spells(s@.skip(from as int), word@),
{
    if s.len() - from != word.len() {
        return false;
    }
    let ghost t = s@.skip(from as int);
    let mut i: usize = 0;
    while i < word.len()
        invariant
            i <= word.len(),
            from + word.len() == s.len(),
            t == s@.skip(from as int),
            forall|j: int| 0 <= j < i ==> lower(#[trigger] t[j]) == word@[j],
        decreases word.len() - i,
    {
        if lowered(s[from + i]) != word[i] {
            assert(lower(t[i as int]) != word@[i as int]);
            return false;
        }
        i = i + 1;
    }
    true
}

/// Whether `s` is the text of a number.
pub fn is_number_text(s: &[u8]) -> (yes: bool)
    ensures
        yes == is_number(s@),
{
    let start = skip_sign(s, 0);
    assert(s@.skip(0) == s@);
    let inf: [u8; 3] = [0x69, 0x6e, 0x66];
    let infinity: [u8; 8] = [0x69, 0x6e, 0x66, 0x69, 0x6e, 0x69, 0x74, 0x79];
    let nan: [u8; 3] = [0x6e, 0x61, 0x6e];
    assert(inf@ == word_inf());
    assert(infinity@ == word_infinity());
    assert(nan@ == word_nan());
    if spells_at(s, start, inf.as_slice()) || spells_at(s, start, infinity.as_slice())
        || spells_at(s, start, nan.as_slice()) {
        return true;
    }
    let point = skip_digits(s, start);
    proof {
        lemma_skip_skip(s@, start as int, point - start);
    }
    if point < s.len() && s[point] == 0x2e {
        let end = skip_digits(s, point + 1);
        proof {
            lemma_skip_step(s@, point as int);
            lemma_skip_skip(s@, point as int, 1 + (end - (point + 1)));
        }
        (point - start) + (end - (point + 1)) > 0 && tail_at(s, end)
    } else {
        proof {
            if point < s.len() {
                lemma_skip_step(s@, point as int);
            }
        }
        point > start && tail_at(s, point)
    }
}

} // verus!
