//! Token classes of the graph language: identifiers and the numeric literals
//! that `str::parse::<f32>` accepts.
use vstd::prelude::*;
use crate::text::{find, find_char, lemma_find_bounds, is_ascii_alpha, is_ascii_digit, eq_str};

verus! {

pub open spec fn ident_start(c: char) -> bool {
    is_ascii_alpha(c) || c == '_'
}

pub open spec fn ident_char(c: char) -> bool {
    is_ascii_alpha(c) || is_ascii_digit(c) || c == '_'
}

/// An ASCII letter or `_`, then ASCII letters, digits or `_`.
pub open spec fn spec_is_ident(s: Seq<char>) -> bool {
    &&& s.len() > 0
    &&& ident_start(s[0])
    &&& forall|i: int| 1 <= i < s.len() ==> ident_char(s[i])
}

pub fn is_ident(s: &Vec<char>) -> (r: bool)
    ensures
        r == spec_is_ident(s@),
{
    if s.len() == 0 {
        return false;
    }
    let c = s[0];
    if !(('a' <= c && c <= 'z') || ('A' <= c && c <= 'Z') || c == '_') {
        return false;
    }
    let mut i: usize = 1;
    while i < s.len()
        invariant
            1 <= i <= s.len(),
            forall|j: int| 1 <= j < i ==> ident_char(s@[j]),
        decreases s.len() - i,
    {
        let c = s[i];
        if !(('a' <= c && c <= 'z') || ('A' <= c && c <= 'Z') || ('0' <= c && c <= '9') || c
            == '_') {
            return false;
        }
        i = i + 1;
    }
    true
}

// ---------------------------------------------------------------- float literals
/// ASCII lower case of `c`.
pub open spec fn lower(c: char) -> char {
    if 'A' <= c && c <= 'Z' {
        ((c as u32) + 32) as char
    } else {
        c
    }
}

pub open spec fn lowered(s: Seq<char>) -> Seq<char> {
    s.map_values(|c: char| lower(c))
}

pub open spec fn all_digits(s: Seq<char>) -> bool {
    forall|i: int| 0 <= i < s.len() ==> is_ascii_digit(#[trigger] s[i])
}

pub open spec fn is_sign(c: char) -> bool {
    c == '+' || c == '-'
}

/// Without one leading sign.
pub open spec fn unsigned_part(s: Seq<char>) -> Seq<char> {
    if s.len() > 0 && is_sign(s[0]) {
        s.drop_first()
    } else {
        s
    }
}

/// `Digit+ | Digit+ '.' Digit* | Digit* '.' Digit+`
pub open spec fn mantissa(m: Seq<char>) -> bool {
    let k = find(m, '.');
    if k < m.len() {
        all_digits(m.take(k as int)) && all_digits(m.skip(k + 1 as int)) && m.len() >= 2
    } else {
        m.len() > 0 && all_digits(m)
    }
}

/// `Sign? Digit+`
pub open spec fn exponent(x: Seq<char>) -> bool {
    let y = unsigned_part(x);
    y.len() > 0 && all_digits(y)
}

/// `Mantissa ('e' Exponent)?`
pub open spec fn number(t: Seq<char>) -> bool {
    let k = find(t, 'e');
    if k < t.len() {
        mantissa(t.take(k as int)) && exponent(t.skip(k + 1 as int))
    } else {
        mantissa(t)
    }
}

/// The strings that `str::parse::<f32>` accepts: once lower-cased, an
/// optional sign, then `inf`, `infinity`, `nan` or a decimal number with an
/// optional exponent.
pub open spec fn float_literal(s: Seq<char>) -> bool {
    let t = unsigned_part(lowered(s));
    ||| t == "inf"@
    ||| t == "infinity"@
    ||| t == "nan"@
    ||| number(t)
}

fn to_lower(c: char) -> (r: char)
    ensures
        r == lower(c),
{
    if 'A' <= c && c <= 'Z' {
        let b: u8 = c as u8;
        let r = (b + 32) as char;
        assert(r == lower(c)) by {
            assert((c as u32) < 128);
        }
        r
    } else {
        c
    }
}

fn digits_in(s: &Vec<char>, a: usize, b: usize) -> (r: bool)
    requires
        a <= b <= s.len(),
    ensures
        r == all_digits(s@.subrange(a as int, b as int)),
{
    let mut i = a;
    while i < b
        invariant
            a <= i <= b <= s.len(),
            forall|j: int| a <= j < i ==> is_ascii_digit(s@[j]),
        decreases b - i,
    {
        if !('0' <= s[i] && s[i] <= '9') {
            assert(!is_ascii_digit(s@.subrange(a as int, b as int)[i - a]));
            return false;
        }
        i = i + 1;
    }
    assert forall|j: int| 0 <= j < b - a implies is_ascii_digit(
        #[trigger] s@.subrange(a as int, b as int)[j],
    ) by {
        assert(s@.subrange(a as int, b as int)[j] == s@[a + j]);
    }
    true
}

fn mantissa_in(t: &Vec<char>, a: usize, b: usize) -> (r: bool)
    requires
        a <= b <= t.len(),
    ensures
        r == mantissa(t@.subrange(a as int, b as int)),
{
    let m = crate::text::copy_range(t, a, b);
    let k = find_char(&m, '.');
    proof {
        lemma_find_bounds(m@, '.');
    }
    if k < m.len() {
        let x = digits_in(&m, 0, k);
        let y = digits_in(&m, k + 1, m.len());
        assert(m@.subrange(0, k as int) =~= m@.take(k as int));
        assert(m@.subrange(k + 1, m.len() as int) =~= m@.skip(k + 1 as int));
        x && y && m.len() >= 2
    } else {
        let x = digits_in(&m, 0, m.len());
        assert(m@.subrange(0, m.len() as int) =~= m@);
        m.len() > 0 && x
    }
}

/// Whether `str::parse::<f32>` accepts `s`.
pub fn is_float_literal(s: &Vec<char>) -> (r: bool)
    ensures
        r == float_literal(s@),
{
    let mut low: Vec<char> = Vec::new();
    let mut i: usize = 0;
    while i < s.len()
        invariant
            i <= s.len(),
            low@ == lowered(s@.take(i as int)),
        decreases s.len() - i,
    {
        low.push(to_lower(s[i]));
        i = i + 1;
        assert(low@ =~= lowered(s@.take(i as int)));
    }
    assert(s@.take(s.len() as int) =~= s@);
    let t = if low.len() > 0 && (low[0] == '+' || low[0] == '-') {
        crate::text::copy_range(&low, 1, low.len())
    } else {
        crate::text::copy_range(&low, 0, low.len())
    };
    assert(t@ =~= unsigned_part(lowered(s@)));
    if eq_str(&t, "inf") || eq_str(&t, "infinity") || eq_str(&t, "nan") {
        return true;
    }
    let k = find_char(&t, 'e');
    proof {
        lemma_find_bounds(t@, 'e');
    }
    if k < t.len() {
        let m = mantissa_in(&t, 0, k);
        assert(t@.subrange(0, k as int) =~= t@.take(k as int));
        let x = crate::text::copy_range(&t, k + 1, t.len());
        assert(x@ =~= t@.skip(k + 1 as int));
        let e = if x.len() > 0 && (x[0] == '+' || x[0] == '-') {
            digits_in(&x, 1, x.len()) && x.len() > 1
        } else {
            digits_in(&x, 0, x.len()) && x.len() > 0
        };
        assert(x@.subrange(1, x.len() as int) =~= x@.drop_first());
        assert(x@.subrange(0, x.len() as int) =~= x@);
        m && e
    } else {
        let m = mantissa_in(&t, 0, t.len());
        assert(t@.subrange(0, t.len() as int) =~= t@);
        m
    }
}

} // verus!
