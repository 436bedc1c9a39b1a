//! Magnitudes written for people: a decimal number with an optional binary
//! unit, such as `12.5 MiB`.
//!
//! The text is read as bytes. The number is the first run of decimal digits in
//! the text, with a fraction where a dot and at least one digit follow it.
//! After the number and any blanks, one of `KiB`, `MiB`, `GiB`, `TiB`, `PiB`,
//! `EiB`, `ZiB`, `YiB` multiplies it by a power of 1024. With a unit the
//! product is cut down to a whole number; without one the number is rounded
//! to the nearest whole number, a half going up. What does not fit in 128
//! bits becomes `u128::MAX`. All of it is exact integer arithmetic.

use vstd::prelude::*;
use vstd::arithmetic::div_mod::*;
use vstd::utf8::*;

verus! {

/// The byte `0`.
pub const DIGIT_ZERO: u8 = 48;

/// The byte `9`.
pub const DIGIT_NINE: u8 = 57;

/// The byte `.`.
pub const DOT: u8 = 46;

/// The largest exponent of 1024 that has a unit (`YiB`).
pub const MAX_UNIT: u8 = 8;

/// A decimal digit.
pub open spec fn is_digit(b: u8) -> bool {
    DIGIT_ZERO <= b <= DIGIT_NINE
}

/// A space (32) or a tab (9).
pub open spec fn is_blank(b: u8) -> bool {
    b == 32 || b == 9
}

/// The number that a digit byte stands for.
pub open spec fn digit_of(b: u8) -> nat {
    if is_digit(b) {
        (b - DIGIT_ZERO) as nat
    } else {
        0
    }
}

/// The first index at or after `from` that holds a digit; the length of `s`
/// if there is none.
pub open spec fn next_digit(s: Seq<u8>, from: int) -> int
    decreases s.len() - from,
{
    if from < 0 || from >= s.len() {
        s.len() as int
    } else if is_digit(s[from]) {
        from
    } else {
        next_digit(s, from + 1)
    }
}

/// The first index at or after `from` that holds no digit; the length of `s`
/// if there is none.
pub open spec fn digits_end(s: Seq<u8>, from: int) -> int
    decreases s.len() - from,
{
    if from < 0 || from >= s.len() {
        s.len() as int
    } else if !is_digit(s[from]) {
        from
    } else {
        digits_end(s, from + 1)
    }
}

/// The first index at or after `from` that holds no blank; the length of `s`
/// if there is none.
pub open spec fn blanks_end(s: Seq<u8>, from: int) -> int
    decreases s.len() - from,
{
    if from < 0 || from >= s.len() {
        s.len() as int
    } else if !is_blank(s[from]) {
        from
    } else {
        blanks_end(s, from + 1)
    }
}

/// The exponent of 1024 that the letter of a unit stands for; 0 for any other
/// byte.
pub open spec fn unit_letter(b: u8) -> nat {
    if b == 75 {
        1  // K
    } else if b == 77 {
        2  // M
    } else if b == 71 {
        3  // G
    } else if b == 84 {
        4  // T
    } else if b == 80 {
        5  // P
    } else if b == 69 {
        6  // E
    } else if b == 90 {
        7  // Z
    } else if b == 89 {
        8  // Y
    } else {
        0
    }
}

/// The exponent of the unit written at `pos`: a unit letter, then `i` (105)
/// and `B` (66). It is 0 where no unit stands there.
pub open spec fn unit_at(s: Seq<u8>, pos: int) -> nat {
    if 0 <= pos && pos + 3 <= s.len() && s[pos + 1] == 105 && s[pos + 2] == 66 {
        unit_letter(s[pos])
    } else {
        0
    }
}

/// What was read of a magnitude: the digits before the dot, the digits after
/// it, and the exponent of 1024 (0 where no unit was written).
pub struct Literal {
    pub whole: Seq<u8>,
    pub fraction: Seq<u8>,
    pub unit: nat,
}

/// A fraction begins at `dot`: a dot with a digit behind it.
pub open spec fn fraction_at(s: Seq<u8>, dot: int) -> bool {
    0 <= dot && dot + 1 < s.len() && s[dot] == DOT && is_digit(s[dot + 1])
}

/// Reads the first magnitude in `s`; `None` where `s` holds no digit.
pub open spec fn scan(s: Seq<u8>) -> Option<Literal> {
    let start = next_digit(s, 0);
    if start >= s.len() {
        None
    } else {
        let dot = digits_end(s, start);
        let end = if fraction_at(s, dot) {
            digits_end(s, dot + 1)
        } else {
            dot
        };
        Some(
            Literal {
                whole: s.subrange(start, dot),
                fraction: if fraction_at(s, dot) {
                    s.subrange(dot + 1, end)
                } else {
                    Seq::empty()
                },
                unit: unit_at(s, blanks_end(s, end)),
            },
        )
    }
}

/// The number that a run of digits writes in base ten.
pub open spec fn digits_value(ds: Seq<u8>) -> nat
    decreases ds.len(),
{
    if ds.len() == 0 {
        0
    } else {
        digits_value(ds.drop_last()) * 10 + digit_of(ds.last())
    }
}

/// Ten to the power `n`.
pub open spec fn pow10(n: nat) -> nat
    decreases n,
{
    if n == 0 {
        1
    } else {
        10 * pow10((n - 1) as nat)
    }
}

/// 1024 to the power `n`.
pub open spec fn pow1024(n: nat) -> nat
    decreases n,
{
    if n == 0 {
        1
    } else {
        1024 * pow1024((n - 1) as nat)
    }
}

/// The whole number that a literal stands for, before any limit of size.
///
/// With `scale` ten to the number of fraction digits, `scaled` is the written
/// number times `scale`. With a unit the result is the written number times
/// the unit's power of 1024, rounded down. Without one it is the written
/// number rounded to the nearest whole number, a half going up.
pub open spec fn magnitude(lit: Literal) -> nat {
    let scale = pow10(lit.fraction.len()) as int;
    let scaled = digits_value(lit.whole) * scale + digits_value(lit.fraction);
    if lit.unit == 0 {
        ((2 * scaled + scale) / (2 * scale)) as nat
    } else {
        ((scaled * pow1024(lit.unit)) / scale) as nat
    }
}

/// A whole number held in 128 bits, the largest value standing for all that
/// do not fit.
pub open spec fn saturate(n: nat) -> u128 {
    if n > u128::MAX {
        u128::MAX
    } else {
        n as u128
    }
}

/// The magnitude written in `s`: `None` exactly where `s` holds no digit.
pub open spec fn parse_value(s: Seq<u8>) -> Option<u128> {
    match scan(s) {
        None => None,
        Some(lit) => Some(saturate(magnitude(lit))),
    }
}

/// Every byte of `s` from `from` up to `to` is a digit.
pub open spec fn all_digits(s: Seq<u8>, from: int, to: int) -> bool {
    forall|j: int| from <= j < to ==> is_digit(#[trigger] s[j])
}

/// A power of ten is positive.
pub proof fn lemma_pow10_positive(n: nat)
    ensures
        pow10(n) > 0,
    decreases n,
{
    if n > 0 {
        lemma_pow10_positive((n - 1) as nat);
    }
}

/// `digits_end` stops at or after `from`, within `s`, behind digits only, and
/// at no digit.
pub proof fn lemma_digits_end(s: Seq<u8>, from: int)
    requires
        0 <= from <= s.len(),
    ensures
        from <= digits_end(s, from) <= s.len(),
        all_digits(s, from, digits_end(s, from)),
        digits_end(s, from) < s.len() ==> !is_digit(s[digits_end(s, from)]),
    decreases s.len() - from,
{
    if from < s.len() && is_digit(s[from]) {
        lemma_digits_end(s, from + 1);
    }
}

/// `next_digit` stops at or after `from`, within `s`, and at a digit unless
/// it reached the end.
pub proof fn lemma_next_digit(s: Seq<u8>, from: int)
    requires
        0 <= from <= s.len(),
    ensures
        from <= next_digit(s, from) <= s.len(),
        next_digit(s, from) < s.len() ==> is_digit(s[next_digit(s, from)]),
        forall|j: int| from <= j < next_digit(s, from) ==> !is_digit(#[trigger] s[j]),
    decreases s.len() - from,
{
    if from < s.len() && !is_digit(s[from]) {
        lemma_next_digit(s, from + 1);
    }
}

/// A run of `n` digits writes a number below ten to the `n`.
pub proof fn lemma_digits_value_bound(ds: Seq<u8>)
    ensures
        digits_value(ds) < pow10(ds.len()),
    decreases ds.len(),
{
    if ds.len() > 0 {
        lemma_digits_value_bound(ds.drop_last());
    }
}

/// A digit put in front of a run adds the digit times ten to the run's length.
pub proof fn lemma_digits_value_front(ds: Seq<u8>)
    requires
        ds.len() > 0,
    ensures
        digits_value(ds) == digit_of(ds[0]) * pow10((ds.len() - 1) as nat) + digits_value(
            ds.drop_first(),
        ),
    decreases ds.len(),
{
    if ds.len() == 1 {
        assert(digits_value(ds.drop_last()) == 0);
        assert(digits_value(ds.drop_first()) == 0);
        assert(pow10(0) == 1);
        assert(digit_of(ds[0]) * 1 == digit_of(ds[0]));
    } else {
        let init = ds.drop_last();
        lemma_digits_value_front(init);
        assert(init.drop_first() =~= ds.drop_first().drop_last());
        assert(init[0] == ds[0]);
        let d = digit_of(ds[0]) as int;
        let p = pow10((init.len() - 1) as nat) as int;
        let v = digits_value(init.drop_first()) as int;
        let l = digit_of(ds.last()) as int;
        let rest = ds.drop_first();
        assert(rest.last() == ds.last());
        assert(digits_value(ds) == digits_value(init) * 10 + l);
        assert(digits_value(init) == d * p + v);
        assert(digits_value(rest) == digits_value(rest.drop_last()) * 10 + l);
        assert(digits_value(rest) == v * 10 + l);
        assert(pow10((ds.len() - 1) as nat) == 10 * p);
        assert((d * p + v) * 10 + l == d * (10 * p) + (v * 10 + l)) by (nonlinear_arith);
    }
}

/// One step of scaling a fraction from its last digit to its first: with `g`
/// the scaled value of the digits behind, a further digit `d` in front gives
/// `(d * m + g) / 10`.
proof fn lemma_fraction_step(d: int, p: int, v: int, m: int)
    requires
        0 <= d,
        0 < p,
        0 <= v,
        0 <= m,
    ensures
        ((d * p + v) * m) / (10 * p) == (d * m + (v * m) / p) / 10,
        0 <= (v * m) / p,
{
    assert(v * m >= 0) by (nonlinear_arith)
        requires
            0 <= v,
            0 <= m,
    ;
    assert(d * m >= 0) by (nonlinear_arith)
        requires
            0 <= d,
            0 <= m,
    ;
    assert((d * p + v) * m == v * m + (d * m) * p) by (nonlinear_arith);
    lemma_hoist_over_denominator(v * m, d * m, p as nat);
    lemma_div_pos_is_pos(v * m, p);
    lemma_div_denominator(v * m + (d * m) * p, p, 10);
    assert(p * 10 == 10 * p);
}

/// A whole part and a fraction scale apart: the whole part times the
/// multiplier, and the scaled fraction cut down.
proof fn lemma_split_whole(w: int, s: int, f: int, m: int)
    requires
        0 <= w,
        0 < s,
        0 <= f,
        0 <= m,
    ensures
        ((w * s + f) * m) / s == w * m + (f * m) / s,
{
    assert((w * s + f) * m == f * m + (w * m) * s) by (nonlinear_arith);
    lemma_hoist_over_denominator(f * m, w * m, s as nat);
}

/// A longer run of digits writes no smaller a number than its beginning.
proof fn lemma_digits_value_grows(s: Seq<u8>, from: int, mid: int, to: int)
    requires
        0 <= from <= mid <= to <= s.len(),
    ensures
        digits_value(s.subrange(from, mid)) <= digits_value(s.subrange(from, to)),
    decreases to - mid,
{
    if mid < to {
        lemma_digits_value_grows(s, from, mid, to - 1);
        assert(s.subrange(from, to).drop_last() =~= s.subrange(from, to - 1));
    }
}

/// Rounding to the nearest whole number adds one exactly where twice the
/// fraction reaches the scale.
proof fn lemma_round_half_up(w: int, s: int, f: int)
    requires
        0 <= w,
        0 <= f < s,
    ensures
        (2 * (w * s + f) + s) / (2 * s) == w + if 2 * f >= s {
            1int
        } else {
            0int
        },
{
    assert(2 * (w * s + f) + s == (2 * f + s) + w * (2 * s)) by (nonlinear_arith);
    lemma_hoist_over_denominator(2 * f + s, w, (2 * s) as nat);
    if 2 * f >= s {
        lemma_fundamental_div_mod_converse(2 * f + s, 2 * s, 1, 2 * f - s);
    } else {
        lemma_basic_div(2 * f + s, 2 * s);
    }
}

/// Twice a fraction reaches its scale exactly where its first digit is 5 or
/// more.
proof fn lemma_half_by_first_digit(ds: Seq<u8>)
    requires
        ds.len() > 0,
    ensures
        2 * digits_value(ds) >= pow10(ds.len()) <==> digit_of(ds[0]) >= 5,
{
    lemma_digits_value_front(ds);
    lemma_digits_value_bound(ds.drop_first());
    let d = digit_of(ds[0]) as int;
    let p = pow10((ds.len() - 1) as nat) as int;
    lemma_pow10_positive((ds.len() - 1) as nat);
    assert(pow10(ds.len()) == 10 * p);
    if d >= 5 {
        assert(d * p >= 5 * p) by (nonlinear_arith)
            requires
                d >= 5,
                p > 0,
        ;
    } else {
        assert(d * p <= 4 * p) by (nonlinear_arith)
            requires
                d <= 4,
                p > 0,
        ;
    }
}

/// The powers of 1024 that have a unit.
pub proof fn lemma_pow1024_values()
    ensures
        pow1024(0) == 1,
        pow1024(1) == 1024,
        pow1024(2) == 1048576,
        pow1024(3) == 1073741824,
        pow1024(4) == 1099511627776,
        pow1024(5) == 1125899906842624,
        pow1024(6) == 1152921504606846976,
        pow1024(7) == 1180591620717411303424,
        pow1024(8) == 1208925819614629174706176,
{
    reveal_with_fuel(pow1024, 10);
}

/// A text has a magnitude exactly where it holds a digit.
pub proof fn law_parse_needs_a_digit(s: Seq<u8>)
    ensures
        parse_value(s) is None <==> forall|i: int| 0 <= i < s.len() ==> !is_digit(#[trigger] s[i]),
{
    lemma_next_digit(s, 0);
}

/// A text of digits alone is read exactly: its magnitude is the number that
/// the digits write, as far as 128 bits hold it.
pub proof fn law_parse_reads_integers(s: Seq<u8>)
    requires
        s.len() > 0,
        all_digits(s, 0, s.len() as int),
    ensures
        parse_value(s) == Some(saturate(digits_value(s))),
{
    lemma_digits_end(s, 0);
    let lit = scan(s).unwrap();
    assert(next_digit(s, 0) == 0);
    assert(digits_end(s, 0) == s.len());
    assert(lit.whole =~= s);
    assert(lit.fraction =~= Seq::<u8>::empty());
    assert(blanks_end(s, s.len() as int) == s.len());
    assert(lit.unit == 0);
    assert(pow10(0) == 1);
    assert(digits_value(lit.fraction) == 0);
    lemma_round_half_up(digits_value(s) as int, 1, 0);
}

fn is_digit_byte(b: u8) -> (r: bool)
    ensures
        r == is_digit(b),
{
    DIGIT_ZERO <= b && b <= DIGIT_NINE
}

fn find_digit(s: &[u8], from: usize) -> (r: usize)
    requires
        from <= s.len(),
    ensures
        r == next_digit(s@, from as int),
        from <= r <= s.len(),
{
    let mut i: usize = from;
    while i < s.len() && !is_digit_byte(s[i])
        invariant
            from <= i <= s.len(),
            next_digit(s@, i as int) == next_digit(s@, from as int),
        decreases s.len() - i,
    {
        i += 1;
    }
    i
}

fn end_of_digits(s: &[u8], from: usize) -> (r: usize)
    requires
        from <= s.len(),
    ensures
        r == digits_end(s@, from as int),
        from <= r <= s.len(),
{
    let mut i: usize = from;
    while i < s.len() && is_digit_byte(s[i])
        invariant
            from <= i <= s.len(),
            digits_end(s@, i as int) == digits_end(s@, from as int),
        decreases s.len() - i,
    {
        i += 1;
    }
    i
}

fn end_of_blanks(s: &[u8], from: usize) -> (r: usize)
    requires
        from <= s.len(),
    ensures
        r == blanks_end(s@, from as int),
        from <= r <= s.len(),
{
    let mut i: usize = from;
    while i < s.len() && (s[i] == 32 || s[i] == 9)
        invariant
            from <= i <= s.len(),
            blanks_end(s@, i as int) == blanks_end(s@, from as int),
        decreases s.len() - i,
    {
        i += 1;
    }
    i
}

fn unit_exponent(s: &[u8], pos: usize) -> (k: u8)
    requires
        pos <= s.len(),
    ensures
        k == unit_at(s@, pos as int),
        k <= MAX_UNIT,
{
    if s.len() - pos >= 3 && s[pos + 1] == 105 && s[pos + 2] == 66 {
        letter_exponent(s[pos])
    } else {
        0
    }
}

fn letter_exponent(b: u8) -> (k: u8)
    ensures
        k == unit_letter(b),
        k <= MAX_UNIT,
{
    if b == 75 {
        1  // K
    } else if b == 77 {
        2  // M
    } else if b == 71 {
        3  // G
    } else if b == 84 {
        4  // T
    } else if b == 80 {
        5  // P
    } else if b == 69 {
        6  // E
    } else if b == 90 {
        7  // Z
    } else if b == 89 {
        8  // Y
    } else {
        0
    }
}

/// The power of 1024 that a unit multiplies by.
pub fn multiplier(unit: u8) -> (m: u128)
    requires
        unit <= MAX_UNIT,
    ensures
        m == pow1024(unit as nat),
        0 < m <= 1208925819614629174706176,
{
    proof {
        lemma_pow1024_values();
    }
    if unit == 0 {
        1
    } else if unit == 1 {
        1024
    } else if unit == 2 {
        1048576
    } else if unit == 3 {
        1073741824
    } else if unit == 4 {
        1099511627776
    } else if unit == 5 {
        1125899906842624
    } else if unit == 6 {
        1152921504606846976
    } else if unit == 7 {
        1180591620717411303424
    } else {
        1208925819614629174706176
    }
}

/// The number that the digits of `s` from `from` up to `to` write; `None`
/// where it does not fit in 128 bits.
fn whole_value(s: &[u8], from: usize, to: usize) -> (r: Option<u128>)
    requires
        from <= to <= s.len(),
        all_digits(s@, from as int, to as int),
    ensures
        match r {
            Some(v) => v == digits_value(s@.subrange(from as int, to as int)),
            None => digits_value(s@.subrange(from as int, to as int)) > u128::MAX,
        },
{
    let mut acc: u128 = 0;
    let mut i: usize = from;
    while i < to
        invariant
            from <= i <= to <= s.len(),
            all_digits(s@, from as int, to as int),
            acc == digits_value(s@.subrange(from as int, i as int)),
        decreases to - i,
    {
        let d: u128 = (s[i] - DIGIT_ZERO) as u128;
        proof {
            let next = s@.subrange(from as int, i + 1);
            assert(next.drop_last() =~= s@.subrange(from as int, i as int));
            assert(next.last() == s@[i as int]);
            assert(digits_value(next) == acc * 10 + d);
            lemma_digits_value_grows(s@, from as int, i + 1, to as int);
        }
        let tenfold: u128 = match acc.checked_mul(10) {
            Some(x) => x,
            None => {
                return None;
            },
        };
        acc = match tenfold.checked_add(d) {
            Some(x) => x,
            None => {
                return None;
            },
        };
        i += 1;
    }
    Some(acc)
}

/// The fraction written by the digits of `s` from `from` up to `to`, times
/// `m`, rounded down. It works from the last digit to the first, so that no
/// step leaves 128 bits however long the fraction is.
fn scale_fraction(s: &[u8], from: usize, to: usize, m: u128) -> (g: u128)
    requires
        from <= to <= s.len(),
        all_digits(s@, from as int, to as int),
        0 < m <= 1208925819614629174706176,
    ensures
        g == (digits_value(s@.subrange(from as int, to as int)) * m) / (pow10(
            (to - from) as nat,
        ) as int),
        g < m,
{
    let mut g: u128 = 0;
    let mut j: usize = to;
    proof {
        assert(digits_value(s@.subrange(to as int, to as int)) == 0);
        assert(pow10(0) == 1);
        assert(0 * m == 0);
    }
    while j > from
        invariant
            from <= j <= to <= s.len(),
            all_digits(s@, from as int, to as int),
            0 < m <= 1208925819614629174706176,
            g == (digits_value(s@.subrange(j as int, to as int)) * m) / (pow10(
                (to - j) as nat,
            ) as int),
            g < m,
        decreases j - from,
    {
        j -= 1;
        let d: u128 = (s[j] - DIGIT_ZERO) as u128;
        proof {
            let ds = s@.subrange(j as int, to as int);
            let rest = s@.subrange(j + 1, to as int);
            assert(ds.drop_first() =~= rest);
            assert(ds[0] == s@[j as int]);
            lemma_digits_value_front(ds);
            lemma_digits_value_bound(rest);
            let p = pow10((to - j - 1) as nat) as int;
            lemma_pow10_positive((to - j - 1) as nat);
            assert(pow10((to - j) as nat) == 10 * p);
            lemma_fraction_step(d as int, p, digits_value(rest) as int, m as int);
            assert(d * m <= 9 * m) by (nonlinear_arith)
                requires
                    0 <= d <= 9,
                    0 < m,
            ;
        }
        g = (d * m + g) / 10;
    }
    g
}

/// The parser of magnitudes.
pub struct UnitParser;

impl UnitParser {
    /// Reads the magnitude written in `text`.
    ///
    /// The result is `None` exactly where the text holds no decimal digit.
    pub fn parse(text: &str) -> (r: Option<u128>)
        ensures
            r == parse_value(encode_utf8(text@)),
    {
        Self::parse_bytes(text.as_bytes())
    }

    /// Reads the magnitude written in the bytes `s`.
    pub fn parse_bytes(s: &[u8]) -> (r: Option<u128>)
        ensures
            r == parse_value(s@),
    {
        let start: usize = find_digit(s, 0);
        if start >= s.len() {
            return None;
        }
        let dot: usize = end_of_digits(s, start);
        proof {
            lemma_digits_end(s@, start as int);
        }
        let has_fraction: bool = s.len() - dot > 1 && s[dot] == DOT && is_digit_byte(s[dot + 1]);
        let first: usize = if has_fraction {
            dot + 1
        } else {
            dot
        };
        let end: usize = if has_fraction {
            proof {
                lemma_digits_end(s@, dot + 1);
            }
            end_of_digits(s, first)
        } else {
            dot
        };
        let unit: u8 = unit_exponent(s, end_of_blanks(s, end));
        let whole: Option<u128> = whole_value(s, start, dot);
        let ghost lit = scan(s@).unwrap();
        let ghost scale = pow10(lit.fraction.len()) as int;
        let ghost w = digits_value(lit.whole) as int;
        let ghost f = digits_value(lit.fraction) as int;
        proof {
            assert(has_fraction == fraction_at(s@, dot as int));
            assert(lit.whole == s@.subrange(start as int, dot as int));
            assert(lit.fraction =~= s@.subrange(first as int, end as int));
            assert(lit.unit == unit);
            lemma_pow10_positive(lit.fraction.len());
            lemma_digits_value_bound(lit.fraction);
            assert(w * scale >= w) by (nonlinear_arith)
                requires
                    w >= 0,
                    scale >= 1,
            ;
        }
        if unit == 0 {
            let round_up: bool = has_fraction && s[first] >= 53;
            proof {
                lemma_round_half_up(w, scale, f);
                if has_fraction {
                    lemma_half_by_first_digit(lit.fraction);
                    assert(lit.fraction[0] == s@[first as int]);
                }
                assert(magnitude(lit) == w + if round_up {
                    1int
                } else {
                    0int
                });
            }
            match whole {
                None => Some(u128::MAX),
                Some(v) => if round_up {
                    Some(v.saturating_add(1))
                } else {
                    Some(v)
                },
            }
        } else {
            let m: u128 = multiplier(unit);
            let g: u128 = scale_fraction(s, first, end, m);
            proof {
                lemma_split_whole(w, scale, f, m as int);
                assert(magnitude(lit) == w * m + g);
                assert(w * m >= w) by (nonlinear_arith)
                    requires
                        w >= 0,
                        m >= 1,
                ;
            }
            match whole {
                None => Some(u128::MAX),
                Some(v) => match v.checked_mul(m) {
                    None => Some(u128::MAX),
                    Some(product) => match product.checked_add(g) {
                        None => Some(u128::MAX),
                        Some(sum) => Some(sum),
                    },
                },
            }
        }
    }
}

} // verus!
