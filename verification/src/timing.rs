//! Times and durations, kept as whole microseconds.
//!
//! A time is a `u64` count of microseconds, so that every comparison of
//! the window rule is exact. A numeral is read as digits with an optional
//! fraction, an optional `+` in front and an optional power of ten behind;
//! what it stands for is cut to whole microseconds, and a time beyond
//! `MAX_NUMERAL_MICROS` counts as that.
use crate::numbers::{
    all_digits, at_most, digit_value, digits_only, is_digit, scan_digits, SCAN_LIMIT,
};
use crate::text::{
    append_chars, find, search_from, slice_of, split_chars, split_on, texts, to_chars,
};
use vstd::prelude::*;

verus! {

/// The largest time that a numeral can stand for, in microseconds.
pub const MAX_NUMERAL_MICROS: u64 = 4_294_967_295_999_999;

/// Where the fraction mark of `s` stands: its first `.`, or its length.
pub open spec fn fraction_mark(s: Seq<char>) -> int {
    match find(s, seq!['.']) {
        Some(d) => d,
        None => s.len() as int,
    }
}

/// The digits of `s` before its fraction mark.
pub open spec fn whole_part(s: Seq<char>) -> Seq<char> {
    s.take(fraction_mark(s))
}

/// The digits of `s` after its fraction mark.
pub open spec fn fraction_part(s: Seq<char>) -> Seq<char> {
    if fraction_mark(s) < s.len() {
        s.skip(fraction_mark(s) + 1)
    } else {
        Seq::<char>::empty()
    }
}

/// Whether `c` begins the power of ten of a numeral.
pub open spec fn is_exponent_mark(c: char) -> bool {
    c == 'e' || c == 'E'
}

/// The first position at or after `from` that holds an exponent mark, or
/// the length of `s`.
pub open spec fn exponent_mark(s: Seq<char>, from: int) -> int
    decreases s.len() - from,
{
    if from < 0 || from >= s.len() {
        s.len() as int
    } else if is_exponent_mark(s[from]) {
        from
    } else {
        exponent_mark(s, from + 1)
    }
}

/// The part of a numeral before its exponent mark.
pub open spec fn mantissa(s: Seq<char>) -> Seq<char> {
    s.take(exponent_mark(s, 0))
}

/// The digits of a numeral, those before and those after the fraction
/// mark, in one row.
pub open spec fn mantissa_digits(s: Seq<char>) -> Seq<char> {
    whole_part(mantissa(s)) + fraction_part(mantissa(s))
}

/// The power of ten of a numeral: zero where it has no exponent mark, else
/// the number behind the mark, which is digits behind an optional sign.
/// `None` where what stands behind the mark is no such number.
pub open spec fn exponent_of(s: Seq<char>) -> Option<int> {
    if exponent_mark(s, 0) >= s.len() {
        Some(0)
    } else {
        let t = s.skip(exponent_mark(s, 0) + 1);
        let signed = t.len() > 0 && (t[0] == '+' || t[0] == '-');
        let body = if signed {
            t.skip(1)
        } else {
            t
        };
        if body.len() > 0 && all_digits(body) {
            if t[0] == '-' {
                Some(-(crate::numbers::digits_value(body) as int))
            } else {
                Some(crate::numbers::digits_value(body) as int)
            }
        } else {
            None
        }
    }
}

/// The digit of `m` at position `i`; zero beyond its end.
pub open spec fn digit_at(m: Seq<char>, i: int) -> nat {
    if 0 <= i < m.len() {
        digit_value(m[i])
    } else {
        0
    }
}

/// The number written by the first `n` digits of `m`, zeros standing in
/// for the digits that `m` lacks.
pub open spec fn shifted(m: Seq<char>, n: int) -> nat
    decreases n,
{
    if n <= 0 {
        0
    } else {
        shifted(m, n - 1) * 10 + digit_at(m, n - 1)
    }
}

/// Ten to the power of `k`.
pub open spec fn pow10(k: nat) -> nat
    decreases k,
{
    if k == 0 {
        1
    } else {
        10 * pow10((k - 1) as nat)
    }
}

/// The time, in microseconds, that the unsigned numeral `s` stands for.
///
/// An unsigned numeral is digits, optionally a `.` and more digits, with at
/// least one digit in all, and optionally an exponent mark and a power of
/// ten. Its time is its value in microseconds, cut to a whole number: the
/// digits up to the sixth behind the fraction mark, the mark moved by the
/// power of ten. A time beyond `MAX_NUMERAL_MICROS` counts as that.
/// Anything else stands for no time.
pub open spec fn plain_micros(s: Seq<char>) -> Option<nat> {
    if all_digits(whole_part(mantissa(s))) && all_digits(fraction_part(mantissa(s)))
        && mantissa_digits(s).len() > 0 {
        match exponent_of(s) {
            Some(e) => Some(
                at_most(
                    shifted(mantissa_digits(s), whole_part(mantissa(s)).len() + 6 + e),
                    MAX_NUMERAL_MICROS as nat,
                ),
            ),
            None => None,
        }
    } else {
        None
    }
}

/// Digits that are all zero write zero, however many of them count.
pub proof fn lemma_shifted_zero(m: Seq<char>, n: int)
    requires
        forall|i: int| 0 <= i < m.len() ==> m[i] == '0',
    ensures
        shifted(m, n) == 0,
    decreases n,
{
    if n > 0 {
        lemma_shifted_zero(m, n - 1);
    }
}

/// Each further digit makes the number at least ten times as large.
pub proof fn lemma_shifted_grows(m: Seq<char>, a: int, k: nat)
    ensures
        shifted(m, a + k) >= shifted(m, a) * pow10(k),
        pow10(k) >= 1,
    decreases k,
{
    if k > 0 {
        lemma_shifted_grows(m, a, (k - 1) as nat);
        let low = shifted(m, a);
        let mid = shifted(m, a + k - 1);
        let p = pow10((k - 1) as nat);
        if a + k > 0 {
            assert(shifted(m, a + k) >= mid * 10);
            assert(mid * 10 >= low * (10 * p)) by (nonlinear_arith)
                requires
                    mid >= low * p,
            ;
        } else {
            assert(low == 0);
            assert(low * pow10(k) == 0) by (nonlinear_arith)
                requires
                    low == 0,
            ;
        }
    } else {
        assert(shifted(m, a) * 1 == shifted(m, a));
    }
}

/// Digits of which one is not zero write more than the largest time, once
/// seventeen digits beyond their end count.
pub proof fn lemma_shifted_large(m: Seq<char>, z: int, n: int)
    requires
        all_digits(m),
        0 <= z < m.len(),
        m[z] != '0',
        n >= m.len() + 17,
    ensures
        shifted(m, n) > MAX_NUMERAL_MICROS,
{
    assert(is_digit(m[z]));
    assert(shifted(m, z + 1) >= 1);
    let between = (n - 17 - (z + 1)) as nat;
    lemma_shifted_grows(m, z + 1, between);
    let first = shifted(m, z + 1);
    let p = pow10(between);
    assert(first * p >= 1) by (nonlinear_arith)
        requires
            first >= 1,
            p >= 1,
    ;
    lemma_shifted_grows(m, n - 17, 17);
    reveal_with_fuel(pow10, 18);
    assert(pow10(17) == 100_000_000_000_000_000);
    let base = shifted(m, n - 17);
    assert(base * 100_000_000_000_000_000 >= 100_000_000_000_000_000) by (nonlinear_arith)
        requires
            base >= 1,
    ;
}

/// `s` without a `+` at its beginning.
pub open spec fn unsigned_part(s: Seq<char>) -> Seq<char> {
    if s.len() > 0 && s[0] == '+' {
        s.skip(1)
    } else {
        s
    }
}

/// The time, in microseconds, that the numeral `s` stands for: an unsigned
/// numeral, alone or behind a `+`. A text with a `-` in front, and a word
/// for an infinite or undefined number, stands for no time: a time is a
/// position in the recording.
pub open spec fn decimal_micros(s: Seq<char>) -> Option<nat> {
    plain_micros(unsigned_part(s))
}

/// The times of those pieces that are numerals, in order.
pub open spec fn numeral_parts(pieces: Seq<Seq<char>>) -> Seq<nat>
    decreases pieces.len(),
{
    if pieces.len() == 0 {
        Seq::<nat>::empty()
    } else {
        let before = numeral_parts(pieces.drop_last());
        match decimal_micros(pieces.last()) {
            Some(v) => before.push(v),
            None => before,
        }
    }
}

/// Hours, minutes and seconds combined, by the number of parts.
pub open spec fn combined(parts: Seq<nat>) -> nat {
    if parts.len() == 3 {
        parts[0] * 3600 + parts[1] * 60 + parts[2]
    } else if parts.len() == 2 {
        parts[0] * 60 + parts[1]
    } else if parts.len() == 1 {
        parts[0]
    } else {
        0
    }
}

/// The time, in microseconds, of a tag `H:M:S`, `M:S` or `S`.
///
/// The tag is cut at each `:`; pieces that are no numerals are left out, and
/// what remains is read by its count. The empty tag, and a tag with no or
/// more than three numerals, is the time zero.
pub open spec fn tag_micros(t: Seq<char>) -> nat {
    if t.len() == 0 {
        0
    } else {
        combined(numeral_parts(split_on(t, ':')))
    }
}

/// Reads a numeral: `decimal_micros`.
pub fn parse_decimal(s: &Vec<char>) -> (r: Option<u64>)
    ensures
        r.is_some() == decimal_micros(s@).is_some(),
        r matches Some(v) ==> decimal_micros(s@) == Some(v as nat) && v <= MAX_NUMERAL_MICROS,
{
    if s.len() > 0 && s[0] == '+' {
        let body = slice_of(s, 1, s.len());
        assert(body@ =~= s@.skip(1));
        parse_plain(&body)
    } else {
        parse_plain(s)
    }
}

/// The largest power of ten that is read out in full.
pub const EXPONENT_LIMIT: u128 = 0xFFFF_FFFF_FFFF_FFFF_FFFF;

/// Reads an unsigned numeral: `plain_micros`.
pub fn parse_plain(s: &Vec<char>) -> (r: Option<u64>)
    ensures
        r.is_some() == plain_micros(s@).is_some(),
        r matches Some(v) ==> plain_micros(s@) == Some(v as nat) && v <= MAX_NUMERAL_MICROS,
{
    let mut mark: usize = 0;
    while mark < s.len() && !(s[mark] == 'e' || s[mark] == 'E')
        invariant
            mark <= s.len(),
            exponent_mark(s@, 0) == exponent_mark(s@, mark as int),
        decreases s.len() - mark,
    {
        mark += 1;
    }
    let m = slice_of(s, 0, mark);
    assert(m@ =~= mantissa(s@));
    let point_mark: Vec<char> = vec!['.'];
    assert(point_mark@ =~= seq!['.']);
    let point: usize = match search_from(&m, &point_mark, 0) {
        Some(d) => d,
        None => m.len(),
    };
    let frac_from: usize = if point < m.len() {
        point + 1
    } else {
        m.len()
    };
    assert(m@.subrange(0, point as int) =~= whole_part(m@));
    assert(m@.subrange(frac_from as int, m.len() as int) =~= fraction_part(m@));
    if !digits_only(&m, 0, point) || !digits_only(&m, frac_from, m.len()) {
        return None;
    }
    let mut digits = slice_of(&m, 0, point);
    let frac = slice_of(&m, frac_from, m.len());
    append_chars(&mut digits, &frac);
    assert(digits@ =~= mantissa_digits(s@));
    if digits.len() == 0 {
        return None;
    }
    assert(all_digits(digits@)) by {
        assert forall|i: int| 0 <= i < digits@.len() implies is_digit(#[trigger] digits@[i]) by {
            if i < point {
                assert(digits@[i] == whole_part(m@)[i]);
            } else {
                assert(digits@[i] == fraction_part(m@)[i - point]);
            }
        }
    }
    let mut negative: bool = false;
    let mut power: u128 = 0;
    if mark < s.len() {
        let sign_at: usize = mark + 1;
        let signed = sign_at < s.len() && (s[sign_at] == '+' || s[sign_at] == '-');
        let body_from: usize = if signed {
            sign_at + 1
        } else {
            sign_at
        };
        let ghost t = s@.skip(mark + 1);
        assert(s@.subrange(body_from as int, s.len() as int) =~= if signed {
            t.skip(1)
        } else {
            t
        });
        if body_from == s.len() {
            return None;
        }
        power = match scan_digits(s, body_from, s.len(), EXPONENT_LIMIT) {
            Some(p) => p,
            None => {
                return None;
            },
        };
        negative = s[sign_at] == '-';
        assert(negative == (t[0] == '-'));
    }
    let ghost e: int = exponent_of(s@).unwrap();
    let ghost n: int = point + 6 + e;
    assert(plain_micros(s@) == Some(
        at_most(shifted(digits@, n), MAX_NUMERAL_MICROS as nat),
    ));
    assert(if negative {
        power == at_most((-e) as nat, (EXPONENT_LIMIT + 1) as nat)
    } else {
        power == at_most(e as nat, (EXPONENT_LIMIT + 1) as nat) && e >= 0
    });
    let count: u128 = if negative {
        if power >= point as u128 + 6 {
            return Some(0);
        }
        point as u128 + 6 - power
    } else {
        if power >= frac.len() as u128 + 11 {
            let mut z: usize = 0;
            while z < digits.len() && digits[z] == '0'
                invariant
                    z <= digits.len(),
                    forall|i: int| 0 <= i < z ==> digits@[i] == '0',
                decreases digits.len() - z,
            {
                z += 1;
            }
            proof {
                if z < digits.len() {
                    lemma_shifted_large(digits@, z as int, n);
                } else {
                    lemma_shifted_zero(digits@, n);
                }
            }
            return Some(
                if z < digits.len() {
                    MAX_NUMERAL_MICROS
                } else {
                    0
                },
            );
        }
        point as u128 + 6 + power
    };
    assert(count == n);
    let mut acc: u64 = 0;
    let mut j: u128 = 0;
    while j < count
        invariant
            j <= count,
            all_digits(digits@),
            acc == at_most(shifted(digits@, j as int), (MAX_NUMERAL_MICROS + 1) as nat),
        decreases count - j,
    {
        let d: u64 = if j < digits.len() as u128 {
            let c = digits[j as usize];
            assert(is_digit(c));
            (c as u32 - '0' as u32) as u64
        } else {
            0
        };
        assert(d == digit_at(digits@, j as int));
        if acc <= MAX_NUMERAL_MICROS {
            acc = acc * 10 + d;
            if acc > MAX_NUMERAL_MICROS {
                acc = MAX_NUMERAL_MICROS + 1;
            }
        }
        j += 1;
    }
    if acc <= MAX_NUMERAL_MICROS {
        Some(acc)
    } else {
        Some(MAX_NUMERAL_MICROS)
    }
}

/// The time of a tag `H:M:S`, `M:S` or `S`, in microseconds: `tag_micros`.
pub fn time_to_sec(t: &str) -> (micros: u64)
    ensures
        micros == tag_micros(t@),
{
    let chars = to_chars(t);
    if chars.len() == 0 {
        return 0;
    }
    let pieces = split_chars(&chars, ':');
    let mut parts: Vec<u64> = Vec::new();
    let mut i: usize = 0;
    while i < pieces.len()
        invariant
            i <= pieces.len(),
            parts@.len() == numeral_parts(texts(pieces@).take(i as int)).len(),
            forall|k: int|
                0 <= k < parts@.len() ==> parts@[k] as nat == numeral_parts(
                    texts(pieces@).take(i as int),
                )[k] && #[trigger] parts@[k] <= MAX_NUMERAL_MICROS,
        decreases pieces.len() - i,
    {
        proof {
            assert(texts(pieces@).take(i + 1).drop_last() =~= texts(pieces@).take(i as int));
            assert(texts(pieces@).take(i + 1).last() == pieces@[i as int]@);
        }
        match parse_decimal(&pieces[i]) {
            Some(v) => {
                parts.push(v);
            },
            None => {},
        }
        i += 1;
    }
    assert(texts(pieces@).take(pieces.len() as int) =~= texts(pieces@));
    if parts.len() == 3 {
        parts[0] * 3600 + parts[1] * 60 + parts[2]
    } else if parts.len() == 2 {
        parts[0] * 60 + parts[1]
    } else if parts.len() == 1 {
        parts[0]
    } else {
        0
    }
}

} // verus!
