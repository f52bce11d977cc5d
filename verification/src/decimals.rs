//! Decimal numbers with a fraction and an exponent, read exactly.

use crate::text;
use vstd::prelude::*;

verus! {

pub open spec fn pow10(k: nat) -> nat
    decreases k,
{
    if k == 0 {
        1
    } else {
        10 * pow10((k - 1) as nat)
    }
}

/// How many zeros digits end in.
pub open spec fn trailing_zeros(digits: Seq<char>) -> nat
    decreases digits.len(),
{
    if digits.len() > 0 && digits.last() == '0' {
        1 + trailing_zeros(digits.drop_last())
    } else {
        0
    }
}

/// Digits without the zeros that they end in.
pub open spec fn significant(digits: Seq<char>) -> Seq<char>
    decreases digits.len(),
{
    if digits.len() > 0 && digits.last() == '0' {
        significant(digits.drop_last())
    } else {
        digits
    }
}

/// The integer that digits times a power of ten are; none where they are no integer.
pub open spec fn scaled(digits: Seq<char>, exponent: int) -> Option<int> {
    let kept = significant(digits);
    let k = exponent + trailing_zeros(digits);
    if kept.len() == 0 {
        Some(0)
    } else if k < 0 {
        None
    } else {
        Some((text::digits_value(kept) * pow10(k as nat)) as int)
    }
}

/// Whether a text begins with a sign.
pub open spec fn is_signed(s: Seq<char>) -> bool {
    s.len() > 0 && (s[0] == '-' || s[0] == '+')
}

/// A text without its sign.
pub open spec fn unsigned(s: Seq<char>) -> Seq<char> {
    if is_signed(s) {
        s.skip(1)
    } else {
        s
    }
}

pub open spec fn is_negative(s: Seq<char>) -> bool {
    s.len() > 0 && s[0] == '-'
}

/// The place of the letter before the exponent, or the length.
pub open spec fn exponent_mark(s: Seq<char>) -> int
    decreases s.len(),
{
    if s.len() == 0 || s[0] == 'e' || s[0] == 'E' {
        0
    } else {
        1 + exponent_mark(s.skip(1))
    }
}

/// The exponent that a text denotes: digits only, a sign before them allowed.
pub open spec fn exponent_value(s: Seq<char>) -> Option<int> {
    let digits = unsigned(s);
    if digits.len() == 0 || !text::all_digits(digits) {
        None
    } else if is_negative(s) {
        Some(-(text::digits_value(digits) as int))
    } else {
        Some(text::digits_value(digits) as int)
    }
}

/// The digits of a number with or without a point.
pub open spec fn mantissa_digits(mantissa: Seq<char>) -> Seq<char> {
    let point = text::upto(mantissa, '.');
    mantissa.take(point) + fraction_of(mantissa)
}

/// The digits behind the point.
pub open spec fn fraction_of(mantissa: Seq<char>) -> Seq<char> {
    let point = text::upto(mantissa, '.');
    if point < mantissa.len() {
        mantissa.skip(point + 1)
    } else {
        Seq::empty()
    }
}

/// The integer that digits with a point and an exponent denote.
pub open spec fn denoted(mantissa: Seq<char>, exponent: int) -> Option<int> {
    let digits = mantissa_digits(mantissa);
    if digits.len() == 0 || !text::all_digits(digits) {
        None
    } else {
        scaled(digits, exponent - fraction_of(mantissa).len())
    }
}

/// The integer that a decimal number is, exactly: with or without a sign, a point and
/// an exponent. None where the text is no such number, or the number no integer.
pub open spec fn exact_integer(s: Seq<char>) -> Option<int> {
    let body = unsigned(s);
    let mark = exponent_mark(body);
    let exponent = if mark < body.len() {
        exponent_value(body.skip(mark + 1))
    } else {
        Some(0)
    };
    match exponent {
        None => None,
        Some(e) => match denoted(body.take(mark), e) {
            None => None,
            Some(n) => if is_negative(s) {
                Some(-n)
            } else {
                Some(n)
            },
        },
    }
}

proof fn pow10_grows(a: nat, b: nat)
    requires
        a <= b,
    ensures
        1 <= pow10(a) <= pow10(b),
    decreases b,
{
    if a < b {
        pow10_grows(a, (b - 1) as nat);
    } else if b > 0 {
        pow10_grows((a - 1) as nat, (b - 1) as nat);
    }
}

proof fn significant_shape(d: Seq<char>)
    ensures
        significant(d) == d.take(d.len() - trailing_zeros(d)),
        trailing_zeros(d) <= d.len(),
        significant(d).len() > 0 ==> significant(d).last() != '0',
    decreases d.len(),
{
    if d.len() > 0 && d.last() == '0' {
        significant_shape(d.drop_last());
        assert(d.drop_last().take(d.drop_last().len() - trailing_zeros(d.drop_last())) =~= d.take(
            d.len() - trailing_zeros(d),
        ));
    } else {
        assert(d.take(d.len() as int) =~= d);
    }
}

/// Digits that do not end in a zero denote a number above zero.
proof fn significant_is_positive(d: Seq<char>)
    requires
        d.len() > 0,
        text::all_digits(d),
        d.last() != '0',
    ensures
        text::digits_value(d) > 0,
{
    assert(text::is_digit(d[d.len() - 1]));
}

/// An exponent that is read: exactly, or as one that is larger than any text is long.
enum Exponent {
    Exact(u128),
    Huge,
}

fn read_exponent(cs: &[char]) -> (r: Option<Exponent>)
    ensures
        match r {
            None => cs@.len() == 0 || !text::all_digits(cs@),
            Some(Exponent::Exact(n)) => {
                &&& cs@.len() > 0 && text::all_digits(cs@)
                &&& n == text::digits_value(cs@)
                &&& n < 1_000_000_000_000_000_000_000_000_000_000
            },
            Some(Exponent::Huge) => {
                &&& cs@.len() > 0 && text::all_digits(cs@)
                &&& text::digits_value(cs@) >= 1_000_000_000_000_000_000_000_000_000_000
            },
        },
{
    if cs.len() == 0 {
        return None;
    }
    let mut acc: u128 = 0;
    let mut huge: bool = false;
    let mut i: usize = 0;
    while i < cs.len()
        invariant
            i <= cs@.len(),
            text::all_digits(cs@.take(i as int)),
            huge ==> text::digits_value(cs@.take(i as int))
                >= 1_000_000_000_000_000_000_000_000_000_000,
            !huge ==> acc == text::digits_value(cs@.take(i as int)) && acc
                < 1_000_000_000_000_000_000_000_000_000_000,
        decreases cs@.len() - i,
    {
        let c = cs[i];
        if !('0' <= c && c <= '9') {
            assert(!text::is_digit(cs@[i as int]));
            return None;
        }
        proof {
            let next = cs@.take(i + 1);
            assert(next.drop_last() =~= cs@.take(i as int));
            assert(next.last() == c);
            assert forall|k: int| 0 <= k < next.len() implies text::is_digit(#[trigger] next[k]) by {
                if k < i {
                    assert(cs@.take(i as int)[k] == next[k]);
                }
            }
        }
        if !huge {
            acc = acc * 10 + (c as u128 - 48);
            if acc >= 1_000_000_000_000_000_000_000_000_000_000 {
                huge = true;
            }
        }
        i += 1;
    }
    assert(cs@.take(i as int) =~= cs@);
    if huge {
        Some(Exponent::Huge)
    } else {
        Some(Exponent::Exact(acc))
    }
}

fn strip_zeros(digits: &Vec<char>) -> (r: usize)
    ensures
        r <= digits@.len(),
        digits@.take(r as int) == significant(digits@),
        digits@.len() - r == trailing_zeros(digits@),
{
    let mut n: usize = digits.len();
    assert(digits@.take(n as int) =~= digits@);
    while n > 0 && digits[n - 1] == '0'
        invariant
            n <= digits@.len(),
            significant(digits@) == significant(digits@.take(n as int)),
            trailing_zeros(digits@) == digits@.len() - n + trailing_zeros(digits@.take(n as int)),
        decreases n,
    {
        assert(digits@.take(n as int).last() == '0');
        assert(digits@.take(n as int).drop_last() =~= digits@.take(n - 1));
        n -= 1;
    }
    n
}

/// Whether `e` is the exponent that was read.
spec fn is_exponent(exponent: Option<Exponent>, negative: bool, e: int) -> bool {
    match exponent {
        None => e == 0,
        Some(Exponent::Exact(n)) => n < 1_000_000_000_000_000_000_000_000_000_000 && e == if negative {
            -(n as int)
        } else {
            n as int
        },
        Some(Exponent::Huge) => if negative {
            e <= -1_000_000_000_000_000_000_000_000_000_000
        } else {
            e >= 1_000_000_000_000_000_000_000_000_000_000
        },
    }
}

/// Digits times a power of ten, where that is an integer of at most `max`.
fn read_scaled(
    digits: &Vec<char>,
    fraction: usize,
    exponent: Option<Exponent>,
    negative: bool,
    max: u64,
) -> (r: Option<u64>)
    requires
        text::all_digits(digits@),
        fraction <= digits@.len(),
    ensures
        forall|e: int|
            is_exponent(exponent, negative, e) ==> match #[trigger] scaled(digits@, e - fraction) {
                Some(n) => if n <= max {
                    r == Some(n as u64)
                } else {
                    r is None
                },
                None => r is None,
            },
{
    let n = strip_zeros(digits);
    let ghost kept = significant(digits@);
    proof {
        significant_shape(digits@);
    }
    if n == 0 {
        assert(kept.len() == 0);
        return Some(0);
    }
    assert(kept.len() == n);
    let kept_digits = text::slice_of(digits.as_slice(), 0, n);
    assert(kept_digits@ =~= kept);
    assert(text::all_digits(kept)) by {
        assert forall|k: int| 0 <= k < kept.len() implies text::is_digit(#[trigger] kept[k]) by {
            assert(kept[k] == digits@[k]);
        }
    }
    proof {
        significant_is_positive(kept);
    }
    let zeros: usize = digits.len() - n;
    let given: i128 = match exponent {
        None => 0,
        Some(Exponent::Exact(e)) => {
            if e >= 1_000_000_000_000_000_000_000_000_000_000 {
                return None;
            }
            if negative {
                -(e as i128)
            } else {
                e as i128
            }
        },
        Some(Exponent::Huge) => {
            proof {
                assert forall|e: int|
                    e >= 1_000_000_000_000_000_000_000_000_000_000 || e
                        <= -1_000_000_000_000_000_000_000_000_000_000 implies match #[trigger] scaled(
                    digits@,
                    e - fraction,
                ) {
                    Some(n) => n > max,
                    None => true,
                } by {
                    let k = e - fraction + zeros;
                    if k >= 0 {
                        pow10_grows(20, k as nat);
                        too_large(text::digits_value(kept), pow10(k as nat));
                    }
                }
            }
            return None;
        },
    };
    let k: i128 = given - fraction as i128 + zeros as i128;
    if k < 0 {
        return None;
    }
    let value: u64 = match text::read_unsigned(kept_digits.as_slice(), max) {
        Some(v) => v,
        None => {
            proof {
                assert(!(kept[0] == '+'));
                pow10_grows(0, k as nat);
                at_least(text::digits_value(kept), pow10(k as nat));
            }
            return None;
        },
    };
    proof {
        assert(!(kept[0] == '+'));
    }
    if k >= 20 {
        proof {
            pow10_grows(20, k as nat);
            too_large(text::digits_value(kept), pow10(k as nat));
        }
        return None;
    }
    let mut acc: u128 = value as u128;
    let mut i: i128 = 0;
    let ghost goal = text::digits_value(kept) * pow10(k as nat);
    assert(value * pow10(0) == value) by (nonlinear_arith)
        requires
            pow10(0) == 1,
    ;
    assert forall|e: int| is_exponent(exponent, negative, e) implies #[trigger] scaled(
        digits@,
        e - fraction,
    ) == Some(goal as int) by {}
    while i < k
        invariant
            0 <= i <= k < 20,
            goal == text::digits_value(kept) * pow10(k as nat),
            forall|e: int|
                is_exponent(exponent, negative, e) ==> #[trigger] scaled(digits@, e - fraction)
                    == Some(goal as int),
            value == text::digits_value(kept),
            value <= max,
            acc == value * pow10(i as nat),
            acc <= max,
        decreases k - i,
    {
        proof {
            assert(value * pow10((i + 1) as nat) == 10 * (value * pow10(i as nat)))
                by (nonlinear_arith)
                requires
                    pow10((i + 1) as nat) == 10 * pow10(i as nat),
            ;
        }
        acc = acc * 10;
        if acc > max as u128 {
            proof {
                pow10_grows((i + 1) as nat, k as nat);
                grows_with(value as nat, pow10((i + 1) as nat), pow10(k as nat));
            }
            return None;
        }
        i += 1;
    }
    Some(acc as u64)
}

proof fn too_large(v: nat, p: nat)
    requires
        v >= 1,
        p >= pow10(20),
    ensures
        v * p > u64::MAX,
{
    reveal_with_fuel(pow10, 21);
    assert(pow10(20) == 100_000_000_000_000_000_000);
    assert(v * p >= p) by (nonlinear_arith)
        requires
            v >= 1,
    ;
}

proof fn at_least(v: nat, p: nat)
    requires
        p >= 1,
    ensures
        v * p >= v,
{
    assert(v * p >= v) by (nonlinear_arith)
        requires
            p >= 1,
    ;
}

proof fn grows_with(v: nat, p: nat, q: nat)
    requires
        p <= q,
    ensures
        v * p <= v * q,
{
    assert(v * p <= v * q) by (nonlinear_arith)
        requires
            p <= q,
    ;
}

/// Reads the digits of a number, and how many of them are behind the point.
fn read_mantissa(mantissa: &[char]) -> (r: Option<(Vec<char>, usize)>)
    ensures
        match r {
            Some((digits, fraction)) => {
                &&& digits@ == mantissa_digits(mantissa@)
                &&& text::all_digits(digits@)
                &&& fraction == fraction_of(mantissa@).len()
                &&& fraction <= digits@.len()
            },
            None => !text::all_digits(mantissa_digits(mantissa@)),
        },
{
    let ghost given = mantissa@;
    let ghost all = mantissa_digits(given);
    let ghost point = text::upto(given, '.');
    let mut digits: Vec<char> = Vec::new();
    let mut fraction: usize = 0;
    let mut pointed: bool = false;
    let mut i: usize = 0;
    proof {
        text::upto_shape(given, '.');
    }
    while i < mantissa.len()
        invariant
            i <= mantissa@.len(),
            given == mantissa@,
            all == mantissa_digits(given),
            point == text::upto(given, '.'),
            0 <= point <= given.len(),
            forall|k: int| 0 <= k < point ==> given[k] != '.',
            point < given.len() ==> given[point] == '.',
            pointed == (i > point),
            digits@.len() == if pointed {
                i - 1
            } else {
                i as int
            },
            fraction == if pointed {
                i - 1 - point
            } else {
                0
            },
            digits@ == all.take(digits@.len() as int),
            text::all_digits(digits@),
        decreases mantissa@.len() - i,
    {
        let c = mantissa[i];
        if !pointed && c == '.' {
            assert(i == point);
            pointed = true;
        } else {
            let ghost k = digits@.len() as int;
            assert(all[k] == c);
            if !('0' <= c && c <= '9') {
                assert(!text::is_digit(all[k]));
                return None;
            }
            digits.push(c);
            if pointed {
                fraction = fraction + 1;
            }
            assert(digits@ =~= all.take(digits@.len() as int));
        }
        i += 1;
    }
    assert(digits@ =~= all);
    Some((digits, fraction))
}

/// The place of the letter before the exponent, or the length.
fn find_mark(body: &[char]) -> (mark: usize)
    ensures
        mark == exponent_mark(body@),
        mark <= body@.len(),
{
    let mut mark: usize = 0;
    assert(body@.skip(0) =~= body@);
    while mark < body.len() && body[mark] != 'e' && body[mark] != 'E'
        invariant
            mark <= body@.len(),
            exponent_mark(body@) == mark + exponent_mark(body@.skip(mark as int)),
        decreases body@.len() - mark,
    {
        assert(body@.skip(mark as int)[0] == body@[mark as int]);
        assert(body@.skip(mark as int).skip(1) =~= body@.skip(mark + 1));
        mark += 1;
    }
    assert(mark < body@.len() ==> body@.skip(mark as int)[0] == body@[mark as int]);
    mark
}

/// A text without its sign, and whether that is a minus.
fn split_sign(cs: &[char]) -> (r: (Vec<char>, bool))
    ensures
        r.0@ == unsigned(cs@),
        r.1 == is_negative(cs@),
{
    let from: usize = if cs.len() > 0 && (cs[0] == '-' || cs[0] == '+') {
        1
    } else {
        0
    };
    let body = text::slice_of(cs, from, cs.len());
    assert(body@ =~= unsigned(cs@));
    (body, cs.len() > 0 && cs[0] == '-')
}

/// Reads the integer that a decimal number is, exactly, where 64 bits hold it.
pub fn read_exact_integer(cs: &[char]) -> (r: Option<i64>)
    ensures
        match exact_integer(cs@) {
            Some(n) => if i64::MIN <= n <= i64::MAX {
                r == Some(n as i64)
            } else {
                r is None
            },
            None => r is None,
        },
{
    let (body, negative) = split_sign(cs);
    let mark = find_mark(body.as_slice());
    let mut below: bool = false;
    let mut exponent: Option<Exponent> = None;
    let ghost mut e: int = 0;
    if mark < body.len() {
        let behind = text::slice_of(body.as_slice(), mark + 1, body.len());
        assert(behind@ =~= body@.skip(mark + 1));
        let (bare, minus) = split_sign(behind.as_slice());
        below = minus;
        exponent = match read_exponent(bare.as_slice()) {
            Some(found) => Some(found),
            None => {
                return None;
            },
        };
        proof {
            e = exponent_value(behind@).unwrap();
        }
    }
    assert(is_exponent(exponent, below, e));
    let mantissa = text::slice_of(body.as_slice(), 0, mark);
    assert(mantissa@ =~= body@.take(mark as int));
    let (digits, fraction) = match read_mantissa(mantissa.as_slice()) {
        Some(found) => found,
        None => {
            return None;
        },
    };
    if digits.len() == 0 {
        return None;
    }
    let max: u64 = if negative {
        0x8000_0000_0000_0000
    } else {
        0x7fff_ffff_ffff_ffff
    };
    assert(denoted(mantissa@, e) == scaled(digits@, e - fraction));
    proof {
        scaled_is_natural(digits@, e - fraction);
    }
    match read_scaled(&digits, fraction, exponent, below, max) {
        None => None,
        Some(n) => if negative {
            Some((-(n as i128)) as i64)
        } else {
            Some(n as i64)
        },
    }
}

proof fn scaled_is_natural(digits: Seq<char>, exponent: int)
    ensures
        scaled(digits, exponent) matches Some(n) ==> n >= 0,
{
}

// ---------------------------------------------------------------------------
// Laws.

proof fn pow10_adds_up(a: nat, b: nat)
    ensures
        pow10(a + b) == pow10(a) * pow10(b),
    decreases a,
{
    if a == 0 {
        assert(pow10(0) * pow10(b) == pow10(b)) by (nonlinear_arith)
            requires
                pow10(0) == 1,
        ;
    } else {
        pow10_adds_up((a - 1) as nat, b);
        let (p, q) = (pow10((a - 1) as nat), pow10(b));
        assert(10 * (p * q) == (10 * p) * q) by (nonlinear_arith);
        assert(pow10(a + b) == 10 * pow10((a + b - 1) as nat));
    }
}

proof fn zeros_are_tens(d: Seq<char>)
    ensures
        text::digits_value(d) == text::digits_value(significant(d)) * pow10(trailing_zeros(d)),
    decreases d.len(),
{
    if d.len() > 0 && d.last() == '0' {
        zeros_are_tens(d.drop_last());
        let (v, p) = (
            text::digits_value(significant(d.drop_last())),
            pow10(trailing_zeros(d.drop_last())),
        );
        assert((v * p) * 10 == v * (10 * p)) by (nonlinear_arith);
    } else {
        let v = text::digits_value(d);
        assert(v * pow10(0) == v) by (nonlinear_arith)
            requires
                pow10(0) == 1,
        ;
    }
}

/// A number above or below zero.
pub open spec fn size(n: int) -> int {
    if n < 0 {
        -n
    } else {
        n
    }
}

/// What digits times a power of ten come to, with the power on whichever side it is none
/// of a fraction.
pub open spec fn is_product(n: int, value: nat, exponent: int) -> bool {
    if exponent >= 0 {
        n == value * pow10(exponent as nat)
    } else {
        n * pow10((-exponent) as nat) == value
    }
}

proof fn scaled_is_the_product(d: Seq<char>, exponent: int)
    requires
        text::all_digits(d),
    ensures
        match scaled(d, exponent) {
            Some(n) => n >= 0 && is_product(n, text::digits_value(d), exponent),
            None => forall|n: int| !#[trigger] is_product(n, text::digits_value(d), exponent),
        },
{
    significant_shape(d);
    zeros_are_tens(d);
    let kept = significant(d);
    let t = trailing_zeros(d);
    let v = text::digits_value(kept);
    let value = text::digits_value(d);
    let k = exponent + t;
    if kept.len() == 0 {
        assert(v == 0);
        assert(v * pow10(t) == 0) by (nonlinear_arith)
            requires
                v == 0,
        ;
        if exponent >= 0 {
            assert(0 * pow10(exponent as nat) == 0) by (nonlinear_arith);
        } else {
            assert(0 * pow10((-exponent) as nat) == 0) by (nonlinear_arith);
        }
    } else if k >= 0 {
        let n = v * pow10(k as nat);
        if exponent >= 0 {
            pow10_adds_up(t, exponent as nat);
            let (p, q) = (pow10(t), pow10(exponent as nat));
            assert(v * (p * q) == (v * p) * q) by (nonlinear_arith);
        } else {
            pow10_adds_up(k as nat, (-exponent) as nat);
            let (p, q) = (pow10(k as nat), pow10((-exponent) as nat));
            assert(v * (p * q) == (v * p) * q) by (nonlinear_arith);
        }
    } else {
        assert forall|n: int| !#[trigger] is_product(n, value, exponent) by {
            if is_product(n, value, exponent) {
                let j = (-k - 1) as nat;
                pow10_adds_up((j + 1) as nat, t);
                pow10_grows(0, t);
                let (p, q, r) = (pow10((j + 1) as nat), pow10(t), pow10(j));
                assert(n * (p * q) == v * q);
                assert(n * p == v) by (nonlinear_arith)
                    requires
                        n * (p * q) == v * q,
                        q >= 1,
                ;
                assert(n * (10 * r) == 10 * (n * r)) by (nonlinear_arith);
                assert(v == 10 * (n * r));
                let last = kept.last();
                assert(text::is_digit(d[kept.len() - 1]));
                assert(v == text::digits_value(kept.drop_last()) * 10 + text::digit_value(last));
                assert(false);
            }
        }
    }
}

proof fn mark_before(a: Seq<char>, b: Seq<char>)
    requires
        forall|i: int| 0 <= i < a.len() ==> #[trigger] a[i] != 'e' && a[i] != 'E',
        b.len() == 0 || b[0] == 'e' || b[0] == 'E',
    ensures
        exponent_mark(a + b) == a.len(),
    decreases a.len(),
{
    if a.len() > 0 {
        assert((a + b)[0] == a[0]);
        assert((a + b).skip(1) =~= a.skip(1) + b);
        mark_before(a.skip(1), b);
    } else {
        assert(a + b =~= b);
    }
}

proof fn point_before(a: Seq<char>, b: Seq<char>)
    requires
        text::all_digits(a),
        b.len() == 0 || b[0] == '.',
    ensures
        text::upto(a + b, '.') == a.len(),
    decreases a.len(),
{
    if a.len() > 0 {
        assert((a + b)[0] == a[0]);
        assert((a + b).skip(1) =~= a.skip(1) + b);
        assert(text::all_digits(a.skip(1))) by {
            assert forall|i: int| 0 <= i < a.skip(1).len() implies text::is_digit(
                #[trigger] a.skip(1)[i],
            ) by {
                assert(a.skip(1)[i] == a[i + 1]);
            }
        }
        point_before(a.skip(1), b);
    } else {
        assert(a + b =~= b);
    }
}

/// A sign, as a text.
pub open spec fn sign_text(negative: bool) -> Seq<char> {
    if negative {
        seq!['-']
    } else {
        Seq::empty()
    }
}

/// A decimal number denotes exactly what its digits say: all of them, before and behind the
/// point, times ten to the exponent less the digits behind the point. Where that is no
/// integer none is read, and where it is one, that one and no other.
pub proof fn numbers_are_read_exactly(
    negative: bool,
    whole: Seq<char>,
    fraction: Seq<char>,
    below: bool,
    exponent: Seq<char>,
)
    requires
        whole.len() > 0,
        text::all_digits(whole),
        text::all_digits(fraction),
        exponent.len() > 0,
        text::all_digits(exponent),
    ensures
        ({
            let s = sign_text(negative) + (whole + seq!['.'] + fraction + seq!['e'] + (sign_text(
                below,
            ) + exponent));
            let power = if below {
                -(text::digits_value(exponent) as int)
            } else {
                text::digits_value(exponent) as int
            };
            let value = text::digits_value(whole + fraction);
            match exact_integer(s) {
                Some(n) => is_product(size(n), value, power - fraction.len()) && (n < 0
                    ==> negative) && (n > 0 ==> !negative),
                None => forall|n: int|
                    !#[trigger] is_product(n, value, power - fraction.len()),
            }
        }),
{
    let mantissa = whole + seq!['.'] + fraction;
    let tail = sign_text(below) + exponent;
    let body = mantissa + seq!['e'] + tail;
    let s = sign_text(negative) + body;
    assert(text::is_digit(whole[0]));
    assert(body[0] == whole[0]);
    assert(text::is_digit(exponent[0]));
    if negative {
        assert(s[0] == '-');
        assert(s.skip(1) =~= body);
    } else {
        assert(s =~= body);
    }
    assert(unsigned(s) == body);
    assert forall|i: int| 0 <= i < mantissa.len() implies #[trigger] mantissa[i] != 'e'
        && mantissa[i] != 'E' by {
        if i < whole.len() {
            assert(mantissa[i] == whole[i]);
        } else if i > whole.len() {
            assert(mantissa[i] == fraction[i - whole.len() - 1]);
        }
    }
    mark_before(mantissa, seq!['e'] + tail);
    assert(body =~= mantissa + (seq!['e'] + tail));
    assert(body.take(mantissa.len() as int) =~= mantissa);
    assert(body.skip(mantissa.len() as int + 1) =~= tail);
    if below {
        assert(tail[0] == '-');
        assert(tail.skip(1) =~= exponent);
    } else {
        assert(tail =~= exponent);
    }
    assert(unsigned(tail) == exponent);
    point_before(whole, seq!['.'] + fraction);
    assert(mantissa =~= whole + (seq!['.'] + fraction));
    assert(mantissa.take(whole.len() as int) =~= whole);
    assert(mantissa.skip(whole.len() as int + 1) =~= fraction);
    let digits = whole + fraction;
    assert(text::all_digits(digits)) by {
        assert forall|i: int| 0 <= i < digits.len() implies text::is_digit(
            #[trigger] digits[i],
        ) by {
            if i < whole.len() {
                assert(digits[i] == whole[i]);
            } else {
                assert(digits[i] == fraction[i - whole.len()]);
            }
        }
    }
    let power = if below {
        -(text::digits_value(exponent) as int)
    } else {
        text::digits_value(exponent) as int
    };
    scaled_is_the_product(digits, power - fraction.len());
}

/// An integer is read back from its numeral.
pub proof fn integers_are_read_back(n: int)
    ensures
        exact_integer(text::signed_decimal(n)) == Some(n),
{
    let d = text::decimal(size(n) as nat);
    let s = text::signed_decimal(n);
    text::decimal_is_read_back(size(n) as nat);
    assert(text::is_digit(d[0]));
    if n < 0 {
        assert(s[0] == '-');
        assert(s.skip(1) =~= d);
    }
    assert(unsigned(s) == d);
    let none = Seq::<char>::empty();
    assert(d + none =~= d);
    assert forall|i: int| 0 <= i < d.len() implies #[trigger] d[i] != 'e' && d[i] != 'E' by {
        assert(text::is_digit(d[i]));
    }
    mark_before(d, none);
    point_before(d, none);
    assert(d.take(d.len() as int) =~= d);
    assert(mantissa_digits(d) =~= d);
    scaled_is_the_product(d, 0);
    assert(pow10(0) == 1);
    let v = text::digits_value(d);
    assert(v * pow10(0) == v) by (nonlinear_arith)
        requires
            pow10(0) == 1,
    ;
    assert(is_product(v as int, v, 0));
}

} // verus!
