//! Rounding of fractional cube coordinates to the nearest cell.
//!
//! A fractional coordinate is three numerators over one positive denominator.
//! All arithmetic is exact: a quotient is rounded to the nearest integer, a half
//! away from zero, and rounding errors are compared as integers, scaled by the
//! denominator.

use crate::coords::{abs, CubeCoords, CubePoint};
use vstd::arithmetic::div_mod::{
    lemma_fundamental_div_mod, lemma_fundamental_div_mod_converse, lemma_mod_bound,
};
use vstd::arithmetic::mul::{lemma_mul_is_associative, lemma_mul_is_commutative};
use vstd::prelude::*;

verus! {

/// The quotient `n / d` rounded to the nearest integer, a half away from zero.
pub open spec fn round_div(n: int, d: int) -> int
    recommends
        d > 0,
{
    if n >= 0 {
        (2 * n + d) / (2 * d)
    } else {
        -((d - 2 * n) / (2 * d))
    }
}

/// The distance from `n / d` to the integer `k`, scaled by `d`.
pub open spec fn scaled_error(n: int, d: int, k: int) -> int {
    abs(n - d * k)
}

/// Whether `k` is `n / d` rounded to the nearest integer, a half away from zero.
pub open spec fn rounds_to(n: int, d: int, k: int) -> bool {
    if n >= 0 {
        2 * (d * k) - d <= 2 * n < 2 * (d * k) + d
    } else {
        2 * (d * k) - d < 2 * n <= 2 * (d * k) + d
    }
}

/// The cell nearest to the fractional coordinate `(q / d, r / d, s / d)`.
///
/// Each axis is rounded on its own. The axis with the largest rounding error
/// is then replaced by the negated sum of the other two. Where two axes share
/// the largest error, `q` goes before `r` and `r` before `s`.
pub open spec fn cube_round_point(q: int, r: int, s: int, d: int) -> CubePoint
    recommends
        d > 0,
{
    let qr = round_div(q, d);
    let rr = round_div(r, d);
    let sr = round_div(s, d);
    let q_err = scaled_error(q, d, qr);
    let r_err = scaled_error(r, d, rr);
    let s_err = scaled_error(s, d, sr);
    if q_err >= r_err && q_err >= s_err {
        CubePoint { q: -rr - sr, r: rr, s: sr }
    } else if r_err >= s_err {
        CubePoint { q: qr, r: -qr - sr, s: sr }
    } else {
        CubePoint { q: qr, r: rr, s: -qr - rr }
    }
}

/// `round_div` gives the nearest integer, with a half going away from zero.
pub proof fn lemma_round_div_nearest(n: int, d: int)
    requires
        d > 0,
    ensures
        rounds_to(n, d, round_div(n, d)),
{
    let m = 2 * d;
    if n >= 0 {
        let x = 2 * n + d;
        let k = x / m;
        lemma_fundamental_div_mod(x, m);
        lemma_mod_bound(x, m);
        lemma_mul_is_associative(2, d, k);
    } else {
        let x = d - 2 * n;
        let k = x / m;
        lemma_fundamental_div_mod(x, m);
        lemma_mod_bound(x, m);
        lemma_mul_is_associative(2, d, k);
        assert(d * (-k) == -(d * k)) by (nonlinear_arith);
    }
}

/// No integer but `round_div(n, d)` is the nearest in that sense.
pub proof fn lemma_round_div_unique(n: int, d: int, k: int)
    requires
        d > 0,
        rounds_to(n, d, k),
    ensures
        round_div(n, d) == k,
{
    let m = 2 * d;
    if n >= 0 {
        let x = 2 * n + d;
        lemma_mul_is_associative(2, d, k);
        lemma_mul_is_commutative(k, m);
        lemma_fundamental_div_mod_converse(x, m, k, x - k * m);
    } else {
        let x = d - 2 * n;
        lemma_mul_is_associative(2, d, -k);
        lemma_mul_is_commutative(-k, m);
        assert(d * (-k) == -(d * k)) by (nonlinear_arith);
        lemma_fundamental_div_mod_converse(x, m, -k, x - (-k) * m);
    }
}

/// The quotient `n / d` rounded to the nearest integer, a half away from zero.
fn round_div_exec(n: i64, d: i64) -> (k: i64)
    requires
        d > 0,
    ensures
        k == round_div(n as int, d as int),
{
    proof {
        lemma_round_div_nearest(n as int, d as int);
        lemma_round_div_magnitude(n as int, d as int);
    }
    let m: u128 = 2 * (d as u128);
    if n >= 0 {
        let x: u128 = 2 * (n as u128) + (d as u128);
        let k: u128 = x / m;
        k as i64
    } else {
        let x: u128 = 2 * ((-(n as i128)) as u128) + (d as u128);
        let k: u128 = x / m;
        (-(k as i128)) as i64
    }
}

/// Rounding never moves a quotient away from zero past its numerator.
pub proof fn lemma_round_div_magnitude(n: int, d: int)
    requires
        d > 0,
    ensures
        abs(round_div(n, d)) <= abs(n),
        n >= 0 ==> round_div(n, d) >= 0,
        n <= 0 ==> round_div(n, d) <= 0,
{
    let k = round_div(n, d);
    lemma_round_div_nearest(n, d);
    if k >= 1 {
        assert(2 * (d * k) - d >= 2 * k - 1) by (nonlinear_arith)
            requires
                d >= 1,
                k >= 1,
        ;
    }
    if k <= -1 {
        assert(2 * (d * k) + d <= 2 * k + 1) by (nonlinear_arith)
            requires
                d >= 1,
                k <= -1,
        ;
    }
    if k >= 1 && n < 0 {
        assert(d * k >= d) by (nonlinear_arith)
            requires
                d >= 1,
                k >= 1,
        ;
    }
    if k <= -1 && n >= 0 {
        assert(d * k <= -d) by (nonlinear_arith)
            requires
                d >= 1,
                k <= -1,
        ;
    }
}

/// The distance from `n / d` to the integer `k`, scaled by `d`.
fn scaled_error_exec(n: i64, d: i64, k: i64) -> (e: i128)
    requires
        d > 0,
    ensures
        e == scaled_error(n as int, d as int, k as int),
{
    assert(-0x4000_0000_0000_0000_0000_0000_0000_0000 <= d as int * k as int
        <= 0x4000_0000_0000_0000_0000_0000_0000_0000) by (nonlinear_arith)
        requires
            0 < d <= 0x7fff_ffff_ffff_ffff,
            -0x8000_0000_0000_0000 <= k <= 0x7fff_ffff_ffff_ffff,
    ;
    let diff: i128 = (n as i128) - (d as i128) * (k as i128);
    if diff < 0 {
        -diff
    } else {
        diff
    }
}

/// The cell nearest to the fractional coordinate `(q / den, r / den, s / den)`.
///
/// Each axis is rounded to the nearest integer, a half away from zero. The
/// axis with the largest rounding error is then recomputed from the other
/// two, so that the result is a cell; of two axes with the same largest
/// error, `q` is recomputed rather than `r`, and `r` rather than `s`.
pub fn cube_round(q: i64, r: i64, s: i64, den: i64) -> (c: CubeCoords)
    requires
        den > 0,
        cube_round_point(q as int, r as int, s as int, den as int).fits(),
    ensures
        c@ == cube_round_point(q as int, r as int, s as int, den as int),
        c@.is_cell(),
{
    let qr: i64 = round_div_exec(q, den);
    let rr: i64 = round_div_exec(r, den);
    let sr: i64 = round_div_exec(s, den);
    let q_err: i128 = scaled_error_exec(q, den, qr);
    let r_err: i128 = scaled_error_exec(r, den, rr);
    let s_err: i128 = scaled_error_exec(s, den, sr);
    if q_err >= r_err && q_err >= s_err {
        CubeCoords { q: (-(rr as i128) - (sr as i128)) as i32, r: rr as i32, s: sr as i32 }
    } else if r_err >= s_err {
        CubeCoords { q: qr as i32, r: (-(qr as i128) - (sr as i128)) as i32, s: sr as i32 }
    } else {
        CubeCoords { q: qr as i32, r: rr as i32, s: (-(qr as i128) - (rr as i128)) as i32 }
    }
}

/// A whole number of denominators rounds to that number, with no error.
pub proof fn lemma_round_div_whole(k: int, d: int)
    requires
        d > 0,
    ensures
        round_div(d * k, d) == k,
        scaled_error(d * k, d, k) == 0,
{
    lemma_round_div_unique(d * k, d, k);
}

/// Rounding a cell of the grid, written over any positive denominator, gives
/// the cell back.
pub proof fn lemma_cube_round_of_cell(c: CubePoint, d: int)
    requires
        c.is_cell(),
        d > 0,
    ensures
        cube_round_point(d * c.q, d * c.r, d * c.s, d) == c,
{
    lemma_round_div_whole(c.q, d);
    lemma_round_div_whole(c.r, d);
    lemma_round_div_whole(c.s, d);
}

/// The rounded point is a cell, whatever the numerators.
pub proof fn lemma_cube_round_is_cell(q: int, r: int, s: int, d: int)
    ensures
        cube_round_point(q, r, s, d).is_cell(),
{
}

/// The rounding error is at most half a denominator.
pub proof fn lemma_round_error_bound(n: int, d: int)
    requires
        d > 0,
    ensures
        2 * scaled_error(n, d, round_div(n, d)) <= d,
{
    lemma_round_div_nearest(n, d);
}

/// Any integer within half a denominator of `n / d` is as near to it as the
/// rounded quotient.
pub proof fn lemma_round_error_least(n: int, d: int, k: int)
    requires
        d > 0,
        2 * scaled_error(n, d, k) <= d,
    ensures
        scaled_error(n, d, round_div(n, d)) == scaled_error(n, d, k),
{
    let r = round_div(n, d);
    lemma_round_div_nearest(n, d);
    if k > r {
        assert(d * k >= d * r + d) by (nonlinear_arith)
            requires
                d > 0,
                k >= r + 1,
        ;
    } else if k < r {
        assert(d * k <= d * r - d) by (nonlinear_arith)
            requires
                d > 0,
                k <= r - 1,
        ;
    }
}

/// Two numerators whose sum is a whole number of denominators have the same
/// rounding error.
pub proof fn lemma_round_error_complement(n: int, m: int, d: int, k: int)
    requires
        d > 0,
        n + m == d * k,
    ensures
        scaled_error(n, d, round_div(n, d)) == scaled_error(m, d, round_div(m, d)),
{
    let r = round_div(n, d);
    lemma_round_div_nearest(n, d);
    assert(d * (k - r) == d * k - d * r) by (nonlinear_arith);
    lemma_round_error_least(m, d, k - r);
}

/// Rounding is monotone, and a numerator that drops by less than one
/// denominator drops the rounded quotient by at most one.
pub proof fn lemma_round_div_step(n: int, m: int, d: int)
    requires
        d > 0,
        n - d < m <= n,
    ensures
        round_div(n, d) - 1 <= round_div(m, d) <= round_div(n, d),
{
    let r = round_div(n, d);
    let t = round_div(m, d);
    lemma_round_div_nearest(n, d);
    lemma_round_div_nearest(m, d);
    if t >= r + 1 {
        assert(d * t >= d * r + d) by (nonlinear_arith)
            requires
                d > 0,
                t >= r + 1,
        ;
    }
    if t <= r - 2 {
        assert(d * t <= d * r - 2 * d) by (nonlinear_arith)
            requires
                d > 0,
                t <= r - 2,
        ;
    }
}

/// Adding a whole number `k` to a quotient adds `k` to its rounding, unless
/// the quotient lies exactly halfway between two integers and the sum changes
/// its sign.
pub proof fn lemma_round_div_shift(n: int, d: int, k: int)
    requires
        d > 0,
        (n >= 0 <==> n + d * k >= 0) || 2 * scaled_error(n, d, round_div(n, d)) != d,
    ensures
        round_div(n + d * k, d) == round_div(n, d) + k,
        scaled_error(n + d * k, d, round_div(n, d) + k) == scaled_error(n, d, round_div(n, d)),
{
    let r = round_div(n, d);
    lemma_round_div_nearest(n, d);
    assert(d * (r + k) == d * r + d * k) by (nonlinear_arith);
    lemma_round_div_unique(n + d * k, d, r + k);
}

/// Where the numerators sum to zero and one of them is a whole number of
/// denominators, that axis keeps its value, `s` (or `r`, where `s` is the
/// whole one) is rounded, and the remaining axis is the negated sum. Every
/// component is then within half a denominator of its quotient.
pub proof fn lemma_cube_round_whole_axis(q: int, r: int, s: int, d: int, k: int)
    requires
        d > 0,
        q + r + s == 0,
        q == d * k || r == d * k || s == d * k,
    ensures
        q == d * k ==> cube_round_point(q, r, s, d) == (CubePoint {
            q: k,
            r: -k - round_div(s, d),
            s: round_div(s, d),
        }),
        r == d * k ==> cube_round_point(q, r, s, d) == (CubePoint {
            q: -k - round_div(s, d),
            r: k,
            s: round_div(s, d),
        }),
        s == d * k ==> cube_round_point(q, r, s, d) == (CubePoint {
            q: -round_div(r, d) - k,
            r: round_div(r, d),
            s: k,
        }),
        2 * scaled_error(q, d, cube_round_point(q, r, s, d).q) <= d,
        2 * scaled_error(r, d, cube_round_point(q, r, s, d).r) <= d,
        2 * scaled_error(s, d, cube_round_point(q, r, s, d).s) <= d,
{
    let qr = round_div(q, d);
    let rr = round_div(r, d);
    let sr = round_div(s, d);
    lemma_round_error_bound(q, d);
    lemma_round_error_bound(r, d);
    lemma_round_error_bound(s, d);
    lemma_round_div_whole(k, d);
    assert(d * (-k) == -(d * k)) by (nonlinear_arith);
    assert(d * (-k - sr) == -(d * k) - d * sr) by (nonlinear_arith);
    assert(d * (-rr - k) == -(d * rr) - d * k) by (nonlinear_arith);
    assert(d * (-rr - sr) == -(d * rr) - d * sr) by (nonlinear_arith);
    if q == d * k {
        lemma_round_error_complement(r, s, d, -k);
        if scaled_error(r, d, rr) == 0 {
            assert(k + rr + sr == 0) by (nonlinear_arith)
                requires
                    d > 0,
                    d * k + d * rr + d * sr == 0,
            ;
        }
    }
    if r == d * k {
        lemma_round_error_complement(q, s, d, -k);
    }
    if s == d * k {
        lemma_round_error_complement(q, r, d, -k);
    }
}

/// Whether `n / d` lies exactly half-way between two integers.
pub open spec fn is_half_way(n: int, d: int) -> bool {
    2 * scaled_error(n, d, round_div(n, d)) == d
}

/// Whether `n / d` and `m / d` are rounded by the same rule: always, unless
/// `n / d` lies half-way between two integers and the two have different
/// signs, so that one half goes up and the other down.
pub open spec fn round_alike(n: int, m: int, d: int) -> bool {
    !is_half_way(n, d) || (n >= 0 <==> m >= 0)
}

/// Adding a whole number `k` to a quotient adds `k` to its rounding exactly
/// when the quotient and the sum are rounded by the same rule.
pub proof fn lemma_round_div_shift_exact(n: int, d: int, k: int)
    requires
        d > 0,
    ensures
        round_div(n + d * k, d) == round_div(n, d) + k <==> round_alike(n, n + d * k, d),
{
    let r = round_div(n, d);
    if round_alike(n, n + d * k, d) {
        lemma_round_div_shift(n, d, k);
    } else {
        lemma_round_div_nearest(n, d);
        lemma_round_div_nearest(n + d * k, d);
        assert(d * (r + k) == d * r + d * k) by (nonlinear_arith);
    }
}

/// A quotient with an odd denominator never lies half-way between two
/// integers.
pub proof fn lemma_odd_never_half_way(n: int, d: int)
    requires
        d % 2 == 1,
    ensures
        !is_half_way(n, d),
{
}

} // verus!
