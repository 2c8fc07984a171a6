//! Straight lines of cells between two cells of the grid.
//!
//! The line from `a` to `b` has one cell for each of `dist(a, b) + 1` evenly
//! spaced points on the segment between the two cell centres: the cell
//! nearest to that point. The map from cube coordinates to positions in the
//! plane is linear, so a point that divides the segment in the plane in the
//! ratio `i : n - i` has the cube coordinates `(a * (n - i) + b * i) / n`; the
//! points are computed in cube space, as exact fractions. That both ways of
//! cutting the segment give the same cells is shown in the module `plane`.

use crate::coords::{abs, lemma_cell_distance_fits, lemma_norm_is_max, CubeCoords, CubePoint};
use crate::rounding::{
    cube_round, cube_round_point, lemma_cube_round_of_cell,
    lemma_cube_round_whole_axis, lemma_odd_never_half_way, lemma_round_div_shift_exact,
    lemma_round_div_step, lemma_round_div_whole, round_alike, round_div, scaled_error,
};
use vstd::prelude::*;

verus! {

/// Numerator, over the denominator `n`, of the point that divides the segment
/// from `x0` to `x1` in the ratio `i : n - i`.
pub open spec fn lerp(x0: int, x1: int, n: int, i: int) -> int {
    x0 * (n - i) + x1 * i
}

/// The cell of the line from `a` to `b` at step `i`, for `0 <= i <= dist(a, b)`.
pub open spec fn line_cell(a: CubePoint, b: CubePoint, i: int) -> CubePoint {
    let n = a.dist(b);
    if n == 0 {
        a
    } else {
        cube_round_point(lerp(a.q, b.q, n, i), lerp(a.r, b.r, n, i), lerp(a.s, b.s, n, i), n)
    }
}

/// The cells of the line from `a` to `b`, both ends included.
pub open spec fn line(a: CubePoint, b: CubePoint) -> Seq<CubePoint> {
    Seq::new((a.dist(b) + 1) as nat, |i: int| line_cell(a, b, i))
}

/// `-1`, `0` or `1` as `x` is negative, zero or positive.
pub open spec fn sign(x: int) -> int {
    if x < 0 {
        -1
    } else if x == 0 {
        0
    } else {
        1
    }
}

/// Along an axis on which the two ends are `n` apart, step `i` is a whole
/// number of denominators.
proof fn lemma_lerp_whole(x0: int, x1: int, n: int, i: int)
    requires
        n >= 1,
        abs(x1 - x0) == n,
    ensures
        lerp(x0, x1, n, i) == n * (x0 + sign(x1 - x0) * i),
{
    let step = sign(x1 - x0);
    if x1 - x0 == n {
        assert(x0 * (n - i) + x1 * i == n * (x0 + step * i)) by (nonlinear_arith)
            requires
                x1 == x0 + n,
                step == 1,
        ;
    } else {
        assert(x0 * (n - i) + x1 * i == n * (x0 + step * i)) by (nonlinear_arith)
            requires
                x1 == x0 - n,
                step == -1,
        ;
    }
}

/// The numerators of a point on the segment between two cells sum to zero.
proof fn lemma_lerp_sum(a: CubePoint, b: CubePoint, n: int, i: int)
    requires
        a.is_cell(),
        b.is_cell(),
    ensures
        lerp(a.q, b.q, n, i) + lerp(a.r, b.r, n, i) + lerp(a.s, b.s, n, i) == 0,
{
    assert(a.q * (n - i) + a.r * (n - i) + a.s * (n - i) == (a.q + a.r + a.s) * (n - i))
        by (nonlinear_arith);
    assert(b.q * i + b.r * i + b.s * i == (b.q + b.r + b.s) * i) by (nonlinear_arith);
}

/// One step along the segment moves each numerator by the difference of the
/// two ends, and the numerator stays between the two ends.
proof fn lemma_lerp_step(x0: int, x1: int, n: int, i: int)
    requires
        0 <= i <= n,
    ensures
        lerp(x0, x1, n, i + 1) == lerp(x0, x1, n, i) + (x1 - x0),
        x0 <= x1 ==> n * x0 <= lerp(x0, x1, n, i) <= n * x1,
        x1 <= x0 ==> n * x1 <= lerp(x0, x1, n, i) <= n * x0,
{
    assert(x0 * (n - (i + 1)) + x1 * (i + 1) == x0 * (n - i) + x1 * i + (x1 - x0))
        by (nonlinear_arith);
    assert(x0 * (n - i) + x1 * i == n * x0 + (x1 - x0) * i) by (nonlinear_arith);
    assert(x0 * (n - i) + x1 * i == n * x1 - (x1 - x0) * (n - i)) by (nonlinear_arith);
    if x0 <= x1 {
        assert((x1 - x0) * i >= 0) by (nonlinear_arith)
            requires
                x1 - x0 >= 0,
                i >= 0,
        ;
        assert((x1 - x0) * (n - i) >= 0) by (nonlinear_arith)
            requires
                x1 - x0 >= 0,
                n - i >= 0,
        ;
    } else {
        assert((x1 - x0) * i <= 0) by (nonlinear_arith)
            requires
                x1 - x0 <= 0,
                i >= 0,
        ;
        assert((x1 - x0) * (n - i) <= 0) by (nonlinear_arith)
            requires
                x1 - x0 <= 0,
                n - i >= 0,
        ;
    }
}

/// Along an axis on which the two ends are at most `n` apart, one step moves
/// the rounded coordinate by at most one, towards the far end.
proof fn lemma_round_lerp_step(x0: int, x1: int, n: int, i: int)
    requires
        n >= 1,
        0 <= i < n,
        abs(x1 - x0) <= n,
    ensures
        x0 <= x1 ==> round_div(lerp(x0, x1, n, i), n) <= round_div(lerp(x0, x1, n, i + 1), n)
            <= round_div(lerp(x0, x1, n, i), n) + 1,
        x1 <= x0 ==> round_div(lerp(x0, x1, n, i), n) - 1 <= round_div(lerp(x0, x1, n, i + 1), n)
            <= round_div(lerp(x0, x1, n, i), n),
{
    lemma_lerp_step(x0, x1, n, i);
    if abs(x1 - x0) == n {
        lemma_lerp_whole(x0, x1, n, i);
        lemma_lerp_whole(x0, x1, n, i + 1);
        lemma_round_div_whole(x0 + sign(x1 - x0) * i, n);
        lemma_round_div_whole(x0 + sign(x1 - x0) * (i + 1), n);
    } else if x0 <= x1 {
        lemma_round_div_step(lerp(x0, x1, n, i + 1), lerp(x0, x1, n, i), n);
    } else {
        lemma_round_div_step(lerp(x0, x1, n, i), lerp(x0, x1, n, i + 1), n);
    }
}

/// The shape of a cell of a line. On an axis on which the two ends are as far
/// apart as the line is long, the cell advances by one per step; `s` (or `r`,
/// where `s` is that axis) is rounded; the third axis is the negated sum.
/// Every component is within half a step of the point it was rounded from.
pub proof fn lemma_line_cell_shape(a: CubePoint, b: CubePoint, i: int)
    requires
        a.is_cell(),
        b.is_cell(),
        a.dist(b) >= 1,
        0 <= i <= a.dist(b),
    ensures
        abs(b.q - a.q) == a.dist(b) || abs(b.r - a.r) == a.dist(b) || abs(b.s - a.s) == a.dist(b),
        abs(b.q - a.q) <= a.dist(b),
        abs(b.r - a.r) <= a.dist(b),
        abs(b.s - a.s) <= a.dist(b),
        abs(b.q - a.q) == a.dist(b) ==> line_cell(a, b, i) == (CubePoint {
            q: a.q + sign(b.q - a.q) * i,
            r: -(a.q + sign(b.q - a.q) * i) - round_div(lerp(a.s, b.s, a.dist(b), i), a.dist(b)),
            s: round_div(lerp(a.s, b.s, a.dist(b), i), a.dist(b)),
        }),
        abs(b.r - a.r) == a.dist(b) ==> line_cell(a, b, i) == (CubePoint {
            q: -(a.r + sign(b.r - a.r) * i) - round_div(lerp(a.s, b.s, a.dist(b), i), a.dist(b)),
            r: a.r + sign(b.r - a.r) * i,
            s: round_div(lerp(a.s, b.s, a.dist(b), i), a.dist(b)),
        }),
        abs(b.s - a.s) == a.dist(b) ==> line_cell(a, b, i) == (CubePoint {
            q: -round_div(lerp(a.r, b.r, a.dist(b), i), a.dist(b)) - (a.s + sign(b.s - a.s) * i),
            r: round_div(lerp(a.r, b.r, a.dist(b), i), a.dist(b)),
            s: a.s + sign(b.s - a.s) * i,
        }),
        2 * scaled_error(lerp(a.q, b.q, a.dist(b), i), a.dist(b), line_cell(a, b, i).q) <= a.dist(b),
        2 * scaled_error(lerp(a.r, b.r, a.dist(b), i), a.dist(b), line_cell(a, b, i).r) <= a.dist(b),
        2 * scaled_error(lerp(a.s, b.s, a.dist(b), i), a.dist(b), line_cell(a, b, i).s) <= a.dist(b),
{
    let n = a.dist(b);
    let q = lerp(a.q, b.q, n, i);
    let r = lerp(a.r, b.r, n, i);
    let s = lerp(a.s, b.s, n, i);
    lemma_norm_is_max(b.minus(a));
    lemma_lerp_sum(a, b, n, i);
    if abs(b.q - a.q) == n {
        lemma_lerp_whole(a.q, b.q, n, i);
        lemma_cube_round_whole_axis(q, r, s, n, a.q + sign(b.q - a.q) * i);
    }
    if abs(b.r - a.r) == n {
        lemma_lerp_whole(a.r, b.r, n, i);
        lemma_cube_round_whole_axis(q, r, s, n, a.r + sign(b.r - a.r) * i);
    }
    if abs(b.s - a.s) == n {
        lemma_lerp_whole(a.s, b.s, n, i);
        lemma_cube_round_whole_axis(q, r, s, n, a.s + sign(b.s - a.s) * i);
    }
}

/// An integer within half a step of a point between two integers lies
/// between them too.
proof fn lemma_near_is_between(x: int, n: int, k: int, lo: int, hi: int)
    requires
        n >= 1,
        n * lo <= x <= n * hi,
        2 * scaled_error(x, n, k) <= n,
    ensures
        lo <= k <= hi,
{
    if k < lo {
        assert(n * k <= n * lo - n) by (nonlinear_arith)
            requires
                n >= 1,
                k <= lo - 1,
        ;
    }
    if k > hi {
        assert(n * k >= n * hi + n) by (nonlinear_arith)
            requires
                n >= 1,
                k >= hi + 1,
        ;
    }
}

/// Each component of a cell of a line lies between that component of the two
/// ends.
pub proof fn lemma_line_cell_between(a: CubePoint, b: CubePoint, i: int)
    requires
        a.is_cell(),
        b.is_cell(),
        0 <= i <= a.dist(b),
    ensures
        a.q <= line_cell(a, b, i).q <= b.q || b.q <= line_cell(a, b, i).q <= a.q,
        a.r <= line_cell(a, b, i).r <= b.r || b.r <= line_cell(a, b, i).r <= a.r,
        a.s <= line_cell(a, b, i).s <= b.s || b.s <= line_cell(a, b, i).s <= a.s,
        line_cell(a, b, i).is_cell(),
{
    let n = a.dist(b);
    let c = line_cell(a, b, i);
    if n >= 1 {
        lemma_line_cell_shape(a, b, i);
        lemma_lerp_step(a.q, b.q, n, i);
        lemma_lerp_step(a.r, b.r, n, i);
        lemma_lerp_step(a.s, b.s, n, i);
        if a.q <= b.q {
            lemma_near_is_between(lerp(a.q, b.q, n, i), n, c.q, a.q, b.q);
        } else {
            lemma_near_is_between(lerp(a.q, b.q, n, i), n, c.q, b.q, a.q);
        }
        if a.r <= b.r {
            lemma_near_is_between(lerp(a.r, b.r, n, i), n, c.r, a.r, b.r);
        } else {
            lemma_near_is_between(lerp(a.r, b.r, n, i), n, c.r, b.r, a.r);
        }
        if a.s <= b.s {
            lemma_near_is_between(lerp(a.s, b.s, n, i), n, c.s, a.s, b.s);
        } else {
            lemma_near_is_between(lerp(a.s, b.s, n, i), n, c.s, b.s, a.s);
        }
    }
}

/// A line starts at its first end and stops at its second.
pub proof fn lemma_line_ends(a: CubePoint, b: CubePoint)
    requires
        a.is_cell(),
        b.is_cell(),
    ensures
        line(a, b).len() == a.dist(b) + 1,
        line(a, b).first() == a,
        line(a, b).last() == b,
{
    let n = a.dist(b);
    lemma_norm_is_max(b.minus(a));
    if n >= 1 {
        assert(lerp(a.q, b.q, n, 0) == n * a.q) by (nonlinear_arith);
        assert(lerp(a.r, b.r, n, 0) == n * a.r) by (nonlinear_arith);
        assert(lerp(a.s, b.s, n, 0) == n * a.s) by (nonlinear_arith);
        lemma_cube_round_of_cell(a, n);
        assert(lerp(a.q, b.q, n, n) == n * b.q) by (nonlinear_arith);
        assert(lerp(a.r, b.r, n, n) == n * b.r) by (nonlinear_arith);
        assert(lerp(a.s, b.s, n, n) == n * b.s) by (nonlinear_arith);
        lemma_cube_round_of_cell(b, n);
    }
}

/// Consecutive cells of a line share an edge.
pub proof fn lemma_line_step(a: CubePoint, b: CubePoint, i: int)
    requires
        a.is_cell(),
        b.is_cell(),
        0 <= i < a.dist(b),
    ensures
        line_cell(a, b, i).adjacent(line_cell(a, b, i + 1)),
{
    let n = a.dist(b);
    lemma_line_cell_shape(a, b, i);
    lemma_line_cell_shape(a, b, i + 1);
    lemma_round_lerp_step(a.r, b.r, n, i);
    lemma_round_lerp_step(a.s, b.s, n, i);
    if abs(b.q - a.q) == n {
        let step = sign(b.q - a.q);
        assert(step * (i + 1) == step * i + step) by (nonlinear_arith);
    } else if abs(b.r - a.r) == n {
        let step = sign(b.r - a.r);
        assert(step * (i + 1) == step * i + step) by (nonlinear_arith);
    } else {
        let step = sign(b.s - a.s);
        assert(step * (i + 1) == step * i + step) by (nonlinear_arith);
    }
}

/// A line is a path on the grid: it has one cell more than the distance
/// between its ends, starts at the first end, stops at the second, and each
/// of its cells shares an edge with the next.
pub proof fn lemma_line_is_path(a: CubePoint, b: CubePoint)
    requires
        a.is_cell(),
        b.is_cell(),
    ensures
        line(a, b).len() == a.dist(b) + 1,
        line(a, b).first() == a,
        line(a, b).last() == b,
        forall|i: int| 0 <= i < a.dist(b) ==> (#[trigger] line(a, b)[i]).adjacent(line(a, b)[i + 1]),
        forall|i: int| 0 <= i <= a.dist(b) ==> (#[trigger] line(a, b)[i]).is_cell(),
{
    lemma_line_ends(a, b);
    assert forall|i: int| 0 <= i < a.dist(b) implies (#[trigger] line(a, b)[i]).adjacent(
        line(a, b)[i + 1],
    ) by {
        lemma_line_step(a, b, i);
    }
    assert forall|i: int| 0 <= i <= a.dist(b) implies (#[trigger] line(a, b)[i]).is_cell() by {
        lemma_line_cell_between(a, b, i);
    }
}

/// The cells of the straight line from `coord_origin` to `coord_end`, both
/// included, in order.
pub fn line_coords(coord_origin: CubeCoords, coord_end: CubeCoords) -> (cells: Vec<CubeCoords>)
    requires
        coord_origin@.is_cell(),
        coord_end@.is_cell(),
    ensures
        cells.deep_view() == line(coord_origin@, coord_end@),
{
    proof {
        lemma_cell_distance_fits(coord_origin, coord_end);
    }
    let steps: u32 = coord_origin.distance(&coord_end);
    let mut cells: Vec<CubeCoords> = Vec::new();
    if steps == 0 {
        cells.push(coord_origin);
        assert(cells.deep_view() =~= line(coord_origin@, coord_end@));
        return cells;
    }
    let n: i64 = steps as i64;
    let mut i: i64 = 0;
    while i <= n
        invariant
            coord_origin@.is_cell(),
            coord_end@.is_cell(),
            n == coord_origin@.dist(coord_end@),
            1 <= n <= u32::MAX,
            0 <= i <= n + 1,
            cells.len() == i,
            forall|j: int| 0 <= j < i ==> (#[trigger] cells[j])@ == line_cell(coord_origin@, coord_end@, j),
        decreases n + 1 - i,
    {
        let rest: i64 = n - i;
        proof {
            lemma_line_cell_between(coord_origin@, coord_end@, i as int);
            lemma_product_bound(coord_origin.q as int, rest as int);
            lemma_product_bound(coord_origin.r as int, rest as int);
            lemma_product_bound(coord_origin.s as int, rest as int);
            lemma_product_bound(coord_end.q as int, i as int);
            lemma_product_bound(coord_end.r as int, i as int);
            lemma_product_bound(coord_end.s as int, i as int);
        }
        let q: i64 = (coord_origin.q as i64) * rest + (coord_end.q as i64) * i;
        let r: i64 = (coord_origin.r as i64) * rest + (coord_end.r as i64) * i;
        let s: i64 = (coord_origin.s as i64) * rest + (coord_end.s as i64) * i;
        let cell = cube_round(q, r, s, n);
        cells.push(cell);
        i = i + 1;
    }
    assert(cells.deep_view() =~= line(coord_origin@, coord_end@));
    cells
}

/// A product of a 32-bit value and a weight is at most that weight times
/// 2^31 in magnitude.
proof fn lemma_product_bound(x: int, w: int)
    requires
        i32::MIN <= x <= i32::MAX,
        0 <= w,
    ensures
        -0x8000_0000 * w <= x * w <= 0x8000_0000 * w,
{
    assert(-0x8000_0000 * w <= x * w <= 0x8000_0000 * w) by (nonlinear_arith)
        requires
            -0x8000_0000 <= x <= 0x8000_0000,
            0 <= w,
    ;
}

/// Every cell of `cells` moved by `delta`.
pub open spec fn shifted(cells: Seq<CubePoint>, delta: CubePoint) -> Seq<CubePoint> {
    cells.map_values(|c: CubePoint| c.plus(delta))
}

/// The numerator that decides the cell at step `i` of a line: that of `r`
/// where the ends are as far apart along `s` as the line is long, else that
/// of `s`.
pub open spec fn deciding_numerator(a: CubePoint, b: CubePoint, i: int) -> int {
    let n = a.dist(b);
    if abs(b.s - a.s) == n {
        lerp(a.r, b.r, n, i)
    } else {
        lerp(a.s, b.s, n, i)
    }
}

/// Whether step `i` of the line from `a` to `b` is rounded by the same rule
/// after both ends are moved by `delta`.
pub open spec fn step_moves_with_ends(a: CubePoint, b: CubePoint, delta: CubePoint, i: int) -> bool {
    round_alike(
        deciding_numerator(a, b, i),
        deciding_numerator(a.plus(delta), b.plus(delta), i),
        a.dist(b),
    )
}

/// Whether every step of the line from `a` to `b` is rounded by the same rule
/// after both ends are moved by `delta`.
pub open spec fn line_moves_with_ends(a: CubePoint, b: CubePoint, delta: CubePoint) -> bool {
    forall|i: int| 0 <= i <= a.dist(b) ==> #[trigger] step_moves_with_ends(a, b, delta, i)
}

/// Moving both ends of a segment by `delta` adds a whole number to each
/// numerator.
proof fn lemma_lerp_shift(x0: int, x1: int, k: int, n: int, i: int)
    ensures
        lerp(x0 + k, x1 + k, n, i) == lerp(x0, x1, n, i) + n * k,
{
    assert((x0 + k) * (n - i) + (x1 + k) * i == x0 * (n - i) + x1 * i + n * k)
        by (nonlinear_arith);
}

/// Moving both ends of a line by `delta` moves its cell at step `i` by
/// `delta` exactly when that step is rounded by the same rule before and
/// after.
pub proof fn lemma_line_cell_translation(a: CubePoint, b: CubePoint, delta: CubePoint, i: int)
    requires
        a.is_cell(),
        b.is_cell(),
        delta.is_cell(),
        a.dist(b) >= 1,
        0 <= i <= a.dist(b),
    ensures
        line_cell(a.plus(delta), b.plus(delta), i) == line_cell(a, b, i).plus(delta)
            <==> step_moves_with_ends(a, b, delta, i),
{
    let n = a.dist(b);
    let a2 = a.plus(delta);
    let b2 = b.plus(delta);
    assert(b2.minus(a2) == b.minus(a));
    lemma_line_cell_shape(a, b, i);
    lemma_line_cell_shape(a2, b2, i);
    lemma_lerp_shift(a.r, b.r, delta.r, n, i);
    lemma_lerp_shift(a.s, b.s, delta.s, n, i);
    lemma_round_div_shift_exact(lerp(a.r, b.r, n, i), n, delta.r);
    lemma_round_div_shift_exact(lerp(a.s, b.s, n, i), n, delta.s);
}

/// Moving both ends of a line by `delta` moves the whole line by `delta`
/// exactly when every step is rounded by the same rule before and after.
pub proof fn lemma_line_translation(a: CubePoint, b: CubePoint, delta: CubePoint)
    requires
        a.is_cell(),
        b.is_cell(),
        delta.is_cell(),
    ensures
        line(a.plus(delta), b.plus(delta)) == shifted(line(a, b), delta) <==> line_moves_with_ends(
            a,
            b,
            delta,
        ),
{
    let n = a.dist(b);
    let a2 = a.plus(delta);
    let b2 = b.plus(delta);
    assert(b2.minus(a2) == b.minus(a));
    if n == 0 {
        assert(line(a2, b2) =~= shifted(line(a, b), delta));
        assert forall|i: int| 0 <= i <= n implies #[trigger] step_moves_with_ends(
            a,
            b,
            delta,
            i,
        ) by {
            lemma_norm_is_max(b.minus(a));
            assert(lerp(a.r, b.r, n, i) == 0) by (nonlinear_arith)
                requires
                    a.r == b.r,
                    n == 0,
                    i == 0,
            ;
            assert(lerp(a2.r, b2.r, n, i) == 0) by (nonlinear_arith)
                requires
                    a2.r == b2.r,
                    n == 0,
                    i == 0,
            ;
        }
    } else if line_moves_with_ends(a, b, delta) {
        assert forall|i: int| 0 <= i <= n implies line(a2, b2)[i] == shifted(line(a, b), delta)[i] by {
            assert(step_moves_with_ends(a, b, delta, i));
            lemma_line_cell_translation(a, b, delta, i);
        }
        assert(line(a2, b2) =~= shifted(line(a, b), delta));
    } else {
        let i = choose|i: int| 0 <= i <= n && !#[trigger] step_moves_with_ends(a, b, delta, i);
        lemma_line_cell_translation(a, b, delta, i);
        assert(line(a2, b2)[i] == line_cell(a2, b2, i));
        assert(shifted(line(a, b), delta)[i] == line_cell(a, b, i).plus(delta));
    }
}

/// A line of odd length moves with its ends, whatever the offset.
pub proof fn lemma_odd_line_moves_with_ends(a: CubePoint, b: CubePoint, delta: CubePoint)
    requires
        a.dist(b) % 2 == 1,
    ensures
        line_moves_with_ends(a, b, delta),
{
    assert forall|i: int| 0 <= i <= a.dist(b) implies #[trigger] step_moves_with_ends(
        a,
        b,
        delta,
        i,
    ) by {
        lemma_odd_never_half_way(deciding_numerator(a, b, i), a.dist(b));
    }
}

} // verus!
