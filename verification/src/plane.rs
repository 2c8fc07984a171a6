//! Positions of cells in the plane, without rounding error.
//!
//! The centre of the cell `(q, r, s)` lies `0.75 * q` widths of a hexagon to
//! the right of the origin and `s + 0.5 * q` heights above it. Measured in
//! quarters of the width and halves of the height, both are integers:
//! `3 * q` and `2 * s + q`. A position is held in those units, as two
//! numerators over one denominator, whatever the size of the hexagons.

use crate::coords::{CubeCoords, CubePoint};
use crate::line::{lerp, line_cell};
use crate::rounding::{
    cube_round, cube_round_point, lemma_cube_round_of_cell, lemma_round_div_nearest,
    lemma_round_div_unique, round_div, scaled_error,
};
use vstd::prelude::*;

verus! {

/// A position in the plane: `x / den` quarters of the width of a hexagon to
/// the right of the origin, and `y / den` halves of its height above it.
#[derive(Clone, Copy, Debug, PartialEq, Eq, Structural)]
pub struct WorldPos {
    pub x: i64,
    pub y: i64,
    pub den: i64,
}

/// How far to the right of the origin the centre of a cell lies, in quarters
/// of the width of a hexagon.
pub open spec fn plane_x(c: CubePoint) -> int {
    3 * c.q
}

/// How far above the origin the centre of a cell lies, in halves of the
/// height of a hexagon.
pub open spec fn plane_y(c: CubePoint) -> int {
    2 * c.s + c.q
}

/// The cell in which the position `(x / den, y / den)` lies: the position
/// has the fractional cube coordinates `q = x / 3`, `s = (y - q) / 2` and
/// `r = -q - s`, which are rounded to the nearest cell.
pub open spec fn cell_at(x: int, y: int, den: int) -> CubePoint {
    cube_round_point(2 * x, -x - 3 * y, 3 * y - x, 6 * den)
}

/// The largest numerator and denominator of a position that
/// `world_pos_to_coordinates` takes.
pub const WORLD_POS_LIMIT: i64 = 0x0800_0000_0000_0000;

/// The position of the centre of a cell.
pub fn world_pos(coords: &CubeCoords) -> (pos: WorldPos)
    ensures
        pos.x == plane_x(coords@),
        pos.y == plane_y(coords@),
        pos.den == 1,
{
    WorldPos { x: 3 * (coords.q as i64), y: 2 * (coords.s as i64) + coords.q as i64, den: 1 }
}

/// The cell in which a position lies.
pub fn world_pos_to_coordinates(pos: &WorldPos) -> (c: CubeCoords)
    requires
        0 < pos.den <= WORLD_POS_LIMIT,
        -WORLD_POS_LIMIT <= pos.x <= WORLD_POS_LIMIT,
        -WORLD_POS_LIMIT <= pos.y <= WORLD_POS_LIMIT,
        cell_at(pos.x as int, pos.y as int, pos.den as int).fits(),
    ensures
        c@ == cell_at(pos.x as int, pos.y as int, pos.den as int),
        c@.is_cell(),
{
    cube_round(2 * pos.x, -pos.x - 3 * pos.y, 3 * pos.y - pos.x, 6 * pos.den)
}

/// The position of the centre of a cell lies in that cell.
pub proof fn lemma_world_pos_round_trip(c: CubePoint)
    requires
        c.is_cell(),
    ensures
        cell_at(plane_x(c), plane_y(c), 1) == c,
{
    lemma_cube_round_of_cell(c, 6);
}

/// A quotient does not change when its numerator and its denominator are
/// multiplied by the same positive number, nor does its rounding; the
/// rounding error grows by that number.
proof fn lemma_round_div_scaled(n: int, d: int, k: int)
    requires
        d > 0,
        k > 0,
    ensures
        round_div(k * n, k * d) == round_div(n, d),
        scaled_error(k * n, k * d, round_div(n, d)) == k * scaled_error(n, d, round_div(n, d)),
{
    let r = round_div(n, d);
    lemma_round_div_nearest(n, d);
    assert((k * d) * r == k * (d * r)) by (nonlinear_arith);
    assert(k * n - k * (d * r) == k * (n - d * r)) by (nonlinear_arith);
    assert(k * d > 0) by (nonlinear_arith)
        requires
            d > 0,
            k > 0,
    ;
    if n >= 0 {
        assert(k * n >= 0) by (nonlinear_arith)
            requires
                n >= 0,
                k > 0,
        ;
        assert(k * (2 * (d * r) - d) <= k * (2 * n) < k * (2 * (d * r) + d)) by (nonlinear_arith)
            requires
                2 * (d * r) - d <= 2 * n < 2 * (d * r) + d,
                k > 0,
        ;
        assert(k * (2 * (d * r) - d) == 2 * (k * (d * r)) - k * d) by (nonlinear_arith);
        assert(k * (2 * (d * r) + d) == 2 * (k * (d * r)) + k * d) by (nonlinear_arith);
        assert(k * (2 * n) == 2 * (k * n)) by (nonlinear_arith);
    } else {
        assert(k * n < 0) by (nonlinear_arith)
            requires
                n < 0,
                k > 0,
        ;
        assert(k * (2 * (d * r) - d) < k * (2 * n) <= k * (2 * (d * r) + d)) by (nonlinear_arith)
            requires
                2 * (d * r) - d < 2 * n <= 2 * (d * r) + d,
                k > 0,
        ;
        assert(k * (2 * (d * r) - d) == 2 * (k * (d * r)) - k * d) by (nonlinear_arith);
        assert(k * (2 * (d * r) + d) == 2 * (k * (d * r)) + k * d) by (nonlinear_arith);
        assert(k * (2 * n) == 2 * (k * n)) by (nonlinear_arith);
    }
    lemma_round_div_unique(k * n, k * d, r);
    if n - d * r >= 0 {
        assert(k * (n - d * r) >= 0) by (nonlinear_arith)
            requires
                n - d * r >= 0,
                k > 0,
        ;
    } else {
        assert(k * (n - d * r) < 0) by (nonlinear_arith)
            requires
                n - d * r < 0,
                k > 0,
        ;
        assert(-(k * (n - d * r)) == k * (-(n - d * r))) by (nonlinear_arith);
    }
}

/// The nearest cell does not change when the numerators and the denominator
/// are multiplied by the same positive number.
proof fn lemma_cube_round_scaled(q: int, r: int, s: int, d: int, k: int)
    requires
        d > 0,
        k > 0,
    ensures
        cube_round_point(k * q, k * r, k * s, k * d) == cube_round_point(q, r, s, d),
{
    lemma_round_div_scaled(q, d, k);
    lemma_round_div_scaled(r, d, k);
    lemma_round_div_scaled(s, d, k);
    let qe = scaled_error(q, d, round_div(q, d));
    let re = scaled_error(r, d, round_div(r, d));
    let se = scaled_error(s, d, round_div(s, d));
    assert((qe >= re) == (k * qe >= k * re)) by (nonlinear_arith)
        requires
            k > 0,
    ;
    assert((qe >= se) == (k * qe >= k * se)) by (nonlinear_arith)
        requires
            k > 0,
    ;
    assert((re >= se) == (k * re >= k * se)) by (nonlinear_arith)
        requires
            k > 0,
    ;
}

/// A line of cells is what its description in the plane says: the centres
/// of its two ends are joined by a segment, the segment is cut into
/// `dist(a, b)` equal parts, and the cell at step `i` is the cell in which
/// the `i`-th point of division lies.
pub proof fn lemma_line_in_the_plane(a: CubePoint, b: CubePoint, i: int)
    requires
        a.is_cell(),
        b.is_cell(),
        a.dist(b) >= 1,
    ensures
        line_cell(a, b, i) == cell_at(
            lerp(plane_x(a), plane_x(b), a.dist(b), i),
            lerp(plane_y(a), plane_y(b), a.dist(b), i),
            a.dist(b),
        ),
{
    let n = a.dist(b);
    let q = lerp(a.q, b.q, n, i);
    let r = lerp(a.r, b.r, n, i);
    let s = lerp(a.s, b.s, n, i);
    let x = lerp(plane_x(a), plane_x(b), n, i);
    let y = lerp(plane_y(a), plane_y(b), n, i);
    assert(x == 3 * q) by (nonlinear_arith)
        requires
            x == (3 * a.q) * (n - i) + (3 * b.q) * i,
            q == a.q * (n - i) + b.q * i,
    ;
    assert(y == 2 * s + q) by (nonlinear_arith)
        requires
            y == (2 * a.s + a.q) * (n - i) + (2 * b.s + b.q) * i,
            q == a.q * (n - i) + b.q * i,
            s == a.s * (n - i) + b.s * i,
    ;
    assert(q + r + s == 0) by (nonlinear_arith)
        requires
            q == a.q * (n - i) + b.q * i,
            r == a.r * (n - i) + b.r * i,
            s == a.s * (n - i) + b.s * i,
            a.q + a.r + a.s == 0,
            b.q + b.r + b.s == 0,
    ;
    lemma_cube_round_scaled(q, r, s, n, 6);
}

} // verus!
