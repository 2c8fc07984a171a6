//! Cube coordinates on an infinite hexagonal grid.
//!
//! [`CubeCoords`] is the machine value with `i32` components. Its view,
//! [`CubePoint`], has unbounded integer components; every contract of the
//! geometry is stated over that view.

use vstd::prelude::*;

verus! {

/// A point of cube space with unbounded integer components.
pub struct CubePoint {
    pub q: int,
    pub r: int,
    pub s: int,
}

/// Absolute value of an integer.
pub open spec fn abs(x: int) -> int {
    if x < 0 {
        -x
    } else {
        x
    }
}

impl CubePoint {
    /// The origin of the grid.
    pub open spec fn origin() -> CubePoint {
        CubePoint { q: 0, r: 0, s: 0 }
    }

    /// A point is a cell of the grid when its components sum to zero.
    pub open spec fn is_cell(self) -> bool {
        self.q + self.r + self.s == 0
    }

    /// Whether every component can be stored in an `i32`.
    pub open spec fn fits(self) -> bool {
        &&& i32::MIN <= self.q <= i32::MAX
        &&& i32::MIN <= self.r <= i32::MAX
        &&& i32::MIN <= self.s <= i32::MAX
    }

    /// Component-wise sum.
    pub open spec fn plus(self, rhs: CubePoint) -> CubePoint {
        CubePoint { q: self.q + rhs.q, r: self.r + rhs.r, s: self.s + rhs.s }
    }

    /// Component-wise difference.
    pub open spec fn minus(self, rhs: CubePoint) -> CubePoint {
        CubePoint { q: self.q - rhs.q, r: self.r - rhs.r, s: self.s - rhs.s }
    }

    /// Rotation by 60 degrees about the origin, clockwise.
    pub open spec fn rotated_right(self) -> CubePoint {
        CubePoint { q: -self.r, r: -self.s, s: -self.q }
    }

    /// Rotation by 60 degrees about the origin, counter-clockwise.
    pub open spec fn rotated_left(self) -> CubePoint {
        CubePoint { q: -self.s, r: -self.q, s: -self.r }
    }

    /// Half the sum of the absolute components: the number of steps from the
    /// origin to a cell.
    pub open spec fn norm(self) -> int {
        (abs(self.q) + abs(self.r) + abs(self.s)) / 2
    }

    /// Number of steps between two cells.
    pub open spec fn dist(self, other: CubePoint) -> int {
        other.minus(self).norm()
    }

    /// Whether two cells share an edge.
    pub open spec fn adjacent(self, other: CubePoint) -> bool {
        self.dist(other) == 1
    }
}

/// A cell address `(q, r, s)` with `i32` components. A cell of the grid
/// satisfies `q + r + s == 0`; the fields are public and the sum is not
/// enforced by the type.
#[derive(Clone, Copy, Debug, Hash, PartialEq, Eq, Structural)]
pub struct CubeCoords {
    pub q: i32,
    pub r: i32,
    pub s: i32,
}

impl View for CubeCoords {
    type V = CubePoint;

    open spec fn view(&self) -> CubePoint {
        CubePoint { q: self.q as int, r: self.r as int, s: self.s as int }
    }
}

impl DeepView for CubeCoords {
    type V = CubePoint;

    open spec fn deep_view(&self) -> CubePoint {
        self@
    }
}

impl CubeCoords {
    /// The origin `(0, 0, 0)`.
    pub fn zero() -> (c: CubeCoords)
        ensures
            c@ == CubePoint::origin(),
    {
        CubeCoords { q: 0, r: 0, s: 0 }
    }

    /// Whether the components sum to zero.
    pub fn is_cell(&self) -> (b: bool)
        ensures
            b == self@.is_cell(),
    {
        self.q as i64 + self.r as i64 + self.s as i64 == 0
    }

    /// Rotates the coordinate by 60 degrees clockwise about the origin.
    pub fn rotate_right(&mut self)
        requires
            old(self)@.rotated_right().fits(),
        ensures
            final(self)@ == old(self)@.rotated_right(),
            final(self)@.is_cell() == old(self)@.is_cell(),
    {
        let q = self.q;
        self.q = -self.r;
        self.r = -self.s;
        self.s = -q;
    }

    /// Rotates the coordinate by 60 degrees counter-clockwise about the origin.
    pub fn rotate_left(&mut self)
        requires
            old(self)@.rotated_left().fits(),
        ensures
            final(self)@ == old(self)@.rotated_left(),
            final(self)@.is_cell() == old(self)@.is_cell(),
    {
        let q = self.q;
        self.q = -self.s;
        self.s = -self.r;
        self.r = -q;
    }

    /// Number of steps between two coordinates.
    pub fn distance(&self, other: &CubeCoords) -> (d: u32)
        requires
            self@.dist(other@) <= u32::MAX,
        ensures
            d == self@.dist(other@),
    {
        let dq: i64 = other.q as i64 - self.q as i64;
        let dr: i64 = other.r as i64 - self.r as i64;
        let ds: i64 = other.s as i64 - self.s as i64;
        let total: i64 = abs_i64(dq) + abs_i64(dr) + abs_i64(ds);
        (total / 2) as u32
    }

    /// Number of steps from the origin.
    pub fn magnitude(&self) -> (d: u32)
        requires
            self@.norm() <= u32::MAX,
        ensures
            d == self@.norm(),
    {
        let origin = CubeCoords::zero();
        origin.distance(self)
    }
}

/// Absolute value of a 64-bit integer other than the least one.
fn abs_i64(x: i64) -> (y: i64)
    requires
        x > i64::MIN,
    ensures
        y == abs(x as int),
{
    if x < 0 {
        -x
    } else {
        x
    }
}

impl Default for CubeCoords {
    fn default() -> (c: CubeCoords)
        ensures
            c@ == CubePoint::origin(),
    {
        CubeCoords { q: 0, r: 0, s: 0 }
    }
}

impl core::ops::Add for CubeCoords {
    type Output = CubeCoords;

    /// Component-wise sum.
    fn add(self, rhs: CubeCoords) -> (sum: CubeCoords)
        ensures
            sum@ == self@.plus(rhs@),
            self@.is_cell() && rhs@.is_cell() ==> sum@.is_cell(),
    {
        CubeCoords { q: self.q + rhs.q, r: self.r + rhs.r, s: self.s + rhs.s }
    }
}

impl vstd::std_specs::ops::AddSpecImpl for CubeCoords {
    open spec fn obeys_add_spec() -> bool {
        true
    }

    open spec fn add_req(self, rhs: CubeCoords) -> bool {
        self@.plus(rhs@).fits()
    }

    open spec fn add_spec(self, rhs: CubeCoords) -> CubeCoords {
        CubeCoords {
            q: (self.q + rhs.q) as i32,
            r: (self.r + rhs.r) as i32,
            s: (self.s + rhs.s) as i32,
        }
    }
}

impl core::ops::Sub for CubeCoords {
    type Output = CubeCoords;

    /// Component-wise difference.
    fn sub(self, rhs: CubeCoords) -> (difference: CubeCoords)
        ensures
            difference@ == self@.minus(rhs@),
            self@.is_cell() && rhs@.is_cell() ==> difference@.is_cell(),
    {
        CubeCoords { q: self.q - rhs.q, r: self.r - rhs.r, s: self.s - rhs.s }
    }
}

impl vstd::std_specs::ops::SubSpecImpl for CubeCoords {
    open spec fn obeys_sub_spec() -> bool {
        true
    }

    open spec fn sub_req(self, rhs: CubeCoords) -> bool {
        self@.minus(rhs@).fits()
    }

    open spec fn sub_spec(self, rhs: CubeCoords) -> CubeCoords {
        CubeCoords {
            q: (self.q - rhs.q) as i32,
            r: (self.r - rhs.r) as i32,
            s: (self.s - rhs.s) as i32,
        }
    }
}

/// Sums, differences and rotations of cells are cells; more exactly, the
/// component sum of the result is the sum, the difference or the negation of
/// the component sums of the inputs.
pub proof fn lemma_cells_closed(a: CubePoint, b: CubePoint)
    ensures
        a.plus(b).q + a.plus(b).r + a.plus(b).s == (a.q + a.r + a.s) + (b.q + b.r + b.s),
        a.minus(b).q + a.minus(b).r + a.minus(b).s == (a.q + a.r + a.s) - (b.q + b.r + b.s),
        a.is_cell() && b.is_cell() ==> a.plus(b).is_cell() && a.minus(b).is_cell(),
        a.is_cell() ==> (a.plus(b).is_cell() <==> b.is_cell()),
        a.is_cell() ==> (a.minus(b).is_cell() <==> b.is_cell()),
        a.rotated_right().is_cell() <==> a.is_cell(),
        a.rotated_left().is_cell() <==> a.is_cell(),
{
}

/// Six rotations by 60 degrees in one direction give the point back, and the
/// two directions undo each other.
pub proof fn lemma_six_rotations(c: CubePoint)
    ensures
        c.rotated_right().rotated_right().rotated_right().rotated_right().rotated_right()
            .rotated_right() == c,
        c.rotated_left().rotated_left().rotated_left().rotated_left().rotated_left().rotated_left()
            == c,
        c.rotated_right().rotated_left() == c,
        c.rotated_left().rotated_right() == c,
{
}

/// A rotation keeps the number of steps from the origin.
pub proof fn lemma_rotation_keeps_norm(c: CubePoint)
    ensures
        c.rotated_right().norm() == c.norm(),
        c.rotated_left().norm() == c.norm(),
{
}

/// For a cell the norm is the largest absolute component.
pub proof fn lemma_norm_is_max(c: CubePoint)
    requires
        c.is_cell(),
    ensures
        c.norm() >= abs(c.q),
        c.norm() >= abs(c.r),
        c.norm() >= abs(c.s),
        c.norm() == abs(c.q) || c.norm() == abs(c.r) || c.norm() == abs(c.s),
{
}

/// The distance between two stored cells fits in a `u32`.
pub proof fn lemma_cell_distance_fits(a: CubeCoords, b: CubeCoords)
    requires
        a@.is_cell(),
        b@.is_cell(),
    ensures
        a@.dist(b@) <= u32::MAX,
        a@.norm() <= i32::MAX + 1,
{
    lemma_norm_is_max(b@.minus(a@));
    lemma_norm_is_max(a@);
}

/// The distance is a metric on cells: symmetric, zero exactly between equal
/// cells, and it obeys the triangle inequality. It does not change when both
/// cells are moved by the same offset.
pub proof fn lemma_distance_metric(a: CubePoint, b: CubePoint, c: CubePoint, delta: CubePoint)
    requires
        a.is_cell(),
        b.is_cell(),
        c.is_cell(),
    ensures
        a.dist(b) == b.dist(a),
        a.dist(b) >= 0,
        a.dist(b) == 0 <==> a == b,
        a.dist(c) <= a.dist(b) + b.dist(c),
        a.plus(delta).dist(b.plus(delta)) == a.dist(b),
        a.dist(b) == b.minus(a).norm(),
{
    lemma_norm_is_max(b.minus(a));
    lemma_norm_is_max(a.minus(b));
    lemma_norm_is_max(c.minus(b));
    lemma_norm_is_max(c.minus(a));
}

} // verus!
