//! Placeable objects and the cells they occupy.
//!
//! An object of length `len` lies on a straight line of `len` cells that
//! starts at its anchor. Its far end is `len - 1` steps from the anchor; the
//! rotation, a number from `0` to `6 * (len - 1) - 1`, selects which cell of
//! the ring of that radius the far end is.

use crate::coords::{abs, CubeCoords, CubePoint};
use crate::line::{
    lemma_line_is_path, lemma_line_translation, lemma_odd_line_moves_with_ends, lerp, line,
    line_coords, line_moves_with_ends, shifted, step_moves_with_ends,
};
use crate::rounding::is_half_way;
use vstd::arithmetic::div_mod::{
    lemma_fundamental_div_mod, lemma_fundamental_div_mod_converse, lemma_mod_bound,
};
use vstd::prelude::*;

verus! {

/// The kinds of object that a player places on the board.
#[derive(Clone, Copy, Debug, PartialEq, Eq, Structural)]
pub enum GameObject {
    Boat,
    Ship,
    Cruizer,
}

/// Number of objects that each player places before a game begins.
pub const ROSTER_SIZE: usize = 4;

/// The objects that each player places before a game begins.
pub const SHIPS: [GameObject; ROSTER_SIZE] = [
    GameObject::Cruizer,
    GameObject::Ship,
    GameObject::Boat,
    GameObject::Boat,
];

impl GameObject {
    /// Number of cells that the object occupies.
    pub open spec fn spec_length(self) -> int {
        match self {
            GameObject::Boat => 2,
            GameObject::Ship => 3,
            GameObject::Cruizer => 4,
        }
    }

    /// Number of cells that the object occupies.
    pub fn length(&self) -> (len: u32)
        ensures
            len == self.spec_length(),
    {
        match self {
            GameObject::Boat => 2,
            GameObject::Ship => 3,
            GameObject::Cruizer => 4,
        }
    }
}

/// Number of rotations of an object of length `len`: the number of cells on
/// the ring of radius `len - 1`, which is `6 * (len - 1)`. An object of one
/// cell has six rotations, all on its anchor.
pub open spec fn max_rotation(len: int) -> int {
    if len == 1 {
        6
    } else {
        6 * (len - 1)
    }
}

/// The number of distinct rotations of an object.
pub fn get_max_grid_rotation(game_object: &GameObject) -> (rotations: i32)
    ensures
        rotations == max_rotation(game_object.spec_length()),
{
    match game_object {
        GameObject::Boat => 6 * 1,
        GameObject::Ship => 6 * 2,
        GameObject::Cruizer => 6 * 3,
    }
}

/// The offset along one axis of the cell at position `i` of the ring of
/// radius `d`, counted from the cell where that offset is zero and rising.
///
/// Around the ring the offset climbs from `0` to `d`, stays at `d` for `d + 1`
/// cells, falls to `-d`, stays there for `d + 1` cells and climbs back to `0`.
/// On the ring of radius `0`, which is one cell, it is `0`.
pub open spec fn ring_value(d: int, i: int) -> int {
    if d == 0 {
        0
    } else if i <= 2 * d {
        if i < d {
            i
        } else {
            d
        }
    } else if i <= 5 * d {
        if 3 * d - i > -d {
            3 * d - i
        } else {
            -d
        }
    } else {
        i - 6 * d
    }
}

/// The offsets along one axis of the cells of the ring of radius `len - 1`,
/// in order: one for each of the `max_rotation(len)` rotations.
pub open spec fn ring_vector(len: int) -> Seq<int> {
    Seq::new(max_rotation(len) as nat, |i: int| ring_value(len - 1, i))
}

/// The offsets along one axis of the cells of the ring on which the far end
/// of an object of length `object_len` lies, one for each rotation.
pub fn build_coordinate_vector(object_len: u32) -> (coord_pos: Vec<i32>)
    requires
        object_len >= 1,
        max_rotation(object_len as int) <= u32::MAX,
    ensures
        coord_pos@.map_values(|x: i32| x as int) == ring_vector(object_len as int),
        coord_pos.len() == max_rotation(object_len as int),
        forall|i: int|
            0 <= i < coord_pos.len() ==> #[trigger] coord_pos[i] == ring_value(object_len - 1, i),
{
    let displacement: i32 = (object_len - 1) as i32;
    let vector_len: usize = rotations(object_len) as usize;
    let mut first_counter: i32 = 0;
    let mut direction: i32 = 1;
    let mut coord_pos: Vec<i32> = Vec::with_capacity(vector_len);
    let ghost d = displacement as int;
    while coord_pos.len() < vector_len
        invariant
            d == displacement,
            d == object_len - 1,
            0 <= d <= 715827882,
            vector_len == max_rotation(object_len as int),
            coord_pos.len() <= vector_len,
            direction == 1 || direction == -1,
            -d < first_counter < d || (d == 0 && first_counter == (direction - 1) / 2),
            ({
                let len = coord_pos.len() as int;
                ||| direction == 1 && first_counter == len && len < d
                ||| direction == -1 && first_counter == 3 * d - len && 2 * d < len < 4 * d
                ||| direction == 1 && first_counter == len - 6 * d && 5 * d < len
                ||| d == 0
            }),
            forall|j: int| 0 <= j < coord_pos.len() ==> #[trigger] coord_pos[j] == ring_value(d, j),
        decreases vector_len - coord_pos.len(),
    {
        if abs_i32(first_counter) < displacement {
            coord_pos.push(first_counter);
            first_counter += direction;
        }
        if abs_i32(first_counter) >= displacement {
            let ghost start = coord_pos.len() as int;
            let mut k: u32 = 0;
            while k < object_len
                invariant
                    d == displacement,
                    d == object_len - 1,
                    0 <= d <= 715827882,
                    k <= object_len,
                    direction == 1 || direction == -1,
                    coord_pos.len() == start + k,
                    d > 0 && direction == 1 ==> start == d,
                    d > 0 && direction == -1 ==> start == 4 * d,
                    forall|j: int|
                        0 <= j < coord_pos.len() ==> #[trigger] coord_pos[j] == ring_value(d, j),
                decreases object_len - k,
            {
                coord_pos.push(displacement * direction);
                k += 1;
            }
            direction *= -1;
            first_counter += direction;
        }
    }
    assert(coord_pos@.map_values(|x: i32| x as int) =~= ring_vector(object_len as int));
    coord_pos
}

/// The number of rotations of an object of the given length.
fn rotations(object_len: u32) -> (count: u32)
    requires
        object_len >= 1,
        max_rotation(object_len as int) <= u32::MAX,
    ensures
        count == max_rotation(object_len as int),
        count > 0,
{
    if object_len == 1 {
        6
    } else {
        6 * (object_len - 1)
    }
}

/// Absolute value of a 32-bit integer other than the least one.
fn abs_i32(x: i32) -> (y: i32)
    requires
        x > i32::MIN,
    ensures
        y == abs(x as int),
{
    if x < 0 {
        -x
    } else {
        x
    }
}

/// The position on the ring that a rotation selects: the rotation reduced
/// to the range from `0` to `max_rotation(len) - 1`.
pub open spec fn ring_index(rotation: int, len: int) -> int
    recommends
        len >= 1,
{
    rotation % max_rotation(len)
}

/// The offset from the anchor of an object to its far end.
///
/// Its `q` is read from the ring vector at the position that the rotation
/// selects, its `r` a third of the ring further on, and `s` makes it a cell.
pub open spec fn far_endpoint(rotation: int, len: int) -> CubePoint
    recommends
        len >= 1,
{
    let i = ring_index(rotation, len);
    let q = ring_value(len - 1, i);
    let r = ring_value(len - 1, (i + 2 * (len - 1)) % max_rotation(len));
    CubePoint { q, r, s: -q - r }
}

/// The rotation reduced to a position on the ring.
fn ring_index_exec(rotation: i32, object_len: u32) -> (i: u32)
    requires
        object_len >= 1,
        max_rotation(object_len as int) <= u32::MAX,
    ensures
        i == ring_index(rotation as int, object_len as int),
        i < max_rotation(object_len as int),
{
    let modulus: u32 = rotations(object_len);
    if rotation >= 0 {
        (rotation as u32) % modulus
    } else {
        let below: u32 = ((-(rotation as i64)) as u32) % modulus;
        proof {
            lemma_negated_remainder(rotation as int, modulus as int);
        }
        if below == 0 {
            0
        } else {
            modulus - below
        }
    }
}

/// The remainder of a negative number, from that of its negation.
proof fn lemma_negated_remainder(x: int, m: int)
    requires
        m > 0,
    ensures
        x % m == if (-x) % m == 0 {
            0
        } else {
            m - (-x) % m
        },
{
    let k = (-x) / m;
    let b = (-x) % m;
    lemma_fundamental_div_mod(-x, m);
    lemma_mod_bound(-x, m);
    if b == 0 {
        assert(x == (-k) * m + 0) by (nonlinear_arith)
            requires
                -x == m * k,
        ;
        lemma_fundamental_div_mod_converse(x, m, -k, 0);
    } else {
        assert(x == (-k - 1) * m + (m - b)) by (nonlinear_arith)
            requires
                -x == m * k + b,
        ;
        lemma_fundamental_div_mod_converse(x, m, -k - 1, m - b);
    }
}

/// The far end of an object is a cell of the ring whose radius is the
/// object's length less one.
pub proof fn lemma_far_endpoint_on_ring(rotation: int, len: int)
    requires
        len >= 1,
    ensures
        far_endpoint(rotation, len).is_cell(),
        far_endpoint(rotation, len).norm() == len - 1,
        0 <= ring_index(rotation, len) < max_rotation(len),
{
    let d = len - 1;
    let m = max_rotation(len);
    let i = ring_index(rotation, len);
    lemma_mod_bound(rotation, m);
    if i + 2 * d < m {
        lemma_fundamental_div_mod_converse(i + 2 * d, m, 0, i + 2 * d);
    } else {
        lemma_fundamental_div_mod_converse(i + 2 * d, m, 1, i + 2 * d - m);
    }
}

/// The offset from the anchor of an object of length `object_len` to its far
/// end, at the given rotation. Rotations that differ by a multiple of the
/// number of rotations give the same offset.
pub fn hex_end_rotate(rotation: i32, object_len: u32) -> (end: CubeCoords)
    requires
        object_len >= 1,
        max_rotation(object_len as int) <= u32::MAX,
    ensures
        end@ == far_endpoint(rotation as int, object_len as int),
{
    let max_valid_rotations: u32 = rotations(object_len);
    let u_rotation: u32 = ring_index_exec(rotation, object_len);
    let coord_vector = build_coordinate_vector(object_len);
    proof {
        lemma_far_endpoint_on_ring(rotation as int, object_len as int);
        lemma_mod_bound(u_rotation + 2 * (object_len - 1), max_valid_rotations as int);
    }
    let q: i32 = coord_vector[u_rotation as usize];
    let third: u64 = (u_rotation as u64 + 2 * (object_len as u64 - 1)) % (max_valid_rotations as u64);
    let r: i32 = coord_vector[third as usize];
    let s: i32 = -r - q;
    CubeCoords { q, r, s }
}

/// The cells that an object of length `len` occupies, from its anchor to its
/// far end: the straight line between the two.
pub open spec fn footprint(len: int, rotation: int, anchor: CubePoint) -> Seq<CubePoint>
    recommends
        len >= 1,
{
    line(anchor, anchor.plus(far_endpoint(rotation, len)))
}

/// Whether an object anchored at `anchor` has a footprint that can be
/// stored: whether the anchor is a cell and the far end has components
/// of 32 bits.
pub open spec fn has_footprint(len: int, rotation: int, anchor: CubePoint) -> bool {
    anchor.is_cell() && anchor.plus(far_endpoint(rotation, len)).fits()
}

/// Whether the object can be anchored at `at` with the given rotation.
pub fn can_lie_at(game_object: &GameObject, rotation: i32, at: &CubeCoords) -> (yes: bool)
    ensures
        yes == has_footprint(game_object.spec_length(), rotation as int, at@),
{
    if !at.is_cell() {
        return false;
    }
    let end = hex_end_rotate(rotation, game_object.length());
    let q: i64 = at.q as i64 + end.q as i64;
    let r: i64 = at.r as i64 + end.r as i64;
    let s: i64 = at.s as i64 + end.s as i64;
    let least: i64 = i32::MIN as i64;
    let most: i64 = i32::MAX as i64;
    least <= q && q <= most && least <= r && r <= most && least <= s && s <= most
}

/// The cells that an object occupies when it is anchored at `at` with the
/// given rotation, from the anchor to the far end.
pub fn get_object_all_coords(game_object: &GameObject, rotation: i32, at: &CubeCoords) -> (cells:
    Vec<CubeCoords>)
    requires
        has_footprint(game_object.spec_length(), rotation as int, at@),
    ensures
        cells.deep_view() == footprint(game_object.spec_length(), rotation as int, at@),
{
    proof {
        lemma_far_endpoint_on_ring(rotation as int, game_object.spec_length());
    }
    match game_object {
        GameObject::Boat => {
            let end_cube = hex_end_rotate(rotation, 2);
            line_coords(*at, end_cube + *at)
        },
        GameObject::Ship => {
            let end_cube = hex_end_rotate(rotation, 3);
            line_coords(*at, end_cube + *at)
        },
        GameObject::Cruizer => {
            let end_cube = hex_end_rotate(rotation, 4);
            line_coords(*at, end_cube + *at)
        },
    }
}

/// A footprint has as many cells as the object is long, starts at the anchor,
/// ends at the far end, consists of cells of the grid, and each of its cells
/// shares an edge with the next.
pub proof fn lemma_footprint_is_path(len: int, rotation: int, anchor: CubePoint)
    requires
        len >= 1,
        anchor.is_cell(),
    ensures
        footprint(len, rotation, anchor).len() == len,
        footprint(len, rotation, anchor).first() == anchor,
        footprint(len, rotation, anchor).last() == anchor.plus(far_endpoint(rotation, len)),
        forall|i: int|
            0 <= i < len - 1 ==> (#[trigger] footprint(len, rotation, anchor)[i]).adjacent(
                footprint(len, rotation, anchor)[i + 1],
            ),
        forall|i: int| 0 <= i < len ==> (#[trigger] footprint(len, rotation, anchor)[i]).is_cell(),
{
    let end = anchor.plus(far_endpoint(rotation, len));
    lemma_far_endpoint_on_ring(rotation, len);
    assert(end.minus(anchor) == far_endpoint(rotation, len));
    lemma_line_is_path(anchor, end);
}

/// Whether an object's footprint moves with its anchor: whether every cell
/// of it is rounded by the same rule at `anchor` and at `anchor + delta`.
pub open spec fn footprint_moves_with_anchor(
    len: int,
    rotation: int,
    anchor: CubePoint,
    delta: CubePoint,
) -> bool {
    line_moves_with_ends(anchor, anchor.plus(far_endpoint(rotation, len)), delta)
}

/// Moving the anchor by `delta` moves every cell of the footprint by `delta`,
/// exactly when the footprint moves with its anchor. It always does where
/// the object's length is even. Where the length is odd, a cell of the
/// footprint may lie half-way between two cells of the grid, and falls to
/// one side or the other by the sign of its coordinate.
pub proof fn lemma_footprint_translation(
    len: int,
    rotation: int,
    anchor: CubePoint,
    delta: CubePoint,
)
    requires
        len >= 1,
        anchor.is_cell(),
        delta.is_cell(),
    ensures
        footprint(len, rotation, anchor.plus(delta)) == shifted(
            footprint(len, rotation, anchor),
            delta,
        ) <==> footprint_moves_with_anchor(len, rotation, anchor, delta),
        len % 2 == 0 ==> footprint_moves_with_anchor(len, rotation, anchor, delta),
{
    let far = far_endpoint(rotation, len);
    let end = anchor.plus(far);
    lemma_far_endpoint_on_ring(rotation, len);
    assert(end.minus(anchor) == far);
    assert(anchor.plus(delta).plus(far) == end.plus(delta));
    lemma_line_translation(anchor, end, delta);
    if len % 2 == 0 {
        lemma_odd_line_moves_with_ends(anchor, end, delta);
    }
}

/// Whether the cell in the middle of a footprint of three cells lies on a
/// cell of the grid, which it does at every other rotation.
pub open spec fn ship_lies_on_cells(rotation: int) -> bool {
    ring_index(rotation, 3) % 2 == 0
}

/// The footprint of a boat or a cruizer moves with its anchor, whatever the
/// rotation; that of a ship does at every other rotation, from rotation 0.
pub proof fn lemma_object_footprint_moves(
    game_object: GameObject,
    rotation: int,
    anchor: CubePoint,
    delta: CubePoint,
)
    requires
        anchor.is_cell(),
        delta.is_cell(),
        game_object != GameObject::Ship || ship_lies_on_cells(rotation),
    ensures
        footprint(game_object.spec_length(), rotation, anchor.plus(delta)) == shifted(
            footprint(game_object.spec_length(), rotation, anchor),
            delta,
        ),
{
    let len = game_object.spec_length();
    lemma_footprint_translation(len, rotation, anchor, delta);
    if game_object == GameObject::Ship {
        let far = far_endpoint(rotation, 3);
        let end = anchor.plus(far);
        lemma_far_endpoint_on_ring(rotation, 3);
        assert(end.minus(anchor) == far);
        let i = ring_index(rotation, 3);
        if i + 4 < 12 {
            lemma_fundamental_div_mod_converse(i + 4, 12, 0, i + 4);
        } else {
            lemma_fundamental_div_mod_converse(i + 4, 12, 1, i - 8);
        }
        assert(far.q % 2 == 0 && far.r % 2 == 0 && far.s % 2 == 0);
        assert forall|i: int| 0 <= i <= anchor.dist(end) implies #[trigger] step_moves_with_ends(
            anchor,
            end,
            delta,
            i,
        ) by {
            lemma_even_is_not_half_way(anchor.r, far.r, i);
            lemma_even_is_not_half_way(anchor.s, far.s, i);
        }
    }
}

/// A point that divides in two a segment between integers an even number
/// apart is an integer.
proof fn lemma_even_is_not_half_way(x: int, step: int, i: int)
    requires
        step % 2 == 0,
    ensures
        !is_half_way(lerp(x, x + step, 2, i), 2),
{
    assert(lerp(x, x + step, 2, i) == 2 * x + step * i) by (nonlinear_arith);
    let half = step / 2;
    assert(step * i == 2 * (half * i)) by (nonlinear_arith)
        requires
            step == 2 * half,
    ;
}

/// The objects that a player has yet to place.
#[derive(Clone, Debug, PartialEq, Eq)]
pub struct Garage(pub Vec<GameObject>);

/// A full garage: the roster, in order. Objects leave it from the end.
pub fn populate_garage() -> (garage: Garage)
    ensures
        garage.0@ == SHIPS@,
{
    let mut garage: Vec<GameObject> = Vec::new();
    let mut i: usize = 0;
    while i < ROSTER_SIZE
        invariant
            i <= ROSTER_SIZE,
            garage@ == SHIPS@.take(i as int),
        decreases ROSTER_SIZE - i,
    {
        garage.push(SHIPS[i]);
        assert(garage@ =~= SHIPS@.take(i + 1));
        i += 1;
    }
    assert(SHIPS@.take(ROSTER_SIZE as int) =~= SHIPS@);
    Garage(garage)
}

/// The number of rotations of an object.
#[derive(Clone, Copy, Debug, PartialEq, Eq, Structural)]
pub struct GridMaxRotation(pub u8);

/// The rotation of an object, in steps around its ring.
#[derive(Clone, Copy, Debug, PartialEq, Eq, Structural)]
pub struct AngularRot(pub i32);

/// An object with its rotation and the number of rotations it has.
#[derive(Clone, Copy, Debug, PartialEq, Eq, Structural)]
pub struct ObjectBundle {
    pub game_object: GameObject,
    pub grid_max_rotation: GridMaxRotation,
    pub angular_rot: AngularRot,
}

impl ObjectBundle {
    /// The object at the given rotation.
    pub fn new(game_object: &GameObject, angular_rot: i32) -> (bundle: ObjectBundle)
        ensures
            bundle.game_object == *game_object,
            bundle.grid_max_rotation.0 == max_rotation(game_object.spec_length()),
            bundle.angular_rot.0 == angular_rot,
    {
        let grid_max_rotation: u8 = match game_object {
            GameObject::Boat => 6 * 1,
            GameObject::Ship => 6 * 2,
            GameObject::Cruizer => 6 * 3,
        };
        ObjectBundle {
            game_object: *game_object,
            grid_max_rotation: GridMaxRotation(grid_max_rotation),
            angular_rot: AngularRot(angular_rot),
        }
    }
}

/// The remainder of `x` by `m` with the sign of `x`.
pub open spec fn signed_remainder(x: int, m: int) -> int
    recommends
        m > 0,
{
    if x >= 0 {
        x % m
    } else {
        -((-x) % m)
    }
}

/// Turns the object by `direction` steps: the new rotation is the remainder,
/// with the sign of the sum, of the old rotation plus `direction` by the
/// number of rotations.
pub fn object_mouse_rotate(grid_max_rot: &GridMaxRotation, angular_rot: &mut AngularRot, direction: i32)
    requires
        grid_max_rot.0 > 0,
    ensures
        final(angular_rot).0 == signed_remainder(
            old(angular_rot).0 + direction,
            grid_max_rot.0 as int,
        ),
{
    let modulus: u64 = grid_max_rot.0 as u64;
    let sum: i64 = angular_rot.0 as i64 + direction as i64;
    if sum >= 0 {
        angular_rot.0 = ((sum as u64) % modulus) as i32;
    } else {
        angular_rot.0 = -((((-sum) as u64) % modulus) as i32);
    }
}

/// The remainder with the sign of the rotation selects the same far end as
/// the rotation itself.
pub proof fn lemma_signed_remainder_keeps_far_end(rotation: int, len: int)
    requires
        len >= 1,
    ensures
        far_endpoint(signed_remainder(rotation, max_rotation(len)), len) == far_endpoint(
            rotation,
            len,
        ),
{
    let m = max_rotation(len);
    lemma_mod_bound(rotation, m);
    if rotation >= 0 {
        lemma_fundamental_div_mod_converse(rotation % m, m, 0, rotation % m);
    } else {
        let b = (-rotation) % m;
        lemma_mod_bound(-rotation, m);
        lemma_negated_remainder(rotation, m);
        lemma_negated_remainder(-b, m);
        lemma_fundamental_div_mod_converse(b, m, 0, b);
    }
}

} // verus!
