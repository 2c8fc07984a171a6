//! A ship as a set of cells that turns about a centre.

use crate::coords::{CubeCoords, CubePoint};
use crate::events::PlayerId;
use vstd::prelude::*;

verus! {

/// The kinds of ship.
#[derive(Clone, Copy, Debug, PartialEq, Eq, Structural)]
pub enum ShipType {
    Light,
}

/// The ships that each player has.
pub const SHIPS: [ShipType; 2] = [ShipType::Light, ShipType::Light];

/// A ship: the cells it lies on, the cell it heads for, its kind and its
/// owner.
#[derive(Clone, Debug, PartialEq, Eq)]
pub struct Ship {
    pub hexes: Vec<CubeCoords>,
    pub hex_end: CubeCoords,
    pub ship_type: ShipType,
    pub player_id: PlayerId,
}

/// `c` turned by 60 degrees clockwise about `center`.
pub open spec fn turned_right(c: CubePoint, center: CubePoint) -> CubePoint {
    c.minus(center).rotated_right().plus(center)
}

/// `c` turned by 60 degrees counter-clockwise about `center`.
pub open spec fn turned_left(c: CubePoint, center: CubePoint) -> CubePoint {
    c.minus(center).rotated_left().plus(center)
}

/// Whether `c` can be turned clockwise about `center` without leaving the
/// range of the stored coordinates on the way.
pub open spec fn can_turn_right(c: CubePoint, center: CubePoint) -> bool {
    &&& c.minus(center).fits()
    &&& c.minus(center).rotated_right().fits()
    &&& turned_right(c, center).fits()
}

/// Whether `c` can be turned counter-clockwise about `center` without
/// leaving the range of the stored coordinates on the way.
pub open spec fn can_turn_left(c: CubePoint, center: CubePoint) -> bool {
    &&& c.minus(center).fits()
    &&& c.minus(center).rotated_left().fits()
    &&& turned_left(c, center).fits()
}

impl Ship {
    /// A ship at `coords` that heads for `coords_end`. A light ship lies on
    /// `coords` and on the point one less along `q`.
    pub fn new(ship_type: ShipType, player_id: PlayerId, coords: CubeCoords, coords_end: CubeCoords) -> (ship:
        Ship)
        requires
            coords.q > i32::MIN,
        ensures
            ship.hexes.deep_view() == seq![
                coords@,
                coords@.minus(CubePoint { q: 1, r: 0, s: 0 }),
            ],
            ship.hex_end == coords_end,
            ship.ship_type == ship_type,
            ship.player_id == player_id,
    {
        let mut hexes: Vec<CubeCoords> = Vec::new();
        hexes.push(coords);
        match ship_type {
            ShipType::Light => hexes.push(coords - CubeCoords { q: 1, r: 0, s: 0 }),
        }
        assert(hexes.deep_view() =~= seq![coords@, coords@.minus(CubePoint { q: 1, r: 0, s: 0 })]);
        Ship { hexes, hex_end: coords_end, ship_type, player_id }
    }

    /// Turns every cell of the ship by 60 degrees clockwise about `center`.
    pub fn rotate_right(&mut self, center: &CubeCoords)
        requires
            forall|i: int|
                0 <= i < old(self).hexes.len() ==> can_turn_right(
                    (#[trigger] old(self).hexes[i])@,
                    center@,
                ),
        ensures
            final(self).hexes.deep_view() == old(self).hexes.deep_view().map_values(
                |c: CubePoint| turned_right(c, center@),
            ),
            final(self).hex_end == old(self).hex_end,
            final(self).ship_type == old(self).ship_type,
            final(self).player_id == old(self).player_id,
    {
        let ghost before = self.hexes@;
        let mut i: usize = 0;
        while i < self.hexes.len()
            invariant
                i <= self.hexes.len(),
                self.hexes.len() == before.len(),
                self.hex_end == old(self).hex_end,
                self.ship_type == old(self).ship_type,
                self.player_id == old(self).player_id,
                before == old(self).hexes@,
                forall|j: int| 0 <= j < before.len() ==> can_turn_right((#[trigger] before[j])@, center@),
                forall|j: int| 0 <= j < i ==> (#[trigger] self.hexes[j])@ == turned_right(before[j]@, center@),
                forall|j: int| i <= j < before.len() ==> #[trigger] self.hexes[j] == before[j],
            decreases self.hexes.len() - i,
        {
            assert(can_turn_right(before[i as int]@, center@));
            let mut vec = self.hexes[i] - *center;
            vec.rotate_right();
            self.hexes[i] = vec + *center;
            i += 1;
        }
        assert(self.hexes.deep_view() =~= old(self).hexes.deep_view().map_values(
            |c: CubePoint| turned_right(c, center@),
        ));
    }

    /// Turns every cell of the ship by 60 degrees counter-clockwise about
    /// `center`.
    pub fn rotate_left(&mut self, center: &CubeCoords)
        requires
            forall|i: int|
                0 <= i < old(self).hexes.len() ==> can_turn_left(
                    (#[trigger] old(self).hexes[i])@,
                    center@,
                ),
        ensures
            final(self).hexes.deep_view() == old(self).hexes.deep_view().map_values(
                |c: CubePoint| turned_left(c, center@),
            ),
            final(self).hex_end == old(self).hex_end,
            final(self).ship_type == old(self).ship_type,
            final(self).player_id == old(self).player_id,
    {
        let ghost before = self.hexes@;
        let mut i: usize = 0;
        while i < self.hexes.len()
            invariant
                i <= self.hexes.len(),
                self.hexes.len() == before.len(),
                self.hex_end == old(self).hex_end,
                self.ship_type == old(self).ship_type,
                self.player_id == old(self).player_id,
                before == old(self).hexes@,
                forall|j: int| 0 <= j < before.len() ==> can_turn_left((#[trigger] before[j])@, center@),
                forall|j: int| 0 <= j < i ==> (#[trigger] self.hexes[j])@ == turned_left(before[j]@, center@),
                forall|j: int| i <= j < before.len() ==> #[trigger] self.hexes[j] == before[j],
            decreases self.hexes.len() - i,
        {
            assert(can_turn_left(before[i as int]@, center@));
            let mut vec = self.hexes[i] - *center;
            vec.rotate_left();
            self.hexes[i] = vec + *center;
            i += 1;
        }
        assert(self.hexes.deep_view() =~= old(self).hexes.deep_view().map_values(
            |c: CubePoint| turned_left(c, center@),
        ));
    }
}

/// Six turns in one direction about one centre bring a cell back, a turn
/// keeps the distance from the centre, and a cell turned about a cell is a
/// cell.
pub proof fn lemma_turns(c: CubePoint, center: CubePoint)
    ensures
        turned_right(
            turned_right(
                turned_right(
                    turned_right(turned_right(turned_right(c, center), center), center),
                    center,
                ),
                center,
            ),
            center,
        ) == c,
        turned_left(turned_right(c, center), center) == c,
        turned_right(turned_left(c, center), center) == c,
        center.dist(turned_right(c, center)) == center.dist(c),
        center.dist(turned_left(c, center)) == center.dist(c),
        c.is_cell() && center.is_cell() ==> turned_right(c, center).is_cell() && turned_left(
            c,
            center,
        ).is_cell(),
{
}

} // verus!
