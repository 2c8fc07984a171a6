//! Which object lies on which cell of the board.
//!
//! The index is kept in a hash map of the `bevy` engine, keyed by the three
//! components of a cell. What that map does is not proved here: it is stated
//! by the contracts of `entities_new`, `entities_insert` and `entities_get`,
//! over the name `hex_map_entries` for what the map holds. Everything else
//! in this file is proved from those three contracts.

use crate::coords::{CubeCoords, CubePoint};
use crate::events::GameEvent;
use crate::game_objects::{
    can_lie_at, footprint, get_object_all_coords, has_footprint, lemma_footprint_is_path,
    GameObject,
};
use vstd::prelude::*;

verus! {

/// The cells on which placed objects lie, each with the identifier of the
/// object on it.
#[verifier::external_body]
pub struct HexMapEntities {
    cells: bevy::utils::HashMap<(i32, i32, i32), u64>,
}

/// What the map holds: for each key the value stored under it.
pub uninterp spec fn hex_map_entries(map: HexMapEntities) -> Map<(i32, i32, i32), u64>;

/// `bevy::utils::HashMap::default`, which is `hashbrown::HashMap::default`:
/// a new map that holds nothing.
#[verifier::external_body]
fn entities_new() -> (index: HexMapEntities)
    ensures
        hex_map_entries(index) == (Map::<(i32, i32, i32), u64>::empty()),
{
    HexMapEntities { cells: bevy::utils::HashMap::default() }
}

/// `hashbrown::HashMap::insert` on the map: afterwards the key holds the
/// value and every other key holds what it held; the result is the value
/// that the key held before, if it held one.
#[verifier::external_body]
fn entities_insert(map: &mut HexMapEntities, key: (i32, i32, i32), entity: u64) -> (previous:
    Option<u64>)
    ensures
        hex_map_entries(*final(map)) == hex_map_entries(*old(map)).insert(key, entity),
        previous == if hex_map_entries(*old(map)).contains_key(key) {
            Some(hex_map_entries(*old(map))[key])
        } else {
            None::<u64>
        },
{
    map.cells.insert(key, entity)
}

/// `hashbrown::HashMap::get` on the map: the value that the key holds, if it
/// holds one.
#[verifier::external_body]
fn entities_get(map: &HexMapEntities, key: (i32, i32, i32)) -> (found: Option<u64>)
    ensures
        found == if hex_map_entries(*map).contains_key(key) {
            Some(hex_map_entries(*map)[key])
        } else {
            None::<u64>
        },
{
    map.cells.get(&key).copied()
}

/// The key under which a cell is stored.
pub open spec fn key_of(cell: CubePoint) -> (i32, i32, i32) {
    (cell.q as i32, cell.r as i32, cell.s as i32)
}

/// How many of the cells were taken when their turn came: taken in `taken`,
/// or named earlier in `cells`.
pub open spec fn overlaps(taken: Map<CubePoint, u64>, cells: Seq<CubePoint>) -> nat
    decreases cells.len(),
{
    if cells.len() == 0 {
        0
    } else {
        let before = overlaps(taken, cells.drop_last());
        if taken.contains_key(cells.last()) || cells.drop_last().contains(cells.last()) {
            before + 1
        } else {
            before
        }
    }
}

/// The index after an object is placed on the cells: each of the cells holds
/// the object, every other cell holds what it held.
pub open spec fn with_object(taken: Map<CubePoint, u64>, cells: Seq<CubePoint>, entity: u64) -> Map<
    CubePoint,
    u64,
> {
    Map::new(
        |c: CubePoint| taken.contains_key(c) || cells.contains(c),
        |c: CubePoint|
            if cells.contains(c) {
                entity
            } else {
                taken[c]
            },
    )
}

impl View for HexMapEntities {
    type V = Map<CubePoint, u64>;

    /// The index as a map from cells to object identifiers.
    open spec fn view(&self) -> Map<CubePoint, u64> {
        Map::new(
            |c: CubePoint| c.fits() && hex_map_entries(*self).contains_key(key_of(c)),
            |c: CubePoint| hex_map_entries(*self)[key_of(c)],
        )
    }
}

impl HexMapEntities {
    /// An index with no cell taken.
    pub fn new() -> (index: HexMapEntities)
        ensures
            index@ == (Map::<CubePoint, u64>::empty()),
    {
        let index = entities_new();
        assert(index@ =~= Map::<CubePoint, u64>::empty());
        index
    }

    /// The object on the cell, if there is one.
    pub fn get(&self, coord: &CubeCoords) -> (found: Option<u64>)
        ensures
            found == if self@.contains_key(coord@) {
                Some(self@[coord@])
            } else {
                None::<u64>
            },
    {
        entities_get(self, (coord.q, coord.r, coord.s))
    }

    /// Puts the object on the cell, and returns the object that lay there.
    pub fn insert(&mut self, coord: CubeCoords, entity: u64) -> (previous: Option<u64>)
        ensures
            final(self)@ == old(self)@.insert(coord@, entity),
            previous == if old(self)@.contains_key(coord@) {
                Some(old(self)@[coord@])
            } else {
                None::<u64>
            },
    {
        let previous = entities_insert(self, (coord.q, coord.r, coord.s), entity);
        proof {
            assert forall|c: CubePoint| c.fits() && key_of(c) == key_of(coord@) implies c
                == coord@ by {}
            assert(self@ =~= old(self)@.insert(coord@, entity));
        }
        previous
    }

    /// Whether any of the cells is taken.
    pub fn collides(&self, coords: &Vec<CubeCoords>) -> (collision: bool)
        ensures
            collision == exists|i: int| 0 <= i < coords.len() && self@.contains_key(coords[i]@),
    {
        let mut i: usize = 0;
        while i < coords.len()
            invariant
                i <= coords.len(),
                forall|j: int| 0 <= j < i ==> !self@.contains_key(coords[j]@),
            decreases coords.len() - i,
        {
            if self.get(&coords[i]).is_some() {
                return true;
            }
            i += 1;
        }
        false
    }

    /// Puts the object on each of the cells, and returns how many of them
    /// were taken already.
    pub fn place(&mut self, coords: &Vec<CubeCoords>, entity: u64) -> (taken: usize)
        ensures
            final(self)@ == with_object(old(self)@, coords.deep_view(), entity),
            taken == overlaps(old(self)@, coords.deep_view()),
    {
        let ghost cells = coords.deep_view();
        let mut taken: usize = 0;
        let mut i: usize = 0;
        while i < coords.len()
            invariant
                cells == coords.deep_view(),
                i <= coords.len(),
                taken <= i,
                self@ == with_object(old(self)@, cells.take(i as int), entity),
                taken == overlaps(old(self)@, cells.take(i as int)),
            decreases coords.len() - i,
        {
            let ghost done = cells.take(i as int);
            let ghost next = cells.take(i + 1);
            proof {
                assert(cells[i as int] == coords[i as int]@);
                assert(next.drop_last() =~= done);
                assert(next.last() == cells[i as int]);
            }
            let result = self.insert(coords[i], entity);
            if result.is_some() {
                taken += 1;
            }
            proof {
                assert forall|c: CubePoint| next.contains(c) <==> done.contains(c) || c
                    == cells[i as int] by {
                    if done.contains(c) {
                        let j = choose|j: int| 0 <= j < done.len() && done[j] == c;
                        assert(next[j] == c);
                    }
                    if c == cells[i as int] {
                        assert(next[i as int] == c);
                    }
                    if next.contains(c) {
                        let j = choose|j: int| 0 <= j < next.len() && next[j] == c;
                        if j < i {
                            assert(done[j] == c);
                        }
                    }
                }
                assert(self@ =~= with_object(old(self)@, next, entity));
            }
            i += 1;
        }
        assert(cells.take(coords.len() as int) =~= cells);
        taken
    }
}

impl Default for HexMapEntities {
    fn default() -> (index: HexMapEntities)
        ensures
            index@ == (Map::<CubePoint, u64>::empty()),
    {
        HexMapEntities::new()
    }
}

/// Whether the object, anchored at `ms_coord` with the given rotation, would
/// lie on a cell that is taken.
pub fn object_mouse_hover(
    hex_objects: &HexMapEntities,
    object: &GameObject,
    angular_rot: i32,
    ms_coord: &CubeCoords,
) -> (collision: bool)
    requires
        has_footprint(object.spec_length(), angular_rot as int, ms_coord@),
    ensures
        collision == exists|i: int|
            0 <= i < object.spec_length() && hex_objects@.contains_key(
                #[trigger] footprint(object.spec_length(), angular_rot as int, ms_coord@)[i],
            ),
{
    let coords = get_object_all_coords(object, angular_rot, ms_coord);
    proof {
        lemma_footprint_is_path(object.spec_length(), angular_rot as int, ms_coord@);
        assert forall|i: int| 0 <= i < coords.len() implies coords[i]@ == footprint(
            object.spec_length(),
            angular_rot as int,
            ms_coord@,
        )[i] by {
            assert(coords.deep_view()[i] == coords[i]@);
        }
    }
    hex_objects.collides(&coords)
}

/// Records a placed object in the index: puts `entity` on every cell that
/// the object occupies, and returns how many of those cells were taken.
pub fn object_mouse_place_consume(
    hex_objects: &mut HexMapEntities,
    ship_type: &GameObject,
    at: &CubeCoords,
    rotation: i32,
    entity: u64,
) -> (taken: usize)
    requires
        has_footprint(ship_type.spec_length(), rotation as int, at@),
    ensures
        final(hex_objects)@ == with_object(
            old(hex_objects)@,
            footprint(ship_type.spec_length(), rotation as int, at@),
            entity,
        ),
        taken == overlaps(
            old(hex_objects)@,
            footprint(ship_type.spec_length(), rotation as int, at@),
        ),
{
    let all_coordinates = get_object_all_coords(ship_type, rotation, at);
    hex_objects.place(&all_coordinates, entity)
}

/// The index that a history leads to. Each `ShipPlaced` event that has a
/// footprint puts an object on the cells of that footprint, in the order of
/// the history; the object is named by the position of its event in the
/// history.
pub open spec fn occupancy_of(history: Seq<GameEvent>) -> Map<CubePoint, u64>
    decreases history.len(),
{
    if history.len() == 0 {
        Map::empty()
    } else {
        let before = occupancy_of(history.drop_last());
        match history.last() {
            GameEvent::ShipPlaced { player_id, ship_type, at, rotation } => {
                if has_footprint(ship_type.spec_length(), rotation as int, at@) {
                    with_object(
                        before,
                        footprint(ship_type.spec_length(), rotation as int, at@),
                        (history.len() - 1) as u64,
                    )
                } else {
                    before
                }
            },
            _ => before,
        }
    }
}

/// Builds the index anew from a history. Two histories that are equal give
/// equal indexes.
pub fn occupancy_from_history(history: &Vec<GameEvent>) -> (index: HexMapEntities)
    ensures
        index@ == occupancy_of(history@),
{
    let mut index = HexMapEntities::new();
    let mut i: usize = 0;
    assert(history@.take(0) =~= Seq::<GameEvent>::empty());
    while i < history.len()
        invariant
            i <= history.len(),
            index@ == occupancy_of(history@.take(i as int)),
        decreases history.len() - i,
    {
        proof {
            let next = history@.take(i + 1);
            assert(next.drop_last() =~= history@.take(i as int));
            assert(next.last() == history[i as int]);
        }
        match &history[i] {
            GameEvent::ShipPlaced { player_id: _, ship_type, at, rotation } => {
                if can_lie_at(ship_type, *rotation, at) {
                    object_mouse_place_consume(&mut index, ship_type, at, *rotation, i as u64);
                }
            },
            _ => {},
        }
        i += 1;
    }
    assert(history@.take(history.len() as int) =~= history@);
    index
}

} // verus!
