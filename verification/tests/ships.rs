use store::coords::CubeCoords;
use store::ships::{Ship, ShipType, SHIPS};

fn at(q: i32, r: i32) -> CubeCoords {
    CubeCoords { q, r, s: -q - r }
}

#[test]
fn each_player_has_two_light_ships() {
    assert_eq!(SHIPS, [ShipType::Light, ShipType::Light]);
}

#[test]
fn light_ship_lies_on_its_cell_and_the_point_one_less_along_q() {
    let ship = Ship::new(ShipType::Light, 7, at(2, 3), at(4, 4));
    assert_eq!(ship.hexes, vec![at(2, 3), CubeCoords { q: 1, r: 3, s: -5 }]);
    assert_eq!(ship.hex_end, at(4, 4));
    assert_eq!(ship.ship_type, ShipType::Light);
    assert_eq!(ship.player_id, 7);
}

#[test]
fn ship_turns_right_about_a_centre() {
    let mut ship = Ship {
        hexes: vec![at(2, 3), at(3, 3), at(1, 1)],
        hex_end: at(9, 9),
        ship_type: ShipType::Light,
        player_id: 1,
    };
    ship.rotate_right(&at(1, 1));
    // (1, 2, -3) about the centre turns to (-2, 3, -1); (2, 2, -4) to (-2, 4, -2).
    assert_eq!(ship.hexes, vec![at(-1, 4), at(-1, 5), at(1, 1)]);
    assert_eq!(ship.hex_end, at(9, 9));
    assert_eq!(ship.player_id, 1);
}

#[test]
fn ship_turns_left_about_a_centre() {
    let mut ship = Ship {
        hexes: vec![at(2, 3), at(3, 3), at(1, 1)],
        hex_end: at(9, 9),
        ship_type: ShipType::Light,
        player_id: 1,
    };
    ship.rotate_left(&at(1, 1));
    // (1, 2, -3) about the centre turns to (3, -1, -2); (2, 2, -4) to (4, -2, -2).
    assert_eq!(ship.hexes, vec![at(4, 0), at(5, -1), at(1, 1)]);
}

#[test]
fn ship_turned_six_times_is_back() {
    let start = Ship::new(ShipType::Light, 3, at(-4, 9), at(0, 0));
    let mut right = start.clone();
    let mut left = start.clone();
    let center = at(2, -5);
    for turn in 1..=6 {
        right.rotate_right(&center);
        left.rotate_left(&center);
        for i in 0..2 {
            assert_eq!(
                (right.hexes[i] - center).magnitude(),
                (start.hexes[i] - center).magnitude()
            );
        }
        if turn < 6 {
            assert_ne!(right, start);
            assert_ne!(left, start);
        }
    }
    assert_eq!(right, start);
    assert_eq!(left, start);
}

#[test]
fn a_turn_left_undoes_a_turn_right() {
    let start = Ship::new(ShipType::Light, 3, at(5, 5), at(0, 0));
    let mut ship = start.clone();
    ship.rotate_right(&at(-1, 0));
    ship.rotate_left(&at(-1, 0));
    assert_eq!(ship, start);
}
