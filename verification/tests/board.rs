use store::board::{update_hex_status, Hex, HexMap, HexStatus};
use store::coords::CubeCoords;

#[test]
fn status_toggles_between_cold_and_selected() {
    let mut hex = Hex(HexStatus::Cold);
    update_hex_status(&mut hex);
    assert_eq!(hex, Hex(HexStatus::Selected));
    update_hex_status(&mut hex);
    assert_eq!(hex, Hex(HexStatus::Cold));
}

#[test]
fn damaged_cell_keeps_its_status() {
    let mut hex = Hex(HexStatus::Damage);
    update_hex_status(&mut hex);
    assert_eq!(hex, Hex(HexStatus::Damage));
}

#[test]
fn board_of_radius_zero_is_the_origin() {
    assert_eq!(HexMap::new_from_axial(0).hexes, vec![CubeCoords { q: 0, r: 0, s: 0 }]);
}

#[test]
fn board_of_negative_radius_is_empty() {
    assert_eq!(HexMap::new_from_axial(-1).hexes, vec![]);
    assert_eq!(HexMap::new_from_axial(-7).hexes, vec![]);
    assert_eq!(HexMap::new_from_axial(i32::MIN).hexes, vec![]);
}

#[test]
fn board_of_radius_one_in_order() {
    assert_eq!(
        HexMap::new_from_axial(1).hexes,
        vec![
            CubeCoords { q: -1, r: 1, s: 0 },
            CubeCoords { q: -1, r: 0, s: 1 },
            CubeCoords { q: 0, r: 1, s: -1 },
            CubeCoords { q: 0, r: 0, s: 0 },
            CubeCoords { q: 0, r: -1, s: 1 },
            CubeCoords { q: 1, r: 0, s: -1 },
            CubeCoords { q: 1, r: -1, s: 0 },
        ]
    );
}

#[test]
fn board_holds_every_cell_within_the_radius_once() {
    for radius in 0..=8i32 {
        let board = HexMap::new_from_axial(radius);
        let n = radius as usize;
        assert_eq!(board.hexes.len(), 3 * n * (n + 1) + 1);
        for (i, hex) in board.hexes.iter().enumerate() {
            assert!(hex.is_cell());
            assert!(hex.magnitude() <= radius as u32);
            if i > 0 {
                let before = board.hexes[i - 1];
                assert!(before.q < hex.q || (before.q == hex.q && before.s < hex.s));
            }
        }
        for q in -radius - 1..=radius + 1 {
            for r in -radius - 1..=radius + 1 {
                let c = CubeCoords { q, r, s: -q - r };
                assert_eq!(board.hexes.contains(&c), c.magnitude() <= radius as u32);
            }
        }
    }
}

#[test]
fn board_of_the_game_has_217_cells() {
    assert_eq!(HexMap::new_from_axial(8).hexes.len(), 217);
}
