use store::coords::CubeCoords;
use store::game_objects::{
    build_coordinate_vector, can_lie_at, get_max_grid_rotation, get_object_all_coords,
    hex_end_rotate,
    object_mouse_rotate, populate_garage, AngularRot, GameObject, GridMaxRotation, ObjectBundle,
    SHIPS,
};

fn cell(q: i32, r: i32) -> CubeCoords {
    CubeCoords { q, r, s: -q - r }
}

#[test]
fn roster_holds_four_objects() {
    assert_eq!(
        SHIPS,
        [GameObject::Cruizer, GameObject::Ship, GameObject::Boat, GameObject::Boat]
    );
}

#[test]
fn lengths_of_the_objects() {
    assert_eq!(GameObject::Boat.length(), 2);
    assert_eq!(GameObject::Ship.length(), 3);
    assert_eq!(GameObject::Cruizer.length(), 4);
}

#[test]
fn max_rotation_is_six_times_the_length_less_one() {
    assert_eq!(get_max_grid_rotation(&GameObject::Boat), 6);
    assert_eq!(get_max_grid_rotation(&GameObject::Ship), 12);
    assert_eq!(get_max_grid_rotation(&GameObject::Cruizer), 18);
    for object in SHIPS {
        assert_eq!(get_max_grid_rotation(&object), 6 * (object.length() as i32 - 1));
    }
}

#[test]
fn ring_vector_of_length_one_is_six_zeros() {
    assert_eq!(build_coordinate_vector(1), vec![0, 0, 0, 0, 0, 0]);
}

#[test]
fn far_end_of_an_object_of_one_cell_is_its_anchor() {
    for rotation in -13..13 {
        assert_eq!(hex_end_rotate(rotation, 1), CubeCoords { q: 0, r: 0, s: 0 });
    }
}

#[test]
fn ring_vector_of_length_two() {
    assert_eq!(build_coordinate_vector(2), vec![0, 1, 1, 0, -1, -1]);
}

#[test]
fn ring_vector_of_length_three() {
    assert_eq!(build_coordinate_vector(3), vec![0, 1, 2, 2, 2, 1, 0, -1, -2, -2, -2, -1]);
}

#[test]
fn ring_vector_of_length_four() {
    assert_eq!(
        build_coordinate_vector(4),
        vec![0, 1, 2, 3, 3, 3, 3, 2, 1, 0, -1, -2, -3, -3, -3, -3, -2, -1]
    );
}

#[test]
fn ring_vector_reaches_both_extremes_and_has_six_turns() {
    for len in 2u32..=9 {
        let d = len as i32 - 1;
        let ring = build_coordinate_vector(len);
        assert_eq!(ring.len(), 6 * (len as usize - 1));
        assert_eq!(ring.iter().max(), Some(&d));
        assert_eq!(ring.iter().min(), Some(&-d));
        assert_eq!(ring.iter().filter(|x| **x == d).count(), len as usize);
        assert_eq!(ring.iter().filter(|x| **x == -d).count(), len as usize);
        for i in 0..ring.len() {
            let next = ring[(i + 1) % ring.len()];
            assert!((next - ring[i]).abs() <= 1);
        }
    }
}

#[test]
fn far_ends_of_a_boat_are_the_six_neighbours() {
    let expected = [
        CubeCoords { q: 0, r: 1, s: -1 },
        CubeCoords { q: 1, r: 0, s: -1 },
        CubeCoords { q: 1, r: -1, s: 0 },
        CubeCoords { q: 0, r: -1, s: 1 },
        CubeCoords { q: -1, r: 0, s: 1 },
        CubeCoords { q: -1, r: 1, s: 0 },
    ];
    for rotation in 0..6 {
        assert_eq!(hex_end_rotate(rotation, 2), expected[rotation as usize]);
    }
}

#[test]
fn far_ends_of_a_ship_are_the_ring_of_radius_two() {
    let expected = [
        CubeCoords { q: 0, r: 2, s: -2 },
        CubeCoords { q: 1, r: 1, s: -2 },
        CubeCoords { q: 2, r: 0, s: -2 },
        CubeCoords { q: 2, r: -1, s: -1 },
        CubeCoords { q: 2, r: -2, s: 0 },
        CubeCoords { q: 1, r: -2, s: 1 },
        CubeCoords { q: 0, r: -2, s: 2 },
        CubeCoords { q: -1, r: -1, s: 2 },
        CubeCoords { q: -2, r: 0, s: 2 },
        CubeCoords { q: -2, r: 1, s: 1 },
        CubeCoords { q: -2, r: 2, s: 0 },
        CubeCoords { q: -1, r: 2, s: -1 },
    ];
    for rotation in 0..12 {
        assert_eq!(hex_end_rotate(rotation, 3), expected[rotation as usize]);
    }
}

#[test]
fn far_ends_of_a_cruizer_are_the_ring_of_radius_three() {
    let expected = [
        CubeCoords { q: 0, r: 3, s: -3 },
        CubeCoords { q: 1, r: 2, s: -3 },
        CubeCoords { q: 2, r: 1, s: -3 },
        CubeCoords { q: 3, r: 0, s: -3 },
        CubeCoords { q: 3, r: -1, s: -2 },
        CubeCoords { q: 3, r: -2, s: -1 },
        CubeCoords { q: 3, r: -3, s: 0 },
        CubeCoords { q: 2, r: -3, s: 1 },
        CubeCoords { q: 1, r: -3, s: 2 },
        CubeCoords { q: 0, r: -3, s: 3 },
        CubeCoords { q: -1, r: -2, s: 3 },
        CubeCoords { q: -2, r: -1, s: 3 },
        CubeCoords { q: -3, r: 0, s: 3 },
        CubeCoords { q: -3, r: 1, s: 2 },
        CubeCoords { q: -3, r: 2, s: 1 },
        CubeCoords { q: -3, r: 3, s: 0 },
        CubeCoords { q: -2, r: 3, s: -1 },
        CubeCoords { q: -1, r: 3, s: -2 },
    ];
    for rotation in 0..18 {
        assert_eq!(hex_end_rotate(rotation, 4), expected[rotation as usize]);
    }
}

#[test]
fn far_end_lies_on_the_ring_for_every_length() {
    for len in 2u32..=8 {
        let rotations = 6 * (len as i32 - 1);
        let mut seen: Vec<CubeCoords> = Vec::new();
        for rotation in 0..rotations {
            let end = hex_end_rotate(rotation, len);
            assert!(end.is_cell());
            assert_eq!(end.magnitude(), len - 1);
            assert!(!seen.contains(&end));
            seen.push(end);
        }
    }
}

#[test]
fn negative_rotation_counts_back_from_the_last() {
    assert_eq!(hex_end_rotate(-1, 2), hex_end_rotate(5, 2));
    assert_eq!(hex_end_rotate(-6, 2), hex_end_rotate(0, 2));
    assert_eq!(hex_end_rotate(-5, 3), hex_end_rotate(7, 3));
    assert_eq!(hex_end_rotate(-17, 4), hex_end_rotate(1, 4));
    assert_eq!(hex_end_rotate(-1, 4), CubeCoords { q: -1, r: 3, s: -2 });
}

#[test]
fn rotation_wraps_around_the_ring() {
    for rotation in -40..40 {
        assert_eq!(hex_end_rotate(rotation, 2), hex_end_rotate(rotation + 6, 2));
        assert_eq!(hex_end_rotate(rotation, 3), hex_end_rotate(rotation + 12, 3));
        assert_eq!(hex_end_rotate(rotation, 4), hex_end_rotate(rotation - 18, 4));
    }
    assert_eq!(hex_end_rotate(i32::MAX, 2), hex_end_rotate(i32::MAX % 6, 2));
    assert_eq!(hex_end_rotate(i32::MIN, 3), hex_end_rotate(4, 3));
}

#[test]
fn footprint_of_a_boat() {
    assert_eq!(
        get_object_all_coords(&GameObject::Boat, 2, &cell(4, -1)),
        vec![
            CubeCoords { q: 4, r: -1, s: -3 },
            CubeCoords { q: 5, r: -2, s: -3 },
        ]
    );
}

#[test]
fn footprint_of_a_ship() {
    assert_eq!(
        get_object_all_coords(&GameObject::Ship, 4, &cell(0, 0)),
        vec![
            CubeCoords { q: 0, r: 0, s: 0 },
            CubeCoords { q: 1, r: -1, s: 0 },
            CubeCoords { q: 2, r: -2, s: 0 },
        ]
    );
    assert_eq!(
        get_object_all_coords(&GameObject::Ship, 1, &cell(0, 0)),
        vec![
            CubeCoords { q: 0, r: 0, s: 0 },
            CubeCoords { q: 0, r: 1, s: -1 },
            CubeCoords { q: 1, r: 1, s: -2 },
        ]
    );
}

#[test]
fn footprint_of_a_cruizer() {
    assert_eq!(
        get_object_all_coords(&GameObject::Cruizer, 7, &cell(5, -3)),
        vec![
            CubeCoords { q: 5, r: -3, s: -2 },
            CubeCoords { q: 6, r: -4, s: -2 },
            CubeCoords { q: 6, r: -5, s: -1 },
            CubeCoords { q: 7, r: -6, s: -1 },
        ]
    );
    assert_eq!(
        get_object_all_coords(&GameObject::Cruizer, -11, &cell(5, -3)),
        vec![
            CubeCoords { q: 5, r: -3, s: -2 },
            CubeCoords { q: 6, r: -4, s: -2 },
            CubeCoords { q: 6, r: -5, s: -1 },
            CubeCoords { q: 7, r: -6, s: -1 },
        ]
    );
}

#[test]
fn footprint_is_a_path_from_the_anchor() {
    let anchors = [cell(0, 0), cell(3, -7), cell(-12, 5), cell(-1, -1), cell(100, -37)];
    for object in SHIPS {
        for rotation in -20..40 {
            for anchor in anchors {
                let cells = get_object_all_coords(&object, rotation, &anchor);
                assert_eq!(cells.len() as u32, object.length());
                assert_eq!(cells[0], anchor);
                assert_eq!(cells[cells.len() - 1], anchor + hex_end_rotate(rotation, object.length()));
                for i in 0..cells.len() {
                    assert!(cells[i].is_cell());
                    if i + 1 < cells.len() {
                        assert_eq!(cells[i].distance(&cells[i + 1]), 1);
                    }
                }
            }
        }
    }
}

#[test]
fn footprint_of_even_length_moves_with_the_anchor() {
    let anchors = [cell(0, 0), cell(3, -7), cell(-12, 5)];
    let deltas = [cell(1, 0), cell(-4, 9), cell(0, -1), cell(-20, -20)];
    for object in [GameObject::Boat, GameObject::Cruizer] {
        for rotation in 0..get_max_grid_rotation(&object) {
            for anchor in anchors {
                let cells = get_object_all_coords(&object, rotation, &anchor);
                for delta in deltas {
                    let moved = get_object_all_coords(&object, rotation, &(anchor + delta));
                    for i in 0..cells.len() {
                        assert_eq!(moved[i], cells[i] + delta);
                    }
                }
            }
        }
    }
}

#[test]
fn footprint_of_a_ship_at_an_even_rotation_moves_with_the_anchor() {
    let anchors = [cell(0, 0), cell(3, -7), cell(-12, 5)];
    let deltas = [cell(1, 0), cell(-4, 9), cell(0, -1), cell(-20, -20)];
    for rotation in [0, 2, 4, 6, 8, 10] {
        for anchor in anchors {
            let cells = get_object_all_coords(&GameObject::Ship, rotation, &anchor);
            for delta in deltas {
                let moved = get_object_all_coords(&GameObject::Ship, rotation, &(anchor + delta));
                for i in 0..cells.len() {
                    assert_eq!(moved[i], cells[i] + delta);
                }
            }
        }
    }
}

#[test]
fn footprint_of_a_ship_at_an_odd_rotation_depends_on_the_side_of_the_origin() {
    assert_eq!(
        get_object_all_coords(&GameObject::Ship, 3, &cell(0, 0)),
        vec![
            CubeCoords { q: 0, r: 0, s: 0 },
            CubeCoords { q: 1, r: 0, s: -1 },
            CubeCoords { q: 2, r: -1, s: -1 },
        ]
    );
    assert_eq!(
        get_object_all_coords(&GameObject::Ship, 3, &cell(0, -1)),
        vec![
            CubeCoords { q: 0, r: -1, s: 1 },
            CubeCoords { q: 1, r: -2, s: 1 },
            CubeCoords { q: 2, r: -2, s: 0 },
        ]
    );
    assert_eq!(
        get_object_all_coords(&GameObject::Ship, 3, &cell(7, -9)),
        vec![
            CubeCoords { q: 7, r: -9, s: 2 },
            CubeCoords { q: 8, r: -10, s: 2 },
            CubeCoords { q: 9, r: -10, s: 1 },
        ]
    );
}

#[test]
fn garage_is_filled_with_the_roster() {
    let garage = populate_garage();
    assert_eq!(garage.0, SHIPS.to_vec());
    let mut garage = garage;
    assert_eq!(garage.0.pop(), Some(GameObject::Boat));
    assert_eq!(garage.0.pop(), Some(GameObject::Boat));
    assert_eq!(garage.0.pop(), Some(GameObject::Ship));
    assert_eq!(garage.0.pop(), Some(GameObject::Cruizer));
    assert_eq!(garage.0.pop(), None);
}

#[test]
fn bundle_knows_the_rotations_of_its_object() {
    let bundle = ObjectBundle::new(&GameObject::Ship, -5);
    assert_eq!(bundle.game_object, GameObject::Ship);
    assert_eq!(bundle.grid_max_rotation, GridMaxRotation(12));
    assert_eq!(bundle.angular_rot, AngularRot(-5));
    assert_eq!(ObjectBundle::new(&GameObject::Boat, 0).grid_max_rotation, GridMaxRotation(6));
    assert_eq!(ObjectBundle::new(&GameObject::Cruizer, 0).grid_max_rotation, GridMaxRotation(18));
}

#[test]
fn mouse_wheel_turns_the_object_and_wraps() {
    let max = GridMaxRotation(6);
    let mut rot = AngularRot(0);
    for expected in [1, 2, 3, 4, 5, 0, 1] {
        object_mouse_rotate(&max, &mut rot, 1);
        assert_eq!(rot, AngularRot(expected));
    }
    let mut rot = AngularRot(0);
    for expected in [-1, -2, -3, -4, -5, 0, -1] {
        object_mouse_rotate(&max, &mut rot, -1);
        assert_eq!(rot, AngularRot(expected));
    }
    let mut rot = AngularRot(17);
    object_mouse_rotate(&GridMaxRotation(18), &mut rot, 1);
    assert_eq!(rot, AngularRot(0));
    let mut rot = AngularRot(i32::MAX);
    object_mouse_rotate(&GridMaxRotation(12), &mut rot, 1);
    assert_eq!(rot, AngularRot(8));
    let mut rot = AngularRot(i32::MIN);
    object_mouse_rotate(&GridMaxRotation(12), &mut rot, -1);
    assert_eq!(rot, AngularRot(-9));
}

#[test]
fn turned_object_has_the_far_end_of_the_unwrapped_rotation() {
    for object in SHIPS {
        let max = GridMaxRotation(get_max_grid_rotation(&object) as u8);
        for start in -20..20 {
            for direction in [-1, 1] {
                let mut rot = AngularRot(start);
                object_mouse_rotate(&max, &mut rot, direction);
                assert_eq!(
                    hex_end_rotate(rot.0, object.length()),
                    hex_end_rotate(start + direction, object.length())
                );
            }
        }
    }
}

#[test]
fn object_lies_only_at_a_cell_whose_far_end_can_be_stored() {
    assert!(can_lie_at(&GameObject::Cruizer, 0, &cell(0, 0)));
    assert!(!can_lie_at(&GameObject::Cruizer, 0, &CubeCoords { q: 0, r: 0, s: 1 }));
    // The far end of a cruizer at rotation 3 is three steps further along q.
    let edge = CubeCoords { q: i32::MAX - 2, r: 0, s: -(i32::MAX - 2) };
    assert!(!can_lie_at(&GameObject::Cruizer, 3, &edge));
    assert!(can_lie_at(&GameObject::Ship, 3, &edge));
    assert!(can_lie_at(&GameObject::Cruizer, 12, &edge));
}
