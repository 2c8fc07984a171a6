use store::coords::CubeCoords;
use store::line::line_coords;
use store::plane::{world_pos, world_pos_to_coordinates, WorldPos};

fn cell(q: i32, r: i32) -> CubeCoords {
    CubeCoords { q, r, s: -q - r }
}

#[test]
fn centre_of_a_cell_in_quarter_widths_and_half_heights() {
    assert_eq!(world_pos(&cell(0, 0)), WorldPos { x: 0, y: 0, den: 1 });
    assert_eq!(world_pos(&cell(1, 0)), WorldPos { x: 3, y: -1, den: 1 });
    assert_eq!(world_pos(&cell(0, 1)), WorldPos { x: 0, y: -2, den: 1 });
    assert_eq!(world_pos(&cell(2, -3)), WorldPos { x: 6, y: 4, den: 1 });
    assert_eq!(
        world_pos(&CubeCoords { q: i32::MAX, r: 0, s: -i32::MAX }),
        WorldPos { x: 6442450941, y: -2147483647, den: 1 }
    );
}

#[test]
fn centre_of_a_cell_lies_in_the_cell() {
    for q in -9..=9 {
        for r in -9..=9 {
            let c = cell(q, r);
            assert_eq!(world_pos_to_coordinates(&world_pos(&c)), c);
        }
    }
    let far = CubeCoords { q: i32::MAX, r: i32::MIN + 1, s: 0 };
    assert_eq!(world_pos_to_coordinates(&world_pos(&far)), far);
}

#[test]
fn position_does_not_depend_on_how_the_fraction_is_written() {
    for den in [1i64, 2, 3, 10, 1 << 20] {
        let pos = WorldPos { x: 6 * den, y: 4 * den, den };
        assert_eq!(world_pos_to_coordinates(&pos), cell(2, -3));
        let near = WorldPos { x: 60 * den + 7, y: 40 * den - 3, den: 10 * den };
        assert_eq!(world_pos_to_coordinates(&near), cell(2, -3));
    }
}

#[test]
fn position_inside_a_hexagon_lies_in_its_cell() {
    assert_eq!(world_pos_to_coordinates(&WorldPos { x: 31, y: -17, den: 10 }), cell(1, 0));
    assert_eq!(world_pos_to_coordinates(&WorldPos { x: -45, y: 44, den: 7 }), cell(-2, -2));
    assert_eq!(world_pos_to_coordinates(&WorldPos { x: 1, y: 1, den: 2 }), cell(0, 0));
    assert_eq!(world_pos_to_coordinates(&WorldPos { x: 299, y: 0, den: 100 }), cell(1, -1));
    assert_eq!(world_pos_to_coordinates(&WorldPos { x: 301, y: 0, den: 100 }), cell(1, 0));
}

#[test]
fn position_on_an_edge_or_a_corner_lies_in_one_of_the_cells_that_meet_there() {
    // The midpoint of the edge above the origin, and of the edge below it.
    assert_eq!(world_pos_to_coordinates(&WorldPos { x: 0, y: 1, den: 1 }), cell(0, -1));
    assert_eq!(world_pos_to_coordinates(&WorldPos { x: 0, y: -1, den: 1 }), cell(0, 1));
    // The corners to the right and to the left of the origin.
    assert_eq!(world_pos_to_coordinates(&WorldPos { x: 2, y: 0, den: 1 }), cell(0, 0));
    assert_eq!(world_pos_to_coordinates(&WorldPos { x: -2, y: 0, den: 1 }), cell(0, 0));
}

#[test]
fn line_is_the_segment_in_the_plane_cut_into_equal_parts() {
    for aq in -3..=3 {
        for ar in -3..=3 {
            for bq in -3..=3 {
                for br in -3..=3 {
                    let a = cell(aq, ar);
                    let b = cell(bq, br);
                    let n = a.distance(&b) as i64;
                    if n == 0 {
                        continue;
                    }
                    let from = world_pos(&a);
                    let to = world_pos(&b);
                    let cells = line_coords(a, b);
                    for i in 0..=n {
                        let point = WorldPos {
                            x: from.x * (n - i) + to.x * i,
                            y: from.y * (n - i) + to.y * i,
                            den: n,
                        };
                        assert_eq!(world_pos_to_coordinates(&point), cells[i as usize]);
                    }
                }
            }
        }
    }
}
