//! The bounded board: the cells within a number of steps of the origin, and
//! the selection status of a cell.

use crate::coords::{lemma_norm_is_max, CubeCoords, CubePoint};
use vstd::prelude::*;

verus! {

/// What a cell of the board shows.
#[derive(Clone, Copy, Debug, PartialEq, Eq, Structural)]
pub enum HexStatus {
    Cold,
    Selected,
    Damage,
}

/// A cell of the board with its status.
#[derive(Clone, Copy, Debug, PartialEq, Eq, Structural)]
pub struct Hex(pub HexStatus);

/// Selects a cold cell and deselects a selected one; a damaged cell stays as
/// it is.
pub fn update_hex_status(hex: &mut Hex)
    ensures
        final(hex).0 == match old(hex).0 {
            HexStatus::Cold => HexStatus::Selected,
            HexStatus::Selected => HexStatus::Cold,
            HexStatus::Damage => HexStatus::Damage,
        },
{
    match hex.0 {
        HexStatus::Cold => hex.0 = HexStatus::Selected,
        HexStatus::Selected => hex.0 = HexStatus::Cold,
        _ => {},
    }
}

/// Whether `c` is a cell at most `radius` steps from the origin.
pub open spec fn on_board(c: CubePoint, radius: int) -> bool {
    c.is_cell() && c.norm() <= radius
}

/// Whether `a` comes before `b` in the order of the board: by `q`, then by
/// `s`.
pub open spec fn comes_before(a: CubePoint, b: CubePoint) -> bool {
    a.q < b.q || (a.q == b.q && a.s < b.s)
}

/// The cells of a board.
#[derive(Clone, Debug, PartialEq, Eq)]
pub struct HexMap {
    pub hexes: Vec<CubeCoords>,
}

impl HexMap {
    /// The board of the given radius: every cell at most `radius` steps from
    /// the origin, once, ordered by `q` and then by `s`. A negative radius
    /// gives an empty board.
    pub fn new_from_axial(radius: i32) -> (board: HexMap)
        ensures
            forall|i: int|
                0 <= i < board.hexes.len() ==> on_board(#[trigger] board.hexes[i]@, radius as int),
            forall|c: CubeCoords|
                on_board(c@, radius as int) ==> #[trigger] board.hexes@.contains(c),
            forall|i: int, j: int|
                0 <= i < j < board.hexes.len() ==> comes_before(
                    #[trigger] board.hexes[i]@,
                    #[trigger] board.hexes[j]@,
                ),
    {
        let mut hexes: Vec<CubeCoords> = Vec::new();
        let limit: i64 = radius as i64;
        let mut q: i64 = -limit;
        while q <= limit
            invariant
                limit == radius,
                -limit <= q,
                q <= limit + 1 || limit < 0,
                forall|i: int| 0 <= i < hexes.len() ==> on_board(#[trigger] hexes[i]@, limit as int),
                forall|i: int| 0 <= i < hexes.len() ==> (#[trigger] hexes[i]).q < q,
                forall|c: CubeCoords|
                    on_board(c@, limit as int) && c.q < q ==> #[trigger] hexes@.contains(c),
                forall|i: int, j: int|
                    0 <= i < j < hexes.len() ==> comes_before(
                        #[trigger] hexes[i]@,
                        #[trigger] hexes[j]@,
                    ),
            decreases limit + 1 - q,
        {
            let mut s: i64 = -limit;
            while s <= limit
                invariant
                    limit == radius,
                    -limit <= q <= limit,
                    -limit <= s <= limit + 1,
                    forall|i: int|
                        0 <= i < hexes.len() ==> on_board(#[trigger] hexes[i]@, limit as int),
                    forall|i: int|
                        0 <= i < hexes.len() ==> (#[trigger] hexes[i]).q < q || (hexes[i].q == q
                            && hexes[i].s < s),
                    forall|c: CubeCoords|
                        on_board(c@, limit as int) && (c.q < q || (c.q == q && c.s < s))
                            ==> #[trigger] hexes@.contains(c),
                    forall|i: int, j: int|
                        0 <= i < j < hexes.len() ==> comes_before(
                            #[trigger] hexes[i]@,
                            #[trigger] hexes[j]@,
                        ),
                decreases limit + 1 - s,
            {
                let r: i64 = -s - q;
                let ghost before = hexes@;
                if !(r > limit || r < -limit) {
                    let hex = CubeCoords { q: q as i32, r: r as i32, s: s as i32 };
                    proof {
                        lemma_norm_is_max(hex@);
                    }
                    hexes.push(hex);
                    assert(hexes@.last() == hex);
                }
                proof {
                    assert forall|c: CubeCoords|
                        on_board(c@, limit as int) && (c.q < q || (c.q == q && c.s < s + 1))
                        implies #[trigger] hexes@.contains(c) by {
                        lemma_norm_is_max(c@);
                        if c.q == q && c.s == s {
                            assert(hexes@.last() == c);
                        } else {
                            assert(before.contains(c));
                            let i = choose|i: int| 0 <= i < before.len() && before[i] == c;
                            assert(hexes@[i] == c);
                        }
                    }
                }
                s += 1;
            }
            proof {
                assert forall|c: CubeCoords| on_board(c@, limit as int) && c.q < q + 1
                    implies #[trigger] hexes@.contains(c) by {
                    lemma_norm_is_max(c@);
                }
            }
            q += 1;
        }
        proof {
            assert forall|c: CubeCoords| on_board(c@, radius as int)
                implies #[trigger] hexes@.contains(c) by {
                lemma_norm_is_max(c@);
            }
        }
        HexMap { hexes }
    }
}

/// Two boards of one radius hold the same cells in the same order: the three
/// properties that `new_from_axial` promises leave no choice.
pub proof fn lemma_board_is_determined(a: Seq<CubeCoords>, b: Seq<CubeCoords>, radius: int)
    requires
        forall|i: int| 0 <= i < a.len() ==> on_board(#[trigger] a[i]@, radius),
        forall|i: int| 0 <= i < b.len() ==> on_board(#[trigger] b[i]@, radius),
        forall|c: CubeCoords| on_board(c@, radius) ==> #[trigger] a.contains(c),
        forall|c: CubeCoords| on_board(c@, radius) ==> #[trigger] b.contains(c),
        forall|i: int, j: int| 0 <= i < j < a.len() ==> comes_before(#[trigger] a[i]@, #[trigger] a[j]@),
        forall|i: int, j: int| 0 <= i < j < b.len() ==> comes_before(#[trigger] b[i]@, #[trigger] b[j]@),
    ensures
        a == b,
{
    assert forall|c: CubeCoords| a.contains(c) <==> b.contains(c) by {
        if a.contains(c) {
            let k = choose|k: int| 0 <= k < a.len() && a[k] == c;
            assert(on_board(a[k]@, radius));
        }
        if b.contains(c) {
            let k = choose|k: int| 0 <= k < b.len() && b[k] == c;
            assert(on_board(b[k]@, radius));
        }
    }
    lemma_ordered_equal(a, b);
}

/// Two strictly ordered sequences that hold the same cells are equal.
proof fn lemma_ordered_equal(a: Seq<CubeCoords>, b: Seq<CubeCoords>)
    requires
        forall|c: CubeCoords| a.contains(c) <==> b.contains(c),
        forall|i: int, j: int| 0 <= i < j < a.len() ==> comes_before(#[trigger] a[i]@, #[trigger] a[j]@),
        forall|i: int, j: int| 0 <= i < j < b.len() ==> comes_before(#[trigger] b[i]@, #[trigger] b[j]@),
    ensures
        a == b,
    decreases a.len(),
{
    if a.len() == 0 {
        if b.len() > 0 {
            assert(b.contains(b[0]));
        }
        assert(a =~= b);
    } else if b.len() == 0 {
        assert(a.contains(a[0]));
    } else {
        let x = a.last();
        let y = b.last();
        assert(a.contains(x));
        assert(b.contains(y));
        let i = choose|i: int| 0 <= i < b.len() && b[i] == x;
        let j = choose|j: int| 0 <= j < a.len() && a[j] == y;
        if i < b.len() - 1 {
            assert(comes_before(b[i]@, b[b.len() - 1]@));
        }
        if j < a.len() - 1 {
            assert(comes_before(a[j]@, a[a.len() - 1]@));
        }
        assert(x == y);
        let a0 = a.drop_last();
        let b0 = b.drop_last();
        assert forall|c: CubeCoords| a0.contains(c) <==> b0.contains(c) by {
            if a0.contains(c) {
                let k = choose|k: int| 0 <= k < a0.len() && a0[k] == c;
                assert(a[k] == c);
                assert(comes_before(a[k]@, a[a.len() - 1]@));
                assert(a.contains(c));
                let m = choose|m: int| 0 <= m < b.len() && b[m] == c;
                assert(m < b.len() - 1);
                assert(b0[m] == c);
            }
            if b0.contains(c) {
                let k = choose|k: int| 0 <= k < b0.len() && b0[k] == c;
                assert(b[k] == c);
                assert(comes_before(b[k]@, b[b.len() - 1]@));
                assert(b.contains(c));
                let m = choose|m: int| 0 <= m < a.len() && a[m] == c;
                assert(m < a.len() - 1);
                assert(a0[m] == c);
            }
        }
        lemma_ordered_equal(a0, b0);
        assert(a =~= a0.push(x));
        assert(b =~= b0.push(y));
    }
}

} // verus!
