//! The nine move labels ("beads") and their fixed bijection with the nine
//! board squares.

use vstd::prelude::*;

use crate::board::cell_index;

verus! {

/// One of nine distinct tags, each bound to exactly one square of the board.
/// A matchbox holds a weight per bead; drawing a bead picks the move onto
/// its square.
#[derive(Clone, Copy, Debug, PartialEq, Eq, Structural)]
pub enum Bead {
    White,
    Lilac,
    Silver,
    Black,
    Gold,
    Green,
    Amber,
    Red,
    Pink,
}

/// The flat index of the square a bead is bound to, in row-major order.
pub open spec fn bead_index_spec(b: Bead) -> int {
    match b {
        Bead::White => 0,
        Bead::Lilac => 1,
        Bead::Silver => 2,
        Bead::Black => 3,
        Bead::Gold => 4,
        Bead::Green => 5,
        Bead::Amber => 6,
        Bead::Red => 7,
        Bead::Pink => 8,
    }
}

/// The bead bound to the square at flat index `k`.
pub open spec fn bead_of_index_spec(k: int) -> Bead {
    if k == 0 {
        Bead::White
    } else if k == 1 {
        Bead::Lilac
    } else if k == 2 {
        Bead::Silver
    } else if k == 3 {
        Bead::Black
    } else if k == 4 {
        Bead::Gold
    } else if k == 5 {
        Bead::Green
    } else if k == 6 {
        Bead::Amber
    } else if k == 7 {
        Bead::Red
    } else {
        Bead::Pink
    }
}

/// The two directions of the label-square binding invert each other: the
/// nine beads and the nine squares stand in bijection.
pub proof fn lemma_bead_position_bijection()
    ensures
        forall|b: Bead| #[trigger] bead_of_index_spec(bead_index_spec(b)) == b,
        forall|k: int| 0 <= k < 9 ==> #[trigger] bead_index_spec(bead_of_index_spec(k)) == k,
{
}

/// The position of a bead's square among the nine weight slots.
pub fn bead_index(b: Bead) -> (r: usize)
    ensures
        r == bead_index_spec(b),
        r < 9,
{
    match b {
        Bead::White => 0,
        Bead::Lilac => 1,
        Bead::Silver => 2,
        Bead::Black => 3,
        Bead::Gold => 4,
        Bead::Green => 5,
        Bead::Amber => 6,
        Bead::Red => 7,
        Bead::Pink => 8,
    }
}

/// The bead at weight slot `k`.
pub fn bead_of_index(k: usize) -> (b: Bead)
    requires
        k < 9,
    ensures
        b == bead_of_index_spec(k as int),
{
    if k == 0 {
        Bead::White
    } else if k == 1 {
        Bead::Lilac
    } else if k == 2 {
        Bead::Silver
    } else if k == 3 {
        Bead::Black
    } else if k == 4 {
        Bead::Gold
    } else if k == 5 {
        Bead::Green
    } else if k == 6 {
        Bead::Amber
    } else if k == 7 {
        Bead::Red
    } else {
        Bead::Pink
    }
}

/// The `(row, col)` coordinate a bead's moves target.
pub fn bead_to_position(bead: Bead) -> (p: (usize, usize))
    ensures
        p.0 < 3,
        p.1 < 3,
        cell_index(p.0 as int, p.1 as int) == bead_index_spec(bead),
{
    match bead {
        Bead::White => (0, 0),
        Bead::Lilac => (0, 1),
        Bead::Silver => (0, 2),
        Bead::Black => (1, 0),
        Bead::Gold => (1, 1),
        Bead::Green => (1, 2),
        Bead::Amber => (2, 0),
        Bead::Red => (2, 1),
        Bead::Pink => (2, 2),
    }
}

/// The bead whose moves target the square at `(i, j)`.
pub fn position_to_bead(i: usize, j: usize) -> (b: Bead)
    requires
        i < 3,
        j < 3,
    ensures
        bead_index_spec(b) == cell_index(i as int, j as int),
{
    let k = 3 * i + j;
    bead_of_index(k)
}

} // verus!
