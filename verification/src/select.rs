//! Move selection: turning a store's weights into one chosen bead, either
//! by maximum weight or by weight-proportional random sampling.

use vstd::prelude::*;

use crate::bead::{Bead, bead_index_spec, bead_of_index, bead_to_position, lemma_bead_position_bijection};
use crate::board::{Board, Cell, board_full, board_index_spec, cell_index};
use crate::player::Player;

verus! {

/// The policy that turns a store's weights into a single chosen bead.
#[derive(Clone, Copy, Debug, PartialEq, Eq, Structural)]
pub enum PlayMode {
    Best,
    Random,
}

/// What slot `k` contributes to the eligible total: its weight if its
/// square is empty, nothing otherwise.
pub open spec fn elig_weight(s: Seq<Cell>, w: Seq<u32>, k: int) -> int {
    if s[k] == Cell::Empty {
        w[k] as int
    } else {
        0
    }
}

/// The summed weight of the eligible beads at slots `k` and beyond.
pub open spec fn total_from(s: Seq<Cell>, w: Seq<u32>, k: int) -> int
    decreases 9 - k,
{
    if k < 0 || k >= 9 {
        0
    } else {
        elig_weight(s, w, k) + total_from(s, w, k + 1)
    }
}

/// The summed weight of all eligible beads.
pub open spec fn total_weight(s: Seq<Cell>, w: Seq<u32>) -> int {
    total_from(s, w, 0)
}

/// The slot the weight-proportional walk lands on for draw `r`, starting
/// at slot `k`: the first eligible slot whose weight exceeds what is left
/// of `r` once the eligible weights before it are spent.
pub open spec fn pick_from(s: Seq<Cell>, w: Seq<u32>, r: int, k: int) -> int
    decreases 9 - k,
{
    if k < 0 || k >= 9 {
        9
    } else if s[k] == Cell::Empty && r < w[k] {
        k
    } else {
        pick_from(s, w, r - elig_weight(s, w, k), k + 1)
    }
}

/// The slot the weight-proportional walk lands on for draw `r`.
pub open spec fn weighted_pick(s: Seq<Cell>, w: Seq<u32>, r: int) -> int {
    pick_from(s, w, r, 0)
}

/// Slot `k` is an eligible slot of maximum weight, and the first such slot
/// in enumeration order.
pub open spec fn is_best_pick(s: Seq<Cell>, w: Seq<u32>, k: int) -> bool {
    &&& 0 <= k < 9
    &&& s[k] == Cell::Empty
    &&& forall|j: int| 0 <= j < 9 && s[j] == Cell::Empty ==> w[j] <= w[k]
    &&& forall|j: int| 0 <= j < k && s[j] == Cell::Empty ==> w[j] < w[k]
}

/// The eligible total is never negative and never above nine full slots.
proof fn lemma_total_from_bounds(s: Seq<Cell>, w: Seq<u32>, k: int)
    requires
        w.len() == 9,
    ensures
        0 <= total_from(s, w, k),
        0 <= k <= 9 ==> total_from(s, w, k) <= (9 - k) * 0xffff_ffff,
    decreases 9 - k,
{
    if k < 0 || k >= 9 {
    } else {
        lemma_total_from_bounds(s, w, k + 1);
    }
}

/// An eligible slot's weight is contained in every total that covers it.
proof fn lemma_total_from_at_least(s: Seq<Cell>, w: Seq<u32>, j: int, k: int)
    requires
        w.len() == 9,
        0 <= j <= k < 9,
        s[k] == Cell::Empty,
    ensures
        total_from(s, w, j) >= w[k],
    decreases k - j,
{
    lemma_total_from_bounds(s, w, j + 1);
    if j < k {
        lemma_total_from_at_least(s, w, j + 1, k);
        lemma_total_from_bounds(s, w, j + 1);
    }
}

/// Relies on rand::random_range: a uniform draw from `0..n`, which by its
/// documentation panics only on an empty range and returns a value of the
/// range it is given.
#[verifier::external_body]
fn random_below(n: u64) -> (r: u64)
    requires
        n > 0,
    ensures
        r < n,
{
    rand::random_range(0..n)
}

/// The summed weight of the beads whose squares are still empty.
fn total_eligible(board: &Board, w: &Vec<u32>) -> (t: u64)
    requires
        board@.len() == 9,
        w@.len() == 9,
    ensures
        t == total_weight(board@, w@),
{
    proof {
        lemma_total_from_bounds(board@, w@, 0);
    }
    let mut t: u64 = 0;
    let mut k: usize = 0;
    while k < 9
        invariant
            k <= 9,
            board@.len() == 9,
            w@.len() == 9,
            t + total_from(board@, w@, k as int) == total_weight(board@, w@),
            t + total_from(board@, w@, k as int) <= 9 * 0xffff_ffff,
        decreases 9 - k,
    {
        proof {
            lemma_total_from_bounds(board@, w@, k as int + 1);
        }
        if matches!(board.cells[k], Cell::Empty) {
            t = t + (w[k] as u64);
        }
        k = k + 1;
    }
    t
}

/// The first eligible slot of maximum weight.
fn pick_best(board: &Board, w: &Vec<u32>) -> (k: usize)
    requires
        board@.len() == 9,
        w@.len() == 9,
        !board_full(board@),
    ensures
        is_best_pick(board@, w@, k as int),
{
    let mut best: usize = 9;
    let mut j: usize = 0;
    while j < 9
        invariant
            j <= 9,
            best <= 9,
            board@.len() == 9,
            w@.len() == 9,
            best == 9 ==> forall|i: int| 0 <= i < j ==> board@[i] != Cell::Empty,
            best < 9 ==> (best as int) < j && board@[best as int] == Cell::Empty,
            best < 9 ==> forall|i: int|
                0 <= i < j && board@[i] == Cell::Empty ==> w@[i] <= w@[best as int],
            best < 9 ==> forall|i: int|
                0 <= i < best && board@[i] == Cell::Empty ==> w@[i] < w@[best as int],
        decreases 9 - j,
    {
        if matches!(board.cells[j], Cell::Empty) {
            if best == 9 || w[j] > w[best] {
                best = j;
            }
        }
        j = j + 1;
    }
    best
}

/// The eligible slot the weight-proportional walk lands on for draw `r`.
fn pick_weighted(board: &Board, w: &Vec<u32>, r: u64) -> (k: usize)
    requires
        board@.len() == 9,
        w@.len() == 9,
        r < total_weight(board@, w@),
    ensures
        k < 9,
        k as int == weighted_pick(board@, w@, r as int),
        board@[k as int] == Cell::Empty,
{
    let mut rr: u64 = r;
    let mut k: usize = 0;
    loop
        invariant
            k < 9,
            board@.len() == 9,
            w@.len() == 9,
            rr <= r,
            rr < total_from(board@, w@, k as int),
            weighted_pick(board@, w@, r as int) == pick_from(board@, w@, rr as int, k as int),
        decreases 9 - k,
    {
        let empty_here = matches!(board.cells[k], Cell::Empty);
        if empty_here && rr < w[k] as u64 {
            return k;
        }
        if empty_here {
            rr = rr - (w[k] as u64);
        }
        proof {
            if k + 1 == 9 {
                assert(total_from(board@, w@, k as int + 1) == 0);
                assert(false);
            }
        }
        k = k + 1;
    }
}

/// Pick the engine's move for `board`: visit the board's store (creating it
/// on a first visit), then choose among the beads whose squares are still
/// empty — the first one of maximum weight in Best mode, a
/// weight-proportional random one in Random mode. Weights are never changed.
pub fn get_ai_play(board: &Board, player: &mut Player, mode: PlayMode) -> (choice: (
    Bead,
    (usize, usize),
))
    requires
        old(player).wf(),
        board@.len() == 9,
        !board_full(board@),
    ensures
        final(player).wf(),
        final(player).mark() == old(player).mark(),
        old(player).stores()[board_index_spec(board@)] is Some ==> final(player).stores() == old(
            player,
        ).stores(),
        old(player).stores()[board_index_spec(board@)] is None ==> final(player).stores() == old(
            player,
        ).stores().update(board_index_spec(board@), Some(crate::player::fresh_weights())),
        final(player).stores()[board_index_spec(board@)] is Some,
        choice.1.0 < 3,
        choice.1.1 < 3,
        cell_index(choice.1.0 as int, choice.1.1 as int) == bead_index_spec(choice.0),
        board@[bead_index_spec(choice.0)] == Cell::Empty,
        mode == PlayMode::Best ==> is_best_pick(
            board@,
            final(player).stores()[board_index_spec(board@)]->0,
            bead_index_spec(choice.0),
        ),
        mode == PlayMode::Random ==> exists|d: int|
            0 <= d < total_weight(board@, final(player).stores()[board_index_spec(board@)]->0)
                && bead_index_spec(choice.0) == weighted_pick(
                board@,
                final(player).stores()[board_index_spec(board@)]->0,
                d,
            ),
{
    player.ensure_store(board);
    let w = player.store_weights(board);
    proof {
        lemma_bead_position_bijection();
    }
    match mode {
        PlayMode::Best => {
            let k = pick_best(board, &w);
            let bead = bead_of_index(k);
            let position = bead_to_position(bead);
            (bead, position)
        },
        PlayMode::Random => {
            let total = total_eligible(board, &w);
            proof {
                let i = choose|i: int| 0 <= i < 9 && board@[i] == Cell::Empty;
                lemma_total_from_at_least(board@, w@, 0, i);
            }
            let r = random_below(total);
            let k = pick_weighted(board, &w, r);
            let bead = bead_of_index(k);
            let position = bead_to_position(bead);
            (bead, position)
        },
    }
}

} // verus!
