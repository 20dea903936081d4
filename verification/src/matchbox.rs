//! The per-board-state weighted choice store: one weight per bead, rewarded
//! by increment and punished by decrement with a floor of one.

use vstd::prelude::*;
use vstd::pervasive::VecAdditionalExecFns;

use crate::bead::{Bead, bead_index, bead_index_spec};

verus! {

/// The tunable base of the starting weight.
pub const WEIGHT_BASE: u32 = 4;

/// The weight every bead starts with in a fresh store.
pub const INITIAL_WEIGHT: u32 = 4 * WEIGHT_BASE;

/// A valid weight table: one slot per bead, and every slot keeps at least
/// one unit, so no move is ever permanently excluded.
pub open spec fn weights_wf(s: Seq<u32>) -> bool {
    s.len() == 9 && forall|k: int| 0 <= k < 9 ==> s[k] >= 1
}

/// One reward step: one unit more, held at the machine limit.
pub open spec fn bump(w: u32) -> u32 {
    if w < u32::MAX {
        (w + 1) as u32
    } else {
        w
    }
}

/// One punishment step: one unit less, floored at one.
pub open spec fn cut(w: u32) -> u32 {
    if w > 1 {
        (w - 1) as u32
    } else {
        w
    }
}

/// `n` reward steps at once.
pub open spec fn bump_n(w: u32, n: int) -> u32 {
    if w + n <= u32::MAX {
        (w + n) as u32
    } else {
        u32::MAX
    }
}

/// `n` punishment steps at once, for a weight of at least one.
pub open spec fn cut_n(w: u32, n: int) -> u32 {
    if w < 1 {
        w
    } else if w - n >= 1 {
        (w - n) as u32
    } else {
        1u32
    }
}

/// A weight table after `n` rewards of the bead at slot `k`.
pub open spec fn rewarded_weights(s: Seq<u32>, k: int, n: int) -> Seq<u32> {
    s.update(k, bump_n(s[k], n))
}

/// A weight table after `n` punishments of the bead at slot `k`.
pub open spec fn punished_weights(s: Seq<u32>, k: int, n: int) -> Seq<u32> {
    s.update(k, cut_n(s[k], n))
}

/// Rewarding never lowers a weight, and below the machine limit it adds
/// exactly `n`: favored moves grow without a designed bound.
pub proof fn lemma_reward_strictly_increasing(w: u32, n: int)
    requires
        n >= 0,
    ensures
        bump_n(w, n) >= w,
        w + n <= u32::MAX ==> bump_n(w, n) == w + n,
        w + n <= u32::MAX && n > 0 ==> bump_n(w, n) > w,
{
}

/// Punishment saturates: from any valid weight, any number of punishment
/// steps leaves at least one unit.
pub proof fn lemma_punish_never_below_one(w: u32, n: int)
    requires
        w >= 1,
        n >= 0,
    ensures
        cut_n(w, n) >= 1,
        cut_n(w, n) == if w - n >= 1 { (w - n) as u32 } else { 1u32 },
{
}

/// The weighted choice store of one board state: a weight per bead.
#[derive(Debug)]
pub struct Matchbox {
    beads: Vec<u32>,
}

impl View for Matchbox {
    type V = Seq<u32>;

    closed spec fn view(&self) -> Seq<u32> {
        self.beads@
    }
}

impl Matchbox {
    /// A fresh store: every bead at the initial weight.
    pub fn new() -> (m: Matchbox)
        ensures
            m@.len() == 9,
            forall|k: int| 0 <= k < 9 ==> m@[k] == INITIAL_WEIGHT,
    {
        let mut beads: Vec<u32> = Vec::new();
        let mut k: usize = 0;
        while k < 9
            invariant
                k <= 9,
                beads@.len() == k,
                forall|j: int| 0 <= j < k ==> beads@[j] == INITIAL_WEIGHT,
            decreases 9 - k,
        {
            beads.push(INITIAL_WEIGHT);
            k = k + 1;
        }
        Matchbox { beads }
    }

    /// The current weight of `bead`.
    pub fn weight(&self, bead: Bead) -> (w: u32)
        requires
            self@.len() == 9,
        ensures
            w == self@[bead_index_spec(bead)],
    {
        self.beads[bead_index(bead)]
    }

    /// The current weight of the bead at slot `k`.
    pub fn weight_at(&self, k: usize) -> (w: u32)
        requires
            self@.len() == 9,
            k < 9,
        ensures
            w == self@[k as int],
    {
        self.beads[k]
    }

    /// Reward `bead`: one unit more, held at the machine limit.
    pub fn add(&mut self, bead: Bead)
        requires
            old(self)@.len() == 9,
        ensures
            final(self)@ == old(self)@.update(bead_index_spec(bead), bump(
                old(self)@[bead_index_spec(bead)],
            )),
    {
        let k = bead_index(bead);
        let w = self.beads[k];
        if w < u32::MAX {
            self.beads.set(k, w + 1);
        } else {
            proof {
                assert(self.beads@ =~= self.beads@.update(k as int, w));
            }
        }
    }

    /// Punish `bead`: one unit less, but always keep at least one unit so
    /// the move stays selectable.
    pub fn remove(&mut self, bead: Bead)
        requires
            old(self)@.len() == 9,
        ensures
            final(self)@ == old(self)@.update(bead_index_spec(bead), cut(
                old(self)@[bead_index_spec(bead)],
            )),
    {
        let k = bead_index(bead);
        let w = self.beads[k];
        if w > 1 {
            self.beads.set(k, w - 1);
        } else {
            proof {
                assert(self.beads@ =~= self.beads@.update(k as int, w));
            }
        }
    }
}

} // verus!
