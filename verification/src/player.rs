//! A learner: a side's mark plus one weighted choice store per board state
//! it has visited, created on first visit and kept for the whole run.

use vstd::prelude::*;
use vstd::pervasive::VecAdditionalExecFns;

use crate::bead::{Bead, bead_index_spec};
use crate::board::{BOARD_STATES, Board, Mark, board_index, board_index_spec};
use crate::matchbox::{
    INITIAL_WEIGHT, Matchbox, bump_n, cut_n, punished_weights, rewarded_weights, weights_wf,
};

verus! {

/// The weights a store holds the moment it is created.
pub open spec fn fresh_weights() -> Seq<u32> {
    Seq::new(9, |k: int| INITIAL_WEIGHT)
}

/// A valid store table: one (possibly absent) store per board state, every
/// present store a valid weight table.
pub open spec fn stores_wf(st: Seq<Option<Seq<u32>>>) -> bool {
    &&& st.len() == BOARD_STATES
    &&& forall|i: int| 0 <= i < st.len() ==> (#[trigger] st[i] matches Some(s) ==> weights_wf(s))
}

/// One side of the game: its mark, and the weighted choice store of every
/// board state it has seen so far.
#[derive(Debug)]
pub struct Player {
    symbol: Mark,
    matchboxes: Vec<Option<Matchbox>>,
}

impl Player {
    /// The mark this learner plays.
    pub closed spec fn mark(self) -> Mark {
        self.symbol
    }

    /// The store table, indexed by `board_index_spec`: `None` until the
    /// board state is first visited, then that state's weight table.
    pub closed spec fn stores(self) -> Seq<Option<Seq<u32>>> {
        self.matchboxes@.map_values(
            |om: Option<Matchbox>|
                match om {
                    Some(m) => Some(m@),
                    None => None,
                },
        )
    }

    pub open spec fn wf(self) -> bool {
        stores_wf(self.stores())
    }

    /// A learner that has seen no board state yet.
    pub fn new(symbol: Mark) -> (p: Player)
        ensures
            p.wf(),
            p.mark() == symbol,
            forall|i: int| 0 <= i < BOARD_STATES ==> p.stores()[i] is None,
    {
        let mut matchboxes: Vec<Option<Matchbox>> = Vec::new();
        let mut i: usize = 0;
        while i < BOARD_STATES
            invariant
                i <= BOARD_STATES,
                matchboxes@.len() == i,
                forall|j: int| 0 <= j < i ==> matchboxes@[j] is None,
            decreases BOARD_STATES - i,
        {
            matchboxes.push(None);
            i = i + 1;
        }
        Player { symbol, matchboxes }
    }

    /// The mark this learner plays.
    pub fn symbol(&self) -> (m: Mark)
        ensures
            m == self.mark(),
    {
        self.symbol
    }

    /// Visit a board state: if it has no store yet, create the fresh
    /// uniformly-weighted one. This is the sole creation path for stores.
    pub fn ensure_store(&mut self, board: &Board)
        requires
            old(self).wf(),
        ensures
            final(self).wf(),
            final(self).mark() == old(self).mark(),
            old(self).stores()[board_index_spec(board@)] is Some ==> final(self).stores() == old(
                self,
            ).stores(),
            old(self).stores()[board_index_spec(board@)] is None ==> final(self).stores() == old(
                self,
            ).stores().update(board_index_spec(board@), Some(fresh_weights())),
            final(self).stores()[board_index_spec(board@)] is Some,
    {
        let bi = board_index(board);
        let slot: &Option<Matchbox> = &self.matchboxes[bi];
        if slot.is_none() {
            let fresh = Matchbox::new();
            proof {
                assert(fresh@ =~= fresh_weights());
            }
            self.matchboxes.set(bi, Some(fresh));
            proof {
                assert(self.stores() =~= old(self).stores().update(
                    bi as int,
                    Some(fresh_weights()),
                ));
            }
        }
    }

    /// The weight of `bead` in the store of `board`, or `None` if that
    /// board state has never been visited.
    pub fn weight_of(&self, board: &Board, bead: Bead) -> (w: Option<u32>)
        requires
            self.wf(),
        ensures
            w == match self.stores()[board_index_spec(board@)] {
                Some(s) => Some(s[bead_index_spec(bead)]),
                None => None::<u32>,
            },
    {
        let bi = board_index(board);
        match &self.matchboxes[bi] {
            Some(m) => Some(m.weight(bead)),
            None => None,
        }
    }

    /// A copy of the nine weights in the store of `board`.
    pub fn store_weights(&self, board: &Board) -> (w: Vec<u32>)
        requires
            self.wf(),
            self.stores()[board_index_spec(board@)] is Some,
        ensures
            w@ == self.stores()[board_index_spec(board@)]->0,
    {
        let bi = board_index(board);
        match &self.matchboxes[bi] {
            Some(m) => {
                let mut w: Vec<u32> = Vec::new();
                let mut k: usize = 0;
                while k < 9
                    invariant
                        k <= 9,
                        m@.len() == 9,
                        w@.len() == k,
                        forall|j: int| 0 <= j < k ==> w@[j] == m@[j],
                    decreases 9 - k,
                {
                    w.push(m.weight_at(k));
                    k = k + 1;
                }
                proof {
                    assert(w@ =~= m@);
                }
                w
            },
            None => {
                proof {
                    assert(false);
                }
                Vec::new()
            },
        }
    }

    /// Reward `bead` in the store of `board`, `times` steps.
    pub fn reward_times(&mut self, board: &Board, bead: Bead, times: usize)
        requires
            old(self).wf(),
            old(self).stores()[board_index_spec(board@)] is Some,
        ensures
            final(self).wf(),
            final(self).mark() == old(self).mark(),
            final(self).stores() == old(self).stores().update(
                board_index_spec(board@),
                Some(
                    rewarded_weights(
                        old(self).stores()[board_index_spec(board@)]->0,
                        bead_index_spec(bead),
                        times as int,
                    ),
                ),
            ),
    {
        let bi = board_index(board);
        let ghost orig = self.stores()[bi as int]->0;
        let ghost k = bead_index_spec(bead);
        let mut slot: Option<Matchbox> = None;
        self.matchboxes.set_and_swap(bi, &mut slot);
        let mut m = slot.unwrap();
        proof {
            assert(m@ =~= orig.update(k, bump_n(orig[k], 0)));
        }
        let mut t: usize = 0;
        while t < times
            invariant
                t <= times,
                m@ == orig.update(k, bump_n(orig[k], t as int)),
                weights_wf(orig),
                k == bead_index_spec(bead),
                0 <= k < 9,
            decreases times - t,
        {
            m.add(bead);
            proof {
                assert(m@ =~= orig.update(k, bump_n(orig[k], t as int + 1)));
            }
            t = t + 1;
        }
        self.matchboxes.set(bi, Some(m));
        proof {
            assert(self.stores() =~= old(self).stores().update(
                bi as int,
                Some(rewarded_weights(orig, k, times as int)),
            ));
        }
    }

    /// Punish `bead` in the store of `board`, `times` steps, never below
    /// one unit.
    pub fn punish_times(&mut self, board: &Board, bead: Bead, times: usize)
        requires
            old(self).wf(),
            old(self).stores()[board_index_spec(board@)] is Some,
        ensures
            final(self).wf(),
            final(self).mark() == old(self).mark(),
            final(self).stores() == old(self).stores().update(
                board_index_spec(board@),
                Some(
                    punished_weights(
                        old(self).stores()[board_index_spec(board@)]->0,
                        bead_index_spec(bead),
                        times as int,
                    ),
                ),
            ),
    {
        let bi = board_index(board);
        let ghost orig = self.stores()[bi as int]->0;
        let ghost k = bead_index_spec(bead);
        let mut slot: Option<Matchbox> = None;
        self.matchboxes.set_and_swap(bi, &mut slot);
        let mut m = slot.unwrap();
        proof {
            assert(m@ =~= orig.update(k, cut_n(orig[k], 0)));
        }
        let mut t: usize = 0;
        while t < times
            invariant
                t <= times,
                m@ == orig.update(k, cut_n(orig[k], t as int)),
                weights_wf(orig),
                k == bead_index_spec(bead),
                0 <= k < 9,
            decreases times - t,
        {
            m.remove(bead);
            proof {
                assert(m@ =~= orig.update(k, cut_n(orig[k], t as int + 1)));
            }
            t = t + 1;
        }
        self.matchboxes.set(bi, Some(m));
        proof {
            assert(self.stores() =~= old(self).stores().update(
                bi as int,
                Some(punished_weights(orig, k, times as int)),
            ));
        }
    }
}

} // verus!
