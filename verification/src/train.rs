//! The trainer: repeated self-play games between two learners, with one
//! reward/punishment pass over each side's trace when a game ends. The
//! contracts carry a ghost record of every game — its moves, its terminal
//! board, its outcome — so a run's final weights are pinned to the games
//! actually played.

use vstd::prelude::*;

use crate::bead::{Bead, bead_index_spec};
use crate::board::{
    Board, Cell, Mark, board_full, board_index_spec, empties, empty_board, has_won,
    is_board_complete, lemma_board_index_spec_bounds, lemma_empties_update, lemma_marks_empty,
    lemma_marks_update, mark_count, wins,
};
use crate::matchbox::{punished_weights, rewarded_weights};
use crate::player::{Player, fresh_weights, stores_wf};
use crate::select::{PlayMode, get_ai_play};

verus! {

/// The state of one game: still running, or one of the three terminal
/// outcomes.
#[derive(Clone, Copy, Debug, PartialEq, Eq, Structural)]
pub enum GameState {
    InProgress,
    P1Won,
    P2Won,
    Tie,
}

/// The state of a game between the marks `m1` and `m2`, with `m1`'s win
/// checked first and both wins checked before the tie: a full board that
/// holds a winning line counts as a win, never as a tie.
pub open spec fn game_state_spec(s: Seq<Cell>, m1: Mark, m2: Mark) -> GameState {
    if wins(s, m1) {
        GameState::P1Won
    } else if wins(s, m2) {
        GameState::P2Won
    } else if board_full(s) {
        GameState::Tie
    } else {
        GameState::InProgress
    }
}

/// Whether the game on `board` is over, and how.
pub fn game_state(board: &Board, m1: Mark, m2: Mark) -> (st: GameState)
    ensures
        st == game_state_spec(board@, m1, m2),
{
    if has_won(m1, board) {
        GameState::P1Won
    } else if has_won(m2, board) {
        GameState::P2Won
    } else if is_board_complete(board) {
        GameState::Tie
    } else {
        GameState::InProgress
    }
}

/// The store table after every `(board, bead)` pair of a trace has been
/// rewarded `n` steps, in trace order.
pub open spec fn reward_applied(
    st: Seq<Option<Seq<u32>>>,
    tr: Seq<(Board, Bead)>,
    n: int,
) -> Seq<Option<Seq<u32>>>
    decreases tr.len(),
{
    if tr.len() == 0 {
        st
    } else {
        let prev = reward_applied(st, tr.drop_last(), n);
        let bi = board_index_spec(tr.last().0@);
        let k = bead_index_spec(tr.last().1);
        match prev[bi] {
            Some(ws) => prev.update(bi, Some(rewarded_weights(ws, k, n))),
            None => prev,
        }
    }
}

/// The store table after every `(board, bead)` pair of a trace has been
/// punished `n` steps, in trace order.
pub open spec fn punish_applied(
    st: Seq<Option<Seq<u32>>>,
    tr: Seq<(Board, Bead)>,
    n: int,
) -> Seq<Option<Seq<u32>>>
    decreases tr.len(),
{
    if tr.len() == 0 {
        st
    } else {
        let prev = punish_applied(st, tr.drop_last(), n);
        let bi = board_index_spec(tr.last().0@);
        let k = bead_index_spec(tr.last().1);
        match prev[bi] {
            Some(ws) => prev.update(bi, Some(punished_weights(ws, k, n))),
            None => prev,
        }
    }
}

/// A pass of zero reward steps changes no store.
pub proof fn lemma_reward_applied_zero(st: Seq<Option<Seq<u32>>>, tr: Seq<(Board, Bead)>)
    requires
        stores_wf(st),
    ensures
        reward_applied(st, tr, 0) == st,
    decreases tr.len(),
{
    if tr.len() > 0 {
        lemma_reward_applied_zero(st, tr.drop_last());
        lemma_board_index_spec_bounds(tr.last().0@);
        let bi = board_index_spec(tr.last().0@);
        let k = bead_index_spec(tr.last().1);
        match st[bi] {
            Some(ws) => {
                assert(ws.len() == 9);
                assert(0 <= k < 9);
                assert(rewarded_weights(ws, k, 0) =~= ws);
                assert(st.update(bi, Some(ws)) =~= st);
            },
            None => {},
        }
    }
}

/// A pass of zero punishment steps changes no store.
pub proof fn lemma_punish_applied_zero(st: Seq<Option<Seq<u32>>>, tr: Seq<(Board, Bead)>)
    requires
        stores_wf(st),
    ensures
        punish_applied(st, tr, 0) == st,
    decreases tr.len(),
{
    if tr.len() > 0 {
        lemma_punish_applied_zero(st, tr.drop_last());
        lemma_board_index_spec_bounds(tr.last().0@);
        let bi = board_index_spec(tr.last().0@);
        let k = bead_index_spec(tr.last().1);
        match st[bi] {
            Some(ws) => {
                assert(ws.len() == 9);
                assert(0 <= k < 9);
                assert(punished_weights(ws, k, 0) =~= ws);
                assert(st.update(bi, Some(ws)) =~= st);
            },
            None => {},
        }
    }
}

/// Every board of the trace has a store in the table.
pub open spec fn traces_present(st: Seq<Option<Seq<u32>>>, tr: Seq<(Board, Bead)>) -> bool {
    forall|j: int| 0 <= j < tr.len() ==> st[board_index_spec((#[trigger] tr[j]).0@)] is Some
}

/// Reward every `(board, bead)` pair of `trace`, `times` steps each: each
/// visited store's chosen bead gains `times` units.
pub fn reward_trace(player: &mut Player, trace: &Vec<(Board, Bead)>, times: usize)
    requires
        old(player).wf(),
        traces_present(old(player).stores(), trace@),
    ensures
        final(player).wf(),
        final(player).mark() == old(player).mark(),
        final(player).stores() == reward_applied(old(player).stores(), trace@, times as int),
{
    let n = trace.len();
    let mut i: usize = 0;
    while i < n
        invariant
            i <= n,
            n == trace@.len(),
            player.wf(),
            player.mark() == old(player).mark(),
            traces_present(player.stores(), trace@),
            player.stores() == reward_applied(
                old(player).stores(),
                trace@.subrange(0, i as int),
                times as int,
            ),
        decreases n - i,
    {
        let entry = &trace[i];
        let bead = entry.1;
        player.reward_times(&entry.0, bead, times);
        proof {
            assert(trace@.subrange(0, i as int + 1).drop_last() =~= trace@.subrange(0, i as int));
            assert(trace@.subrange(0, i as int + 1).last() == trace@[i as int]);
        }
        i = i + 1;
    }
    proof {
        assert(trace@.subrange(0, n as int) =~= trace@);
    }
}

/// Punish every `(board, bead)` pair of `trace`, `times` steps each: each
/// visited store's chosen bead loses `times` units, never dropping below
/// one.
pub fn punish_trace(player: &mut Player, trace: &Vec<(Board, Bead)>, times: usize)
    requires
        old(player).wf(),
        traces_present(old(player).stores(), trace@),
    ensures
        final(player).wf(),
        final(player).mark() == old(player).mark(),
        final(player).stores() == punish_applied(old(player).stores(), trace@, times as int),
{
    let n = trace.len();
    let mut i: usize = 0;
    while i < n
        invariant
            i <= n,
            n == trace@.len(),
            player.wf(),
            player.mark() == old(player).mark(),
            traces_present(player.stores(), trace@),
            player.stores() == punish_applied(
                old(player).stores(),
                trace@.subrange(0, i as int),
                times as int,
            ),
        decreases n - i,
    {
        let entry = &trace[i];
        let bead = entry.1;
        player.punish_times(&entry.0, bead, times);
        proof {
            assert(trace@.subrange(0, i as int + 1).drop_last() =~= trace@.subrange(0, i as int));
            assert(trace@.subrange(0, i as int + 1).last() == trace@[i as int]);
        }
        i = i + 1;
    }
    proof {
        assert(trace@.subrange(0, n as int) =~= trace@);
    }
}

/// The immutable schedule of one training run. Each side's reward and
/// punishment counts are its own: a side's win reward and tie reward apply
/// to its trace on its win or a tie, and its loss punishment applies to its
/// trace when the other side wins.
#[derive(Clone, Copy, Debug)]
pub struct TrainConfig {
    pub games: usize,
    pub p1_win_reward: usize,
    pub p1_loss_punishment: usize,
    pub p2_win_reward: usize,
    pub p2_loss_punishment: usize,
    pub p1_tie_reward: usize,
    pub p2_tie_reward: usize,
    pub p1_play_mode: PlayMode,
    pub p2_play_mode: PlayMode,
}

/// The aggregate outcome counts of one training run.
#[derive(Clone, Copy, Debug, PartialEq, Eq, Structural)]
pub struct TrainResult {
    pub p1_wins: usize,
    pub p2_wins: usize,
    pub ties: usize,
}

/// One game's story: the board each move was chosen on and the bead chosen,
/// split per side, and the terminal board the game reached.
pub struct GameRecord {
    pub moves_p1: Seq<(Board, Bead)>,
    pub moves_p2: Seq<(Board, Bead)>,
    pub board: Board,
}

/// The `t`-th move of a game: the first side plays the even turns.
pub open spec fn move_at(rec: GameRecord, t: int) -> (Board, Bead) {
    if t % 2 == 0 {
        rec.moves_p1[t / 2]
    } else {
        rec.moves_p2[t / 2]
    }
}

/// The mark placed on turn `t`.
pub open spec fn mover_mark(m1: Mark, m2: Mark, t: int) -> Mark {
    if t % 2 == 0 {
        m1
    } else {
        m2
    }
}

/// The board standing after turn `t`: the board that turn was chosen on,
/// with the chosen bead's square filled by the mover's mark.
pub open spec fn played_board(rec: GameRecord, m1: Mark, m2: Mark, t: int) -> Seq<Cell> {
    move_at(rec, t).0@.update(
        bead_index_spec(move_at(rec, t).1),
        Cell::Taken(mover_mark(m1, m2, t)),
    )
}

/// Turn `t` of the record is sound: chosen while the game was still in
/// progress, on an empty square, and the next board — or the terminal
/// board, after the last turn — is this board with the move played.
pub open spec fn game_move_ok(rec: GameRecord, m1: Mark, m2: Mark, t: int) -> bool {
    let n = rec.moves_p1.len() + rec.moves_p2.len();
    &&& game_state_spec(move_at(rec, t).0@, m1, m2) == GameState::InProgress
    &&& move_at(rec, t).0@[bead_index_spec(move_at(rec, t).1)] == Cell::Empty
    &&& (t + 1 < n ==> move_at(rec, t + 1).0@ == played_board(rec, m1, m2, t))
    &&& (t + 1 == n ==> rec.board@ == played_board(rec, m1, m2, t))
}

/// The record shows one well-formed game: it starts from the empty board,
/// the sides alternate with the first side moving first, and each turn is
/// sound in the sense of `game_move_ok`.
pub open spec fn game_valid(rec: GameRecord, m1: Mark, m2: Mark) -> bool {
    let n = rec.moves_p1.len() + rec.moves_p2.len();
    &&& rec.moves_p2.len() <= rec.moves_p1.len() <= rec.moves_p2.len() + 1
    &&& (n == 0 ==> rec.board@ == empty_board())
    &&& (n > 0 ==> move_at(rec, 0).0@ == empty_board())
    &&& forall|t: int| 0 <= t < n ==> #[trigger] game_move_ok(rec, m1, m2, t)
}

/// Some move of the trace was chosen on the board encoded `i`.
pub open spec fn trace_visits(tr: Seq<(Board, Bead)>, i: int) -> bool {
    exists|j: int| 0 <= j < tr.len() && board_index_spec((#[trigger] tr[j]).0@) == i
}

/// `mid` is `before` with stores created only where the trace visited: no
/// store is deleted or altered, and a new one — always the fresh uniform
/// store — appears only at a board the side chose a move on.
pub open spec fn created_only_at(
    before: Seq<Option<Seq<u32>>>,
    mid: Seq<Option<Seq<u32>>>,
    tr: Seq<(Board, Bead)>,
) -> bool {
    &&& mid.len() == before.len()
    &&& forall|i: int|
        0 <= i < before.len() ==> ((#[trigger] mid[i]) == before[i] || (before[i] is None && mid[i]
            == Some(fresh_weights()) && trace_visits(tr, i)))
}

/// The pass one side's stores receive when a game ends: its own win reward
/// on its win, its own tie reward on a tie, its own loss punishment when
/// the other side won.
pub open spec fn side_pass(
    st: Seq<Option<Seq<u32>>>,
    tr: Seq<(Board, Bead)>,
    won: bool,
    tied: bool,
    win_reward: int,
    loss_punishment: int,
    tie_reward: int,
) -> Seq<Option<Seq<u32>>> {
    if won {
        reward_applied(st, tr, win_reward)
    } else if tied {
        reward_applied(st, tr, tie_reward)
    } else {
        punish_applied(st, tr, loss_punishment)
    }
}

/// How one side's store table moves across one game: lazy creation at the
/// boards it chose moves on, then the outcome's pass over its trace.
/// `first` says whether this is the first side, whose win is `P1Won`.
pub open spec fn side_updated(
    before: Seq<Option<Seq<u32>>>,
    after: Seq<Option<Seq<u32>>>,
    mid: Seq<Option<Seq<u32>>>,
    tr: Seq<(Board, Bead)>,
    outcome: GameState,
    first: bool,
    win_reward: int,
    loss_punishment: int,
    tie_reward: int,
) -> bool {
    let won = if first {
        outcome == GameState::P1Won
    } else {
        outcome == GameState::P2Won
    };
    &&& created_only_at(before, mid, tr)
    &&& traces_present(mid, tr)
    &&& after == side_pass(
        mid,
        tr,
        won,
        outcome == GameState::Tie,
        win_reward,
        loss_punishment,
        tie_reward,
    )
}

/// One game under the schedule `cfg`: the record shows a well-formed game,
/// the outcome is the terminal board's state — wins checked before the
/// tie — and each side's stores move by creation at its visited boards
/// followed by the outcome's pass over its trace.
pub open spec fn game_applies(
    before1: Seq<Option<Seq<u32>>>,
    before2: Seq<Option<Seq<u32>>>,
    outcome: GameState,
    rec: GameRecord,
    m1: Mark,
    m2: Mark,
    cfg: TrainConfig,
    after1: Seq<Option<Seq<u32>>>,
    after2: Seq<Option<Seq<u32>>>,
) -> bool {
    &&& game_valid(rec, m1, m2)
    &&& outcome == game_state_spec(rec.board@, m1, m2)
    &&& outcome != GameState::InProgress
    &&& exists|mid: Seq<Option<Seq<u32>>>|
        #[trigger] side_updated(
            before1,
            after1,
            mid,
            rec.moves_p1,
            outcome,
            true,
            cfg.p1_win_reward as int,
            cfg.p1_loss_punishment as int,
            cfg.p1_tie_reward as int,
        )
    &&& exists|mid: Seq<Option<Seq<u32>>>|
        #[trigger] side_updated(
            before2,
            after2,
            mid,
            rec.moves_p2,
            outcome,
            false,
            cfg.p2_win_reward as int,
            cfg.p2_loss_punishment as int,
            cfg.p2_tie_reward as int,
        )
}

/// The games of `log`, in order, carry the two store tables from `before1`
/// and `before2` to `after1` and `after2`.
pub open spec fn run_applies(
    before1: Seq<Option<Seq<u32>>>,
    before2: Seq<Option<Seq<u32>>>,
    log: Seq<(GameState, GameRecord)>,
    m1: Mark,
    m2: Mark,
    cfg: TrainConfig,
    after1: Seq<Option<Seq<u32>>>,
    after2: Seq<Option<Seq<u32>>>,
) -> bool
    decreases log.len(),
{
    if log.len() == 0 {
        after1 == before1 && after2 == before2
    } else {
        exists|mid1: Seq<Option<Seq<u32>>>, mid2: Seq<Option<Seq<u32>>>|
            {
                &&& run_applies(before1, before2, log.drop_last(), m1, m2, cfg, mid1, mid2)
                &&& #[trigger] game_applies(
                    mid1,
                    mid2,
                    log.last().0,
                    log.last().1,
                    m1,
                    m2,
                    cfg,
                    after1,
                    after2,
                )
            }
    }
}

/// How many games of the log ended in the given state.
pub open spec fn count_outcome(log: Seq<(GameState, GameRecord)>, gs: GameState) -> int
    decreases log.len(),
{
    if log.len() == 0 {
        0
    } else {
        count_outcome(log.drop_last(), gs) + (if log.last().0 == gs {
            1int
        } else {
            0int
        })
    }
}

/// In a valid game, the board turn `t` was chosen on carries the marks of
/// the turns before it: the first mover's mark on the odd half, the second
/// mover's on the even half.
pub proof fn lemma_game_valid_mark_balance(rec: GameRecord, m1: Mark, m2: Mark, t: int)
    requires
        game_valid(rec, m1, m2),
        m1 != m2,
        0 <= t < rec.moves_p1.len() + rec.moves_p2.len(),
    ensures
        move_at(rec, t).0@.len() == 9,
        mark_count(move_at(rec, t).0@, m1) == (t + 1) / 2,
        mark_count(move_at(rec, t).0@, m2) == t / 2,
    decreases t,
{
    if t == 0 {
        lemma_marks_empty(move_at(rec, 0).0@, m1, 0);
        lemma_marks_empty(move_at(rec, 0).0@, m2, 0);
    } else {
        lemma_game_valid_mark_balance(rec, m1, m2, t - 1);
        assert(game_move_ok(rec, m1, m2, t - 1));
        let prev = move_at(rec, t - 1).0@;
        let k = bead_index_spec(move_at(rec, t - 1).1);
        lemma_marks_update(prev, k, mover_mark(m1, m2, t - 1), m1, 0);
        lemma_marks_update(prev, k, mover_mark(m1, m2, t - 1), m2, 0);
    }
}

/// In a valid game between distinct marks, every board the first mover
/// chose on holds equally many of both marks, and every board the second
/// mover chose on holds one more of the first mover's mark.
pub proof fn lemma_game_trace_balance(rec: GameRecord, m1: Mark, m2: Mark)
    requires
        game_valid(rec, m1, m2),
        m1 != m2,
    ensures
        forall|j: int|
            0 <= j < rec.moves_p1.len() ==> mark_count((#[trigger] rec.moves_p1[j]).0@, m1)
                == mark_count(rec.moves_p1[j].0@, m2),
        forall|j: int|
            0 <= j < rec.moves_p2.len() ==> mark_count((#[trigger] rec.moves_p2[j]).0@, m1)
                == mark_count(rec.moves_p2[j].0@, m2) + 1,
{
    assert forall|j: int| 0 <= j < rec.moves_p1.len() implies mark_count(
        (#[trigger] rec.moves_p1[j]).0@,
        m1,
    ) == mark_count(rec.moves_p1[j].0@, m2) by {
        lemma_game_valid_mark_balance(rec, m1, m2, 2 * j);
        assert(move_at(rec, 2 * j) == rec.moves_p1[j]);
    }
    assert forall|j: int| 0 <= j < rec.moves_p2.len() implies mark_count(
        (#[trigger] rec.moves_p2[j]).0@,
        m1,
    ) == mark_count(rec.moves_p2[j].0@, m2) + 1 by {
        lemma_game_valid_mark_balance(rec, m1, m2, 2 * j + 1);
        assert(move_at(rec, 2 * j + 1) == rec.moves_p2[j]);
    }
}

/// Extending a trace by one visited board keeps the creation discipline:
/// the table may stay as it is, or gain the fresh store at that board.
proof fn lemma_created_extend(
    before: Seq<Option<Seq<u32>>>,
    mid_old: Seq<Option<Seq<u32>>>,
    mid_new: Seq<Option<Seq<u32>>>,
    tr_old: Seq<(Board, Bead)>,
    tr_new: Seq<(Board, Bead)>,
    b: Board,
)
    requires
        created_only_at(before, mid_old, tr_old),
        0 <= board_index_spec(b@) < before.len(),
        mid_new == mid_old || (mid_old[board_index_spec(b@)] is None && mid_new
            == mid_old.update(board_index_spec(b@), Some(fresh_weights()))),
        tr_new.len() == tr_old.len() + 1,
        tr_new[tr_old.len() as int].0 == b,
        forall|j: int| 0 <= j < tr_old.len() ==> (#[trigger] tr_new[j]) == tr_old[j],
    ensures
        created_only_at(before, mid_new, tr_new),
{
    let bi = board_index_spec(b@);
    let n = tr_old.len() as int;
    assert(board_index_spec(tr_new[n].0@) == bi);
    assert forall|i: int| 0 <= i < before.len() implies ((#[trigger] mid_new[i]) == before[i] || (
        before[i] is None && mid_new[i] == Some(fresh_weights()) && trace_visits(tr_new, i))) by {
        assert(mid_old[i] == before[i] || (before[i] is None && mid_old[i] == Some(fresh_weights())
            && trace_visits(tr_old, i)));
        if mid_old[i] != before[i] {
            let j = choose|j: int|
                0 <= j < tr_old.len() && board_index_spec(tr_old[j].0@) == i;
            assert(board_index_spec(tr_new[j].0@) == i);
            assert(trace_visits(tr_new, i));
        }
        if mid_new != mid_old && i == bi {
            assert(trace_visits(tr_new, i));
        }
    }
}

/// Drive one self-play game to its end and apply the outcome's rewards and
/// punishments to every store visited on the way, returning the outcome
/// together with the game's record. A game always ends: each turn fills an
/// empty square, and a full board is terminal.
#[verifier::loop_isolation(false)]
#[verifier::rlimit(100)]
fn play_one_game(p1: &mut Player, p2: &mut Player, cfg: &TrainConfig) -> (r: (
    GameState,
    Ghost<GameRecord>,
))
    requires
        old(p1).wf(),
        old(p2).wf(),
        old(p1).mark() != old(p2).mark(),
    ensures
        final(p1).wf(),
        final(p2).wf(),
        final(p1).mark() == old(p1).mark(),
        final(p2).mark() == old(p2).mark(),
        r.0 != GameState::InProgress,
        game_applies(
            old(p1).stores(),
            old(p2).stores(),
            r.0,
            r.1@,
            old(p1).mark(),
            old(p2).mark(),
            *cfg,
            final(p1).stores(),
            final(p2).stores(),
        ),
{
    let s1 = p1.symbol();
    let s2 = p2.symbol();
    let mut board = Board::new();
    proof {
        assert(board@ =~= empty_board());
    }
    let mut choices_p1: Vec<(Board, Bead)> = Vec::new();
    let mut choices_p2: Vec<(Board, Bead)> = Vec::new();
    let mut turn = true;
    loop
        invariant
            p1.wf(),
            p2.wf(),
            p1.mark() == s1,
            p2.mark() == s2,
            board@.len() == 9,
            turn ==> choices_p1@.len() == choices_p2@.len(),
            !turn ==> choices_p1@.len() == choices_p2@.len() + 1,
            traces_present(p1.stores(), choices_p1@),
            traces_present(p2.stores(), choices_p2@),
            created_only_at(old(p1).stores(), p1.stores(), choices_p1@),
            created_only_at(old(p2).stores(), p2.stores(), choices_p2@),
            game_valid(
                GameRecord { moves_p1: choices_p1@, moves_p2: choices_p2@, board: board },
                s1,
                s2,
            ),
        decreases empties(board@),
    {
        let state = game_state(&board, s1, s2);
        let ghost rec = GameRecord { moves_p1: choices_p1@, moves_p2: choices_p2@, board: board };
        match state {
            GameState::P1Won => {
                let ghost mid1 = p1.stores();
                let ghost mid2 = p2.stores();
                reward_trace(p1, &choices_p1, cfg.p1_win_reward);
                punish_trace(p2, &choices_p2, cfg.p2_loss_punishment);
                proof {
                    assert(side_updated(
                        old(p1).stores(),
                        p1.stores(),
                        mid1,
                        rec.moves_p1,
                        GameState::P1Won,
                        true,
                        cfg.p1_win_reward as int,
                        cfg.p1_loss_punishment as int,
                        cfg.p1_tie_reward as int,
                    ));
                    assert(side_updated(
                        old(p2).stores(),
                        p2.stores(),
                        mid2,
                        rec.moves_p2,
                        GameState::P1Won,
                        false,
                        cfg.p2_win_reward as int,
                        cfg.p2_loss_punishment as int,
                        cfg.p2_tie_reward as int,
                    ));
                }
                return (GameState::P1Won, Ghost(rec));
            },
            GameState::P2Won => {
                let ghost mid1 = p1.stores();
                let ghost mid2 = p2.stores();
                reward_trace(p2, &choices_p2, cfg.p2_win_reward);
                punish_trace(p1, &choices_p1, cfg.p1_loss_punishment);
                proof {
                    assert(side_updated(
                        old(p1).stores(),
                        p1.stores(),
                        mid1,
                        rec.moves_p1,
                        GameState::P2Won,
                        true,
                        cfg.p1_win_reward as int,
                        cfg.p1_loss_punishment as int,
                        cfg.p1_tie_reward as int,
                    ));
                    assert(side_updated(
                        old(p2).stores(),
                        p2.stores(),
                        mid2,
                        rec.moves_p2,
                        GameState::P2Won,
                        false,
                        cfg.p2_win_reward as int,
                        cfg.p2_loss_punishment as int,
                        cfg.p2_tie_reward as int,
                    ));
                }
                return (GameState::P2Won, Ghost(rec));
            },
            GameState::Tie => {
                let ghost mid1 = p1.stores();
                let ghost mid2 = p2.stores();
                reward_trace(p1, &choices_p1, cfg.p1_tie_reward);
                reward_trace(p2, &choices_p2, cfg.p2_tie_reward);
                proof {
                    assert(side_updated(
                        old(p1).stores(),
                        p1.stores(),
                        mid1,
                        rec.moves_p1,
                        GameState::Tie,
                        true,
                        cfg.p1_win_reward as int,
                        cfg.p1_loss_punishment as int,
                        cfg.p1_tie_reward as int,
                    ));
                    assert(side_updated(
                        old(p2).stores(),
                        p2.stores(),
                        mid2,
                        rec.moves_p2,
                        GameState::Tie,
                        false,
                        cfg.p2_win_reward as int,
                        cfg.p2_loss_punishment as int,
                        cfg.p2_tie_reward as int,
                    ));
                }
                return (GameState::Tie, Ghost(rec));
            },
            GameState::InProgress => {
                if turn {
                    let ghost stores_before = p1.stores();
                    let ghost tr_before = choices_p1@;
                    let (bead, (row, col)) = get_ai_play(&board, p1, cfg.p1_play_mode);
                    let ghost pre_board = board;
                    let ghost n0 = choices_p1@.len() + choices_p2@.len();
                    choices_p1.push((board, bead));
                    proof {
                        lemma_board_index_spec_bounds(pre_board@);
                        lemma_created_extend(
                            old(p1).stores(),
                            stores_before,
                            p1.stores(),
                            tr_before,
                            choices_p1@,
                            pre_board,
                        );
                        lemma_empties_update(board@, bead_index_spec(bead), s1, 0);
                    }
                    board.place(row, col, s1);
                    proof {
                        let rec2 = GameRecord {
                            moves_p1: choices_p1@,
                            moves_p2: choices_p2@,
                            board: board,
                        };
                        assert(move_at(rec2, n0 as int) == (pre_board, bead));
                        assert forall|t: int| 0 <= t < n0 + 1 implies #[trigger] game_move_ok(
                            rec2,
                            s1,
                            s2,
                            t,
                        ) by {
                            if t < n0 {
                                assert(game_move_ok(rec, s1, s2, t));
                                assert(move_at(rec2, t) == move_at(rec, t));
                                if t + 1 < n0 {
                                    assert(move_at(rec2, t + 1) == move_at(rec, t + 1));
                                }
                            }
                        }
                        assert(game_valid(rec2, s1, s2));
                    }
                } else {
                    let ghost stores_before = p2.stores();
                    let ghost tr_before = choices_p2@;
                    let (bead, (row, col)) = get_ai_play(&board, p2, cfg.p2_play_mode);
                    let ghost pre_board = board;
                    let ghost n0 = choices_p1@.len() + choices_p2@.len();
                    choices_p2.push((board, bead));
                    proof {
                        lemma_board_index_spec_bounds(pre_board@);
                        lemma_created_extend(
                            old(p2).stores(),
                            stores_before,
                            p2.stores(),
                            tr_before,
                            choices_p2@,
                            pre_board,
                        );
                        lemma_empties_update(board@, bead_index_spec(bead), s2, 0);
                    }
                    board.place(row, col, s2);
                    proof {
                        let rec2 = GameRecord {
                            moves_p1: choices_p1@,
                            moves_p2: choices_p2@,
                            board: board,
                        };
                        assert(move_at(rec2, n0 as int) == (pre_board, bead));
                        assert forall|t: int| 0 <= t < n0 + 1 implies #[trigger] game_move_ok(
                            rec2,
                            s1,
                            s2,
                            t,
                        ) by {
                            if t < n0 {
                                assert(game_move_ok(rec, s1, s2, t));
                                assert(move_at(rec2, t) == move_at(rec, t));
                                if t + 1 < n0 {
                                    assert(move_at(rec2, t + 1) == move_at(rec, t + 1));
                                }
                            }
                        }
                        assert(game_valid(rec2, s1, s2));
                    }
                }
                turn = !turn;
            },
        }
    }
}

/// Run `cfg.games` self-play games between the two learners, updating their
/// stores after every game, and report how many games each side won and how
/// many were ties: the three counts always sum to the configured game
/// count, and a ghost log witnesses that the final weights arise from the
/// games played, outcome by outcome, starting from the stores handed in.
#[verifier::loop_isolation(false)]
pub fn train(p1: &mut Player, p2: &mut Player, cfg: TrainConfig) -> (r: TrainResult)
    requires
        old(p1).wf(),
        old(p2).wf(),
        old(p1).mark() != old(p2).mark(),
    ensures
        final(p1).wf(),
        final(p2).wf(),
        final(p1).mark() == old(p1).mark(),
        final(p2).mark() == old(p2).mark(),
        r.p1_wins + r.p2_wins + r.ties == cfg.games,
        exists|log: Seq<(GameState, GameRecord)>|
            {
                &&& #[trigger] run_applies(
                    old(p1).stores(),
                    old(p2).stores(),
                    log,
                    old(p1).mark(),
                    old(p2).mark(),
                    cfg,
                    final(p1).stores(),
                    final(p2).stores(),
                )
                &&& log.len() == cfg.games
                &&& r.p1_wins == count_outcome(log, GameState::P1Won)
                &&& r.p2_wins == count_outcome(log, GameState::P2Won)
                &&& r.ties == count_outcome(log, GameState::Tie)
            },
{
    let mut p1_wins: usize = 0;
    let mut p2_wins: usize = 0;
    let mut ties: usize = 0;
    let mut g: usize = 0;
    let ghost mut log: Seq<(GameState, GameRecord)> = Seq::empty();
    while g < cfg.games
        invariant
            g <= cfg.games,
            p1_wins + p2_wins + ties == g,
            p1.wf(),
            p2.wf(),
            p1.mark() == old(p1).mark(),
            p2.mark() == old(p2).mark(),
            log.len() == g,
            run_applies(
                old(p1).stores(),
                old(p2).stores(),
                log,
                old(p1).mark(),
                old(p2).mark(),
                cfg,
                p1.stores(),
                p2.stores(),
            ),
            p1_wins == count_outcome(log, GameState::P1Won),
            p2_wins == count_outcome(log, GameState::P2Won),
            ties == count_outcome(log, GameState::Tie),
        decreases cfg.games - g,
    {
        let ghost pre1 = p1.stores();
        let ghost pre2 = p2.stores();
        let (outcome, rec) = play_one_game(p1, p2, &cfg);
        proof {
            let log2 = log.push((outcome, rec@));
            assert(log2.drop_last() =~= log);
            assert(log2.last() == (outcome, rec@));
            assert(game_applies(
                pre1,
                pre2,
                log2.last().0,
                log2.last().1,
                old(p1).mark(),
                old(p2).mark(),
                cfg,
                p1.stores(),
                p2.stores(),
            ));
            assert(run_applies(
                old(p1).stores(),
                old(p2).stores(),
                log2,
                old(p1).mark(),
                old(p2).mark(),
                cfg,
                p1.stores(),
                p2.stores(),
            ));
            log = log2;
        }
        match outcome {
            GameState::P1Won => {
                p1_wins = p1_wins + 1;
            },
            GameState::P2Won => {
                p2_wins = p2_wins + 1;
            },
            GameState::Tie => {
                ties = ties + 1;
            },
            GameState::InProgress => {},
        }
        g = g + 1;
    }
    TrainResult { p1_wins, p2_wins, ties }
}

} // verus!
