use menace::bead::Bead;
use menace::board::{Board, Mark};
use menace::matchbox::INITIAL_WEIGHT;
use menace::player::Player;
use menace::select::PlayMode;
use menace::train::{TrainConfig, punish_trace, reward_trace, train};

fn schedule(games: usize, mode: PlayMode) -> TrainConfig {
    TrainConfig {
        games,
        p1_win_reward: 3,
        p1_loss_punishment: 1,
        p2_win_reward: 3,
        p2_loss_punishment: 1,
        p1_tie_reward: 1,
        p2_tie_reward: 1,
        p1_play_mode: mode,
        p2_play_mode: mode,
    }
}

#[test]
fn reward_pass_adds_the_win_reward_to_each_visited_pair() {
    let mut winner = Player::new(Mark::X);
    let first = Board::new();
    let mut second = Board::new();
    second.place(0, 0, Mark::X);
    second.place(1, 1, Mark::O);
    winner.ensure_store(&first);
    winner.ensure_store(&second);
    let trace = vec![(first, Bead::White), (second, Bead::Silver)];
    reward_trace(&mut winner, &trace, 3);
    assert_eq!(winner.weight_of(&first, Bead::White), Some(INITIAL_WEIGHT + 3));
    assert_eq!(winner.weight_of(&second, Bead::Silver), Some(INITIAL_WEIGHT + 3));
    // Beads the trace does not name keep their weights.
    assert_eq!(winner.weight_of(&first, Bead::Silver), Some(INITIAL_WEIGHT));
    assert_eq!(winner.weight_of(&second, Bead::White), Some(INITIAL_WEIGHT));
}

#[test]
fn punish_pass_subtracts_the_loss_punishment_with_a_floor_of_one() {
    let mut loser = Player::new(Mark::O);
    let first = Board::new();
    loser.ensure_store(&first);
    let trace = vec![(first, Bead::Gold)];
    punish_trace(&mut loser, &trace, 1);
    assert_eq!(loser.weight_of(&first, Bead::Gold), Some(INITIAL_WEIGHT - 1));
    // A punishment far larger than the weight saturates at one.
    punish_trace(&mut loser, &trace, 1000);
    assert_eq!(loser.weight_of(&first, Bead::Gold), Some(1));
    assert_eq!(loser.weight_of(&first, Bead::White), Some(INITIAL_WEIGHT));
}

#[test]
fn zero_counts_change_no_weights() {
    let mut p = Player::new(Mark::X);
    let b = Board::new();
    p.ensure_store(&b);
    let trace = vec![(b, Bead::Red)];
    reward_trace(&mut p, &trace, 0);
    punish_trace(&mut p, &trace, 0);
    assert_eq!(p.weight_of(&b, Bead::Red), Some(INITIAL_WEIGHT));
}

#[test]
fn result_counts_sum_to_the_game_count() {
    let mut p1 = Player::new(Mark::X);
    let mut p2 = Player::new(Mark::O);
    let r = train(&mut p1, &mut p2, schedule(250, PlayMode::Random));
    assert_eq!(r.p1_wins + r.p2_wins + r.ties, 250);
    let r = train(&mut p1, &mut p2, schedule(0, PlayMode::Random));
    assert_eq!(r.p1_wins + r.p2_wins + r.ties, 0);
    let r = train(&mut p1, &mut p2, schedule(7, PlayMode::Best));
    assert_eq!(r.p1_wins + r.p2_wins + r.ties, 7);
}

#[test]
fn one_best_mode_game_applies_the_exact_deltas() {
    // With every weight equal, Best mode play is fully deterministic: the
    // first side takes squares (0,0), (0,2), (1,1), then (2,0) completes
    // the anti-diagonal after the second side has taken (0,1), (1,0) and
    // (1,2) — the first side wins after seven moves.
    let mut p1 = Player::new(Mark::X);
    let mut p2 = Player::new(Mark::O);
    let r = train(&mut p1, &mut p2, schedule(1, PlayMode::Best));
    assert_eq!(r.p1_wins, 1);
    assert_eq!(r.p2_wins, 0);
    assert_eq!(r.ties, 0);
    // The winner's first choice gained the win reward of 3 exactly.
    let empty = Board::new();
    assert_eq!(p1.weight_of(&empty, Bead::White), Some(INITIAL_WEIGHT + 3));
    // The loser's first choice lost the punishment of 1 exactly.
    let mut after_one = Board::new();
    after_one.place(0, 0, Mark::X);
    assert_eq!(p2.weight_of(&after_one, Bead::Lilac), Some(INITIAL_WEIGHT - 1));
}

#[test]
fn training_twice_accumulates_weight_changes() {
    let mut p1 = Player::new(Mark::X);
    let mut p2 = Player::new(Mark::O);
    let empty = Board::new();
    train(&mut p1, &mut p2, schedule(1, PlayMode::Best));
    let after_one = p1.weight_of(&empty, Bead::White);
    assert_eq!(after_one, Some(INITIAL_WEIGHT + 3));
    train(&mut p1, &mut p2, schedule(1, PlayMode::Best));
    let after_two = p1.weight_of(&empty, Bead::White);
    // The second run starts from the learned weights, not from fresh ones:
    // whatever the second game's outcome, the first choice's weight moved
    // again (+3 on a win, -1 on a loss, +1 on a tie).
    assert_ne!(after_two, after_one);
    assert_ne!(after_two, Some(INITIAL_WEIGHT + 3));
}

#[test]
fn long_random_training_then_best_evaluation_terminates_cleanly() {
    let mut p1 = Player::new(Mark::X);
    let mut p2 = Player::new(Mark::O);
    let r = train(&mut p1, &mut p2, schedule(100_000, PlayMode::Random));
    assert_eq!(r.p1_wins + r.p2_wins + r.ties, 100_000);
    // One evaluation game in Best mode with learning switched off: it ends
    // in exactly one of the three outcomes and changes no existing weight.
    let empty = Board::new();
    let learned = p1.weight_of(&empty, Bead::White);
    let eval = TrainConfig {
        games: 1,
        p1_win_reward: 0,
        p1_loss_punishment: 0,
        p2_win_reward: 0,
        p2_loss_punishment: 0,
        p1_tie_reward: 0,
        p2_tie_reward: 0,
        p1_play_mode: PlayMode::Best,
        p2_play_mode: PlayMode::Best,
    };
    let r = train(&mut p1, &mut p2, eval);
    assert_eq!(r.p1_wins + r.p2_wins + r.ties, 1);
    assert!(r.p1_wins == 1 || r.p2_wins == 1 || r.ties == 1);
    assert_eq!(p1.weight_of(&empty, Bead::White), learned);
}

#[test]
fn stores_arise_only_at_boards_a_side_chose_on() {
    let mut p1 = Player::new(Mark::X);
    let mut p2 = Player::new(Mark::O);
    train(&mut p1, &mut p2, schedule(1, PlayMode::Best));
    // The first side chooses on the empty board; the second side never
    // does, so only the first side gains a store there.
    let empty = Board::new();
    assert!(p1.weight_of(&empty, Bead::White).is_some());
    assert!(p2.weight_of(&empty, Bead::White).is_none());
    // A board no game reached stays unvisited for both sides.
    let mut unreached = Board::new();
    unreached.place(2, 2, Mark::O);
    assert!(p1.weight_of(&unreached, Bead::White).is_none());
    assert!(p2.weight_of(&unreached, Bead::White).is_none());
}
