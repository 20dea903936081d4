use menace::bead::{Bead, bead_to_position};
use menace::board::{Board, Cell, Mark};
use menace::player::Player;
use menace::select::{PlayMode, get_ai_play};

const ALL_BEADS: [Bead; 9] = [
    Bead::White,
    Bead::Lilac,
    Bead::Silver,
    Bead::Black,
    Bead::Gold,
    Bead::Green,
    Bead::Amber,
    Bead::Red,
    Bead::Pink,
];

#[test]
fn selection_creates_the_store_on_first_visit() {
    let mut p = Player::new(Mark::X);
    let board = Board::new();
    assert_eq!(p.weight_of(&board, Bead::White), None);
    get_ai_play(&board, &mut p, PlayMode::Best);
    assert!(p.weight_of(&board, Bead::White).is_some());
}

#[test]
fn selection_never_changes_weights() {
    let mut p = Player::new(Mark::X);
    let board = Board::new();
    p.ensure_store(&board);
    p.reward_times(&board, Bead::Red, 7);
    for _ in 0..50 {
        get_ai_play(&board, &mut p, PlayMode::Random);
    }
    for bead in ALL_BEADS {
        let expected = if bead == Bead::Red { 23 } else { 16 };
        assert_eq!(p.weight_of(&board, bead), Some(expected));
    }
}

#[test]
fn best_mode_returns_the_heaviest_eligible_bead() {
    let mut p = Player::new(Mark::X);
    let board = Board::new();
    p.ensure_store(&board);
    p.reward_times(&board, Bead::Gold, 5);
    let (bead, (i, j)) = get_ai_play(&board, &mut p, PlayMode::Best);
    assert_eq!(bead, Bead::Gold);
    assert_eq!((i, j), (1, 1));
}

#[test]
fn best_mode_ignores_heavy_beads_on_taken_squares() {
    let mut p = Player::new(Mark::X);
    let mut board = Board::new();
    p.ensure_store(&board);
    p.reward_times(&board, Bead::Gold, 5);
    p.reward_times(&board, Bead::Pink, 3);
    // The same store is consulted, but Gold's square is taken now.
    board.place(1, 1, Mark::O);
    let stored = board;
    // Build the taken board's store from the weights learned on the empty
    // board so the test controls them.
    p.ensure_store(&stored);
    p.reward_times(&stored, Bead::Gold, 5);
    p.reward_times(&stored, Bead::Pink, 3);
    let (bead, (i, j)) = get_ai_play(&stored, &mut p, PlayMode::Best);
    assert_eq!(bead, Bead::Pink);
    assert_eq!((i, j), (2, 2));
}

#[test]
fn best_mode_tie_returns_a_member_of_the_tied_set() {
    let mut p = Player::new(Mark::X);
    let board = Board::new();
    let (bead, (i, j)) = get_ai_play(&board, &mut p, PlayMode::Best);
    // All nine weights tie, so any eligible bead is acceptable; the choice
    // must be deterministic within a run.
    assert_eq!(bead_to_position(bead), (i, j));
    let weight = p.weight_of(&board, bead).unwrap();
    for other in ALL_BEADS {
        assert!(p.weight_of(&board, other).unwrap() <= weight);
    }
    let (again, _) = get_ai_play(&board, &mut p, PlayMode::Best);
    assert_eq!(bead, again);
}

#[test]
fn every_selection_targets_an_empty_square() {
    let mut p = Player::new(Mark::O);
    let mut board = Board::new();
    board.place(0, 0, Mark::X);
    board.place(1, 1, Mark::O);
    board.place(2, 2, Mark::X);
    for _ in 0..500 {
        let (bead, (i, j)) = get_ai_play(&board, &mut p, PlayMode::Random);
        assert_eq!(bead_to_position(bead), (i, j));
        assert_eq!(board.cell(i, j), Cell::Empty);
    }
}

#[test]
fn random_mode_frequencies_follow_the_weights() {
    let mut p = Player::new(Mark::X);
    let board = Board::new();
    p.ensure_store(&board);
    // White 100, the other eight 16 each: total 228.
    p.reward_times(&board, Bead::White, 84);
    let trials = 40_000;
    let mut counts = [0usize; 9];
    for _ in 0..trials {
        let (_, (i, j)) = get_ai_play(&board, &mut p, PlayMode::Random);
        counts[3 * i + j] += 1;
    }
    let white_share = counts[0] as f64 / trials as f64;
    assert!(
        (white_share - 100.0 / 228.0).abs() < 0.03,
        "white share {white_share}"
    );
    for k in 1..9 {
        let share = counts[k] as f64 / trials as f64;
        assert!((share - 16.0 / 228.0).abs() < 0.03, "slot {k} share {share}");
    }
}
