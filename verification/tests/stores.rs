use menace::bead::Bead;
use menace::board::{Board, Mark};
use menace::matchbox::{INITIAL_WEIGHT, Matchbox};
use menace::player::Player;

const ALL_BEADS: [Bead; 9] = [
    Bead::White,
    Bead::Lilac,
    Bead::Silver,
    Bead::Black,
    Bead::Gold,
    Bead::Green,
    Bead::Amber,
    Bead::Red,
    Bead::Pink,
];

#[test]
fn fresh_store_has_nine_entries_at_the_initial_weight() {
    let m = Matchbox::new();
    assert_eq!(INITIAL_WEIGHT, 16);
    for bead in ALL_BEADS {
        assert_eq!(m.weight(bead), INITIAL_WEIGHT);
    }
}

#[test]
fn reward_increments_only_the_chosen_bead() {
    let mut m = Matchbox::new();
    m.add(Bead::Gold);
    assert_eq!(m.weight(Bead::Gold), INITIAL_WEIGHT + 1);
    for bead in ALL_BEADS {
        if bead != Bead::Gold {
            assert_eq!(m.weight(bead), INITIAL_WEIGHT);
        }
    }
}

#[test]
fn reward_is_strictly_increasing() {
    let mut m = Matchbox::new();
    let mut last = m.weight(Bead::Red);
    for _ in 0..1000 {
        m.add(Bead::Red);
        let now = m.weight(Bead::Red);
        assert!(now > last);
        last = now;
    }
    assert_eq!(last, INITIAL_WEIGHT + 1000);
}

#[test]
fn punish_decrements_by_one() {
    let mut m = Matchbox::new();
    m.remove(Bead::Pink);
    assert_eq!(m.weight(Bead::Pink), INITIAL_WEIGHT - 1);
}

#[test]
fn punish_never_drops_a_weight_below_one() {
    let mut m = Matchbox::new();
    for _ in 0..100 {
        m.remove(Bead::White);
        assert!(m.weight(Bead::White) >= 1);
    }
    assert_eq!(m.weight(Bead::White), 1);
    // A later reward still lifts the move back up: it was never excluded.
    m.add(Bead::White);
    assert_eq!(m.weight(Bead::White), 2);
}

#[test]
fn unvisited_board_has_no_store() {
    let p = Player::new(Mark::X);
    let board = Board::new();
    assert_eq!(p.weight_of(&board, Bead::Gold), None);
}

#[test]
fn ensure_store_creates_a_fresh_store_once() {
    let mut p = Player::new(Mark::X);
    let board = Board::new();
    p.ensure_store(&board);
    for bead in ALL_BEADS {
        assert_eq!(p.weight_of(&board, bead), Some(INITIAL_WEIGHT));
    }
    // A second visit keeps the store, changes included.
    p.reward_times(&board, Bead::Amber, 2);
    p.ensure_store(&board);
    assert_eq!(p.weight_of(&board, Bead::Amber), Some(INITIAL_WEIGHT + 2));
}

#[test]
fn stores_are_kept_per_board_state() {
    let mut p = Player::new(Mark::O);
    let empty = Board::new();
    let mut after_one = Board::new();
    after_one.place(0, 0, Mark::X);
    p.ensure_store(&empty);
    p.ensure_store(&after_one);
    p.reward_times(&empty, Bead::Gold, 5);
    assert_eq!(p.weight_of(&empty, Bead::Gold), Some(INITIAL_WEIGHT + 5));
    assert_eq!(p.weight_of(&after_one, Bead::Gold), Some(INITIAL_WEIGHT));
}

#[test]
fn player_keeps_its_mark() {
    let p = Player::new(Mark::O);
    assert_eq!(p.symbol(), Mark::O);
}
