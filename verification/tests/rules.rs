use menace::bead::{Bead, bead_to_position, position_to_bead};
use menace::board::{Board, Cell, Mark, has_won, is_board_complete};

const ALL_BEADS: [Bead; 9] = [
    Bead::White,
    Bead::Lilac,
    Bead::Silver,
    Bead::Black,
    Bead::Gold,
    Bead::Green,
    Bead::Amber,
    Bead::Red,
    Bead::Pink,
];

#[test]
fn label_position_round_trip() {
    for i in 0..3 {
        for j in 0..3 {
            let bead = position_to_bead(i, j);
            assert_eq!(bead_to_position(bead), (i, j));
        }
    }
}

#[test]
fn position_label_round_trip() {
    for bead in ALL_BEADS {
        let (i, j) = bead_to_position(bead);
        assert_eq!(position_to_bead(i, j), bead);
    }
}

#[test]
fn labels_cover_distinct_positions() {
    let mut seen = [[false; 3]; 3];
    for bead in ALL_BEADS {
        let (i, j) = bead_to_position(bead);
        assert!(i < 3 && j < 3);
        assert!(!seen[i][j]);
        seen[i][j] = true;
    }
}

fn board_of(rows: [[char; 3]; 3]) -> Board {
    let mut b = Board::new();
    for i in 0..3 {
        for j in 0..3 {
            match rows[i][j] {
                'x' => b.place(i, j, Mark::X),
                'o' => b.place(i, j, Mark::O),
                _ => {}
            }
        }
    }
    b
}

#[test]
fn has_won_all_eight_lines() {
    let lines = [
        [(0, 0), (0, 1), (0, 2)],
        [(1, 0), (1, 1), (1, 2)],
        [(2, 0), (2, 1), (2, 2)],
        [(0, 0), (1, 0), (2, 0)],
        [(0, 1), (1, 1), (2, 1)],
        [(0, 2), (1, 2), (2, 2)],
        [(0, 0), (1, 1), (2, 2)],
        [(0, 2), (1, 1), (2, 0)],
    ];
    for line in lines {
        let mut b = Board::new();
        for (i, j) in line {
            b.place(i, j, Mark::X);
        }
        assert!(has_won(Mark::X, &b));
        assert!(!has_won(Mark::O, &b));
    }
}

#[test]
fn has_won_false_on_empty_board() {
    let b = Board::new();
    assert!(!has_won(Mark::X, &b));
    assert!(!has_won(Mark::O, &b));
}

#[test]
fn has_won_false_when_every_line_is_mixed() {
    // A full board where every row, column, and diagonal holds both marks.
    let b = board_of([['x', 'o', 'x'], ['x', 'o', 'o'], ['o', 'x', 'x']]);
    assert!(is_board_complete(&b));
    assert!(!has_won(Mark::X, &b));
    assert!(!has_won(Mark::O, &b));
}

#[test]
fn has_won_false_on_two_in_a_row() {
    let b = board_of([['x', 'x', ' '], [' ', ' ', ' '], [' ', ' ', ' ']]);
    assert!(!has_won(Mark::X, &b));
}

#[test]
fn win_on_full_board_is_a_win_not_a_tie() {
    let b = board_of([['x', 'x', 'x'], ['o', 'o', 'x'], ['x', 'o', 'o']]);
    assert!(is_board_complete(&b));
    assert!(has_won(Mark::X, &b));
}

#[test]
fn fresh_board_is_not_complete() {
    let b = Board::new();
    assert!(!is_board_complete(&b));
    for i in 0..3 {
        for j in 0..3 {
            assert_eq!(b.cell(i, j), Cell::Empty);
        }
    }
}

#[test]
fn board_with_one_empty_cell_is_not_complete() {
    let b = board_of([['x', 'o', 'x'], ['x', 'o', 'o'], ['o', 'x', ' ']]);
    assert!(!is_board_complete(&b));
}

#[test]
fn full_board_is_complete() {
    let b = board_of([['x', 'o', 'x'], ['x', 'o', 'o'], ['o', 'x', 'x']]);
    assert!(is_board_complete(&b));
}

#[test]
fn place_writes_the_named_cell() {
    let mut b = Board::new();
    b.place(1, 2, Mark::O);
    assert_eq!(b.cell(1, 2), Cell::Taken(Mark::O));
    assert_eq!(b.cell(2, 1), Cell::Empty);
}
