//! The 3x3 grid: cells, win and completeness detection, and the encoding of
//! a whole board as a small integer.

use vstd::prelude::*;

verus! {

/// The symbol one of the two sides places on the board each turn.
#[derive(Clone, Copy, Debug, PartialEq, Eq, Structural)]
pub enum Mark {
    X,
    O,
}

/// One square of the grid: empty, or taken by a side's mark.
#[derive(Clone, Copy, Debug, PartialEq, Eq, Structural)]
pub enum Cell {
    Empty,
    Taken(Mark),
}

/// The flat index of the square at `(row, col)`, row-major.
pub open spec fn cell_index(row: int, col: int) -> int {
    3 * row + col
}

/// Three squares uniformly holding `m`.
pub open spec fn line_filled(s: Seq<Cell>, m: Mark, a: int, b: int, c: int) -> bool {
    s[a] == Cell::Taken(m) && s[b] == Cell::Taken(m) && s[c] == Cell::Taken(m)
}

/// `m` owns a full row, a full column, or a diagonal: the eight winning
/// line shapes, and nothing else.
pub open spec fn wins(s: Seq<Cell>, m: Mark) -> bool {
    ||| line_filled(s, m, 0, 1, 2)
    ||| line_filled(s, m, 3, 4, 5)
    ||| line_filled(s, m, 6, 7, 8)
    ||| line_filled(s, m, 0, 3, 6)
    ||| line_filled(s, m, 1, 4, 7)
    ||| line_filled(s, m, 2, 5, 8)
    ||| line_filled(s, m, 0, 4, 8)
    ||| line_filled(s, m, 2, 4, 6)
}

/// No square of the board is empty.
pub open spec fn board_full(s: Seq<Cell>) -> bool {
    forall|i: int| 0 <= i < 9 ==> s[i] != Cell::Empty
}

/// How many squares are still empty.
pub open spec fn empties_from(s: Seq<Cell>, k: int) -> nat
    decreases 9 - k,
{
    if k < 0 || k >= 9 {
        0
    } else {
        (if s[k] == Cell::Empty {
            1nat
        } else {
            0nat
        }) + empties_from(s, k + 1)
    }
}

pub open spec fn empties(s: Seq<Cell>) -> nat {
    empties_from(s, 0)
}

/// A 3x3 grid, stored row-major: the square at `(row, col)` sits at
/// `cells[3 * row + col]`.
#[derive(Clone, Copy, Debug)]
pub struct Board {
    pub cells: [Cell; 9],
}

impl View for Board {
    type V = Seq<Cell>;

    open spec fn view(&self) -> Seq<Cell> {
        self.cells@
    }
}

impl Board {
    /// A fresh board with every square empty.
    pub fn new() -> (b: Board)
        ensures
            b@.len() == 9,
            forall|i: int| 0 <= i < 9 ==> b@[i] == Cell::Empty,
    {
        Board {
            cells: [
                Cell::Empty,
                Cell::Empty,
                Cell::Empty,
                Cell::Empty,
                Cell::Empty,
                Cell::Empty,
                Cell::Empty,
                Cell::Empty,
                Cell::Empty,
            ],
        }
    }

    /// The square at `(row, col)`.
    pub fn cell(&self, row: usize, col: usize) -> (c: Cell)
        requires
            row < 3,
            col < 3,
        ensures
            c == self@[cell_index(row as int, col as int)],
    {
        self.cells[3 * row + col]
    }

    /// Write `m` onto the square at `(row, col)`.
    pub fn place(&mut self, row: usize, col: usize, m: Mark)
        requires
            row < 3,
            col < 3,
        ensures
            final(self)@ == old(self)@.update(cell_index(row as int, col as int), Cell::Taken(m)),
    {
        self.cells[3 * row + col] = Cell::Taken(m);
    }
}

/// True iff some full row, full column, or diagonal is uniformly `player`.
pub fn has_won(player: Mark, board: &Board) -> (r: bool)
    ensures
        r == wins(board@, player),
{
    let c = &board.cells;
    let m = Cell::Taken(player);
    (c[0] == m && c[1] == m && c[2] == m) || (c[3] == m && c[4] == m && c[5] == m) || (c[6] == m
        && c[7] == m && c[8] == m) || (c[0] == m && c[3] == m && c[6] == m) || (c[1] == m && c[4]
        == m && c[7] == m) || (c[2] == m && c[5] == m && c[8] == m) || (c[0] == m && c[4] == m
        && c[8] == m) || (c[2] == m && c[4] == m && c[6] == m)
}

/// True iff every square is taken.
pub fn is_board_complete(board: &Board) -> (r: bool)
    ensures
        r == board_full(board@),
{
    let mut i: usize = 0;
    while i < 9
        invariant
            i <= 9,
            forall|j: int| 0 <= j < i ==> board@[j] != Cell::Empty,
        decreases 9 - i,
    {
        if matches!(board.cells[i], Cell::Empty) {
            return false;
        }
        i = i + 1;
    }
    true
}

/// A board with every square empty.
pub open spec fn empty_board() -> Seq<Cell> {
    Seq::new(9, |i: int| Cell::Empty)
}

/// How many squares from `k` on hold the mark `m`.
pub open spec fn marks_from(s: Seq<Cell>, m: Mark, k: int) -> nat
    decreases 9 - k,
{
    if k < 0 || k >= 9 {
        0
    } else {
        (if s[k] == Cell::Taken(m) {
            1nat
        } else {
            0nat
        }) + marks_from(s, m, k + 1)
    }
}

/// How many squares of the board hold the mark `m`.
pub open spec fn mark_count(s: Seq<Cell>, m: Mark) -> nat {
    marks_from(s, m, 0)
}

/// An all-empty board holds no marks.
pub proof fn lemma_marks_empty(s: Seq<Cell>, m: Mark, k: int)
    requires
        forall|i: int| 0 <= i < 9 ==> s[i] == Cell::Empty,
    ensures
        marks_from(s, m, k) == 0,
    decreases 9 - k,
{
    if 0 <= k < 9 {
        lemma_marks_empty(s, m, k + 1);
    }
}

/// Placing a mark on an empty square raises that mark's count by one and
/// leaves the other mark's count unchanged.
pub proof fn lemma_marks_update(s: Seq<Cell>, k: int, placed: Mark, counted: Mark, j: int)
    requires
        s.len() == 9,
        0 <= j <= k < 9,
        s[k] == Cell::Empty,
    ensures
        placed == counted ==> marks_from(s.update(k, Cell::Taken(placed)), counted, j)
            == marks_from(s, counted, j) + 1,
        placed != counted ==> marks_from(s.update(k, Cell::Taken(placed)), counted, j)
            == marks_from(s, counted, j),
    decreases 9 - j,
{
    if j < k {
        lemma_marks_update(s, k, placed, counted, j + 1);
    } else {
        lemma_marks_unchanged_after(s, s.update(k, Cell::Taken(placed)), counted, k + 1);
    }
}

/// Counting marks from `j` on only reads the squares at `j` and beyond.
proof fn lemma_marks_unchanged_after(s: Seq<Cell>, t: Seq<Cell>, m: Mark, j: int)
    requires
        s.len() == 9,
        t.len() == 9,
        forall|i: int| j <= i < 9 ==> t[i] == s[i],
    ensures
        marks_from(t, m, j) == marks_from(s, m, j),
    decreases 9 - j,
{
    if 0 <= j < 9 {
        lemma_marks_unchanged_after(s, t, m, j + 1);
    }
}

/// A board whose squares are all empty — a freshly created one — is not
/// complete.
pub proof fn lemma_fresh_board_not_complete(s: Seq<Cell>)
    requires
        s.len() == 9,
        forall|i: int| 0 <= i < 9 ==> s[i] == Cell::Empty,
    ensures
        !board_full(s),
{
    assert(s[0] == Cell::Empty);
}

/// Placing a mark on an empty square leaves one empty square fewer.
pub proof fn lemma_empties_update(s: Seq<Cell>, k: int, m: Mark, j: int)
    requires
        s.len() == 9,
        0 <= j <= k < 9,
        s[k] == Cell::Empty,
    ensures
        empties_from(s.update(k, Cell::Taken(m)), j) + 1 == empties_from(s, j),
    decreases 9 - j,
{
    if j < k {
        lemma_empties_update(s, k, m, j + 1);
    } else {
        assert(forall|i: int| k < i < 9 ==> s.update(k, Cell::Taken(m))[i] == s[i]);
        lemma_empties_unchanged_after(s, s.update(k, Cell::Taken(m)), k + 1);
    }
}

/// Counting from `j` on only reads the squares at `j` and beyond.
proof fn lemma_empties_unchanged_after(s: Seq<Cell>, t: Seq<Cell>, j: int)
    requires
        s.len() == 9,
        t.len() == 9,
        forall|i: int| j <= i < 9 ==> t[i] == s[i],
    ensures
        empties_from(t, j) == empties_from(s, j),
    decreases 9 - j,
{
    if 0 <= j < 9 {
        lemma_empties_unchanged_after(s, t, j + 1);
    }
}

/// The code of one square: 0 empty, 1 for the first mark, 2 for the second.
pub open spec fn cell_code(c: Cell) -> int {
    match c {
        Cell::Empty => 0,
        Cell::Taken(Mark::X) => 1,
        Cell::Taken(Mark::O) => 2,
    }
}

/// How many distinct boards there are: each of the 9 squares holds one of
/// 3 values.
pub const BOARD_STATES: usize = 19683;

/// The board read as a base-3 numeral, first square most significant.
pub open spec fn board_index_spec(s: Seq<Cell>) -> int {
    let r0 = cell_code(s[0]);
    let r1 = r0 * 3 + cell_code(s[1]);
    let r2 = r1 * 3 + cell_code(s[2]);
    let r3 = r2 * 3 + cell_code(s[3]);
    let r4 = r3 * 3 + cell_code(s[4]);
    let r5 = r4 * 3 + cell_code(s[5]);
    let r6 = r5 * 3 + cell_code(s[6]);
    let r7 = r6 * 3 + cell_code(s[7]);
    r7 * 3 + cell_code(s[8])
}

/// The board index is always one of the `BOARD_STATES` codes.
pub proof fn lemma_board_index_spec_bounds(s: Seq<Cell>)
    ensures
        0 <= board_index_spec(s) < 19683,
{
    assert(0 <= cell_code(s[0]) <= 2);
    assert(0 <= cell_code(s[1]) <= 2);
    assert(0 <= cell_code(s[2]) <= 2);
    assert(0 <= cell_code(s[3]) <= 2);
    assert(0 <= cell_code(s[4]) <= 2);
    assert(0 <= cell_code(s[5]) <= 2);
    assert(0 <= cell_code(s[6]) <= 2);
    assert(0 <= cell_code(s[7]) <= 2);
    assert(0 <= cell_code(s[8]) <= 2);
}

fn code_of(c: Cell) -> (r: usize)
    ensures
        r == cell_code(c),
        r <= 2,
{
    match c {
        Cell::Empty => 0,
        Cell::Taken(Mark::X) => 1,
        Cell::Taken(Mark::O) => 2,
    }
}

/// The distinct index of this board among all `BOARD_STATES` boards.
#[verifier::rlimit(60)]
pub fn board_index(board: &Board) -> (r: usize)
    ensures
        r == board_index_spec(board@),
        r < BOARD_STATES,
{
    let c = &board.cells;
    let r0 = code_of(c[0]);
    let r1 = r0 * 3 + code_of(c[1]);
    assert(r1 <= 8);
    let r2 = r1 * 3 + code_of(c[2]);
    assert(r2 <= 26);
    let r3 = r2 * 3 + code_of(c[3]);
    assert(r3 <= 80);
    let r4 = r3 * 3 + code_of(c[4]);
    assert(r4 <= 242);
    let r5 = r4 * 3 + code_of(c[5]);
    assert(r5 <= 728);
    let r6 = r5 * 3 + code_of(c[6]);
    assert(r6 <= 2186);
    let r7 = r6 * 3 + code_of(c[7]);
    assert(r7 <= 6560);
    r7 * 3 + code_of(c[8])
}

} // verus!
