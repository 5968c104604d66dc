use vstd::prelude::*;
use crate::coordinates::Coordinates;

verus! {

/// What a square of the board holds.
#[derive(Clone, Copy, Debug, PartialEq, Eq, Structural)]
pub enum Cell {
    Empty,
    SnakeBody,
    Food,
}

/// A board as columns: `board[x][y]` is the square at `(x, y)`.
pub type Board = Vec<Vec<Cell>>;

/// Whether `g` has `w` columns of `h` squares each.
pub open spec fn shaped(g: Seq<Seq<Cell>>, w: int, h: int) -> bool {
    &&& g.len() == w
    &&& forall|i: int| 0 <= i < w ==> (#[trigger] g[i]).len() == h
}

/// Whether `c` is a square of a board of `w` columns and `h` rows.
pub open spec fn within(c: Coordinates, w: int, h: int) -> bool {
    0 <= c.x < w && 0 <= c.y < h
}

/// The square of `g` at `c`.
pub open spec fn cell_at(g: Seq<Seq<Cell>>, c: Coordinates) -> Cell {
    g[c.x as int][c.y as int]
}

/// The contents of `board`, column by column.
pub open spec fn squares(board: Seq<Vec<Cell>>) -> Seq<Seq<Cell>> {
    board.map_values(|col: Vec<Cell>| col@)
}

/// `g` with the square at `c` holding `v`.
pub open spec fn put(g: Seq<Seq<Cell>>, c: Coordinates, v: Cell) -> Seq<Seq<Cell>> {
    g.update(c.x as int, g[c.x as int].update(c.y as int, v))
}

/// The squares of a board of `w` columns and `h` rows.
pub open spec fn all_squares(w: int, h: int) -> Set<Coordinates> {
    Set::new(|c: Coordinates| within(c, w, h))
}

/// The squares of column `x`, down to row `h`.
pub open spec fn column(x: int, h: int) -> Set<Coordinates> {
    Set::new(|c: Coordinates| c.x == x && 0 <= c.y < h)
}

proof fn lemma_column_len(x: int, h: int)
    requires
        0 <= x <= i32::MAX,
        0 <= h <= i32::MAX,
    ensures
        column(x, h).finite(),
        column(x, h).len() == h,
    decreases h,
{
    if h == 0 {
        assert(column(x, 0) =~= Set::empty());
    } else {
        lemma_column_len(x, h - 1);
        let c = Coordinates { x: x as i32, y: (h - 1) as i32 };
        assert(column(x, h) =~= column(x, h - 1).insert(c));
    }
}

/// A board of `w` columns and `h` rows has `w * h` squares.
pub proof fn lemma_grid_len(w: int, h: int)
    requires
        0 <= w <= i32::MAX,
        0 <= h <= i32::MAX,
    ensures
        all_squares(w, h).finite(),
        all_squares(w, h).len() == w * h,
    decreases w,
{
    if w == 0 {
        assert(all_squares(0, h) =~= Set::empty());
    } else {
        lemma_grid_len(w - 1, h);
        lemma_column_len(w - 1, h);
        assert(all_squares(w, h) =~= all_squares(w - 1, h) + column(w - 1, h));
        assert(all_squares(w - 1, h).disjoint(column(w - 1, h)));
        vstd::set_lib::lemma_set_disjoint_lens(all_squares(w - 1, h), column(w - 1, h));
        assert(w * h == (w - 1) * h + h) by (nonlinear_arith);
    }
}

/// Distinct squares of a board of `w` columns and `h` rows number at most `w * h`; with
/// fewer, some square of the board is not among them.
pub proof fn lemma_room_left(s: Seq<Coordinates>, w: int, h: int)
    requires
        0 <= w <= i32::MAX,
        0 <= h <= i32::MAX,
        s.no_duplicates(),
        forall|i: int| 0 <= i < s.len() ==> within(#[trigger] s[i], w, h),
    ensures
        s.len() <= w * h,
        s.len() < w * h ==> exists|c: Coordinates| within(c, w, h) && !s.contains(c),
{
    lemma_grid_len(w, h);
    s.unique_seq_to_set();
    assert(s.to_set().subset_of(all_squares(w, h)));
    vstd::set_lib::lemma_len_subset(s.to_set(), all_squares(w, h));
    if s.len() < w * h {
        if forall|c: Coordinates| within(c, w, h) ==> s.contains(c) {
            assert(all_squares(w, h).subset_of(s.to_set()));
            vstd::set_lib::lemma_len_subset(all_squares(w, h), s.to_set());
        }
    }
}

/// A board of `w` empty columns of `h` squares.
pub fn empty_board(w: usize, h: usize) -> (r: Board)
    ensures
        shaped(squares(r@), w as int, h as int),
        forall|c: Coordinates| within(c, w as int, h as int) ==> cell_at(squares(r@), c) == Cell::Empty,
{
    let mut board: Board = Vec::new();
    let mut i: usize = 0;
    while i < w
        invariant
            i <= w,
            shaped(squares(board@), i as int, h as int),
            forall|c: Coordinates| within(c, i as int, h as int) ==> cell_at(squares(board@), c) == Cell::Empty,
        decreases w - i,
    {
        let col: Vec<Cell> = vec![Cell::Empty; h];
        assert(forall|j: int| 0 <= j < h ==> col@[j] == Cell::Empty);
        let ghost before = board@;
        board.push(col);
        assert(squares(board@) =~= squares(before).push(col@));
        assert forall|c: Coordinates| within(c, i + 1, h as int) implies cell_at(squares(board@), c)
            == Cell::Empty by {
            if c.x < i {
                assert(within(c, i as int, h as int));
                assert(cell_at(squares(before), c) == Cell::Empty);
            }
        }
        i = i + 1;
    }
    board
}

/// The square of `board` at `c`.
pub fn get_cell(board: &Board, c: Coordinates) -> (r: Cell)
    requires
        0 <= c.x < squares(board@).len(),
        0 <= c.y < squares(board@)[c.x as int].len(),
    ensures
        r == cell_at(squares(board@), c),
{
    board[c.x as usize][c.y as usize]
}

/// Puts `v` on the square of `board` at `c`.
pub fn set_cell(board: &mut Board, c: Coordinates, v: Cell)
    requires
        0 <= c.x < squares(old(board)@).len(),
        0 <= c.y < squares(old(board)@)[c.x as int].len(),
    ensures
        squares(final(board)@) == put(squares(old(board)@), c, v),
        final(board)@.len() == old(board)@.len(),
        forall|i: int|
            0 <= i < old(board)@.len() ==> (#[trigger] squares(final(board)@)[i]).len() == squares(
                old(board)@,
            )[i].len(),
        forall|d: Coordinates|
            0 <= d.x < old(board)@.len() && 0 <= d.y < squares(old(board)@)[d.x as int].len()
                ==> #[trigger] cell_at(squares(final(board)@), d) == if d == c {
                v
            } else {
                cell_at(squares(old(board)@), d)
            },
{
    board[c.x as usize][c.y as usize] = v;
}

} // verus!
