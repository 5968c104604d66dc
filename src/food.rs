use vstd::prelude::*;
use crate::board::{cell_at, get_cell, shaped, squares, within, Board, Cell};
use crate::coordinates::Coordinates;

verus! {

/// Relies on `rand::random`: a value drawn from the thread's generator; nothing is known of it.
pub assume_specification<T>[ rand::random::<T> ]() -> (r: T)
    where
        rand::distributions::Standard: rand::distributions::Distribution<T>,
;

/// Relies on `num::abs`: the magnitude of `v`, which fits an `i32` for every value but the least.
#[verifier::external_body]
fn abs_i32(v: i32) -> (r: i32)
    requires
        v > i32::MIN,
    ensures
        r == if v < 0 { -v } else { v as int },
{
    num::abs(v)
}

/// Draws in rejection sampling before the full scan takes over. With at least a fifth of
/// the board free, every draw finds a free square with a chance of one in five or more.
pub const SAMPLE_ATTEMPTS: u32 = 1000;

/// The magnitude of `v`, as a mathematical integer.
pub open spec fn magnitude(v: i32) -> int {
    if v < 0 {
        -(v as int)
    } else {
        v as int
    }
}

/// The magnitude of `v` modulo `n`: how a drawn number becomes a number in `0..n`.
pub fn magnitude_mod(v: i32, n: i32) -> (r: i32)
    requires
        n > 0,
    ensures
        r == magnitude(v) % (n as int),
        0 <= r < n,
{
    if v == i32::MIN {
        // the magnitude of the least i32 is one more than the greatest
        proof {
            vstd::arithmetic::div_mod::lemma_add_mod_noop_right(1, i32::MAX as int, n as int);
        }
        (i32::MAX % n + 1) % n
    } else {
        abs_i32(v) % n
    }
}

/// A random number in `0..n`: the magnitude of a random `i32`, modulo `n`.
pub fn random_below(n: i32) -> (r: i32)
    requires
        n > 0,
    ensures
        0 <= r < n,
{
    magnitude_mod(rand::random::<i32>(), n)
}

/// The square of a board of `w` columns and `h` rows that the drawn numbers `vx` and `vy`
/// name.
pub open spec fn drawn_square(vx: i32, vy: i32, w: int, h: int) -> Coordinates {
    Coordinates { x: (magnitude(vx) % w) as i32, y: (magnitude(vy) % h) as i32 }
}

/// The square that the drawn numbers `vx` and `vy` name on a board of `w` columns and `h`
/// rows.
pub fn sample_square(vx: i32, vy: i32, w: i32, h: i32) -> (r: Coordinates)
    requires
        w > 0,
        h > 0,
    ensures
        r == drawn_square(vx, vy, w as int, h as int),
        within(r, w as int, h as int),
{
    Coordinates::new(magnitude_mod(vx, w), magnitude_mod(vy, h))
}

/// The square at place `k` of a scan of a board of `h` rows, column by column.
pub open spec fn scan_square(k: int, h: int) -> Coordinates {
    Coordinates { x: (k / h) as i32, y: (k % h) as i32 }
}

/// The free squares of `g`, a board of `h` rows, among the first `n` squares of its scan,
/// in the order of the scan.
pub open spec fn free_prefix(g: Seq<Seq<Cell>>, h: int, n: nat) -> Seq<Coordinates>
    decreases n,
{
    if n == 0 {
        Seq::empty()
    } else {
        let before = free_prefix(g, h, (n - 1) as nat);
        let c = scan_square(n - 1, h);
        if cell_at(g, c) == Cell::Empty {
            before.push(c)
        } else {
            before
        }
    }
}

/// The free squares of `g`, a board of `w` columns and `h` rows, column by column.
pub open spec fn free_squares(g: Seq<Seq<Cell>>, w: int, h: int) -> Seq<Coordinates> {
    free_prefix(g, h, (w * h) as nat)
}

/// Whether `c` is a free square of `g`, a board of `w` columns and `h` rows.
pub open spec fn free(g: Seq<Seq<Cell>>, w: int, h: int, c: Coordinates) -> bool {
    within(c, w, h) && cell_at(g, c) == Cell::Empty
}

/// Every free square of `board`, column by column.
pub fn empty_cells(board: &Board, w: i32, h: i32) -> (r: Vec<Coordinates>)
    requires
        w >= 0,
        h >= 0,
        shaped(squares(board@), w as int, h as int),
    ensures
        r@ == free_squares(squares(board@), w as int, h as int),
        r@.len() <= w * h,
        forall|i: int| 0 <= i < r@.len() ==> free(squares(board@), w as int, h as int, #[trigger] r@[i]),
        forall|c: Coordinates| free(squares(board@), w as int, h as int, c) ==> r@.contains(c),
{
    let ghost g = squares(board@);
    let mut found: Vec<Coordinates> = Vec::new();
    let mut i: i32 = 0;
    while i < w
        invariant
            0 <= i <= w,
            h >= 0,
            g == squares(board@),
            shaped(g, w as int, h as int),
            found@.len() <= i * h,
            found@ == free_prefix(g, h as int, (i * h) as nat),
            forall|k: int| 0 <= k < found@.len() ==> free(g, w as int, h as int, #[trigger] found@[k]),
            forall|c: Coordinates| free(g, w as int, h as int, c) && c.x < i ==> found@.contains(c),
        decreases w - i,
    {
        let mut j: i32 = 0;
        while j < h
            invariant
                0 <= i < w,
                0 <= j <= h,
                g == squares(board@),
                shaped(g, w as int, h as int),
                found@.len() <= i * h + j,
                found@ == free_prefix(g, h as int, (i * h + j) as nat),
                forall|k: int| 0 <= k < found@.len() ==> free(g, w as int, h as int, #[trigger] found@[k]),
                forall|c: Coordinates|
                    free(g, w as int, h as int, c) && (c.x < i || (c.x == i && c.y < j))
                        ==> found@.contains(c),
            decreases h - j,
        {
            proof {
                assert(0 <= i * h) by (nonlinear_arith)
                    requires
                        0 <= i,
                        0 <= h,
                ;
                vstd::arithmetic::div_mod::lemma_fundamental_div_mod_converse(
                    i * h + j,
                    h as int,
                    i as int,
                    j as int,
                );
                assert(scan_square(i * h + j, h as int) == (Coordinates { x: i, y: j }));
            }
            if get_cell(board, Coordinates::new(i, j)) == Cell::Empty {
                let ghost before = found@;
                found.push(Coordinates::new(i, j));
                assert forall|c: Coordinates|
                    free(g, w as int, h as int, c) && (c.x < i || (c.x == i && c.y < j + 1))
                        implies found@.contains(c) by {
                    if c.x < i || (c.x == i && c.y < j) {
                        assert(before.contains(c));
                        let k = choose|k: int| 0 <= k < before.len() && before[k] == c;
                        assert(found@[k] == c);
                    } else {
                        assert(found@[found@.len() - 1] == c);
                    }
                }
            }
            j = j + 1;
        }
        assert((i + 1) * h == i * h + h) by (nonlinear_arith);
        i = i + 1;
    }
    found
}

/// The free square of `board` that the drawn number `v` picks from the list of all free
/// squares, column by column: the one at place `|v|` modulo their count.
pub fn pick_listed(board: &Board, w: i32, h: i32, v: i32) -> (r: Coordinates)
    requires
        w > 0,
        h > 0,
        w * h <= i32::MAX,
        shaped(squares(board@), w as int, h as int),
        exists|c: Coordinates| free(squares(board@), w as int, h as int, c),
    ensures
        ({
            let listed = free_squares(squares(board@), w as int, h as int);
            r == listed[magnitude(v) % (listed.len() as int)]
        }),
        free(squares(board@), w as int, h as int, r),
{
    let ghost g = squares(board@);
    let free_cells = empty_cells(board, w, h);
    proof {
        let c0 = choose|c: Coordinates| free(g, w as int, h as int, c);
        assert(free_cells@.contains(c0));
    }
    let k = magnitude_mod(v, free_cells.len() as i32);
    free_cells[k as usize]
}

/// One try of rejection sampling: the square that `vx` and `vy` name (see
/// `sample_square`) if it is free, nothing otherwise.
pub fn take_draw(board: &Board, w: i32, h: i32, vx: i32, vy: i32) -> (r: Option<Coordinates>)
    requires
        w > 0,
        h > 0,
        shaped(squares(board@), w as int, h as int),
    ensures
        r == if free(squares(board@), w as int, h as int, drawn_square(vx, vy, w as int, h as int)) {
            Some(drawn_square(vx, vy, w as int, h as int))
        } else {
            None
        },
        within(drawn_square(vx, vy, w as int, h as int), w as int, h as int),
{
    let c = sample_square(vx, vy, w, h);
    if get_cell(board, c) == Cell::Empty {
        Some(c)
    } else {
        None
    }
}

/// Tries random squares of `board`, at most `SAMPLE_ATTEMPTS` of them (see
/// `sample_square`), and gives the first free one. On a board with every square free the
/// first try succeeds.
pub fn sample_empty_cell(board: &Board, w: i32, h: i32) -> (r: Option<Coordinates>)
    requires
        w > 0,
        h > 0,
        shaped(squares(board@), w as int, h as int),
    ensures
        r matches Some(c) ==> free(squares(board@), w as int, h as int, c),
        (forall|c: Coordinates|
            within(c, w as int, h as int) ==> cell_at(squares(board@), c) == Cell::Empty)
            ==> r is Some,
{
    let ghost all_free = forall|c: Coordinates|
        within(c, w as int, h as int) ==> cell_at(squares(board@), c) == Cell::Empty;
    let mut attempt: u32 = 0;
    while attempt < SAMPLE_ATTEMPTS
        invariant
            shaped(squares(board@), w as int, h as int),
            w > 0,
            h > 0,
            all_free == forall|c: Coordinates|
                within(c, w as int, h as int) ==> cell_at(squares(board@), c) == Cell::Empty,
            all_free ==> attempt == 0,
        decreases SAMPLE_ATTEMPTS - attempt,
    {
        let vx: i32 = rand::random::<i32>();
        let vy: i32 = rand::random::<i32>();
        let taken = take_draw(board, w, h, vx, vy);
        if taken.is_some() {
            return taken;
        }
        attempt = attempt + 1;
    }
    None
}

/// A random free square of `board`, for a snake of `snake_length` squares. On a board
/// that the snake fills to more than four fifths every free square is listed and one is
/// drawn (see `pick_listed`); otherwise random squares are tried until one is free (see
/// `sample_empty_cell`), and the list is the fallback should every try fail.
pub fn pick_empty_cell(board: &Board, w: i32, h: i32, snake_length: i32) -> (r: Coordinates)
    requires
        w > 0,
        h > 0,
        w * h <= i32::MAX,
        shaped(squares(board@), w as int, h as int),
        exists|c: Coordinates| free(squares(board@), w as int, h as int, c),
    ensures
        free(squares(board@), w as int, h as int, r),
{
    assert(w * h > 0) by (nonlinear_arith)
        requires
            w > 0,
            h > 0,
    ;
    let cells: i64 = (w * h) as i64;
    if (snake_length as i64) <= cells * 4 / 5 {
        if let Some(c) = sample_empty_cell(board, w, h) {
            return c;
        }
    }
    pick_listed(board, w, h, rand::random::<i32>())
}

} // verus!
