use vstd::prelude::*;
use std::collections::VecDeque;
use crate::board::{
    cell_at, empty_board, lemma_room_left, put, set_cell, shaped, squares, within, Board, Cell,
};
use crate::coordinates::{Coordinates, SnakeDirection};
use crate::difficulty::GameDifficulty;
use crate::food::{free, pick_empty_cell};
use crate::input::{lemma_no_reverse, buffered, new_buffer, push_key, read_direction, resolve, after_key, InputBuffer};

verus! {

/// Length of the snake when a game starts.
pub const INIT_SNAKE_SIZE: i32 = 4;

/// A game in play: the board, the snake on it, the food, the score and the keys that
/// wait to be read.
pub struct SnakeGame {
    /// Columns in `x`, rows in `y`.
    pub board_size: Coordinates,
    pub board: Board,
    pub snake_head_position: Coordinates,
    /// Head first.
    pub snake_body: VecDeque<Coordinates>,
    pub snake_direction: SnakeDirection,
    pub food_position: Coordinates,
    pub points: i32,
    pub input_buffer: InputBuffer,
    pub difficulty: GameDifficulty,
}

impl SnakeGame {
    pub open spec fn width(self) -> int {
        self.board_size.x as int
    }

    pub open spec fn height(self) -> int {
        self.board_size.y as int
    }

    /// The board, column by column.
    pub open spec fn grid(self) -> Seq<Seq<Cell>> {
        squares(self.board@)
    }

    pub open spec fn cell(self, c: Coordinates) -> Cell {
        cell_at(self.grid(), c)
    }

    pub open spec fn in_bounds(self, c: Coordinates) -> bool {
        within(c, self.width(), self.height())
    }

    /// The squares of the snake, head first.
    pub open spec fn body(self) -> Seq<Coordinates> {
        self.snake_body@
    }

    /// The game ends when the head leaves the board, when it meets the rest of the body,
    /// or when the snake fills the board.
    pub open spec fn over(self) -> bool {
        ||| !self.in_bounds(self.snake_head_position)
        ||| self.body().skip(1).contains(self.snake_head_position)
        ||| self.points == self.width() * self.height() - INIT_SNAKE_SIZE
    }

    /// The squares of the board that hold part of the snake.
    pub open spec fn marked(self) -> Set<Coordinates> {
        Set::new(|c: Coordinates| self.in_bounds(c) && self.cell(c) == Cell::SnakeBody)
    }

    /// The squares of the board that hold food.
    pub open spec fn food_squares(self) -> Set<Coordinates> {
        Set::new(|c: Coordinates| self.in_bounds(c) && self.cell(c) == Cell::Food)
    }

    /// A board of at least ten by ten squares, whose square count fits an `i32`.
    pub open spec fn sized(self) -> bool {
        &&& 10 <= self.board_size.x
        &&& 10 <= self.board_size.y
        &&& self.width() * self.height() <= i32::MAX
        &&& shaped(self.grid(), self.width(), self.height())
    }

    /// The snake lies on the board without crossing itself, the squares marked as snake
    /// are exactly its squares, and the score counts its growth.
    pub open spec fn snake_laid(self) -> bool {
        &&& self.sized()
        &&& self.body().len() >= INIT_SNAKE_SIZE
        &&& self.body()[0] == self.snake_head_position
        &&& forall|i: int| 0 <= i < self.body().len() ==> self.in_bounds(#[trigger] self.body()[i])
        &&& self.body().no_duplicates()
        &&& forall|c: Coordinates|
            #![trigger self.cell(c)]
            #![trigger self.body().contains(c)]
            self.in_bounds(c) ==> (self.cell(c) == Cell::SnakeBody <==> self.body().contains(c))
        &&& self.points == self.body().len() - INIT_SNAKE_SIZE
    }

    /// A game still in play: the snake is laid out on the board (see `snake_laid`) and
    /// exactly one square, `food_position`, holds food.
    pub open spec fn wf(self) -> bool {
        &&& self.snake_laid()
        &&& self.in_bounds(self.food_position)
        &&& forall|c: Coordinates|
            #![trigger self.cell(c)]
            self.in_bounds(c) ==> (self.cell(c) == Cell::Food <==> c == self.food_position)
    }

    /// The opening layout on a board of `board_size`: the head at (6, 5) with three squares
    /// to its left, moving right, and the food on row 5 halfway between the head and the
    /// right edge.
    pub open spec fn opening(self, board_size: Coordinates, difficulty: GameDifficulty) -> bool {
        &&& self.board_size == board_size
        &&& self.snake_head_position == Coordinates { x: 6, y: 5 }
        &&& self.body() == seq![
            Coordinates { x: 6, y: 5 },
            Coordinates { x: 5, y: 5 },
            Coordinates { x: 4, y: 5 },
            Coordinates { x: 3, y: 5 },
        ]
        &&& self.snake_direction == SnakeDirection::Right
        &&& self.food_position == Coordinates { x: ((board_size.x + 6) / 2) as i32, y: 5 }
        &&& self.points == 0
        &&& buffered(self.input_buffer) == Seq::<u8>::empty()
        &&& self.difficulty == difficulty
    }

    /// `after` is `self` once the snake, asked for direction `d`, has moved one square,
    /// leaving `tail`. A request to turn back is ignored and the snake keeps its direction.
    /// The tail square is emptied first, then the new head is marked if it lies on the
    /// board. The new head may lie off the board or on the body.
    pub open spec fn moved_to(self, after: SnakeGame, d: SnakeDirection, tail: Coordinates) -> bool {
        let d = self.snake_direction.steer(d);
        let nh = self.snake_head_position.neighbour(d);
        let cleared = put(self.grid(), tail, Cell::Empty);
        &&& tail == self.body().last()
        &&& after.snake_direction == d
        &&& after.snake_head_position == nh
        &&& after.body() == seq![nh] + self.body().drop_last()
        &&& after.grid() == if self.in_bounds(nh) {
            put(cleared, nh, Cell::SnakeBody)
        } else {
            cleared
        }
        &&& after.board_size == self.board_size
        &&& after.food_position == self.food_position
        &&& after.points == self.points
        &&& after.input_buffer == self.input_buffer
        &&& after.difficulty == self.difficulty
    }

    /// A game on a board of `board_size`, at medium speed.
    pub fn new(board_size: Coordinates) -> (r: SnakeGame)
        requires
            board_size.x >= 10,
            board_size.y >= 10,
            board_size.x * board_size.y <= i32::MAX,
        ensures
            r.wf(),
            r.opening(board_size, GameDifficulty::Medium),
            r.marked().len() == r.body().len(),
    {
        Self::init_new(board_size, GameDifficulty::Medium)
    }

    /// A game on a board of `board_size`, at the speed of `difficulty`.
    pub fn new_with_difficulty(board_size: Coordinates, difficulty: GameDifficulty) -> (r: SnakeGame)
        requires
            board_size.x >= 10,
            board_size.y >= 10,
            board_size.x * board_size.y <= i32::MAX,
        ensures
            r.wf(),
            r.opening(board_size, difficulty),
            r.marked().len() == r.body().len(),
    {
        Self::init_new(board_size, difficulty)
    }

    fn init_new(board_size: Coordinates, difficulty: GameDifficulty) -> (r: SnakeGame)
        requires
            board_size.x >= 10,
            board_size.y >= 10,
            board_size.x * board_size.y <= i32::MAX,
        ensures
            r.wf(),
            r.opening(board_size, difficulty),
            r.marked().len() == r.body().len(),
    {
        let w = board_size.x;
        let h = board_size.y;
        let mut board = empty_board(w as usize, h as usize);
        let snake_head_position = Coordinates::new(6, 5);
        let mut snake_body: VecDeque<Coordinates> = VecDeque::new();
        let mut current_position = snake_head_position;
        let mut i: i32 = 0;
        while i < INIT_SNAKE_SIZE
            invariant
                10 <= w,
                10 <= h,
                0 <= i <= INIT_SNAKE_SIZE,
                current_position == (Coordinates { x: (6 - i) as i32, y: 5 }),
                snake_body@.len() == i,
                forall|k: int| 0 <= k < i ==> #[trigger] snake_body@[k] == (Coordinates { x: (6 - k) as i32, y: 5 }),
                shaped(squares(board@), w as int, h as int),
                forall|c: Coordinates|
                    #![trigger cell_at(squares(board@), c)]
                    within(c, w as int, h as int) ==> cell_at(squares(board@), c) == if c.y == 5 && 6 - i < c.x <= 6 {
                        Cell::SnakeBody
                    } else {
                        Cell::Empty
                    },
            decreases INIT_SNAKE_SIZE - i,
        {
            set_cell(&mut board, current_position, Cell::SnakeBody);
            snake_body.push_back(current_position);
            current_position.move_left();
            i = i + 1;
        }
        assert(w <= i32::MAX / 10) by (nonlinear_arith)
            requires
                w * h <= i32::MAX,
                h >= 10,
        ;
        let half_way = (w + 6) / 2;
        let food_position = Coordinates::new(half_way, 5);
        set_cell(&mut board, food_position, Cell::Food);
        let r = SnakeGame {
            board_size,
            board,
            snake_head_position,
            snake_body,
            snake_direction: SnakeDirection::Right,
            food_position,
            points: 0,
            input_buffer: new_buffer(),
            difficulty,
        };
        assert(r.body() =~= seq![
            Coordinates { x: 6, y: 5 },
            Coordinates { x: 5, y: 5 },
            Coordinates { x: 4, y: 5 },
            Coordinates { x: 3, y: 5 },
        ]);
        proof {
            lemma_marked_count(r);
        }
        r
    }

    /// Whether the game has ended (see `over`).
    pub fn is_over(&self) -> (r: bool)
        requires
            self.sized(),
            self.body().len() >= 1,
        ensures
            r == self.over(),
    {
        if !self.is_in_bound(&self.snake_head_position) {
            return true;
        }
        let n = self.snake_body.len();
        let mut i: usize = 1;
        while i < n
            invariant
                1 <= i <= n,
                n == self.body().len(),
                forall|k: int| 1 <= k < i ==> self.body()[k] != self.snake_head_position,
            decreases n - i,
        {
            if self.snake_body[i] == self.snake_head_position {
                assert(self.body().skip(1)[i - 1] == self.snake_head_position);
                return true;
            }
            i = i + 1;
        }
        assert(!self.body().skip(1).contains(self.snake_head_position)) by {
            if self.body().skip(1).contains(self.snake_head_position) {
                let k = choose|k: int|
                    0 <= k < self.body().skip(1).len() && self.body().skip(1)[k]
                        == self.snake_head_position;
                assert(self.body()[k + 1] == self.snake_head_position);
            }
        }
        self.points == self.board_size.x * self.board_size.y - INIT_SNAKE_SIZE
    }

    pub fn is_moving_horizontally(&self) -> (r: bool)
        ensures
            r == self.snake_direction.horizontal(),
    {
        self.snake_direction.is_horizontal()
    }

    pub fn is_moving_vertically(&self) -> (r: bool)
        ensures
            r == self.snake_direction.vertical(),
    {
        self.snake_direction.is_vertical()
    }

    /// Whether `position` is a square of the board.
    pub fn is_in_bound(&self, position: &Coordinates) -> (r: bool)
        ensures
            r == self.in_bounds(*position),
    {
        position.x >= 0 && position.x < self.board_size.x && position.y >= 0 && position.y
            < self.board_size.y
    }

    /// Takes the byte `key` of the keyboard in: kept if it can belong to an arrow key and
    /// fewer than `INPUT_CAPACITY` bytes wait, dropped otherwise.
    pub fn add_to_input_buffer(&mut self, key: u8)
        ensures
            buffered(final(self).input_buffer) == after_key(buffered(old(self).input_buffer), key),
            final(self).board_size == old(self).board_size,
            final(self).board == old(self).board,
            final(self).snake_head_position == old(self).snake_head_position,
            final(self).snake_body == old(self).snake_body,
            final(self).snake_direction == old(self).snake_direction,
            final(self).food_position == old(self).food_position,
            final(self).points == old(self).points,
            final(self).difficulty == old(self).difficulty,
    {
        push_key(&mut self.input_buffer, key);
    }

    /// The direction for the next move, read from the waiting bytes (see `resolve`).
    pub fn get_direction_input(&mut self) -> (r: SnakeDirection)
        ensures
            (r, buffered(final(self).input_buffer)) == resolve(
                buffered(old(self).input_buffer),
                old(self).snake_direction,
            ),
            final(self).board_size == old(self).board_size,
            final(self).board == old(self).board,
            final(self).snake_head_position == old(self).snake_head_position,
            final(self).snake_body == old(self).snake_body,
            final(self).snake_direction == old(self).snake_direction,
            final(self).food_position == old(self).food_position,
            final(self).points == old(self).points,
            final(self).difficulty == old(self).difficulty,
    {
        let current = self.snake_direction;
        read_direction(&mut self.input_buffer, current)
    }

    /// One tick of the game: reads the direction from the waiting keys, moves the snake
    /// one square that way, lets it eat, and tells whether the game is over. The snake
    /// grows by one square and the score by one point exactly when the new head lands on
    /// the food.
    pub fn tick(&mut self) -> (over: bool)
        requires
            old(self).wf(),
        ensures
            ({
                let read = resolve(buffered(old(self).input_buffer), old(self).snake_direction);
                let nh = old(self).snake_head_position.neighbour(read.0);
                let ate = nh == old(self).food_position;
                let tail = old(self).body().last();
                let cleared = put(old(self).grid(), tail, Cell::Empty);
                let moved_grid = if old(self).in_bounds(nh) {
                    put(cleared, nh, Cell::SnakeBody)
                } else {
                    cleared
                };
                &&& buffered(final(self).input_buffer) == read.1
                &&& final(self).snake_direction == read.0
                &&& final(self).snake_head_position == nh
                &&& final(self).body() == if ate {
                    seq![nh] + old(self).body()
                } else {
                    seq![nh] + old(self).body().drop_last()
                }
                &&& final(self).points == if ate {
                    old(self).points + 1
                } else {
                    old(self).points as int
                }
                &&& ate ==> final(self).cell(old(self).body().last()) == Cell::SnakeBody
                &&& ate ==> final(self).snake_laid()
                &&& !ate || over ==> final(self).food_position == old(self).food_position
                &&& final(self).grid() == if !ate {
                    moved_grid
                } else if over {
                    put(moved_grid, tail, Cell::SnakeBody)
                } else {
                    put(put(moved_grid, tail, Cell::SnakeBody), final(self).food_position, Cell::Food)
                }
            }),
            final(self).sized(),
            final(self).body().len() >= 1,
            final(self).board_size == old(self).board_size,
            final(self).difficulty == old(self).difficulty,
            over == final(self).over(),
            !over ==> final(self).wf(),
            !over ==> final(self).marked().len() == final(self).body().len(),
    {
        let direction_to_move = self.get_direction_input();
        let ghost before = *self;
        proof {
            lemma_same_play(*old(self), before);
            lemma_no_reverse(buffered(old(self).input_buffer), old(self).snake_direction);
        }
        let old_tail = self.move_snake(direction_to_move);
        self.try_eating(old_tail, Ghost(before));
        assert(old(self).body().drop_last().push(old_tail) =~= old(self).body());
        let over = self.is_over();
        proof {
            if !over {
                lemma_marked_count(*self);
            }
        }
        over
    }

    /// Moves the snake one square in `direction`, or on in its current direction if
    /// `direction` would turn it back, and gives the square that its tail left.
    fn move_snake(&mut self, direction: SnakeDirection) -> (old_tail: Coordinates)
        requires
            old(self).wf(),
        ensures
            old(self).moved_to(*final(self), direction, old_tail),
            final(self).in_bounds(final(self).snake_head_position) && !final(self).body().skip(
                1,
            ).contains(final(self).snake_head_position) ==> {
                &&& final(self).snake_laid()
                &&& final(self).marked().len() == final(self).body().len()
            },
    {
        let direction = self.snake_direction.steered(direction);
        self.snake_direction = direction;
        let new_head = self.snake_head_position.get_neighbour(direction);
        // the tail goes first: a head that takes the square the tail leaves must stay marked
        let old_tail = self.snake_body.pop_back().unwrap();
        set_cell(&mut self.board, old_tail, Cell::Empty);
        self.snake_head_position = new_head;
        self.snake_body.push_front(new_head);
        if self.is_in_bound(&new_head) {
            set_cell(&mut self.board, new_head, Cell::SnakeBody);
        }
        assert(self.body() =~= seq![new_head] + old(self).body().drop_last());
        proof {
            if self.in_bounds(new_head) && !self.body().skip(1).contains(new_head) {
                lemma_moved_in_play(*old(self), *self, old_tail);
                lemma_marked_count(*self);
            }
        }
        old_tail
    }

    /// Eats the food if the head has reached it: the score grows by one and the snake keeps
    /// `old_tail`, the square its tail has just left; new food is placed unless that ends
    /// the game.
    fn try_eating(&mut self, old_tail: Coordinates, before: Ghost<SnakeGame>)
        requires
            before@.wf(),
            before@.moved_to(*old(self), old(self).snake_direction, old_tail),
        ensures
            old(self).snake_head_position != old(self).food_position ==> *final(self) == *old(
                self,
            ),
            old(self).snake_head_position == old(self).food_position ==> {
                &&& final(self).points == old(self).points + 1
                &&& final(self).body() == old(self).body().push(old_tail)
                &&& final(self).cell(old_tail) == Cell::SnakeBody
                &&& final(self).snake_laid()
                &&& final(self).over() ==> final(self).grid() == put(
                    old(self).grid(),
                    old_tail,
                    Cell::SnakeBody,
                ) && final(self).food_position == old(self).food_position
                &&& !final(self).over() ==> final(self).grid() == put(
                    put(old(self).grid(), old_tail, Cell::SnakeBody),
                    final(self).food_position,
                    Cell::Food,
                )
            },
            final(self).board_size == old(self).board_size,
            final(self).snake_head_position == old(self).snake_head_position,
            final(self).snake_direction == old(self).snake_direction,
            final(self).input_buffer == old(self).input_buffer,
            final(self).difficulty == old(self).difficulty,
            final(self).sized(),
            final(self).body().len() >= 1,
            !final(self).over() ==> final(self).wf(),
    {
        proof {
            lemma_room_left(before@.body(), before@.width(), before@.height());
        }
        if self.snake_head_position == self.food_position {
            let ghost moved = *self;
            self.points = self.points + 1;
            self.snake_body.push_back(old_tail);
            set_cell(&mut self.board, old_tail, Cell::SnakeBody);
            proof {
                lemma_grown(before@, moved, old_tail, *self);
            }
            let ghost grown = *self;
            if !self.is_over() {
                self.generate_food();
                proof {
                    lemma_fed(grown, *self);
                }
            }
        } else {
            proof {
                if !self.over() {
                    lemma_moved_in_play(before@, *self, old_tail);
                }
            }
        }
    }

    /// Puts the food on the square at `position`.
    fn add_food(&mut self, position: Coordinates)
        requires
            old(self).sized(),
            old(self).in_bounds(position),
        ensures
            final(self).food_position == position,
            final(self).grid() == put(old(self).grid(), position, Cell::Food),
            final(self).board_size == old(self).board_size,
            final(self).snake_head_position == old(self).snake_head_position,
            final(self).snake_body == old(self).snake_body,
            final(self).snake_direction == old(self).snake_direction,
            final(self).points == old(self).points,
            final(self).input_buffer == old(self).input_buffer,
            final(self).difficulty == old(self).difficulty,
    {
        self.food_position = position;
        set_cell(&mut self.board, position, Cell::Food);
    }

    /// Puts the food on a random free square, unless the game is over.
    fn generate_food(&mut self)
        requires
            old(self).sized(),
            old(self).body().len() >= 1,
            old(self).body().len() <= old(self).width() * old(self).height(),
            !old(self).over() ==> exists|c: Coordinates|
                free(old(self).grid(), old(self).width(), old(self).height(), c),
        ensures
            old(self).over() ==> *final(self) == *old(self),
            !old(self).over() ==> {
                &&& free(old(self).grid(), old(self).width(), old(self).height(), final(self).food_position)
                &&& final(self).grid() == put(old(self).grid(), final(self).food_position, Cell::Food)
            },
            old(self).snake_laid() && !old(self).over() ==> !old(self).body().contains(
                final(self).food_position,
            ),
            (forall|c: Coordinates| old(self).in_bounds(c) ==> #[trigger] old(self).cell(c) != Cell::Food)
                && !old(self).over() ==> final(self).food_squares() == set![final(self).food_position],
            final(self).board_size == old(self).board_size,
            final(self).snake_head_position == old(self).snake_head_position,
            final(self).snake_body == old(self).snake_body,
            final(self).snake_direction == old(self).snake_direction,
            final(self).points == old(self).points,
            final(self).input_buffer == old(self).input_buffer,
            final(self).difficulty == old(self).difficulty,
    {
        let snake_length = self.snake_body.len() as i32;
        if self.is_over() {
            return;
        }
        let food_position = pick_empty_cell(
            &self.board,
            self.board_size.x,
            self.board_size.y,
            snake_length,
        );
        self.add_food(food_position);
        proof {
            let f = food_position;
            assert forall|c: Coordinates| self.in_bounds(c) implies #[trigger] self.cell(c) == if c == f {
                Cell::Food
            } else {
                old(self).cell(c)
            } by {
                assert(old(self).in_bounds(c));
            }
            if old(self).snake_laid() {
                assert(old(self).cell(f) == Cell::Empty);
            }
            if forall|c: Coordinates| old(self).in_bounds(c) ==> #[trigger] old(self).cell(c) != Cell::Food {
                assert(self.food_squares() =~= set![f]);
            }
        }
    }
}

/// Where the snake is laid out on the board, the squares marked as snake are as many as
/// the squares of the snake.
pub proof fn lemma_marked_count(g: SnakeGame)
    requires
        g.snake_laid(),
    ensures
        g.marked().finite(),
        g.marked().len() == g.body().len(),
{
    assert(g.marked() =~= g.body().to_set()) by {
        assert forall|c: Coordinates| g.body().contains(c) implies g.in_bounds(c) by {
            let k = choose|k: int| 0 <= k < g.body().len() && g.body()[k] == c;
            assert(g.in_bounds(g.body()[k]));
        }
    }
    g.body().unique_seq_to_set();
}

/// In a game in play exactly one square holds food, and it is not a square of the snake.
pub proof fn lemma_one_food(g: SnakeGame)
    requires
        g.wf(),
    ensures
        g.food_squares() == set![g.food_position],
        g.cell(g.food_position) == Cell::Food,
        !g.body().contains(g.food_position),
{
    assert(g.food_squares() =~= set![g.food_position]);
}

/// A game in play is not over.
pub proof fn lemma_in_play_not_over(g: SnakeGame)
    requires
        g.wf(),
    ensures
        !g.over(),
{
    lemma_room_left(g.body(), g.width(), g.height());
    lemma_one_food(g);
    assert(g.body().skip(1).contains(g.snake_head_position) ==> false) by {
        if g.body().skip(1).contains(g.snake_head_position) {
            let k = choose|k: int|
                0 <= k < g.body().skip(1).len() && g.body().skip(1)[k] == g.snake_head_position;
            assert(g.body()[k + 1] == g.body()[0]);
        }
    }
    // the food square lies on the board outside the snake, so the snake cannot fill it
    assert(g.body().len() < g.width() * g.height()) by {
        let s = g.body().push(g.food_position);
        assert(s.no_duplicates()) by {
            assert forall|i: int, j: int| 0 <= i < s.len() && 0 <= j < s.len() && i != j implies s[i]
                != s[j] by {
                if i < g.body().len() && j < g.body().len() {
                } else if i == g.body().len() {
                    assert(g.body().contains(s[j]));
                } else {
                    assert(g.body().contains(s[i]));
                }
            }
        }
        assert forall|i: int| 0 <= i < s.len() implies within(#[trigger] s[i], g.width(), g.height()) by {
            if i < g.body().len() {
                assert(g.in_bounds(g.body()[i]));
            }
        }
        lemma_room_left(s, g.width(), g.height());
    }
}

/// Two games that differ in their waiting keys and their direction alone are both in
/// play or neither.
proof fn lemma_same_play(a: SnakeGame, b: SnakeGame)
    requires
        a.wf(),
        a.board_size == b.board_size,
        a.board == b.board,
        a.snake_head_position == b.snake_head_position,
        a.snake_body == b.snake_body,
        a.food_position == b.food_position,
        a.points == b.points,
    ensures
        b.wf(),
{
    assert(a.grid() == b.grid());
    assert forall|c: Coordinates| #[trigger] b.cell(c) == a.cell(c) by {}
}

/// A move whose new head lies on the board off the rest of the body leaves the snake
/// laid out on the board; if the head has not reached the food, the game is still in play.
proof fn lemma_moved_in_play(before: SnakeGame, after: SnakeGame, tail: Coordinates)
    requires
        before.wf(),
        before.moved_to(after, after.snake_direction, tail),
        after.in_bounds(after.snake_head_position),
        !after.body().skip(1).contains(after.snake_head_position),
    ensures
        after.snake_laid(),
        after.snake_head_position != after.food_position ==> after.wf(),
{
    let b = before.body();
    let nh = after.snake_head_position;
    let rest = b.drop_last();
    assert(after.body().skip(1) =~= rest);
    assert(rest.no_duplicates());
    assert(!rest.contains(tail)) by {
        if rest.contains(tail) {
            let k = choose|k: int| 0 <= k < rest.len() && rest[k] == tail;
            assert(b[k] == b[b.len() - 1]);
        }
    }
    assert(b.contains(tail)) by {
        assert(b[b.len() - 1] == tail);
    }
    assert forall|c: Coordinates| #[trigger] b.contains(c) <==> (rest.contains(c) || c == tail) by {
        if b.contains(c) && c != tail {
            let k = choose|k: int| 0 <= k < b.len() && b[k] == c;
            assert(rest[k] == c);
        }
        if rest.contains(c) {
            let k = choose|k: int| 0 <= k < rest.len() && rest[k] == c;
            assert(b[k] == c);
        }
    }
    assert forall|c: Coordinates| #[trigger] after.body().contains(c) <==> (rest.contains(c) || c == nh) by {
        if after.body().contains(c) && c != nh {
            let k = choose|k: int| 0 <= k < after.body().len() && after.body()[k] == c;
            assert(rest[k - 1] == c);
        }
        if rest.contains(c) {
            let k = choose|k: int| 0 <= k < rest.len() && rest[k] == c;
            assert(after.body()[k + 1] == c);
        }
        if c == nh {
            assert(after.body()[0] == c);
        }
    }
    assert(after.body().no_duplicates()) by {
        assert forall|i: int, j: int|
            0 <= i < after.body().len() && 0 <= j < after.body().len() && i != j implies after.body()[i]
            != after.body()[j] by {
            if i > 0 && j > 0 {
                assert(rest[i - 1] != rest[j - 1]);
            } else if i == 0 {
                assert(rest.contains(after.body()[j]));
            } else {
                assert(rest.contains(after.body()[i]));
            }
        }
    }
    assert(before.cell(tail) == Cell::SnakeBody);
    assert forall|c: Coordinates| after.in_bounds(c) implies #[trigger] after.cell(c) == if c == nh {
        Cell::SnakeBody
    } else if c == tail {
        Cell::Empty
    } else {
        before.cell(c)
    } by {
        assert(before.in_bounds(c));
    }
    assert forall|i: int| 0 <= i < after.body().len() implies after.in_bounds(
        #[trigger] after.body()[i],
    ) by {
        if i > 0 {
            assert(after.body()[i] == b[i - 1]);
        }
    }
}

/// Once the snake has reached the food and kept its old tail, it lies on the board as
/// before, one square longer, with no food left; a free square remains unless the game
/// is over.
proof fn lemma_grown(before: SnakeGame, moved: SnakeGame, tail: Coordinates, grown: SnakeGame)
    requires
        before.wf(),
        before.moved_to(moved, moved.snake_direction, tail),
        moved.snake_head_position == moved.food_position,
        grown.board_size == moved.board_size,
        grown.snake_head_position == moved.snake_head_position,
        grown.body() == moved.body().push(tail),
        grown.grid() == put(moved.grid(), tail, Cell::SnakeBody),
        grown.points == moved.points + 1,
    ensures
        grown.snake_laid(),
        grown.body() == seq![grown.snake_head_position] + before.body(),
        forall|c: Coordinates| grown.in_bounds(c) ==> #[trigger] grown.cell(c) != Cell::Food,
        grown.body().len() <= grown.width() * grown.height(),
        !grown.over() ==> exists|c: Coordinates| free(grown.grid(), grown.width(), grown.height(), c),
{
    let b = before.body();
    let nh = grown.snake_head_position;
    assert(grown.body() =~= seq![nh] + b);
    assert(!b.contains(nh)) by {
        if b.contains(nh) {
            assert(before.cell(nh) == Cell::SnakeBody);
        }
    }
    assert(b.contains(tail)) by {
        assert(b[b.len() - 1] == tail);
    }
    assert forall|c: Coordinates| #[trigger] grown.body().contains(c) <==> (b.contains(c) || c == nh) by {
        if grown.body().contains(c) && c != nh {
            let k = choose|k: int| 0 <= k < grown.body().len() && grown.body()[k] == c;
            assert(b[k - 1] == c);
        }
        if b.contains(c) {
            let k = choose|k: int| 0 <= k < b.len() && b[k] == c;
            assert(grown.body()[k + 1] == c);
        }
        if c == nh {
            assert(grown.body()[0] == c);
        }
    }
    assert(grown.body().no_duplicates()) by {
        assert forall|i: int, j: int|
            0 <= i < grown.body().len() && 0 <= j < grown.body().len() && i != j implies grown.body()[i]
            != grown.body()[j] by {
            if i > 0 && j > 0 {
                assert(b[i - 1] != b[j - 1]);
            } else if i == 0 {
                assert(b.contains(grown.body()[j]));
            } else {
                assert(b.contains(grown.body()[i]));
            }
        }
    }
    assert forall|c: Coordinates| grown.in_bounds(c) implies #[trigger] grown.cell(c) == if c == nh
        || c == tail {
        Cell::SnakeBody
    } else {
        before.cell(c)
    } by {
        assert(before.in_bounds(c));
    }
    assert forall|i: int| 0 <= i < grown.body().len() implies grown.in_bounds(
        #[trigger] grown.body()[i],
    ) by {
        if i > 0 {
            assert(grown.body()[i] == b[i - 1]);
        }
    }
    lemma_room_left(grown.body(), grown.width(), grown.height());
    if !grown.over() {
        assert(grown.body().skip(1) =~= b);
        assert(grown.body().len() < grown.width() * grown.height());
        let c = choose|c: Coordinates|
            within(c, grown.width(), grown.height()) && !grown.body().contains(c);
        assert(grown.in_bounds(c));
        assert(grown.cell(c) != Cell::SnakeBody);
        assert(grown.cell(c) != Cell::Food);
        assert(free(grown.grid(), grown.width(), grown.height(), c));
    }
}

/// Food put on a free square of a board whose snake is laid out and which holds no food
/// makes a game in play.
proof fn lemma_fed(grown: SnakeGame, fed: SnakeGame)
    requires
        grown.snake_laid(),
        forall|c: Coordinates| grown.in_bounds(c) ==> #[trigger] grown.cell(c) != Cell::Food,
        free(grown.grid(), grown.width(), grown.height(), fed.food_position),
        fed.grid() == put(grown.grid(), fed.food_position, Cell::Food),
        fed.board_size == grown.board_size,
        fed.snake_head_position == grown.snake_head_position,
        fed.snake_body == grown.snake_body,
        fed.points == grown.points,
    ensures
        fed.wf(),
{
    let f = fed.food_position;
    assert forall|c: Coordinates| fed.in_bounds(c) implies #[trigger] fed.cell(c) == if c == f {
        Cell::Food
    } else {
        grown.cell(c)
    } by {
        assert(grown.in_bounds(c));
    }
    assert(!grown.body().contains(f)) by {
        assert(grown.cell(f) == Cell::Empty);
    }
}

} // verus!
