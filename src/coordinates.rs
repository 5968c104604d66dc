use vstd::prelude::*;

verus! {

/// A point of the board plane: `x` grows to the right, `y` grows downwards.
#[derive(Clone, Copy, Debug, PartialEq, Eq, Structural)]
pub struct Coordinates {
    pub x: i32,
    pub y: i32,
}

/// The four directions in which the snake can travel.
#[derive(Clone, Copy, Debug, PartialEq, Eq, Structural)]
pub enum SnakeDirection {
    Up,
    Down,
    Left,
    Right,
}

impl SnakeDirection {
    /// Left and right travel along the horizontal axis.
    pub open spec fn horizontal(self) -> bool {
        self == SnakeDirection::Left || self == SnakeDirection::Right
    }

    /// Up and down travel along the vertical axis.
    pub open spec fn vertical(self) -> bool {
        self == SnakeDirection::Up || self == SnakeDirection::Down
    }

    /// The direction that turns the snake back on itself.
    pub open spec fn opposite(self) -> SnakeDirection {
        match self {
            SnakeDirection::Up => SnakeDirection::Down,
            SnakeDirection::Down => SnakeDirection::Up,
            SnakeDirection::Left => SnakeDirection::Right,
            SnakeDirection::Right => SnakeDirection::Left,
        }
    }

    /// Whether `self` and `other` lie on the same axis.
    pub open spec fn parallel(self, other: SnakeDirection) -> bool {
        self.horizontal() == other.horizontal()
    }

    /// The direction a snake moving in `self` takes when asked for `d`: a request to turn
    /// back on itself is ignored.
    pub open spec fn steer(self, d: SnakeDirection) -> SnakeDirection {
        if d == self.opposite() {
            self
        } else {
            d
        }
    }

    pub fn get_opposite(&self) -> (r: SnakeDirection)
        ensures
            r == self.opposite(),
    {
        match self {
            SnakeDirection::Up => SnakeDirection::Down,
            SnakeDirection::Down => SnakeDirection::Up,
            SnakeDirection::Left => SnakeDirection::Right,
            SnakeDirection::Right => SnakeDirection::Left,
        }
    }

    /// The direction a snake moving in `self` takes when asked for `d` (see `steer`).
    pub fn steered(&self, d: SnakeDirection) -> (r: SnakeDirection)
        ensures
            r == self.steer(d),
    {
        if d == self.get_opposite() {
            *self
        } else {
            d
        }
    }

    pub fn is_horizontal(&self) -> (r: bool)
        ensures
            r == self.horizontal(),
    {
        matches!(self, SnakeDirection::Left | SnakeDirection::Right)
    }

    pub fn is_vertical(&self) -> (r: bool)
        ensures
            r == self.vertical(),
    {
        matches!(self, SnakeDirection::Up | SnakeDirection::Down)
    }
}

impl Coordinates {
    /// The point one unit away from `self` in direction `d`.
    pub open spec fn neighbour(self, d: SnakeDirection) -> Coordinates {
        match d {
            SnakeDirection::Up => Coordinates { x: self.x, y: (self.y - 1) as i32 },
            SnakeDirection::Down => Coordinates { x: self.x, y: (self.y + 1) as i32 },
            SnakeDirection::Left => Coordinates { x: (self.x - 1) as i32, y: self.y },
            SnakeDirection::Right => Coordinates { x: (self.x + 1) as i32, y: self.y },
        }
    }

    /// Whether every neighbour of `self` is a point of the plane.
    pub open spec fn has_neighbours(self) -> bool {
        i32::MIN < self.x < i32::MAX && i32::MIN < self.y < i32::MAX
    }

    pub fn new(x: i32, y: i32) -> (r: Coordinates)
        ensures
            r.x == x,
            r.y == y,
    {
        Coordinates { x, y }
    }

    pub fn move_left(&mut self)
        requires
            old(self).x > i32::MIN,
        ensures
            *final(self) == old(self).neighbour(SnakeDirection::Left),
    {
        self.x = self.x - 1;
    }

    pub fn move_right(&mut self)
        requires
            old(self).x < i32::MAX,
        ensures
            *final(self) == old(self).neighbour(SnakeDirection::Right),
    {
        self.x = self.x + 1;
    }

    pub fn move_up(&mut self)
        requires
            old(self).y > i32::MIN,
        ensures
            *final(self) == old(self).neighbour(SnakeDirection::Up),
    {
        self.y = self.y - 1;
    }

    pub fn move_down(&mut self)
        requires
            old(self).y < i32::MAX,
        ensures
            *final(self) == old(self).neighbour(SnakeDirection::Down),
    {
        self.y = self.y + 1;
    }

    pub fn get_left(&self) -> (r: Coordinates)
        requires
            self.x > i32::MIN,
        ensures
            r == self.neighbour(SnakeDirection::Left),
    {
        let mut res = Coordinates::new(self.x, self.y);
        res.move_left();
        res
    }

    pub fn get_right(&self) -> (r: Coordinates)
        requires
            self.x < i32::MAX,
        ensures
            r == self.neighbour(SnakeDirection::Right),
    {
        let mut res = Coordinates::new(self.x, self.y);
        res.move_right();
        res
    }

    pub fn get_up(&self) -> (r: Coordinates)
        requires
            self.y > i32::MIN,
        ensures
            r == self.neighbour(SnakeDirection::Up),
    {
        let mut res = Coordinates::new(self.x, self.y);
        res.move_up();
        res
    }

    pub fn get_down(&self) -> (r: Coordinates)
        requires
            self.y < i32::MAX,
        ensures
            r == self.neighbour(SnakeDirection::Down),
    {
        let mut res = Coordinates::new(self.x, self.y);
        res.move_down();
        res
    }

    /// The neighbour of `self` in direction `d`.
    pub fn get_neighbour(&self, d: SnakeDirection) -> (r: Coordinates)
        requires
            self.has_neighbours(),
        ensures
            r == self.neighbour(d),
    {
        match d {
            SnakeDirection::Up => self.get_up(),
            SnakeDirection::Down => self.get_down(),
            SnakeDirection::Left => self.get_left(),
            SnakeDirection::Right => self.get_right(),
        }
    }
}

} // verus!
