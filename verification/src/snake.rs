//! The snake of the grid game: a chain of cells, head first, that moves one
//! cell at a time and can grow back the cell its tail last left.

use vstd::prelude::*;

verus! {

/// A direction of movement on the grid; `y` grows downwards.
#[derive(Debug, Clone, Copy, PartialEq, Eq, Structural)]
pub enum Direction {
    Up,
    Down,
    Left,
    Right,
}

impl Direction {
    pub open spec fn reversed(self) -> Direction {
        match self {
            Direction::Up => Direction::Down,
            Direction::Down => Direction::Up,
            Direction::Left => Direction::Right,
            Direction::Right => Direction::Left,
        }
    }

    /// The direction that points the other way.
    pub fn opposite(&self) -> (r: Direction)
        ensures
            r == self.reversed(),
    {
        match *self {
            Direction::Up => Direction::Down,
            Direction::Down => Direction::Up,
            Direction::Left => Direction::Right,
            Direction::Right => Direction::Left,
        }
    }
}

/// Reversing a direction twice gives it back, and no direction is its own
/// reverse.
pub proof fn lemma_opposite_involution(d: Direction)
    ensures
        d.reversed().reversed() == d,
        d.reversed() != d,
{
}

/// The cell one step from `c` in direction `d`.
pub open spec fn step_from(c: (i32, i32), d: Direction) -> (int, int) {
    match d {
        Direction::Up => (c.0 as int, c.1 - 1),
        Direction::Down => (c.0 as int, c.1 + 1),
        Direction::Left => (c.0 - 1, c.1 as int),
        Direction::Right => (c.0 + 1, c.1 as int),
    }
}

/// A coordinate far enough from the ends of `i32` to step from.
pub open spec fn in_range(v: int) -> bool {
    i32::MIN < v < i32::MAX
}

pub open spec fn cell_in_range(c: (i32, i32)) -> bool {
    in_range(c.0 as int) && in_range(c.1 as int)
}

/// A snake: its heading, its cells from head to tail end, and the cell its
/// tail end last left.
pub struct Snake {
    direction: Direction,
    body: Vec<(i32, i32)>,
    tail: Option<(i32, i32)>,
}

/// What a snake holds.
pub struct SnakeView {
    pub direction: Direction,
    pub body: Seq<(i32, i32)>,
    pub tail: Option<(i32, i32)>,
}

impl View for Snake {
    type V = SnakeView;

    closed spec fn view(&self) -> SnakeView {
        SnakeView { direction: self.direction, body: self.body@, tail: self.tail }
    }
}

/// The snake has a head and every cell can be stepped from.
pub open spec fn snake_wf(s: SnakeView) -> bool {
    &&& s.body.len() >= 1
    &&& forall|i: int| 0 <= i < s.body.len() ==> cell_in_range(#[trigger] s.body[i])
}

/// The heading after a move that may turn to `dir`.
pub open spec fn heading_after(s: SnakeView, dir: Option<Direction>) -> Direction {
    match dir {
        Some(d) => d,
        None => s.direction,
    }
}

/// Where the head goes on a move that may turn to `dir`.
pub open spec fn next_head_of(s: SnakeView, dir: Option<Direction>) -> (int, int) {
    step_from(s.body[0], heading_after(s, dir))
}

/// The cell lies on the snake other than on its tail end, which moves away
/// on the next step.
pub open spec fn covers_before_tail(s: SnakeView, x: i32, y: i32) -> bool {
    exists|i: int| 0 <= i < s.body.len() - 1 && #[trigger] s.body[i] == (x, y)
}

/// The cell lies anywhere on the snake.
pub open spec fn covers(s: SnakeView, x: i32, y: i32) -> bool {
    exists|i: int| 0 <= i < s.body.len() && #[trigger] s.body[i] == (x, y)
}

/// The snake after one move: the new head in front, the tail end dropped
/// and remembered.
pub open spec fn moved_snake(s: SnakeView, dir: Option<Direction>) -> SnakeView {
    let h = next_head_of(s, dir);
    SnakeView {
        direction: heading_after(s, dir),
        body: seq![(h.0 as i32, h.1 as i32)] + s.body.drop_last(),
        tail: Some(s.body.last()),
    }
}

impl Snake {
    /// A snake of three cells heading right, its head at `(x + 2, y)` and its
    /// tail end at `(x, y)`.
    pub fn new(x: i32, y: i32) -> (r: Snake)
        requires
            in_range(x as int),
            in_range(x + 2),
            in_range(y as int),
        ensures
            snake_wf(r@),
            r@.direction == Direction::Right,
            r@.body == seq![((x + 2) as i32, y), ((x + 1) as i32, y), (x, y)],
            r@.tail is None,
    {
        let mut body: Vec<(i32, i32)> = Vec::new();
        body.push((x + 2, y));
        body.push((x + 1, y));
        body.push((x, y));
        Snake { direction: Direction::Right, body, tail: None }
    }

    /// The cells of the snake, head first.
    pub fn body(&self) -> (r: &Vec<(i32, i32)>)
        ensures
            r@ == self@.body,
    {
        &self.body
    }

    /// The cell of the head.
    pub fn head_position(&self) -> (r: (i32, i32))
        requires
            snake_wf(self@),
        ensures
            r == self@.body[0],
    {
        self.body[0]
    }

    /// The direction the snake moves in.
    pub fn head_direction(&self) -> (r: Direction)
        ensures
            r == self@.direction,
    {
        self.direction
    }

    /// Where the head would go on a move that may turn to `dir`.
    pub fn next_head(&self, dir: Option<Direction>) -> (r: (i32, i32))
        requires
            snake_wf(self@),
        ensures
            r.0 as int == next_head_of(self@, dir).0,
            r.1 as int == next_head_of(self@, dir).1,
    {
        let (head_x, head_y) = self.head_position();
        proof {
            assert(cell_in_range(self@.body[0]));
        }
        let moving_dir = match dir {
            Some(d) => d,
            None => self.direction,
        };
        match moving_dir {
            Direction::Up => (head_x, head_y - 1),
            Direction::Down => (head_x, head_y + 1),
            Direction::Left => (head_x - 1, head_y),
            Direction::Right => (head_x + 1, head_y),
        }
    }

    /// Moves one cell, turning to `dir` first where one is given: the new
    /// head goes in front and the tail end is dropped and remembered.
    pub fn move_forward(&mut self, dir: Option<Direction>)
        requires
            snake_wf(old(self)@),
            in_range(next_head_of(old(self)@, dir).0),
            in_range(next_head_of(old(self)@, dir).1),
        ensures
            final(self)@ == moved_snake(old(self)@, dir),
            snake_wf(final(self)@),
    {
        let (x, y) = self.next_head(dir);
        if let Some(d) = dir {
            self.direction = d;
        }
        self.body.insert(0, (x, y));
        let removed = self.body.pop();
        proof {
            assert(self.body@ =~= moved_snake(old(self)@, dir).body);
            assert(removed == Some(old(self)@.body.last()));
            assert forall|i: int| 0 <= i < self.body@.len() implies cell_in_range(
                #[trigger] self.body@[i],
            ) by {
                if i > 0 {
                    assert(self.body@[i] == old(self)@.body[i - 1]);
                }
            }
        }
        self.tail = removed;
    }

    /// Grows the snake back onto the cell its tail end last left.
    pub fn restore_tail(&mut self)
        requires
            old(self)@.tail is Some,
        ensures
            final(self)@.body == old(self)@.body.push(old(self)@.tail.unwrap()),
            final(self)@.direction == old(self)@.direction,
            final(self)@.tail == old(self)@.tail,
    {
        let blk = self.tail.unwrap();
        self.body.push(blk);
    }

    /// Whether `(x, y)` lies on the snake other than on its tail end.
    pub fn inside_snake(&self, x: i32, y: i32) -> (r: bool)
        ensures
            r == covers_before_tail(self@, x, y),
    {
        let n = self.body.len();
        if n == 0 {
            return false;
        }
        let mut i: usize = 0;
        while i < n - 1
            invariant
                n == self@.body.len(),
                n >= 1,
                i <= n - 1,
                forall|j: int| 0 <= j < i ==> self@.body[j] != (x, y),
            decreases n - 1 - i,
        {
            let (bx, by) = self.body[i];
            if bx == x && by == y {
                return true;
            }
            i = i + 1;
        }
        false
    }

    /// Whether `(x, y)` lies anywhere on the snake.
    pub fn overlap_with_self(&self, x: i32, y: i32) -> (r: bool)
        ensures
            r == covers(self@, x, y),
    {
        let n = self.body.len();
        let mut i: usize = 0;
        while i < n
            invariant
                n == self@.body.len(),
                i <= n,
                forall|j: int| 0 <= j < i ==> self@.body[j] != (x, y),
            decreases n - i,
        {
            let (bx, by) = self.body[i];
            if bx == x && by == y {
                return true;
            }
            i = i + 1;
        }
        false
    }
}

} // verus!
