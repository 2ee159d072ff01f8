//! The rules of the grid snake game: the snake moves a cell per step, turns
//! on a key but never straight back, dies on a wall or on itself, and grows
//! by one cell when its head reaches the food.

use vstd::prelude::*;
use rand::rngs::ThreadRng;
use rand::Rng;

use crate::snake::{
    covers, covers_before_tail, heading_after, in_range, moved_snake, next_head_of, snake_wf,
    Direction, Snake, SnakeView,
};

verus! {

#[verifier::external_type_specification]
#[verifier::external_body]
pub struct ExThreadRng(ThreadRng);

/// `rand::rng`: the thread's random number generator. Nothing is stated of
/// it.
#[verifier::external_body]
fn thread_rng() -> ThreadRng {
    rand::rng()
}

/// `Rng::random_range` over `0..n`: a value below `n`, drawn uniformly.
/// Which one is left open, and so is what becomes of the generator. The
/// range must not be empty, or it panics.
#[verifier::external_body]
fn random_below(rng: &mut ThreadRng, n: usize) -> (r: usize)
    requires
        n > 0,
    ensures
        r < n,
{
    rng.random_range(0..n)
}

/// A game on a `width` by `height` grid whose outermost cells are wall.
pub struct Game {
    snake: Snake,
    food_exists: bool,
    food_x: i32,
    food_y: i32,
    width: u32,
    height: u32,
    game_over: bool,
}

/// What a game holds.
pub struct GameView {
    pub snake: SnakeView,
    pub food_exists: bool,
    pub food_x: i32,
    pub food_y: i32,
    pub width: u32,
    pub height: u32,
    pub game_over: bool,
}

impl View for Game {
    type V = GameView;

    closed spec fn view(&self) -> GameView {
        GameView {
            snake: self.snake@,
            food_exists: self.food_exists,
            food_x: self.food_x,
            food_y: self.food_y,
            width: self.width,
            height: self.height,
            game_over: self.game_over,
        }
    }
}

/// No cell of the snake occurs twice.
pub open spec fn distinct_cells(b: Seq<(i32, i32)>) -> bool {
    forall|i: int, j: int| 0 <= i < j < b.len() ==> b[i] != b[j]
}

/// The cell lies inside the walls.
pub open spec fn inside_walls(g: GameView, x: int, y: int) -> bool {
    &&& 1 <= x < g.width - 1
    &&& 1 <= y < g.height - 1
}

/// The cell lies inside the walls and off the snake: food may go there.
pub open spec fn free_cell(g: GameView, x: i32, y: i32) -> bool {
    inside_walls(g, x as int, y as int) && !covers(g.snake, x, y)
}

/// Some cell is free for food.
pub open spec fn has_free_cell(g: GameView) -> bool {
    exists|x: i32, y: i32| #[trigger] free_cell(g, x, y)
}

/// The state every game keeps: the snake is well formed and never covers a
/// cell twice, and food, when there is some, lies inside the walls and off
/// the snake.
pub open spec fn game_wf(g: GameView) -> bool {
    &&& snake_wf(g.snake)
    &&& distinct_cells(g.snake.body)
    &&& g.food_exists ==> free_cell(g, g.food_x, g.food_y)
}

/// The head may move to its next cell: that cell is off the snake (but for
/// the tail end, which moves away) and inside the walls.
pub open spec fn snake_alive(g: GameView, dir: Option<Direction>) -> bool {
    let h = next_head_of(g.snake, dir);
    &&& !covers_before_tail(g.snake, h.0 as i32, h.1 as i32)
    &&& 0 < h.0
    &&& 0 < h.1
    &&& h.0 < (g.width as i32) as int
    &&& h.1 < (g.height as i32) as int
}

/// The game after one move that may turn to `dir`: the snake moves, and
/// eats and grows where its head lands on the food; or, where it may not
/// move, the game is over.
pub open spec fn after_move(g: GameView, dir: Option<Direction>) -> GameView {
    if snake_alive(g, dir) {
        let s1 = moved_snake(g.snake, dir);
        if g.food_exists && s1.body[0] == (g.food_x, g.food_y) {
            GameView {
                snake: SnakeView {
                    direction: s1.direction,
                    body: s1.body.push(s1.tail.unwrap()),
                    tail: s1.tail,
                },
                food_exists: false,
                food_x: g.food_x,
                food_y: g.food_y,
                width: g.width,
                height: g.height,
                game_over: g.game_over,
            }
        } else {
            GameView {
                snake: s1,
                food_exists: g.food_exists,
                food_x: g.food_x,
                food_y: g.food_y,
                width: g.width,
                height: g.height,
                game_over: g.game_over,
            }
        }
    } else {
        GameView {
            snake: g.snake,
            food_exists: g.food_exists,
            food_x: g.food_x,
            food_y: g.food_y,
            width: g.width,
            height: g.height,
            game_over: true,
        }
    }
}

/// `g1` is `g` after food was placed where there was none, on some free
/// cell.
pub open spec fn food_placed(g: GameView, g1: GameView) -> bool {
    &&& g1.snake == g.snake
    &&& g1.width == g.width
    &&& g1.height == g.height
    &&& g1.game_over == g.game_over
    &&& g.food_exists ==> g1 == g
    &&& !g.food_exists ==> g1.food_exists && free_cell(g, g1.food_x, g1.food_y)
}

/// The snake a game starts with: three cells heading right, head at (4, 2).
pub open spec fn start_snake() -> SnakeView {
    SnakeView { direction: Direction::Right, body: seq![(4i32, 2i32), (3i32, 2i32), (2i32, 2i32)], tail: None }
}

/// A move keeps the game's state: its snake stays well formed and never
/// covers a cell twice, and the food stays inside the walls and off it.
pub proof fn lemma_move_keeps_wf(g: GameView, dir: Option<Direction>)
    requires
        game_wf(g),
    ensures
        game_wf(after_move(g, dir)),
{
    if snake_alive(g, dir) {
        let h = next_head_of(g.snake, dir);
        let s1 = moved_snake(g.snake, dir);
        let b = g.snake.body;
        let head = (h.0 as i32, h.1 as i32);
        assert(s1.body =~= seq![head] + b.drop_last());
        assert forall|i: int| 0 <= i < s1.body.len() implies crate::snake::cell_in_range(
            #[trigger] s1.body[i],
        ) by {
            if i > 0 {
                assert(s1.body[i] == b[i - 1]);
            }
        }
        assert forall|i: int, j: int| 0 <= i < j < s1.body.len() implies s1.body[i]
            != s1.body[j] by {
            if i == 0 {
                assert(s1.body[j] == b[j - 1]);
                if s1.body[j] == head {
                    assert(covers_before_tail(g.snake, head.0, head.1));
                }
            } else {
                assert(s1.body[i] == b[i - 1]);
                assert(s1.body[j] == b[j - 1]);
            }
        }
        if g.food_exists && s1.body[0] == (g.food_x, g.food_y) {
            let b2 = s1.body.push(b.last());
            assert forall|i: int| 0 <= i < b2.len() implies crate::snake::cell_in_range(
                #[trigger] b2[i],
            ) by {
                if i < s1.body.len() {
                    assert(b2[i] == s1.body[i]);
                } else {
                    assert(b2[i] == b[b.len() - 1]);
                }
            }
            assert forall|i: int, j: int| 0 <= i < j < b2.len() implies b2[i] != b2[j] by {
                if j == b2.len() - 1 {
                    assert(b2[j] == b[b.len() - 1]);
                    if i == 0 {
                        if b2[i] == b2[j] {
                            assert(covers(g.snake, g.food_x, g.food_y));
                        }
                    } else {
                        assert(b2[i] == b[i - 1]);
                    }
                } else {
                    assert(b2[i] == s1.body[i]);
                    assert(b2[j] == s1.body[j]);
                }
            }
        } else if g.food_exists {
            let g2 = after_move(g, dir);
            if covers(g2.snake, g.food_x, g.food_y) {
                let i = choose|i: int|
                    0 <= i < s1.body.len() && #[trigger] s1.body[i] == (g.food_x, g.food_y);
                assert(i != 0);
                assert(s1.body[i] == b[i - 1]);
                assert(covers(g.snake, g.food_x, g.food_y));
            }
        }
    }
}

/// Where the snake moves, its length grows by one if it ate and stays the
/// same otherwise; a move never makes food appear.
pub proof fn lemma_move_length(g: GameView, dir: Option<Direction>)
    requires
        game_wf(g),
    ensures
        after_move(g, dir).snake.body.len() == g.snake.body.len() + if g.food_exists
            && !after_move(g, dir).food_exists {
            1int
        } else {
            0int
        },
        after_move(g, dir).food_exists ==> g.food_exists,
{
}

/// A move that leaves a running game running puts the head strictly inside
/// the grid, one cell from where it was.
pub proof fn lemma_move_stays_on_grid(g: GameView, dir: Option<Direction>)
    requires
        game_wf(g),
        !g.game_over,
        g.width <= i32::MAX,
        g.height <= i32::MAX,
        !after_move(g, dir).game_over,
    ensures
        0 < after_move(g, dir).snake.body[0].0 < g.width,
        0 < after_move(g, dir).snake.body[0].1 < g.height,
        after_move(g, dir).snake.body[0].0 as int == next_head_of(g.snake, dir).0,
        after_move(g, dir).snake.body[0].1 as int == next_head_of(g.snake, dir).1,
{
    assert(snake_alive(g, dir));
    assert(crate::snake::cell_in_range(g.snake.body[0]));
}

/// On a grid within `i32`, a move keeps a running game running exactly when
/// the head's next cell `(x, y)` is off the snake (but for its tail end) and
/// lies in `0 < x < width` and `0 < y < height`, the same bounds on both
/// axes; otherwise the game is over and the snake stays where it was.
pub proof fn lemma_move_alive_exactly_in_bounds(g: GameView, dir: Option<Direction>)
    requires
        game_wf(g),
        !g.game_over,
        g.width <= i32::MAX,
        g.height <= i32::MAX,
    ensures
        ({
            let h = next_head_of(g.snake, dir);
            !after_move(g, dir).game_over <==> {
                &&& !covers_before_tail(g.snake, h.0 as i32, h.1 as i32)
                &&& 0 < h.0 < g.width
                &&& 0 < h.1 < g.height
            }
        }),
        after_move(g, dir).game_over ==> after_move(g, dir).snake == g.snake,
{
}

impl Game {
    /// The state every game keeps.
    pub open spec fn wf(&self) -> bool {
        game_wf(self@)
    }

    /// A new game on a `width` by `height` grid, with the start snake and no
    /// food yet.
    pub fn new(width: u32, height: u32) -> (r: Game)
        ensures
            r.wf(),
            r@.snake == start_snake(),
            !r@.food_exists,
            r@.food_x == 0,
            r@.food_y == 0,
            r@.width == width,
            r@.height == height,
            !r@.game_over,
    {
        let snake = Snake::new(2, 2);
        proof {
            assert(snake@.body =~= start_snake().body);
        }
        Game {
            snake,
            food_exists: false,
            food_x: 0,
            food_y: 0,
            width,
            height,
            game_over: false,
        }
    }

    /// Turns to the direction of an arrow key (`None` for any other key) and
    /// moves. Nothing happens once the game is over, nor for the direction
    /// straight back.
    pub fn key_pressed(&mut self, dir: Option<Direction>)
        requires
            old(self).wf(),
        ensures
            final(self).wf(),
            final(self)@ == if old(self)@.game_over || (dir matches Some(d) && d == old(
                self,
            )@.snake.direction.reversed()) {
                old(self)@
            } else {
                after_move(old(self)@, dir)
            },
    {
        if self.game_over {
            return;
        }
        if let Some(d) = dir {
            if d == self.snake.head_direction().opposite() {
                return;
            }
        }
        self.update_snake(dir);
    }

    /// One tick of a running game: food is placed where there is none, then
    /// the snake moves on. A game that is over stays as it is. Placing food
    /// needs a grid of at least 3 by 3 cells within `i32` and a free cell:
    /// with none, drawing a cell at random would never end.
    pub fn update(&mut self)
        requires
            old(self).wf(),
            !old(self)@.game_over && !old(self)@.food_exists ==> {
                &&& 3 <= old(self)@.width <= i32::MAX
                &&& 3 <= old(self)@.height <= i32::MAX
                &&& has_free_cell(old(self)@)
            },
        ensures
            final(self).wf(),
            old(self)@.game_over ==> final(self)@ == old(self)@,
            !old(self)@.game_over ==> exists|g1: GameView|
                #[trigger] food_placed(old(self)@, g1) && final(self)@ == after_move(g1, None),
    {
        if self.game_over {
            return;
        }
        if !self.food_exists {
            self.add_food();
        }
        let ghost g1 = self@;
        self.update_snake(None);
        assert(food_placed(old(self)@, g1));
    }

    /// Eats the food where the head has reached it: the food is gone and the
    /// snake grows back its last tail cell.
    fn check_eating(&mut self)
        requires
            snake_wf(old(self)@.snake),
            old(self)@.snake.tail is Some,
        ensures
            final(self)@ == if old(self)@.food_exists && old(self)@.snake.body[0] == (
                old(self)@.food_x,
                old(self)@.food_y,
            ) {
                GameView {
                    snake: SnakeView {
                        direction: old(self)@.snake.direction,
                        body: old(self)@.snake.body.push(old(self)@.snake.tail.unwrap()),
                        tail: old(self)@.snake.tail,
                    },
                    food_exists: false,
                    ..old(self)@
                }
            } else {
                old(self)@
            },
    {
        let (head_x, head_y): (i32, i32) = self.snake.head_position();
        if self.food_exists && self.food_x == head_x && self.food_y == head_y {
            self.food_exists = false;
            self.snake.restore_tail();
        }
    }

    /// Whether the head may move to its next cell.
    fn check_if_snake_alive(&self, dir: Option<Direction>) -> (r: bool)
        requires
            self.wf(),
        ensures
            r == snake_alive(self@, dir),
    {
        let (next_x, next_y): (i32, i32) = self.snake.next_head(dir);
        if self.snake.inside_snake(next_x, next_y) {
            return false;
        }
        next_x > 0 && next_y > 0 && next_x < (self.width as i32) && next_y < (self.height as i32)
    }

    /// The cells where food may go: every one, each inside the walls and off
    /// the snake.
    fn free_cells(&self) -> (r: Vec<(i32, i32)>)
        requires
            self.wf(),
            3 <= self@.width <= i32::MAX,
            3 <= self@.height <= i32::MAX,
        ensures
            forall|k: int| 0 <= k < r@.len() ==> free_cell(self@, (#[trigger] r@[k]).0, r@[k].1),
            forall|cx: i32, cy: i32| #[trigger] free_cell(self@, cx, cy) ==> r@.contains((cx, cy)),
    {
        let w = self.width as i32;
        let h = self.height as i32;
        let ghost g = self@;
        let mut free: Vec<(i32, i32)> = Vec::new();
        let mut x: i32 = 1;
        while x < w - 1
            invariant
                g == self@,
                w as int == g.width,
                h as int == g.height,
                3 <= w,
                3 <= h,
                1 <= x <= w - 1,
                forall|k: int|
                    0 <= k < free@.len() ==> free_cell(g, (#[trigger] free@[k]).0, free@[k].1),
                forall|cx: i32, cy: i32|
                    #[trigger] free_cell(g, cx, cy) && cx < x ==> free@.contains((cx, cy)),
            decreases w - x,
        {
            let mut y: i32 = 1;
            while y < h - 1
                invariant
                    g == self@,
                    w as int == g.width,
                    h as int == g.height,
                    3 <= w,
                    3 <= h,
                    1 <= x < w - 1,
                    1 <= y <= h - 1,
                    forall|k: int|
                        0 <= k < free@.len() ==> free_cell(g, (#[trigger] free@[k]).0, free@[k].1),
                    forall|cx: i32, cy: i32|
                        #[trigger] free_cell(g, cx, cy) && (cx < x || (cx == x && cy < y))
                            ==> free@.contains((cx, cy)),
                decreases h - y,
            {
                if !self.snake.overlap_with_self(x, y) {
                    let ghost before = free@;
                    free.push((x, y));
                    proof {
                        assert(free@[free@.len() - 1] == (x, y));
                        assert forall|cx: i32, cy: i32|
                            #[trigger] free_cell(g, cx, cy) && (cx < x || (cx == x && cy < y + 1))
                                implies free@.contains((cx, cy)) by {
                            if cx == x && cy == y {
                                assert(free@[free@.len() - 1] == (cx, cy));
                            } else {
                                assert(before.contains((cx, cy)));
                                let k = choose|k: int| 0 <= k < before.len() && before[k] == (cx, cy);
                                assert(free@[k] == (cx, cy));
                            }
                        }
                    }
                }
                y = y + 1;
            }
            x = x + 1;
        }
        free
    }

    /// Whether food can be placed: the grid is at least 3 by 3 cells within
    /// `i32`, and some cell is free.
    pub fn free_cell_exists(&self) -> (r: bool)
        requires
            self.wf(),
        ensures
            r == (3 <= self@.width <= i32::MAX && 3 <= self@.height <= i32::MAX && has_free_cell(
                self@,
            )),
    {
        if self.width < 3 || self.width > 2147483647 || self.height < 3 || self.height
            > 2147483647 {
            return false;
        }
        let free = self.free_cells();
        proof {
            if has_free_cell(self@) {
                let (cx, cy) = choose|cx: i32, cy: i32| #[trigger] free_cell(self@, cx, cy);
                assert(free@.contains((cx, cy)));
            }
            if free@.len() > 0 {
                assert(free_cell(self@, free@[0].0, free@[0].1));
            }
        }
        free.len() > 0
    }

    /// Places food on a cell inside the walls and off the snake, drawn
    /// uniformly among all such cells.
    fn add_food(&mut self)
        requires
            old(self).wf(),
            3 <= old(self)@.width <= i32::MAX,
            3 <= old(self)@.height <= i32::MAX,
            has_free_cell(old(self)@),
        ensures
            final(self).wf(),
            final(self)@.food_exists,
            free_cell(old(self)@, final(self)@.food_x, final(self)@.food_y),
            final(self)@.snake == old(self)@.snake,
            final(self)@.width == old(self)@.width,
            final(self)@.height == old(self)@.height,
            final(self)@.game_over == old(self)@.game_over,
    {
        let free = self.free_cells();
        proof {
            let (cx, cy) = choose|cx: i32, cy: i32| #[trigger] free_cell(self@, cx, cy);
            assert(free@.contains((cx, cy)));
        }
        let mut rng = thread_rng();
        let k = random_below(&mut rng, free.len());
        let (fx, fy) = free[k];
        self.food_x = fx;
        self.food_y = fy;
        self.food_exists = true;
    }

    /// Moves the snake where it may go, eating where it lands on the food;
    /// otherwise the game is over.
    fn update_snake(&mut self, dir: Option<Direction>)
        requires
            old(self).wf(),
        ensures
            final(self).wf(),
            final(self)@ == after_move(old(self)@, dir),
    {
        proof {
            lemma_move_keeps_wf(self@, dir);
        }
        if self.check_if_snake_alive(dir) {
            self.snake.move_forward(dir);
            self.check_eating();
        } else {
            self.game_over = true;
        }
    }

    /// Starts over with the start snake, no food and the game running.
    pub fn restart(&mut self)
        ensures
            final(self).wf(),
            final(self)@.snake == start_snake(),
            !final(self)@.food_exists,
            !final(self)@.game_over,
            final(self)@.food_x == old(self)@.food_x,
            final(self)@.food_y == old(self)@.food_y,
            final(self)@.width == old(self)@.width,
            final(self)@.height == old(self)@.height,
    {
        self.snake = Snake::new(2, 2);
        proof {
            assert(self.snake@.body =~= start_snake().body);
        }
        self.food_exists = false;
        self.game_over = false;
    }

    /// The snake's cells, head first.
    pub fn snake_body(&self) -> (r: &Vec<(i32, i32)>)
        ensures
            r@ == self@.snake.body,
    {
        self.snake.body()
    }

    /// Where the food is, if there is some.
    pub fn food(&self) -> (r: Option<(i32, i32)>)
        ensures
            r == if self@.food_exists {
                Some((self@.food_x, self@.food_y))
            } else {
                None
            },
    {
        if self.food_exists {
            Some((self.food_x, self.food_y))
        } else {
            None
        }
    }

    /// The width of the grid, walls included.
    pub fn width(&self) -> (r: u32)
        ensures
            r == self@.width,
    {
        self.width
    }

    /// The height of the grid, walls included.
    pub fn height(&self) -> (r: u32)
        ensures
            r == self@.height,
    {
        self.height
    }

    /// Whether the game is over.
    pub fn is_game_over(&self) -> (r: bool)
        ensures
            r == self@.game_over,
    {
        self.game_over
    }
}

} // verus!
