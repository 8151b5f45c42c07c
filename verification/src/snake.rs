use crate::random;
use vstd::arithmetic::div_mod::lemma_fundamental_div_mod;
use vstd::arithmetic::div_mod::lemma_fundamental_div_mod_converse;
use vstd::prelude::*;
use vstd::set_lib::lemma_int_range;
use vstd::set_lib::lemma_len_subset;
use vstd::set_lib::set_int_range;

verus! {

/// A cell of the grid: `(x, y)` with `0 <= x < width` and `0 <= y < height`.
pub type Position = (usize, usize);

/// The four directions the snake can move in. `Up` decreases `y`, `Down`
/// increases `y`, `Left` decreases `x`, `Right` increases `x`.
#[derive(Copy, Clone, Debug, PartialEq, Eq, Structural)]
pub enum Direction {
    Up,
    Down,
    Left,
    Right,
}

impl Direction {
    /// Whether this direction moves along the vertical axis.
    pub open spec fn is_vertical(self) -> bool {
        match self {
            Direction::Up | Direction::Down => true,
            Direction::Left | Direction::Right => false,
        }
    }

    /// Two directions share an axis when both are vertical or both are
    /// horizontal; such a change is rejected by `change_direction`.
    pub open spec fn same_axis(self, other: Direction) -> bool {
        self.is_vertical() == other.is_vertical()
    }
}

/// The row-major index of a cell: cells are numbered left to right within a
/// row, rows from top to bottom.
spec fn cell_index(p: Position, width: usize) -> int {
    p.1 * width + p.0
}

/// The cell whose row-major index is `k`.
spec fn index_cell(k: int, width: usize) -> Position {
    ((k % (width as int)) as usize, (k / (width as int)) as usize)
}

/// The row-major index of an on-grid cell lies in `[0, width * height)`.
proof fn lemma_cell_index_in_range(p: Position, width: usize, height: usize)
    requires
        1 <= width,
        p.0 < width,
        p.1 < height,
    ensures
        0 <= cell_index(p, width) < width * height,
        index_cell(cell_index(p, width), width) == p,
{
    assert(0 <= p.1 * width + p.0 < width * height) by (nonlinear_arith)
        requires
            1 <= width,
            p.0 < width,
            p.1 < height,
    ;
    lemma_fundamental_div_mod_converse(cell_index(p, width), width as int, p.1 as int, p.0 as int);
}

/// Pigeonhole on the grid: a sequence of distinct on-grid cells has at most
/// `width * height` elements, and when it has fewer, some on-grid cell is
/// missing from it.
proof fn lemma_grid_pigeonhole(s: Seq<Position>, width: usize, height: usize)
    requires
        1 <= width,
        1 <= height,
        s.no_duplicates(),
        forall|i: int|
            0 <= i < s.len() ==> (#[trigger] s[i]).0 < width && s[i].1 < height,
    ensures
        s.len() <= width * height,
        s.len() < width * height ==> exists|p: Position|
            p.0 < width && p.1 < height && !s.contains(p),
{
    let wh = (width * height) as int;
    let m = s.map_values(|p: Position| cell_index(p, width));
    assert forall|i: int| 0 <= i < m.len() implies 0 <= #[trigger] m[i] < wh by {
        lemma_cell_index_in_range(s[i], width, height);
    }
    assert(m.no_duplicates()) by {
        assert forall|i: int, j: int|
            0 <= i < m.len() && 0 <= j < m.len() && i != j implies m[i] != m[j] by {
            if m[i] == m[j] {
                lemma_cell_index_in_range(s[i], width, height);
                lemma_cell_index_in_range(s[j], width, height);
                assert(s[i] == s[j]);
            }
        }
    }
    let a = m.to_set();
    m.unique_seq_to_set();
    let b = set_int_range(0, wh);
    lemma_int_range(0, wh);
    assert(a.subset_of(b)) by {
        assert forall|k: int| a.contains(k) implies b.contains(k) by {
            let i = choose|i: int| 0 <= i < m.len() && m[i] == k;
        }
    }
    lemma_len_subset(a, b);
    if s.len() < wh {
        assert(exists|k: int| b.contains(k) && !a.contains(k)) by {
            if forall|k: int| b.contains(k) ==> #[trigger] a.contains(k) {
                lemma_len_subset(b, a);
            }
        }
        let k = choose|k: int| b.contains(k) && !a.contains(k);
        let p = index_cell(k, width);
        assert(0 <= k % (width as int) < width as int && 0 <= k / (width as int)
            < height as int) by (nonlinear_arith)
            requires
                1 <= width,
                0 <= k < width * height,
        ;
        lemma_fundamental_div_mod(k, width as int);
        let q = k / (width as int);
        let r = k % (width as int);
        assert(p.1 as int == q && p.0 as int == r);
        assert(q * (width as int) == (width as int) * q) by (nonlinear_arith);
        assert(cell_index(p, width) == k);
        assert(!s.contains(p)) by {
            if s.contains(p) {
                let i = choose|i: int| 0 <= i < s.len() && s[i] == p;
                assert(m[i] == k);
                assert(a.contains(k));
            }
        }
        assert(p.0 < width && p.1 < height && !s.contains(p));
    }
}

/// Putting a fresh cell in front of a snake that does not overlap itself
/// yields a snake that does not overlap itself.
proof fn lemma_prepend_no_duplicates(s: Seq<Position>, p: Position)
    requires
        s.no_duplicates(),
        !s.contains(p),
    ensures
        (seq![p] + s).no_duplicates(),
{
    let t = seq![p] + s;
    assert forall|i: int, j: int|
        0 <= i < t.len() && 0 <= j < t.len() && i != j implies t[i] != t[j] by {
        if i != 0 && j != 0 {
            assert(t[i] == s[i - 1] && t[j] == s[j - 1]);
        } else if i == 0 && j != 0 {
            assert(t[j] == s[j - 1] && s.contains(s[j - 1]));
        } else if j == 0 && i != 0 {
            assert(t[i] == s[i - 1] && s.contains(s[i - 1]));
        }
    }
}

/// Dropping the tail keeps a snake free of self-overlap, and frees no cell
/// that the shorter snake still covers.
proof fn lemma_drop_last_no_duplicates(s: Seq<Position>)
    requires
        s.len() >= 1,
        s.no_duplicates(),
    ensures
        s.drop_last().no_duplicates(),
        forall|p: Position| s.drop_last().contains(p) ==> s.contains(p),
{
    assert forall|p: Position| s.drop_last().contains(p) implies s.contains(p) by {
        let i = choose|i: int| 0 <= i < s.drop_last().len() && s.drop_last()[i] == p;
        assert(s[i] == p);
    }
}

/// Whether `p` is one of the snake's cells.
fn snake_contains(snake: &Vec<Position>, p: Position) -> (r: bool)
    ensures
        r == snake@.contains(p),
{
    let mut i: usize = 0;
    while i < snake.len()
        invariant
            i <= snake@.len(),
            forall|j: int| 0 <= j < i ==> snake@[j] != p,
        decreases snake@.len() - i,
    {
        let q = snake[i];
        if q.0 == p.0 && q.1 == p.1 {
            proof {
                assert(snake@[i as int] == p);
            }
            return true;
        }
        i += 1;
    }
    false
}

/// The whole state of one game. The grid is implicit in `width` and
/// `height`; the snake is a sequence of cells with the head at index 0 and
/// the tail at the last index. `direction` is the direction applied by the
/// current tick, `next_direction` the most recently accepted intent, which
/// takes effect on the following successful tick. `lost` and `won` are
/// terminal: once either is set, `tick` no longer mutates the state.
#[derive(Debug)]
pub struct SnakeGame {
    pub width: usize,
    pub height: usize,
    pub direction: Direction,
    pub next_direction: Direction,
    pub snake: Vec<Position>,
    pub food: Position,
    pub lost: bool,
    pub won: bool,
}

impl SnakeGame {
    /// `p` lies on the grid.
    pub open spec fn pos_in_bounds(self, p: Position) -> bool {
        p.0 < self.width && p.1 < self.height
    }

    /// The grid has at least two cells and its area fits in a `usize`.
    pub open spec fn dims_ok(self) -> bool {
        &&& 1 <= self.width
        &&& 1 <= self.height
        &&& 2 <= self.width * self.height
        &&& self.width * self.height <= usize::MAX
    }

    /// The snake is non-empty, on the grid, and never overlaps itself.
    pub open spec fn snake_ok(self) -> bool {
        &&& 1 <= self.snake@.len()
        &&& forall|i: int| 0 <= i < self.snake@.len() ==> self.pos_in_bounds(#[trigger] self.snake@[i])
        &&& self.snake@.no_duplicates()
    }

    /// Well-formedness: what `new` establishes and every operation keeps.
    pub open spec fn wf(self) -> bool {
        &&& self.dims_ok()
        &&& self.snake_ok()
        &&& self.pos_in_bounds(self.food)
        &&& self.snake@.len() <= self.width * self.height
        &&& (self.won ==> self.snake@.len() == self.width * self.height)
    }

    /// The food lies on no cell of the snake.
    pub open spec fn food_free(self) -> bool {
        !self.snake@.contains(self.food)
    }

    /// The full invariant: a well-formed state whose food, as long as the
    /// game is still running, lies off the snake. (A won game keeps the
    /// eaten food cell under the head, and a grid of width three or less
    /// starts with the food under the only snake segment.)
    pub open spec fn inv(self) -> bool {
        &&& self.wf()
        &&& (!self.lost && !self.won ==> self.food_free())
    }

    /// Both states agree on every field but possibly the food.
    pub open spec fn same_but_food(self, other: SnakeGame) -> bool {
        &&& self.width == other.width
        &&& self.height == other.height
        &&& self.direction == other.direction
        &&& self.next_direction == other.next_direction
        &&& self.snake@ == other.snake@
        &&& self.lost == other.lost
        &&& self.won == other.won
    }

    /// Both states agree on every field.
    pub open spec fn same_state(self, other: SnakeGame) -> bool {
        &&& self.width == other.width
        &&& self.height == other.height
        &&& self.direction == other.direction
        &&& self.next_direction == other.next_direction
        &&& self.snake@ == other.snake@
        &&& self.food == other.food
        &&& self.lost == other.lost
        &&& self.won == other.won
    }

    /// The cell the head moves to under `direction`, or `None` when the
    /// move leaves the grid over its low edge (an unsigned decrement below
    /// zero counts as off the grid, never as a wrap-around).
    pub open spec fn spec_next_head(self) -> Option<Position> {
        let head = self.snake@[0];
        match self.direction {
            Direction::Up => if head.1 == 0 {
                None
            } else {
                Some((head.0, (head.1 - 1) as usize))
            },
            Direction::Down => Some((head.0, (head.1 + 1) as usize)),
            Direction::Left => if head.0 == 0 {
                None
            } else {
                Some(((head.0 - 1) as usize, head.1))
            },
            Direction::Right => Some(((head.0 + 1) as usize, head.1)),
        }
    }

    /// The next move stays on the grid and hits no cell of the snake.
    pub open spec fn move_allowed(self) -> bool {
        match self.spec_next_head() {
            None => false,
            Some(head) => self.pos_in_bounds(head) && !self.snake@.contains(head),
        }
    }

    /// The cell the head moves to, defined when `move_allowed()`.
    pub open spec fn next_head(self) -> Position {
        self.spec_next_head()->Some_0
    }

    /// Starts a game on a `width` by `height` grid: a one-segment snake at
    /// `(width - 1, height / 2)` heading `Left`, food at
    /// `(min(2, width - 1), height / 2)`. The start is fixed, never random.
    /// Grids narrower than four cells start with the food under the snake's
    /// only segment, so the full invariant holds exactly from width four up.
    pub fn new(width: usize, height: usize) -> (game: SnakeGame)
        requires
            1 <= width,
            1 <= height,
            2 <= width * height,
            width * height <= usize::MAX,
        ensures
            game.wf(),
            game.width == width,
            game.height == height,
            game.direction == Direction::Left,
            game.next_direction == Direction::Left,
            game.snake@ == seq![(((width - 1) as usize, (height / 2) as usize))],
            game.food == ((if width <= 3 { (width - 1) as usize } else { 2usize }), (height / 2) as usize),
            !game.lost,
            !game.won,
            game.inv() <==> 4 <= width,
    {
        let head: Position = (width - 1, height / 2);
        let food: Position = (if width <= 3 { width - 1 } else { 2 }, height / 2);
        let mut snake: Vec<Position> = Vec::new();
        snake.push(head);
        let game = SnakeGame {
            width,
            height,
            direction: Direction::Left,
            next_direction: Direction::Left,
            snake,
            food,
            lost: false,
            won: false,
        };
        proof {
            assert(game.snake@ == seq![head]);
            assert(game.snake@.no_duplicates());
            assert(game.snake@.contains(game.food) <==> game.food == head) by {
                if game.snake@.contains(game.food) {
                    let i = choose|i: int| 0 <= i < game.snake@.len() && game.snake@[i] == game.food;
                    assert(game.snake@[i] == head);
                }
                if game.food == head {
                    assert(game.snake@[0] == game.food);
                }
            }
            assert(height / 2 < height);
        }
        game
    }

    /// `new`, with the construction-time checks made at run time: rejects a
    /// grid with a zero side or fewer than two cells by returning `None`.
    pub fn try_new(width: usize, height: usize) -> (result: Option<SnakeGame>)
        ensures
            match result {
                Some(game) => {
                    &&& 1 <= width
                    &&& 1 <= height
                    &&& 2 <= width * height
                    &&& game.wf()
                    &&& game.width == width
                    &&& game.height == height
                    &&& game.direction == Direction::Left
                    &&& game.next_direction == Direction::Left
                    &&& game.snake@ == seq![(((width - 1) as usize, (height / 2) as usize))]
                    &&& game.food == ((if width <= 3 { (width - 1) as usize } else { 2usize }), (height / 2) as usize)
                    &&& !game.lost
                    &&& !game.won
                },
                None => width == 0 || height == 0 || width * height < 2 || width * height
                    > usize::MAX,
            },
    {
        if width == 0 || height == 0 {
            return None;
        }
        if width == 1 && height == 1 {
            return None;
        }
        if width.checked_mul(height).is_none() {
            return None;
        }
        proof {
            assert(width * height >= 2) by (nonlinear_arith)
                requires
                    1 <= width,
                    1 <= height,
                    !(width == 1 && height == 1),
            ;
        }
        Some(SnakeGame::new(width, height))
    }

    /// Buffers a direction change for the next tick. A lost game, and an
    /// intent on the axis the snake currently moves along (including a
    /// straight reversal), leave the buffer unchanged; the rejection is
    /// silent. Nothing but `next_direction` is ever written.
    pub fn change_direction(&mut self, direction: Direction)
        ensures
            final(self).width == old(self).width,
            final(self).height == old(self).height,
            final(self).direction == old(self).direction,
            final(self).snake@ == old(self).snake@,
            final(self).food == old(self).food,
            final(self).lost == old(self).lost,
            final(self).won == old(self).won,
            final(self).next_direction == (if old(self).lost || old(self).direction.same_axis(
                direction,
            ) {
                old(self).next_direction
            } else {
                direction
            }),
            old(self).wf() ==> final(self).wf(),
            old(self).inv() ==> final(self).inv(),
    {
        if self.lost {
            return ;
        }
        match (&self.direction, &direction) {
            (Direction::Up, Direction::Up)
            | (Direction::Up, Direction::Down)
            | (Direction::Down, Direction::Up)
            | (Direction::Down, Direction::Down)
            | (Direction::Left, Direction::Left)
            | (Direction::Left, Direction::Right)
            | (Direction::Right, Direction::Left)
            | (Direction::Right, Direction::Right) => {},
            _ => self.next_direction = direction,
        }
    }

    /// Moves the food to a cell off the snake. The cell comes from the
    /// random source: first by rejection sampling (draw a cell, discard it
    /// when the snake covers it), and, should every draw of a bounded budget
    /// land on the snake, by scanning for the first free cell, which the
    /// pigeonhole argument guarantees to exist while the snake leaves a cell
    /// uncovered. The scan bounds the loop, so placement always terminates.
    #[verifier::loop_isolation(false)]
    fn place_food(&mut self)
        requires
            old(self).dims_ok(),
            old(self).snake_ok(),
            old(self).snake@.len() < old(self).width * old(self).height,
        ensures
            final(self).same_but_food(*old(self)),
            final(self).pos_in_bounds(final(self).food),
            !final(self).snake@.contains(final(self).food),
    {
        let grid = self.width * self.height;
        let mut tries: usize = 0;
        while tries < grid
            invariant
                self.same_but_food(*old(self)),
                self.food == old(self).food,
            decreases grid - tries,
        {
            let x = random::next_in_range(self.width);
            let y = random::next_in_range(self.height);
            if !snake_contains(&self.snake, (x, y)) {
                self.food = (x, y);
                return ;
            }
            tries += 1;
        }
        proof {
            lemma_grid_pigeonhole(self.snake@, self.width, self.height);
        }
        let ghost free_cell = choose|p: Position|
            p.0 < old(self).width && p.1 < old(self).height && !old(self).snake@.contains(p);
        let ghost free_index = cell_index(free_cell, self.width);
        proof {
            lemma_cell_index_in_range(free_cell, self.width, self.height);
        }
        let mut idx: usize = 0;
        while idx < grid
            invariant
                self.same_but_food(*old(self)),
                self.food == old(self).food,
                idx <= free_index,
            decreases grid - idx,
        {
            let x = idx % self.width;
            let y = idx / self.width;
            proof {
                assert(0 <= (idx as int) % (self.width as int) < self.width as int && 0 <= (
                idx as int) / (self.width as int) < self.height as int) by (nonlinear_arith)
                    requires
                        1 <= self.width,
                        0 <= idx < self.width * self.height,
                ;
            }
            if !snake_contains(&self.snake, (x, y)) {
                self.food = (x, y);
                return ;
            }
            proof {
                if idx == free_index {
                    assert((x, y) == free_cell);
                    assert(false);
                }
            }
            idx += 1;
        }
        proof {
            // The scan cannot run past `free_index`, a free cell's index.
            assert(false);
        }
    }

    /// Advances the game by one step. A lost or won game stays exactly as it
    /// is. Otherwise the head moves one cell in `direction`; a move off the
    /// grid or onto the snake sets `lost` and changes nothing else, so the
    /// last valid state stays readable. A valid move commits the buffered
    /// `next_direction` (it steers from the following tick on). A move onto
    /// the food grows the snake by one at the head; when that fills the grid
    /// the game is won and the state freezes, else the food is placed anew
    /// on a free cell. Any other valid move shifts the snake: the tail cell
    /// is dropped and the new head pushed, so the length never changes by
    /// more than one per tick.
    pub fn tick(&mut self)
        requires
            old(self).wf(),
        ensures
            final(self).wf(),
            final(self).width == old(self).width,
            final(self).height == old(self).height,
            old(self).snake@.len() <= final(self).snake@.len() <= old(self).snake@.len() + 1,
            old(self).inv() ==> final(self).inv(),
            old(self).lost || old(self).won ==> final(self).same_state(*old(self)),
            !old(self).lost && !old(self).won && !old(self).move_allowed() ==> ({
                &&& final(self).lost
                &&& !final(self).won
                &&& final(self).snake@ == old(self).snake@
                &&& final(self).food == old(self).food
                &&& final(self).direction == old(self).direction
                &&& final(self).next_direction == old(self).next_direction
            }),
            !old(self).lost && !old(self).won && old(self).move_allowed() ==> ({
                let moved = old(self).next_head();
                &&& !final(self).lost
                &&& final(self).direction == old(self).next_direction
                &&& final(self).next_direction == old(self).next_direction
                &&& (moved == old(self).food ==> final(self).snake@ == seq![moved] + old(
                    self,
                ).snake@)
                &&& (moved == old(self).food && old(self).snake@.len() + 1 == old(self).width * old(
                    self,
                ).height ==> final(self).won && final(self).food == old(self).food)
                &&& (moved == old(self).food && old(self).snake@.len() + 1 < old(self).width * old(
                    self,
                ).height ==> !final(self).won && !final(self).snake@.contains(final(self).food))
                &&& (moved != old(self).food ==> ({
                    &&& final(self).snake@ == seq![moved] + old(self).snake@.drop_last()
                    &&& final(self).food == old(self).food
                    &&& !final(self).won
                }))
            }),
    {
        if self.lost || self.won || self.snake.len() == 0 {
            return ;
        }
        proof {
            assert(self.pos_in_bounds(self.snake@[0]));
        }
        let head = self.snake[0];
        let next: Option<Position> = match self.direction {
            Direction::Up => if head.1 == 0 {
                None
            } else {
                Some((head.0, head.1 - 1))
            },
            Direction::Down => Some((head.0, head.1 + 1)),
            Direction::Left => if head.0 == 0 {
                None
            } else {
                Some((head.0 - 1, head.1))
            },
            Direction::Right => Some((head.0 + 1, head.1)),
        };
        let moved = match next {
            None => {
                self.lost = true;
                return ;
            },
            Some(p) => p,
        };
        if !self.is_valid(moved) || snake_contains(&self.snake, moved) {
            self.lost = true;
            return ;
        }
        self.direction = self.next_direction;
        if moved.0 == self.food.0 && moved.1 == self.food.1 {
            self.snake.insert(0, moved);
            proof {
                assert(self.snake@ =~= seq![moved] + old(self).snake@);
                lemma_prepend_no_duplicates(old(self).snake@, moved);
                lemma_grid_pigeonhole(self.snake@, self.width, self.height);
            }
            if self.snake.len() == self.width * self.height {
                self.won = true;
                return ;
            }
            self.place_food();
        } else {
            let _ = self.snake.pop();
            self.snake.insert(0, moved);
            proof {
                assert(self.snake@ =~= seq![moved] + old(self).snake@.drop_last());
                lemma_drop_last_no_duplicates(old(self).snake@);
                lemma_prepend_no_duplicates(old(self).snake@.drop_last(), moved);
            }
        }
    }

    /// `p` lies on the grid.
    pub fn is_valid(&self, p: Position) -> (r: bool)
        ensures
            r == self.pos_in_bounds(p),
    {
        p.0 < self.width && p.1 < self.height
    }
}

} // verus!
