//! The game state: the snake's body and heading, the reward cell, and the
//! win/loss status, with the per-tick transition that moves the snake.
//!
//! The random-number source is injected: every operation that must place a
//! reward takes a closure drawing a uniform integer in `[0, max)`.

use vstd::prelude::*;
use vstd::arithmetic::div_mod::lemma_mod_decreases;
use crate::grid;
use crate::grid::Direction;

verus! {

/// One body segment, holding the row-major index of the cell it occupies.
#[derive(Clone, Copy, PartialEq, Eq, Debug, Structural)]
pub struct SnakeCell(pub usize);

/// The cell indices a body holds, in order, head first.
pub open spec fn cell_values(body: Seq<SnakeCell>) -> Seq<usize> {
    body.map_values(|c: SnakeCell| c.0)
}

/// A snake: its body (head at position 0, tail last) and its heading.
pub struct Snake {
    body: Vec<SnakeCell>,
    direction: Direction,
}

impl Snake {
    /// The body as a sequence of cell indices, head first.
    pub closed spec fn cells(&self) -> Seq<usize> {
        cell_values(self.body@)
    }

    /// The current heading.
    pub closed spec fn dir(&self) -> Direction {
        self.direction
    }

    /// Builds a body of `size` cells: the head at `spawn_index` and each
    /// further segment one index lower, so the body extends backward as
    /// `spawn_index, spawn_index - 1, ...` within one row of the grid
    /// (staying in one row is the constructing world's contract).
    pub fn new(spawn_index: usize, direction: Direction, size: usize) -> (s: Snake)
        requires
            1 <= size,
            size - 1 <= spawn_index,
        ensures
            s.dir() == direction,
            s.cells().len() == size,
            forall|i: int| 0 <= i < size ==> s.cells()[i] == spawn_index - i,
    {
        let mut body: Vec<SnakeCell> = Vec::new();
        let mut i: usize = 0;
        while i < size
            invariant
                i <= size,
                size - 1 <= spawn_index,
                body.len() == i,
                forall|j: int| 0 <= j < i ==> body@[j].0 == spawn_index - j,
            decreases size - i,
        {
            body.push(SnakeCell(spawn_index - i));
            i += 1;
        }
        proof {
            assert(forall|j: int| 0 <= j < size ==> cell_values(body@)[j] == body@[j].0);
        }
        Snake { body, direction }
    }
}

/// The game's status. `Won` and `Lost` are sticky terminal states.
#[derive(Clone, Copy, PartialEq, Eq, Debug, Structural)]
pub enum GameStatus {
    Won,
    Lost,
    Played,
}

/// What an injected random source must satisfy: it may be called with `max`,
/// and whatever it returns is below `max`.
pub open spec fn rng_ok<F: Fn(usize) -> usize>(rng: F, max: usize) -> bool {
    &&& call_requires(rng, (max,))
    &&& forall|r: usize| #[trigger] call_ensures(rng, (max,), r) ==> r < max
}

/// The whole game: grid dimensions, the snake, the reward cell, and the
/// status. All mutation goes through `step` and `change_snake_dir`.
pub struct World {
    width: usize,
    size: usize,
    snake: Snake,
    reward_cell: Option<usize>,
    status: GameStatus,
}

impl World {
    /// The grid's side length.
    pub closed spec fn width_spec(&self) -> usize {
        self.width
    }

    /// The total number of cells, `width * width`.
    pub closed spec fn size_spec(&self) -> usize {
        self.size
    }

    /// The snake's body as cell indices, head first.
    pub closed spec fn cells(&self) -> Seq<usize> {
        cell_values(self.snake.body@)
    }

    /// The reward cell, absent only once the board is won.
    pub closed spec fn reward_spec(&self) -> Option<usize> {
        self.reward_cell
    }

    /// The current status.
    pub closed spec fn status_spec(&self) -> GameStatus {
        self.status
    }

    /// The snake's current heading.
    pub closed spec fn dir_spec(&self) -> Direction {
        self.snake.direction
    }

    /// The reward is present, on the board, and on no body segment.
    pub open spec fn reward_free(&self) -> bool {
        self.reward_spec() matches Some(c) && c < self.size_spec() && !self.cells().contains(c)
    }

    /// The state invariant every operation preserves: consistent dimensions,
    /// a non-empty body of valid cells that fits the board, and a reward that
    /// is absent exactly in the won state and otherwise on a free cell.
    pub open spec fn wf(&self) -> bool {
        &&& 1 <= self.width_spec()
        &&& self.size_spec() == self.width_spec() * self.width_spec()
        &&& 1 <= self.cells().len() <= self.size_spec()
        &&& (forall|i: int| 0 <= i < self.cells().len() ==> self.cells()[i] < self.size_spec())
        &&& match self.status_spec() {
            GameStatus::Won => self.reward_spec() is None,
            GameStatus::Lost => self.reward_free(),
            GameStatus::Played => self.reward_free(),
        }
    }

    /// The cell the head would move to under heading `dir`.
    pub open spec fn next_head_with(&self, dir: Direction) -> usize {
        grid::next_cell_math(self.width_spec() as int, self.cells()[0] as int, dir) as usize
    }

    /// The cell the head moves to on the next tick.
    pub open spec fn next_head(&self) -> usize {
        self.next_head_with(self.dir_spec())
    }

    /// The body after one move: the new head in front, every other segment on
    /// the cell the segment ahead of it occupied, the old tail cell given up.
    pub open spec fn shifted_cells(&self) -> Seq<usize> {
        seq![self.next_head()] + self.cells().drop_last()
    }

    /// The next move runs the head into the moved body.
    pub open spec fn self_collides(&self) -> bool {
        self.cells().drop_last().contains(self.next_head())
    }

    /// The next move lands the head on the reward cell.
    pub open spec fn eats_reward(&self) -> bool {
        self.reward_spec() == Some(self.next_head())
    }
}

/// How one `Played` tick relates the new state `n` to the old state `o`:
/// the body shifts behind the new head; running into the body loses; eating
/// the reward grows the body by one from the neck and either re-places the
/// reward on a free cell or, once the body fills the board, wins and clears
/// the reward for good.
pub open spec fn advance_post(o: World, n: World) -> bool {
    let sh = o.shifted_cells();
    &&& !o.eats_reward() ==> {
        &&& n.cells() == sh
        &&& n.reward_spec() == o.reward_spec()
        &&& n.status_spec() == (if o.self_collides() {
            GameStatus::Lost
        } else {
            GameStatus::Played
        })
    }
    &&& o.eats_reward() && o.cells().len() < o.size_spec() ==> n.cells() == sh.push(sh[1])
    &&& o.eats_reward() && o.cells().len() + 1 < o.size_spec() ==> {
        &&& n.status_spec() is Played
        &&& n.reward_free()
    }
    &&& o.eats_reward() && o.cells().len() + 1 == o.size_spec() ==> {
        &&& n.status_spec() is Won
        &&& n.reward_spec() is None
    }
    &&& o.eats_reward() && o.cells().len() == o.size_spec() ==> {
        &&& n.cells() == sh
        &&& n.status_spec() is Won
        &&& n.reward_spec() is None
    }
}

impl World {
    /// Builds a world: computes `size = width * width`, spawns a snake of
    /// `snake_size` cells extending backward from `snake_idx` within its row,
    /// and places one reward uniformly among the free cells. The preconditions
    /// are the construction contract: the board must not overflow `usize`,
    /// the snake must fit strictly inside it, and the body must stay in one
    /// row without underflowing the index.
    pub fn new<F: Fn(usize) -> usize>(
        width: usize,
        snake_idx: usize,
        direction: Direction,
        snake_size: usize,
        rng: F,
    ) -> (w: World)
        requires
            1 <= width,
            width * width <= usize::MAX,
            snake_idx < width * width,
            1 <= snake_size,
            snake_size < width * width,
            snake_size - 1 <= snake_idx % width,
            rng_ok(rng, (width * width) as usize),
        ensures
            w.wf(),
            w.width_spec() == width,
            w.size_spec() == width * width,
            w.dir_spec() == direction,
            w.status_spec() is Played,
            w.cells().len() == snake_size,
            forall|i: int| 0 <= i < snake_size ==> w.cells()[i] == snake_idx - i,
            w.reward_free(),
    {
        proof {
            lemma_mod_decreases(snake_idx as nat, width as nat);
        }
        let size = width * width;
        let snake = Snake::new(snake_idx, direction, snake_size);
        let reward_cell = Self::gen_reward_cell(size, &snake.body, rng);
        let w = World { width, size, snake, reward_cell, status: GameStatus::Played };
        proof {
            assert(forall|i: int|
                0 <= i < snake_size ==> w.cells()[i] == snake_idx - i && w.cells()[i]
                    < size);
        }
        w
    }

    /// Draws random cells, rejecting occupied ones, until one is free of the
    /// snake's body; the caller must have checked that a free cell exists.
    /// Never returns an occupied cell, and never returns absence. After `max`
    /// rejected draws it takes the first free cell in index order instead, so
    /// that placement terminates whatever the random source does; while free
    /// cells are plentiful a draw all but surely hits one first.
    fn gen_reward_cell<F: Fn(usize) -> usize>(
        max: usize,
        snake_body: &Vec<SnakeCell>,
        rng: F,
    ) -> (r: Option<usize>)
        requires
            snake_body@.len() < max,
            rng_ok(rng, max),
        ensures
            r matches Some(c) && c < max && !cell_values(snake_body@).contains(c),
    {
        let mut tries: usize = 0;
        while tries < max
            invariant
                rng_ok(rng, max),
            decreases max - tries,
        {
            let candidate = rng(max);
            if !contains_cell(snake_body, candidate) {
                return Some(candidate);
            }
            tries += 1;
        }
        let mut c: usize = 0;
        while c < max
            invariant
                forall|d: usize| d < c ==> cell_values(snake_body@).contains(d),
            decreases max - c,
        {
            if !contains_cell(snake_body, c) {
                return Some(c);
            }
            c += 1;
        }
        proof {
            lemma_free_cell_exists(cell_values(snake_body@), max);
            let w = choose|d: usize| d < max && !cell_values(snake_body@).contains(d);
            assert(cell_values(snake_body@).contains(w));
        }
        Some(0)
    }

    /// The head's cell index, `body[0]`.
    pub fn snake_head_idx(&self) -> (r: usize)
        requires
            self.cells().len() >= 1,
        ensures
            r == self.cells()[0],
    {
        self.snake.body[0].0
    }

    /// The grid's side length.
    pub fn width(&self) -> (r: usize)
        ensures
            r == self.width_spec(),
    {
        self.width
    }

    /// The current reward cell, or absence once the board is won.
    pub fn reward_cell(&self) -> (r: Option<usize>)
        ensures
            r == self.reward_spec(),
    {
        self.reward_cell
    }

    /// The current status.
    pub fn status(&self) -> (r: GameStatus)
        ensures
            r == self.status_spec(),
    {
        self.status
    }

    /// The snake's current heading.
    pub fn direction(&self) -> (r: Direction)
        ensures
            r == self.dir_spec(),
    {
        self.snake.direction
    }

    /// A read-only view of the body for rendering, valid until the next
    /// mutating call.
    pub fn snake_cells(&self) -> (r: &Vec<SnakeCell>)
        ensures
            cell_values(r@) == self.cells(),
    {
        &self.snake.body
    }

    /// The number of body segments.
    pub fn snake_len(&self) -> (r: usize)
        ensures
            r == self.cells().len(),
    {
        self.snake.body.len()
    }
}

impl World {
    /// One tick. When the game is still being played the snake moves one
    /// cell; a terminal status absorbs the tick and nothing changes, so a
    /// lost or won world stays exactly as it is under any number of ticks.
    pub fn step<F: Fn(usize) -> usize>(&mut self, rng: F)
        requires
            old(self).wf(),
            rng_ok(rng, old(self).size_spec()),
            old(self).status_spec() is Played && old(self).cells().len() == 1 ==> !old(
                self,
            ).eats_reward(),
        ensures
            final(self).wf(),
            final(self).width_spec() == old(self).width_spec(),
            final(self).size_spec() == old(self).size_spec(),
            final(self).dir_spec() == old(self).dir_spec(),
            !(old(self).status_spec() is Played) ==> *final(self) == *old(self),
            old(self).status_spec() is Played ==> advance_post(*old(self), *final(self)),
    {
        match self.status {
            GameStatus::Played => self.move_whole_snake(rng),
            GameStatus::Lost => {},
            GameStatus::Won => {},
        }
    }

    /// Moves the whole snake one cell: the head to its next cell and every
    /// other segment to the cell the segment ahead of it occupied, then runs
    /// the self-collision check and the reward check, both once per tick.
    fn move_whole_snake<F: Fn(usize) -> usize>(&mut self, rng: F)
        requires
            old(self).wf(),
            old(self).status_spec() is Played,
            rng_ok(rng, old(self).size_spec()),
            old(self).cells().len() == 1 ==> !old(self).eats_reward(),
        ensures
            final(self).wf(),
            final(self).width_spec() == old(self).width_spec(),
            final(self).size_spec() == old(self).size_spec(),
            final(self).dir_spec() == old(self).dir_spec(),
            advance_post(*old(self), *final(self)),
    {
        let ghost orig = self.snake.body@;
        let ghost sh = old(self).shifted_cells();
        let next = grid::next_cell(
            self.width,
            self.size,
            self.snake.body[0].0,
            self.snake.direction,
        );
        let len = self.snake.body.len();
        let mut i: usize = len - 1;
        while i >= 1
            invariant
                self.width == old(self).width,
                self.size == old(self).size,
                self.reward_cell == old(self).reward_cell,
                self.status == old(self).status,
                self.snake.direction == old(self).snake.direction,
                self.snake.body@.len() == orig.len(),
                len == orig.len(),
                i < len,
                forall|j: int| 0 <= j <= i ==> self.snake.body@[j] == orig[j],
                forall|j: int| i < j < len ==> self.snake.body@[j] == orig[j - 1],
            decreases i,
        {
            let ahead = self.snake.body[i - 1];
            self.snake.body[i] = ahead;
            i -= 1;
        }
        self.snake.body[0] = SnakeCell(next);
        proof {
            assert(self.cells() =~= sh);
        }
        let head_val = self.snake.body[0].0;
        let collided = tail_contains(&self.snake.body, head_val);
        proof {
            if collided {
                let j = choose|j: int|
                    1 <= j < self.snake.body@.len() && self.snake.body@[j].0 == head_val;
                assert(old(self).cells().drop_last()[j - 1] == head_val);
                assert(old(self).self_collides());
            } else {
                assert forall|k: int|
                    0 <= k < old(self).cells().drop_last().len() implies old(
                    self,
                ).cells().drop_last()[k] != head_val by {
                    assert(self.snake.body@[k + 1].0 == old(self).cells().drop_last()[k]);
                }
                assert(!old(self).self_collides());
            }
        }
        if collided {
            self.status = GameStatus::Lost;
        }
        let ate = match self.reward_cell {
            Some(rc) => rc == head_val,
            None => false,
        };
        proof {
            grid::lemma_next_cell_in_range(
                old(self).width_spec() as int,
                old(self).cells()[0] as int,
                old(self).dir_spec(),
            );
            assert(old(self).next_head() == next);
            assert(ate == old(self).eats_reward());
            if ate {
                // an eaten reward cell was on no old body segment, so the
                // move cannot also have been a self-collision
                if old(self).self_collides() {
                    let k = choose|k: int|
                        0 <= k < old(self).cells().drop_last().len() && old(
                            self,
                        ).cells().drop_last()[k] == head_val;
                    assert(old(self).cells()[k] == head_val);
                    assert(old(self).cells().contains(head_val));
                }
                assert(!collided);
            }
        }
        if ate {
            if self.snake.body.len() < self.size {
                let neck = self.snake.body[1];
                self.snake.body.push(neck);
                proof {
                    assert(self.cells() =~= sh.push(sh[1]));
                }
                if self.snake.body.len() < self.size {
                    let reward = Self::gen_reward_cell(self.size, &self.snake.body, rng);
                    self.reward_cell = reward;
                } else {
                    self.reward_cell = None;
                    self.status = GameStatus::Won;
                }
            } else {
                self.reward_cell = None;
                self.status = GameStatus::Won;
            }
        } else {
            proof {
                // the untouched reward stays off the moved body: the new head
                // missed it and every other segment keeps an old cell
                match old(self).reward_spec() {
                    Some(c) => {
                        assert forall|j: int| 0 <= j < self.cells().len() implies self.cells()[j]
                            != c by {
                            if j >= 1 {
                                assert(self.cells()[j] == old(self).cells()[j - 1]);
                                assert(old(self).cells().contains(self.cells()[j]));
                            }
                        }
                        assert(!self.cells().contains(c));
                    },
                    None => {},
                }
            }
        }
    }

    /// Changes the heading, unless the cell the head would then move to is
    /// the segment directly behind the head: such a reversal is rejected and
    /// the world is left untouched.
    pub fn change_snake_dir(&mut self, direction: Direction)
        requires
            old(self).wf(),
            old(self).cells().len() >= 2,
        ensures
            final(self).wf(),
            old(self).next_head_with(direction) == old(self).cells()[1] ==> *final(self) == *old(
                self,
            ),
            old(self).next_head_with(direction) != old(self).cells()[1] ==> {
                &&& final(self).dir_spec() == direction
                &&& final(self).cells() == old(self).cells()
                &&& final(self).reward_spec() == old(self).reward_spec()
                &&& final(self).status_spec() == old(self).status_spec()
                &&& final(self).width_spec() == old(self).width_spec()
                &&& final(self).size_spec() == old(self).size_spec()
            },
    {
        proof {
            assert(old(self).cells()[0] < old(self).size_spec());
        }
        let next = grid::next_cell(self.width, self.size, self.snake.body[0].0, direction);
        if next != self.snake.body[1].0 {
            self.snake.direction = direction;
        }
    }
}

/// After a move the body keeps its length, the head stands on the next cell,
/// and every other segment stands exactly where the segment ahead of it stood
/// before the move.
pub proof fn lemma_shift_geometry(w: World)
    requires
        w.cells().len() >= 1,
    ensures
        w.shifted_cells().len() == w.cells().len(),
        w.shifted_cells()[0] == w.next_head(),
        forall|i: int| 1 <= i < w.cells().len() ==> w.shifted_cells()[i] == w.cells()[i - 1],
{
}

/// A body with fewer segments than the board has cells cannot cover every
/// cell: a free cell always exists while the board is not full.
pub proof fn lemma_free_cell_exists(cells: Seq<usize>, max: usize)
    requires
        cells.len() < max,
    ensures
        exists|c: usize| c < max && !cells.contains(c),
{
    broadcast use vstd::seq_lib::seq_to_set_is_finite;

    if forall|d: usize| d < max ==> cells.contains(d) {
        let vals = cells.map_values(|v: usize| v as int);
        assert forall|d: int| 0 <= d < max implies vals.contains(d) by {
            let du = d as usize;
            assert(cells.contains(du));
            let i = choose|i: int| 0 <= i < cells.len() && cells[i] == du;
            assert(vals[i] == d);
        }
        assert(vstd::set_lib::set_int_range(0, max as int).subset_of(vals.to_set()));
        vstd::set_lib::lemma_int_range(0, max as int);
        vals.lemma_cardinality_of_set();
        vstd::set_lib::lemma_len_subset(
            vstd::set_lib::set_int_range(0, max as int),
            vals.to_set(),
        );
    } else {
        let d = choose|d: usize| !(d < max ==> cells.contains(d));
        assert(d < max && !cells.contains(d));
    }
}

/// Whether some body segment past the head occupies `value`.
fn tail_contains(body: &Vec<SnakeCell>, value: usize) -> (r: bool)
    ensures
        r == exists|j: int| 1 <= j < body@.len() && body@[j].0 == value,
{
    let mut i: usize = 1;
    while i < body.len()
        invariant
            1 <= i,
            forall|j: int| 1 <= j < i ==> body@[j].0 != value,
        decreases body@.len() - i,
    {
        if body[i].0 == value {
            return true;
        }
        i += 1;
    }
    false
}

/// Whether any body segment occupies `value`.
fn contains_cell(body: &Vec<SnakeCell>, value: usize) -> (r: bool)
    ensures
        r == cell_values(body@).contains(value),
{
    let mut i: usize = 0;
    while i < body.len()
        invariant
            forall|j: int| 0 <= j < i ==> body@[j].0 != value,
        decreases body@.len() - i,
    {
        if body[i].0 == value {
            proof {
                assert(cell_values(body@)[i as int] == value);
            }
            return true;
        }
        i += 1;
    }
    proof {
        assert(forall|j: int| 0 <= j < body@.len() ==> cell_values(body@)[j] == body@[j].0);
    }
    false
}

} // verus!
