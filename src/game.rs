use vstd::prelude::*;

use crate::position::point;
use crate::snake::Snake;

verus! {

/// What a board square shows.
#[derive(Debug, Clone, Copy, PartialEq, Eq, Structural)]
pub enum Cell {
    Empty,
    Food,
    Snake,
}

/// A coordinate outside the board was accessed.
#[derive(Debug, Clone, Copy, PartialEq, Eq, Structural)]
pub struct OutOfBounds;

/// Number of food items placed when the board runs out of food.
pub const FOOD_BATCH: usize = 10;

/// Raw random values are scaled against this bound.
pub const RAW_MAX: u64 = 65535;

/// Rejected draws after which a food placement stops drawing and takes the
/// first free square instead.
pub const MAX_DRAWS: u64 = 65536;

/// A source of uniformly distributed 16-bit values.
pub trait RandomSource {
    fn next_u16(&mut self) -> u16;
}

/// A raw 16-bit draw scaled into a board dimension: `floor(raw / 65535 * dim)`.
pub open spec fn scale(raw: u16, dim: u32) -> int {
    (raw as int * dim as int) / (RAW_MAX as int)
}

proof fn lemma_scale_bounded(raw: u16, dim: u32)
    ensures
        0 <= scale(raw, dim) <= dim,
{
    let r = raw as int;
    let d = dim as int;
    assert(0 <= r * d <= 65535 * d) by (nonlinear_arith)
        requires
            0 <= r <= 65535,
            0 <= d,
    ;
}

proof fn lemma_index_in_range(w: int, h: int, x: int, y: int)
    requires
        0 <= x < w,
        0 <= y < h,
    ensures
        0 <= x * h + y < w * h,
{
    assert(0 <= x * h) by (nonlinear_arith)
        requires
            0 <= x,
            0 <= h,
    ;
    assert(x * h + h <= w * h) by (nonlinear_arith)
        requires
            x + 1 <= w,
            0 <= h,
    ;
}

proof fn lemma_index_unique(h: int, x1: int, y1: int, x2: int, y2: int)
    requires
        0 <= y1 < h,
        0 <= y2 < h,
        x1 * h + y1 == x2 * h + y2,
    ensures
        x1 == x2,
        y1 == y2,
{
    if x1 < x2 {
        assert(x1 * h + h <= x2 * h) by (nonlinear_arith)
            requires
                x1 + 1 <= x2,
                0 <= h,
        ;
    } else if x2 < x1 {
        assert(x2 * h + h <= x1 * h) by (nonlinear_arith)
            requires
                x2 + 1 <= x1,
                0 <= h,
        ;
    }
}

proof fn lemma_remove_distinct(s: Seq<point>, i: int)
    requires
        s.no_duplicates(),
        0 <= i < s.len(),
    ensures
        s.remove(i).no_duplicates(),
        s.remove(i).len() == s.len() - 1,
        !s.remove(i).contains(s[i]),
        forall|q: point| q != s[i] ==> (s.remove(i).contains(q) <==> s.contains(q)),
{
    let r = s.remove(i);
    assert forall|k: int| 0 <= k < r.len() implies r[k] == (if k < i {
        s[k]
    } else {
        s[k + 1]
    }) && r[k] != s[i] by {
        if k >= i {
            assert(k + 1 != i);
        }
    }
    assert forall|a: int, b: int| 0 <= a < r.len() && 0 <= b < r.len() && a != b implies r[a]
        != r[b] by {
        let sa = if a < i {
            a
        } else {
            a + 1
        };
        let sb = if b < i {
            b
        } else {
            b + 1
        };
        assert(r[a] == s[sa] && r[b] == s[sb] && sa != sb);
    }
    assert forall|q: point| q != s[i] implies (r.contains(q) <==> s.contains(q)) by {
        if s.contains(q) {
            let k = choose|k: int| 0 <= k < s.len() && s[k] == q;
            if k < i {
                assert(r[k] == q);
            } else {
                assert(r[k - 1] == q);
            }
        }
        if r.contains(q) {
            let k = choose|k: int| 0 <= k < r.len() && r[k] == q;
            if k < i {
                assert(s[k] == q);
            } else {
                assert(s[k + 1] == q);
            }
        }
    }
}

/// `after` is `before` with the item at `h` taken out, when there is one.
pub open spec fn eaten(before: Seq<point>, after: Seq<point>, h: point) -> bool {
    if before.contains(h) {
        &&& after.len() == before.len() - 1
        &&& !after.contains(h)
        &&& forall|q: point| q != h ==> (after.contains(q) <==> before.contains(q))
    } else {
        after == before
    }
}

/// `after` is what topping up the food `before` on a board of `squares`
/// squares may give: unchanged when there was food, a full batch when there
/// was none and the board has room for one.
pub open spec fn refilled(before: Seq<point>, after: Seq<point>, squares: int) -> bool {
    &&& before.len() > 0 ==> after == before
    &&& before.len() == 0 ==> after.len() <= FOOD_BATCH
    &&& before.len() == 0 && squares >= FOOD_BATCH ==> after.len() == FOOD_BATCH
}

/// The square stored at position `j` of a board with `h` columns.
spec fn square_at(h: int, j: int) -> point {
    point((j / h) as i32, (j % h) as i32)
}

proof fn lemma_square_at(w: int, h: int, j: int)
    requires
        0 <= j < w * h,
        0 <= w <= i32::MAX,
        0 <= h <= i32::MAX,
    ensures
        0 < h,
        0 <= j / h < w,
        0 <= j % h < h,
        (j / h) * h + j % h == j,
{
    if h == 0 {
        assert(w * h == 0) by (nonlinear_arith)
            requires
                h == 0,
        ;
    }
    vstd::arithmetic::div_mod::lemma_fundamental_div_mod(j, h);
    vstd::arithmetic::div_mod::lemma_mod_pos_bound(j, h);
    let q = j / h;
    let r = j % h;
    assert(0 <= q < w && q * h + r == j) by (nonlinear_arith)
        requires
            h * q + r == j,
            0 <= r < h,
            0 <= j < w * h,
    ;
}

/// A well-formed game whose food covers every square holds at least as
/// many food items as the board has squares.
proof fn lemma_full_board(g: GameStatus)
    requires
        g.wf(),
        forall|j: int|
            0 <= j < g.width * g.height ==> g.foods@.contains(
                #[trigger] square_at(g.height as int, j),
            ),
    ensures
        g.foods@.len() >= g.width * g.height,
{
    let w = g.width as int;
    let h = g.height as int;
    let f = g.foods@;
    let idx = f.map_values(|p: point| p.0 * h + p.1);
    let range = vstd::set_lib::set_int_range(0, w * h);
    assert forall|j: int| range.contains(j) implies idx.to_set().contains(j) by {
        lemma_square_at(w, h, j);
        let p = square_at(h, j);
        assert(f.contains(p));
        let k = choose|k: int| 0 <= k < f.len() && f[k] == p;
        assert(idx[k] == j);
    }
    assert(0 <= w * h) by (nonlinear_arith)
        requires
            0 <= w,
            0 <= h,
    ;
    vstd::set_lib::lemma_int_range(0, w * h);
    vstd::seq_lib::seq_to_set_is_finite(idx);
    vstd::set_lib::lemma_len_subset(range, idx.to_set());
    idx.lemma_cardinality_of_set();
}

/// The board, the snake on it and the food items.
#[derive(Default)]
pub struct GameStatus {
    cells: Vec<Cell>,
    pub snake: Snake,
    foods: Vec<point>,
    pub height: u32,
    pub width: u32,
}

impl GameStatus {
    /// The board squares, row by row.
    pub closed spec fn cells_view(&self) -> Seq<Cell> {
        self.cells@
    }

    /// Number of rows: the bound on a position's `.0`.
    pub closed spec fn width_view(&self) -> u32 {
        self.width
    }

    /// Number of columns: the bound on a position's `.1`.
    pub closed spec fn height_view(&self) -> u32 {
        self.height
    }

    /// The snake on the board.
    pub closed spec fn snake_view(&self) -> Snake {
        self.snake
    }

    /// The food positions, in order of placement.
    pub closed spec fn foods_view(&self) -> Seq<point> {
        self.foods@
    }

    /// Whether `p` lies on the board.
    pub open spec fn in_bounds(&self, p: point) -> bool {
        0 <= p.0 < self.width_view() && 0 <= p.1 < self.height_view()
    }

    /// Where the square of an in-bounds position is stored.
    pub open spec fn index_of(&self, p: point) -> int {
        p.0 * self.height_view() + p.1
    }

    /// The square at an in-bounds position.
    pub open spec fn cell_at(&self, p: point) -> Cell {
        self.cells_view()[self.index_of(p)]
    }

    /// What reading position `p` gives.
    pub open spec fn lookup(&self, p: point) -> Result<Cell, OutOfBounds> {
        if self.in_bounds(p) {
            Ok(self.cell_at(p))
        } else {
            Err(OutOfBounds)
        }
    }

    /// The board holds one square per position, its dimensions fit the
    /// coordinate type, every food item is on the board, and no two food
    /// items share a position.
    pub open spec fn wf(&self) -> bool {
        &&& self.width_view() <= i32::MAX
        &&& self.height_view() <= i32::MAX
        &&& self.width_view() * self.height_view() <= u32::MAX
        &&& self.cells_view().len() == self.width_view() * self.height_view()
        &&& self.foods_view().no_duplicates()
        &&& forall|i: int|
            0 <= i < self.foods_view().len() ==> self.in_bounds(#[trigger] self.foods_view()[i])
    }

    /// The session has ended: the head is on the body or off the board.
    pub open spec fn game_over(&self) -> bool {
        self.snake_view().self_colliding() || !self.in_bounds(self.snake_view().head_view())
    }

    /// The square a full repaint gives position `p`: the snake drawn over
    /// food drawn over empty board.
    pub open spec fn painted(&self, p: point) -> Cell {
        if p == self.snake_view().head_view() || self.snake_view().tail_view().contains(p) {
            Cell::Snake
        } else if self.foods_view().contains(p) {
            Cell::Food
        } else {
            Cell::Empty
        }
    }

    /// The food position that a pair of raw draws stands for.
    pub open spec fn candidate(&self, raw_x: u16, raw_y: u16) -> point {
        point(scale(raw_x, self.width_view()) as i32, scale(raw_y, self.height_view()) as i32)
    }

    /// An empty `height` by `width` board with a one-segment snake at the
    /// origin and no food.
    pub fn new(height: u32, width: u32) -> (r: GameStatus)
        requires
            height <= i32::MAX,
            width <= i32::MAX,
            height * width <= u32::MAX,
        ensures
            r.wf(),
            r.height_view() == height,
            r.width_view() == width,
            r.snake_view().head_view() == point(0, 0),
            r.snake_view().tail_view() == seq![point(0, 0)],
            r.foods_view().len() == 0,
            r.cells_view().len() == width * height,
            forall|i: int| 0 <= i < r.cells_view().len() ==> r.cells_view()[i] == Cell::Empty,
    {
        let matrix_size = (height * width) as usize;
        let mut cells: Vec<Cell> = Vec::new();
        while cells.len() < matrix_size
            invariant
                cells@.len() <= matrix_size,
                forall|i: int| 0 <= i < cells@.len() ==> cells@[i] == Cell::Empty,
            decreases matrix_size - cells@.len(),
        {
            cells.push(Cell::Empty);
        }
        let r = GameStatus { snake: Snake::new((0, 0)), cells, foods: Vec::new(), height, width };
        proof {
            assert(height as int * width as int == width as int * height as int) by (nonlinear_arith);
            assert(r.foods@.len() == 0);
        }
        r
    }

    /// Whether `p` lies on the board.
    pub fn is_on_board(&self, p: point) -> (r: bool)
        ensures
            r == self.in_bounds(p),
    {
        p.0 >= 0 && (p.0 as u32) < self.width && p.1 >= 0 && (p.1 as u32) < self.height
    }

    fn index(&self, p: point) -> (i: usize)
        requires
            self.wf(),
            self.in_bounds(p),
        ensures
            i == self.index_of(p),
            i < self.cells_view().len(),
    {
        proof {
            lemma_index_in_range(self.width as int, self.height as int, p.0 as int, p.1 as int);
        }
        (p.0 as usize) * (self.height as usize) + (p.1 as usize)
    }

    /// The square at `p`, or `OutOfBounds`.
    pub fn get_cell(&self, p: point) -> (r: Result<Cell, OutOfBounds>)
        requires
            self.wf(),
        ensures
            r == self.lookup(p),
    {
        if !self.is_on_board(p) {
            return Err(OutOfBounds);
        }
        Ok(self.cells[self.index(p)])
    }

    /// Whether the session has ended: the head is on the body or off the
    /// board.
    pub fn is_gameover(&self) -> (r: bool)
        ensures
            r == self.game_over(),
    {
        let head = self.snake.get_head();
        self.snake.is_self_eating() || !self.is_on_board(head)
    }

    /// If the head is on a food item, removes that item and grows the snake
    /// by one segment; otherwise changes nothing.
    pub fn eat(&mut self)
        requires
            old(self).wf(),
        ensures
            final(self).wf(),
            final(self).width_view() == old(self).width_view(),
            final(self).height_view() == old(self).height_view(),
            final(self).cells_view() == old(self).cells_view(),
            final(self).snake_view().head_view() == old(self).snake_view().head_view(),
            ({
                let h = old(self).snake_view().head_view();
                &&& eaten(old(self).foods_view(), final(self).foods_view(), h)
                &&& old(self).foods_view().contains(h) ==> final(self).snake_view().tail_view()
                    == old(self).snake_view().tail_view().push(h)
                &&& !old(self).foods_view().contains(h) ==> final(self).snake_view() == old(
                    self,
                ).snake_view()
            }),
    {
        let head = self.snake.get_head();
        let mut i: usize = 0;
        while i < self.foods.len()
            invariant
                *self == *old(self),
                self.wf(),
                head == self.snake.head_view(),
                0 <= i <= self.foods@.len(),
                forall|j: int| 0 <= j < i ==> self.foods@[j] != head,
            decreases self.foods@.len() - i,
        {
            if self.foods[i] == head {
                proof {
                    lemma_remove_distinct(self.foods@, i as int);
                }
                self.foods.remove(i);
                self.snake.grow_at_head();
                return;
            }
            i = i + 1;
        }
    }

    /// Adds `c` as food when it is on the board and not food yet.
    /// Returns whether it was added.
    fn try_add_food(&mut self, c: point) -> (added: bool)
        requires
            old(self).wf(),
        ensures
            final(self).wf(),
            final(self).width == old(self).width,
            final(self).height == old(self).height,
            final(self).snake == old(self).snake,
            final(self).cells@ == old(self).cells@,
            added == (old(self).in_bounds(c) && !old(self).foods@.contains(c)),
            added ==> final(self).foods@ == old(self).foods@.push(c),
            !added ==> final(self).foods@ == old(self).foods@,
    {
        if !self.is_on_board(c) {
            return false;
        }
        let mut i: usize = 0;
        while i < self.foods.len()
            invariant
                self.wf(),
                self.width == old(self).width,
                self.height == old(self).height,
                self.snake == old(self).snake,
                self.cells@ == old(self).cells@,
                self.foods@ == old(self).foods@,
                self.in_bounds(c),
                0 <= i <= self.foods@.len(),
                forall|j: int| 0 <= j < i ==> self.foods@[j] != c,
            decreases self.foods@.len() - i,
        {
            if self.foods[i] == c {
                assert(self.foods@[i as int] == c);
                return false;
            }
            i = i + 1;
        }
        self.foods.push(c);
        proof {
            let s = self.foods@;
            assert forall|a: int, b: int| 0 <= a < s.len() && 0 <= b < s.len() && a != b implies s[a]
                != s[b] by {
                if a < s.len() - 1 && b < s.len() - 1 {
                    assert(old(self).foods@.no_duplicates());
                }
            }
            assert forall|k: int| 0 <= k < s.len() implies self.in_bounds(#[trigger] s[k]) by {
                if k < s.len() - 1 {
                    assert(s[k] == old(self).foods@[k]);
                }
            }
        }
        true
    }

    /// One placement attempt: scales the raw draws to a candidate position
    /// and adds it as food when it is on the board and no food item is
    /// there yet. Returns whether it was added.
    pub fn place_food(&mut self, raw_x: u16, raw_y: u16) -> (placed: bool)
        requires
            old(self).wf(),
        ensures
            final(self).wf(),
            final(self).width_view() == old(self).width_view(),
            final(self).height_view() == old(self).height_view(),
            final(self).snake_view() == old(self).snake_view(),
            final(self).cells_view() == old(self).cells_view(),
            placed == (old(self).in_bounds(old(self).candidate(raw_x, raw_y))
                && !old(self).foods_view().contains(old(self).candidate(raw_x, raw_y))),
            placed ==> final(self).foods_view() == old(self).foods_view().push(
                old(self).candidate(raw_x, raw_y),
            ),
            !placed ==> final(self).foods_view() == old(self).foods_view(),
    {
        proof {
            lemma_scale_bounded(raw_x, self.width);
            lemma_scale_bounded(raw_y, self.height);
        }
        let x = ((raw_x as u64) * (self.width as u64) / RAW_MAX) as i32;
        let y = ((raw_y as u64) * (self.height as u64) / RAW_MAX) as i32;
        self.try_add_food(point(x, y))
    }

    /// Draws candidates from `rng` until one is on the board where there is
    /// no food yet, and adds it. After `MAX_DRAWS` rejected candidates it
    /// takes the first free square in storage order instead. Returns `false`
    /// only when every square already holds food; nothing changes then.
    pub fn generate_food<R: RandomSource>(&mut self, rng: &mut R) -> (placed: bool)
        requires
            old(self).wf(),
        ensures
            final(self).wf(),
            final(self).width_view() == old(self).width_view(),
            final(self).height_view() == old(self).height_view(),
            final(self).snake_view() == old(self).snake_view(),
            final(self).cells_view() == old(self).cells_view(),
            placed ==> exists|c: point|
                {
                    &&& old(self).in_bounds(c)
                    &&& !old(self).foods_view().contains(c)
                    &&& final(self).foods_view() == #[trigger] old(self).foods_view().push(c)
                },
            !placed ==> final(self).foods_view() == old(self).foods_view()
                && old(self).foods_view().len() >= old(self).width_view() * old(
                self,
            ).height_view(),
    {
        let mut budget: u64 = MAX_DRAWS;
        while budget > 0
            invariant
                self.wf(),
                self.width == old(self).width,
                self.height == old(self).height,
                self.snake == old(self).snake,
                self.cells@ == old(self).cells@,
                self.foods@ == old(self).foods@,
            decreases budget,
        {
            let raw_x = rng.next_u16();
            let raw_y = rng.next_u16();
            let ghost c = self.candidate(raw_x, raw_y);
            if self.place_food(raw_x, raw_y) {
                assert(self.foods_view() == old(self).foods_view().push(c));
                assert(old(self).in_bounds(c) && !old(self).foods_view().contains(c));
                return true;
            }
            budget = budget - 1;
        }
        let n = self.cells.len();
        let h = self.height as usize;
        let mut i: usize = 0;
        while i < n
            invariant
                self.wf(),
                self.width == old(self).width,
                self.height == old(self).height,
                self.snake == old(self).snake,
                self.cells@ == old(self).cells@,
                self.foods@ == old(self).foods@,
                n == self.cells@.len(),
                h == self.height,
                0 <= i <= n,
                forall|j: int| 0 <= j < i ==> self.foods@.contains(#[trigger] square_at(h as int, j)),
            decreases n - i,
        {
            proof {
                lemma_square_at(self.width as int, h as int, i as int);
            }
            let p = point((i / h) as i32, (i % h) as i32);
            assert(p == square_at(h as int, i as int));
            if self.try_add_food(p) {
                assert(self.foods_view() == old(self).foods_view().push(p));
                return true;
            }
            i = i + 1;
        }
        proof {
            lemma_full_board(*self);
        }
        false
    }

    /// When there is no food, places a batch of `FOOD_BATCH` items (fewer
    /// only when the board has fewer squares); otherwise changes nothing.
    pub fn generate_food_if_empty<R: RandomSource>(&mut self, rng: &mut R)
        requires
            old(self).wf(),
        ensures
            final(self).wf(),
            final(self).width_view() == old(self).width_view(),
            final(self).height_view() == old(self).height_view(),
            final(self).snake_view() == old(self).snake_view(),
            final(self).cells_view() == old(self).cells_view(),
            old(self).foods_view().len() > 0 ==> final(self).foods_view() == old(
                self,
            ).foods_view(),
            old(self).foods_view().len() == 0 ==> final(self).foods_view().len() <= FOOD_BATCH,
            old(self).foods_view().len() == 0 && old(self).width_view() * old(self).height_view()
                >= FOOD_BATCH ==> final(self).foods_view().len() == FOOD_BATCH,
    {
        if self.foods.len() == 0 {
            let mut k: usize = 0;
            while k < FOOD_BATCH
                invariant
                    self.wf(),
                    self.width == old(self).width,
                    self.height == old(self).height,
                    self.snake == old(self).snake,
                    self.cells@ == old(self).cells@,
                    0 <= k <= FOOD_BATCH,
                    self.foods@.len() <= k,
                    self.width * self.height >= FOOD_BATCH ==> self.foods@.len() == k,
                decreases FOOD_BATCH - k,
            {
                self.generate_food(rng);
                k = k + 1;
            }
        }
    }

    /// Repaints every square: all empty, then the food items, then the body
    /// segments, then the head. Positions off the board are skipped.
    pub fn update_matrix(&mut self)
        requires
            old(self).wf(),
        ensures
            final(self).wf(),
            final(self).width_view() == old(self).width_view(),
            final(self).height_view() == old(self).height_view(),
            final(self).snake_view() == old(self).snake_view(),
            final(self).foods_view() == old(self).foods_view(),
            forall|p: point|
                old(self).in_bounds(p) ==> #[trigger] final(self).cell_at(p) == old(self).painted(p),
    {
        let mut i: usize = 0;
        while i < self.cells.len()
            invariant
                self.wf(),
                self.width == old(self).width,
                self.height == old(self).height,
                self.snake == old(self).snake,
                self.foods@ == old(self).foods@,
                0 <= i <= self.cells@.len(),
                forall|j: int| 0 <= j < i ==> self.cells@[j] == Cell::Empty,
            decreases self.cells@.len() - i,
        {
            self.cells.set(i, Cell::Empty);
            i = i + 1;
        }
        proof {
            assert forall|p: point| self.in_bounds(p) implies #[trigger] self.cell_at(p)
                == Cell::Empty by {
                lemma_index_in_range(self.width as int, self.height as int, p.0 as int, p.1 as int);
            }
        }
        let mut k: usize = 0;
        while k < self.foods.len()
            invariant
                self.wf(),
                self.width == old(self).width,
                self.height == old(self).height,
                self.snake == old(self).snake,
                self.foods@ == old(self).foods@,
                0 <= k <= self.foods@.len(),
                forall|p: point|
                    self.in_bounds(p) ==> #[trigger] self.cell_at(p) == if self.foods@.subrange(
                        0,
                        k as int,
                    ).contains(p) {
                        Cell::Food
                    } else {
                        Cell::Empty
                    },
            decreases self.foods@.len() - k,
        {
            let q = self.foods[k];
            self.paint(q, Cell::Food);
            proof {
                let before = self.foods@.subrange(0, k as int);
                let after = self.foods@.subrange(0, k + 1);
                assert(after == before.push(q));
                assert forall|p: point| p != q implies (after.contains(p) <==> before.contains(p)) by {
                    if after.contains(p) {
                        let j = choose|j: int| 0 <= j < after.len() && after[j] == p;
                        assert(before[j] == p);
                    }
                    if before.contains(p) {
                        let j = choose|j: int| 0 <= j < before.len() && before[j] == p;
                        assert(after[j] == p);
                    }
                }
                assert(after[k as int] == q);
            }
            k = k + 1;
        }
        proof {
            assert(self.foods@.subrange(0, self.foods@.len() as int) == self.foods@);
        }
        let n = self.snake.get_tail_len();
        let mut k: usize = 0;
        while k < n
            invariant
                self.wf(),
                self.width == old(self).width,
                self.height == old(self).height,
                self.snake == old(self).snake,
                self.foods@ == old(self).foods@,
                n == self.snake.tail_view().len(),
                0 <= k <= n,
                forall|p: point|
                    self.in_bounds(p) ==> #[trigger] self.cell_at(p) == if self.snake.tail_view().subrange(
                        0,
                        k as int,
                    ).contains(p) {
                        Cell::Snake
                    } else if self.foods@.contains(p) {
                        Cell::Food
                    } else {
                        Cell::Empty
                    },
            decreases n - k,
        {
            let q = self.snake.get_tail()[k];
            self.paint(q, Cell::Snake);
            proof {
                let before = self.snake.tail_view().subrange(0, k as int);
                let after = self.snake.tail_view().subrange(0, k + 1);
                assert(after == before.push(q));
                assert forall|p: point| p != q implies (after.contains(p) <==> before.contains(p)) by {
                    if after.contains(p) {
                        let j = choose|j: int| 0 <= j < after.len() && after[j] == p;
                        assert(before[j] == p);
                    }
                    if before.contains(p) {
                        let j = choose|j: int| 0 <= j < before.len() && before[j] == p;
                        assert(after[j] == p);
                    }
                }
                assert(after[k as int] == q);
            }
            k = k + 1;
        }
        proof {
            assert(self.snake.tail_view().subrange(0, n as int) == self.snake.tail_view());
        }
        let head = self.snake.get_head();
        self.paint(head, Cell::Snake);
    }

    /// Writes `cell` at `p` when `p` is on the board; leaves every other
    /// square as it was.
    fn paint(&mut self, p: point, cell: Cell)
        requires
            old(self).wf(),
        ensures
            final(self).wf(),
            final(self).width == old(self).width,
            final(self).height == old(self).height,
            final(self).snake == old(self).snake,
            final(self).foods@ == old(self).foods@,
            forall|r: point|
                old(self).in_bounds(r) ==> #[trigger] final(self).cell_at(r) == if r == p {
                    cell
                } else {
                    old(self).cell_at(r)
                },
    {
        let _ = self.set_cell(p, cell);
        proof {
            assert forall|r: point| old(self).in_bounds(r) implies #[trigger] self.cell_at(r) == if r
                == p {
                cell
            } else {
                old(self).cell_at(r)
            } by {
                lemma_index_in_range(self.width as int, self.height as int, r.0 as int, r.1 as int);
                if old(self).in_bounds(p) {
                    lemma_index_in_range(self.width as int, self.height as int, p.0 as int, p.1 as int);
                    if self.index_of(r) == self.index_of(p) {
                        lemma_index_unique(
                            self.height as int,
                            r.0 as int,
                            r.1 as int,
                            p.0 as int,
                            p.1 as int,
                        );
                        assert(r == p);
                    }
                }
            }
        }
    }

    /// One step of the session: tops up food, moves the snake by
    /// `direction`, and unless that ended the session eats and repaints.
    /// Returns whether the session goes on.
    pub fn tick<R: RandomSource>(&mut self, direction: point, rng: &mut R) -> (running: bool)
        requires
            old(self).wf(),
            old(self).in_bounds(old(self).snake_view().head_view()),
            -1 <= direction.0 <= 1,
            -1 <= direction.1 <= 1,
        ensures
            final(self).wf(),
            final(self).width_view() == old(self).width_view(),
            final(self).height_view() == old(self).height_view(),
            ({
                let h = old(self).snake_view().head_view();
                let moved = point((h.0 + direction.0) as i32, (h.1 + direction.1) as i32);
                let slid = Snake::slid_tail(old(self).snake_view().tail_view(), h);
                &&& final(self).snake_view().head_view() == moved
                &&& running == (old(self).in_bounds(moved) && !slid.contains(moved))
                &&& !running ==> final(self).game_over() && final(self).snake_view().tail_view()
                    == slid
                &&& exists|f: Seq<point>|
                    {
                        &&& #[trigger] refilled(
                            old(self).foods_view(),
                            f,
                            old(self).width_view() * old(self).height_view(),
                        )
                        &&& !running ==> final(self).foods_view() == f
                        &&& running ==> eaten(f, final(self).foods_view(), moved)
                        &&& running ==> final(self).snake_view().tail_view() == if f.contains(
                            moved,
                        ) {
                            slid.push(moved)
                        } else {
                            slid
                        }
                    }
            }),
            running ==> (forall|p: point|
                final(self).in_bounds(p) ==> #[trigger] final(self).cell_at(p)
                    == final(self).painted(p)),
    {
        self.generate_food_if_empty(rng);
        let ghost f = self.foods@;
        assert(refilled(old(self).foods@, f, old(self).width * old(self).height));
        let moved = self.move_snake(direction);
        if !moved || self.is_gameover() {
            return false;
        }
        self.eat();
        self.update_matrix();
        true
    }

    /// Moves the snake by `direction`; see `Snake::move_snake`. Returns
    /// `false` exactly when the new head lands on the body.
    pub fn move_snake(&mut self, direction: point) -> (r: bool)
        requires
            old(self).snake_view().can_move(direction),
        ensures
            final(self).width_view() == old(self).width_view(),
            final(self).height_view() == old(self).height_view(),
            final(self).cells_view() == old(self).cells_view(),
            final(self).foods_view() == old(self).foods_view(),
            final(self).snake_view().head_view().0 == old(self).snake_view().head_view().0
                + direction.0,
            final(self).snake_view().head_view().1 == old(self).snake_view().head_view().1
                + direction.1,
            final(self).snake_view().tail_view() == Snake::slid_tail(
                old(self).snake_view().tail_view(),
                old(self).snake_view().head_view(),
            ),
            r == !final(self).snake_view().self_colliding(),
    {
        self.snake.move_snake(direction)
    }

    /// The snake on the board.
    pub fn get_snake(&self) -> (r: &Snake)
        ensures
            *r == self.snake_view(),
    {
        &self.snake
    }

    /// Writes `cell` at `p`, or returns `OutOfBounds` and changes nothing.
    pub fn set_cell(&mut self, p: point, cell: Cell) -> (r: Result<(), OutOfBounds>)
        requires
            old(self).wf(),
        ensures
            final(self).wf(),
            final(self).width_view() == old(self).width_view(),
            final(self).height_view() == old(self).height_view(),
            final(self).snake_view() == old(self).snake_view(),
            final(self).foods_view() == old(self).foods_view(),
            old(self).in_bounds(p) ==> r == Ok::<(), OutOfBounds>(())
                && final(self).cells_view() == old(self).cells_view().update(
                old(self).index_of(p),
                cell,
            ),
            !old(self).in_bounds(p) ==> r == Err::<(), OutOfBounds>(OutOfBounds)
                && final(self).cells_view() == old(self).cells_view(),
    {
        if !self.is_on_board(p) {
            return Err(OutOfBounds);
        }
        let i = self.index(p);
        self.cells.set(i, cell);
        Ok(())
    }
}

/// Reading an on-board square right after writing `c` there gives `c`.
pub proof fn lemma_get_after_set(before: GameStatus, after: GameStatus, p: point, c: Cell)
    requires
        before.wf(),
        before.in_bounds(p),
        after.width_view() == before.width_view(),
        after.height_view() == before.height_view(),
        after.cells_view() == before.cells_view().update(before.index_of(p), c),
    ensures
        after.lookup(p) == Ok::<Cell, OutOfBounds>(c),
{
    lemma_index_in_range(before.width as int, before.height as int, p.0 as int, p.1 as int);
}

/// The positions just outside each edge of the board are out of bounds, for
/// reading and for writing alike.
pub proof fn lemma_edges_out_of_bounds(g: GameStatus, x: i32, y: i32)
    requires
        g.wf(),
    ensures
        !g.in_bounds(point(-1i32, y)),
        !g.in_bounds(point(g.width_view() as i32, y)),
        !g.in_bounds(point(x, -1i32)),
        !g.in_bounds(point(x, g.height_view() as i32)),
        g.lookup(point(-1i32, y)) == Err::<Cell, OutOfBounds>(OutOfBounds),
        g.lookup(point(g.width_view() as i32, y)) == Err::<Cell, OutOfBounds>(OutOfBounds),
        g.lookup(point(x, -1i32)) == Err::<Cell, OutOfBounds>(OutOfBounds),
        g.lookup(point(x, g.height_view() as i32)) == Err::<Cell, OutOfBounds>(OutOfBounds),
{
}

/// No two food items of a well-formed game share a position, and each lies
/// on the board; every operation that places food keeps the game
/// well-formed.
pub proof fn lemma_foods_distinct(g: GameStatus)
    requires
        g.wf(),
    ensures
        g.foods_view().no_duplicates(),
        forall|i: int|
            0 <= i < g.foods_view().len() ==> g.in_bounds(#[trigger] g.foods_view()[i]),
{
}

/// A head one step past any edge of the board ends the session.
pub proof fn lemma_leaving_board_ends_game(g: GameStatus)
    requires
        g.wf(),
        ({
            let h = g.snake_view().head_view();
            h.0 == -1 || h.0 == g.width_view() || h.1 == -1 || h.1 == g.height_view()
        }),
    ensures
        g.game_over(),
{
}

} // verus!
