//! The toroidal Game of Life grid: data model, neighbor addressing,
//! generation stepping, and manual editing.

use vstd::prelude::*;

verus! {

use vstd::arithmetic::div_mod::{
    lemma_fundamental_div_mod,
    lemma_mod_bound,
    lemma_mod_multiples_vanish,
    lemma_small_mod,
};
use vstd::arithmetic::mul::{lemma_mul_inequality, lemma_mul_is_commutative};

/// The two ways a caller can violate the grid's contracts.
#[derive(Clone, Copy, Debug, PartialEq, Eq, Structural)]
pub enum GridError {
    /// `create_grid` was handed a zero width or height.
    InvalidDimension,
    /// `toggle` was handed a row or column outside the grid.
    OutOfBounds,
}

/// Row or column index one step toward the origin, wrapping at the edge:
/// the left neighbor of column 0 is column `m - 1`.
pub open spec fn wrap_dec(x: int, m: int) -> int {
    (x - 1 + m) % m
}

/// Row or column index one step away from the origin, wrapping at the edge:
/// the right neighbor of column `m - 1` is column 0.
pub open spec fn wrap_inc(x: int, m: int) -> int {
    (x + 1) % m
}

/// 1 if the cell at `(row, col)` of a row-major sequence of width `w` is
/// alive, else 0; a summand of `neighbor_count`.
pub open spec fn alive_at(cells: Seq<bool>, w: int, row: int, col: int) -> int {
    if cells[row * w + col] {
        1int
    } else {
        0int
    }
}

/// Number of alive cells among the eight toroidal neighbors of `(row, col)`,
/// read from `cells` as a row-major grid of width `w` and height `h`.
pub open spec fn neighbor_count(cells: Seq<bool>, w: int, h: int, row: int, col: int) -> int {
    let up = wrap_dec(row, h);
    let down = wrap_inc(row, h);
    let left = wrap_dec(col, w);
    let right = wrap_inc(col, w);
    alive_at(cells, w, up, left) + alive_at(cells, w, up, col) + alive_at(cells, w, up, right)
        + alive_at(cells, w, row, left) + alive_at(cells, w, row, right) + alive_at(
        cells,
        w,
        down,
        left,
    ) + alive_at(cells, w, down, col) + alive_at(cells, w, down, right)
}

/// Conway's rule for one cell: an alive cell survives with 2 or 3 alive
/// neighbors, a dead cell is born with exactly 3, anything else is dead.
pub open spec fn next_cell(alive: bool, neighbors: int) -> bool {
    if alive {
        2 <= neighbors <= 3
    } else {
        neighbors == 3
    }
}

/// One full generation: every cell of the new state is Conway's rule applied
/// to the old state, so the result is a function of the old state alone.
pub open spec fn step_spec(cells: Seq<bool>, w: int, h: int) -> Seq<bool> {
    Seq::new(
        (w * h) as nat,
        |i: int| next_cell(cells[i], neighbor_count(cells, w, h, i / w, i % w)),
    )
}

/// Every cell of the sequence is dead.
pub open spec fn all_dead(cells: Seq<bool>) -> bool {
    forall|i: int| 0 <= i < cells.len() ==> !cells[i]
}

/// The alive cells among positions `0 .. n` of a row-major sequence of width
/// `w`, in position order, each given as a `(row, col)` pair.
pub open spec fn alive_pairs(cells: Seq<bool>, w: int, n: int) -> Seq<(usize, usize)>
    decreases n,
{
    if n <= 0 {
        Seq::empty()
    } else if cells[n - 1] {
        alive_pairs(cells, w, n - 1).push(((((n - 1) / w) as usize, ((n - 1) % w) as usize)))
    } else {
        alive_pairs(cells, w, n - 1)
    }
}

/// Relies on rand::random: one independent draw from a uniform random
/// source; nothing is promised of the value.
#[verifier::external_body]
fn random_u32() -> u32 {
    rand::random::<u32>()
}

/// `count` fresh draws from the random source, in draw order. Only the
/// length is pinned: the values are random.
fn random_draws(count: usize) -> (draws: Vec<u32>)
    ensures
        draws@.len() == count,
{
    let mut draws: Vec<u32> = Vec::new();
    while draws.len() < count
        invariant
            draws@.len() <= count,
        decreases count - draws@.len(),
    {
        draws.push(random_u32());
    }
    draws
}

/// The rule that turns draws into cells: cell `k` is alive exactly when
/// draw `k` is odd. A uniform 32-bit draw is odd with probability one half,
/// so each cell is set independently with that probability; handing in a
/// chosen draw sequence gives a chosen, reproducible pattern.
pub fn cells_from_draws(draws: &Vec<u32>) -> (cells: Vec<bool>)
    ensures
        cells@.len() == draws@.len(),
        forall|k: int| 0 <= k < draws@.len() ==> cells@[k] == (draws@[k] % 2 == 1),
{
    let mut cells: Vec<bool> = Vec::new();
    let mut i: usize = 0;
    while i < draws.len()
        invariant
            i <= draws@.len(),
            cells@.len() == i,
            forall|k: int| 0 <= k < i ==> cells@[k] == (draws@[k] % 2 == 1),
        decreases draws@.len() - i,
    {
        let draw = draws[i];
        cells.push(draw % 2 == 1);
        i = i + 1;
    }
    cells
}

/// A fixed-size Game of Life board with wraparound (toroidal) edges.
///
/// Cell states live in a flat, row-major vector: index `i` holds the cell at
/// column `i % width`, row `i / width`. The dimensions never change after
/// construction, and the vector's length is always `width * height`.
pub struct Grid {
    width: usize,
    height: usize,
    cells: Vec<bool>,
}

impl View for Grid {
    type V = Seq<bool>;

    /// A grid is modeled as the sequence of its cell states.
    closed spec fn view(&self) -> Seq<bool> {
        self.cells@
    }
}

impl Grid {
    /// Number of columns.
    pub closed spec fn spec_width(&self) -> int {
        self.width as int
    }

    /// Number of rows.
    pub closed spec fn spec_height(&self) -> int {
        self.height as int
    }

    /// The dimension invariant: positive extents, and exactly one cell state
    /// per grid position. Every constructor establishes this and every method
    /// preserves it.
    pub open spec fn wf(&self) -> bool {
        &&& self.spec_width() >= 1
        &&& self.spec_height() >= 1
        &&& self@.len() == self.spec_width() * self.spec_height()
    }

    /// Builds a grid of the given extents, each cell independently alive
    /// with probability one half. Zero extents are rejected with
    /// `InvalidDimension`, and are the only inputs that are.
    pub fn create_grid(width: usize, height: usize) -> (r: Result<Grid, GridError>)
        requires
            width * height <= usize::MAX,
        ensures
            width >= 1 && height >= 1 ==> {
                &&& r is Ok
                &&& r->Ok_0.wf()
                &&& r->Ok_0.spec_width() == width
                &&& r->Ok_0.spec_height() == height
            },
            width == 0 || height == 0 ==> r == Result::<Grid, GridError>::Err(
                GridError::InvalidDimension,
            ),
    {
        if width == 0 || height == 0 {
            return Err(GridError::InvalidDimension);
        }
        let area = width * height;
        let draws = random_draws(area);
        let cells = cells_from_draws(&draws);
        Ok(Grid { width, height, cells })
    }

    /// Re-randomizes every cell, as constructing anew with the same extents
    /// would; the dimensions and the cell count stay as they were.
    pub fn reset(&mut self)
        requires
            old(self).wf(),
        ensures
            final(self).wf(),
            final(self).spec_width() == old(self).spec_width(),
            final(self).spec_height() == old(self).spec_height(),
            final(self)@.len() == old(self)@.len(),
    {
        let area = self.cells.len();
        let draws = random_draws(area);
        self.cells = cells_from_draws(&draws);
    }

    /// Number of columns.
    pub fn width(&self) -> (w: usize)
        ensures
            w as int == self.spec_width(),
    {
        self.width
    }

    /// Number of rows.
    pub fn height(&self) -> (h: usize)
        ensures
            h as int == self.spec_height(),
    {
        self.height
    }

    /// Reads one cell of the current generation.
    pub fn is_alive(&self, row: usize, col: usize) -> (alive: bool)
        requires
            self.wf(),
            row < self.spec_height(),
            col < self.spec_width(),
        ensures
            alive == self@[row * self.spec_width() + col],
    {
        proof {
            lemma_row_major_index_bounds(
                self.spec_width(),
                self.spec_height(),
                row as int,
                col as int,
            );
        }
        let n = self.cells.len();
        assert(row * self.width + col < n);
        self.cells[row * self.width + col]
    }

    /// The `(row, col)` positions of every alive cell of the current
    /// generation, in row-major order: what a renderer needs to build one
    /// frame's geometry.
    pub fn alive_cells(&self) -> (pairs: Vec<(usize, usize)>)
        requires
            self.wf(),
        ensures
            pairs@ == alive_pairs(self@, self.spec_width(), self@.len() as int),
    {
        let w = self.width;
        let area = self.cells.len();
        let mut pairs: Vec<(usize, usize)> = Vec::new();
        let mut i: usize = 0;
        while i < area
            invariant
                w >= 1,
                w as int == self.spec_width(),
                area == self@.len(),
                i <= area,
                pairs@ == alive_pairs(self@, w as int, i as int),
            decreases area - i,
        {
            if self.cells[i] {
                let row = i / w;
                let col = i % w;
                pairs.push((row, col));
            }
            i = i + 1;
        }
        pairs
    }

    /// Advances the whole grid by one generation. Every new cell value is
    /// Conway's rule applied to the previous generation only, so the result
    /// is pinned by the prior state alone — repeated runs from equal states
    /// are bit-for-bit equal.
    pub fn next_state(&mut self)
        requires
            old(self).wf(),
        ensures
            final(self).wf(),
            final(self).spec_width() == old(self).spec_width(),
            final(self).spec_height() == old(self).spec_height(),
            final(self)@ == step_spec(old(self)@, old(self).spec_width(), old(self).spec_height()),
    {
        let w = self.width;
        let h = self.height;
        let area = self.cells.len();
        let ghost prev = self.cells@;
        let mut next: Vec<bool> = Vec::new();
        let mut i: usize = 0;
        while i < area
            invariant
                w >= 1,
                h >= 1,
                w as int == self.spec_width(),
                h as int == self.spec_height(),
                self@ == prev,
                area == prev.len(),
                area == w * h,
                i <= area,
                next@.len() == i,
                forall|j: int|
                    0 <= j < i ==> next@[j] == step_spec(prev, w as int, h as int)[j],
            decreases area - i,
        {
            proof {
                lemma_row_major_decompose(w as int, h as int, i as int);
            }
            let row = i / w;
            let col = i % w;
            let alive = self.cells[i];
            let n = count_alive_neighbors(&self.cells, w, h, row, col);
            let born = if alive {
                n == 2 || n == 3
            } else {
                n == 3
            };
            next.push(born);
            i = i + 1;
        }
        proof {
            assert(next@ =~= step_spec(prev, w as int, h as int));
        }
        self.cells = next;
    }

    /// Sets every cell to dead. The dimensions and the cell count stay as
    /// they were.
    pub fn clear_grid(&mut self)
        requires
            old(self).wf(),
        ensures
            final(self).wf(),
            final(self).spec_width() == old(self).spec_width(),
            final(self).spec_height() == old(self).spec_height(),
            final(self)@.len() == old(self)@.len(),
            all_dead(final(self)@),
    {
        let area = self.cells.len();
        let mut cleared: Vec<bool> = Vec::new();
        while cleared.len() < area
            invariant
                cleared@.len() <= area,
                all_dead(cleared@),
            decreases area - cleared@.len(),
        {
            cleared.push(false);
        }
        self.cells = cleared;
    }

    /// Flips the cell at `(row, col)`; every other cell keeps its state.
    /// A position outside the grid is rejected with `OutOfBounds` and the
    /// grid is left untouched.
    pub fn toggle(&mut self, row: usize, col: usize) -> (r: Result<(), GridError>)
        requires
            old(self).wf(),
        ensures
            final(self).wf(),
            final(self).spec_width() == old(self).spec_width(),
            final(self).spec_height() == old(self).spec_height(),
            row < old(self).spec_height() && col < old(self).spec_width() ==> {
                &&& r == Result::<(), GridError>::Ok(())
                &&& final(self)@ == old(self)@.update(
                    row * old(self).spec_width() + col,
                    !old(self)@[row * old(self).spec_width() + col],
                )
            },
            !(row < old(self).spec_height() && col < old(self).spec_width()) ==> {
                &&& r == Result::<(), GridError>::Err(GridError::OutOfBounds)
                &&& *final(self) == *old(self)
            },
    {
        if row < self.height && col < self.width {
            proof {
                lemma_row_major_index_bounds(
                    self.spec_width(),
                    self.spec_height(),
                    row as int,
                    col as int,
                );
            }
            let n = self.cells.len();
            let idx = row * self.width + col;
            assert(idx < n);
            let cur = self.cells[idx];
            self.cells[idx] = !cur;
            Ok(())
        } else {
            Err(GridError::OutOfBounds)
        }
    }
}

/// A row-major index `row * w + col` with `row < h` and `col < w` lies inside
/// the grid's `w * h` cells.
pub proof fn lemma_row_major_index_bounds(w: int, h: int, row: int, col: int)
    by (nonlinear_arith)
    requires
        w >= 1,
        h >= 1,
        0 <= row < h,
        0 <= col < w,
    ensures
        0 <= row * w + col < w * h,
{
}

/// The wrapped steps written with `%` agree with their branch form: one step
/// toward the origin from 0 lands on `m - 1`, otherwise on `x - 1`; one step
/// away from `m - 1` lands on 0, otherwise on `x + 1`. Both stay in `[0, m)`.
pub proof fn lemma_wrap_forms(x: int, m: int)
    requires
        0 <= x < m,
    ensures
        wrap_dec(x, m) == if x == 0 {
            m - 1
        } else {
            x - 1
        },
        wrap_inc(x, m) == if x == m - 1 {
            0int
        } else {
            x + 1
        },
        0 <= wrap_dec(x, m) < m,
        0 <= wrap_inc(x, m) < m,
{
    if x == 0 {
        lemma_small_mod((m - 1) as nat, m as nat);
    } else {
        lemma_mod_multiples_vanish(1, x - 1, m);
        lemma_small_mod((x - 1) as nat, m as nat);
    }
    if x == m - 1 {
        lemma_mod_multiples_vanish(1, 0, m);
        lemma_small_mod(0, m as nat);
    } else {
        lemma_small_mod((x + 1) as nat, m as nat);
    }
}

/// Splitting a row-major position `i` of a `w`-wide grid into `i / w` and
/// `i % w` gives a row below `h` and a column below `w`.
pub proof fn lemma_row_major_decompose(w: int, h: int, i: int)
    requires
        w >= 1,
        h >= 1,
        0 <= i < w * h,
    ensures
        0 <= i / w < h,
        0 <= i % w < w,
        i == (i / w) * w + (i % w),
{
    lemma_fundamental_div_mod(i, w);
    lemma_mod_bound(i, w);
    lemma_mul_is_commutative(w, i / w);
    if i / w < 0 {
        lemma_mul_inequality(i / w, -1, w);
        assert(false);
    }
    if i / w >= h {
        lemma_mul_inequality(h, i / w, w);
        lemma_mul_is_commutative(h, w);
        assert(false);
    }
}

/// Reads the cell at `(row, col)` of a row-major vector of width `w`.
fn cell_at(cells: &Vec<bool>, w: usize, h: usize, row: usize, col: usize) -> (b: bool)
    requires
        w >= 1,
        h >= 1,
        cells@.len() == w * h,
        row < h,
        col < w,
    ensures
        b == cells@[row * w + col],
{
    proof {
        lemma_row_major_index_bounds(w as int, h as int, row as int, col as int);
    }
    let n = cells.len();
    assert(row * w + col < n);
    cells[row * w + col]
}

/// Counts the alive cells among the eight toroidal neighbors of `(row, col)`,
/// reading only the handed-in (previous) generation.
#[verifier::rlimit(50)]
fn count_alive_neighbors(cells: &Vec<bool>, w: usize, h: usize, row: usize, col: usize) -> (n: u8)
    requires
        w >= 1,
        h >= 1,
        cells@.len() == w * h,
        row < h,
        col < w,
    ensures
        n as int == neighbor_count(cells@, w as int, h as int, row as int, col as int),
        n <= 8,
{
    proof {
        lemma_wrap_forms(row as int, h as int);
        lemma_wrap_forms(col as int, w as int);
    }
    let up = if row == 0 { h - 1 } else { row - 1 };
    let down = if row == h - 1 { 0 } else { row + 1 };
    let left = if col == 0 { w - 1 } else { col - 1 };
    let right = if col == w - 1 { 0 } else { col + 1 };
    let n: u8 = (if cell_at(cells, w, h, up, left) { 1u8 } else { 0u8 })
        + (if cell_at(cells, w, h, up, col) { 1u8 } else { 0u8 })
        + (if cell_at(cells, w, h, up, right) { 1u8 } else { 0u8 })
        + (if cell_at(cells, w, h, row, left) { 1u8 } else { 0u8 })
        + (if cell_at(cells, w, h, row, right) { 1u8 } else { 0u8 })
        + (if cell_at(cells, w, h, down, left) { 1u8 } else { 0u8 })
        + (if cell_at(cells, w, h, down, col) { 1u8 } else { 0u8 })
        + (if cell_at(cells, w, h, down, right) { 1u8 } else { 0u8 });
    n
}

/// The listing of alive cells is sound and complete: every listed pair lies
/// inside the grid, names an alive cell, and carries its own row-major
/// position back; and every alive position below `n` is listed.
pub proof fn lemma_alive_pairs_exact(cells: Seq<bool>, w: int, h: int, n: int)
    requires
        w >= 1,
        h >= 1,
        cells.len() == w * h,
        w * h <= usize::MAX,
        0 <= n <= w * h,
    ensures
        forall|k: int|
            0 <= k < alive_pairs(cells, w, n).len() ==> {
                let p = #[trigger] alive_pairs(cells, w, n)[k];
                &&& p.0 < h
                &&& p.1 < w
                &&& cells[p.0 * w + p.1]
                &&& p.0 * w + p.1 < n
            },
        forall|i: int|
            0 <= i < n && cells[i] ==> exists|k: int|
                0 <= k < alive_pairs(cells, w, n).len() && #[trigger] alive_pairs(cells, w, n)[k]
                    == ((i / w) as usize, (i % w) as usize),
    decreases n,
{
    if n > 0 {
        lemma_alive_pairs_exact(cells, w, h, n - 1);
        lemma_row_major_decompose(w, h, n - 1);
        let prior = alive_pairs(cells, w, n - 1);
        let listed = alive_pairs(cells, w, n);
        if cells[n - 1] {
            let p = ((((n - 1) / w) as usize, ((n - 1) % w) as usize));
            assert(listed == prior.push(p));
            assert(p.0 * w + p.1 == n - 1);
            assert(listed[listed.len() - 1] == p);
            assert forall|i: int| 0 <= i < n && cells[i] implies exists|k: int|
                0 <= k < listed.len() && #[trigger] listed[k] == ((i / w) as usize, (
                i % w) as usize) by {
                if i < n - 1 {
                    let k = choose|k: int|
                        0 <= k < prior.len() && #[trigger] prior[k] == ((i / w) as usize, (
                        i % w) as usize);
                    assert(listed[k] == prior[k]);
                } else {
                    assert(listed[listed.len() - 1] == ((i / w) as usize, (i % w) as usize));
                }
            }
        } else {
            assert(listed == prior);
            assert forall|i: int| 0 <= i < n && cells[i] implies exists|k: int|
                0 <= k < listed.len() && #[trigger] listed[k] == ((i / w) as usize, (
                i % w) as usize) by {
                let k = choose|k: int|
                    0 <= k < prior.len() && #[trigger] prior[k] == ((i / w) as usize, (
                    i % w) as usize);
                assert(listed[k] == prior[k]);
            }
        }
    }
}

/// Toroidal symmetry: along an axis of extent `m`, the neighbor of position
/// 0 toward the origin is position `m - 1`, the neighbor of position `m - 1`
/// away from the origin is position 0, and every wrapped neighbor stays
/// inside `[0, m)`. Rows and columns wrap alike, so this holds for both
/// axes of the grid.
pub proof fn lemma_toroidal_wrap(m: int)
    requires
        m >= 1,
    ensures
        wrap_dec(0, m) == m - 1,
        wrap_inc(m - 1, m) == 0,
        forall|x: int| 0 <= x < m ==> 0 <= #[trigger] wrap_dec(x, m) < m,
        forall|x: int| 0 <= x < m ==> 0 <= #[trigger] wrap_inc(x, m) < m,
{
    lemma_wrap_forms(0, m);
    lemma_wrap_forms(m - 1, m);
    assert forall|x: int| 0 <= x < m implies 0 <= #[trigger] wrap_dec(x, m) < m && 0 <= #[trigger] wrap_inc(x, m) < m by {
        lemma_wrap_forms(x, m);
    }
}

/// On an all-dead sequence every summand of the neighbor count is zero.
proof fn lemma_alive_at_dead(cells: Seq<bool>, w: int, h: int, row: int, col: int)
    requires
        w >= 1,
        h >= 1,
        cells.len() == w * h,
        all_dead(cells),
        0 <= row < h,
        0 <= col < w,
    ensures
        alive_at(cells, w, row, col) == 0,
{
    lemma_row_major_index_bounds(w, h, row, col);
}

/// One step of an all-dead grid changes nothing: no cell has the three
/// alive neighbors a birth needs.
pub proof fn lemma_step_preserves_all_dead(cells: Seq<bool>, w: int, h: int)
    requires
        w >= 1,
        h >= 1,
        cells.len() == w * h,
        all_dead(cells),
    ensures
        step_spec(cells, w, h) == cells,
        all_dead(step_spec(cells, w, h)),
{
    assert forall|i: int| 0 <= i < w * h implies step_spec(cells, w, h)[i] == cells[i] by {
        lemma_row_major_decompose(w, h, i);
        let row = i / w;
        let col = i % w;
        lemma_wrap_forms(row, h);
        lemma_wrap_forms(col, w);
        lemma_alive_at_dead(cells, w, h, wrap_dec(row, h), wrap_dec(col, w));
        lemma_alive_at_dead(cells, w, h, wrap_dec(row, h), col);
        lemma_alive_at_dead(cells, w, h, wrap_dec(row, h), wrap_inc(col, w));
        lemma_alive_at_dead(cells, w, h, row, wrap_dec(col, w));
        lemma_alive_at_dead(cells, w, h, row, wrap_inc(col, w));
        lemma_alive_at_dead(cells, w, h, wrap_inc(row, h), wrap_dec(col, w));
        lemma_alive_at_dead(cells, w, h, wrap_inc(row, h), col);
        lemma_alive_at_dead(cells, w, h, wrap_inc(row, h), wrap_inc(col, w));
        assert(neighbor_count(cells, w, h, row, col) == 0);
    }
    assert(step_spec(cells, w, h) =~= cells);
}

/// `n` generation steps in a row, each applied to the one before.
pub open spec fn step_n(cells: Seq<bool>, w: int, h: int, n: nat) -> Seq<bool>
    decreases n,
{
    if n == 0 {
        cells
    } else {
        step_spec(step_n(cells, w, h, (n - 1) as nat), w, h)
    }
}

/// Idempotence of clearing: once every cell is dead, any number of steps
/// leaves every cell dead — nothing is spontaneously born.
pub proof fn lemma_cleared_grid_stays_dead(cells: Seq<bool>, w: int, h: int, n: nat)
    requires
        w >= 1,
        h >= 1,
        cells.len() == w * h,
        all_dead(cells),
    ensures
        all_dead(step_n(cells, w, h, n)),
        step_n(cells, w, h, n) == cells,
    decreases n,
{
    if n > 0 {
        lemma_cleared_grid_stays_dead(cells, w, h, (n - 1) as nat);
        lemma_step_preserves_all_dead(cells, w, h);
    }
}

/// Toggle round-trip: flipping the cell at `i` is visible immediately, and
/// flipping it a second time restores the original sequence.
pub proof fn lemma_toggle_round_trip(cells: Seq<bool>, i: int)
    requires
        0 <= i < cells.len(),
    ensures
        cells.update(i, !cells[i])[i] == !cells[i],
        cells.update(i, !cells[i]).update(i, !cells.update(i, !cells[i])[i]) == cells,
{
    assert(cells.update(i, !cells[i]).update(i, !cells.update(i, !cells[i])[i]) =~= cells);
}

/// Determinism: a run of generation steps is a function of the starting
/// cell states and the dimensions alone, so equal starting states give
/// bit-for-bit equal states after any number of steps.
pub proof fn lemma_steps_reproducible(a: Seq<bool>, b: Seq<bool>, w: int, h: int, n: nat)
    requires
        a == b,
    ensures
        step_n(a, w, h, n) == step_n(b, w, h, n),
{
}

} // verus!
