//! The simulation engine: a bounded two-dimensional boolean grid and the
//! Game of Life transition rule. Off-grid neighbor coordinates are treated
//! as permanently dead (a bounded grid, not a toroidal one).

use vstd::prelude::*;

use crate::layout::{lemma_row_major_distinct, lemma_row_major_index, lemma_row_major_round_trip};

verus! {

/// A fixed-dimension grid of cells, stored row-major in a flat buffer:
/// the cell at `(x, y)` lives at index `y * width + x`.
pub struct Grid {
    width: usize,
    height: usize,
    cells: Vec<bool>,
}

impl Grid {
    /// The buffer holds exactly one entry per cell.
    pub closed spec fn wf(&self) -> bool {
        &&& self.cells@.len() == self.width * self.height
        &&& self.width * self.height <= usize::MAX
    }

    pub closed spec fn spec_width(&self) -> int {
        self.width as int
    }

    pub closed spec fn spec_height(&self) -> int {
        self.height as int
    }

    /// The whole grid contents, row-major.
    pub closed spec fn spec_cells(&self) -> Seq<bool> {
        self.cells@
    }

    /// The cell at `(x, y)`; meaningful only in bounds.
    pub closed spec fn cell(&self, x: int, y: int) -> bool {
        self.cells@[y * self.spec_width() + x]
    }

    pub open spec fn in_bounds(&self, x: int, y: int) -> bool {
        0 <= x < self.spec_width() && 0 <= y < self.spec_height()
    }

    /// A coordinate is alive only if it is in bounds and its cell is set;
    /// everything off the grid counts as dead.
    pub open spec fn alive(&self, x: int, y: int) -> bool {
        self.in_bounds(x, y) && self.cell(x, y)
    }

    /// An all-dead grid of the given dimensions.
    pub fn new(width: usize, height: usize) -> (g: Grid)
        requires
            width * height <= usize::MAX,
        ensures
            g.wf(),
            g.spec_width() == width,
            g.spec_height() == height,
            forall|x: int, y: int| g.in_bounds(x, y) ==> !g.cell(x, y),
    {
        let n = width * height;
        let mut cells: Vec<bool> = Vec::new();
        let mut i: usize = 0;
        while i < n
            invariant
                i <= n,
                cells@.len() == i,
                forall|j: int| 0 <= j < i ==> !cells@[j],
            decreases n - i,
        {
            cells.push(false);
            i = i + 1;
        }
        let g = Grid { width, height, cells };
        proof {
            assert forall|x: int, y: int| g.in_bounds(x, y) implies !g.cell(x, y) by {
                lemma_row_major_index(width as int, height as int, x, y);
            }
        }
        g
    }

    pub fn width(&self) -> (w: usize)
        ensures
            w == self.spec_width(),
    {
        self.width
    }

    pub fn height(&self) -> (h: usize)
        ensures
            h == self.spec_height(),
    {
        self.height
    }

    /// Read the cell at `(x, y)`.
    pub fn get(&self, x: usize, y: usize) -> (b: bool)
        requires
            self.wf(),
            x < self.spec_width(),
            y < self.spec_height(),
        ensures
            b == self.cell(x as int, y as int),
    {
        proof {
            lemma_row_major_index(self.spec_width(), self.spec_height(), x as int, y as int);
        }
        self.cells[y * self.width + x]
    }

    /// Set the cell at `(x, y)` to `b`, leaving every other cell unchanged.
    pub fn set(&mut self, x: usize, y: usize, b: bool)
        requires
            old(self).wf(),
            x < old(self).spec_width(),
            y < old(self).spec_height(),
        ensures
            final(self).wf(),
            final(self).spec_width() == old(self).spec_width(),
            final(self).spec_height() == old(self).spec_height(),
            final(self).cell(x as int, y as int) == b,
            forall|i: int, j: int|
                old(self).in_bounds(i, j) && !(i == x && j == y)
                    ==> final(self).cell(i, j) == old(self).cell(i, j),
    {
        proof {
            lemma_row_major_index(self.spec_width(), self.spec_height(), x as int, y as int);
        }
        let idx = y * self.width + x;
        self.cells.set(idx, b);
        proof {
            assert forall|i: int, j: int|
                old(self).in_bounds(i, j) && !(i == x && j == y)
                    implies final(self).cell(i, j) == old(self).cell(i, j) by {
                lemma_row_major_index(self.spec_width(), self.spec_height(), i, j);
                lemma_row_major_distinct(self.spec_width(), x as int, y as int, i, j);
            }
        }
    }
}

/// 1 if a coordinate is alive, 0 otherwise; used to sum neighbor counts.
pub open spec fn alive_as_int(g: &Grid, x: int, y: int) -> int {
    if g.alive(x, y) {
        1int
    } else {
        0int
    }
}

/// The number of live cells among the eight coordinates surrounding
/// `(x, y)`; off-grid coordinates count as dead.
pub open spec fn spec_neighbor_count(g: &Grid, x: int, y: int) -> int {
    alive_as_int(g, x - 1, y - 1) + alive_as_int(g, x, y - 1) + alive_as_int(g, x + 1, y - 1)
        + alive_as_int(g, x - 1, y) + alive_as_int(g, x + 1, y) + alive_as_int(g, x - 1, y + 1)
        + alive_as_int(g, x, y + 1) + alive_as_int(g, x + 1, y + 1)
}

/// The canonical Game of Life transition rule: a live cell survives with
/// exactly 2 or 3 live neighbors, a dead cell is born with exactly 3,
/// every other combination yields a dead cell.
pub open spec fn life_rule(alive: bool, neighbors: int) -> bool {
    if alive {
        neighbors == 2 || neighbors == 3
    } else {
        neighbors == 3
    }
}

/// The full next generation of `g`, row-major, as pinned down by `life_rule`
/// applied to every cell.
pub open spec fn step_cells(g: &Grid) -> Seq<bool> {
    Seq::new(
        (g.spec_width() * g.spec_height()) as nat,
        |j: int|
            life_rule(
                g.cell(j % g.spec_width(), j / g.spec_width()),
                spec_neighbor_count(g, j % g.spec_width(), j / g.spec_width()),
            ),
    )
}

/// Count the live neighbors of the in-bounds cell `(x, y)`.
pub fn count_neighbors(g: &Grid, x: usize, y: usize) -> (n: usize)
    requires
        g.wf(),
        x < g.spec_width(),
        y < g.spec_height(),
    ensures
        n == spec_neighbor_count(g, x as int, y as int),
        n <= 8,
{
    let mut n: usize = 0;
    if x > 0 && y > 0 && g.get(x - 1, y - 1) {
        n = n + 1;
    }
    if y > 0 && g.get(x, y - 1) {
        n = n + 1;
    }
    if x + 1 < g.width && y > 0 && g.get(x + 1, y - 1) {
        n = n + 1;
    }
    if x > 0 && g.get(x - 1, y) {
        n = n + 1;
    }
    if x + 1 < g.width && g.get(x + 1, y) {
        n = n + 1;
    }
    if x > 0 && y + 1 < g.height && g.get(x - 1, y + 1) {
        n = n + 1;
    }
    if y + 1 < g.height && g.get(x, y + 1) {
        n = n + 1;
    }
    if x + 1 < g.width && y + 1 < g.height && g.get(x + 1, y + 1) {
        n = n + 1;
    }
    n
}

/// Apply the transition rule to one cell's state and neighbor count.
pub fn apply_rule(alive: bool, neighbors: usize) -> (b: bool)
    ensures
        b == life_rule(alive, neighbors as int),
{
    if alive {
        neighbors == 2 || neighbors == 3
    } else {
        neighbors == 3
    }
}

/// Compute the next generation of `g` as a fresh grid of the same
/// dimensions; `g` itself is only read.
pub fn next_generation(g: &Grid) -> (r: Grid)
    requires
        g.wf(),
    ensures
        r.wf(),
        r.spec_width() == g.spec_width(),
        r.spec_height() == g.spec_height(),
        r.spec_cells() == step_cells(g),
        forall|x: int, y: int|
            g.in_bounds(x, y) ==> r.cell(x, y) == life_rule(
                g.cell(x, y),
                spec_neighbor_count(g, x, y),
            ),
{
    let w = g.width;
    let h = g.height;
    let ghost target = step_cells(g);
    let mut cells: Vec<bool> = Vec::new();
    let mut y: usize = 0;
    while y < h
        invariant
            g.wf(),
            w == g.spec_width(),
            h == g.spec_height(),
            y <= h,
            cells@.len() == y * w,
            target == step_cells(g),
            target.len() == w * h,
            forall|j: int| 0 <= j < cells@.len() ==> cells@[j] == target[j],
        decreases h - y,
    {
        let mut x: usize = 0;
        while x < w
            invariant
                g.wf(),
                w == g.spec_width(),
                h == g.spec_height(),
                y < h,
                x <= w,
                cells@.len() == y * w + x,
                target == step_cells(g),
                target.len() == w * h,
                forall|j: int| 0 <= j < cells@.len() ==> cells@[j] == target[j],
            decreases w - x,
        {
            let alive = g.get(x, y);
            let n = count_neighbors(g, x, y);
            let b = apply_rule(alive, n);
            proof {
                lemma_row_major_index(w as int, h as int, x as int, y as int);
                lemma_row_major_round_trip(w as int, x as int, y as int);
            }
            cells.push(b);
            x = x + 1;
        }
        proof {
            assert((y + 1) * w == y * w + w) by (nonlinear_arith);
        }
        y = y + 1;
    }
    let r = Grid { width: w, height: h, cells };
    proof {
        assert(h * w == w * h) by (nonlinear_arith);
        assert(r.spec_cells() =~= target);
        assert forall|x: int, y: int| g.in_bounds(x, y) implies r.cell(x, y) == life_rule(
            g.cell(x, y),
            spec_neighbor_count(g, x, y),
        ) by {
            lemma_row_major_index(w as int, h as int, x, y);
            lemma_row_major_round_trip(w as int, x, y);
        }
    }
    r
}

/// A neighbor count is always between 0 and 8: each of the eight
/// surrounding coordinates contributes at most one.
pub proof fn lemma_neighbor_count_bounds(g: &Grid, x: int, y: int)
    ensures
        0 <= spec_neighbor_count(g, x, y) <= 8,
{
}

/// At a corner cell at most three of the surrounding coordinates are in
/// bounds, so the neighbor count is at most 3.
pub proof fn lemma_corner_neighbor_bound(g: &Grid, x: int, y: int)
    requires
        g.in_bounds(x, y),
        x == 0 || x == g.spec_width() - 1,
        y == 0 || y == g.spec_height() - 1,
    ensures
        spec_neighbor_count(g, x, y) <= 3,
{
}

/// The transition rule is total: over every state and neighbor count in
/// [0, 8], it yields survival exactly on {2, 3} for a live cell, birth
/// exactly on {3} for a dead cell, and death otherwise.
pub proof fn lemma_rule_totality()
    ensures
        forall|n: int| 0 <= n <= 8 ==> (life_rule(true, n) <==> (n == 2 || n == 3)),
        forall|n: int| 0 <= n <= 8 ==> (life_rule(false, n) <==> n == 3),
{
}

/// Advancing a generation is a pure function of the grid value: two grids
/// that agree on dimensions and contents step to the same next generation.
pub proof fn lemma_step_deterministic(g1: &Grid, g2: &Grid)
    requires
        g1.spec_width() == g2.spec_width(),
        g1.spec_height() == g2.spec_height(),
        g1.spec_cells() == g2.spec_cells(),
    ensures
        step_cells(g1) == step_cells(g2),
{
    assert(step_cells(g1) =~= step_cells(g2));
}

/// Whether `(x, y)` belongs to the five-cell glider shape anchored at
/// `(x0, y0)`.
pub open spec fn glider_alive(x0: int, y0: int, x: int, y: int) -> bool {
    ||| (x == x0 + 1 && y == y0)
    ||| (x == x0 + 2 && y == y0 + 1)
    ||| (x == x0 && y == y0 + 2)
    ||| (x == x0 + 1 && y == y0 + 2)
    ||| (x == x0 + 2 && y == y0 + 2)
}

/// An otherwise dead grid seeded with the fixed glider pattern anchored at
/// `(x0, y0)`; the shape must lie fully inside the grid.
pub fn glider_grid(width: usize, height: usize, x0: usize, y0: usize) -> (g: Grid)
    requires
        width * height <= usize::MAX,
        x0 + 2 < width,
        y0 + 2 < height,
    ensures
        g.wf(),
        g.spec_width() == width,
        g.spec_height() == height,
        forall|x: int, y: int|
            g.in_bounds(x, y) ==> g.cell(x, y) == glider_alive(x0 as int, y0 as int, x, y),
{
    let mut g = Grid::new(width, height);
    g.set(x0 + 1, y0, true);
    g.set(x0 + 2, y0 + 1, true);
    g.set(x0, y0 + 2, true);
    g.set(x0 + 1, y0 + 2, true);
    g.set(x0 + 2, y0 + 2, true);
    g
}

/// A grid of the given dimensions whose cells are drawn independently from
/// a seeded pseudo-random source, each alive with probability 1/5.
pub fn random_grid(width: usize, height: usize, seed: u64) -> (g: Grid)
    requires
        width * height <= usize::MAX,
    ensures
        g.wf(),
        g.spec_width() == width,
        g.spec_height() == height,
{
    let mut rng = crate::random::rng_from_seed(seed);
    let n = width * height;
    let mut cells: Vec<bool> = Vec::new();
    let mut i: usize = 0;
    while i < n
        invariant
            i <= n,
            cells@.len() == i,
        decreases n - i,
    {
        let alive = crate::random::rng_gen_ratio(&mut rng, 1, 5);
        cells.push(alive);
        i = i + 1;
    }
    Grid { width, height, cells }
}

} // verus!
