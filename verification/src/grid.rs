use vstd::prelude::*;
use vstd::arithmetic::div_mod::{
    lemma_fundamental_div_mod, lemma_fundamental_div_mod_converse_div,
    lemma_fundamental_div_mod_converse_mod, lemma_mod_bound, lemma_mod_multiples_vanish,
    lemma_multiply_divide_lt, lemma_small_mod,
};
use vstd::arithmetic::mul::lemma_mul_is_commutative;
use rayon::iter::{IntoParallelIterator, ParallelIterator};
use crate::cell::Cell;
use crate::types::Point;

verus! {

/// Fixed-point scale for probabilities: a probability `p` in `[0, 1]` is
/// stored as the numerator `p * PROB_ONE`, so `0` means never and
/// `PROB_ONE` means always.  Uniform draws are reduced to `[0, PROB_ONE)`
/// and compared against that numerator.
pub const PROB_ONE: u64 = 4294967296;

/// The mathematical model of a `Grid`: plain sequences and naturals.
#[verifier::ext_equal]
pub ghost struct GridModel {
    pub width: nat,
    pub height: nat,
    pub cells: Seq<bool>,
    pub alive_sample_counts: Seq<nat>,
    pub iteration: nat,
    pub max_iterations: nat,
    pub dead_to_alive_noise_probability: nat,
    pub alive_survival_probability: nat,
}

/// Well-formedness of a grid model: positive dimensions, both per-cell
/// sequences of length `width * height`, probabilities within the
/// fixed-point unit, and the bounds the machine words force.
pub open spec fn model_wf(g: GridModel) -> bool {
    &&& 1 <= g.width
    &&& 1 <= g.height
    &&& g.width * g.height <= usize::MAX
    &&& g.cells.len() == g.width * g.height
    &&& g.alive_sample_counts.len() == g.width * g.height
    &&& g.iteration <= usize::MAX
    &&& g.max_iterations < usize::MAX
    &&& g.dead_to_alive_noise_probability <= PROB_ONE
    &&& g.alive_survival_probability <= PROB_ONE
}

/// Row-major linear index of the coordinate pair `(x, y)`.
pub open spec fn spec_coords_to_index(x: int, y: int, width: int) -> int {
    y * width + x
}

/// A bounded 2-D lattice of cells with toroidal neighbor topology,
/// together with per-cell alive-frequency counters.
///
/// `cells` and `alive_sample_counts` share the same row-major index space
/// of length `width * height`.
pub struct Grid {
    width: usize,
    height: usize,
    pub cells: Vec<Cell>,
    pub alive_sample_counts: Vec<usize>,
    pub iteration: usize,
    pub max_iterations: usize,
    pub dead_to_alive_noise_probability: u64,
    pub alive_survival_probability: u64,
}

impl View for Grid {
    type V = GridModel;

    closed spec fn view(&self) -> GridModel {
        GridModel {
            width: self.width as nat,
            height: self.height as nat,
            cells: self.cells@.map_values(|c: Cell| c@),
            alive_sample_counts: self.alive_sample_counts@.map_values(|n: usize| n as nat),
            iteration: self.iteration as nat,
            max_iterations: self.max_iterations as nat,
            dead_to_alive_noise_probability: self.dead_to_alive_noise_probability as nat,
            alive_survival_probability: self.alive_survival_probability as nat,
        }
    }
}

impl Grid {
    pub open spec fn wf(&self) -> bool {
        model_wf(self@)
    }

    /// Allocates a `width * height` lattice of dead cells with zeroed
    /// sample counters, at iteration 0.
    pub fn new(
        width: usize,
        height: usize,
        max_iterations: usize,
        dead_to_alive_noise_probability: u64,
        alive_survival_probability: u64,
    ) -> (g: Grid)
        requires
            1 <= width,
            1 <= height,
            width * height <= usize::MAX,
            max_iterations < usize::MAX,
            dead_to_alive_noise_probability <= PROB_ONE,
            alive_survival_probability <= PROB_ONE,
        ensures
            g.wf(),
            g@.width == width,
            g@.height == height,
            g@.iteration == 0,
            g@.max_iterations == max_iterations,
            g@.dead_to_alive_noise_probability == dead_to_alive_noise_probability,
            g@.alive_survival_probability == alive_survival_probability,
            g@.cells.len() == width * height,
            g@.alive_sample_counts.len() == width * height,
            forall|i: int| 0 <= i < g@.cells.len() ==> !g@.cells[i],
            forall|i: int| 0 <= i < g@.alive_sample_counts.len() ==> g@.alive_sample_counts[i] == 0,
    {
        let n = width * height;
        let mut cells: Vec<Cell> = Vec::new();
        let mut counts: Vec<usize> = Vec::new();
        while cells.len() < n
            invariant
                cells@.len() <= n,
                forall|i: int| 0 <= i < cells@.len() ==> !cells@[i]@,
            decreases n - cells@.len(),
        {
            cells.push(Cell::new(false));
        }
        while counts.len() < n
            invariant
                counts@.len() <= n,
                forall|i: int| 0 <= i < counts@.len() ==> counts@[i] == 0,
            decreases n - counts@.len(),
        {
            counts.push(0);
        }
        Grid {
            width,
            height,
            cells,
            alive_sample_counts: counts,
            iteration: 0,
            max_iterations,
            dead_to_alive_noise_probability,
            alive_survival_probability,
        }
    }

    /// Converts a pair of cell coordinates to the index in the cell vector.
    pub fn coords_to_index(&self, pos: Point) -> (idx: usize)
        requires
            self.wf(),
            pos.x < self@.width,
            pos.y < self@.height,
        ensures
            idx == spec_coords_to_index(pos.x as int, pos.y as int, self@.width as int),
            idx < self@.cells.len(),
    {
        proof {
            let w = self@.width as int;
            let h = self@.height as int;
            let x = pos.x as int;
            let y = pos.y as int;
            assert(y * w + x < w * h) by (nonlinear_arith)
                requires
                    0 <= x < w,
                    0 <= y < h,
            ;
        }
        pos.y * self.width + pos.x
    }

    /// Converts an index in the cell vector to a pair of cell coordinates.
    pub fn index_to_coords(&self, index: usize) -> (pos: Point)
        requires
            self.wf(),
            index < self@.cells.len(),
        ensures
            pos.x == index as int % self@.width as int,
            pos.y == index as int / self@.width as int,
            pos.x < self@.width,
            pos.y < self@.height,
            spec_coords_to_index(pos.x as int, pos.y as int, self@.width as int) == index,
    {
        proof {
            lemma_index_coords_round_trip(index as int, self@.width as int, self@.height as int);
        }
        Point { x: index % self.width, y: index / self.width }
    }
}

/// Law: for every valid index, converting to coordinates and back through
/// `spec_coords_to_index` yields the original index, and the coordinates
/// are within the lattice bounds.
pub proof fn lemma_index_coords_round_trip(idx: int, width: int, height: int)
    requires
        1 <= width,
        1 <= height,
        0 <= idx < width * height,
    ensures
        0 <= idx % width < width,
        0 <= idx / width < height,
        spec_coords_to_index(idx % width, idx / width, width) == idx,
{
    lemma_mod_bound(idx, width);
    lemma_multiply_divide_lt(idx, width, height);
    lemma_fundamental_div_mod(idx, width);
    lemma_mul_is_commutative(idx / width, width);
}

/// Position `v` moved by offset `d` along an axis of length `m`, wrapping
/// torus-style: the non-negative modular computation `(v + d) mod m`.
pub open spec fn torus_wrap(v: int, d: int, m: int) -> int {
    (v + d + m) % m
}

/// How a unit offset acts on an in-range position: `0` keeps it, `-1` and
/// `1` step to the adjacent position, wrapping at the edges.
pub proof fn lemma_torus_wrap_values(v: int, m: int)
    requires
        1 <= m,
        0 <= v < m,
    ensures
        torus_wrap(v, 0, m) == v,
        torus_wrap(v, -1, m) == if v == 0 { m - 1 } else { v - 1 },
        torus_wrap(v, 1, m) == if v == m - 1 { 0 } else { v + 1 },
{
    lemma_mod_multiples_vanish(1, v, m);
    lemma_small_mod(v as nat, m as nat);
    if v == 0 {
        lemma_small_mod((m - 1) as nat, m as nat);
    } else {
        lemma_mod_multiples_vanish(1, v - 1, m);
        lemma_small_mod((v - 1) as nat, m as nat);
    }
    if v == m - 1 {
        lemma_mod_multiples_vanish(2, 0, m);
        lemma_small_mod(0, m as nat);
    } else {
        lemma_mod_multiples_vanish(1, v + 1, m);
        lemma_small_mod((v + 1) as nat, m as nat);
    }
}

/// Wrapping a position by an offset and then by the opposite offset yields
/// the position again.
pub proof fn lemma_torus_wrap_inverse(v: int, d: int, m: int)
    requires
        1 <= m,
        0 <= v < m,
        -1 <= d <= 1,
    ensures
        0 <= torus_wrap(v, d, m) < m,
        torus_wrap(torus_wrap(v, d, m), -d, m) == v,
{
    lemma_torus_wrap_values(v, m);
    lemma_torus_wrap_values(torus_wrap(v, d, m), m);
}

/// Whether the cell at in-range coordinates `(x, y)` is alive.
pub open spec fn spec_cell_alive(g: GridModel, x: int, y: int) -> bool {
    g.cells[spec_coords_to_index(x, y, g.width as int)]
}

/// 1 if the Moore neighbor of `(x, y)` at offset `(dx, dy)` is alive, else 0.
pub open spec fn spec_neighbor_term(g: GridModel, x: int, y: int, dx: int, dy: int) -> int {
    if spec_cell_alive(
        g,
        torus_wrap(x, dx, g.width as int),
        torus_wrap(y, dy, g.height as int),
    ) {
        1
    } else {
        0
    }
}

/// The number of alive cells among the 8 Moore neighbors of `(x, y)`,
/// with both axes wrapping torus-style.
pub open spec fn spec_num_alive_neighbors(g: GridModel, x: int, y: int) -> int {
    spec_neighbor_term(g, x, y, -1, -1) + spec_neighbor_term(g, x, y, 0, -1)
        + spec_neighbor_term(g, x, y, 1, -1) + spec_neighbor_term(g, x, y, -1, 0)
        + spec_neighbor_term(g, x, y, 1, 0) + spec_neighbor_term(g, x, y, -1, 1)
        + spec_neighbor_term(g, x, y, 0, 1) + spec_neighbor_term(g, x, y, 1, 1)
}

/// The position one step down the axis, wrapping 0 to the far edge.
fn wrap_dec(v: usize, m: usize) -> (r: usize)
    requires
        1 <= m,
        v < m,
    ensures
        r == torus_wrap(v as int, -1, m as int),
        r < m,
{
    proof {
        lemma_torus_wrap_values(v as int, m as int);
    }
    if v == 0 {
        m - 1
    } else {
        v - 1
    }
}

/// The position one step up the axis, wrapping the far edge to 0.
fn wrap_inc(v: usize, m: usize) -> (r: usize)
    requires
        1 <= m,
        v < m,
    ensures
        r == torus_wrap(v as int, 1, m as int),
        r < m,
{
    proof {
        lemma_torus_wrap_values(v as int, m as int);
    }
    if v == m - 1 {
        0
    } else {
        v + 1
    }
}

impl Grid {
    /// Whether the cell at in-range coordinates `(x, y)` is alive.
    fn alive_at(&self, x: usize, y: usize) -> (b: bool)
        requires
            self.wf(),
            x < self@.width,
            y < self@.height,
        ensures
            b == spec_cell_alive(self@, x as int, y as int),
    {
        let idx = self.coords_to_index(Point { x, y });
        self.cells[idx].is_alive()
    }

    /// Counts the alive cells among the 8 Moore neighbors of `pos`, read
    /// with toroidal wraparound on both axes.
    pub fn num_alive_neighbors(&self, pos: Point) -> (n: usize)
        requires
            self.wf(),
            pos.x < self@.width,
            pos.y < self@.height,
        ensures
            n == spec_num_alive_neighbors(self@, pos.x as int, pos.y as int),
            n <= 8,
    {
        proof {
            lemma_torus_wrap_values(pos.x as int, self@.width as int);
            lemma_torus_wrap_values(pos.y as int, self@.height as int);
        }
        let xm = wrap_dec(pos.x, self.width);
        let xp = wrap_inc(pos.x, self.width);
        let ym = wrap_dec(pos.y, self.height);
        let yp = wrap_inc(pos.y, self.height);
        let mut n: usize = 0;
        if self.alive_at(xm, ym) {
            n += 1;
        }
        if self.alive_at(pos.x, ym) {
            n += 1;
        }
        if self.alive_at(xp, ym) {
            n += 1;
        }
        if self.alive_at(xm, pos.y) {
            n += 1;
        }
        if self.alive_at(xp, pos.y) {
            n += 1;
        }
        if self.alive_at(xm, yp) {
            n += 1;
        }
        if self.alive_at(pos.x, yp) {
            n += 1;
        }
        if self.alive_at(xp, yp) {
            n += 1;
        }
        n
    }
}

/// The deterministic Game-of-Life rule: an alive cell with 2 or 3 alive
/// neighbors stays alive, a dead cell with exactly 3 alive neighbors
/// becomes alive, every other combination is dead next step.
pub open spec fn spec_deterministic_next(alive: bool, neighbors: int) -> bool {
    (alive && (neighbors == 2 || neighbors == 3)) || (!alive && neighbors == 3)
}

/// The uniform sample in `[0, PROB_ONE)` taken from a raw draw.
pub open spec fn spec_draw_sample(draw: u64) -> int {
    draw as int % PROB_ONE as int
}

/// The stochastic rule layered on the deterministic one: where the
/// deterministic rule produces alive, the cell is alive only with
/// probability `survival`; where it produces dead, the cell becomes alive
/// with probability `noise`.  Each cell judges its own independent draw.
pub open spec fn spec_stochastic_next(
    alive: bool,
    neighbors: int,
    draw: u64,
    noise: int,
    survival: int,
) -> bool {
    if spec_deterministic_next(alive, neighbors) {
        spec_draw_sample(draw) < survival
    } else {
        spec_draw_sample(draw) < noise
    }
}

/// The next state of the cell at index `idx`, judged from the pre-step
/// grid `g` and the cell's own uniform draw.
pub open spec fn spec_next_state(g: GridModel, idx: int, draw: u64) -> bool {
    spec_stochastic_next(
        g.cells[idx],
        spec_num_alive_neighbors(g, idx % g.width as int, idx / g.width as int),
        draw,
        g.dead_to_alive_noise_probability as int,
        g.alive_survival_probability as int,
    )
}

impl Grid {
    /// Computes the next state of the cell at `cell_idx` from the current
    /// grid and the cell's own uniform draw, without mutating anything.
    pub fn cell_next_state(&self, cell_idx: usize, draw: u64) -> (next: bool)
        requires
            self.wf(),
            cell_idx < self@.cells.len(),
        ensures
            next == spec_next_state(self@, cell_idx as int, draw),
    {
        let pos = self.index_to_coords(cell_idx);
        let neighbors = self.num_alive_neighbors(pos);
        let alive = self.cells[cell_idx].is_alive();
        let deterministic = (alive && (neighbors == 2 || neighbors == 3)) || (!alive
            && neighbors == 3);
        let threshold = if deterministic {
            self.alive_survival_probability
        } else {
            self.dead_to_alive_noise_probability
        };
        draw % PROB_ONE < threshold
    }
}

/// Whether the cell at `(x2, y2)` lies in the Moore neighborhood of the
/// cell at `(x1, y1)` on the torus.
pub open spec fn spec_is_neighbor(
    width: int,
    height: int,
    x1: int,
    y1: int,
    x2: int,
    y2: int,
) -> bool {
    exists|dx: int, dy: int|
        #![trigger torus_wrap(x1, dx, width), torus_wrap(y1, dy, height)]
        -1 <= dx <= 1 && -1 <= dy <= 1 && !(dx == 0 && dy == 0) && x2 == torus_wrap(
            x1,
            dx,
            width,
        ) && y2 == torus_wrap(y1, dy, height)
}

/// Law: the toroidal neighbor relation is symmetric — whenever one cell
/// lies in the Moore neighborhood of another, the converse holds too.
pub proof fn lemma_neighbor_symmetric(
    width: int,
    height: int,
    x1: int,
    y1: int,
    x2: int,
    y2: int,
)
    requires
        1 <= width,
        1 <= height,
        0 <= x1 < width,
        0 <= y1 < height,
        spec_is_neighbor(width, height, x1, y1, x2, y2),
    ensures
        spec_is_neighbor(width, height, x2, y2, x1, y1),
{
    let (dx, dy) = choose|dx: int, dy: int|
        #![trigger torus_wrap(x1, dx, width), torus_wrap(y1, dy, height)]
        -1 <= dx <= 1 && -1 <= dy <= 1 && !(dx == 0 && dy == 0) && x2 == torus_wrap(
            x1,
            dx,
            width,
        ) && y2 == torus_wrap(y1, dy, height);
    lemma_torus_wrap_inverse(x1, dx, width);
    lemma_torus_wrap_inverse(y1, dy, height);
    assert(x1 == torus_wrap(x2, -dx, width));
    assert(y1 == torus_wrap(y2, -dy, height));
}

/// Law: on a torus of at least 3 cells per axis the corner `(0, 0)` and
/// the opposite corner `(width - 1, height - 1)` are mutual neighbors, and
/// each one, when alive, is counted by the other's neighbor count.
pub proof fn lemma_corner_wraparound(g: GridModel)
    requires
        model_wf(g),
        3 <= g.width,
        3 <= g.height,
    ensures
        spec_is_neighbor(
            g.width as int,
            g.height as int,
            0,
            0,
            g.width as int - 1,
            g.height as int - 1,
        ),
        spec_is_neighbor(
            g.width as int,
            g.height as int,
            g.width as int - 1,
            g.height as int - 1,
            0,
            0,
        ),
        spec_cell_alive(g, g.width as int - 1, g.height as int - 1) ==> spec_num_alive_neighbors(
            g,
            0,
            0,
        ) >= 1,
        spec_cell_alive(g, 0, 0) ==> spec_num_alive_neighbors(
            g,
            g.width as int - 1,
            g.height as int - 1,
        ) >= 1,
{
    let w = g.width as int;
    let h = g.height as int;
    lemma_torus_wrap_values(0, w);
    lemma_torus_wrap_values(0, h);
    lemma_torus_wrap_values(w - 1, w);
    lemma_torus_wrap_values(h - 1, h);
    assert(torus_wrap(0, -1, w) == w - 1);
    assert(torus_wrap(0, -1, h) == h - 1);
    assert(torus_wrap(w - 1, 1, w) == 0);
    assert(torus_wrap(h - 1, 1, h) == 0);
    assert(spec_cell_alive(g, w - 1, h - 1) ==> spec_neighbor_term(g, 0, 0, -1, -1) == 1);
    assert(spec_cell_alive(g, 0, 0) ==> spec_neighbor_term(g, w - 1, h - 1, 1, 1) == 1);
}

/// Law: with the noise probability at 0 and the survival probability at
/// the fixed-point unit, the stochastic rule equals the deterministic
/// rule, whatever the draw.
pub proof fn lemma_stochastic_extremes_match_deterministic(alive: bool, neighbors: int, draw: u64)
    ensures
        spec_stochastic_next(alive, neighbors, draw, 0, PROB_ONE as int) == spec_deterministic_next(
            alive,
            neighbors,
        ),
{
    lemma_mod_bound(draw as int, PROB_ONE as int);
}

/// The cell array that seeding produces: every cell dead except those
/// whose index is named by some supplied coordinate pair.  Duplicate
/// coordinates are harmless: a cell is alive as soon as one pair names it.
pub open spec fn spec_seeded_cells(width: nat, height: nat, coords: Seq<Point>) -> Seq<bool> {
    Seq::new(
        width * height,
        |i: int|
            exists|j: int|
                0 <= j < coords.len() && spec_coords_to_index(
                    #[trigger] coords[j].x as int,
                    coords[j].y as int,
                    width as int,
                ) == i,
    )
}

/// The full effect of seeding on a grid model: the cell array is rebuilt
/// from the coordinates; every other component is untouched.
pub open spec fn spec_set_state(g: GridModel, coords: Seq<Point>) -> GridModel {
    GridModel { cells: spec_seeded_cells(g.width, g.height, coords), ..g }
}

impl Grid {
    /// Resets every cell to dead, then sets the cell at each supplied
    /// coordinate pair to alive.  Every coordinate must lie on the
    /// lattice; duplicates are idempotent.
    pub fn set_state(&mut self, cells_coords: &[Point])
        requires
            old(self).wf(),
            forall|j: int|
                0 <= j < cells_coords@.len() ==> #[trigger] cells_coords@[j].x < old(self)@.width
                    && cells_coords@[j].y < old(self)@.height,
        ensures
            final(self)@ == spec_set_state(old(self)@, cells_coords@),
            final(self).wf(),
    {
        let n = self.width * self.height;
        let mut fresh: Vec<Cell> = Vec::new();
        while fresh.len() < n
            invariant
                fresh@.len() <= n,
                forall|i: int| 0 <= i < fresh@.len() ==> !fresh@[i]@,
            decreases n - fresh@.len(),
        {
            fresh.push(Cell::new(false));
        }
        self.cells = fresh;
        let ghost g1 = self@;
        let mut k: usize = 0;
        while k < cells_coords.len()
            invariant
                self.wf(),
                k <= cells_coords@.len(),
                forall|j: int|
                    0 <= j < cells_coords@.len() ==> #[trigger] cells_coords@[j].x < self@.width
                        && cells_coords@[j].y < self@.height,
                self@ == (GridModel { cells: self@.cells, ..g1 }),
                self@.cells.len() == g1.cells.len(),
                g1.cells.len() == self@.width * self@.height,
                forall|i: int|
                    0 <= i < self@.cells.len() ==> (#[trigger] self@.cells[i] <==> exists|j: int|
                        0 <= j < k && spec_coords_to_index(
                            #[trigger] cells_coords@[j].x as int,
                            cells_coords@[j].y as int,
                            self@.width as int,
                        ) == i),
            decreases cells_coords@.len() - k,
        {
            let idx = self.coords_to_index(cells_coords[k]);
            let ghost prev = self@.cells;
            self.cells.set(idx, Cell::new(true));
            proof {
                assert forall|i: int| 0 <= i < self@.cells.len() implies #[trigger] self@.cells[i]
                    == (if i == idx {
                    true
                } else {
                    prev[i]
                }) by {
                    assert(self@.cells[i] == self.cells@[i]@);
                }
                assert forall|i: int| 0 <= i < self@.cells.len() implies (#[trigger] self@.cells[i]
                    <==> exists|j: int|
                    0 <= j < k + 1 && spec_coords_to_index(
                        #[trigger] cells_coords@[j].x as int,
                        cells_coords@[j].y as int,
                        self@.width as int,
                    ) == i) by {
                    if i == idx {
                        assert(spec_coords_to_index(
                            cells_coords@[k as int].x as int,
                            cells_coords@[k as int].y as int,
                            self@.width as int,
                        ) == i);
                    } else {
                        if self@.cells[i] {
                            let j = choose|j: int|
                                0 <= j < k && spec_coords_to_index(
                                    #[trigger] cells_coords@[j].x as int,
                                    cells_coords@[j].y as int,
                                    self@.width as int,
                                ) == i;
                            assert(0 <= j < k + 1 && spec_coords_to_index(
                                cells_coords@[j].x as int,
                                cells_coords@[j].y as int,
                                self@.width as int,
                            ) == i);
                        }
                        if exists|j: int|
                            0 <= j < k + 1 && spec_coords_to_index(
                                #[trigger] cells_coords@[j].x as int,
                                cells_coords@[j].y as int,
                                self@.width as int,
                            ) == i {
                            let j = choose|j: int|
                                0 <= j < k + 1 && spec_coords_to_index(
                                    #[trigger] cells_coords@[j].x as int,
                                    cells_coords@[j].y as int,
                                    self@.width as int,
                                ) == i;
                            assert(j != k);
                            assert(0 <= j < k && spec_coords_to_index(
                                cells_coords@[j].x as int,
                                cells_coords@[j].y as int,
                                self@.width as int,
                            ) == i);
                        }
                    }
                }
            }
            k += 1;
        }
        proof {
            assert(self@.cells =~= spec_seeded_cells(g1.width, g1.height, cells_coords@));
            assert(self@ =~= spec_set_state(old(self)@, cells_coords@));
        }
    }
}

/// Law: seeding is idempotent — applying the seeding transformation twice
/// with the same coordinate set yields the same grid as applying it once,
/// whatever the grid held before.
pub proof fn lemma_set_state_idempotent(g: GridModel, coords: Seq<Point>)
    ensures
        spec_set_state(spec_set_state(g, coords), coords) == spec_set_state(g, coords),
{
    assert(spec_set_state(spec_set_state(g, coords), coords) =~= spec_set_state(g, coords));
}

/// Whether the grid samples alive-frequencies on the current tick: every
/// 30th iteration, except the finalization tick `max_iterations + 1`.
pub open spec fn spec_sampling_tick(g: GridModel) -> bool {
    g.iteration % 30 == 0 && g.iteration != g.max_iterations + 1
}

/// What a sampling pass adds to one cell's counter: 1 on a sampling tick
/// when the cell is alive, else 0.
pub open spec fn spec_sample_increment(g: GridModel, cell_alive: bool) -> nat {
    if spec_sampling_tick(g) && cell_alive {
        1nat
    } else {
        0nat
    }
}

/// The effect of one sampling pass over the cell at `idx`: only that
/// cell's counter moves, by its sample increment.
pub open spec fn spec_sample_one(g: GridModel, idx: int) -> GridModel {
    GridModel {
        alive_sample_counts: g.alive_sample_counts.update(
            idx,
            (g.alive_sample_counts[idx] + spec_sample_increment(g, g.cells[idx])) as nat,
        ),
        ..g
    }
}

/// The full effect of one step on a grid model, given one uniform draw
/// per cell: every cell moves to its next state judged from the pre-step
/// cells, the counters sample the already-updated cells under the
/// pre-increment iteration, and the iteration advances by one.
pub open spec fn spec_update(g: GridModel, draws: Seq<u64>) -> GridModel {
    GridModel {
        cells: Seq::new(g.cells.len(), |i: int| spec_next_state(g, i, draws[i])),
        alive_sample_counts: Seq::new(
            g.alive_sample_counts.len(),
            |i: int|
                (g.alive_sample_counts[i] + spec_sample_increment(
                    g,
                    spec_next_state(g, i, draws[i]),
                )) as nat,
        ),
        iteration: (g.iteration + 1) as nat,
        ..g
    }
}

/// Relies on rand's `random`: it returns one fresh value drawn from the
/// thread-local generator.  Nothing is promised of the value, so callers
/// must hold for every outcome.
pub assume_specification<T>[ rand::random::<T> ]() -> (r: T)
    where
        rand::distributions::Standard: rand::distributions::Distribution<T>,
;

/// One fresh uniform draw per cell, gathered in index order.
fn random_draws(n: usize) -> (draws: Vec<u64>)
    ensures
        draws@.len() == n,
{
    let mut draws: Vec<u64> = Vec::new();
    while draws.len() < n
        invariant
            draws@.len() <= n,
        decreases n - draws@.len(),
    {
        let d: u64 = rand::random::<u64>();
        draws.push(d);
    }
    draws
}

impl Grid {
    /// On a sampling tick, increments the counter of the cell at `idx` if
    /// that cell is currently alive; otherwise changes nothing.
    pub fn set_probability(&mut self, idx: usize)
        requires
            old(self).wf(),
            idx < old(self)@.cells.len(),
            old(self)@.alive_sample_counts[idx as int] < usize::MAX,
        ensures
            final(self)@ == spec_sample_one(old(self)@, idx as int),
            final(self).wf(),
    {
        let cell_alive = self.cells[idx].is_alive();
        if self.iteration % 30 == 0 && self.iteration != self.max_iterations + 1 && cell_alive {
            let c = self.alive_sample_counts[idx];
            self.alive_sample_counts.set(idx, c + 1);
        }
        proof {
            assert(self@.alive_sample_counts =~= spec_sample_one(
                old(self)@,
                idx as int,
            ).alive_sample_counts);
            assert(self@ =~= spec_sample_one(old(self)@, idx as int));
        }
    }

    /// Relies on rayon: `(0..n).into_par_iter().map(op).collect()` over a
    /// range is an indexed parallel iterator, so `collect` into a `Vec`
    /// yields exactly `op(i)` at each position `i`, in index order.  The
    /// closure only calls the verified `cell_next_state` on the pre-step
    /// grid, so the fan-out reads a fixed snapshot.
    #[verifier::external_body]
    fn par_next_states(&self, draws: &Vec<u64>) -> (next: Vec<bool>)
        requires
            self.wf(),
            draws@.len() == self@.cells.len(),
        ensures
            next@.len() == self@.cells.len(),
            forall|i: int| 0 <= i < next@.len() ==> next@[i] == spec_next_state(
                self@,
                i,
                draws@[i],
            ),
    {
        (0..self.cells.len()).into_par_iter().map(
            |idx: usize| self.cell_next_state(idx, draws[idx]),
        ).collect()
    }

    /// One full step driven by a caller-supplied draw per cell: computes
    /// every cell's next state from the pre-step snapshot, replaces the
    /// cell array wholesale, runs the sampling pass over the updated
    /// cells, and advances the iteration counter.
    pub fn update_with_draws(&mut self, draws: &Vec<u64>)
        requires
            old(self).wf(),
            draws@.len() == old(self)@.cells.len(),
            old(self)@.iteration < usize::MAX,
            forall|i: int|
                0 <= i < old(self)@.alive_sample_counts.len() ==> old(self)@.alive_sample_counts[i] < usize::MAX,
        ensures
            final(self)@ == spec_update(old(self)@, draws@),
            final(self).wf(),
    {
        let ghost g0 = self@;
        let next = self.par_next_states(draws);
        let n = self.cells.len();
        let mut next_cells: Vec<Cell> = Vec::new();
        let mut i: usize = 0;
        while i < n
            invariant
                i <= n,
                self@ == g0,
                n == g0.cells.len(),
                next@.len() == n,
                forall|k: int| 0 <= k < n ==> next@[k] == spec_next_state(g0, k, draws@[k]),
                next_cells@.len() == i,
                forall|k: int| 0 <= k < i ==> #[trigger] next_cells@[k]@ == next@[k],
            decreases n - i,
        {
            next_cells.push(Cell::new(next[i]));
            i += 1;
        }
        self.cells = next_cells;
        let mut idx: usize = 0;
        while idx < n
            invariant
                idx <= n,
                self.wf(),
                model_wf(g0),
                n == g0.cells.len(),
                draws@.len() == n,
                self@ == (GridModel {
                    cells: self@.cells,
                    alive_sample_counts: self@.alive_sample_counts,
                    ..g0
                }),
                self@.cells.len() == n,
                self@.alive_sample_counts.len() == n,
                g0.alive_sample_counts.len() == n,
                forall|k: int| 0 <= k < n ==> #[trigger] self@.cells[k] == spec_next_state(
                    g0,
                    k,
                    draws@[k],
                ),
                forall|k: int|
                    0 <= k < idx ==> #[trigger] self@.alive_sample_counts[k]
                        == g0.alive_sample_counts[k] + spec_sample_increment(
                        g0,
                        spec_next_state(g0, k, draws@[k]),
                    ),
                forall|k: int|
                    idx <= k < n ==> #[trigger] self@.alive_sample_counts[k]
                        == g0.alive_sample_counts[k],
                forall|k: int|
                    0 <= k < n ==> #[trigger] g0.alive_sample_counts[k] < usize::MAX,
            decreases n - idx,
        {
            let ghost before = self@;
            self.set_probability(idx);
            proof {
                assert(spec_sampling_tick(before) == spec_sampling_tick(g0));
            }
            idx += 1;
        }
        self.iteration = self.iteration + 1;
        proof {
            assert(self@.cells =~= spec_update(g0, draws@).cells);
            assert(self@.alive_sample_counts =~= spec_update(g0, draws@).alive_sample_counts);
            assert(self@ =~= spec_update(g0, draws@));
        }
    }

    /// One full simulation step: draws one fresh uniform sample per cell
    /// and applies the step those draws determine.  Whatever the draws,
    /// the iteration advances by one, dimensions, bound and probabilities
    /// stay, counters never decrease, and off the sampling ticks the
    /// counters stay exactly.
    pub fn update(&mut self)
        requires
            old(self).wf(),
            old(self)@.iteration < usize::MAX,
            forall|i: int|
                0 <= i < old(self)@.alive_sample_counts.len() ==> old(self)@.alive_sample_counts[i] < usize::MAX,
        ensures
            final(self).wf(),
            exists|draws: Seq<u64>|
                draws.len() == old(self)@.cells.len() && final(self)@ == #[trigger] spec_update(
                    old(self)@,
                    draws,
                ),
            final(self)@.width == old(self)@.width,
            final(self)@.height == old(self)@.height,
            final(self)@.max_iterations == old(self)@.max_iterations,
            final(self)@.dead_to_alive_noise_probability == old(self)@.dead_to_alive_noise_probability,
            final(self)@.alive_survival_probability == old(self)@.alive_survival_probability,
            final(self)@.iteration == old(self)@.iteration + 1,
            final(self)@.cells.len() == old(self)@.cells.len(),
            final(self)@.alive_sample_counts.len() == old(self)@.alive_sample_counts.len(),
            forall|i: int|
                0 <= i < final(self)@.alive_sample_counts.len() ==> final(self)@.alive_sample_counts[i] >= old(self)@.alive_sample_counts[i],
            !spec_sampling_tick(old(self)@) ==> final(self)@.alive_sample_counts == old(self)@.alive_sample_counts,
    {
        let n = self.cells.len();
        let draws = random_draws(n);
        self.update_with_draws(&draws);
        proof {
            assert(draws@.len() == old(self)@.cells.len() && self@ == spec_update(
                old(self)@,
                draws@,
            ));
            if !spec_sampling_tick(old(self)@) {
                assert(self@.alive_sample_counts =~= old(self)@.alive_sample_counts);
            }
        }
    }

    /// Whether this tick is the finalization tick `max_iterations + 1`,
    /// on which the entropy of the sampled distribution is reported once.
    pub fn is_finalization_tick(&self) -> (r: bool)
        requires
            self.wf(),
        ensures
            r == (self@.iteration == self@.max_iterations + 1),
    {
        self.iteration == self.max_iterations + 1
    }
}

/// Law: with the noise probability at 0 and the survival probability at
/// `PROB_ONE`, a whole step is independent of the draws — the stochastic
/// variant behaves exactly like the deterministic map — and every cell
/// follows the deterministic rule.
pub proof fn lemma_extreme_probabilities_make_update_deterministic(
    g: GridModel,
    d1: Seq<u64>,
    d2: Seq<u64>,
)
    requires
        g.dead_to_alive_noise_probability == 0,
        g.alive_survival_probability == PROB_ONE,
    ensures
        spec_update(g, d1) == spec_update(g, d2),
        forall|i: int|
            0 <= i < g.cells.len() ==> #[trigger] spec_update(g, d1).cells[i]
                == spec_deterministic_next(
                g.cells[i],
                spec_num_alive_neighbors(g, i % g.width as int, i / g.width as int),
            ),
{
    assert forall|i: int, d: u64| true implies #[trigger] spec_stochastic_next(
        g.cells[i],
        spec_num_alive_neighbors(g, i % g.width as int, i / g.width as int),
        d,
        g.dead_to_alive_noise_probability as int,
        g.alive_survival_probability as int,
    ) == spec_deterministic_next(
        g.cells[i],
        spec_num_alive_neighbors(g, i % g.width as int, i / g.width as int),
    ) by {
        lemma_stochastic_extremes_match_deterministic(
            g.cells[i],
            spec_num_alive_neighbors(g, i % g.width as int, i / g.width as int),
            d,
        );
    }
    assert(spec_update(g, d1).cells =~= spec_update(g, d2).cells);
    assert(spec_update(g, d1).alive_sample_counts =~= spec_update(g, d2).alive_sample_counts);
    assert(spec_update(g, d1) =~= spec_update(g, d2));
}

/// Law: for every valid coordinate pair, converting to a linear index and
/// back yields the original coordinates.
pub proof fn lemma_coords_index_round_trip(x: int, y: int, width: int)
    requires
        0 <= x < width,
        0 <= y,
    ensures
        spec_coords_to_index(x, y, width) % width == x,
        spec_coords_to_index(x, y, width) / width == y,
{
    lemma_fundamental_div_mod_converse_mod(y * width + x, width, y, x);
    lemma_fundamental_div_mod_converse_div(y * width + x, width, y, x);
}

} // verus!
