//! The simulation engine: seeded initialization, the per-generation update
//! rule over the Moore 8-neighborhood with edge-clamped boundaries, and
//! frame-buffer extraction.
//!
//! Each cell carries a "current" RGB color (the authoritative state of the
//! present generation) and a "next" color (scratch written during a step and
//! committed at its end), so that every cell's decision reads only
//! previous-generation data.

use vstd::prelude::*;

verus! {

use crate::matrix::SmallMatrix;
use crate::rng::{Randomizer, RngCall, chacha_ratio, chacha_range_u8};

/// One cell of the simulation: a current RGB color and a next-generation
/// scratch color. A cell is alive when any current channel is positive.
#[derive(Clone, Copy, Debug, PartialEq, Eq, Structural)]
pub struct Cell {
    pub curr_r: u8,
    pub curr_g: u8,
    pub curr_b: u8,
    pub next_r: u8,
    pub next_g: u8,
    pub next_b: u8,
}

/// The all-zero cell: dead, with cleared scratch.
pub open spec fn dead_cell() -> Cell {
    Cell { curr_r: 0, curr_g: 0, curr_b: 0, next_r: 0, next_g: 0, next_b: 0 }
}

/// Liveness: any current channel strictly positive.
pub open spec fn cell_alive(c: Cell) -> bool {
    c.curr_r > 0 || c.curr_g > 0 || c.curr_b > 0
}

/// The current color channel `i` of a cell: red for 0, green for 1, blue
/// otherwise.
pub open spec fn channel(c: Cell, i: int) -> u8 {
    if i == 0 {
        c.curr_r
    } else if i == 1 {
        c.curr_g
    } else {
        c.curr_b
    }
}

impl Cell {
    /// A cell whose current color is `(r, g, b)` and whose scratch is clear.
    pub fn new(r: u8, g: u8, b: u8) -> (c: Self)
        ensures
            c == (Cell { curr_r: r, curr_g: g, curr_b: b, next_r: 0, next_g: 0, next_b: 0 }),
    {
        Self { curr_r: r, curr_g: g, curr_b: b, next_r: 0, next_g: 0, next_b: 0 }
    }

    /// Commits the scratch color as the current one; the scratch is kept.
    pub fn advance_gen(&mut self)
        ensures
            *final(self) == (Cell {
                curr_r: old(self).next_r,
                curr_g: old(self).next_g,
                curr_b: old(self).next_b,
                next_r: old(self).next_r,
                next_g: old(self).next_g,
                next_b: old(self).next_b,
            }),
    {
        self.curr_r = self.next_r;
        self.curr_g = self.next_g;
        self.curr_b = self.next_b;
    }

    /// Whether any current channel is positive.
    pub fn is_alive(&self) -> (b: bool)
        ensures
            b == cell_alive(*self),
    {
        self.curr_r > 0 || self.curr_g > 0 || self.curr_b > 0
    }

    /// Clears the scratch color; the current color is kept.
    pub fn set_dead(&mut self)
        ensures
            *final(self) == (Cell {
                curr_r: old(self).curr_r,
                curr_g: old(self).curr_g,
                curr_b: old(self).curr_b,
                next_r: 0,
                next_g: 0,
                next_b: 0,
            }),
    {
        self.next_r = 0;
        self.next_g = 0;
        self.next_b = 0;
    }
}

impl Default for Cell {
    /// The default cell is the dead, all-zero cell.
    fn default() -> (c: Self)
        ensures
            c == dead_cell(),
    {
        Self { curr_r: 0, curr_g: 0, curr_b: 0, next_r: 0, next_g: 0, next_b: 0 }
    }
}

/// 1 when `(x, y)` addresses a living cell of the grid, else 0. Coordinates
/// outside the grid count 0, which is exactly the edge-clamped boundary: a
/// cell near an edge has fewer than 8 neighbors.
pub open spec fn alive_at(g: SmallMatrix<Cell>, x: int, y: int) -> int {
    if g.in_bounds(x, y) && cell_alive(g.spec_index(x, y)) {
        1
    } else {
        0
    }
}

/// Channel `i` of the cell at `(x, y)` when that cell exists and is alive,
/// else 0: only living neighbors contribute to color sums.
pub open spec fn channel_at(g: SmallMatrix<Cell>, x: int, y: int, i: int) -> int {
    if g.in_bounds(x, y) && cell_alive(g.spec_index(x, y)) {
        channel(g.spec_index(x, y), i) as int
    } else {
        0
    }
}

/// The number of living cells in the Moore neighborhood of `(x, y)`, the
/// center itself excluded, clamped to the grid edges.
pub open spec fn living_neighbors(g: SmallMatrix<Cell>, x: int, y: int) -> int {
    alive_at(g, x - 1, y - 1) + alive_at(g, x - 1, y) + alive_at(g, x - 1, y + 1) + alive_at(
        g,
        x,
        y - 1,
    ) + alive_at(g, x, y + 1) + alive_at(g, x + 1, y - 1) + alive_at(g, x + 1, y) + alive_at(
        g,
        x + 1,
        y + 1,
    )
}

/// The sum of channel `i` over the living neighbors of `(x, y)`.
pub open spec fn channel_sum(g: SmallMatrix<Cell>, x: int, y: int, i: int) -> int {
    channel_at(g, x - 1, y - 1, i) + channel_at(g, x - 1, y, i) + channel_at(g, x - 1, y + 1, i)
        + channel_at(g, x, y - 1, i) + channel_at(g, x, y + 1, i) + channel_at(g, x + 1, y - 1, i)
        + channel_at(g, x + 1, y, i) + channel_at(g, x + 1, y + 1, i)
}

/// The average of channel `i` over the living neighbors of `(x, y)`: the
/// integer quotient of the sum by the count, and 0 when no neighbor lives.
pub open spec fn channel_avg(g: SmallMatrix<Cell>, x: int, y: int, i: int) -> int {
    if living_neighbors(g, x, y) == 0 {
        0
    } else {
        channel_sum(g, x, y, i) / living_neighbors(g, x, y)
    }
}

/// Channel `i` of the color that the cell at `(x, y)` takes in the next
/// generation:
/// - fewer than 2 or more than 3 living neighbors: dead (0);
/// - exactly 3 and currently dead: birth with the neighbor-average color;
/// - exactly 3 and currently alive: the channel-wise complement of the
///   neighbor average;
/// - exactly 2 and currently alive: the current color, unchanged;
/// - exactly 2 and currently dead: dead (0).
#[verifier::opaque]
pub open spec fn next_channel(g: SmallMatrix<Cell>, x: int, y: int, i: int) -> int {
    let n = living_neighbors(g, x, y);
    let c = g.spec_index(x, y);
    if n < 2 || n > 3 {
        0
    } else if n == 3 {
        if cell_alive(c) {
            255 - channel_avg(g, x, y, i)
        } else {
            channel_avg(g, x, y, i)
        }
    } else {
        if cell_alive(c) {
            channel(c, i) as int
        } else {
            0
        }
    }
}

/// The cell at `(x, y)` after the decision phase of a step over grid `g`:
/// current color untouched, scratch holding the next-generation color.
pub open spec fn scratched_cell(g: SmallMatrix<Cell>, x: int, y: int) -> Cell {
    Cell {
        curr_r: g.spec_index(x, y).curr_r,
        curr_g: g.spec_index(x, y).curr_g,
        curr_b: g.spec_index(x, y).curr_b,
        next_r: next_channel(g, x, y, 0) as u8,
        next_g: next_channel(g, x, y, 1) as u8,
        next_b: next_channel(g, x, y, 2) as u8,
    }
}

/// The cell at `(x, y)` after a full step over grid `g`: the next-generation
/// color committed as current, the scratch still holding it.
pub open spec fn stepped_cell(g: SmallMatrix<Cell>, x: int, y: int) -> Cell {
    Cell {
        curr_r: next_channel(g, x, y, 0) as u8,
        curr_g: next_channel(g, x, y, 1) as u8,
        curr_b: next_channel(g, x, y, 2) as u8,
        next_r: next_channel(g, x, y, 0) as u8,
        next_g: next_channel(g, x, y, 1) as u8,
        next_b: next_channel(g, x, y, 2) as u8,
    }
}

/// The draws consumed by seeding the first `k` cells of a grid, oldest
/// first: one biased boolean draw per cell, followed, for the cells drawn
/// alive, by three channel draws from `[0, 255)`.
pub open spec fn history_through(seed: u64, numerator: u32, denominator: u32, k: nat) -> Seq<
    RngCall,
>
    decreases k,
{
    if k == 0 {
        Seq::empty()
    } else {
        let h = history_through(seed, numerator, denominator, (k - 1) as nat);
        let h1 = h.push(RngCall::Ratio(numerator, denominator));
        if chacha_ratio(seed, h, numerator, denominator) {
            h1.push(RngCall::Range(0, 255)).push(RngCall::Range(0, 255)).push(
                RngCall::Range(0, 255),
            )
        } else {
            h1
        }
    }
}

/// The cell that seeding writes at linear position `k`: alive with three
/// independently drawn channels when the biased boolean draw for that cell
/// came out alive, and the dead all-zero cell otherwise. A pure function of
/// the seed, the density and the position, which is exactly the required
/// determinism of seeded initialization.
pub open spec fn seeded_cell(seed: u64, numerator: u32, denominator: u32, k: nat) -> Cell {
    let h = history_through(seed, numerator, denominator, k);
    let h1 = h.push(RngCall::Ratio(numerator, denominator));
    let h2 = h1.push(RngCall::Range(0, 255));
    let h3 = h2.push(RngCall::Range(0, 255));
    if chacha_ratio(seed, h, numerator, denominator) {
        Cell {
            curr_r: chacha_range_u8(seed, h1, 0, 255),
            curr_g: chacha_range_u8(seed, h2, 0, 255),
            curr_b: chacha_range_u8(seed, h3, 0, 255),
            next_r: 0,
            next_g: 0,
            next_b: 0,
        }
    } else {
        dead_cell()
    }
}

/// What seeding leaves at linear position `k` of a grid whose cell there was
/// `orig`: the seeded cell when the alive draw came out alive, and the
/// untouched original cell otherwise.
pub open spec fn populated_cell(
    seed: u64,
    numerator: u32,
    denominator: u32,
    k: nat,
    orig: Cell,
) -> Cell {
    if chacha_ratio(
        seed,
        history_through(seed, numerator, denominator, k),
        numerator,
        denominator,
    ) {
        seeded_cell(seed, numerator, denominator, k)
    } else {
        orig
    }
}

/// Whether two grids have the same extents and the same current colors
/// everywhere; neighbor aggregates and step decisions read nothing else.
pub open spec fn same_current(g1: SmallMatrix<Cell>, g2: SmallMatrix<Cell>) -> bool {
    &&& g1.spec_rows() == g2.spec_rows()
    &&& g1.spec_columns() == g2.spec_columns()
    &&& forall|x: int, y: int|
        g1.in_bounds(x, y) ==> current_eq(#[trigger] g1.spec_index(x, y), g2.spec_index(x, y))
}

/// Whether two cells have the same current color.
pub open spec fn current_eq(c1: Cell, c2: Cell) -> bool {
    c1.curr_r == c2.curr_r && c1.curr_g == c2.curr_g && c1.curr_b == c2.curr_b
}

/// One grid point contributes the same liveness and channel values to any
/// aggregate in two grids that agree on extents and current colors.
proof fn lemma_point_same_current(g1: SmallMatrix<Cell>, g2: SmallMatrix<Cell>, x: int, y: int)
    requires
        same_current(g1, g2),
    ensures
        alive_at(g1, x, y) == alive_at(g2, x, y),
        forall|i: int| channel_at(g1, x, y, i) == channel_at(g2, x, y, i),
{
    if g1.in_bounds(x, y) {
        assert(current_eq(g1.spec_index(x, y), g2.spec_index(x, y)));
    }
}

/// Neighbor aggregates and the step decision depend only on the extents and
/// the current colors of the grid.
pub proof fn lemma_step_reads_current(g1: SmallMatrix<Cell>, g2: SmallMatrix<Cell>, x: int, y: int)
    requires
        same_current(g1, g2),
        g1.in_bounds(x, y),
    ensures
        living_neighbors(g1, x, y) == living_neighbors(g2, x, y),
        forall|i: int| channel_sum(g1, x, y, i) == channel_sum(g2, x, y, i),
        forall|i: int| channel_avg(g1, x, y, i) == channel_avg(g2, x, y, i),
        forall|i: int| next_channel(g1, x, y, i) == next_channel(g2, x, y, i),
        cell_alive(g1.spec_index(x, y)) == cell_alive(g2.spec_index(x, y)),
{
    lemma_point_same_current(g1, g2, x - 1, y - 1);
    lemma_point_same_current(g1, g2, x - 1, y);
    lemma_point_same_current(g1, g2, x - 1, y + 1);
    lemma_point_same_current(g1, g2, x, y - 1);
    lemma_point_same_current(g1, g2, x, y + 1);
    lemma_point_same_current(g1, g2, x + 1, y - 1);
    lemma_point_same_current(g1, g2, x + 1, y);
    lemma_point_same_current(g1, g2, x + 1, y + 1);
    assert(current_eq(g1.spec_index(x, y), g2.spec_index(x, y)));
    assert forall|i: int| next_channel(g1, x, y, i) == next_channel(g2, x, y, i) by {
        reveal(next_channel);
        assert(channel_sum(g1, x, y, i) == channel_sum(g2, x, y, i));
    }
}

/// The neighbor count never exceeds 8, and every channel average lies in
/// `[0, 255]`, so every next-generation channel does too.
pub proof fn lemma_aggregate_bounds(g: SmallMatrix<Cell>, x: int, y: int)
    ensures
        0 <= living_neighbors(g, x, y) <= 8,
        forall|i: int| 0 <= #[trigger] channel_sum(g, x, y, i) <= 255 * living_neighbors(g, x, y),
        forall|i: int| 0 <= #[trigger] channel_avg(g, x, y, i) <= 255,
        forall|i: int| 0 <= #[trigger] next_channel(g, x, y, i) <= 255,
{
    assert forall|i: int| 0 <= #[trigger] channel_sum(g, x, y, i) <= 255 * living_neighbors(
        g,
        x,
        y,
    ) by {
        assert(channel_at(g, x - 1, y - 1, i) <= 255 * alive_at(g, x - 1, y - 1));
        assert(channel_at(g, x - 1, y, i) <= 255 * alive_at(g, x - 1, y));
        assert(channel_at(g, x - 1, y + 1, i) <= 255 * alive_at(g, x - 1, y + 1));
        assert(channel_at(g, x, y - 1, i) <= 255 * alive_at(g, x, y - 1));
        assert(channel_at(g, x, y + 1, i) <= 255 * alive_at(g, x, y + 1));
        assert(channel_at(g, x + 1, y - 1, i) <= 255 * alive_at(g, x + 1, y - 1));
        assert(channel_at(g, x + 1, y, i) <= 255 * alive_at(g, x + 1, y));
        assert(channel_at(g, x + 1, y + 1, i) <= 255 * alive_at(g, x + 1, y + 1));
    }
    assert forall|i: int| 0 <= #[trigger] channel_avg(g, x, y, i) <= 255 by {
        let n = living_neighbors(g, x, y);
        let s = channel_sum(g, x, y, i);
        if n != 0 {
            assert(0 <= s / n <= 255) by (nonlinear_arith)
                requires
                    1 <= n,
                    0 <= s <= 255 * n,
            ;
        }
    }
    assert forall|i: int| 0 <= #[trigger] next_channel(g, x, y, i) <= 255 by {
        reveal(next_channel);
        assert(0 <= channel_avg(g, x, y, i) <= 255);
    }
}

/// Adds the neighbor of `(x, y)` at offset `(dx, dy)` to the running
/// liveness count and per-channel color sums. An offset that leaves the grid
/// contributes nothing (the edge-clamped boundary); a living neighbor
/// contributes 1 and its current color; a dead one contributes nothing.
fn accumulate_neighbor(
    grid: &SmallMatrix<Cell>,
    x: usize,
    y: usize,
    dx: i8,
    dy: i8,
    count: &mut u8,
    sum_r: &mut u16,
    sum_g: &mut u16,
    sum_b: &mut u16,
)
    requires
        grid.wf(),
        grid.in_bounds(x as int, y as int),
        -1 <= dx <= 1,
        -1 <= dy <= 1,
        *old(count) <= 7,
        *old(sum_r) <= 255 * 7,
        *old(sum_g) <= 255 * 7,
        *old(sum_b) <= 255 * 7,
    ensures
        *final(count) == *old(count) + alive_at(*grid, x + dx, y + dy),
        *final(sum_r) == *old(sum_r) + channel_at(*grid, x + dx, y + dy, 0),
        *final(sum_g) == *old(sum_g) + channel_at(*grid, x + dx, y + dy, 1),
        *final(sum_b) == *old(sum_b) + channel_at(*grid, x + dx, y + dy, 2),
{
    let (rows, columns) = grid.get_size();
    let row_ok: bool = if dx < 0 {
        x > 0
    } else if dx > 0 {
        x + 1 < rows
    } else {
        true
    };
    let col_ok: bool = if dy < 0 {
        y > 0
    } else if dy > 0 {
        y + 1 < columns
    } else {
        true
    };
    if !(row_ok && col_ok) {
        return ;
    }
    let a: usize = if dx < 0 {
        x - 1
    } else if dx > 0 {
        x + 1
    } else {
        x
    };
    let b: usize = if dy < 0 {
        y - 1
    } else if dy > 0 {
        y + 1
    } else {
        y
    };
    let c = *grid.get_val_at(a, b).unwrap();
    if c.is_alive() {
        *count = *count + 1;
        *sum_r = *sum_r + c.curr_r as u16;
        *sum_g = *sum_g + c.curr_g as u16;
        *sum_b = *sum_b + c.curr_b as u16;
    }
}

/// Computes, for the cell at `(x, y)`, the number of living neighbors and the
/// per-channel integer average of the living neighbors' colors (0 when no
/// neighbor lives), scanning the Moore neighborhood clamped to the grid
/// edges.
pub fn get_neighbor_data(grid: &SmallMatrix<Cell>, x: usize, y: usize) -> (r: (u8, u8, u8, u8))
    requires
        grid.wf(),
        grid.in_bounds(x as int, y as int),
    ensures
        r.0 == living_neighbors(*grid, x as int, y as int),
        r.1 == channel_avg(*grid, x as int, y as int, 0),
        r.2 == channel_avg(*grid, x as int, y as int, 1),
        r.3 == channel_avg(*grid, x as int, y as int, 2),
{
    let mut count: u8 = 0;
    let mut sum_r: u16 = 0;
    let mut sum_g: u16 = 0;
    let mut sum_b: u16 = 0;

    accumulate_neighbor(grid, x, y, -1, -1, &mut count, &mut sum_r, &mut sum_g, &mut sum_b);
    accumulate_neighbor(grid, x, y, -1, 0, &mut count, &mut sum_r, &mut sum_g, &mut sum_b);
    accumulate_neighbor(grid, x, y, -1, 1, &mut count, &mut sum_r, &mut sum_g, &mut sum_b);
    accumulate_neighbor(grid, x, y, 0, -1, &mut count, &mut sum_r, &mut sum_g, &mut sum_b);
    accumulate_neighbor(grid, x, y, 0, 1, &mut count, &mut sum_r, &mut sum_g, &mut sum_b);
    accumulate_neighbor(grid, x, y, 1, -1, &mut count, &mut sum_r, &mut sum_g, &mut sum_b);
    accumulate_neighbor(grid, x, y, 1, 0, &mut count, &mut sum_r, &mut sum_g, &mut sum_b);
    accumulate_neighbor(grid, x, y, 1, 1, &mut count, &mut sum_r, &mut sum_g, &mut sum_b);
    assert(count == living_neighbors(*grid, x as int, y as int));
    assert(sum_r == channel_sum(*grid, x as int, y as int, 0));
    assert(sum_g == channel_sum(*grid, x as int, y as int, 1));
    assert(sum_b == channel_sum(*grid, x as int, y as int, 2));

    proof {
        lemma_aggregate_bounds(*grid, x as int, y as int);
    }
    let avg_r: u8 = if count > 0 {
        (sum_r / count as u16) as u8
    } else {
        0
    };
    let avg_g: u8 = if count > 0 {
        (sum_g / count as u16) as u8
    } else {
        0
    };
    let avg_b: u8 = if count > 0 {
        (sum_b / count as u16) as u8
    } else {
        0
    };
    (count, avg_r, avg_g, avg_b)
}

/// Advances the grid by exactly one generation, in place: first a decision
/// phase writes every cell's scratch color from the previous generation's
/// neighbor aggregates, then a commit phase makes every scratch color
/// current. No cell's decision ever reads another cell's already-committed
/// next state, so the result does not depend on the scan order.
pub fn next_generation(grid: &mut SmallMatrix<Cell>)
    requires
        old(grid).wf(),
    ensures
        final(grid).wf(),
        final(grid).spec_rows() == old(grid).spec_rows(),
        final(grid).spec_columns() == old(grid).spec_columns(),
        forall|x: int, y: int|
            old(grid).in_bounds(x, y) ==> #[trigger] final(grid).spec_index(x, y) == stepped_cell(
                *old(grid),
                x,
                y,
            ),
{
    let ghost g0 = *grid;
    let (num_rows, num_columns) = grid.get_size();
    let mut x: usize = 0;
    while x < num_rows
        invariant
            grid.wf(),
            grid.spec_rows() == num_rows,
            grid.spec_columns() == num_columns,
            g0.wf(),
            g0.spec_rows() == num_rows,
            g0.spec_columns() == num_columns,
            x <= num_rows,
            forall|a: int, b: int|
                g0.in_bounds(a, b) && a < x ==> #[trigger] grid.spec_index(a, b) == scratched_cell(
                    g0,
                    a,
                    b,
                ),
            forall|a: int, b: int|
                g0.in_bounds(a, b) && a >= x ==> #[trigger] grid.spec_index(a, b) == g0.spec_index(
                    a,
                    b,
                ),
        decreases num_rows - x,
    {
        let mut y: usize = 0;
        while y < num_columns
            invariant
                grid.wf(),
                grid.spec_rows() == num_rows,
                grid.spec_columns() == num_columns,
                g0.wf(),
                g0.spec_rows() == num_rows,
                g0.spec_columns() == num_columns,
                x < num_rows,
                y <= num_columns,
                forall|a: int, b: int|
                    g0.in_bounds(a, b) && (a < x || (a == x && b < y))
                        ==> #[trigger] grid.spec_index(a, b) == scratched_cell(g0, a, b),
                forall|a: int, b: int|
                    g0.in_bounds(a, b) && (a > x || (a == x && b >= y))
                        ==> #[trigger] grid.spec_index(a, b) == g0.spec_index(a, b),
            decreases num_columns - y,
        {
            proof {
                assert forall|a: int, b: int| grid.in_bounds(a, b) implies current_eq(
                    #[trigger] grid.spec_index(a, b),
                    g0.spec_index(a, b),
                ) by {
                    if a < x || (a == x && b < y) {
                        assert(grid.spec_index(a, b) == scratched_cell(g0, a, b));
                    } else {
                        assert(grid.spec_index(a, b) == g0.spec_index(a, b));
                    }
                }
                assert(same_current(*grid, g0));
                lemma_step_reads_current(*grid, g0, x as int, y as int);
                lemma_aggregate_bounds(g0, x as int, y as int);
            }
            let (num_living, avg_r, avg_g, avg_b) = get_neighbor_data(grid, x, y);
            let mut cell = *grid.get_val_at(x, y).unwrap();
            if num_living < 2 {
                cell.set_dead();
            } else if num_living > 3 {
                cell.set_dead();
            } else if num_living == 3 {
                if cell.is_alive() {
                    cell.next_r = 255 - avg_r;
                    cell.next_g = 255 - avg_g;
                    cell.next_b = 255 - avg_b;
                } else {
                    cell.next_r = avg_r;
                    cell.next_g = avg_g;
                    cell.next_b = avg_b;
                }
            } else {
                if cell.is_alive() {
                    cell.next_r = cell.curr_r;
                    cell.next_g = cell.curr_g;
                    cell.next_b = cell.curr_b;
                } else {
                    cell.set_dead();
                }
            }
            assert(cell == scratched_cell(g0, x as int, y as int)) by {
                reveal(next_channel);
            }
            let ghost gmid = *grid;
            let _ = grid.set_val_at(x, y, cell);
            proof {
                crate::matrix::lemma_offset_in_range(
                    num_rows as int,
                    num_columns as int,
                    x as int,
                    y as int,
                );
                assert forall|a: int, b: int|
                    g0.in_bounds(a, b) && (a < x || (a == x && b < y + 1)) implies #[trigger] grid
                    .spec_index(a, b) == scratched_cell(g0, a, b) by {
                    crate::matrix::lemma_offset_in_range(
                        num_rows as int,
                        num_columns as int,
                        a,
                        b,
                    );
                    if a == x as int && b == y as int {
                        assert(grid.spec_index(a, b) == cell);
                    } else {
                        crate::matrix::lemma_offset_injective(
                            num_columns as int,
                            a,
                            b,
                            x as int,
                            y as int,
                        );
                        assert(grid.spec_index(a, b) == gmid.spec_index(a, b));
                    }
                }
                assert forall|a: int, b: int|
                    g0.in_bounds(a, b) && (a > x || (a == x && b >= y + 1)) implies #[trigger] grid
                    .spec_index(a, b) == g0.spec_index(a, b) by {
                    crate::matrix::lemma_offset_in_range(
                        num_rows as int,
                        num_columns as int,
                        a,
                        b,
                    );
                    crate::matrix::lemma_offset_injective(
                        num_columns as int,
                        a,
                        b,
                        x as int,
                        y as int,
                    );
                    assert(grid.spec_index(a, b) == gmid.spec_index(a, b));
                }
            }
            y = y + 1;
        }
        x = x + 1;
    }
    let mut x: usize = 0;
    while x < num_rows
        invariant
            grid.wf(),
            grid.spec_rows() == num_rows,
            grid.spec_columns() == num_columns,
            g0.wf(),
            g0.spec_rows() == num_rows,
            g0.spec_columns() == num_columns,
            x <= num_rows,
            forall|a: int, b: int|
                g0.in_bounds(a, b) && a < x ==> #[trigger] grid.spec_index(a, b) == stepped_cell(
                    g0,
                    a,
                    b,
                ),
            forall|a: int, b: int|
                g0.in_bounds(a, b) && a >= x ==> #[trigger] grid.spec_index(a, b)
                    == scratched_cell(g0, a, b),
        decreases num_rows - x,
    {
        let mut y: usize = 0;
        while y < num_columns
            invariant
                grid.wf(),
                grid.spec_rows() == num_rows,
                grid.spec_columns() == num_columns,
                g0.wf(),
                g0.spec_rows() == num_rows,
                g0.spec_columns() == num_columns,
                x < num_rows,
                y <= num_columns,
                forall|a: int, b: int|
                    g0.in_bounds(a, b) && (a < x || (a == x && b < y))
                        ==> #[trigger] grid.spec_index(a, b) == stepped_cell(g0, a, b),
                forall|a: int, b: int|
                    g0.in_bounds(a, b) && (a > x || (a == x && b >= y))
                        ==> #[trigger] grid.spec_index(a, b) == scratched_cell(g0, a, b),
            decreases num_columns - y,
        {
            let mut cell = *grid.get_val_at(x, y).unwrap();
            cell.advance_gen();
            assert(cell == stepped_cell(g0, x as int, y as int));
            let ghost gmid = *grid;
            let _ = grid.set_val_at(x, y, cell);
            proof {
                crate::matrix::lemma_offset_in_range(
                    num_rows as int,
                    num_columns as int,
                    x as int,
                    y as int,
                );
                assert forall|a: int, b: int|
                    g0.in_bounds(a, b) && (a < x || (a == x && b < y + 1)) implies #[trigger] grid
                    .spec_index(a, b) == stepped_cell(g0, a, b) by {
                    crate::matrix::lemma_offset_in_range(
                        num_rows as int,
                        num_columns as int,
                        a,
                        b,
                    );
                    if a == x as int && b == y as int {
                        assert(grid.spec_index(a, b) == cell);
                    } else {
                        crate::matrix::lemma_offset_injective(
                            num_columns as int,
                            a,
                            b,
                            x as int,
                            y as int,
                        );
                        assert(grid.spec_index(a, b) == gmid.spec_index(a, b));
                    }
                }
                assert forall|a: int, b: int|
                    g0.in_bounds(a, b) && (a > x || (a == x && b >= y + 1)) implies #[trigger] grid
                    .spec_index(a, b) == scratched_cell(g0, a, b) by {
                    crate::matrix::lemma_offset_in_range(
                        num_rows as int,
                        num_columns as int,
                        a,
                        b,
                    );
                    crate::matrix::lemma_offset_injective(
                        num_columns as int,
                        a,
                        b,
                        x as int,
                        y as int,
                    );
                    assert(grid.spec_index(a, b) == gmid.spec_index(a, b));
                }
            }
            y = y + 1;
        }
        x = x + 1;
    }
}

/// Seeds the grid from a ChaCha8 stream: scanning cells in linear order,
/// each cell is drawn alive with probability
/// `alive_numerator / alive_denominator`; a cell drawn alive gets three
/// independently drawn channels from `[0, 255)`, one drawn dead is left
/// untouched.
pub fn populate_grid_with_density(
    grid: &mut SmallMatrix<Cell>,
    seed: u64,
    alive_numerator: u32,
    alive_denominator: u32,
)
    requires
        old(grid).wf(),
        1 <= alive_denominator,
        alive_numerator <= alive_denominator,
    ensures
        final(grid).wf(),
        final(grid).spec_rows() == old(grid).spec_rows(),
        final(grid).spec_columns() == old(grid).spec_columns(),
        forall|j: int|
            0 <= j < old(grid).cells().len() ==> #[trigger] final(grid).cells()[j]
                == populated_cell(
                seed,
                alive_numerator,
                alive_denominator,
                j as nat,
                old(grid).cells()[j],
            ),
{
    let ghost g0 = *grid;
    let (num_rows, num_columns) = grid.get_size();
    let ghost total: int = num_rows as int * num_columns as int;
    let mut randomizer = Randomizer::from_seed(seed);
    let ghost mut k: int = 0;
    let mut x: usize = 0;
    while x < num_rows
        invariant
            grid.wf(),
            grid.spec_rows() == num_rows,
            grid.spec_columns() == num_columns,
            g0.wf(),
            g0.spec_rows() == num_rows,
            g0.spec_columns() == num_columns,
            1 <= alive_denominator,
            alive_numerator <= alive_denominator,
            total == num_rows as int * num_columns as int,
            x <= num_rows,
            k == x * num_columns,
            0 <= k <= total,
            randomizer.spec_seed() == seed,
            randomizer.spec_draws() == history_through(
                seed,
                alive_numerator,
                alive_denominator,
                k as nat,
            ),
            forall|j: int|
                0 <= j < k ==> #[trigger] grid.cells()[j] == populated_cell(
                    seed,
                    alive_numerator,
                    alive_denominator,
                    j as nat,
                    g0.cells()[j],
                ),
            forall|j: int| k <= j < total ==> #[trigger] grid.cells()[j] == g0.cells()[j],
        decreases num_rows - x,
    {
        let mut y: usize = 0;
        while y < num_columns
            invariant
                grid.wf(),
                grid.spec_rows() == num_rows,
                grid.spec_columns() == num_columns,
                g0.wf(),
                g0.spec_rows() == num_rows,
                g0.spec_columns() == num_columns,
                1 <= alive_denominator,
                alive_numerator <= alive_denominator,
                total == num_rows as int * num_columns as int,
                x < num_rows,
                y <= num_columns,
                k == x * num_columns + y,
                0 <= k <= total,
                randomizer.spec_seed() == seed,
                randomizer.spec_draws() == history_through(
                    seed,
                    alive_numerator,
                    alive_denominator,
                    k as nat,
                ),
                forall|j: int|
                    0 <= j < k ==> #[trigger] grid.cells()[j] == populated_cell(
                        seed,
                        alive_numerator,
                        alive_denominator,
                        j as nat,
                        g0.cells()[j],
                    ),
                forall|j: int| k <= j < total ==> #[trigger] grid.cells()[j] == g0.cells()[j],
            decreases num_columns - y,
        {
            proof {
                crate::matrix::lemma_offset_in_range(
                    num_rows as int,
                    num_columns as int,
                    x as int,
                    y as int,
                );
            }
            let alive = randomizer.draw_ratio(alive_numerator, alive_denominator);
            if alive {
                let red = randomizer.draw_range_u8(0, 255);
                let green = randomizer.draw_range_u8(0, 255);
                let blue = randomizer.draw_range_u8(0, 255);
                let _ = grid.set_val_at(x, y, Cell::new(red, green, blue));
            }
            proof {
                assert(randomizer.spec_draws() == history_through(
                    seed,
                    alive_numerator,
                    alive_denominator,
                    (k + 1) as nat,
                ));
                assert(grid.cells()[k] == populated_cell(
                    seed,
                    alive_numerator,
                    alive_denominator,
                    k as nat,
                    g0.cells()[k],
                ));
                k = k + 1;
            }
            y = y + 1;
        }
        proof {
            assert(x * num_columns + num_columns == (x + 1) * num_columns) by (nonlinear_arith);
        }
        x = x + 1;
    }
}

/// Seeds the grid with the canonical density: each cell is drawn alive with
/// probability one half.
pub fn populate_grid(grid: &mut SmallMatrix<Cell>, seed: u64)
    requires
        old(grid).wf(),
    ensures
        final(grid).wf(),
        final(grid).spec_rows() == old(grid).spec_rows(),
        final(grid).spec_columns() == old(grid).spec_columns(),
        forall|j: int|
            0 <= j < old(grid).cells().len() ==> #[trigger] final(grid).cells()[j]
                == populated_cell(seed, 1, 2, j as nat, old(grid).cells()[j]),
{
    populate_grid_with_density(grid, seed, 1, 2);
}

/// Builds an `n` by `m` grid and seeds it from the given seed, each cell
/// drawn alive with probability `alive_numerator / alive_denominator`. The
/// result is a pure function of the arguments: the same extents, seed and
/// density always yield the identical grid.
pub fn initialize_game_with_density(
    n: usize,
    m: usize,
    seed: u64,
    alive_numerator: u32,
    alive_denominator: u32,
) -> (grid: SmallMatrix<Cell>)
    requires
        1 <= n,
        1 <= m,
        n * m <= usize::MAX,
        1 <= alive_denominator,
        alive_numerator <= alive_denominator,
    ensures
        grid.wf(),
        grid.spec_rows() == n,
        grid.spec_columns() == m,
        forall|j: int|
            0 <= j < n * m ==> #[trigger] grid.cells()[j] == seeded_cell(
                seed,
                alive_numerator,
                alive_denominator,
                j as nat,
            ),
{
    let mut grid: SmallMatrix<Cell> = match SmallMatrix::new(n, m) {
        Ok(g) => g,
        Err(_) => vstd::pervasive::unreached(),
    };
    proof {
        assert forall|j: int| 0 <= j < n * m implies #[trigger] grid.cells()[j] == dead_cell() by {
            assert(call_ensures(Cell::default, (), grid.cells()[j]));
        }
    }
    populate_grid_with_density(&mut grid, seed, alive_numerator, alive_denominator);
    grid
}

/// Builds an `n` by `m` grid seeded with the canonical density: each cell is
/// drawn alive with probability one half. Two calls with identical arguments
/// yield identical grids.
pub fn initialize_game(n: usize, m: usize, seed: u64) -> (grid: SmallMatrix<Cell>)
    requires
        1 <= n,
        1 <= m,
        n * m <= usize::MAX,
    ensures
        grid.wf(),
        grid.spec_rows() == n,
        grid.spec_columns() == m,
        forall|j: int|
            0 <= j < n * m ==> #[trigger] grid.cells()[j] == seeded_cell(seed, 1, 2, j as nat),
{
    initialize_game_with_density(n, m, seed, 1, 2)
}

/// A grid whose only living cells form a 2-by-2 block with its upper-left
/// corner at `(i, j)`, every block cell currently showing the one color
/// `(cr, cg, cb)`; the shared color is living (some channel positive) and
/// not pure white (some channel below 255).
pub open spec fn lone_uniform_block(
    g: SmallMatrix<Cell>,
    i: int,
    j: int,
    cr: u8,
    cg: u8,
    cb: u8,
) -> bool {
    &&& g.wf()
    &&& g.in_bounds(i, j)
    &&& g.in_bounds(i + 1, j + 1)
    &&& (cr > 0 || cg > 0 || cb > 0)
    &&& (cr < 255 || cg < 255 || cb < 255)
    &&& forall|x: int, y: int|
        g.in_bounds(x, y) ==> (cell_alive(#[trigger] g.spec_index(x, y)) <==> (i <= x <= i + 1
            && j <= y <= j + 1))
    &&& forall|x: int, y: int|
        g.in_bounds(x, y) && i <= x <= i + 1 && j <= y <= j + 1 ==> ((#[trigger] g.spec_index(
            x,
            y,
        )).curr_r == cr && g.spec_index(x, y).curr_g == cg && g.spec_index(x, y).curr_b == cb)
}

/// A lone 2-by-2 block of living cells sharing one non-white color survives
/// a step: each block cell has exactly 3 living neighbors whose shared color
/// it inherits as the channel-wise complement, and every other cell stays
/// dead. Were the shared color pure white, the complement of the white
/// average would be all-zero and the block would die instead.
pub proof fn lemma_block_survives_step(
    g: SmallMatrix<Cell>,
    i: int,
    j: int,
    cr: u8,
    cg: u8,
    cb: u8,
)
    requires
        lone_uniform_block(g, i, j, cr, cg, cb),
    ensures
        forall|x: int, y: int|
            g.in_bounds(x, y) ==> (cell_alive(#[trigger] stepped_cell(g, x, y)) <==> (i <= x <= i
                + 1 && j <= y <= j + 1)),
        forall|x: int, y: int|
            g.in_bounds(x, y) && i <= x <= i + 1 && j <= y <= j + 1 ==> ((#[trigger] stepped_cell(
                g,
                x,
                y,
            )).curr_r == 255 - cr && stepped_cell(g, x, y).curr_g == 255 - cg && stepped_cell(
                g,
                x,
                y,
            ).curr_b == 255 - cb),
{
    assert forall|x: int, y: int| g.in_bounds(x, y) implies {
        &&& (cell_alive(#[trigger] stepped_cell(g, x, y)) <==> (i <= x <= i + 1 && j <= y <= j
            + 1))
        &&& (i <= x <= i + 1 && j <= y <= j + 1 ==> stepped_cell(g, x, y).curr_r == 255 - cr
            && stepped_cell(g, x, y).curr_g == 255 - cg && stepped_cell(g, x, y).curr_b == 255
            - cb)
    } by {
        reveal(next_channel);
        // Mentioning each neighbor cell makes the liveness and color
        // hypotheses available at all 8 positions around (x, y).
        let c0 = g.spec_index(x - 1, y - 1);
        let c1 = g.spec_index(x - 1, y);
        let c2 = g.spec_index(x - 1, y + 1);
        let c3 = g.spec_index(x, y - 1);
        let c4 = g.spec_index(x, y + 1);
        let c5 = g.spec_index(x + 1, y - 1);
        let c6 = g.spec_index(x + 1, y);
        let c7 = g.spec_index(x + 1, y + 1);
        let c = g.spec_index(x, y);
        if i <= x <= i + 1 && j <= y <= j + 1 {
            assert(living_neighbors(g, x, y) == 3);
            assert(channel_sum(g, x, y, 0) == 3 * cr);
            assert(channel_sum(g, x, y, 1) == 3 * cg);
            assert(channel_sum(g, x, y, 2) == 3 * cb);
            assert((3 * (cr as int)) / 3 == cr as int) by (nonlinear_arith);
            assert((3 * (cg as int)) / 3 == cg as int) by (nonlinear_arith);
            assert((3 * (cb as int)) / 3 == cb as int) by (nonlinear_arith);
            assert(next_channel(g, x, y, 0) == 255 - cr);
        } else {
            assert(living_neighbors(g, x, y) <= 2);
            assert(!cell_alive(c));
        }
    }
}

/// A lone uniform block is stable under stepping: a grid that holds, at
/// every coordinate, the stepped cell of a lone-block grid is itself a lone
/// block at the same place, colored with the complement. The complement of a
/// living non-white color is again living and non-white, so this lemma
/// applies to its own conclusion: the block remains alive through every
/// later generation, and — the complement being an involution — shows the
/// original color again every second one.
pub proof fn lemma_block_stable(
    g1: SmallMatrix<Cell>,
    g2: SmallMatrix<Cell>,
    i: int,
    j: int,
    cr: u8,
    cg: u8,
    cb: u8,
)
    requires
        lone_uniform_block(g1, i, j, cr, cg, cb),
        g2.wf(),
        g2.spec_rows() == g1.spec_rows(),
        g2.spec_columns() == g1.spec_columns(),
        forall|x: int, y: int|
            g1.in_bounds(x, y) ==> #[trigger] g2.spec_index(x, y) == stepped_cell(g1, x, y),
    ensures
        lone_uniform_block(g2, i, j, (255 - cr) as u8, (255 - cg) as u8, (255 - cb) as u8),
{
    lemma_block_survives_step(g1, i, j, cr, cg, cb);
    assert forall|x: int, y: int| g2.in_bounds(x, y) implies (cell_alive(
        #[trigger] g2.spec_index(x, y),
    ) <==> (i <= x <= i + 1 && j <= y <= j + 1)) by {
        assert(g2.spec_index(x, y) == stepped_cell(g1, x, y));
        assert(cell_alive(stepped_cell(g1, x, y)) <==> (i <= x <= i + 1 && j <= y <= j + 1));
    }
    assert forall|x: int, y: int|
        g2.in_bounds(x, y) && i <= x <= i + 1 && j <= y <= j + 1 implies ((#[trigger] g2.spec_index(
        x,
        y,
    )).curr_r == 255 - cr && g2.spec_index(x, y).curr_g == 255 - cg && g2.spec_index(x, y).curr_b
        == 255 - cb) by {
        assert(g2.spec_index(x, y) == stepped_cell(g1, x, y));
        assert(stepped_cell(g1, x, y).curr_r == 255 - cr);
    }
}

/// Seeded initialization is deterministic: two grids of the same extents
/// whose cells all carry the seeded values for the same seed and density are
/// identical, cell for cell.
pub proof fn lemma_initialize_deterministic(
    g1: SmallMatrix<Cell>,
    g2: SmallMatrix<Cell>,
    n: usize,
    m: usize,
    seed: u64,
    numerator: u32,
    denominator: u32,
)
    requires
        g1.wf(),
        g1.spec_rows() == n,
        g1.spec_columns() == m,
        g2.wf(),
        g2.spec_rows() == n,
        g2.spec_columns() == m,
        forall|j: int|
            0 <= j < n * m ==> #[trigger] g1.cells()[j] == seeded_cell(
                seed,
                numerator,
                denominator,
                j as nat,
            ),
        forall|j: int|
            0 <= j < n * m ==> #[trigger] g2.cells()[j] == seeded_cell(
                seed,
                numerator,
                denominator,
                j as nat,
            ),
    ensures
        g1.cells() == g2.cells(),
{
    assert forall|j: int| 0 <= j < g1.cells().len() implies g1.cells()[j] == g2.cells()[j] by {
        assert(g1.cells()[j] == seeded_cell(seed, numerator, denominator, j as nat));
    }
    assert(g1.cells() =~= g2.cells());
}

/// The channel-wise color complement is an involution: taking the
/// complement of the complement gives the original channel back.
pub proof fn lemma_complement_involution(c: u8)
    ensures
        255 - (255 - c) == c,
{
}

/// A cell with fewer than 2 living neighbors — an isolated cell in
/// particular — is dead after a step.
pub proof fn lemma_lonely_cell_dies(g: SmallMatrix<Cell>, x: int, y: int)
    requires
        living_neighbors(g, x, y) < 2,
    ensures
        !cell_alive(stepped_cell(g, x, y)),
{
    reveal(next_channel);
}

/// A cell with more than 3 living neighbors — 4 in particular — is dead
/// after a step.
pub proof fn lemma_overcrowded_cell_dies(g: SmallMatrix<Cell>, x: int, y: int)
    requires
        living_neighbors(g, x, y) > 3,
    ensures
        !cell_alive(stepped_cell(g, x, y)),
{
    reveal(next_channel);
}

/// Edge clamping at the corner: in a grid with at least 2 rows and 2
/// columns, the cell at `(0, 0)` considers exactly its 3 in-grid neighbors
/// `(0, 1)`, `(1, 0)` and `(1, 1)`; the 5 out-of-range positions contribute
/// nothing, so its neighbor count never exceeds 3.
pub proof fn lemma_corner_clamps(g: SmallMatrix<Cell>)
    requires
        g.wf(),
        g.spec_rows() >= 2,
        g.spec_columns() >= 2,
    ensures
        living_neighbors(g, 0, 0) == alive_at(g, 0, 1) + alive_at(g, 1, 0) + alive_at(g, 1, 1),
        0 <= living_neighbors(g, 0, 0) <= 3,
{
}

/// The current color of a cell packed into one integer:
/// `(red << 16) | (green << 8) | blue`.
pub open spec fn pack_color(c: Cell) -> u32 {
    ((c.curr_r as u32) << 16) | ((c.curr_g as u32) << 8) | (c.curr_b as u32)
}

/// Produces one packed color per cell, in the grid's linear (row-major)
/// order: the value at linear offset `x * columns + y` is the packed current
/// color of the cell at `(x, y)`. Read-only: the grid is not touched.
pub fn as_vector(grid: &SmallMatrix<Cell>) -> (vector: Vec<u32>)
    requires
        grid.wf(),
    ensures
        vector@.len() == grid.cells().len(),
        forall|j: int|
            0 <= j < vector@.len() ==> #[trigger] vector@[j] == pack_color(grid.cells()[j]),
{
    let (num_rows, num_columns) = grid.get_size();
    let mut vector: Vec<u32> = Vec::with_capacity(num_rows * num_columns);
    let ghost total: int = num_rows as int * num_columns as int;
    let ghost mut k: int = 0;
    let mut x: usize = 0;
    while x < num_rows
        invariant
            grid.wf(),
            grid.spec_rows() == num_rows,
            grid.spec_columns() == num_columns,
            total == num_rows as int * num_columns as int,
            x <= num_rows,
            k == x * num_columns,
            0 <= k <= total,
            vector@.len() == k,
            forall|j: int|
                0 <= j < k ==> #[trigger] vector@[j] == pack_color(grid.cells()[j]),
        decreases num_rows - x,
    {
        let mut y: usize = 0;
        while y < num_columns
            invariant
                grid.wf(),
                grid.spec_rows() == num_rows,
                grid.spec_columns() == num_columns,
                total == num_rows as int * num_columns as int,
                x < num_rows,
                y <= num_columns,
                k == x * num_columns + y,
                0 <= k <= total,
                vector@.len() == k,
                forall|j: int|
                    0 <= j < k ==> #[trigger] vector@[j] == pack_color(grid.cells()[j]),
            decreases num_columns - y,
        {
            proof {
                crate::matrix::lemma_offset_in_range(
                    num_rows as int,
                    num_columns as int,
                    x as int,
                    y as int,
                );
            }
            let cell = *grid.get_val_at(x, y).unwrap();
            let color: u32 = ((cell.curr_r as u32) << 16) | ((cell.curr_g as u32) << 8) | (
            cell.curr_b as u32);
            vector.push(color);
            proof {
                k = k + 1;
            }
            y = y + 1;
        }
        proof {
            assert(x * num_columns + num_columns == (x + 1) * num_columns) by (nonlinear_arith);
        }
        x = x + 1;
    }
    vector
}

/// Frame extraction round-trip: for a grid whose every cell currently shows
/// the one color `(r, green, b)`, a frame holding the packed color of each
/// cell in linear order has exactly one entry per cell, and the entry at the
/// row-major offset of every coordinate is `(r << 16) | (green << 8) | b`.
pub proof fn lemma_frame_round_trip(
    g: SmallMatrix<Cell>,
    frame: Seq<u32>,
    r: u8,
    green: u8,
    b: u8,
)
    requires
        g.wf(),
        frame.len() == g.cells().len(),
        forall|k: int| 0 <= k < frame.len() ==> #[trigger] frame[k] == pack_color(g.cells()[k]),
        forall|x: int, y: int|
            g.in_bounds(x, y) ==> ((#[trigger] g.spec_index(x, y)).curr_r == r && g.spec_index(
                x,
                y,
            ).curr_g == green && g.spec_index(x, y).curr_b == b),
    ensures
        frame.len() == g.spec_rows() * g.spec_columns(),
        forall|x: int, y: int|
            g.in_bounds(x, y) ==> frame[#[trigger] g.offset(x, y)] == (((r as u32) << 16) | ((
            green as u32) << 8) | (b as u32)),
{
    assert forall|x: int, y: int| g.in_bounds(x, y) implies frame[#[trigger] g.offset(x, y)] == (((
    r as u32) << 16) | ((green as u32) << 8) | (b as u32)) by {
        crate::matrix::lemma_offset_in_range(
            g.spec_rows() as int,
            g.spec_columns() as int,
            x,
            y,
        );
        assert(g.spec_index(x, y) == g.cells()[g.offset(x, y)]);
        assert(frame[g.offset(x, y)] == pack_color(g.cells()[g.offset(x, y)]));
    }
}

} // verus!
