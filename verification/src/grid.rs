//! The mathematical model of the automaton: a rectangle of cells whose
//! opposite edges are joined, and the functions that say what each operation
//! of the executable grid computes.

use crate::cell::Cell;
use vstd::prelude::*;

verus! {

/// A grid as a mathematical value. Cell `(x, y)`, column `x` of row `y`,
/// is stored at position `y * width + x` of `cells`.
pub struct Grid {
    pub width: nat,
    pub height: nat,
    pub cells: Seq<Cell>,
}

/// Whether the list of `(row, column)` pairs names column `x` of row `y`.
pub open spec fn names(coords: Seq<(u32, u32)>, x: int, y: int) -> bool {
    exists|k: int| 0 <= k < coords.len() && (#[trigger] coords[k]).0 == y && coords[k].1 == x
}

impl Grid {
    /// There is exactly one stored cell for each position.
    pub open spec fn wf(self) -> bool {
        self.cells.len() == self.width * self.height
    }

    /// Whether `(x, y)` is a position of the grid.
    pub open spec fn in_bounds(self, x: int, y: int) -> bool {
        0 <= x < self.width && 0 <= y < self.height
    }

    /// Where cell `(x, y)` is stored.
    pub open spec fn index(self, x: int, y: int) -> int {
        y * self.width + x
    }

    /// The column of the cell stored at position `i`.
    pub open spec fn column_of(self, i: int) -> int {
        i % (self.width as int)
    }

    /// The row of the cell stored at position `i`.
    pub open spec fn row_of(self, i: int) -> int {
        i / (self.width as int)
    }

    /// The cell at `(x, y)`, for a position of the grid.
    pub open spec fn cell(self, x: int, y: int) -> Cell
        recommends
            self.in_bounds(x, y),
    {
        self.cells[self.index(x, y)]
    }

    /// The cell at `(x, y)` of the plane tiled with copies of the grid: any
    /// integers are accepted, and each is reduced modulo its own dimension.
    pub open spec fn wrapped(self, x: int, y: int) -> Cell
        recommends
            self.width > 0,
            self.height > 0,
    {
        self.cell(x % (self.width as int), y % (self.height as int))
    }

    /// How many of the eight cells around `(x, y)` are alive, on the tiled
    /// plane. On a grid one or two cells wide or high the same stored cell is
    /// met more than once, and counts each time.
    pub open spec fn live_neighbors(self, x: int, y: int) -> int
        recommends
            self.width > 0,
            self.height > 0,
    {
        self.wrapped(x - 1, y - 1).weight() + self.wrapped(x, y - 1).weight() + self.wrapped(
            x + 1,
            y - 1,
        ).weight() + self.wrapped(x - 1, y).weight() + self.wrapped(x + 1, y).weight()
            + self.wrapped(x - 1, y + 1).weight() + self.wrapped(x, y + 1).weight() + self.wrapped(
            x + 1,
            y + 1,
        ).weight()
    }

    /// The grid of the given size with every cell dead.
    pub open spec fn dead(width: nat, height: nat) -> Grid {
        Grid { width, height, cells: Seq::new(width * height, |i: int| Cell::Dead) }
    }

    /// The next generation: every cell evolves by the rule, from its own state
    /// and its live-neighbour count in `self`.
    pub open spec fn step(self) -> Grid {
        Grid {
            width: self.width,
            height: self.height,
            cells: Seq::new(
                self.cells.len(),
                |i: int|
                    self.cells[i].evolved(self.live_neighbors(self.column_of(i), self.row_of(i))),
            ),
        }
    }

    /// The grid with cell `(x, y)` flipped and every other cell as it was.
    pub open spec fn toggled(self, x: int, y: int) -> Grid {
        Grid {
            width: self.width,
            height: self.height,
            cells: self.cells.update(self.index(x, y), self.cell(x, y).toggled()),
        }
    }

    /// The grid with every cell that `coords` names alive, and every other
    /// cell as it was. The pairs are `(row, column)`.
    pub open spec fn seeded(self, coords: Seq<(u32, u32)>) -> Grid {
        Grid {
            width: self.width,
            height: self.height,
            cells: Seq::new(
                self.cells.len(),
                |i: int|
                    if names(coords, self.column_of(i), self.row_of(i)) {
                        Cell::Alive
                    } else {
                        self.cells[i]
                    },
            ),
        }
    }

    /// Whether every pair of `coords`, read as `(row, column)`, is a position
    /// of the grid.
    pub open spec fn holds(self, coords: Seq<(u32, u32)>) -> bool {
        forall|k: int|
            0 <= k < coords.len() ==> self.in_bounds(
                (#[trigger] coords[k]).1 as int,
                coords[k].0 as int,
            )
    }

    /// Whether `coords[k]` is the first pair that is not a position of the
    /// grid.
    pub open spec fn first_outside(self, coords: Seq<(u32, u32)>, k: int) -> bool {
        &&& 0 <= k < coords.len()
        &&& !self.in_bounds(coords[k].1 as int, coords[k].0 as int)
        &&& self.holds(coords.take(k))
    }

    /// The grid of the same size whose stored cell `i` is alive exactly when
    /// `draws[i]` is true.
    pub open spec fn filled(self, draws: Seq<bool>) -> Grid {
        Grid {
            width: self.width,
            height: self.height,
            cells: Seq::new(
                self.cells.len(),
                |i: int|
                    if draws[i] {
                        Cell::Alive
                    } else {
                        Cell::Dead
                    },
            ),
        }
    }

    /// Row `y` as text: one glyph per cell, by increasing column.
    pub open spec fn row_text(self, y: int) -> Seq<char> {
        Seq::new(self.width, |x: int| self.cell(x, y).glyph())
    }

    /// The first `n` rows as text, each followed by a line break.
    pub open spec fn text_of_rows(self, n: nat) -> Seq<char>
        decreases n,
    {
        if n == 0 {
            Seq::empty()
        } else {
            self.text_of_rows((n - 1) as nat) + self.row_text(n - 1).push('\n')
        }
    }

    /// The whole grid as text.
    pub open spec fn text(self) -> Seq<char> {
        self.text_of_rows(self.height)
    }
}

/// Every position of the grid has a stored cell of its own: the index is in
/// range, and row and column are recovered from it.
pub proof fn lemma_index(g: Grid, x: int, y: int)
    requires
        g.wf(),
        g.in_bounds(x, y),
    ensures
        0 <= g.index(x, y) < g.cells.len(),
        g.column_of(g.index(x, y)) == x,
        g.row_of(g.index(x, y)) == y,
{
    let w = g.width as int;
    let h = g.height as int;
    assert(0 <= y * w && y * w + x < w * h) by (nonlinear_arith)
        requires
            0 <= x < w,
            0 <= y < h,
    ;
    vstd::arithmetic::div_mod::lemma_fundamental_div_mod_converse(g.index(x, y), w, y, x);
}

/// Every stored cell belongs to exactly one position of the grid.
pub proof fn lemma_position(g: Grid, i: int)
    requires
        g.wf(),
        0 <= i < g.cells.len(),
    ensures
        g.in_bounds(g.column_of(i), g.row_of(i)),
        g.index(g.column_of(i), g.row_of(i)) == i,
{
    let w = g.width as int;
    let h = g.height as int;
    assert(w > 0) by (nonlinear_arith)
        requires
            0 <= i < w * h,
            0 <= w,
    ;
    vstd::arithmetic::div_mod::lemma_fundamental_div_mod(i, w);
    vstd::arithmetic::div_mod::lemma_mod_pos_bound(i, w);
    vstd::arithmetic::div_mod::lemma_div_pos_is_pos(i, w);
    let q = i / w;
    let r = i % w;
    assert(q < h) by (nonlinear_arith)
        requires
            q * w + r < w * h,
            0 <= r,
            0 < w,
    ;
}

/// The grid has no edges. Inside the grid the tiled plane is the grid
/// itself; one step left of column 0 is the last column, one step above row 0
/// is the last row, and likewise on the far side.
pub proof fn lemma_wraparound(g: Grid, x: int, y: int)
    requires
        g.wf(),
        g.in_bounds(x, y),
    ensures
        g.wrapped(x, y) == g.cell(x, y),
        g.wrapped(-1, y) == g.cell(g.width - 1, y),
        g.wrapped(x, -1) == g.cell(x, g.height - 1),
        g.wrapped(g.width as int, y) == g.cell(0, y),
        g.wrapped(x, g.height as int) == g.cell(x, 0),
        g.wrapped(-1, -1) == g.cell(g.width - 1, g.height - 1),
{
    let w = g.width as int;
    let h = g.height as int;
    lemma_reduce(x, w, 0);
    lemma_reduce(y, h, 0);
    lemma_reduce(w - 1, w, -1);
    lemma_reduce(h - 1, h, -1);
    lemma_reduce(0, w, 1);
    lemma_reduce(0, h, 1);
}

/// The tiled plane repeats with the grid's width and height.
pub proof fn lemma_wrapped_is_periodic(g: Grid, x: int, y: int, i: int, j: int)
    requires
        g.width > 0,
        g.height > 0,
    ensures
        g.wrapped(x + i * g.width, y + j * g.height) == g.wrapped(x, y),
        g.live_neighbors(x + i * g.width, y + j * g.height) == g.live_neighbors(x, y),
{
    let w = g.width as int;
    let h = g.height as int;
    lemma_shift(x - 1, w, i);
    lemma_shift(x, w, i);
    lemma_shift(x + 1, w, i);
    lemma_shift(y - 1, h, j);
    lemma_shift(y, h, j);
    lemma_shift(y + 1, h, j);
}

/// A number `r` in `0..m`, moved by `k` times `m`, reduces to `r` again.
pub proof fn lemma_reduce(r: int, m: int, k: int)
    requires
        0 <= r < m,
    ensures
        (r + k * m) % m == r,
{
    vstd::arithmetic::div_mod::lemma_fundamental_div_mod_converse(r + k * m, m, k, r);
}

/// Moving a number by a multiple of `m` does not change it modulo `m`.
pub proof fn lemma_shift(a: int, m: int, k: int)
    requires
        m > 0,
    ensures
        (a + k * m) % m == a % m,
        0 <= a % m < m,
{
    vstd::arithmetic::div_mod::lemma_mod_bound(a, m);
    vstd::arithmetic::div_mod::lemma_fundamental_div_mod(a, m);
    let q = a / m;
    assert(a + k * m == (q + k) * m + a % m) by (nonlinear_arith)
        requires
            a == m * q + a % m,
    ;
    vstd::arithmetic::div_mod::lemma_fundamental_div_mod_converse(a + k * m, m, q + k, a % m);
}

/// A generation is computed all at once: each cell of the next generation is
/// the rule applied to that cell and its neighbours as they were before the
/// step, and the grid keeps its size.
pub proof fn lemma_step_is_synchronous(g: Grid, x: int, y: int)
    requires
        g.wf(),
        g.in_bounds(x, y),
    ensures
        g.step().wf(),
        g.step().width == g.width,
        g.step().height == g.height,
        g.step().cell(x, y) == g.cell(x, y).evolved(g.live_neighbors(x, y)),
{
    lemma_index(g, x, y);
}

/// A grid with no cells is its own next generation.
pub proof fn lemma_step_of_empty(g: Grid)
    requires
        g.wf(),
        g.width == 0 || g.height == 0,
    ensures
        g.step() == g,
{
    assert(g.width * g.height == 0) by (nonlinear_arith)
        requires
            g.width == 0 || g.height == 0,
    ;
    assert(g.step().cells =~= g.cells);
}

/// Toggling changes the one cell and no other.
pub proof fn lemma_toggled_cell(g: Grid, x: int, y: int, u: int, v: int)
    requires
        g.wf(),
        g.in_bounds(x, y),
        g.in_bounds(u, v),
    ensures
        g.toggled(x, y).wf(),
        g.toggled(x, y).cell(u, v) == if u == x && v == y {
            g.cell(x, y).toggled()
        } else {
            g.cell(u, v)
        },
{
    lemma_index(g, x, y);
    lemma_index(g, u, v);
}

/// Seeding makes the named cells alive and keeps every other cell.
pub proof fn lemma_seeded_cell(g: Grid, coords: Seq<(u32, u32)>, x: int, y: int)
    requires
        g.wf(),
        g.in_bounds(x, y),
    ensures
        g.seeded(coords).wf(),
        g.seeded(coords).cell(x, y) == if names(coords, x, y) {
            Cell::Alive
        } else {
            g.cell(x, y)
        },
{
    lemma_index(g, x, y);
}

/// Seeding with no pairs changes nothing.
pub proof fn lemma_seeded_none(g: Grid)
    ensures
        g.seeded(Seq::empty()) == g,
{
    assert(g.seeded(Seq::empty()).cells =~= g.cells);
}

/// Seeding pair by pair: with one more pair taken from `coords`, the cell
/// that the pair names is alive and the rest is as with the pairs before it.
pub proof fn lemma_seeded_next(g: Grid, coords: Seq<(u32, u32)>, k: int)
    requires
        g.wf(),
        0 <= k < coords.len(),
        g.in_bounds(coords[k].1 as int, coords[k].0 as int),
    ensures
        g.seeded(coords.take(k + 1)).cells == g.seeded(coords.take(k)).cells.update(
            g.index(coords[k].1 as int, coords[k].0 as int),
            Cell::Alive,
        ),
{
    let x = coords[k].1 as int;
    let y = coords[k].0 as int;
    let fewer = coords.take(k);
    let more = coords.take(k + 1);
    let target = g.index(x, y);
    lemma_index(g, x, y);
    assert forall|i: int| 0 <= i < g.cells.len() implies g.seeded(more).cells[i] == g.seeded(
        fewer,
    ).cells.update(target, Cell::Alive)[i] by {
        let c = g.column_of(i);
        let r = g.row_of(i);
        lemma_position(g, i);
        if i == target {
            assert(more[k].0 == r && more[k].1 == c);
        }
    }
}

/// Filling sets every cell from its own draw and keeps the size.
pub proof fn lemma_filled_cell(g: Grid, draws: Seq<bool>, x: int, y: int)
    requires
        g.wf(),
        g.in_bounds(x, y),
    ensures
        g.filled(draws).wf(),
        g.filled(draws).cell(x, y) == if draws[g.index(x, y)] {
            Cell::Alive
        } else {
            Cell::Dead
        },
{
    lemma_index(g, x, y);
}

/// In a dead grid every cell is dead, and there is one for each position.
pub proof fn lemma_dead_grid(width: nat, height: nat)
    ensures
        Grid::dead(width, height).wf(),
        Grid::dead(width, height).cells.len() == width * height,
        forall|i: int|
            0 <= i < width * height ==> (#[trigger] Grid::dead(width, height).cells[i])
                == Cell::Dead,
{
}

/// The text depends on the size and the cells and on nothing else: grids of
/// one size that agree on every cell have the same text.
pub proof fn lemma_text_is_determined(a: Grid, b: Grid)
    requires
        a.width == b.width,
        a.height == b.height,
        a.cells.len() == b.cells.len(),
        forall|i: int| 0 <= i < a.cells.len() ==> a.cells[i] == b.cells[i],
    ensures
        a.text() == b.text(),
{
    assert(a.cells =~= b.cells);
}

/// The shape of the rendered text: `height` lines of `width` glyphs, each
/// line closed by a line break, rows and columns in increasing order.
pub proof fn lemma_text_shape(g: Grid, x: int, y: int)
    requires
        g.in_bounds(x, y),
    ensures
        g.text().len() == g.height * (g.width + 1),
        0 <= y * (g.width + 1) + x < y * (g.width + 1) + g.width < g.text().len(),
        g.text()[y * (g.width + 1) + x] == g.cell(x, y).glyph(),
        g.text()[y * (g.width + 1) + g.width] == '\n',
{
    lemma_rows_shape(g, g.height, x, y);
}

/// The length of the rendered text, also for a grid without cells.
pub proof fn lemma_text_len(g: Grid)
    ensures
        g.text().len() == g.height * (g.width + 1),
{
    lemma_rows_len(g, g.height);
}

/// The length of the text of the first `n` rows.
pub proof fn lemma_rows_len(g: Grid, n: nat)
    ensures
        g.text_of_rows(n).len() == n * (g.width + 1),
    decreases n,
{
    if n > 0 {
        lemma_rows_len(g, (n - 1) as nat);
        assert((n - 1) * (g.width + 1) + (g.width + 1) == n * (g.width + 1))
            by (nonlinear_arith);
    } else {
        assert(0 * (g.width + 1) == 0) by (nonlinear_arith);
    }
}

/// Where the glyph of cell `(x, y)` and the line break of row `y` stand in
/// the text of the first `n` rows, for `y < n`.
pub proof fn lemma_rows_shape(g: Grid, n: nat, x: int, y: int)
    requires
        0 <= x < g.width,
        0 <= y < n,
    ensures
        g.text_of_rows(n).len() == n * (g.width + 1),
        0 <= y * (g.width + 1) + x < y * (g.width + 1) + g.width < g.text_of_rows(n).len(),
        g.text_of_rows(n)[y * (g.width + 1) + x] == g.cell(x, y).glyph(),
        g.text_of_rows(n)[y * (g.width + 1) + g.width] == '\n',
    decreases n,
{
    let line = g.width + 1;
    lemma_rows_len(g, n);
    lemma_rows_len(g, (n - 1) as nat);
    assert(0 <= y * line && (y + 1) * line <= n * line && (y + 1) * line == y * line + line)
        by (nonlinear_arith)
        requires
            0 <= y < n,
            line > 0,
    ;
    if y < n - 1 {
        lemma_rows_shape(g, (n - 1) as nat, x, y);
    }
}

} // verus!
