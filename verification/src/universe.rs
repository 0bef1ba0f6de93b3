//! The executable grid. Its state is private; what a caller can know of it is
//! its view, a [`Grid`], and every operation says what it does to that view.

use crate::cell::Cell;
use crate::grid::{
    lemma_index, lemma_reduce, lemma_seeded_next, lemma_seeded_none, lemma_shift,
    lemma_step_of_empty, Grid,
};
use vstd::prelude::*;

verus! {

/// A rectangular, toroidally connected grid of cells.
pub struct Universe {
    width: u32,
    height: u32,
    cells: Vec<Cell>,
}

impl View for Universe {
    type V = Grid;

    closed spec fn view(&self) -> Grid {
        Grid { width: self.width as nat, height: self.height as nat, cells: self.cells@ }
    }
}

/// The error of an operation that was given a coordinate outside the grid:
/// the column `x` and row `y` that it was given.
#[derive(Clone, Copy, Debug, PartialEq, Eq, Structural)]
pub struct OutOfBounds {
    pub x: u32,
    pub y: u32,
}

/// A vector of `width * height` dead cells.
fn dead_cells(width: u32, height: u32) -> (cells: Vec<Cell>)
    requires
        width * height <= u32::MAX,
    ensures
        cells@ == Grid::dead(width as nat, height as nat).cells,
{
    let count: u32 = width * height;
    let mut cells: Vec<Cell> = Vec::new();
    let mut i: u32 = 0;
    while i < count
        invariant
            i <= count,
            cells@.len() == i,
            forall|k: int| 0 <= k < i ==> cells@[k] == Cell::Dead,
        decreases count - i,
    {
        cells.push(Cell::Dead);
        i += 1;
    }
    cells
}

/// The coordinate `offset` steps after `position` on a ring of `size`
/// places.
fn shifted(position: u32, offset: u32, size: u32) -> (place: u32)
    requires
        position < size,
    ensures
        place == (position + offset) % (size as int),
        place < size,
{
    let sum: u64 = position as u64 + offset as u64;
    let place: u64 = sum % (size as u64);
    place as u32
}

impl Universe {
    /// What holds of every grid at all times: there is one stored cell for
    /// each position, and their number fits in 32 bits.
    #[verifier::type_invariant]
    spec fn inv(self) -> bool {
        self@.wf() && self.width * self.height <= u32::MAX
    }

    /// A grid of the given size with every cell dead. A dimension may be
    /// zero; the grid then has no cells.
    pub fn new(width: u32, height: u32) -> (universe: Universe)
        requires
            width * height <= u32::MAX,
        ensures
            universe@ == Grid::dead(width as nat, height as nat),
            universe@.wf(),
    {
        let cells = dead_cells(width, height);
        Universe { width, height, cells }
    }

    /// The number of columns.
    pub fn width(&self) -> (width: u32)
        ensures
            width == self@.width,
    {
        self.width
    }

    /// The number of rows.
    pub fn height(&self) -> (height: u32)
        ensures
            height == self@.height,
    {
        self.height
    }

    /// Sets the number of columns. The content is not kept: the grid has its
    /// new size and every cell is dead.
    pub fn set_width(&mut self, w: u32)
        requires
            w * old(self)@.height <= u32::MAX,
        ensures
            final(self)@ == Grid::dead(w as nat, old(self)@.height),
            final(self)@.wf(),
            final(self)@.cells.len() == w * old(self)@.height,
            forall|i: int|
                0 <= i < final(self)@.cells.len() ==> #[trigger] final(self)@.cells[i]
                    == Cell::Dead,
    {
        let height = self.height;
        let cells = dead_cells(w, height);
        *self = Universe { width: w, height, cells };
    }

    /// Sets the number of rows. The content is not kept: the grid has its new
    /// size and every cell is dead.
    pub fn set_height(&mut self, h: u32)
        requires
            old(self)@.width * h <= u32::MAX,
        ensures
            final(self)@ == Grid::dead(old(self)@.width, h as nat),
            final(self)@.wf(),
            final(self)@.cells.len() == old(self)@.width * h,
            forall|i: int|
                0 <= i < final(self)@.cells.len() ==> #[trigger] final(self)@.cells[i]
                    == Cell::Dead,
    {
        let width = self.width;
        let cells = dead_cells(width, h);
        *self = Universe { width, height: h, cells };
    }

    /// Makes every cell dead and keeps the size.
    pub fn clear(&mut self)
        ensures
            final(self)@ == Grid::dead(old(self)@.width, old(self)@.height),
            final(self)@.wf(),
    {
        proof {
            use_type_invariant(&*self);
        }
        let width = self.width;
        let height = self.height;
        let cells = dead_cells(width, height);
        *self = Universe { width, height, cells };
    }

    /// All cells, row by row: cell `(x, y)` is at position `y * width + x`.
    /// The slice is borrowed from the grid, so it is valid until the grid is
    /// next changed.
    pub fn get_cells(&self) -> (cells: &[Cell])
        ensures
            cells@ == self@.cells,
            self@.wf(),
    {
        proof {
            use_type_invariant(self);
        }
        self.cells.as_slice()
    }

    /// Where cell `(x, y)` is stored.
    fn get_index(&self, x: u32, y: u32) -> (index: usize)
        requires
            self@.in_bounds(x as int, y as int),
        ensures
            index == self@.index(x as int, y as int),
            index < self@.cells.len(),
    {
        proof {
            use_type_invariant(self);
            lemma_index(self@, x as int, y as int);
        }
        let row_start: u32 = self.width * y;
        (x + row_start) as usize
    }

    /// 1 if cell `(x, y)` is alive, else 0.
    fn weight_at(&self, x: u32, y: u32) -> (weight: u8)
        requires
            self@.in_bounds(x as int, y as int),
        ensures
            weight == self@.cell(x as int, y as int).weight(),
            weight <= 1,
    {
        let index = self.get_index(x, y);
        self.cells[index].value()
    }

    /// How many of the eight cells around `(x, y)` are alive. The grid wraps
    /// round: the neighbours of a cell on an edge are on the opposite edge.
    /// Each axis is walked with the offsets `size - 1`, `0` and `1`, reduced
    /// modulo the size of that same axis.
    pub fn live_neighbor_count(&self, x: u32, y: u32) -> (count: u8)
        requires
            self@.in_bounds(x as int, y as int),
        ensures
            count == self@.live_neighbors(x as int, y as int),
            count <= 8,
    {
        let west = shifted(x, self.width - 1, self.width);
        let east = shifted(x, 1, self.width);
        let north = shifted(y, self.height - 1, self.height);
        let south = shifted(y, 1, self.height);
        proof {
            let w = self.width as int;
            let h = self.height as int;
            lemma_shift(x - 1, w, 1);
            lemma_shift(y - 1, h, 1);
            lemma_reduce(x as int, w, 0);
            lemma_reduce(y as int, h, 0);
        }
        let above: u8 = self.weight_at(west, north) + self.weight_at(x, north) + self.weight_at(
            east,
            north,
        );
        let beside: u8 = self.weight_at(west, y) + self.weight_at(east, y);
        let below: u8 = self.weight_at(west, south) + self.weight_at(x, south) + self.weight_at(
            east,
            south,
        );
        above + beside + below
    }

    /// Replaces the grid by its next generation. Every cell is computed from
    /// the grid as it was before the call; a grid without cells is left as it
    /// is.
    pub fn next(&mut self)
        ensures
            final(self)@ == old(self)@.step(),
            final(self)@.wf(),
    {
        proof {
            use_type_invariant(&*self);
        }
        let ghost before = self@;
        if self.width == 0 || self.height == 0 {
            proof {
                lemma_step_of_empty(before);
            }
            return ;
        }
        let mut next: Vec<Cell> = Vec::new();
        let mut y: u32 = 0;
        while y < self.height
            invariant
                self@ == before,
                before.wf(),
                y <= self.height,
                next@.len() == y * before.width,
                forall|i: int| 0 <= i < next@.len() ==> next@[i] == before.step().cells[i],
            decreases self.height - y,
        {
            let mut x: u32 = 0;
            while x < self.width
                invariant
                    self@ == before,
                    before.wf(),
                    y < self.height,
                    x <= self.width,
                    next@.len() == y * before.width + x,
                    forall|i: int| 0 <= i < next@.len() ==> next@[i] == before.step().cells[i],
                decreases self.width - x,
            {
                proof {
                    lemma_index(before, x as int, y as int);
                }
                let index = self.get_index(x, y);
                let cell = self.cells[index];
                let live_neighbors = self.live_neighbor_count(x, y);
                next.push(cell.evolve(live_neighbors));
                x += 1;
            }
            assert((y + 1) * before.width == y * before.width + before.width)
                by (nonlinear_arith);
            y += 1;
        }
        assert(next@.len() == before.cells.len()) by (nonlinear_arith)
            requires
                next@.len() == before.height * before.width,
                before.cells.len() == before.width * before.height,
        ;
        assert(next@ =~= before.step().cells);
        self.cells = next;
    }

    /// Flips cell `(x, y)`, column `x` of row `y`. A coordinate outside the
    /// grid is an error, and the grid is then left as it was.
    pub fn toggle_cell(&mut self, x: u32, y: u32) -> (result: Result<(), OutOfBounds>)
        ensures
            result is Ok <==> old(self)@.in_bounds(x as int, y as int),
            result is Ok ==> final(self)@ == old(self)@.toggled(x as int, y as int),
            result is Err ==> final(self)@ == old(self)@,
            result is Err ==> result == Err::<(), OutOfBounds>(OutOfBounds { x, y }),
            final(self)@.wf(),
    {
        proof {
            use_type_invariant(&*self);
        }
        if x >= self.width || y >= self.height {
            return Err(OutOfBounds { x, y });
        }
        let index = self.get_index(x, y);
        let mut cell = self.cells[index];
        cell.toggle();
        self.cells[index] = cell;
        Ok(())
    }

    /// Makes alive every cell that `cells` names, by `(row, column)` pairs;
    /// the other cells keep their state. If any pair is outside the grid the
    /// call fails with the first such pair, and the grid is left as it was.
    pub fn set_cells(&mut self, cells: &[(u32, u32)]) -> (result: Result<(), OutOfBounds>)
        ensures
            result is Ok <==> old(self)@.holds(cells@),
            result is Ok ==> final(self)@ == old(self)@.seeded(cells@),
            result is Err ==> final(self)@ == old(self)@,
            result matches Err(e) ==> exists|k: int|
                #![trigger cells@[k]]
                old(self)@.first_outside(cells@, k) && e.x == cells@[k].1 && e.y == cells@[k].0,
            final(self)@.wf(),
    {
        proof {
            use_type_invariant(&*self);
        }
        let ghost before = self@;
        let mut k: usize = 0;
        while k < cells.len()
            invariant
                self@ == before,
                before.wf(),
                k <= cells@.len(),
                before.holds(cells@.take(k as int)),
            decreases cells@.len() - k,
        {
            let (row, column) = cells[k];
            if column >= self.width || row >= self.height {
                return Err(OutOfBounds { x: column, y: row });
            }
            assert(before.holds(cells@.take(k + 1)));
            k += 1;
        }
        assert(cells@.take(k as int) =~= cells@);
        proof {
            lemma_seeded_none(before);
            assert(cells@.take(0) =~= Seq::<(u32, u32)>::empty());
        }
        let mut k: usize = 0;
        while k < cells.len()
            invariant
                before.wf(),
                before.holds(cells@),
                k <= cells@.len(),
                self@ == before.seeded(cells@.take(k as int)),
            decreases cells@.len() - k,
        {
            let (row, column) = cells[k];
            proof {
                use_type_invariant(&*self);
                lemma_seeded_next(before, cells@, k as int);
            }
            let index = self.get_index(column, row);
            self.cells[index] = Cell::Alive;
            k += 1;
        }
        Ok(())
    }

    /// Sets every cell from a sequence of draws, one for each stored cell in
    /// storage order: the cell is alive where the draw is `true`. The size is
    /// kept.
    pub fn scramble(&mut self, draws: &[bool])
        requires
            draws@.len() == old(self)@.cells.len(),
        ensures
            final(self)@ == old(self)@.filled(draws@),
            final(self)@.wf(),
    {
        proof {
            use_type_invariant(&*self);
        }
        let ghost before = self@;
        let mut cells: Vec<Cell> = Vec::new();
        let mut i: usize = 0;
        while i < draws.len()
            invariant
                i <= draws@.len(),
                draws@.len() == before.cells.len(),
                cells@.len() == i,
                forall|k: int| 0 <= k < i ==> cells@[k] == before.filled(draws@).cells[k],
            decreases draws@.len() - i,
        {
            let cell = if draws[i] {
                Cell::Alive
            } else {
                Cell::Dead
            };
            cells.push(cell);
            i += 1;
        }
        assert(cells@ =~= before.filled(draws@).cells);
        self.cells = cells;
    }

    /// The grid as text: one line for each row, by increasing row; in a line
    /// one glyph for each cell, by increasing column, then a line break.
    pub fn render(&self) -> (text: String)
        ensures
            text@ == self@.text(),
    {
        proof {
            use_type_invariant(self);
        }
        let mut text = String::new();
        let mut y: u32 = 0;
        while y < self.height
            invariant
                self@.wf(),
                y <= self.height,
                text@ == self@.text_of_rows(y as nat),
            decreases self.height - y,
        {
            let ghost above = text@;
            let mut x: u32 = 0;
            while x < self.width
                invariant
                    self@.wf(),
                    y < self.height,
                    x <= self.width,
                    text@ == above + self@.row_text(y as int).take(x as int),
                decreases self.width - x,
            {
                let index = self.get_index(x, y);
                let cell = self.cells[index];
                text.append(cell.symbol());
                assert(self@.row_text(y as int).take(x + 1) =~= self@.row_text(y as int).take(
                    x as int,
                ).push(cell.glyph()));
                x += 1;
            }
            proof {
                reveal_strlit("\n");
            }
            text.append("\n");
            y += 1;
        }
        text
    }
}

} // verus!
