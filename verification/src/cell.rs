//! A single cell of the automaton and the transition rule applied to it.

use vstd::prelude::*;

verus! {

/// The state of one cell.
#[derive(Clone, Copy, Debug, PartialEq, Eq, Structural)]
pub enum Cell {
    Dead,
    Alive,
}

impl Cell {
    /// The opposite state.
    pub open spec fn toggled(self) -> Cell {
        match self {
            Cell::Dead => Cell::Alive,
            Cell::Alive => Cell::Dead,
        }
    }

    /// How much this cell adds to a live-neighbour count: 1 if alive, else 0.
    pub open spec fn weight(self) -> int {
        match self {
            Cell::Dead => 0,
            Cell::Alive => 1,
        }
    }

    /// The state of a cell in the next generation, given its state now and
    /// the number `n` of its live neighbours.
    pub open spec fn evolved(self, n: int) -> Cell {
        match self {
            Cell::Alive => if n < 2 {
                Cell::Dead
            } else if n == 2 || n == 3 {
                Cell::Alive
            } else {
                Cell::Dead
            },
            Cell::Dead => if n == 3 {
                Cell::Alive
            } else {
                Cell::Dead
            },
        }
    }

    /// The character that stands for this cell in rendered text.
    pub open spec fn glyph(self) -> char {
        match self {
            Cell::Alive => '\u{25FC}',
            Cell::Dead => '\u{25FB}',
        }
    }

    /// Flips the cell in place.
    pub fn toggle(&mut self)
        ensures
            *final(self) == old(self).toggled(),
    {
        *self = match *self {
            Cell::Dead => Cell::Alive,
            Cell::Alive => Cell::Dead,
        }
    }

    /// The cell as a number: 0 for dead, 1 for alive.
    pub fn value(self) -> (v: u8)
        ensures
            v == self.weight(),
    {
        match self {
            Cell::Dead => 0,
            Cell::Alive => 1,
        }
    }

    /// The glyph of this cell, as a string of one character.
    pub fn symbol(self) -> (symbol: &'static str)
        ensures
            symbol@ == seq![self.glyph()],
    {
        proof {
            reveal_strlit("\u{25FC}");
            reveal_strlit("\u{25FB}");
        }
        match self {
            Cell::Alive => "\u{25FC}",
            Cell::Dead => "\u{25FB}",
        }
    }

    /// Applies the transition rule for one generation.
    pub fn evolve(self, live_neighbors: u8) -> (next: Cell)
        ensures
            next == self.evolved(live_neighbors as int),
    {
        match self {
            Cell::Alive => {
                if live_neighbors < 2 {
                    Cell::Dead
                } else if live_neighbors <= 3 {
                    Cell::Alive
                } else {
                    Cell::Dead
                }
            },
            Cell::Dead => {
                if live_neighbors == 3 {
                    Cell::Alive
                } else {
                    Cell::Dead
                }
            },
        }
    }
}

/// The transition rule in one line: a cell is alive in the next generation
/// exactly when it has three live neighbours, or is alive and has two.
pub proof fn lemma_rule_table(cell: Cell, n: int)
    ensures
        cell.evolved(n) == Cell::Alive <==> (n == 3 || (cell == Cell::Alive && n == 2)),
        cell.evolved(n) == Cell::Dead <==> !(n == 3 || (cell == Cell::Alive && n == 2)),
        cell == Cell::Alive && n < 2 ==> cell.evolved(n) == Cell::Dead,
        cell == Cell::Alive && n > 3 ==> cell.evolved(n) == Cell::Dead,
        cell == Cell::Dead && n != 3 ==> cell.evolved(n) == cell,
{
}

/// Toggling twice gives the cell back.
pub proof fn lemma_toggle_involution(cell: Cell)
    ensures
        cell.toggled().toggled() == cell,
        cell.toggled() != cell,
{
}

} // verus!
