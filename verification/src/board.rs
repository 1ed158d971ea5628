//! The board: the square grid of cells on which the placed equations are
//! written out for display.

use crate::grid_equation::views;
use crate::grid_equation::GridEquation;
use crate::grid_equation::GridEquationView;
use crate::symbol::Direction;
use crate::symbol::Symbol;
use vstd::prelude::*;

verus! {

/// The place of a cell on the board.
#[derive(Debug, Clone, Copy, PartialEq, Eq, Hash)]
pub struct Coordinates {
    pub x: i32,
    pub y: i32,
}

impl Coordinates {
    /// The cell in column `x` and row `y`.
    pub fn new(x: i32, y: i32) -> (c: Coordinates)
        ensures
            c.x == x,
            c.y == y,
    {
        Coordinates { x, y }
    }
}

/// The side of a cell and the gap between two cells, in pixels.
#[derive(Debug, Clone, Copy)]
pub struct CellSize {
    pub size: u32,
    pub padding: u32,
}

impl GridEquationView {
    /// Whether every covered cell lies on a square board of side `side`.
    pub open spec fn on_board(self, side: nat) -> bool {
        match self.direction {
            Direction::Horizontal => self.start_pos.0 + self.len() <= side && self.start_pos.1
                < side,
            Direction::Vertical => self.start_pos.1 + self.len() <= side && self.start_pos.0
                < side,
        }
    }
}

/// What the board shows in column `x` and row `y` once `equations` are
/// written out in order: the symbol of the last equation that covers the
/// cell, separator included, and `Empty` where none does.
pub open spec fn board_symbol(equations: Seq<GridEquationView>, x: usize, y: usize) -> Symbol
    decreases equations.len(),
{
    if equations.len() == 0 {
        Symbol::Empty
    } else {
        match equations.last().offset_of((x, y)) {
            Some(offset) => equations.last().eq.symbols()[offset],
            None => board_symbol(equations.drop_last(), x, y),
        }
    }
}

/// Whether `grid` is the board of side `side` for `equations`: `side`
/// columns of `side` cells each, `grid[x][y]` holding what the board shows
/// in column `x` and row `y`.
pub open spec fn is_board(
    grid: Seq<Vec<Symbol>>,
    equations: Seq<GridEquationView>,
    side: nat,
) -> bool {
    &&& grid.len() == side
    &&& forall|x: int| 0 <= x < side ==> (#[trigger] grid[x])@.len() == side
    &&& forall|x: int, y: int|
        0 <= x < side && 0 <= y < side ==> #[trigger] grid[x]@[y] == board_symbol(
            equations,
            x as usize,
            y as usize,
        )
}

/// Whether every equation lies on a square board of side `grid_size`.
pub fn fits_board(equations: &Vec<GridEquation>, grid_size: usize) -> (fits: bool)
    ensures
        fits <==> forall|i: int|
            0 <= i < equations@.len() ==> (#[trigger] equations@[i])@.on_board(grid_size as nat),
{
    let mut i: usize = 0;
    while i < equations.len()
        invariant
            i <= equations@.len(),
            forall|j: int| 0 <= j < i ==> (#[trigger] equations@[j])@.on_board(grid_size as nat),
        decreases equations@.len() - i,
    {
        let eq = &equations[i];
        let len = eq.len();
        let (along, across) = match eq.direction {
            Direction::Horizontal => (eq.start_pos.0, eq.start_pos.1),
            Direction::Vertical => (eq.start_pos.1, eq.start_pos.0),
        };
        if !(len <= grid_size && along <= grid_size - len && across < grid_size) {
            assert(!equations@[i as int]@.on_board(grid_size as nat));
            return false;
        }
        i += 1;
    }
    true
}

/// An empty board: `grid_size` columns of `grid_size` empty cells.
fn empty_grid(grid_size: usize) -> (grid: Vec<Vec<Symbol>>)
    ensures
        is_board(grid@, Seq::empty(), grid_size as nat),
{
    let mut grid: Vec<Vec<Symbol>> = Vec::new();
    let mut x: usize = 0;
    while x < grid_size
        invariant
            x <= grid_size,
            grid@.len() == x,
            forall|c: int| 0 <= c < x ==> (#[trigger] grid@[c])@.len() == grid_size,
            forall|c: int, r: int|
                0 <= c < x && 0 <= r < grid_size ==> #[trigger] grid@[c]@[r] == Symbol::Empty,
        decreases grid_size - x,
    {
        let mut column: Vec<Symbol> = Vec::new();
        let mut y: usize = 0;
        while y < grid_size
            invariant
                y <= grid_size,
                column@.len() == y,
                forall|r: int| 0 <= r < y ==> #[trigger] column@[r] == Symbol::Empty,
            decreases grid_size - y,
        {
            column.push(Symbol::Empty);
            y += 1;
        }
        grid.push(column);
        x += 1;
    }
    grid
}

/// Writes the equations out on a square board of side `grid_size`, in
/// order, so that a later equation overwrites an earlier one where they
/// share a cell. `grid[x][y]` is the cell in column `x` and row `y`.
pub fn fill_grid(equations: &Vec<GridEquation>, grid_size: usize) -> (grid: Vec<Vec<Symbol>>)
    requires
        forall|i: int|
            0 <= i < equations@.len() ==> (#[trigger] equations@[i])@.on_board(grid_size as nat),
    ensures
        is_board(grid@, views(equations@), grid_size as nat),
{
    let mut grid = empty_grid(grid_size);
    let ghost all = views(equations@);
    let mut k: usize = 0;
    assert(all.take(0) =~= Seq::empty());
    while k < equations.len()
        invariant
            k <= equations@.len(),
            all == views(equations@),
            forall|i: int|
                0 <= i < equations@.len() ==> (#[trigger] equations@[i])@.on_board(
                    grid_size as nat,
                ),
            is_board(grid@, all.take(k as int), grid_size as nat),
        decreases equations@.len() - k,
    {
        let eq = &equations[k];
        let symbols = eq.symbols();
        let pos = eq.start_pos;
        let dir = eq.direction;
        let ghost g = eq@;
        let ghost done = all.take(k as int);
        assert(g == all[k as int]);
        assert(g.on_board(grid_size as nat));
        assert(symbols@.len() == g.len());
        let mut i: usize = 0;
        while i < symbols.len()
            invariant
                i <= symbols@.len(),
                symbols@ == g.eq.symbols(),
                symbols@.len() == g.len(),
                g.start_pos == pos,
                g.direction == dir,
                g.on_board(grid_size as nat),
                grid@.len() == grid_size,
                forall|x: int| 0 <= x < grid_size ==> (#[trigger] grid@[x])@.len() == grid_size,
                forall|x: int, y: int|
                    0 <= x < grid_size && 0 <= y < grid_size ==> #[trigger] grid@[x]@[y] == (
                    match g.offset_of((x as usize, y as usize)) {
                        Some(offset) if offset < i => symbols@[offset],
                        _ => board_symbol(done, x as usize, y as usize),
                    }),
            decreases symbols@.len() - i,
        {
            let (x, y) = match dir {
                Direction::Horizontal => (pos.0 + i, pos.1),
                Direction::Vertical => (pos.0, pos.1 + i),
            };
            assert(g.offset_of((x, y)) == Some(i as int));
            grid[x][y] = symbols[i];
            i += 1;
        }
        proof {
            let next = all.take(k + 1);
            assert(next.last() == g);
            assert(next.drop_last() =~= done);
        }
        k += 1;
    }
    assert(all.take(k as int) =~= all);
    grid
}

} // verus!
