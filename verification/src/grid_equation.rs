//! Equations placed on the grid: an equation, the cell where it starts and
//! the axis along which its cells follow one another.

use crate::equation::count_numbers;
use crate::equation::lemma_nth_number_index;
use crate::equation::nth_number_index;
use crate::equation::shifted;
use crate::equation::Equation;
use crate::equation::EquationView;
use crate::random::random_u32;
use crate::symbol::Direction;
use crate::symbol::Symbol;
use vstd::prelude::*;

verus! {

/// The mathematical content of a [`GridEquation`].
pub struct GridEquationView {
    pub eq: EquationView,
    pub start_pos: (usize, usize),
    pub direction: Direction,
}

impl GridEquationView {
    /// Number of grid cells the equation covers.
    pub open spec fn len(self) -> nat {
        self.eq.len()
    }

    /// Whether the coordinates of all covered cells, and of the cell behind
    /// the last one, fit in `usize`.
    pub open spec fn span_fits(self) -> bool {
        match self.direction {
            Direction::Horizontal => self.start_pos.0 + self.len() <= usize::MAX,
            Direction::Vertical => self.start_pos.1 + self.len() <= usize::MAX,
        }
    }

    /// The grid coordinate `offset` cells from the start along the axis.
    pub open spec fn cell(self, offset: int) -> (int, int) {
        match self.direction {
            Direction::Horizontal => (self.start_pos.0 + offset, self.start_pos.1 as int),
            Direction::Vertical => (self.start_pos.0 as int, self.start_pos.1 + offset),
        }
    }

    /// How far `position` lies from the start along the axis, if it is one of
    /// the covered cells.
    pub open spec fn offset_of(self, position: (usize, usize)) -> Option<int> {
        let along = match self.direction {
            Direction::Horizontal => position.0 - self.start_pos.0,
            Direction::Vertical => position.1 - self.start_pos.1,
        };
        let across = match self.direction {
            Direction::Horizontal => position.1 - self.start_pos.1,
            Direction::Vertical => position.0 - self.start_pos.0,
        };
        if across == 0 && 0 <= along < self.len() {
            Some(along)
        } else {
            None
        }
    }

    /// The symbol that can be read at `position`: the cell of `lhs ++ rhs` at
    /// the offset of `position`, if `position` is covered and that cell
    /// exists.
    pub open spec fn get_symbol(self, position: (usize, usize)) -> Option<Symbol> {
        match self.offset_of(position) {
            Some(offset) => self.eq.nth(offset),
            None => None,
        }
    }

    /// The number to carry into an equation that starts at `position`: the
    /// value of the `Number` that can be read there, if there is one.
    pub open spec fn carried_value(self, position: (usize, usize)) -> Option<i32> {
        match self.get_symbol(position) {
            Some(Symbol::Number(v)) => Some(v),
            _ => None,
        }
    }

    /// The coordinate of the last covered cell.
    pub open spec fn end_pos(self) -> (int, int) {
        self.cell(self.len() - 1)
    }

    /// The coordinate of the `n`-th number of the left-hand side, together
    /// with its index in the left-hand side.
    pub open spec fn pos_of_nth_number_with_idx(self, n: nat) -> Option<(int, int, int)> {
        match nth_number_index(self.eq.lhs, n) {
            Some(idx) => Some((self.cell(idx).0, self.cell(idx).1, idx)),
            None => None,
        }
    }

    /// The coordinate of the `n`-th number of the left-hand side.
    pub open spec fn pos_of_nth_number(self, n: nat) -> Option<(int, int)> {
        match nth_number_index(self.eq.lhs, n) {
            Some(idx) => Some(self.cell(idx)),
            None => None,
        }
    }

    /// Whether `point` lies on the axis of the equation between its start and
    /// the cell `len` places behind it, both included.
    pub open spec fn contains_point(self, point: (usize, usize)) -> bool {
        match self.direction {
            Direction::Horizontal => point.1 == self.start_pos.1 && self.start_pos.0 <= point.0
                <= self.start_pos.0 + self.len(),
            Direction::Vertical => point.0 == self.start_pos.0 && self.start_pos.1 <= point.1
                <= self.start_pos.1 + self.len(),
        }
    }

    /// The same placement with the left-hand cell at `idx` replaced.
    pub open spec fn with_lhs(self, idx: int, symbol: Symbol) -> GridEquationView {
        GridEquationView {
            eq: self.eq.with_lhs(idx, symbol),
            start_pos: self.start_pos,
            direction: self.direction,
        }
    }

    /// The greatest occurrence number that a random pick of a number may
    /// ask for.
    pub open spec fn max_occurrence(self) -> nat {
        self.eq.lhs.len() / 2 + 1
    }

    /// Whether a random pick of a number can be made and always finds one:
    /// the occurrence numbers fit the width of the draw, and the left-hand
    /// side holds as many numbers as may be asked for.
    pub open spec fn can_pick_number(self) -> bool {
        &&& self.span_fits()
        &&& self.max_occurrence() <= u32::MAX
        &&& count_numbers(self.eq.lhs) >= self.max_occurrence()
    }

    /// Whether `idx` is the place of a number of the left-hand side that a
    /// random pick may hit: one of the first `max_occurrence()` numbers.
    pub open spec fn is_pickable(self, idx: int) -> bool {
        &&& 0 <= idx < self.eq.lhs.len()
        &&& self.eq.lhs[idx] is Number
        &&& count_numbers(self.eq.lhs.take(idx + 1)) <= self.max_occurrence()
    }
}

/// The occurrence number that the raw draw `raw` selects among
/// `max_occurrence` of them: from 1 to `max_occurrence`.
pub open spec fn occurrence_for(raw: u32, max_occurrence: u32) -> nat {
    (raw % max_occurrence + 1) as nat
}

/// Reading along the span. The cell `i` places from the start shows the
/// `i`-th cell of `lhs ++ rhs`: on the left-hand side that is the `i`-th of
/// all symbols, behind it the symbol after the `i`-th, since the separator
/// is skipped, and on the last cell of the span nothing.
pub proof fn lemma_reading_along_span(g: GridEquationView, i: int, position: (usize, usize))
    requires
        0 <= i < g.len(),
        (position.0 as int, position.1 as int) == g.cell(i),
    ensures
        g.offset_of(position) == Some(i),
        g.get_symbol(position) == g.eq.nth(i),
        i < g.eq.lhs.len() ==> g.get_symbol(position) == Some(g.eq.symbols()[i]),
        g.eq.lhs.len() <= i < g.len() - 1 ==> g.get_symbol(position) == Some(
            g.eq.symbols()[i + 1],
        ),
        i == g.len() - 1 ==> g.get_symbol(position) is None,
        g.get_symbol(position) == Some(g.eq.symbols()[i]) <==> i < g.eq.lhs.len() || (i < g.len()
            - 1 && g.eq.symbols()[i + 1] == g.eq.symbols()[i]),
{
}

/// Reading beside the span. A coordinate that is not on the row of a
/// horizontal equation, or not on the column of a vertical one, shows
/// nothing.
pub proof fn lemma_reading_off_axis(g: GridEquationView, position: (usize, usize))
    requires
        match g.direction {
            Direction::Horizontal => position.1 != g.start_pos.1,
            Direction::Vertical => position.0 != g.start_pos.0,
        },
    ensures
        g.get_symbol(position) is None,
{
}

/// An equation on the grid.
#[derive(Debug, PartialEq)]
pub struct GridEquation {
    pub eq: Equation,
    pub start_pos: (usize, usize),
    pub direction: Direction,
}

impl View for GridEquation {
    type V = GridEquationView;

    open spec fn view(&self) -> GridEquationView {
        GridEquationView { eq: self.eq@, start_pos: self.start_pos, direction: self.direction }
    }
}

/// The mathematical content of a list of placed equations.
pub open spec fn views(equations: Seq<GridEquation>) -> Seq<GridEquationView> {
    Seq::new(equations.len(), |i: int| equations[i]@)
}

impl Clone for GridEquation {
    fn clone(&self) -> (g: GridEquation)
        ensures
            g@ == self@,
    {
        GridEquation { eq: self.eq.clone(), start_pos: self.start_pos, direction: self.direction }
    }
}

impl GridEquation {
    /// Places `eq` at `start_pos` along `direction`.
    pub fn new(eq: Equation, start_pos: (usize, usize), direction: Direction) -> (g: GridEquation)
        ensures
            g.eq == eq,
            g.start_pos == start_pos,
            g.direction == direction,
    {
        GridEquation { eq, start_pos, direction }
    }

    /// Whether the coordinates of all covered cells, and of the cell behind
    /// the last one, fit in `usize`.
    pub fn span_fits(&self) -> (fits: bool)
        ensures
            fits == self@.span_fits(),
    {
        let len = self.len();
        match self.direction {
            Direction::Horizontal => self.start_pos.0 <= usize::MAX - len,
            Direction::Vertical => self.start_pos.1 <= usize::MAX - len,
        }
    }

    /// The coordinate of the last covered cell.
    pub fn end_pos(&self) -> (end: (usize, usize))
        requires
            self@.span_fits(),
        ensures
            (end.0 as int, end.1 as int) == self@.end_pos(),
    {
        let (start_x, start_y) = self.start_pos;
        let len = self.len();
        match self.direction {
            Direction::Horizontal => (start_x + len - 1, start_y),
            Direction::Vertical => (start_x, start_y + len - 1),
        }
    }

    /// All cells of the equation in reading order.
    pub fn symbols(&self) -> (all: Vec<Symbol>)
        ensures
            all@ == self@.eq.symbols(),
    {
        self.eq.symbols()
    }

    /// Number of grid cells the equation covers.
    pub fn len(&self) -> (n: usize)
        ensures
            n == self@.len(),
    {
        self.eq.len()
    }

    /// The left-hand cell at `idx`.
    pub fn get_symbol_idx(&self, idx: usize) -> (symbol: &Symbol)
        requires
            idx < self@.eq.lhs.len(),
        ensures
            *symbol == self@.eq.lhs[idx as int],
    {
        &self.eq.lhs()[idx]
    }

    /// The symbol at a grid coordinate, or `None` where the equation has
    /// none to show: off its span, and on the last cell of the span.
    pub fn get_symbol(&self, position: (usize, usize)) -> (r: Option<&Symbol>)
        ensures
            match r {
                Some(s) => self@.get_symbol(position) == Some(*s),
                None => self@.get_symbol(position) is None,
            },
    {
        match self.offset_at(position) {
            Some(offset) => self.eq.nth(offset),
            None => None,
        }
    }

    /// The number to carry into an equation that starts at `position`: the
    /// value of the `Number` that can be read there, if there is one.
    pub fn carried_value(&self, position: (usize, usize)) -> (carried: Option<i32>)
        ensures
            carried == self@.carried_value(position),
    {
        match self.get_symbol(position) {
            Some(symbol) => match symbol {
                Symbol::Number(n) => Some(*n),
                _ => None,
            },
            None => None,
        }
    }

    /// How far `position` lies from the start along the axis, if it is one of
    /// the covered cells.
    fn offset_at(&self, position: (usize, usize)) -> (r: Option<usize>)
        ensures
            match r {
                Some(offset) => self@.offset_of(position) == Some(offset as int),
                None => self@.offset_of(position) is None,
            },
    {
        let (x, y) = position;
        let (start_x, start_y) = self.start_pos;
        if x < start_x || y < start_y {
            return None;
        }
        let offset_x: usize = x - start_x;
        let offset_y: usize = y - start_y;
        match self.direction {
            Direction::Horizontal => {
                if offset_y == 0 && offset_x < self.len() {
                    Some(offset_x)
                } else {
                    None
                }
            },
            Direction::Vertical => {
                if offset_x == 0 && offset_y < self.len() {
                    Some(offset_y)
                } else {
                    None
                }
            },
        }
    }

    /// Replaces the symbol at a grid coordinate of the left-hand side. A
    /// coordinate off the span changes nothing; one on the span behind the
    /// left-hand side is not accepted.
    pub fn set_symbol(&mut self, position: (usize, usize), symbol: Symbol)
        requires
            old(self)@.offset_of(position) matches Some(offset) ==> offset < old(
                self,
            )@.eq.lhs.len(),
        ensures
            final(self)@ == match old(self)@.offset_of(position) {
                Some(offset) => old(self)@.with_lhs(offset, symbol),
                None => old(self)@,
            },
    {
        match self.offset_at(position) {
            Some(offset) => {
                self.eq.set_lhs(offset, symbol);
            },
            None => {},
        }
    }

    /// Replaces the left-hand cell at `idx`.
    pub fn set_symbol_idx(&mut self, idx: usize, symbol: Symbol)
        requires
            idx < old(self)@.eq.lhs.len(),
        ensures
            final(self)@ == old(self)@.with_lhs(idx as int, symbol),
    {
        self.eq.set_lhs(idx, symbol);
    }

    /// The occurrence number that the raw draw `raw` selects for a left-hand
    /// side of `lhs_len` cells.
    pub fn occurrence_for(raw: u32, lhs_len: usize) -> (n: usize)
        requires
            lhs_len / 2 + 1 <= u32::MAX,
        ensures
            n == occurrence_for(raw, (lhs_len / 2 + 1) as u32),
            1 <= n <= lhs_len / 2 + 1,
    {
        let max_n: u32 = (lhs_len / 2 + 1) as u32;
        let n: u32 = (raw % max_n) + 1;
        n as usize
    }

    /// The coordinate of a number of the left-hand side picked at random
    /// among its first `len / 2 + 1` numbers.
    pub fn pos_of_rand_number(&self) -> (pos: (usize, usize))
        requires
            self@.can_pick_number(),
        ensures
            exists|idx: int| #[trigger]
                self@.is_pickable(idx) && (pos.0 as int, pos.1 as int) == self@.cell(idx),
    {
        let (x, y, idx) = self.pos_of_rand_number_with_n();
        assert(self@.is_pickable(idx as int));
        (x, y)
    }

    /// The coordinate and the left-hand index of a number of the left-hand
    /// side picked at random among its first `len / 2 + 1` numbers.
    pub fn pos_of_rand_number_with_n(&self) -> (pos: (usize, usize, usize))
        requires
            self@.can_pick_number(),
        ensures
            self@.is_pickable(pos.2 as int),
            (pos.0 as int, pos.1 as int) == self@.cell(pos.2 as int),
    {
        let n = Self::occurrence_for(random_u32(), self.eq.lhs().len());
        proof {
            lemma_nth_number_index(self@.eq.lhs, n as nat);
        }
        self.pos_of_nth_number_with_idx(n).unwrap()
    }

    /// The coordinate of the `n`-th number of the left-hand side, counting
    /// from 1, or `None` when `n` is 0 or the left-hand side holds fewer
    /// than `n` numbers.
    pub fn pos_of_nth_number(&self, n: usize) -> (r: Option<(usize, usize)>)
        requires
            self@.span_fits(),
        ensures
            match r {
                Some(pos) => self@.pos_of_nth_number(n as nat) == Some(
                    (pos.0 as int, pos.1 as int),
                ),
                None => self@.pos_of_nth_number(n as nat) is None,
            },
            r is None <==> n == 0 || n > count_numbers(self@.eq.lhs),
    {
        match self.pos_of_nth_number_with_idx(n) {
            Some((x, y, _)) => Some((x, y)),
            None => None,
        }
    }

    /// The coordinate of the `n`-th number of the left-hand side, counting
    /// from 1, and its index in the left-hand side; `None` when `n` is 0 or
    /// the left-hand side holds fewer than `n` numbers.
    pub fn pos_of_nth_number_with_idx(&self, n: usize) -> (r: Option<(usize, usize, usize)>)
        requires
            self@.span_fits(),
        ensures
            match r {
                Some(pos) => self@.pos_of_nth_number_with_idx(n as nat) == Some(
                    (pos.0 as int, pos.1 as int, pos.2 as int),
                ),
                None => self@.pos_of_nth_number_with_idx(n as nat) is None,
            },
            r is None <==> n == 0 || n > count_numbers(self@.eq.lhs),
    {
        let (start_x, start_y) = self.start_pos;
        let lhs = self.eq.lhs();
        if n == 0 {
            return None;
        }
        let mut idx: usize = 0;
        let mut counter: usize = 0;
        assert(lhs@.skip(0) =~= lhs@);
        while idx < lhs.len()
            invariant
                idx <= lhs.len(),
                counter < n,
                counter <= idx,
                lhs@ == self@.eq.lhs,
                (start_x, start_y) == self.start_pos,
                self@.span_fits(),
                nth_number_index(lhs@, n as nat) == shifted(
                    nth_number_index(lhs@.skip(idx as int), (n - counter) as nat),
                    idx as int,
                ),
            decreases lhs.len() - idx,
        {
            assert(lhs@.skip(idx as int).drop_first() =~= lhs@.skip(idx + 1));
            assert(lhs@.skip(idx as int).first() == lhs@[idx as int]);
            if let Symbol::Number(_) = lhs[idx] {
                counter += 1;
                if counter == n {
                    let (x, y) = match self.direction {
                        Direction::Horizontal => (start_x + idx, start_y),
                        Direction::Vertical => (start_x, start_y + idx),
                    };
                    proof {
                        lemma_nth_number_index(lhs@, n as nat);
                    }
                    return Some((x, y, idx));
                }
            }
            idx += 1;
        }
        proof {
            lemma_nth_number_index(lhs@, n as nat);
        }
        None
    }

    /// Whether `point` lies on the axis of the equation between its start and
    /// the cell `len` places behind it, both included.
    pub fn contains_point(&self, point: (usize, usize)) -> (r: bool)
        requires
            self@.span_fits(),
        ensures
            r == self@.contains_point(point),
    {
        let (start_x, start_y) = self.start_pos;
        let (x, y) = point;
        match self.direction {
            Direction::Horizontal => y == start_y && x >= start_x && x <= start_x + self.len(),
            Direction::Vertical => x == start_x && y >= start_y && y <= start_y + self.len(),
        }
    }
}

} // verus!
