//! The alphabet of the puzzle: operators, symbols and layout directions.

use vstd::prelude::*;

verus! {

/// Quotient of `a` by `b` rounded toward zero, for `b != 0`.
pub open spec fn truncating_quotient(a: int, b: int) -> int
    recommends
        b != 0,
{
    if a >= 0 {
        a / b
    } else {
        -((-a) / b)
    }
}

/// A binary arithmetic operator.
#[derive(Debug, Clone, Copy, PartialEq, Eq, Structural)]
pub enum Operator {
    Add,
    Subtract,
    Multiply,
    Divide,
}

impl Operator {
    /// The value of `a op b` over the integers. Division rounds toward zero.
    pub open spec fn apply(self, a: int, b: int) -> int {
        match self {
            Operator::Add => a + b,
            Operator::Subtract => a - b,
            Operator::Multiply => a * b,
            Operator::Divide => truncating_quotient(a, b),
        }
    }

    /// Whether `a op b` has a value that an `i32` can hold.
    pub open spec fn defined_on(self, a: int, b: int) -> bool {
        &&& self == Operator::Divide ==> b != 0
        &&& i32::MIN <= self.apply(a, b) <= i32::MAX
    }

    /// Computes `a op b`.
    pub fn compute(self, a: i32, b: i32) -> (r: i32)
        requires
            self.defined_on(a as int, b as int),
        ensures
            r == self.apply(a as int, b as int),
    {
        match self {
            Operator::Add => a + b,
            Operator::Subtract => a - b,
            Operator::Multiply => a * b,
            Operator::Divide => {
                assert(!(a == i32::MIN && b == -1)) by {
                    if a == i32::MIN && b == -1 {
                        assert(truncating_quotient(a as int, b as int) == 0x8000_0000int);
                    }
                }
                a / b
            },
        }
    }
}

/// One cell of an equation.
#[derive(Debug, Clone, Copy, PartialEq, Eq, Structural)]
pub enum Symbol {
    /// A visible number.
    Number(i32),
    /// An operator between two operands.
    Operator(Operator),
    /// The separator between the two sides of an equation.
    Equals,
    /// A hidden number; the payload is the value the player has to find.
    Unknown(i32),
    /// A cell that belongs to no equation.
    Empty,
}

impl Symbol {
    /// The number a cell stands for, whether it is shown or hidden.
    pub open spec fn operand_value(self) -> int {
        match self {
            Symbol::Number(v) => v as int,
            Symbol::Unknown(v) => v as int,
            _ => 0,
        }
    }

    /// Whether the cell stands for a number, shown or hidden.
    pub open spec fn is_operand(self) -> bool {
        self is Number || self is Unknown
    }
}

/// The grid axis along which an equation is laid out.
#[derive(Debug, Clone, Copy, PartialEq, Eq, Structural)]
pub enum Direction {
    Horizontal,
    Vertical,
}

impl Direction {
    /// The other axis.
    pub open spec fn spec_flipped(self) -> Direction {
        match self {
            Direction::Horizontal => Direction::Vertical,
            Direction::Vertical => Direction::Horizontal,
        }
    }

    /// The other axis.
    #[verifier::when_used_as_spec(spec_flipped)]
    pub fn flipped(self) -> (d: Direction)
        ensures
            d == self.spec_flipped(),
    {
        match self {
            Direction::Horizontal => Direction::Vertical,
            Direction::Vertical => Direction::Horizontal,
        }
    }
}

} // verus!
