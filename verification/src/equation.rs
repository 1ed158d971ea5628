//! Equations: a left-hand side of operands and operators, and a right-hand
//! side that holds the result.
//!
//! Read as a whole, an equation is `lhs ++ [Equals] ++ rhs`. The separator is
//! only produced by [`Equation::symbols`]; access by offset runs over
//! `lhs ++ rhs` and never yields it.

use crate::symbol::Operator;
use crate::symbol::Symbol;
use vstd::prelude::*;

verus! {

/// Number of `Number` cells in `s`.
pub open spec fn count_numbers(s: Seq<Symbol>) -> nat
    decreases s.len(),
{
    if s.len() == 0 {
        0
    } else if s.first() is Number {
        1 + count_numbers(s.drop_first())
    } else {
        count_numbers(s.drop_first())
    }
}

/// Index of the `n`-th `Number` cell of `s`, counting from 1; `None` when `n`
/// is 0 or `s` holds fewer than `n` numbers.
pub open spec fn nth_number_index(s: Seq<Symbol>, n: nat) -> Option<int>
    decreases s.len(),
{
    if s.len() == 0 || n == 0 {
        None
    } else if s.first() is Number && n == 1 {
        Some(0)
    } else {
        let rest = if s.first() is Number {
            nth_number_index(s.drop_first(), (n - 1) as nat)
        } else {
            nth_number_index(s.drop_first(), n)
        };
        match rest {
            Some(i) => Some(i + 1),
            None => None,
        }
    }
}

/// `found` moved `by` places to the right.
pub open spec fn shifted(found: Option<int>, by: int) -> Option<int> {
    match found {
        Some(i) => Some(i + by),
        None => None,
    }
}

/// Counting numbers cell by cell from the left: a prefix extended by one
/// cell has one more number exactly when that cell is a `Number`.
pub proof fn lemma_count_numbers_step(s: Seq<Symbol>, k: int)
    requires
        0 <= k < s.len(),
    ensures
        count_numbers(s.take(k + 1)) == count_numbers(s.take(k)) + if s[k] is Number {
            1nat
        } else {
            0nat
        },
    decreases k,
{
    let longer = s.take(k + 1);
    if k == 0 {
        assert(longer.drop_first() =~= s.take(0));
        assert(count_numbers(s.take(0)) == 0);
    } else {
        let shorter = s.take(k);
        assert(longer.drop_first() =~= s.drop_first().take(k));
        assert(shorter.drop_first() =~= s.drop_first().take(k - 1));
        lemma_count_numbers_step(s.drop_first(), k - 1);
        assert(longer.first() == shorter.first());
    }
}

/// What `nth_number_index` finds: the `n`-th number is the cell at which
/// the count of numbers, taken from the left, reaches `n`; there is none
/// exactly when `n` is 0 or exceeds the count of the whole sequence.
pub proof fn lemma_nth_number_index(s: Seq<Symbol>, n: nat)
    ensures
        nth_number_index(s, n) is None <==> n == 0 || n > count_numbers(s),
        nth_number_index(s, n) matches Some(i) ==> 0 <= i < s.len() && s[i] is Number
            && count_numbers(s.take(i + 1)) == n,
    decreases s.len(),
{
    if s.len() == 0 || n == 0 {
    } else if s.first() is Number && n == 1 {
        lemma_count_numbers_step(s, 0);
        assert(count_numbers(s.take(0)) == 0);
    } else {
        let rest = s.drop_first();
        let m = if s.first() is Number {
            (n - 1) as nat
        } else {
            n
        };
        lemma_nth_number_index(rest, m);
        match nth_number_index(rest, m) {
            Some(i) => {
                assert(s.take(i + 2).drop_first() =~= rest.take(i + 1));
                assert(s.take(i + 2).first() == s.first());
            },
            None => {},
        }
    }
}

/// An operand chain without hidden numbers holds a number in every second
/// cell: `len / 2 + 1` of them.
pub proof fn lemma_count_numbers_chain(s: Seq<Symbol>)
    requires
        is_operand_chain(s),
        forall|k: int| 0 <= k < s.len() && k % 2 == 0 ==> #[trigger] s[k] is Number,
    ensures
        count_numbers(s) == s.len() / 2 + 1,
    decreases s.len(),
{
    assert(s[0] is Number);
    let rest = s.drop_first();
    if s.len() == 1 {
        assert(count_numbers(rest) == 0);
    } else {
        assert(s[1] is Operator);
        let tail = rest.drop_first();
        assert forall|k: int| 0 <= k < tail.len() implies #[trigger] tail[k] == s[k + 2] by {}
        lemma_count_numbers_chain(tail);
        assert(rest.first() == s[1]);
        assert(count_numbers(rest) == count_numbers(tail));
    }
}

/// Whether `s` alternates operands and operators, starting and ending with
/// an operand.
pub open spec fn is_operand_chain(s: Seq<Symbol>) -> bool {
    &&& s.len() % 2 == 1
    &&& forall|k: int| 0 <= k < s.len() && k % 2 == 0 ==> (#[trigger] s[k]).is_operand()
    &&& forall|k: int| 0 <= k < s.len() && k % 2 == 1 ==> #[trigger] s[k] is Operator
}

/// The operator a cell holds; `Add` for a cell that holds none.
pub open spec fn operator_of(s: Symbol) -> Operator {
    match s {
        Symbol::Operator(op) => op,
        _ => Operator::Add,
    }
}

/// Value of an operand chain, evaluated pairwise from left to right without
/// precedence: `[a, op1, b, op2, c]` is `(a op1 b) op2 c`.
pub open spec fn chain_value(s: Seq<Symbol>) -> int
    decreases s.len(),
{
    if s.len() < 3 {
        if s.len() == 0 {
            0
        } else {
            s[0].operand_value()
        }
    } else {
        operator_of(s[s.len() - 2]).apply(
            chain_value(s.take(s.len() - 2)),
            s[s.len() - 1].operand_value(),
        )
    }
}

/// Hiding a number changes neither the shape nor the value of a chain: a
/// hidden number stands for the value it hides.
pub proof fn lemma_hiding_keeps_value(s: Seq<Symbol>, idx: int)
    requires
        0 <= idx < s.len(),
        s[idx] is Number,
    ensures
        is_operand_chain(s.update(idx, Symbol::Unknown(s[idx]->Number_0))) == is_operand_chain(s),
        chain_value(s.update(idx, Symbol::Unknown(s[idx]->Number_0))) == chain_value(s),
    decreases s.len(),
{
    let hidden = s.update(idx, Symbol::Unknown(s[idx]->Number_0));
    assert(is_operand_chain(hidden) == is_operand_chain(s)) by {
        if is_operand_chain(s) {
            assert forall|k: int| 0 <= k < s.len() && k % 2 == 0 implies #[trigger] hidden[k]
                .is_operand() by {
                assert(s[k].is_operand());
            }
            assert forall|k: int| 0 <= k < s.len() && k % 2 == 1 implies #[trigger] hidden[k]
                is Operator by {
                assert(s[k] is Operator);
            }
        }
        if is_operand_chain(hidden) {
            assert forall|k: int| 0 <= k < s.len() && k % 2 == 0 implies #[trigger] s[k]
                .is_operand() by {
                assert(hidden[k].is_operand());
            }
            assert forall|k: int| 0 <= k < s.len() && k % 2 == 1 implies #[trigger] s[k]
                is Operator by {
                assert(hidden[k] is Operator);
            }
        }
    }
    if s.len() >= 3 {
        let cut = s.len() - 2;
        if idx < cut {
            lemma_hiding_keeps_value(s.take(cut), idx);
            assert(hidden.take(cut) =~= s.take(cut).update(
                idx,
                Symbol::Unknown(s[idx]->Number_0),
            ));
        } else {
            assert(hidden.take(cut) =~= s.take(cut));
        }
    }
}

/// The mathematical content of an [`Equation`].
pub struct EquationView {
    pub lhs: Seq<Symbol>,
    pub rhs: Seq<Symbol>,
}

impl EquationView {
    /// Number of cells the equation takes on the grid: both sides and the
    /// separator between them.
    pub open spec fn len(self) -> nat {
        self.lhs.len() + self.rhs.len() + 1
    }

    /// All cells in reading order, separator included.
    pub open spec fn symbols(self) -> Seq<Symbol> {
        self.lhs + seq![Symbol::Equals] + self.rhs
    }

    /// The cell at offset `n` of `lhs ++ rhs`.
    pub open spec fn nth(self, n: int) -> Option<Symbol> {
        if 0 <= n < self.lhs.len() {
            Some(self.lhs[n])
        } else if self.lhs.len() <= n < self.lhs.len() + self.rhs.len() {
            Some(self.rhs[n - self.lhs.len()])
        } else {
            None
        }
    }

    /// Whether the right-hand side is the single number that the left-hand
    /// side evaluates to.
    pub open spec fn is_balanced(self) -> bool {
        &&& is_operand_chain(self.lhs)
        &&& i32::MIN <= chain_value(self.lhs) <= i32::MAX
        &&& self.rhs == seq![Symbol::Number(chain_value(self.lhs) as i32)]
    }

    /// The equation with the left-hand cell at `idx` replaced.
    pub open spec fn with_lhs(self, idx: int, symbol: Symbol) -> EquationView {
        EquationView { lhs: self.lhs.update(idx, symbol), rhs: self.rhs }
    }
}

/// An equation: the symbols left of the equals sign and those right of it.
#[derive(Debug, PartialEq)]
pub struct Equation {
    lhs: Vec<Symbol>,
    rhs: Vec<Symbol>,
}

impl View for Equation {
    type V = EquationView;

    closed spec fn view(&self) -> EquationView {
        EquationView { lhs: self.lhs@, rhs: self.rhs@ }
    }
}

impl Clone for Equation {
    fn clone(&self) -> (e: Equation)
        ensures
            e@ == self@,
    {
        proof {
            use_type_invariant(self);
        }
        Equation { lhs: copy_of(&self.lhs), rhs: copy_of(&self.rhs) }
    }
}

/// A vector with the same cells as `cells`.
fn copy_of(cells: &Vec<Symbol>) -> (copy: Vec<Symbol>)
    ensures
        copy@ == cells@,
{
    let mut copy: Vec<Symbol> = Vec::new();
    let mut i: usize = 0;
    while i < cells.len()
        invariant
            i <= cells.len(),
            copy@ == cells@.take(i as int),
        decreases cells.len() - i,
    {
        copy.push(cells[i]);
        i += 1;
    }
    copy
}

impl Equation {
    /// The cell count of every equation fits in a `usize`.
    #[verifier::type_invariant]
    spec fn countable(self) -> bool {
        self.lhs@.len() + self.rhs@.len() < usize::MAX
    }

    /// Builds an equation from its two sides.
    pub fn new(lhs: Vec<Symbol>, rhs: Vec<Symbol>) -> (e: Equation)
        requires
            lhs@.len() + rhs@.len() < usize::MAX,
        ensures
            e@.lhs == lhs@,
            e@.rhs == rhs@,
    {
        Equation { lhs, rhs }
    }

    /// The left-hand side.
    pub fn lhs(&self) -> (side: &Vec<Symbol>)
        ensures
            side@ == self@.lhs,
    {
        &self.lhs
    }

    /// The right-hand side.
    pub fn rhs(&self) -> (side: &Vec<Symbol>)
        ensures
            side@ == self@.rhs,
    {
        &self.rhs
    }

    /// The cell at offset `n` of `lhs ++ rhs`, or `None` past its end. The
    /// last offset below [`Equation::len`] is therefore never occupied.
    pub fn nth(&self, n: usize) -> (r: Option<&Symbol>)
        ensures
            match r {
                Some(s) => self@.nth(n as int) == Some(*s),
                None => self@.nth(n as int) is None,
            },
    {
        if n < self.lhs.len() {
            Some(&self.lhs[n])
        } else {
            let k: usize = n - self.lhs.len();
            if k < self.rhs.len() {
                Some(&self.rhs[k])
            } else {
                None
            }
        }
    }

    /// Number of cells: both sides and the equals sign.
    pub fn len(&self) -> (n: usize)
        ensures
            n == self@.len(),
            n == self@.lhs.len() + self@.rhs.len() + 1,
    {
        proof {
            use_type_invariant(self);
        }
        self.lhs.len() + self.rhs.len() + 1
    }

    /// All cells in reading order: `lhs`, the equals sign, `rhs`.
    pub fn symbols(&self) -> (all: Vec<Symbol>)
        ensures
            all@ == self@.symbols(),
    {
        let mut all: Vec<Symbol> = copy_of(&self.lhs);
        all.push(Symbol::Equals);
        let mut j: usize = 0;
        while j < self.rhs.len()
            invariant
                j <= self.rhs.len(),
                all@ == self.lhs@ + seq![Symbol::Equals] + self.rhs@.take(j as int),
            decreases self.rhs.len() - j,
        {
            all.push(self.rhs[j]);
            j += 1;
        }
        all
    }

    /// Replaces the left-hand cell at `idx`.
    pub fn set_lhs(&mut self, idx: usize, symbol: Symbol)
        requires
            idx < old(self)@.lhs.len(),
        ensures
            final(self)@ == old(self)@.with_lhs(idx as int, symbol),
    {
        proof {
            use_type_invariant(&*self);
        }
        self.lhs[idx] = symbol;
    }
}

} // verus!
