//! Random equations: a chain of binary operations in which each result is
//! the left operand of the next operation.

use crate::equation::chain_value;
use crate::equation::is_operand_chain;
use crate::equation::operator_of;
use crate::equation::Equation;
use crate::equation::EquationView;
use crate::random::choose_operator;
use crate::random::random_range;
use crate::symbol::truncating_quotient;
use crate::symbol::Operator;
use crate::symbol::Symbol;
use vstd::prelude::*;

verus! {

/// One step of a chain: two operands, the operator between them and the
/// value of the step.
pub struct BinaryOperation {
    pub num1: i32,
    pub operator: Operator,
    pub num2: i32,
    pub result: i32,
}

impl BinaryOperation {
    /// Whether `result` is what `operator` makes of the two operands.
    pub open spec fn is_correct(self) -> bool {
        self.result == self.operator.apply(self.num1 as int, self.num2 as int)
    }

    /// The operation `num1 operator num2` together with its value.
    pub fn new(num1: i32, operator: Operator, num2: i32) -> (op: BinaryOperation)
        requires
            operator.defined_on(num1 as int, num2 as int),
        ensures
            op.num1 == num1,
            op.operator == operator,
            op.num2 == num2,
            op.is_correct(),
    {
        let result = operator.compute(num1, num2);
        BinaryOperation { num1, operator, num2, result }
    }
}

/// Whether `s` is a number drawn afresh: a `Number` from 1 to 9.
pub open spec fn is_fresh_operand(s: Symbol) -> bool {
    s matches Symbol::Number(v) && 1 <= v < 10
}

/// The operators offered at step `i` of a chain when the right operand is
/// `b`: always `Add` and `Subtract`; at the first step `Multiply` too, and
/// `Divide` unless `b` is 0.
pub open spec fn operator_choices(i: u32, b: i32) -> Seq<Operator> {
    if i != 0 {
        seq![Operator::Add, Operator::Subtract]
    } else if b != 0 {
        seq![Operator::Add, Operator::Subtract, Operator::Multiply, Operator::Divide]
    } else {
        seq![Operator::Add, Operator::Subtract, Operator::Multiply]
    }
}

/// Whether every operation that step `i` may draw on the left operand `a`
/// has a value in `i32`.
pub open spec fn operand_in_reach(i: u32, a: int) -> bool {
    if i == 0 {
        i32::MIN <= 9 * a <= i32::MAX
    } else {
        i32::MIN + 9 <= a <= i32::MAX - 9
    }
}

/// The least value the first step of a chain can have.
pub open spec fn lowest_first_result(running_result: Option<i32>) -> int {
    match running_result {
        None => -8,
        Some(a) => if a >= 0 {
            if a - 9 <= a / 9 {
                a - 9
            } else {
                a / 9
            }
        } else {
            if a - 9 <= 9 * a {
                a - 9
            } else {
                9 * a
            }
        },
    }
}

/// The greatest value the first step of a chain can have.
pub open spec fn highest_first_result(running_result: Option<i32>) -> int {
    match running_result {
        None => 81,
        Some(a) => if a >= 0 {
            if a + 9 >= 9 * a {
                a + 9
            } else {
                9 * a
            }
        } else {
            if a + 9 >= truncating_quotient(a as int, 9) {
                a + 9
            } else {
                truncating_quotient(a as int, 9)
            }
        },
    }
}

/// Whether a chain of `num_operations` steps that starts from
/// `running_result` stays in `i32` whatever is drawn: there is at least one
/// step, and the extreme values, which move by up to 9 with every further
/// step, do not leave the range.
pub open spec fn generation_in_reach(running_result: Option<i32>, num_operations: u32) -> bool {
    &&& num_operations >= 1
    &&& i32::MIN <= lowest_first_result(running_result) - 9 * (num_operations - 1)
    &&& highest_first_result(running_result) + 9 * (num_operations - 1) <= i32::MAX
}

/// Whether operation `k` of `ops` is correct and, unless it is the first,
/// takes the result of the operation before it as its left operand.
pub open spec fn is_link(ops: Seq<BinaryOperation>, k: int) -> bool {
    &&& ops[k].is_correct()
    &&& k >= 1 ==> ops[k].num1 == ops[k - 1].result
}

/// Whether the operations form a chain: each is correct, and each but the
/// first continues from the result of the one before.
pub open spec fn is_chain(ops: Seq<BinaryOperation>) -> bool {
    forall|k: int| 0 <= k < ops.len() ==> #[trigger] is_link(ops, k)
}

/// The left-hand side that spells out `ops`: the first left operand, then
/// for every operation its operator and its right operand.
pub open spec fn lhs_of(ops: Seq<BinaryOperation>) -> Seq<Symbol> {
    Seq::new(
        2 * ops.len() + 1,
        |j: int|
            if j == 0 {
                Symbol::Number(ops[0].num1)
            } else if j % 2 == 1 {
                Symbol::Operator(ops[j / 2].operator)
            } else {
                Symbol::Number(ops[j / 2 - 1].num2)
            },
    )
}

/// The equation that spells out `ops`: `lhs_of(ops)` on the left, the last
/// result on the right.
pub open spec fn equation_of(ops: Seq<BinaryOperation>) -> EquationView {
    EquationView { lhs: lhs_of(ops), rhs: seq![Symbol::Number(ops.last().result)] }
}

/// Whether the cells at `j` and `j + 1` of `lhs` are a step as the generator
/// draws it: a right operand from 1 to 9 behind an operator that is offered
/// for it at that place in the chain.
pub open spec fn is_drawn_step(lhs: Seq<Symbol>, j: int) -> bool {
    &&& lhs[j] is Operator
    &&& is_fresh_operand(lhs[j + 1])
    &&& operator_choices((j / 2) as u32, lhs[j + 1].operand_value() as i32).contains(
        operator_of(lhs[j]),
    )
}

/// What holds of every equation generated from `running_result` with `n`
/// operations: it is balanced; its left-hand side has `2 * n + 1` cells and
/// starts with `running_result`, or with a number from 1 to 9 where there is
/// none; every operator and the operand behind it are a drawn step.
pub open spec fn is_generated(e: EquationView, running_result: Option<i32>, n: nat) -> bool {
    &&& e.lhs.len() == 2 * n + 1
    &&& e.is_balanced()
    &&& match running_result {
        Some(a) => e.lhs[0] == Symbol::Number(a),
        None => is_fresh_operand(e.lhs[0]),
    }
    &&& forall|j: int| 0 <= j < e.lhs.len() && j % 2 == 1 ==> #[trigger] is_drawn_step(e.lhs, j)
}

/// The cells of `lhs_of(ops)`, position by position.
proof fn lemma_lhs_of_cells(ops: Seq<BinaryOperation>, j: int)
    requires
        0 <= j < 2 * ops.len() + 1,
    ensures
        lhs_of(ops).len() == 2 * ops.len() + 1,
        j == 0 ==> lhs_of(ops)[j] == Symbol::Number(ops[0].num1),
        j % 2 == 1 ==> 0 <= j / 2 < ops.len() && lhs_of(ops)[j] == Symbol::Operator(
            ops[j / 2].operator,
        ),
        j > 0 && j % 2 == 0 ==> 0 <= j / 2 - 1 < ops.len() && lhs_of(ops)[j] == Symbol::Number(
            ops[j / 2 - 1].num2,
        ),
{
}

/// `lhs_of` alternates numbers and operators.
proof fn lemma_lhs_of_shape(ops: Seq<BinaryOperation>)
    ensures
        is_operand_chain(lhs_of(ops)),
{
    let s = lhs_of(ops);
    assert forall|k: int| 0 <= k < s.len() && k % 2 == 0 implies (#[trigger] s[k]).is_operand() by {
        lemma_lhs_of_cells(ops, k);
    }
    assert forall|k: int| 0 <= k < s.len() && k % 2 == 1 implies #[trigger] s[k] is Operator by {
        lemma_lhs_of_cells(ops, k);
    }
}

/// A chain evaluates to the result of its last operation.
pub proof fn lemma_chain_value(ops: Seq<BinaryOperation>)
    requires
        ops.len() >= 1,
        is_chain(ops),
    ensures
        chain_value(lhs_of(ops)) == ops.last().result,
        equation_of(ops).is_balanced(),
    decreases ops.len(),
{
    let s = lhs_of(ops);
    let n = ops.len() as int;
    let last = ops[n - 1];
    lemma_lhs_of_shape(ops);
    lemma_lhs_of_cells(ops, 2 * n - 1);
    lemma_lhs_of_cells(ops, 2 * n);
    assert(s[s.len() - 2] == Symbol::Operator(last.operator));
    assert(s[s.len() - 1] == Symbol::Number(last.num2));
    let head = s.take(s.len() - 2);
    assert(is_link(ops, n - 1));
    if n == 1 {
        lemma_lhs_of_cells(ops, 0);
        assert(head.len() == 1);
        assert(head[0] == Symbol::Number(last.num1));
        assert(chain_value(head) == last.num1);
    } else {
        let front = ops.drop_last();
        assert forall|k: int| 0 <= k < front.len() implies #[trigger] is_link(front, k) by {
            assert(is_link(ops, k));
        }
        lemma_chain_value(front);
        assert forall|j: int| 0 <= j < head.len() implies head[j] == lhs_of(front)[j] by {
            lemma_lhs_of_cells(ops, j);
            lemma_lhs_of_cells(front, j);
        }
        assert(head =~= lhs_of(front));
        assert(front.last() == ops[n - 2]);
        assert(chain_value(head) == last.num1);
    }
    assert(chain_value(s) == last.operator.apply(chain_value(head), last.num2 as int));
}

/// A chain whose operands and operators were drawn as the generator draws
/// them spells out a generated equation.
proof fn lemma_generated(ops: Seq<BinaryOperation>, running_result: Option<i32>)
    requires
        ops.len() >= 1,
        is_chain(ops),
        match running_result {
            Some(a) => ops[0].num1 == a,
            None => 1 <= ops[0].num1 < 10,
        },
        forall|k: int|
            0 <= k < ops.len() ==> 1 <= (#[trigger] ops[k]).num2 < 10 && operator_choices(
                k as u32,
                ops[k].num2,
            ).contains(ops[k].operator),
        ops.len() <= u32::MAX,
    ensures
        is_generated(equation_of(ops), running_result, ops.len()),
{
    let lhs = lhs_of(ops);
    lemma_chain_value(ops);
    lemma_lhs_of_cells(ops, 0);
    assert forall|j: int| 0 <= j < lhs.len() && j % 2 == 1 implies #[trigger] is_drawn_step(
        lhs,
        j,
    ) by {
        lemma_lhs_of_cells(ops, j);
        lemma_lhs_of_cells(ops, j + 1);
        let k = j / 2;
        assert(1 <= ops[k].num2 < 10);
    }
}

/// Generates equations by drawing their operands and operators at random.
pub struct EquationGenerator {}

impl EquationGenerator {
    /// The operators offered at step `i` of a chain for the right operand `b`.
    pub fn operator_choices(i: u32, b: i32) -> (operators: Vec<Operator>)
        ensures
            operators@ == operator_choices(i, b),
    {
        let mut operators: Vec<Operator> = Vec::new();
        operators.push(Operator::Add);
        operators.push(Operator::Subtract);
        if i == 0 {
            operators.push(Operator::Multiply);
            if b != 0 {
                operators.push(Operator::Divide);
            }
        }
        operators
    }

    /// Draws step `i` of a chain. The left operand is `prev_a` where there is
    /// one and a number from 1 to 9 otherwise; the right operand is a number
    /// from 1 to 9; the operator is one of `operator_choices(i, num2)`.
    pub fn generate_operation(i: u32, prev_a: Option<i32>) -> (op: BinaryOperation)
        requires
            prev_a matches Some(a) ==> operand_in_reach(i, a as int),
        ensures
            op.is_correct(),
            match prev_a {
                Some(a) => op.num1 == a,
                None => 1 <= op.num1 < 10,
            },
            1 <= op.num2 < 10,
            operator_choices(i, op.num2).contains(op.operator),
            i == 0 ==> lowest_first_result(prev_a) <= op.result <= highest_first_result(prev_a),
            i != 0 ==> op.num1 - 9 <= op.result <= op.num1 + 9,
    {
        let mut rng = rand::rng();
        let a: i32 = match prev_a {
            Some(a) => a,
            None => random_range(&mut rng, 1, 10),
        };
        let b: i32 = random_range(&mut rng, 1, 10);
        let operators = Self::operator_choices(i, b);
        let chosen = choose_operator(&mut rng, &operators);
        let operator: Operator = *chosen.unwrap();
        proof {
            lemma_operation_bounds(i, a as int, b as int, operator);
        }
        BinaryOperation::new(a, operator, b)
    }

    /// The equation that spells out a run of operations.
    pub fn equation_from(operations: &Vec<BinaryOperation>) -> (e: Equation)
        requires
            1 <= operations@.len(),
            2 * operations@.len() + 2 < usize::MAX,
        ensures
            e@ == equation_of(operations@),
    {
        let mut lhs: Vec<Symbol> = Vec::new();
        lhs.push(Symbol::Number(operations[0].num1));
        let mut k: usize = 0;
        proof {
            lemma_lhs_of_cells(operations@, 0);
        }
        while k < operations.len()
            invariant
                k <= operations@.len(),
                2 * operations@.len() + 2 < usize::MAX,
                lhs@ =~= lhs_of(operations@).take(2 * k + 1),
            decreases operations@.len() - k,
        {
            proof {
                lemma_lhs_of_cells(operations@, 2 * k + 1);
                lemma_lhs_of_cells(operations@, 2 * k + 2);
            }
            lhs.push(Symbol::Operator(operations[k].operator));
            lhs.push(Symbol::Number(operations[k].num2));
            k += 1;
        }
        assert(lhs@ =~= lhs_of(operations@));
        let mut rhs: Vec<Symbol> = Vec::new();
        rhs.push(Symbol::Number(operations[operations.len() - 1].result));
        Equation::new(lhs, rhs)
    }

    /// Generates an equation of `num_operations` chained operations. The
    /// chain starts from `running_result` where there is one and from a
    /// number from 1 to 9 otherwise.
    pub fn generate_equation(running_result: Option<i32>, num_operations: u32) -> (e: Equation)
        requires
            generation_in_reach(running_result, num_operations),
        ensures
            is_generated(e@, running_result, num_operations as nat),
    {
        let mut operations: Vec<BinaryOperation> = Vec::new();
        let mut running: Option<i32> = running_result;
        let mut i: u32 = 0;
        while i < num_operations
            invariant
                i <= num_operations,
                generation_in_reach(running_result, num_operations),
                operations@.len() == i,
                is_chain(operations@),
                num_operations <= u32::MAX,
                i == 0 ==> running == running_result,
                i > 0 ==> running == Some(operations@.last().result),
                i > 0 ==> lowest_first_result(running_result) - 9 * (i - 1)
                    <= operations@.last().result,
                i > 0 ==> operations@.last().result <= highest_first_result(running_result)
                    + 9 * (i - 1),
                i > 0 ==> match running_result {
                    Some(a) => operations@[0].num1 == a,
                    None => 1 <= operations@[0].num1 < 10,
                },
                forall|k: int|
                    0 <= k < i ==> 1 <= (#[trigger] operations@[k]).num2 < 10 && operator_choices(
                        k as u32,
                        operations@[k].num2,
                    ).contains(operations@[k].operator),
            decreases num_operations - i,
        {
            let op = Self::generate_operation(i, running);
            running = Some(op.result);
            let ghost before = operations@;
            operations.push(op);
            proof {
                assert forall|k: int| 0 <= k < operations@.len() implies #[trigger] is_link(
                    operations@,
                    k,
                ) by {
                    if k < before.len() {
                        assert(is_link(before, k));
                    }
                }
            }
            i += 1;
        }
        proof {
            lemma_generated(operations@, running_result);
        }
        Self::equation_from(&operations)
    }
}

/// Every operation that step `i` may draw stays within the bounds that the
/// contracts of the generator promise.
proof fn lemma_operation_bounds(i: u32, a: int, b: int, operator: Operator)
    requires
        i32::MIN <= a <= i32::MAX,
        operand_in_reach(i, a),
        1 <= b < 10,
        operator_choices(i, b as i32).contains(operator),
    ensures
        operator.defined_on(a, b),
        i != 0 ==> a - 9 <= operator.apply(a, b) <= a + 9,
        i == 0 ==> lowest_first_result(Some(a as i32)) <= operator.apply(a, b)
            <= highest_first_result(Some(a as i32)),
{
    let choices = operator_choices(i, b as i32);
    let k = choose|k: int| 0 <= k < choices.len() && choices[k] == operator;
    assert(0 <= k < choices.len() && choices[k] == operator);
    if i != 0 {
        assert(operator == Operator::Add || operator == Operator::Subtract);
    } else {
        match operator {
            Operator::Add => {},
            Operator::Subtract => {},
            Operator::Multiply => {
                assert(a >= 0 ==> a <= a * b <= 9 * a) by (nonlinear_arith)
                    requires
                        1 <= b < 10,
                ;
                assert(a < 0 ==> 9 * a <= a * b <= a) by (nonlinear_arith)
                    requires
                        1 <= b < 10,
                ;
            },
            Operator::Divide => {
                if a >= 0 {
                    assert(a / 9 <= a / b <= a) by (nonlinear_arith)
                        requires
                            a >= 0,
                            1 <= b < 10,
                    ;
                } else {
                    assert((-a) / 9 <= (-a) / b <= -a) by (nonlinear_arith)
                        requires
                            a < 0,
                            1 <= b < 10,
                    ;
                }
            },
        }
    }
}

} // verus!
