//! Laying equations out as a crossword: every equation starts on a number
//! of the equation before it, runs along the other axis and begins with that
//! number.

use crate::equation::count_numbers;
use crate::equation::lemma_count_numbers_chain;
use crate::equation::lemma_count_numbers_step;
use crate::equation::lemma_nth_number_index;
use crate::equation::nth_number_index;
use crate::generator::is_drawn_step;
use crate::generator::is_fresh_operand;
use crate::generator::is_generated;
use crate::generator::EquationGenerator;
use crate::grid_equation::views;
use crate::grid_equation::GridEquation;
use crate::grid_equation::GridEquationView;
use crate::masking::lemma_mask_keeps_balance;
use crate::masking::mask_all;
use crate::masking::picks_drawable;
use crate::masking::set_unknowns_in_equations;
use crate::random::random_range;
use crate::symbol::Direction;
use vstd::prelude::*;

verus! {

/// The equations of a puzzle, in the order in which they were placed.
pub struct GridEquations(pub Vec<GridEquation>);

/// Whether `next` crosses `prev` as the placement makes it: `next` runs
/// along the other axis, starts on the cell of a number of the left-hand
/// side of `prev`, one from the `lo`-th to the `hi`-th, and is an equation
/// of `ops` operations generated from that number.
pub open spec fn crosses(
    prev: GridEquationView,
    next: GridEquationView,
    ops: nat,
    lo: nat,
    hi: nat,
) -> bool {
    &&& next.direction == prev.direction.spec_flipped()
    &&& prev.offset_of(next.start_pos) matches Some(idx)
    &&& idx < prev.eq.lhs.len()
    &&& prev.eq.lhs[idx] is Number
    &&& lo <= count_numbers(prev.eq.lhs.take(idx + 1)) <= hi
    &&& is_generated(next.eq, prev.carried_value(next.start_pos), ops)
}

/// Whether equation `i + 1` of `equations` crosses equation `i`.
pub open spec fn is_crossing(
    equations: Seq<GridEquationView>,
    i: int,
    ops: nat,
    lo: nat,
    hi: nat,
) -> bool {
    crosses(equations[i], equations[i + 1], ops, lo, hi)
}

/// Whether `equations` is a crossword as the placement builds it: the first
/// equation starts at the origin, runs horizontally and is generated afresh;
/// every further one crosses the one before it; all lie within the
/// coordinates of the grid.
pub open spec fn is_crossword(
    equations: Seq<GridEquationView>,
    ops: nat,
    lo: nat,
    hi: nat,
) -> bool {
    &&& equations.len() > 0 ==> {
        &&& equations[0].start_pos == (0usize, 0usize)
        &&& equations[0].direction == Direction::Horizontal
        &&& is_generated(equations[0].eq, None, ops)
    }
    &&& forall|i: int| 0 <= i < equations.len() ==> (#[trigger] equations[i]).span_fits()
    &&& forall|i: int|
        0 <= i < equations.len() - 1 ==> #[trigger] is_crossing(equations, i, ops, lo, hi)
}

/// Whether the placement may go on from `position` along `direction` with
/// `carried`, after `equations`: either nothing is placed yet and the
/// placement stands at the origin, or the next equation, generated from
/// `carried`, will cross the last one.
pub open spec fn stands_at(
    equations: Seq<GridEquationView>,
    position: (usize, usize),
    direction: Direction,
    carried: Option<i32>,
    lo: nat,
    hi: nat,
) -> bool {
    if equations.len() == 0 {
        position == (0usize, 0usize) && direction == Direction::Horizontal && carried is None
    } else {
        let prev = equations.last();
        &&& direction == prev.direction.spec_flipped()
        &&& prev.offset_of(position) matches Some(idx)
        &&& idx < prev.eq.lhs.len()
        &&& is_fresh_operand(prev.eq.lhs[idx])
        &&& lo <= count_numbers(prev.eq.lhs.take(idx + 1)) <= hi
        &&& carried == prev.carried_value(position)
    }
}

/// In a generated equation of at least one operation every operand but
/// the first is a number from 1 to 9, and the numbers are the cells at even
/// places.
proof fn lemma_generated_numbers(e: crate::equation::EquationView, carried: Option<i32>, ops: nat)
    requires
        is_generated(e, carried, ops),
    ensures
        count_numbers(e.lhs) == ops + 1,
        e.lhs.len() / 2 + 1 == ops + 1,
        forall|idx: int|
            0 <= idx < e.lhs.len() && (#[trigger] e.lhs[idx]) is Number ==> idx % 2 == 0 && (idx
                >= 2 ==> is_fresh_operand(e.lhs[idx])),
{
    assert forall|k: int| 0 <= k < e.lhs.len() && k % 2 == 0 implies #[trigger] e.lhs[k]
        is Number by {
        if k >= 2 {
            assert(is_drawn_step(e.lhs, k - 1));
        }
    }
    lemma_count_numbers_chain(e.lhs);
    assert forall|idx: int| 0 <= idx < e.lhs.len() && (#[trigger] e.lhs[idx]) is Number implies idx
        % 2 == 0 && (idx >= 2 ==> is_fresh_operand(e.lhs[idx])) by {
        if idx % 2 == 1 {
            assert(is_drawn_step(e.lhs, idx));
        } else if idx >= 2 {
            assert(is_drawn_step(e.lhs, idx - 1));
        }
    }
}

/// One step of the placement: a crossword extended by an equation that
/// crosses its last one is a crossword, and the placement may go on from any
/// number of the new equation that is in range.
proof fn lemma_extend_crossword(
    before: Seq<GridEquationView>,
    g: GridEquationView,
    carried: Option<i32>,
    idx: int,
    next_position: (usize, usize),
    ops: nat,
    lo: nat,
    hi: nat,
)
    requires
        is_crossword(before, ops, lo, hi),
        stands_at(before, g.start_pos, g.direction, carried, lo, hi),
        is_generated(g.eq, carried, ops),
        g.span_fits(),
        0 <= idx < g.eq.lhs.len(),
        g.eq.lhs[idx] is Number,
        lo <= count_numbers(g.eq.lhs.take(idx + 1)) <= hi,
        (next_position.0 as int, next_position.1 as int) == g.cell(idx),
    ensures
        is_crossword(before.push(g), ops, lo, hi),
        stands_at(
            before.push(g),
            next_position,
            g.direction.spec_flipped(),
            g.carried_value(next_position),
            lo,
            hi,
        ),
        g.carried_value(next_position) matches Some(v) && 1 <= v < 10,
{
    let after = before.push(g);
    lemma_generated_numbers(g.eq, carried, ops);
    assert(g.offset_of(next_position) == Some(idx));
    assert(is_fresh_operand(g.eq.lhs[idx])) by {
        if idx == 0 && before.len() > 0 {
            let prev = before.last();
            let at = prev.offset_of(g.start_pos)->0;
            assert(is_fresh_operand(prev.eq.lhs[at]));
        }
    }
    assert forall|i: int| 0 <= i < after.len() implies (#[trigger] after[i]).span_fits() by {
        if i < before.len() {
            assert(after[i] == before[i]);
        }
    }
    assert forall|i: int| 0 <= i < after.len() - 1 implies #[trigger] is_crossing(
        after,
        i,
        ops,
        lo,
        hi,
    ) by {
        if i < before.len() - 1 {
            assert(is_crossing(before, i, ops, lo, hi));
            assert(after[i] == before[i]);
            assert(after[i + 1] == before[i + 1]);
        } else {
            assert(after[i] == before.last());
        }
    }
    if before.len() > 0 {
        assert(after[0] == before[0]);
    }
}

/// Places `count` equations of two operations each. The first starts at the
/// origin and runs horizontally; each further one starts on the second or
/// third number of the one before, picked at random, runs along the other
/// axis and is generated from that number.
pub fn place_equations(count: usize) -> (grid_equations: Vec<GridEquation>)
    requires
        4 * count + 7 <= usize::MAX,
    ensures
        grid_equations@.len() == count,
        is_crossword(views(grid_equations@), 2, 2, 3),
{
    let mut rng = rand::rng();
    let mut position: (usize, usize) = (0, 0);
    let mut dir = Direction::Horizontal;
    let mut running_result: Option<i32> = None;
    let mut grid_equations: Vec<GridEquation> = Vec::new();
    let mut placed: usize = 0;
    while placed < count
        invariant
            placed <= count,
            4 * count + 7 <= usize::MAX,
            grid_equations@.len() == placed,
            position.0 <= 4 * placed,
            position.1 <= 4 * placed,
            running_result matches Some(v) ==> 1 <= v < 10,
            is_crossword(views(grid_equations@), 2, 2, 3),
            stands_at(views(grid_equations@), position, dir, running_result, 2, 3),
        decreases count - placed,
    {
        let ghost before = views(grid_equations@);
        let equation = EquationGenerator::generate_equation(running_result, 2);
        let grid_equation = GridEquation::new(equation, position, dir);
        assert(grid_equation@.eq.rhs.len() == 1);
        let nth: usize = random_range(&mut rng, 2, 4) as usize;
        proof {
            lemma_generated_numbers(grid_equation@.eq, running_result, 2);
            lemma_nth_number_index(grid_equation@.eq.lhs, nth as nat);
        }
        let next_position = grid_equation.pos_of_nth_number(nth).unwrap();
        let carried = grid_equation.carried_value(next_position);
        proof {
            let g = grid_equation@;
            let idx = nth_number_index(g.eq.lhs, nth as nat)->0;
            lemma_extend_crossword(before, g, running_result, idx, next_position, 2, 2, 3);
        }
        grid_equations.push(grid_equation);
        assert(views(grid_equations@) =~= before.push(grid_equation@));
        position = next_position;
        dir = dir.flipped();
        running_result = carried;
        placed += 1;
    }
    grid_equations
}

/// Builds a puzzle: twenty equations of two operations each, placed as a
/// crossword, with one number hidden in each unless its cell was hidden
/// by an earlier equation.
pub fn generate_equations() -> (puzzle: GridEquations)
    ensures
        puzzle.0@.len() == 20,
        exists|placed: Seq<GridEquationView>, picks: Seq<nat>|
            #![trigger mask_all(placed, picks)]
            {
                &&& is_crossword(placed, 2, 2, 3)
                &&& picks_drawable(placed, picks)
                &&& views(puzzle.0@) == mask_all(placed, picks)
            },
        forall|i: int| 0 <= i < 20 ==> (#[trigger] puzzle.0@[i])@.eq.is_balanced(),
{
    let mut grid_equations = place_equations(20);
    let ghost placed = views(grid_equations@);
    proof {
        assert forall|i: int| 0 <= i < placed.len() implies #[trigger] grid_equations@[i]@
            .can_pick_number() by {
            lemma_placed_can_pick(placed, i, 2, 2, 3);
        }
    }
    set_unknowns_in_equations(&mut grid_equations);
    proof {
        let picks = choose|picks: Seq<nat>| #[trigger]
            picks_drawable(placed, picks) && views(grid_equations@) == mask_all(placed, picks);
        assert forall|i: int| 0 <= i < 20 implies #[trigger] grid_equations@[i]@.eq
            .is_balanced() by {
            lemma_mask_keeps_balance(placed, picks, i);
            assert(views(grid_equations@)[i] == grid_equations@[i]@);
            lemma_placed_balanced(placed, i, 2, 2, 3);
        }
    }
    GridEquations(grid_equations)
}

/// Builds a plain crossword without hidden numbers: ten equations of one
/// operation each. The first starts at the origin and runs horizontally;
/// each further one starts on one of the two numbers of the left-hand side
/// of the one before, picked at random, runs along the other axis and is
/// generated from that number.
pub fn generate_grid() -> (puzzle: GridEquations)
    ensures
        puzzle.0@.len() == 10,
        is_crossword(views(puzzle.0@), 1, 1, 2),
{
    let mut position: (usize, usize) = (0, 0);
    let mut dir = Direction::Horizontal;
    let mut running_result: Option<i32> = None;
    let mut grid_equations: Vec<GridEquation> = Vec::new();
    let mut placed: usize = 0;
    while placed < 10
        invariant
            placed <= 10,
            grid_equations@.len() == placed,
            position.0 <= 2 * placed,
            position.1 <= 2 * placed,
            running_result matches Some(v) ==> 1 <= v < 10,
            is_crossword(views(grid_equations@), 1, 1, 2),
            stands_at(views(grid_equations@), position, dir, running_result, 1, 2),
        decreases 10 - placed,
    {
        let ghost before = views(grid_equations@);
        let equation = EquationGenerator::generate_equation(running_result, 1);
        let grid_equation = GridEquation::new(equation, position, dir);
        assert(grid_equation@.eq.rhs.len() == 1);
        proof {
            lemma_generated_numbers(grid_equation@.eq, running_result, 1);
        }
        let next_position = grid_equation.pos_of_rand_number();
        let carried = grid_equation.carried_value(next_position);
        proof {
            let g = grid_equation@;
            let idx = choose|idx: int| #[trigger]
                g.is_pickable(idx) && (next_position.0 as int, next_position.1 as int) == g.cell(
                    idx,
                );
            lemma_count_numbers_step(g.eq.lhs, idx);
            lemma_extend_crossword(before, g, running_result, idx, next_position, 1, 1, 2);
        }
        grid_equations.push(grid_equation);
        assert(views(grid_equations@) =~= before.push(grid_equation@));
        position = next_position;
        dir = dir.flipped();
        match carried {
            Some(n) => {
                running_result = Some(n);
            },
            None => {},
        }
        placed += 1;
    }
    GridEquations(grid_equations)
}

/// Every equation of a crossword is balanced.
pub proof fn lemma_placed_balanced(
    equations: Seq<GridEquationView>,
    i: int,
    ops: nat,
    lo: nat,
    hi: nat,
)
    requires
        is_crossword(equations, ops, lo, hi),
        0 <= i < equations.len(),
    ensures
        equations[i].eq.is_balanced(),
        equations[i].eq.lhs.len() == 2 * ops + 1,
{
    if i > 0 {
        assert(is_crossing(equations, i - 1, ops, lo, hi));
    }
}

/// Every equation of a crossword offers as many numbers as a random pick
/// may ask for.
proof fn lemma_placed_can_pick(equations: Seq<GridEquationView>, i: int, ops: nat, lo: nat, hi: nat)
    requires
        is_crossword(equations, ops, lo, hi),
        0 <= i < equations.len(),
        ops < 0x4000_0000,
    ensures
        equations[i].can_pick_number(),
        equations[i].eq.lhs.len() == 2 * ops + 1,
{
    assert(equations[i].span_fits());
    if i == 0 {
        lemma_generated_numbers(equations[0].eq, None, ops);
    } else {
        assert(is_crossing(equations, i - 1, ops, lo, hi));
        lemma_generated_numbers(
            equations[i].eq,
            equations[i - 1].carried_value(equations[i].start_pos),
            ops,
        );
    }
}

} // verus!
