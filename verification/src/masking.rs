//! The masking pass: one number of every equation is hidden, in the order
//! of the equations, and a cell that an earlier equation has hidden is left
//! alone by every later one.

use crate::equation::count_numbers;
use crate::equation::lemma_hiding_keeps_value;
use crate::equation::lemma_nth_number_index;
use crate::equation::nth_number_index;
use crate::grid_equation::views;
use crate::grid_equation::GridEquation;
use crate::grid_equation::GridEquationView;
use crate::random::random_u32;
use crate::symbol::Symbol;
use vstd::prelude::*;

verus! {

/// The occurrence numbers as naturals.
pub open spec fn occurrences(picks: Seq<usize>) -> Seq<nat> {
    Seq::new(picks.len(), |i: int| picks[i] as nat)
}

/// The equation `g` after its turn in the pass, where `n` is the occurrence
/// picked for it and `masked` holds the cells hidden before its turn: the
/// `n`-th number of its left-hand side is hidden unless its cell is in
/// `masked`.
pub open spec fn mask_one(
    g: GridEquationView,
    n: nat,
    masked: Set<(int, int)>,
) -> GridEquationView {
    match nth_number_index(g.eq.lhs, n) {
        Some(idx) => if masked.contains(g.cell(idx)) {
            g
        } else {
            match g.eq.lhs[idx] {
                Symbol::Number(v) => g.with_lhs(idx, Symbol::Unknown(v)),
                _ => g,
            }
        },
        None => g,
    }
}

/// The cells hidden once `g` has had its turn.
pub open spec fn masked_after(
    g: GridEquationView,
    n: nat,
    masked: Set<(int, int)>,
) -> Set<(int, int)> {
    match nth_number_index(g.eq.lhs, n) {
        Some(idx) => if g.eq.lhs[idx] is Number {
            masked.insert(g.cell(idx))
        } else {
            masked
        },
        None => masked,
    }
}

/// The cells hidden by the first `k` equations of a pass.
pub open spec fn masked_cells(
    equations: Seq<GridEquationView>,
    picks: Seq<nat>,
    k: int,
) -> Set<(int, int)>
    decreases k,
{
    if k <= 0 {
        Set::empty()
    } else {
        masked_after(equations[k - 1], picks[k - 1], masked_cells(equations, picks, k - 1))
    }
}

/// The equations after a pass with the given picks: each has had its turn
/// with the cells hidden by those before it.
pub open spec fn mask_all(
    equations: Seq<GridEquationView>,
    picks: Seq<nat>,
) -> Seq<GridEquationView> {
    Seq::new(
        equations.len(),
        |i: int| mask_one(equations[i], picks[i], masked_cells(equations, picks, i)),
    )
}

/// Whether every pick finds a number in its equation and every equation
/// lies within the coordinates of the grid.
pub open spec fn picks_resolve(equations: Seq<GridEquationView>, picks: Seq<nat>) -> bool {
    &&& picks.len() == equations.len()
    &&& forall|i: int|
        0 <= i < equations.len() ==> (#[trigger] equations[i]).span_fits() && 1 <= picks[i]
            <= count_numbers(equations[i].eq.lhs)
}

/// Whether every pick is one that the random pass may draw for its
/// equation.
pub open spec fn picks_drawable(equations: Seq<GridEquationView>, picks: Seq<nat>) -> bool {
    &&& picks.len() == equations.len()
    &&& forall|i: int|
        0 <= i < equations.len() ==> 1 <= #[trigger] picks[i] <= equations[i].max_occurrence()
}

/// Whether `g` shows a hidden number at `position`.
pub open spec fn shows_unknown(g: GridEquationView, position: (usize, usize)) -> bool {
    g.get_symbol(position) matches Some(Symbol::Unknown(_))
}

/// The coordinate `position` as a pair of integers.
pub open spec fn as_cell(position: (usize, usize)) -> (int, int) {
    (position.0 as int, position.1 as int)
}

/// A cell that is hidden stays hidden for the rest of the pass.
pub proof fn lemma_masked_cells_grow(
    equations: Seq<GridEquationView>,
    picks: Seq<nat>,
    k: int,
    later: int,
    cell: (int, int),
)
    requires
        0 <= k <= later,
        masked_cells(equations, picks, k).contains(cell),
    ensures
        masked_cells(equations, picks, later).contains(cell),
    decreases later - k,
{
    if k < later {
        lemma_masked_cells_grow(equations, picks, k, later - 1, cell);
    }
}

/// A turn of the pass changes what an equation shows at no cell but that of
/// the picked number, and only where it hides that number.
pub proof fn lemma_mask_one_reads(
    g: GridEquationView,
    n: nat,
    masked: Set<(int, int)>,
    position: (usize, usize),
)
    ensures
        mask_one(g, n, masked).get_symbol(position) != g.get_symbol(position) ==> {
            &&& nth_number_index(g.eq.lhs, n) matches Some(idx)
            &&& as_cell(position) == g.cell(idx)
            &&& !masked.contains(g.cell(idx))
            &&& masked_after(g, n, masked).contains(as_cell(position))
            &&& shows_unknown(mask_one(g, n, masked), position)
        },
{
    lemma_nth_number_index(g.eq.lhs, n);
}

/// No cell is hidden twice. Where two equations of a pass both show a
/// hidden number at `position` after the pass, one of them did so before it.
pub proof fn lemma_hidden_once(
    equations: Seq<GridEquationView>,
    picks: Seq<nat>,
    i: int,
    j: int,
    position: (usize, usize),
)
    requires
        picks.len() == equations.len(),
        0 <= i < j < equations.len(),
        !shows_unknown(equations[i], position),
        !shows_unknown(equations[j], position),
    ensures
        !(shows_unknown(mask_all(equations, picks)[i], position) && shows_unknown(
            mask_all(equations, picks)[j],
            position,
        )),
{
    let after = mask_all(equations, picks);
    if shows_unknown(after[i], position) && shows_unknown(after[j], position) {
        lemma_mask_one_reads(equations[i], picks[i], masked_cells(equations, picks, i), position);
        lemma_mask_one_reads(equations[j], picks[j], masked_cells(equations, picks, j), position);
        assert(masked_cells(equations, picks, i + 1).contains(as_cell(position)));
        lemma_masked_cells_grow(equations, picks, i + 1, j, as_cell(position));
    }
}

/// First come, first hidden. Where equations `i` and `j`, `i` before `j`,
/// pick numbers that lie on the same cell, and no equation before `i` has
/// hidden that cell, the pass hides the number in equation `i` and leaves
/// equation `j` as it was.
pub proof fn lemma_first_pick_wins(
    equations: Seq<GridEquationView>,
    picks: Seq<nat>,
    i: int,
    j: int,
)
    requires
        picks.len() == equations.len(),
        0 <= i < j < equations.len(),
        equations[i].pos_of_nth_number(picks[i]) is Some,
        equations[j].pos_of_nth_number(picks[j]) == equations[i].pos_of_nth_number(picks[i]),
        !masked_cells(equations, picks, i).contains(equations[i].pos_of_nth_number(picks[i])->0),
    ensures
        mask_all(equations, picks)[j] == equations[j],
        ({
            let idx = nth_number_index(equations[i].eq.lhs, picks[i])->0;
            &&& equations[i].eq.lhs[idx] is Number
            &&& mask_all(equations, picks)[i] == equations[i].with_lhs(
                idx,
                Symbol::Unknown(equations[i].eq.lhs[idx]->Number_0),
            )
        }),
{
    let cell = equations[i].pos_of_nth_number(picks[i])->0;
    lemma_nth_number_index(equations[i].eq.lhs, picks[i]);
    lemma_nth_number_index(equations[j].eq.lhs, picks[j]);
    assert(masked_cells(equations, picks, i + 1).contains(cell));
    lemma_masked_cells_grow(equations, picks, i + 1, j, cell);
}

/// Two equations and a cell. After a pass over the two, at most one of them
/// shows a hidden number at `position`, provided neither did before; and
/// where both pick the number on that cell, the first hides it and the
/// second stays as it was.
pub proof fn lemma_shared_cell(
    first: GridEquationView,
    second: GridEquationView,
    first_pick: nat,
    second_pick: nat,
    position: (usize, usize),
)
    requires
        !shows_unknown(first, position),
        !shows_unknown(second, position),
    ensures
        ({
            let after = mask_all(seq![first, second], seq![first_pick, second_pick]);
            &&& !(shows_unknown(after[0], position) && shows_unknown(after[1], position))
            &&& first.pos_of_nth_number(first_pick) == Some(as_cell(position))
                && second.pos_of_nth_number(second_pick) == Some(as_cell(position))
                ==> shows_unknown(after[0], position) && after[1] == second
        }),
{
    let equations = seq![first, second];
    let picks = seq![first_pick, second_pick];
    lemma_hidden_once(equations, picks, 0, 1, position);
    if first.pos_of_nth_number(first_pick) == Some(as_cell(position)) && second.pos_of_nth_number(
        second_pick,
    ) == Some(as_cell(position)) {
        lemma_first_pick_wins(equations, picks, 0, 1);
        lemma_nth_number_index(first.eq.lhs, first_pick);
    }
}

/// The pass leaves every equation balanced that was balanced, and makes
/// none balanced that was not: it only hides numbers, and a hidden number
/// stands for its value.
pub proof fn lemma_mask_keeps_balance(equations: Seq<GridEquationView>, picks: Seq<nat>, i: int)
    requires
        picks.len() == equations.len(),
        0 <= i < equations.len(),
    ensures
        mask_all(equations, picks)[i].eq.is_balanced() == equations[i].eq.is_balanced(),
        mask_all(equations, picks)[i].eq.rhs == equations[i].eq.rhs,
        mask_all(equations, picks)[i].eq.lhs.len() == equations[i].eq.lhs.len(),
        mask_all(equations, picks)[i].start_pos == equations[i].start_pos,
        mask_all(equations, picks)[i].direction == equations[i].direction,
{
    let g = equations[i];
    lemma_nth_number_index(g.eq.lhs, picks[i]);
    match nth_number_index(g.eq.lhs, picks[i]) {
        Some(idx) => {
            lemma_hiding_keeps_value(g.eq.lhs, idx);
        },
        None => {},
    }
}

/// Whether `cells` lists exactly the coordinates in `masked`.
pub open spec fn lists(cells: Seq<(usize, usize)>, masked: Set<(int, int)>) -> bool {
    &&& forall|k: int| 0 <= k < cells.len() ==> masked.contains(as_cell(#[trigger] cells[k]))
    &&& forall|p: (int, int)| #[trigger]
        masked.contains(p) ==> exists|k: int|
            0 <= k < cells.len() && as_cell(#[trigger] cells[k]) == p
}

/// A list with one more cell lists one more coordinate.
proof fn lemma_lists_push(
    cells: Seq<(usize, usize)>,
    masked: Set<(int, int)>,
    position: (usize, usize),
)
    requires
        lists(cells, masked),
    ensures
        lists(cells.push(position), masked.insert(as_cell(position))),
{
    let longer = cells.push(position);
    let after = masked.insert(as_cell(position));
    assert forall|k: int| 0 <= k < longer.len() implies after.contains(
        as_cell(#[trigger] longer[k]),
    ) by {
        if k < cells.len() {
            assert(longer[k] == cells[k]);
        }
    }
    assert forall|p: (int, int)| #[trigger] after.contains(p) implies exists|k: int|
        0 <= k < longer.len() && as_cell(#[trigger] longer[k]) == p by {
        if p == as_cell(position) {
            assert(longer[cells.len() as int] == position);
        } else {
            let k = choose|k: int| 0 <= k < cells.len() && as_cell(#[trigger] cells[k]) == p;
            assert(longer[k] == cells[k]);
        }
    }
}

/// A coordinate is listed exactly when the list holds it.
proof fn lemma_lists_holds(
    cells: Seq<(usize, usize)>,
    masked: Set<(int, int)>,
    position: (usize, usize),
)
    requires
        lists(cells, masked),
    ensures
        masked.contains(as_cell(position)) <==> exists|k: int|
            0 <= k < cells.len() && #[trigger] cells[k] == position,
{
    if masked.contains(as_cell(position)) {
        let k = choose|k: int| 0 <= k < cells.len() && as_cell(#[trigger] cells[k]) == as_cell(
            position,
        );
        assert(cells[k] == position);
    }
}

/// Whether `cells` holds `position`.
fn holds(cells: &Vec<(usize, usize)>, position: (usize, usize)) -> (found: bool)
    ensures
        found <==> exists|k: int| 0 <= k < cells@.len() && #[trigger] cells@[k] == position,
{
    let mut k: usize = 0;
    while k < cells.len()
        invariant
            k <= cells@.len(),
            forall|j: int| 0 <= j < k ==> #[trigger] cells@[j] != position,
        decreases cells@.len() - k,
    {
        if cells[k].0 == position.0 && cells[k].1 == position.1 {
            return true;
        }
        k += 1;
    }
    false
}

/// Runs the masking pass with the given picks: `picks[i]` is the occurrence
/// number of the number to hide in equation `i`. Equations are taken in
/// order; an equation whose picked number lies on a cell that an earlier
/// equation has hidden is left unchanged.
pub fn mask_unknowns(grid_equations: &mut Vec<GridEquation>, picks: &Vec<usize>)
    requires
        picks_resolve(views(old(grid_equations)@), occurrences(picks@)),
    ensures
        final(grid_equations)@.len() == old(grid_equations)@.len(),
        views(final(grid_equations)@) == mask_all(
            views(old(grid_equations)@),
            occurrences(picks@),
        ),
{
    let ghost before = views(grid_equations@);
    let ghost chosen = occurrences(picks@);
    let mut updated_positions: Vec<(usize, usize)> = Vec::new();
    let mut i: usize = 0;
    while i < grid_equations.len()
        invariant
            i <= grid_equations@.len(),
            grid_equations@.len() == before.len(),
            chosen == occurrences(picks@),
            picks_resolve(before, chosen),
            lists(updated_positions@, masked_cells(before, chosen, i as int)),
            forall|j: int|
                0 <= j < i ==> (#[trigger] grid_equations@[j])@ == mask_one(
                    before[j],
                    chosen[j],
                    masked_cells(before, chosen, j),
                ),
            forall|j: int| i <= j < before.len() ==> (#[trigger] grid_equations@[j])@ == before[j],
        decreases grid_equations@.len() - i,
    {
        let ghost masked = masked_cells(before, chosen, i as int);
        let ghost g = before[i as int];
        assert(grid_equations@[i as int]@ == g);
        assert(g.span_fits() && 1 <= chosen[i as int] <= count_numbers(g.eq.lhs));
        proof {
            lemma_nth_number_index(g.eq.lhs, chosen[i as int]);
        }
        let (x, y, idx) = grid_equations[i].pos_of_nth_number_with_idx(picks[i]).unwrap();
        let taken = holds(&updated_positions, (x, y));
        proof {
            lemma_lists_holds(updated_positions@, masked, (x, y));
        }
        if !taken {
            let current: Symbol = *grid_equations[i].get_symbol_idx(idx);
            if let Symbol::Number(n) = current {
                grid_equations[i].set_symbol_idx(idx, Symbol::Unknown(n));
                proof {
                    lemma_lists_push(updated_positions@, masked, (x, y));
                }
                updated_positions.push((x, y));
            }
        }
        i += 1;
    }
    assert(views(grid_equations@) =~= mask_all(before, chosen));
}

/// Draws, for every equation, the occurrence number of the number to hide:
/// from 1 to `len / 2 + 1` for a left-hand side of `len` cells.
pub fn draw_picks(grid_equations: &Vec<GridEquation>) -> (picks: Vec<usize>)
    requires
        forall|i: int|
            0 <= i < grid_equations@.len() ==> (#[trigger] grid_equations@[i])@.max_occurrence()
                <= u32::MAX,
    ensures
        picks_drawable(views(grid_equations@), occurrences(picks@)),
{
    let mut picks: Vec<usize> = Vec::new();
    let mut i: usize = 0;
    while i < grid_equations.len()
        invariant
            i <= grid_equations@.len(),
            picks@.len() == i,
            forall|j: int|
                0 <= j < grid_equations@.len() ==> (#[trigger] grid_equations@[j])@.max_occurrence()
                    <= u32::MAX,
            forall|j: int|
                0 <= j < i ==> 1 <= #[trigger] picks@[j] <= grid_equations@[j]@.max_occurrence(),
        decreases grid_equations@.len() - i,
    {
        assert(grid_equations@[i as int]@.max_occurrence() <= u32::MAX);
        let n = GridEquation::occurrence_for(random_u32(), grid_equations[i].eq.lhs().len());
        picks.push(n);
        i += 1;
    }
    picks
}

/// Hides one number of every equation, picked at random among the first
/// `len / 2 + 1` numbers of its left-hand side, in the order of the
/// equations. Whatever is drawn, the outcome is that of [`mask_unknowns`]
/// for some picks in range.
pub fn set_unknowns_in_equations(grid_equations: &mut Vec<GridEquation>)
    requires
        forall|i: int|
            0 <= i < old(grid_equations)@.len() ==> (#[trigger] old(
                grid_equations,
            )@[i])@.can_pick_number(),
    ensures
        final(grid_equations)@.len() == old(grid_equations)@.len(),
        exists|picks: Seq<nat>| #[trigger]
            picks_drawable(views(old(grid_equations)@), picks) && views(final(grid_equations)@)
                == mask_all(views(old(grid_equations)@), picks),
{
    let ghost before = views(grid_equations@);
    assert forall|i: int| 0 <= i < before.len() implies #[trigger] grid_equations@[i]@
        .max_occurrence() <= u32::MAX by {
        assert(grid_equations@[i]@.can_pick_number());
    }
    let picks = draw_picks(grid_equations);
    proof {
        let chosen = occurrences(picks@);
        assert forall|i: int| 0 <= i < before.len() implies (#[trigger] before[i]).span_fits() && 1
            <= chosen[i] <= count_numbers(before[i].eq.lhs) by {
            assert(grid_equations@[i]@.can_pick_number());
            assert(1 <= chosen[i] <= before[i].max_occurrence());
        }
    }
    mask_unknowns(grid_equations, &picks);
    assert(picks_drawable(before, occurrences(picks@)));
}

} // verus!
