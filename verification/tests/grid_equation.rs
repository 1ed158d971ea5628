use crossequa::equation::Equation;
use crossequa::generator::BinaryOperation;
use crossequa::generator::EquationGenerator;
use crossequa::grid_equation::GridEquation;
use crossequa::symbol::Direction;
use crossequa::symbol::Operator;
use crossequa::symbol::Symbol;

fn seven() -> Equation {
    EquationGenerator::equation_from(&vec![BinaryOperation::new(3, Operator::Add, 4)])
}

fn two_steps() -> Equation {
    EquationGenerator::equation_from(&vec![
        BinaryOperation::new(6, Operator::Multiply, 2),
        BinaryOperation::new(12, Operator::Subtract, 5),
    ])
}

#[test]
fn end_pos_of_a_horizontal_equation_of_five_cells() {
    let placed = GridEquation::new(seven(), (0, 0), Direction::Horizontal);
    assert_eq!(placed.len(), 5);
    assert_eq!(placed.end_pos(), (4, 0));
}

#[test]
fn end_pos_follows_the_axis() {
    let across = GridEquation::new(seven(), (10, 20), Direction::Horizontal);
    assert_eq!(across.end_pos(), (14, 20));
    let down = GridEquation::new(seven(), (10, 20), Direction::Vertical);
    assert_eq!(down.end_pos(), (10, 24));
    let long = GridEquation::new(two_steps(), (1, 2), Direction::Vertical);
    assert_eq!(long.len(), 7);
    assert_eq!(long.end_pos(), (1, 8));
}

#[test]
fn new_keeps_its_arguments() {
    let placed = GridEquation::new(seven(), (3, 9), Direction::Vertical);
    assert_eq!(placed.eq, seven());
    assert_eq!(placed.start_pos, (3, 9));
    assert_eq!(placed.direction, Direction::Vertical);
    assert_eq!(placed.symbols(), seven().symbols());
    assert_eq!(placed.clone(), placed);
}

#[test]
fn get_symbol_reads_the_left_side_along_the_span() {
    let (sx, sy) = (2, 5);
    let placed = GridEquation::new(seven(), (sx, sy), Direction::Horizontal);
    let symbols = placed.symbols();
    for i in 0..placed.eq.lhs().len() {
        assert_eq!(placed.get_symbol((sx + i, sy)), Some(&symbols[i]));
    }
    assert_eq!(placed.get_symbol((2, 5)), Some(&Symbol::Number(3)));
    assert_eq!(placed.get_symbol((3, 5)), Some(&Symbol::Operator(Operator::Add)));
    assert_eq!(placed.get_symbol((4, 5)), Some(&Symbol::Number(4)));
}

#[test]
fn get_symbol_skips_the_separator_behind_the_left_side() {
    let placed = GridEquation::new(seven(), (2, 5), Direction::Horizontal);
    let symbols = placed.symbols();
    assert_eq!(symbols[3], Symbol::Equals);
    assert_eq!(placed.get_symbol((5, 5)), Some(&Symbol::Number(7)));
    assert_eq!(placed.get_symbol((5, 5)), Some(&symbols[4]));
    assert_eq!(placed.get_symbol((6, 5)), None);
    assert_eq!(placed.end_pos(), (6, 5));
}

#[test]
fn get_symbol_off_the_span_is_none() {
    let (sx, sy) = (2, 5);
    let placed = GridEquation::new(seven(), (sx, sy), Direction::Horizontal);
    for i in 0..12 {
        assert_eq!(placed.get_symbol((sx + i, sy + 1)), None);
        assert_eq!(placed.get_symbol((sx + i, sy - 1)), None);
        assert_eq!(placed.get_symbol((i, 0)), None);
    }
    assert_eq!(placed.get_symbol((1, 5)), None);
    assert_eq!(placed.get_symbol((0, 5)), None);
    assert_eq!(placed.get_symbol((7, 5)), None);
    assert_eq!(placed.get_symbol((usize::MAX, 5)), None);
    assert_eq!(placed.get_symbol((2, usize::MAX)), None);
}

#[test]
fn get_symbol_on_a_vertical_equation() {
    let placed = GridEquation::new(two_steps(), (4, 1), Direction::Vertical);
    assert_eq!(placed.get_symbol((4, 1)), Some(&Symbol::Number(6)));
    assert_eq!(placed.get_symbol((4, 2)), Some(&Symbol::Operator(Operator::Multiply)));
    assert_eq!(placed.get_symbol((4, 3)), Some(&Symbol::Number(2)));
    assert_eq!(placed.get_symbol((4, 4)), Some(&Symbol::Operator(Operator::Subtract)));
    assert_eq!(placed.get_symbol((4, 5)), Some(&Symbol::Number(5)));
    assert_eq!(placed.get_symbol((4, 6)), Some(&Symbol::Number(7)));
    assert_eq!(placed.get_symbol((4, 7)), None);
    assert_eq!(placed.get_symbol((4, 0)), None);
    assert_eq!(placed.get_symbol((5, 1)), None);
    assert_eq!(placed.get_symbol((3, 3)), None);
}

#[test]
fn get_symbol_idx_reads_the_left_side() {
    let placed = GridEquation::new(two_steps(), (0, 0), Direction::Horizontal);
    assert_eq!(placed.get_symbol_idx(0), &Symbol::Number(6));
    assert_eq!(placed.get_symbol_idx(3), &Symbol::Operator(Operator::Subtract));
    assert_eq!(placed.get_symbol_idx(4), &Symbol::Number(5));
}

#[test]
fn pos_of_nth_number_finds_each_number() {
    let placed = GridEquation::new(two_steps(), (3, 8), Direction::Horizontal);
    assert_eq!(placed.pos_of_nth_number(1), Some((3, 8)));
    assert_eq!(placed.pos_of_nth_number(2), Some((5, 8)));
    assert_eq!(placed.pos_of_nth_number(3), Some((7, 8)));
    let down = GridEquation::new(two_steps(), (3, 8), Direction::Vertical);
    assert_eq!(down.pos_of_nth_number(1), Some((3, 8)));
    assert_eq!(down.pos_of_nth_number(2), Some((3, 10)));
    assert_eq!(down.pos_of_nth_number(3), Some((3, 12)));
}

#[test]
fn pos_of_nth_number_beyond_the_count_is_none() {
    let placed = GridEquation::new(two_steps(), (3, 8), Direction::Horizontal);
    assert_eq!(placed.pos_of_nth_number(4), None);
    assert_eq!(placed.pos_of_nth_number(5), None);
    assert_eq!(placed.pos_of_nth_number(usize::MAX), None);
    assert_eq!(placed.pos_of_nth_number_with_idx(4), None);
}

#[test]
fn pos_of_nth_number_zero_is_none() {
    let placed = GridEquation::new(two_steps(), (3, 8), Direction::Horizontal);
    assert_eq!(placed.pos_of_nth_number(0), None);
    assert_eq!(placed.pos_of_nth_number_with_idx(0), None);
}

#[test]
fn pos_of_nth_number_on_an_empty_left_side_is_none() {
    let bare = Equation::new(vec![], vec![Symbol::Number(5)]);
    let placed = GridEquation::new(bare, (0, 0), Direction::Horizontal);
    assert_eq!(placed.pos_of_nth_number(1), None);
    assert_eq!(placed.pos_of_nth_number_with_idx(1), None);
}

#[test]
fn pos_of_nth_number_counts_visible_numbers_only() {
    let mut placed = GridEquation::new(two_steps(), (0, 0), Direction::Horizontal);
    placed.set_symbol_idx(2, Symbol::Unknown(2));
    assert_eq!(placed.pos_of_nth_number(1), Some((0, 0)));
    assert_eq!(placed.pos_of_nth_number(2), Some((4, 0)));
    assert_eq!(placed.pos_of_nth_number(3), None);
}

#[test]
fn pos_of_nth_number_with_idx_gives_the_left_index() {
    let placed = GridEquation::new(two_steps(), (3, 8), Direction::Vertical);
    assert_eq!(placed.pos_of_nth_number_with_idx(1), Some((3, 8, 0)));
    assert_eq!(placed.pos_of_nth_number_with_idx(2), Some((3, 10, 2)));
    assert_eq!(placed.pos_of_nth_number_with_idx(3), Some((3, 12, 4)));
}

#[test]
fn occurrence_for_maps_a_draw_into_range() {
    assert_eq!(GridEquation::occurrence_for(0, 3), 1);
    assert_eq!(GridEquation::occurrence_for(1, 3), 2);
    assert_eq!(GridEquation::occurrence_for(2, 3), 1);
    assert_eq!(GridEquation::occurrence_for(7, 5), 2);
    assert_eq!(GridEquation::occurrence_for(8, 5), 3);
    assert_eq!(GridEquation::occurrence_for(9, 5), 1);
    assert_eq!(GridEquation::occurrence_for(u32::MAX, 5), 1);
    assert_eq!(GridEquation::occurrence_for(12345, 0), 1);
    assert_eq!(GridEquation::occurrence_for(12345, 1), 1);
}

#[test]
fn pos_of_rand_number_hits_a_number_of_the_left_side() {
    let placed = GridEquation::new(two_steps(), (3, 8), Direction::Horizontal);
    let mut seen = [false; 3];
    for _ in 0..500 {
        let pos = placed.pos_of_rand_number();
        let k = match pos {
            (3, 8) => 0,
            (5, 8) => 1,
            (7, 8) => 2,
            other => panic!("not the cell of a number: {:?}", other),
        };
        seen[k] = true;
        assert!(matches!(placed.get_symbol(pos), Some(Symbol::Number(_))));
    }
    assert_eq!(seen, [true; 3]);
}

#[test]
fn pos_of_rand_number_with_n_agrees_with_its_index() {
    let placed = GridEquation::new(two_steps(), (3, 8), Direction::Vertical);
    let mut seen = [false; 3];
    for _ in 0..500 {
        let (x, y, idx) = placed.pos_of_rand_number_with_n();
        assert_eq!((x, y), (3, 8 + idx));
        assert!(idx % 2 == 0 && idx < 5);
        assert!(matches!(placed.get_symbol_idx(idx), Symbol::Number(_)));
        seen[idx / 2] = true;
    }
    assert_eq!(seen, [true; 3]);
}

#[test]
fn set_symbol_replaces_the_cell_at_a_coordinate() {
    let mut placed = GridEquation::new(seven(), (2, 5), Direction::Horizontal);
    placed.set_symbol((4, 5), Symbol::Unknown(4));
    assert_eq!(placed.get_symbol((4, 5)), Some(&Symbol::Unknown(4)));
    assert_eq!(placed.get_symbol((2, 5)), Some(&Symbol::Number(3)));
    placed.set_symbol((4, 5), Symbol::Number(4));
    assert_eq!(placed, GridEquation::new(seven(), (2, 5), Direction::Horizontal));
}

#[test]
fn set_symbol_off_the_span_changes_nothing() {
    let mut placed = GridEquation::new(seven(), (2, 5), Direction::Horizontal);
    placed.set_symbol((2, 6), Symbol::Empty);
    placed.set_symbol((1, 5), Symbol::Empty);
    placed.set_symbol((0, 0), Symbol::Empty);
    placed.set_symbol((7, 5), Symbol::Empty);
    assert_eq!(placed, GridEquation::new(seven(), (2, 5), Direction::Horizontal));
}

#[test]
fn set_symbol_idx_replaces_the_left_cell() {
    let mut placed = GridEquation::new(seven(), (2, 5), Direction::Vertical);
    placed.set_symbol_idx(0, Symbol::Unknown(3));
    assert_eq!(placed.get_symbol_idx(0), &Symbol::Unknown(3));
    assert_eq!(placed.get_symbol((2, 5)), Some(&Symbol::Unknown(3)));
    assert_eq!(placed.eq.rhs(), &vec![Symbol::Number(7)]);
}

#[test]
fn contains_point_reaches_one_cell_behind_the_span() {
    let placed = GridEquation::new(seven(), (2, 5), Direction::Horizontal);
    assert!(placed.contains_point((2, 5)));
    assert!(placed.contains_point((6, 5)));
    assert!(placed.contains_point((7, 5)));
    assert!(!placed.contains_point((8, 5)));
    assert!(!placed.contains_point((1, 5)));
    assert!(!placed.contains_point((3, 4)));
    let down = GridEquation::new(seven(), (2, 5), Direction::Vertical);
    assert!(down.contains_point((2, 5)));
    assert!(down.contains_point((2, 10)));
    assert!(!down.contains_point((2, 11)));
    assert!(!down.contains_point((2, 4)));
    assert!(!down.contains_point((3, 6)));
}

#[test]
fn carried_value_is_the_number_at_the_coordinate() {
    let mut placed = GridEquation::new(seven(), (2, 5), Direction::Horizontal);
    assert_eq!(placed.carried_value((2, 5)), Some(3));
    assert_eq!(placed.carried_value((4, 5)), Some(4));
    assert_eq!(placed.carried_value((5, 5)), Some(7));
    assert_eq!(placed.carried_value((3, 5)), None);
    assert_eq!(placed.carried_value((6, 5)), None);
    assert_eq!(placed.carried_value((2, 6)), None);
    placed.set_symbol_idx(2, Symbol::Unknown(4));
    assert_eq!(placed.carried_value((4, 5)), None);
}

#[test]
fn placed_equation_as_text() {
    let placed = GridEquation::new(seven(), (0, 0), Direction::Horizontal);
    assert_eq!(placed.to_string(), "((0, 0)) - ((4, 0)): 3 + 4 = 7");
    let mut down = GridEquation::new(two_steps(), (12, 345), Direction::Vertical);
    down.set_symbol_idx(2, Symbol::Unknown(2));
    assert_eq!(down.to_string(), "((12, 345)) - ((12, 351)): 6 * x - 5 = 7");
    assert_eq!(
        down.to_string(),
        format!("({:?}) - ({:?}): {}", down.start_pos, down.end_pos(), "6 * x - 5 = 7")
    );
}

#[test]
fn span_fits_unless_the_coordinates_run_out() {
    let placed = GridEquation::new(seven(), (usize::MAX - 5, 3), Direction::Horizontal);
    assert!(placed.span_fits());
    assert_eq!(placed.end_pos(), (usize::MAX - 1, 3));
    let beyond = GridEquation::new(seven(), (usize::MAX - 4, 3), Direction::Horizontal);
    assert!(!beyond.span_fits());
    let down = GridEquation::new(seven(), (usize::MAX - 4, 3), Direction::Vertical);
    assert!(down.span_fits());
    let low = GridEquation::new(seven(), (0, usize::MAX), Direction::Vertical);
    assert!(!low.span_fits());
}
