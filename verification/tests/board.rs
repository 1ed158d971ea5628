use crossequa::board::fill_grid;
use crossequa::board::fits_board;
use crossequa::board::CellSize;
use crossequa::board::Coordinates;
use crossequa::generator::BinaryOperation;
use crossequa::generator::EquationGenerator;
use crossequa::grid_equation::GridEquation;
use crossequa::placement::generate_grid;
use crossequa::symbol::Direction;
use crossequa::symbol::Operator;
use crossequa::symbol::Symbol;

fn placed(a: i32, op: Operator, b: i32, at: (usize, usize), direction: Direction) -> GridEquation {
    let equation = EquationGenerator::equation_from(&vec![BinaryOperation::new(a, op, b)]);
    GridEquation::new(equation, at, direction)
}

#[test]
fn coordinates_keep_their_components() {
    let c = Coordinates::new(3, -4);
    assert_eq!(c.x, 3);
    assert_eq!(c.y, -4);
    assert_eq!(c, Coordinates { x: 3, y: -4 });
    assert_ne!(c, Coordinates::new(-4, 3));
}

#[test]
fn cell_size_is_plain_data() {
    let size = CellSize { size: 60, padding: 14 };
    let copy = size;
    assert_eq!(copy.size + copy.padding, 74);
    assert_eq!(size.size, 60);
}

#[test]
fn empty_board_shows_empty_cells() {
    let grid = fill_grid(&vec![], 3);
    assert_eq!(grid, vec![vec![Symbol::Empty; 3]; 3]);
    assert_eq!(fill_grid(&vec![], 0), Vec::<Vec<Symbol>>::new());
}

#[test]
fn horizontal_equation_is_written_along_the_first_index() {
    let grid = fill_grid(&vec![placed(3, Operator::Add, 4, (1, 2), Direction::Horizontal)], 6);
    assert_eq!(grid.len(), 6);
    assert_eq!(grid[1][2], Symbol::Number(3));
    assert_eq!(grid[2][2], Symbol::Operator(Operator::Add));
    assert_eq!(grid[3][2], Symbol::Number(4));
    assert_eq!(grid[4][2], Symbol::Equals);
    assert_eq!(grid[5][2], Symbol::Number(7));
    assert_eq!(grid[0][2], Symbol::Empty);
    for x in 0..6 {
        assert_eq!(grid[x].len(), 6);
        for y in 0..6 {
            if y != 2 {
                assert_eq!(grid[x][y], Symbol::Empty);
            }
        }
    }
}

#[test]
fn vertical_equation_is_written_along_the_second_index() {
    let grid = fill_grid(&vec![placed(9, Operator::Divide, 2, (0, 0), Direction::Vertical)], 5);
    assert_eq!(
        grid[0],
        vec![
            Symbol::Number(9),
            Symbol::Operator(Operator::Divide),
            Symbol::Number(2),
            Symbol::Equals,
            Symbol::Number(4),
        ]
    );
    for x in 1..5 {
        assert_eq!(grid[x], vec![Symbol::Empty; 5]);
    }
}

#[test]
fn later_equation_overwrites_an_earlier_one() {
    let mut first = placed(3, Operator::Add, 4, (0, 0), Direction::Horizontal);
    first.set_symbol_idx(2, Symbol::Unknown(4));
    let second = placed(4, Operator::Subtract, 1, (2, 0), Direction::Vertical);
    let grid = fill_grid(&vec![first.clone(), second.clone()], 5);
    assert_eq!(grid[2][0], Symbol::Number(4));
    assert_eq!(grid[0][0], Symbol::Number(3));
    assert_eq!(grid[2][4], Symbol::Number(3));
    let grid = fill_grid(&vec![second, first], 5);
    assert_eq!(grid[2][0], Symbol::Unknown(4));
    assert_eq!(grid[2][1], Symbol::Operator(Operator::Subtract));
}

#[test]
fn fits_board_checks_every_span() {
    let across = placed(3, Operator::Add, 4, (1, 2), Direction::Horizontal);
    let down = placed(3, Operator::Add, 4, (1, 2), Direction::Vertical);
    assert!(fits_board(&vec![across.clone()], 6));
    assert!(!fits_board(&vec![across.clone()], 5));
    assert!(fits_board(&vec![down.clone()], 7));
    assert!(!fits_board(&vec![down.clone()], 6));
    assert!(!fits_board(&vec![across.clone(), down.clone()], 6));
    assert!(fits_board(&vec![across, down], 7));
    assert!(fits_board(&vec![], 0));
    let far = placed(3, Operator::Add, 4, (0, 9), Direction::Horizontal);
    assert!(!fits_board(&vec![far.clone()], 9));
    assert!(fits_board(&vec![far], 10));
    let edge = placed(3, Operator::Add, 4, (usize::MAX - 5, 0), Direction::Horizontal);
    assert!(fits_board(&vec![edge], usize::MAX));
    let beyond = placed(3, Operator::Add, 4, (usize::MAX - 4, 0), Direction::Horizontal);
    assert!(!fits_board(&vec![beyond], usize::MAX));
}

#[test]
fn board_of_a_generated_grid_shows_every_equation() {
    for _ in 0..20 {
        let puzzle = generate_grid();
        assert!(fits_board(&puzzle.0, 32));
        let grid = fill_grid(&puzzle.0, 32);
        let last = puzzle.0.last().unwrap();
        let symbols = last.symbols();
        for (i, s) in symbols.iter().enumerate() {
            let (x, y) = match last.direction {
                Direction::Horizontal => (last.start_pos.0 + i, last.start_pos.1),
                Direction::Vertical => (last.start_pos.0, last.start_pos.1 + i),
            };
            assert_eq!(&grid[x][y], s);
        }
    }
}
