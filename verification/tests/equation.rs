use crossequa::equation::Equation;
use crossequa::generator::BinaryOperation;
use crossequa::generator::EquationGenerator;
use crossequa::symbol::Direction;
use crossequa::symbol::Operator;
use crossequa::symbol::Symbol;
use crossequa::text::join_symbols;

fn three_plus_four() -> Equation {
    EquationGenerator::equation_from(&vec![BinaryOperation::new(3, Operator::Add, 4)])
}

/// Value of a left-hand side, evaluated pairwise from left to right.
fn value_of(lhs: &[Symbol]) -> i32 {
    let operand = |s: &Symbol| match s {
        Symbol::Number(v) | Symbol::Unknown(v) => *v,
        other => panic!("not an operand: {:?}", other),
    };
    let mut value = operand(&lhs[0]);
    let mut i = 1;
    while i + 1 < lhs.len() {
        let b = operand(&lhs[i + 1]);
        value = match lhs[i] {
            Symbol::Operator(Operator::Add) => value + b,
            Symbol::Operator(Operator::Subtract) => value - b,
            Symbol::Operator(Operator::Multiply) => value * b,
            Symbol::Operator(Operator::Divide) => value / b,
            other => panic!("not an operator: {:?}", other),
        };
        i += 2;
    }
    value
}

#[test]
fn forced_addition_yields_three_plus_four_equals_seven() {
    let equation = three_plus_four();
    assert_eq!(
        equation.lhs(),
        &vec![Symbol::Number(3), Symbol::Operator(Operator::Add), Symbol::Number(4)]
    );
    assert_eq!(equation.rhs(), &vec![Symbol::Number(7)]);
    assert_eq!(
        equation,
        Equation::new(
            vec![Symbol::Number(3), Symbol::Operator(Operator::Add), Symbol::Number(4)],
            vec![Symbol::Number(7)]
        )
    );
}

#[test]
fn symbols_put_the_separator_between_the_sides() {
    let equation = three_plus_four();
    assert_eq!(
        equation.symbols(),
        vec![
            Symbol::Number(3),
            Symbol::Operator(Operator::Add),
            Symbol::Number(4),
            Symbol::Equals,
            Symbol::Number(7),
        ]
    );
}

#[test]
fn symbols_joined_with_spaces_read_as_the_equation() {
    let equation = three_plus_four();
    let joined = equation
        .symbols()
        .iter()
        .map(|s| s.to_string())
        .collect::<Vec<_>>()
        .join(" ");
    assert_eq!(joined, "3 + 4 = 7");
    assert_eq!(join_symbols(&equation.symbols()), "3 + 4 = 7");
}

#[test]
fn len_counts_both_sides_and_the_separator() {
    let equation = three_plus_four();
    assert_eq!(equation.len(), 5);
    assert_eq!(equation.len(), equation.lhs().len() + equation.rhs().len() + 1);
    let lopsided = Equation::new(vec![], vec![Symbol::Number(1), Symbol::Number(2)]);
    assert_eq!(lopsided.len(), 3);
    assert_eq!(Equation::new(vec![], vec![]).len(), 1);
}

#[test]
fn len_of_generated_equations_is_both_sides_plus_one() {
    for ops in 1..6u32 {
        for _ in 0..50 {
            let equation = EquationGenerator::generate_equation(None, ops);
            assert_eq!(equation.len(), equation.lhs().len() + equation.rhs().len() + 1);
            assert_eq!(equation.lhs().len(), 2 * ops as usize + 1);
            assert_eq!(equation.rhs().len(), 1);
            assert_eq!(equation.symbols().len(), equation.len());
        }
    }
}

#[test]
fn nth_reads_the_left_side_then_the_right_side() {
    let equation = three_plus_four();
    assert_eq!(equation.nth(0), Some(&Symbol::Number(3)));
    assert_eq!(equation.nth(1), Some(&Symbol::Operator(Operator::Add)));
    assert_eq!(equation.nth(2), Some(&Symbol::Number(4)));
    assert_eq!(equation.nth(3), Some(&Symbol::Number(7)));
    for o in 0..equation.len() - 1 {
        let direct = if o < equation.lhs().len() {
            &equation.lhs()[o]
        } else {
            &equation.rhs()[o - equation.lhs().len()]
        };
        assert_eq!(equation.nth(o), Some(direct));
    }
}

#[test]
fn nth_never_yields_the_separator() {
    let equation = three_plus_four();
    assert_eq!(equation.nth(equation.len() - 1), None);
    assert_eq!(equation.nth(equation.len()), None);
    assert_eq!(equation.nth(usize::MAX), None);
    for o in 0..10 {
        assert_ne!(equation.nth(o), Some(&Symbol::Equals));
    }
}

#[test]
fn nth_round_trips_on_generated_equations() {
    for _ in 0..50 {
        let equation = EquationGenerator::generate_equation(None, 3);
        for o in 0..equation.len() - 1 {
            let direct = if o < equation.lhs().len() {
                equation.lhs()[o]
            } else {
                equation.rhs()[o - equation.lhs().len()]
            };
            assert_eq!(equation.nth(o), Some(&direct));
        }
        assert_eq!(equation.nth(equation.len() - 1), None);
    }
}

#[test]
fn set_lhs_replaces_one_cell() {
    let mut equation = three_plus_four();
    equation.set_lhs(2, Symbol::Unknown(4));
    assert_eq!(
        equation.lhs(),
        &vec![Symbol::Number(3), Symbol::Operator(Operator::Add), Symbol::Unknown(4)]
    );
    assert_eq!(equation.rhs(), &vec![Symbol::Number(7)]);
}

#[test]
fn clone_keeps_both_sides() {
    let equation = three_plus_four();
    let copy = equation.clone();
    assert_eq!(copy, equation);
    assert_eq!(copy.symbols(), equation.symbols());
}

#[test]
fn operators_compute_exact_values() {
    assert_eq!(Operator::Add.compute(3, 4), 7);
    assert_eq!(Operator::Subtract.compute(3, 4), -1);
    assert_eq!(Operator::Multiply.compute(3, 4), 12);
    assert_eq!(Operator::Divide.compute(12, 4), 3);
    assert_eq!(Operator::Add.compute(i32::MAX - 1, 1), i32::MAX);
    assert_eq!(Operator::Subtract.compute(i32::MIN + 1, 1), i32::MIN);
}

#[test]
fn division_truncates_toward_zero() {
    assert_eq!(Operator::Divide.compute(7, 2), 3);
    assert_eq!(Operator::Divide.compute(-7, 2), -3);
    assert_eq!(Operator::Divide.compute(7, -2), -3);
    assert_eq!(Operator::Divide.compute(-7, -2), 3);
    assert_eq!(Operator::Divide.compute(1, 9), 0);
    assert_eq!(Operator::Divide.compute(-1, 9), 0);
    assert_eq!(Operator::Divide.compute(i32::MIN, 1), i32::MIN);
}

#[test]
fn binary_operation_holds_its_operands_and_value() {
    let op = BinaryOperation::new(9, Operator::Divide, 4);
    assert_eq!(op.num1, 9);
    assert_eq!(op.operator, Operator::Divide);
    assert_eq!(op.num2, 4);
    assert_eq!(op.result, 2);
    assert_eq!(BinaryOperation::new(-5, Operator::Multiply, 9).result, -45);
}

#[test]
fn generated_operations_are_arithmetically_correct() {
    for i in 0..4u32 {
        for prev in [None, Some(0), Some(7), Some(-13), Some(1000), Some(-238609294), Some(238609294)] {
            if i > 0 && prev.is_none() {
                continue;
            }
            for _ in 0..200 {
                let op = EquationGenerator::generate_operation(i, prev);
                let expected = match op.operator {
                    Operator::Add => op.num1 + op.num2,
                    Operator::Subtract => op.num1 - op.num2,
                    Operator::Multiply => op.num1 * op.num2,
                    Operator::Divide => op.num1 / op.num2,
                };
                assert_eq!(op.result, expected);
            }
        }
    }
}

#[test]
fn generated_operands_are_in_range() {
    for _ in 0..500 {
        let op = EquationGenerator::generate_operation(0, None);
        assert!((1..10).contains(&op.num1));
        assert!((1..10).contains(&op.num2));
        let op = EquationGenerator::generate_operation(0, Some(42));
        assert_eq!(op.num1, 42);
        assert!((1..10).contains(&op.num2));
    }
}

#[test]
fn operands_drawn_at_random_vary() {
    let mut seen_left = [false; 10];
    let mut seen_right = [false; 10];
    for _ in 0..2000 {
        let op = EquationGenerator::generate_operation(0, None);
        seen_left[op.num1 as usize] = true;
        seen_right[op.num2 as usize] = true;
    }
    assert!(!seen_left[0] && !seen_right[0]);
    for v in 1..10 {
        assert!(seen_left[v], "left operand {v} never drawn");
        assert!(seen_right[v], "right operand {v} never drawn");
    }
}

#[test]
fn every_operator_is_drawn_at_the_first_step() {
    let mut seen = [false; 4];
    for _ in 0..2000 {
        let op = EquationGenerator::generate_operation(0, None);
        let k = match op.operator {
            Operator::Add => 0,
            Operator::Subtract => 1,
            Operator::Multiply => 2,
            Operator::Divide => 3,
        };
        seen[k] = true;
    }
    assert_eq!(seen, [true; 4]);
}

#[test]
fn later_steps_only_add_or_subtract() {
    let mut seen_add = false;
    let mut seen_subtract = false;
    for i in 1..5u32 {
        for _ in 0..500 {
            let op = EquationGenerator::generate_operation(i, Some(20));
            match op.operator {
                Operator::Add => seen_add = true,
                Operator::Subtract => seen_subtract = true,
                other => panic!("step {i} drew {:?}", other),
            }
        }
    }
    assert!(seen_add && seen_subtract);
}

#[test]
fn operator_choices_depend_on_step_and_right_operand() {
    assert_eq!(
        EquationGenerator::operator_choices(0, 5),
        vec![Operator::Add, Operator::Subtract, Operator::Multiply, Operator::Divide]
    );
    assert_eq!(
        EquationGenerator::operator_choices(0, 0),
        vec![Operator::Add, Operator::Subtract, Operator::Multiply]
    );
    assert_eq!(EquationGenerator::operator_choices(1, 5), vec![Operator::Add, Operator::Subtract]);
    assert_eq!(EquationGenerator::operator_choices(7, 0), vec![Operator::Add, Operator::Subtract]);
}

#[test]
fn generated_equation_is_balanced() {
    for ops in 1..5u32 {
        for _ in 0..200 {
            let equation = EquationGenerator::generate_equation(None, ops);
            assert_eq!(equation.rhs(), &vec![Symbol::Number(value_of(equation.lhs()))]);
        }
    }
}

#[test]
fn generated_equation_alternates_numbers_and_operators() {
    for _ in 0..200 {
        let equation = EquationGenerator::generate_equation(None, 3);
        for (j, s) in equation.lhs().iter().enumerate() {
            if j % 2 == 0 {
                assert!(matches!(s, Symbol::Number(_)));
            } else {
                assert!(matches!(s, Symbol::Operator(_)));
            }
            if j >= 2 && j % 2 == 0 {
                assert!(matches!(s, Symbol::Number(v) if (1..10).contains(v)));
            }
            if j >= 3 && j % 2 == 1 {
                assert!(matches!(
                    s,
                    Symbol::Operator(Operator::Add) | Symbol::Operator(Operator::Subtract)
                ));
            }
        }
    }
}

#[test]
fn generated_equation_starts_from_the_running_result() {
    for start in [-50, 0, 5, 9, 1234] {
        for _ in 0..50 {
            let equation = EquationGenerator::generate_equation(Some(start), 2);
            assert_eq!(equation.lhs()[0], Symbol::Number(start));
            assert_eq!(equation.lhs().len(), 5);
            assert_eq!(equation.rhs(), &vec![Symbol::Number(value_of(equation.lhs()))]);
        }
    }
    for _ in 0..50 {
        let equation = EquationGenerator::generate_equation(None, 2);
        assert!(matches!(equation.lhs()[0], Symbol::Number(v) if (1..10).contains(&v)));
    }
}

#[test]
fn equation_from_spells_out_a_chain() {
    let ops = vec![
        BinaryOperation::new(8, Operator::Divide, 3),
        BinaryOperation::new(2, Operator::Subtract, 9),
        BinaryOperation::new(-7, Operator::Add, 1),
    ];
    let equation = EquationGenerator::equation_from(&ops);
    assert_eq!(
        equation.lhs(),
        &vec![
            Symbol::Number(8),
            Symbol::Operator(Operator::Divide),
            Symbol::Number(3),
            Symbol::Operator(Operator::Subtract),
            Symbol::Number(9),
            Symbol::Operator(Operator::Add),
            Symbol::Number(1),
        ]
    );
    assert_eq!(equation.rhs(), &vec![Symbol::Number(-6)]);
    assert_eq!(join_symbols(&equation.symbols()), "8 / 3 - 9 + 1 = -6");
}

#[test]
fn direction_flips_between_the_axes() {
    assert_eq!(Direction::Horizontal.flipped(), Direction::Vertical);
    assert_eq!(Direction::Vertical.flipped(), Direction::Horizontal);
    assert_eq!(Direction::Horizontal.flipped().flipped(), Direction::Horizontal);
}

#[test]
fn symbol_texts() {
    assert_eq!(Symbol::Number(0).to_string(), "0");
    assert_eq!(Symbol::Number(7).to_string(), "7");
    assert_eq!(Symbol::Number(10).to_string(), "10");
    assert_eq!(Symbol::Number(-45).to_string(), "-45");
    assert_eq!(Symbol::Number(i32::MAX).to_string(), "2147483647");
    assert_eq!(Symbol::Number(i32::MIN).to_string(), "-2147483648");
    assert_eq!(Symbol::Operator(Operator::Add).to_string(), "+");
    assert_eq!(Symbol::Operator(Operator::Subtract).to_string(), "-");
    assert_eq!(Symbol::Operator(Operator::Multiply).to_string(), "*");
    assert_eq!(Symbol::Operator(Operator::Divide).to_string(), "/");
    assert_eq!(Symbol::Equals.to_string(), "=");
    assert_eq!(Symbol::Unknown(12).to_string(), "x");
    assert_eq!(Symbol::Empty.to_string(), " ");
}

#[test]
fn operator_glyphs() {
    assert_eq!(Operator::Add.to_string(), "+");
    assert_eq!(Operator::Subtract.to_string(), "-");
    assert_eq!(Operator::Multiply.to_string(), "*");
    assert_eq!(Operator::Divide.to_string(), "/");
}

#[test]
fn number_texts_match_the_standard_notation() {
    for v in [-100000, -1001, -10, -9, -1, 0, 1, 9, 10, 11, 99, 100, 101, 65535, 1_000_000] {
        assert_eq!(Symbol::Number(v).to_string(), format!("{v}"));
    }
}

#[test]
fn joining_no_symbols_gives_an_empty_text() {
    assert_eq!(join_symbols(&vec![]), "");
    assert_eq!(join_symbols(&vec![Symbol::Unknown(3)]), "x");
    assert_eq!(join_symbols(&vec![Symbol::Empty, Symbol::Empty]), "   ");
}
