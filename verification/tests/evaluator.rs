use calculator::executor::{execute_expression_tree, Environment, ExecutionError, MathType};
use calculator::number::Number;
use calculator::tokens::generate_tokens;
use calculator::tree_builder::{build_expression_tree, Node};

fn eval_line(line: &str, env: &mut Environment) -> Result<MathType, ExecutionError> {
    let tokens = generate_tokens(&line.to_string());
    let tree = build_expression_tree(tokens).expect("the expression tree should build");
    execute_expression_tree(&tree, env)
}

fn num(n: i64, d: i64) -> MathType {
    MathType::Number(Number { num: n, den: d })
}

fn nums(parts: &[i64]) -> Vec<Number> {
    parts.iter().map(|&n| Number { num: n, den: 1 }).collect()
}

#[test]
fn literal_integer_evaluates_to_itself() {
    let mut env = Environment::default();
    assert_eq!(eval_line("42", &mut env).unwrap(), num(42, 1));
}

#[test]
fn literal_decimal_evaluates_exactly() {
    let mut env = Environment::default();
    assert_eq!(eval_line("0.5", &mut env).unwrap(), num(5, 10));
    assert_eq!(eval_line(".25", &mut env).unwrap(), num(25, 100));
    assert_eq!(eval_line("5.", &mut env).unwrap(), num(5, 1));
}

#[test]
fn multiplication_binds_before_addition() {
    let mut env = Environment::default();
    assert_eq!(eval_line("1 + 2 * 3", &mut env).unwrap(), num(7, 1));
}

#[test]
fn parentheses_override_precedence() {
    let mut env = Environment::default();
    assert_eq!(eval_line("(1 + 2) * 3", &mut env).unwrap(), num(9, 1));
}

#[test]
fn assignment_stores_and_reads_back() {
    let mut env = Environment::default();
    assert_eq!(eval_line("x = 5", &mut env).unwrap(), num(5, 1));
    assert_eq!(eval_line("x", &mut env).unwrap(), num(5, 1));
}

#[test]
fn reversed_assignment_stores_and_reads_back() {
    let mut env = Environment::default();
    assert_eq!(eval_line("5 => y", &mut env).unwrap(), num(5, 1));
    assert_eq!(eval_line("y", &mut env).unwrap(), num(5, 1));
}

#[test]
fn chained_assignment_associates_left_to_right() {
    let mut env = Environment::default();
    // Both assignment operators share one tier and one left-to-right pass,
    // so the chain groups as (a = b) = 7, whose naming side is a group:
    // the chain is rejected before any binding is made.
    let r = eval_line("a = b = 7", &mut env);
    assert!(matches!(r, Err(ExecutionError::InvalidOperation(_))));
    assert!(matches!(
        eval_line("a", &mut env),
        Err(ExecutionError::UnknownIdentifier(_))
    ));
    assert!(matches!(
        eval_line("b", &mut env),
        Err(ExecutionError::UnknownIdentifier(_))
    ));
}

#[test]
fn matrix_times_vector() {
    let mut env = Environment::default();
    // Columns of the left literal are [1,3] and [2,4]; the right literal is
    // a single column, so it collapses to a vector of length 2.
    assert_eq!(
        eval_line("[1,2;3,4] * [1;1]", &mut env).unwrap(),
        MathType::Vector(nums(&[3, 7]))
    );
}

#[test]
fn flat_comma_literal_is_a_matrix_of_single_element_columns() {
    let mut env = Environment::default();
    let expected = MathType::Matrix(vec![nums(&[1]), nums(&[2])]);
    assert_eq!(eval_line("[1,2]", &mut env).unwrap(), expected);
    // Round trip: storing and re-reading preserves the shape.
    eval_line("m = [1,2]", &mut env).unwrap();
    assert_eq!(eval_line("m", &mut env).unwrap(), expected);
}

#[test]
fn semicolon_literal_collapses_to_vector() {
    let mut env = Environment::default();
    assert_eq!(
        eval_line("[1;2;3]", &mut env).unwrap(),
        MathType::Vector(nums(&[1, 2, 3]))
    );
}

#[test]
fn parentheses_resolve_inside_bracket_literals() {
    let mut env = Environment::default();
    assert_eq!(
        eval_line("[(1+2);3]", &mut env).unwrap(),
        MathType::Vector(nums(&[3, 3]))
    );
}

#[test]
fn empty_literal_is_an_empty_vector() {
    let mut env = Environment::default();
    assert_eq!(eval_line("[]", &mut env).unwrap(), MathType::Vector(vec![]));
}

#[test]
fn mismatched_vector_addition_fails_with_shape_error() {
    let mut env = Environment::default();
    let r = eval_line("[1;2] + [1;2;3]", &mut env);
    assert!(matches!(r, Err(ExecutionError::InvalidOperation(_))));
}

#[test]
fn wrong_argument_count_fails_and_leaves_environment_unchanged() {
    let mut env = Environment::default();
    let params = Node::Tkn("x".to_string());
    let body = Node::Exp(vec![
        Node::Tkn("x".to_string()),
        Node::Tkn("+".to_string()),
        Node::Tkn("1".to_string()),
    ]);
    env.user_functions.push(("f".to_string(), (params, body)));
    let vars_before = env.user_vars.len();
    let r = eval_line("f(1,2)", &mut env);
    assert!(matches!(r, Err(ExecutionError::WrongNumFunctionArgs(1, 2))));
    assert_eq!(env.user_vars.len(), vars_before);
}

#[test]
fn user_function_applies_to_its_argument() {
    let mut env = Environment::default();
    let params = Node::Tkn("x".to_string());
    let body = Node::Exp(vec![
        Node::Tkn("x".to_string()),
        Node::Tkn("+".to_string()),
        Node::Tkn("1".to_string()),
    ]);
    env.user_functions.push(("f".to_string(), (params, body)));
    assert_eq!(eval_line("f(41)", &mut env).unwrap(), num(42, 1));
}

#[test]
fn function_call_cannot_mutate_caller_environment() {
    let mut env = Environment::default();
    let params = Node::Tkn("x".to_string());
    // The body assigns to a variable; the mutation stays in the callee's
    // copy of the environment.
    let body = Node::Exp(vec![
        Node::Tkn("t".to_string()),
        Node::Tkn("=".to_string()),
        Node::Tkn("x".to_string()),
    ]);
    env.user_functions.push(("f".to_string(), (params, body)));
    assert_eq!(eval_line("f(3)", &mut env).unwrap(), num(3, 1));
    assert!(matches!(
        eval_line("t", &mut env),
        Err(ExecutionError::UnknownIdentifier(_))
    ));
}

#[test]
fn unbounded_recursion_is_reported() {
    let mut env = Environment::default();
    let params = Node::Tkn("x".to_string());
    let body = Node::Exp(vec![
        Node::Tkn("f".to_string()),
        Node::Exp(vec![Node::Tkn("x".to_string())]),
    ]);
    env.user_functions.push(("f".to_string(), (params, body)));
    let r = eval_line("f(1)", &mut env);
    assert!(matches!(r, Err(ExecutionError::RecursionLimitExceeded)));
}

#[test]
fn leading_operator_continues_the_previous_result() {
    let mut env = Environment::default();
    // A fresh environment seeds ans with zero, so "+5" means "ans + 5".
    assert_eq!(eval_line("+5", &mut env).unwrap(), num(5, 1));
    // After ans is rebound, the continuation uses the new value.
    eval_line("ans = 10", &mut env).unwrap();
    assert_eq!(eval_line("* 3", &mut env).unwrap(), num(30, 1));
}

#[test]
fn implicit_call_binds_tighter_than_addition() {
    let mut env = Environment::default();
    let params = Node::Tkn("x".to_string());
    let body = Node::Exp(vec![
        Node::Tkn("x".to_string()),
        Node::Tkn("+".to_string()),
        Node::Tkn("1".to_string()),
    ]);
    env.user_functions.push(("f".to_string(), (params, body)));
    // Juxtaposition groups before the precedence tiers fold.
    assert_eq!(eval_line("f (2) + 1", &mut env).unwrap(), num(4, 1));
}

#[test]
fn unary_minus_negates() {
    let mut env = Environment::default();
    assert_eq!(eval_line("2 * -3", &mut env).unwrap(), num(-6, 1));
}

#[test]
fn division_is_exact() {
    let mut env = Environment::default();
    assert_eq!(eval_line("1/3", &mut env).unwrap(), num(1, 3));
    assert_eq!(eval_line("(1/3) * 3", &mut env).unwrap(), num(3, 3));
}

#[test]
fn division_by_zero_is_an_error() {
    let mut env = Environment::default();
    assert!(matches!(
        eval_line("1/0", &mut env),
        Err(ExecutionError::DivisionByZero)
    ));
}

#[test]
fn power_with_integer_exponent() {
    let mut env = Environment::default();
    assert_eq!(eval_line("2^10", &mut env).unwrap(), num(1024, 1));
    // The sign must be its own token: "^-" would lex as one symbol run.
    assert_eq!(eval_line("2 ^ -2", &mut env).unwrap(), num(1, 4));
}

#[test]
fn power_with_fractional_exponent_is_an_error() {
    let mut env = Environment::default();
    assert!(matches!(
        eval_line("2^0.5", &mut env),
        Err(ExecutionError::InvalidOperation(_))
    ));
}

#[test]
fn overflow_is_reported() {
    let mut env = Environment::default();
    assert!(matches!(
        eval_line("9223372036854775807 * 2", &mut env),
        Err(ExecutionError::NumericOverflow)
    ));
}

#[test]
fn unknown_identifier_is_reported() {
    let mut env = Environment::default();
    assert!(matches!(
        eval_line("nosuchname", &mut env),
        Err(ExecutionError::UnknownIdentifier(_))
    ));
}

#[test]
fn unknown_operator_is_reported() {
    let mut env = Environment::default();
    // A ternary group whose middle token is no known operator; the builder
    // itself never makes one, so the tree is put together by hand.
    let tree = Node::Exp(vec![
        Node::Tkn("1".to_string()),
        Node::Tkn("%".to_string()),
        Node::Tkn("2".to_string()),
    ]);
    let r = execute_expression_tree(&tree, &mut env);
    assert!(matches!(r, Err(ExecutionError::UnknownOperator(op)) if op == "%"));
}

#[test]
fn reserved_double_slash_does_not_alias_to_division() {
    let mut env = Environment::default();
    assert!(matches!(
        eval_line("4 // 2", &mut env),
        Err(ExecutionError::InvalidOperation(_))
    ));
}

#[test]
fn vector_inside_literal_is_rejected() {
    let mut env = Environment::default();
    eval_line("v = [1;2]", &mut env).unwrap();
    assert!(matches!(
        eval_line("[v]", &mut env),
        Err(ExecutionError::InvalidVectorContents(_))
    ));
}

#[test]
fn ragged_literal_is_rejected() {
    let mut env = Environment::default();
    assert!(matches!(
        eval_line("[1,2;3]", &mut env),
        Err(ExecutionError::MatrixUnequalRowLengths)
    ));
}

#[test]
fn assignment_to_a_group_is_rejected() {
    let mut env = Environment::default();
    assert!(matches!(
        eval_line("(1+2) = 5", &mut env),
        Err(ExecutionError::InvalidOperation(_))
    ));
}

#[test]
fn empty_line_yields_zero() {
    let mut env = Environment::default();
    assert_eq!(eval_line("", &mut env).unwrap(), num(0, 1));
}

#[test]
fn seeded_constants_are_present() {
    let mut env = Environment::default();
    assert_eq!(
        eval_line("pi", &mut env).unwrap(),
        num(3141592653589793, 1000000000000000)
    );
    assert_eq!(
        eval_line("e", &mut env).unwrap(),
        num(2718281828459045, 1000000000000000)
    );
    assert_eq!(eval_line("ans", &mut env).unwrap(), num(0, 1));
}

#[test]
fn partial_assignments_persist_after_a_later_error() {
    let mut env = Environment::default();
    // The first operand commits its assignment before the second fails.
    let r = eval_line("(q = 3) + nosuchname", &mut env);
    assert!(r.is_err());
    assert_eq!(eval_line("q", &mut env).unwrap(), num(3, 1));
}
