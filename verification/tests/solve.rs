use ries_rs::expr::Expression;
use ries_rs::solve::{is_x_atom, solve_for_x_rhs_expression};

#[test]
fn test_solve_for_x_linear_add() {
    let lhs = Expression::parse("x1+").unwrap();
    let rhs = Expression::parse("3").unwrap();
    let solved = solve_for_x_rhs_expression(&lhs, &rhs).expect("solvable linear add");
    assert_eq!(solved.to_postfix(), "31-");
}

#[test]
fn test_solve_for_x_linear_mul() {
    let lhs = Expression::parse("2x*").unwrap();
    let rhs = Expression::parse("5").unwrap();
    let solved = solve_for_x_rhs_expression(&lhs, &rhs).expect("solvable linear multiply");
    assert_eq!(solved.to_postfix(), "52/");
}

#[test]
fn test_solve_for_x_unary_inverse() {
    let lhs = Expression::parse("xq").unwrap();
    let rhs = Expression::parse("2").unwrap();
    let solved = solve_for_x_rhs_expression(&lhs, &rhs).expect("solvable unary inverse");
    assert_eq!(solved.to_postfix(), "2s");
}

#[test]
fn test_solve_for_x_tan_inverse_supported() {
    let lhs = Expression::parse("xT").unwrap();
    let rhs = Expression::parse("2").unwrap();
    let solved = solve_for_x_rhs_expression(&lhs, &rhs).expect("tan inverse should be supported");
    let postfix = solved.to_postfix();
    assert!(postfix.contains('A') && postfix.contains('p') && postfix.contains('/'));
}

#[test]
fn test_solve_for_x_lambert_inverse_supported() {
    let lhs = Expression::parse("xW").unwrap();
    let rhs = Expression::parse("2").unwrap();
    let solved = solve_for_x_rhs_expression(&lhs, &rhs).expect("Lambert W inverse should be supported");
    assert_eq!(solved.to_postfix(), "22E*");
}

#[test]
fn test_solve_for_x_unsupported_falls_back() {
    let lhs = Expression::parse("xH").unwrap();
    let rhs = Expression::parse("2").unwrap();
    assert!(
        solve_for_x_rhs_expression(&lhs, &rhs).is_none(),
        "unsupported inverses should fall back to equation form"
    );
}

#[test]
fn solve_nested_and_x_atoms() {
    // (x - 2) * 3 = 9  gives  x = 9/3 + 2
    let lhs = Expression::parse("x2-3*").unwrap();
    let rhs = Expression::parse("9").unwrap();
    let solved = solve_for_x_rhs_expression(&lhs, &rhs).unwrap();
    assert_eq!(solved.to_postfix(), "93/2+");
    assert!(!solved.contains_x());
    assert!(is_x_atom(&Expression::parse("x").unwrap()));
    assert!(!is_x_atom(&Expression::parse("xn").unwrap()));
    // The variable on both sides of a binary function cannot be isolated.
    let lhs = Expression::parse("xx*").unwrap();
    assert!(solve_for_x_rhs_expression(&lhs, &rhs).is_none());
}
