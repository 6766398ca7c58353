use ries_rs::expr::Expression;
use ries_rs::infix::InfixError;
use ries_rs::symbol::Symbol;

#[test]
fn test_parse_expression() {
    let expr = Expression::parse("32+").unwrap();
    assert_eq!(expr.len(), 3);
    assert_eq!(expr.to_postfix(), "32+");
    assert!(!expr.contains_x());
}

#[test]
fn test_expression_validity() {
    assert!(Expression::parse("32+").unwrap().is_valid());
    assert!(Expression::parse("xs").unwrap().is_valid());
    assert!(Expression::parse("3+").is_none());
    assert!(Expression::parse("32").is_none());
}

#[test]
fn test_infix_conversion() {
    assert_eq!(Expression::parse("32+").unwrap().to_infix(), "3+2");
    assert_eq!(Expression::parse("32*").unwrap().to_infix(), "3*2");
    assert_eq!(Expression::parse("xs").unwrap().to_infix(), "x^2");
    assert_eq!(Expression::parse("xq").unwrap().to_infix(), "sqrt(x)");
    assert_eq!(Expression::parse("32+5*").unwrap().to_infix(), "(3+2)*5");
}

#[test]
fn test_complexity() {
    let expr = Expression::parse("xs").unwrap();
    assert_eq!(expr.complexity(), 15 + 9);
}

#[test]
fn test_tree_depth_atom() {
    assert_eq!(Expression::parse("x").unwrap().tree_depth(), 1);
    assert_eq!(Expression::parse("1").unwrap().tree_depth(), 1);
    assert_eq!(Expression::parse("p").unwrap().tree_depth(), 1);
}

#[test]
fn test_tree_depth_unary() {
    assert_eq!(Expression::parse("xq").unwrap().tree_depth(), 2);
    assert_eq!(Expression::parse("xs").unwrap().tree_depth(), 2);
    assert_eq!(Expression::parse("xn").unwrap().tree_depth(), 2);
}

#[test]
fn test_tree_depth_binary() {
    assert_eq!(Expression::parse("12+").unwrap().tree_depth(), 2);
    assert_eq!(Expression::parse("x2*").unwrap().tree_depth(), 2);
    assert_eq!(Expression::parse("x1+2*").unwrap().tree_depth(), 3);
}

#[test]
fn test_tree_depth_nested() {
    assert_eq!(Expression::parse("xqq").unwrap().tree_depth(), 3);
    assert_eq!(Expression::parse("12+34+*").unwrap().tree_depth(), 3);
}

#[test]
fn test_tree_depth_empty() {
    assert_eq!(Expression::new().tree_depth(), 0);
}

#[test]
fn test_tree_depth_malformed() {
    assert_eq!(Expression::from_symbols(&[Symbol::X, Symbol::One]).tree_depth(), 0);
}

#[test]
fn test_operator_count_atom() {
    assert_eq!(Expression::parse("x").unwrap().operator_count(), 0);
    assert_eq!(Expression::parse("1").unwrap().operator_count(), 0);
    assert_eq!(Expression::parse("p").unwrap().operator_count(), 0);
}

#[test]
fn test_operator_count_unary() {
    assert_eq!(Expression::parse("xq").unwrap().operator_count(), 1);
    assert_eq!(Expression::parse("xs").unwrap().operator_count(), 1);
    assert_eq!(Expression::parse("xn").unwrap().operator_count(), 1);
}

#[test]
fn test_operator_count_binary() {
    assert_eq!(Expression::parse("12+").unwrap().operator_count(), 1);
    assert_eq!(Expression::parse("x2*").unwrap().operator_count(), 1);
}

#[test]
fn test_operator_count_complex() {
    assert_eq!(Expression::parse("x1+2*").unwrap().operator_count(), 2);
    assert_eq!(Expression::parse("xq1+").unwrap().operator_count(), 2);
    assert_eq!(Expression::parse("12+34+*").unwrap().operator_count(), 3);
}

#[test]
fn test_operator_count_empty() {
    assert_eq!(Expression::new().operator_count(), 0);
}

#[test]
fn test_push_pop_complexity_saturating() {
    let mut expr = Expression::new();
    for _ in 0..1000 {
        expr.push(Symbol::X);
    }
    assert!(expr.complexity() < u32::MAX);
    for _ in 0..1000 {
        expr.pop();
    }
    assert_eq!(expr.complexity(), 0);
}

#[test]
fn test_try_to_infix_returns_err_on_malformed_expression() {
    let expr = Expression::from_symbols(&[Symbol::Add]);
    let result = expr.try_to_infix();
    assert!(
        result.is_err(),
        "try_to_infix on malformed expression should return Err, got Ok({:?})",
        result.ok()
    );
}

#[test]
fn test_try_to_infix_succeeds_on_valid_expression() {
    let expr = Expression::parse("32+").unwrap();
    let result = expr.try_to_infix();
    assert_eq!(result.unwrap(), "3+2");
}

#[test]
fn infix_styles_and_errors() {
    let e = Expression::parse("xp^").unwrap();
    assert_eq!(e.to_infix(), "x^pi");
    assert_eq!(e.to_infix_mathematica(), "x^Pi");
    assert_eq!(e.to_infix_sympy(), "x**pi");
    let e = Expression::parse("2xL").unwrap();
    assert_eq!(e.to_infix(), "log_2(x)");
    assert_eq!(e.to_infix_mathematica(), "Log[2, x]");
    assert_eq!(e.to_infix_sympy(), "log(x, 2)");
    assert_eq!(
        Expression::from_symbols(&[Symbol::X, Symbol::Mul]).try_to_infix(),
        Err(InfixError::StackUnderflow)
    );
}

#[test]
fn try_to_infix_refuses_any_malformed_expression() {
    let mut u = Expression::new();
    u.push(Symbol::Add);
    assert_eq!(u.try_to_infix(), Err(InfixError::StackUnderflow));
    let mut o = Expression::new();
    o.push(Symbol::One);
    o.push(Symbol::Two);
    assert_eq!(o.try_to_infix(), Err(InfixError::StackUnderflow));
    assert_eq!(Expression::new().try_to_infix(), Err(InfixError::StackUnderflow));
    assert_eq!(Expression::parse("32+").unwrap().try_to_infix(), Ok("3+2".to_string()));
}

#[test]
fn parse_rejects_unknown_bytes_and_counts_symbols() {
    assert!(Expression::parse("x!").is_none());
    assert!(Expression::parse("").is_none());
    let e = Expression::parse("xx*x+").unwrap();
    assert_eq!(e.count_symbol(Symbol::X), 3);
    assert!(e.contains_x());
    assert_eq!(e.complexity(), 15 * 3 + 4 + 4);
    let mut e = e;
    assert_eq!(e.pop(), Some(Symbol::Add));
    assert_eq!(e.to_postfix(), "xx*x");
    assert_eq!(Expression::new().pop(), None);
}

#[test]
fn parse_then_postfix_gives_the_text_back() {
    for text in ["32+", "xq", "x1+q2*", "xp^", "2xL"] {
        let e = Expression::parse(text).unwrap();
        assert_eq!(e.to_postfix(), text);
        assert_eq!(e.len(), text.len());
        assert!(e.is_valid());
    }
    assert!(Expression::parse("xé").is_none());
    assert!(Expression::parse("12").is_none());
}

#[test]
fn many_pushes_then_pops_restore_the_expression() {
    let mut e = Expression::new();
    for _ in 0..1000 {
        e.push(Symbol::X);
    }
    for _ in 0..1000 {
        assert_eq!(e.pop(), Some(Symbol::X));
    }
    assert_eq!(e.complexity(), 0);
    assert!(!e.contains_x());
    assert_eq!(e.pop(), None);
    let mut f = Expression::parse("x1+").unwrap();
    let before = f.complexity();
    f.push(Symbol::Sqrt);
    assert_eq!(f.pop(), Some(Symbol::Sqrt));
    assert_eq!(f.to_postfix(), "x1+");
    assert_eq!(f.complexity(), before);
}
