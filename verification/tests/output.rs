use ries_rs::expr::{Expression, OutputFormat};
use ries_rs::output::{
    apply_explicit_multiply, decompose_subexpressions, display_format_from_lowercase,
    format_expression_for_display, parse_display_format, DisplayFormat,
};
use ries_rs::symbol::Symbol;
use std::collections::HashMap;

#[test]
fn test_parse_display_format() {
    assert!(matches!(parse_display_format("0"), DisplayFormat::PostfixCompact));
    assert!(matches!(
        parse_display_format("pretty"),
        DisplayFormat::Infix(OutputFormat::Pretty)
    ));
    assert!(matches!(
        parse_display_format("mathematica"),
        DisplayFormat::Infix(OutputFormat::Mathematica)
    ));
}

#[test]
fn display_format_names_and_codes() {
    assert_eq!(parse_display_format("1"), DisplayFormat::Condensed);
    assert_eq!(parse_display_format("3"), DisplayFormat::PostfixVerbose);
    assert_eq!(parse_display_format("MMA"), DisplayFormat::Infix(OutputFormat::Mathematica));
    assert_eq!(parse_display_format("Python"), DisplayFormat::Infix(OutputFormat::SymPy));
    assert_eq!(parse_display_format("2"), DisplayFormat::Infix(OutputFormat::Default));
    assert_eq!(display_format_from_lowercase("unicode"), DisplayFormat::Infix(OutputFormat::Pretty));
    assert_eq!(display_format_from_lowercase("Unicode"), DisplayFormat::Infix(OutputFormat::Default));
}

#[test]
fn explicit_multiply() {
    assert_eq!(apply_explicit_multiply("2 x"), "2*x");
    assert_eq!(apply_explicit_multiply("3 (x+1)"), "3*(x+1)");
    assert_eq!(apply_explicit_multiply(") pi"), ")*pi");
    assert_eq!(apply_explicit_multiply("x y"), "x y");
    assert_eq!(apply_explicit_multiply(" 2 "), " 2 ");
    assert_eq!(apply_explicit_multiply(""), "");
}

#[test]
fn display_of_an_expression() {
    let e = Expression::parse("2x*").unwrap();
    assert_eq!(
        format_expression_for_display(&e, DisplayFormat::Infix(OutputFormat::Default), false, None),
        "2*x"
    );
    assert_eq!(
        format_expression_for_display(&e, DisplayFormat::Infix(OutputFormat::Pretty), false, None),
        "2·x"
    );
    assert_eq!(
        format_expression_for_display(&e, DisplayFormat::Infix(OutputFormat::Mathematica), false, None),
        "2*x"
    );
    assert_eq!(
        format_expression_for_display(&e, DisplayFormat::Infix(OutputFormat::SymPy), false, None),
        "2*x"
    );
    assert_eq!(
        format_expression_for_display(&e, DisplayFormat::Infix(OutputFormat::Default), true, None),
        "2*x"
    );
    assert_eq!(format_expression_for_display(&e, DisplayFormat::PostfixCompact, false, None), "2x*");
    assert_eq!(format_expression_for_display(&e, DisplayFormat::Condensed, true, None), "2x*");
    let v = Expression::parse("xqn2^").unwrap();
    assert_eq!(
        format_expression_for_display(&v, DisplayFormat::PostfixVerbose, false, None),
        "x sqrt neg 2 **"
    );
    let p = Expression::parse("pq").unwrap();
    assert_eq!(
        format_expression_for_display(&p, DisplayFormat::Infix(OutputFormat::Pretty), false, None),
        "√(π)"
    );
}

#[test]
fn subexpression_steps() {
    let e = Expression::parse("x1+q2*").unwrap();
    let steps: Vec<String> = decompose_subexpressions(&e).iter().map(|s| s.to_postfix()).collect();
    assert_eq!(steps, vec!["x", "1", "x1+", "x1+q", "2", "x1+q2*"]);

    let bad = Expression::from_symbols(&[Symbol::X, Symbol::Add, Symbol::One]);
    let steps = decompose_subexpressions(&bad);
    assert_eq!(steps.len(), 1);
    assert_eq!(steps[0].to_postfix(), "x");
}

#[test]
fn display_under_names() {
    let mut names = HashMap::new();
    names.insert(Symbol::Pi.to_byte(), "π".to_string());
    names.insert(Symbol::UserConstant0.to_byte(), "gamma".to_string());
    let e = Expression::from_symbols(&[Symbol::Two, Symbol::Pi, Symbol::Mul]);
    assert_eq!(e.to_infix_with_table(&names), "2*π");
    assert_eq!(e.to_infix_with_table(&HashMap::new()), "2*pi");
    let u = Expression::from_symbols(&[Symbol::X, Symbol::UserConstant0, Symbol::Add]);
    assert_eq!(u.to_infix_with_table(&names), "x+gamma");
    let f = Expression::from_symbols(&[Symbol::X, Symbol::UserFunction0]);
    let mut fnames = HashMap::new();
    fnames.insert(Symbol::UserFunction0.to_byte(), "sinh".to_string());
    assert_eq!(f.to_infix_with_table(&fnames), "sinh(x)");
    assert_eq!(f.to_infix_with_table(&HashMap::new()), "f0(x)");
    let mut odd = HashMap::new();
    odd.insert(Symbol::Pi.to_byte(), "~".to_string());
    assert_eq!(e.to_infix_with_table(&odd), "2*~");
    // With a table, every infix format renders in the library's notation.
    assert_eq!(
        format_expression_for_display(&e, DisplayFormat::Infix(OutputFormat::Mathematica), false, Some(&names)),
        "2*π"
    );
    assert_eq!(
        format_expression_for_display(&e, DisplayFormat::Infix(OutputFormat::Default), true, Some(&names)),
        "2*π"
    );
    assert_eq!(
        format_expression_for_display(&e, DisplayFormat::PostfixCompact, false, Some(&names)),
        "2p*"
    );
}

#[test]
fn builtin_names_render_as_standard_and_steps_carry_weights() {
    let e = Expression::parse("x1+q2*p/").unwrap();
    let mut same = HashMap::new();
    for sym in e.symbols() {
        same.insert(sym.to_byte(), sym.display_name());
    }
    assert_eq!(e.to_infix_with_table(&same), e.to_infix());
    for step in decompose_subexpressions(&e) {
        let total: u32 = step.symbols().iter().map(|s| s.weight()).sum();
        assert_eq!(step.complexity(), total);
    }
}
