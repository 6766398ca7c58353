//! The numeric class of a value computed while evaluating an expression:
//! integers, rationals, constructible, algebraic, Liouvillian or any real.
//!
//! Evaluation computes values in floating point; the class of each value
//! follows from the classes of its operands by the rules here.

use vstd::prelude::*;
use crate::symbol::{NumType, Symbol};

verus! {

/// The class of the value that a built-in constant or `x` pushes; user
/// constants (and other symbols) have no built-in class.
pub open spec fn leaf_class_of(sym: Symbol) -> Option<NumType> {
    match sym {
        Symbol::One | Symbol::Two | Symbol::Three | Symbol::Four | Symbol::Five | Symbol::Six
        | Symbol::Seven | Symbol::Eight | Symbol::Nine | Symbol::X => Some(NumType::Integer),
        Symbol::Phi | Symbol::Plastic => Some(NumType::Algebraic),
        Symbol::Pi | Symbol::E | Symbol::Gamma | Symbol::Apery | Symbol::Catalan => Some(
            NumType::Transcendental,
        ),
        _ => None,
    }
}

/// The class of a function of one argument applied to a value of class `a`.
pub open spec fn unary_class_of(op: Symbol, a: NumType) -> NumType {
    match op {
        Symbol::Neg | Symbol::Square => a,
        Symbol::Recip => if a == NumType::Integer {
            NumType::Rational
        } else {
            a
        },
        Symbol::Sqrt => if a.rank_of() >= NumType::Constructible.rank_of() {
            NumType::Constructible
        } else {
            a
        },
        _ => NumType::Transcendental,
    }
}

/// The class of a function of two arguments applied to values of classes
/// `a` and `b`.
pub open spec fn binary_class_of(op: Symbol, a: NumType, b: NumType) -> NumType {
    match op {
        Symbol::Add | Symbol::Sub | Symbol::Mul => a.combined(b),
        Symbol::Div => if a.combined(b) == NumType::Integer {
            NumType::Rational
        } else {
            a.combined(b)
        },
        Symbol::Pow => if b == NumType::Integer {
            a
        } else {
            NumType::Transcendental
        },
        Symbol::Root => NumType::Algebraic,
        _ => NumType::Transcendental,
    }
}

/// The class of the value that a built-in constant or `x` pushes.
pub fn leaf_class(sym: Symbol) -> (r: Option<NumType>)
    ensures
        r == leaf_class_of(sym),
{
    match sym {
        Symbol::One | Symbol::Two | Symbol::Three | Symbol::Four | Symbol::Five | Symbol::Six
        | Symbol::Seven | Symbol::Eight | Symbol::Nine | Symbol::X => Some(NumType::Integer),
        Symbol::Phi | Symbol::Plastic => Some(NumType::Algebraic),
        Symbol::Pi | Symbol::E | Symbol::Gamma | Symbol::Apery | Symbol::Catalan => Some(
            NumType::Transcendental,
        ),
        _ => None,
    }
}

/// The class of a function of one argument applied to a value of class `a`.
pub fn unary_class(op: Symbol, a: NumType) -> (r: NumType)
    ensures
        r == unary_class_of(op, a),
{
    match op {
        Symbol::Neg | Symbol::Square => a,
        Symbol::Recip => if a == NumType::Integer {
            NumType::Rational
        } else {
            a
        },
        Symbol::Sqrt => if a.at_least(NumType::Constructible) {
            NumType::Constructible
        } else {
            a
        },
        _ => NumType::Transcendental,
    }
}

/// The class of a function of two arguments applied to values of classes
/// `a` and `b`.
pub fn binary_class(op: Symbol, a: NumType, b: NumType) -> (r: NumType)
    ensures
        r == binary_class_of(op, a, b),
{
    match op {
        Symbol::Add | Symbol::Sub | Symbol::Mul => a.combine(b),
        Symbol::Div => {
            let c = a.combine(b);
            if c == NumType::Integer {
                NumType::Rational
            } else {
                c
            }
        },
        Symbol::Pow => if b == NumType::Integer {
            a
        } else {
            NumType::Transcendental
        },
        Symbol::Root => NumType::Algebraic,
        _ => NumType::Transcendental,
    }
}

} // verus!
