//! Infix renderings of postfix expressions.
//!
//! The meaning of a rendering is stated over expression trees (see
//! `crate::tree`): each tree node is written from the texts of its subtrees,
//! with parentheses where the precedence of a subtree is lower than the
//! position needs. The exec code reads the postfix symbols with a stack of
//! partial texts and is proved to produce the text of the top tree.

use vstd::prelude::*;
use crate::expr::{Expression, OutputFormat};
use crate::symbol::{Seft, Symbol};
use crate::text::{chars_to_string, push_all};
use crate::tree::{lemma_valid_iff_tree, parse_tree, postfix_stack, Tree};

verus! {

/// Precedence of atoms and function calls.
pub const PREC_ATOM: u8 = 100;
/// Precedence of powers (right-associative).
pub const PREC_POWER: u8 = 9;
/// Precedence of prefix negation.
pub const PREC_UNARY: u8 = 8;
/// Precedence of multiplication and division.
pub const PREC_MUL: u8 = 6;
/// Precedence of addition and subtraction.
pub const PREC_ADD: u8 = 4;

/// The syntax that an infix rendering follows.
#[derive(Debug, Clone, Copy, PartialEq, Eq, Structural)]
pub enum InfixStyle {
    /// The library's own notation (`sqrt(x)`, `x^2`, `log_a(b)`).
    Standard,
    /// Mathematica syntax (`Sqrt[x]`, `Log[a, b]`).
    Mathematica,
    /// SymPy syntax (`sqrt(x)`, `x**2`, `log(b, a)`).
    SymPy,
}

/// Error of an infix rendering.
#[derive(Debug, Clone, Copy, PartialEq, Eq, Structural)]
pub enum InfixError {
    /// A function symbol found fewer operands on the stack than it needs.
    StackUnderflow,
}

/// Whether an operand of precedence `child` needs parentheses under an
/// operator of precedence `parent`.
pub open spec fn needs_paren(parent: u8, child: u8, right_assoc: bool, right_operand: bool) -> bool {
    child < parent || (right_assoc && right_operand && child == parent)
}

/// The operand text `s`, parenthesized when its precedence requires it.
pub open spec fn wrap(s: Seq<char>, prec: u8, parent: u8, right_assoc: bool, right_operand: bool) -> Seq<char> {
    if needs_paren(parent, prec, right_assoc, right_operand) {
        seq!['('] + s + seq![')']
    } else {
        s
    }
}

/// Whether `c` is an ASCII decimal digit.
pub open spec fn is_digit_char(c: char) -> bool {
    '0' <= c <= '9'
}

/// Whether `c` is an ASCII letter.
pub open spec fn is_letter_char(c: char) -> bool {
    ('a' <= c <= 'z') || ('A' <= c <= 'Z')
}

/// Text of a constant or of the variable.
pub open spec fn leaf_text(sym: Symbol, style: InfixStyle) -> Seq<char> {
    match style {
        InfixStyle::Standard => sym.name_of(),
        InfixStyle::Mathematica => match sym {
            Symbol::Pi => seq!['P', 'i'],
            Symbol::E => seq!['E'],
            Symbol::Phi => seq!['G', 'o', 'l', 'd', 'e', 'n', 'R', 'a', 't', 'i', 'o'],
            Symbol::Gamma => seq!['E', 'u', 'l', 'e', 'r', 'G', 'a', 'm', 'm', 'a'],
            Symbol::Apery => seq!['Z', 'e', 't', 'a', '[', '3', ']'],
            Symbol::Catalan => seq!['C', 'a', 't', 'a', 'l', 'a', 'n'],
            _ => sym.name_of(),
        },
        InfixStyle::SymPy => match sym {
            Symbol::Pi => seq!['p', 'i'],
            Symbol::E => seq!['E'],
            Symbol::Phi => seq!['G', 'o', 'l', 'd', 'e', 'n', 'R', 'a', 't', 'i', 'o'],
            Symbol::Gamma => seq!['E', 'u', 'l', 'e', 'r', 'G', 'a', 'm', 'm', 'a'],
            Symbol::Apery => seq!['z', 'e', 't', 'a', '(', '3', ')'],
            Symbol::Catalan => seq!['C', 'a', 't', 'a', 'l', 'a', 'n'],
            _ => sym.name_of(),
        },
    }
}

/// Text of a function of one argument applied to an operand of text `arg`
/// and precedence `prec`.
pub open spec fn unary_text(op: Symbol, arg: Seq<char>, prec: u8, style: InfixStyle) -> Seq<char> {
    match style {
        InfixStyle::Standard => match op {
            Symbol::Neg => seq!['-'] + wrap(arg, prec, PREC_UNARY, false, false),
            Symbol::Recip => seq!['1', '/'] + wrap(arg, prec, PREC_MUL, false, false),
            Symbol::Sqrt => seq!['s', 'q', 'r', 't', '('] + arg + seq![')'],
            Symbol::Square => wrap(arg, prec, PREC_POWER, false, false) + seq!['^', '2'],
            Symbol::Ln => seq!['l', 'n', '('] + arg + seq![')'],
            Symbol::Exp => seq!['e', '^'] + wrap(arg, prec, PREC_POWER, true, true),
            Symbol::SinPi => seq!['s', 'i', 'n', 'p', 'i', '('] + arg + seq![')'],
            Symbol::CosPi => seq!['c', 'o', 's', 'p', 'i', '('] + arg + seq![')'],
            Symbol::TanPi => seq!['t', 'a', 'n', 'p', 'i', '('] + arg + seq![')'],
            Symbol::LambertW => seq!['W', '('] + arg + seq![')'],
            Symbol::UserFunction0 | Symbol::UserFunction1 | Symbol::UserFunction2 | Symbol::UserFunction3 | Symbol::UserFunction4 | Symbol::UserFunction5 | Symbol::UserFunction6 | Symbol::UserFunction7 | Symbol::UserFunction8 | Symbol::UserFunction9 | Symbol::UserFunction10 | Symbol::UserFunction11 | Symbol::UserFunction12 | Symbol::UserFunction13 | Symbol::UserFunction14 | Symbol::UserFunction15 => op.name_of() + seq!['('] + arg + seq![')'],
            _ => seq!['?'],
        },
        InfixStyle::Mathematica => match op {
            Symbol::Neg => seq!['-'] + wrap(arg, prec, PREC_UNARY, false, false),
            Symbol::Recip => seq!['1', '/'] + wrap(arg, prec, PREC_MUL, false, false),
            Symbol::Sqrt => seq!['S', 'q', 'r', 't', '['] + arg + seq![']'],
            Symbol::Square => wrap(arg, prec, PREC_POWER, false, false) + seq!['^', '2'],
            Symbol::Ln => seq!['L', 'o', 'g', '['] + arg + seq![']'],
            Symbol::Exp => seq!['E', 'x', 'p', '['] + arg + seq![']'],
            Symbol::SinPi => seq!['S', 'i', 'n', '[', 'P', 'i', '*'] + arg + seq![']'],
            Symbol::CosPi => seq!['C', 'o', 's', '[', 'P', 'i', '*'] + arg + seq![']'],
            Symbol::TanPi => seq!['T', 'a', 'n', '[', 'P', 'i', '*'] + arg + seq![']'],
            Symbol::LambertW => seq!['P', 'r', 'o', 'd', 'u', 'c', 't', 'L', 'o', 'g', '['] + arg + seq![']'],
            Symbol::UserFunction0 | Symbol::UserFunction1 | Symbol::UserFunction2 | Symbol::UserFunction3 | Symbol::UserFunction4 | Symbol::UserFunction5 | Symbol::UserFunction6 | Symbol::UserFunction7 | Symbol::UserFunction8 | Symbol::UserFunction9 | Symbol::UserFunction10 | Symbol::UserFunction11 | Symbol::UserFunction12 | Symbol::UserFunction13 | Symbol::UserFunction14 | Symbol::UserFunction15 => op.name_of() + seq!['['] + arg + seq![']'],
            _ => seq!['?'],
        },
        InfixStyle::SymPy => match op {
            Symbol::Neg => seq!['-'] + wrap(arg, prec, PREC_UNARY, false, false),
            Symbol::Recip => seq!['1', '/'] + wrap(arg, prec, PREC_MUL, false, false),
            Symbol::Sqrt => seq!['s', 'q', 'r', 't', '('] + arg + seq![')'],
            Symbol::Square => wrap(arg, prec, PREC_POWER, false, false) + seq!['*', '*', '2'],
            Symbol::Ln => seq!['l', 'o', 'g', '('] + arg + seq![')'],
            Symbol::Exp => seq!['e', 'x', 'p', '('] + arg + seq![')'],
            Symbol::SinPi => seq!['s', 'i', 'n', '(', 'p', 'i', '*'] + arg + seq![')'],
            Symbol::CosPi => seq!['c', 'o', 's', '(', 'p', 'i', '*'] + arg + seq![')'],
            Symbol::TanPi => seq!['t', 'a', 'n', '(', 'p', 'i', '*'] + arg + seq![')'],
            Symbol::LambertW => seq!['l', 'a', 'm', 'b', 'e', 'r', 't', 'w', '('] + arg + seq![')'],
            Symbol::UserFunction0 | Symbol::UserFunction1 | Symbol::UserFunction2 | Symbol::UserFunction3 | Symbol::UserFunction4 | Symbol::UserFunction5 | Symbol::UserFunction6 | Symbol::UserFunction7 | Symbol::UserFunction8 | Symbol::UserFunction9 | Symbol::UserFunction10 | Symbol::UserFunction11 | Symbol::UserFunction12 | Symbol::UserFunction13 | Symbol::UserFunction14 | Symbol::UserFunction15 => op.name_of() + seq!['('] + arg + seq![')'],
            _ => seq!['?'],
        },
    }
}

/// Text and precedence of a function of two arguments applied to operands
/// of texts `a`, `b` and precedences `pa`, `pb`.
pub open spec fn binary_text(
    op: Symbol,
    a: Seq<char>,
    pa: u8,
    b: Seq<char>,
    pb: u8,
    style: InfixStyle,
) -> (Seq<char>, u8) {
    match op {
        Symbol::Add => (a + seq!['+'] + wrap(b, pb, PREC_ADD, false, true), PREC_ADD),
        Symbol::Sub => (a + seq!['-'] + wrap(b, pb, PREC_ADD, false, true), PREC_ADD),
        Symbol::Mul => (
            wrap(a, pa, PREC_MUL, false, false) + seq!['*'] + wrap(b, pb, PREC_MUL, false, true),
            PREC_MUL,
        ),
        Symbol::Div => (
            wrap(a, pa, PREC_MUL, false, false) + seq!['/'] + wrap(b, pb, (PREC_MUL + 1) as u8, false, true),
            PREC_MUL,
        ),
        Symbol::Pow => {
            let sa = wrap(a, pa, PREC_POWER, true, false);
            let sb = wrap(b, pb, PREC_POWER, true, true);
            match style {
                InfixStyle::SymPy => (sa + seq!['*', '*'] + sb, PREC_POWER),
                _ => (sa + seq!['^'] + sb, PREC_POWER),
            }
        },
        Symbol::Root => match style {
            InfixStyle::Standard => (a + seq!['"', '/'] + b, PREC_POWER),
            InfixStyle::Mathematica => (wrap(b, pb, PREC_POWER, true, false) + seq!['^', '(', '1', '/'] + a + seq![')'], PREC_POWER),
            InfixStyle::SymPy => (wrap(b, pb, PREC_POWER, true, false) + seq!['*', '*', '(', '1', '/'] + a + seq![')'], PREC_POWER),
        },
        Symbol::Log => match style {
            InfixStyle::Standard => (seq!['l', 'o', 'g', '_'] + a + seq!['('] + b + seq![')'], PREC_ATOM),
            InfixStyle::Mathematica => (seq!['L', 'o', 'g', '['] + a + seq![',', ' '] + b + seq![']'], PREC_ATOM),
            InfixStyle::SymPy => (seq!['l', 'o', 'g', '('] + b + seq![',', ' '] + a + seq![')'], PREC_ATOM),
        },
        Symbol::Atan2 => match style {
            InfixStyle::Mathematica => (seq!['A', 'r', 'c', 'T', 'a', 'n', '['] + b + seq![',', ' '] + a + seq![']'], PREC_ATOM),
            _ => (seq!['a', 't', 'a', 'n', '2', '('] + a + seq![',', ' '] + b + seq![')'], PREC_ATOM),
        },
        _ => (seq!['?'], PREC_ATOM),
    }
}

/// Text and precedence of a whole tree.
pub open spec fn render(t: Tree, style: InfixStyle) -> (Seq<char>, u8)
    decreases t,
{
    match t {
        Tree::Leaf(s) => (leaf_text(s, style), PREC_ATOM),
        Tree::Unary(op, a) => {
            let ra = render(*a, style);
            (unary_text(op, ra.0, ra.1, style), PREC_ATOM)
        },
        Tree::Binary(op, a, b) => {
            let ra = render(*a, style);
            let rb = render(*b, style);
            binary_text(op, ra.0, ra.1, rb.0, rb.1, style)
        },
    }
}

/// Infix text of postfix symbols: the text of the top tree left on the
/// stack, or `?` when no tree is left.
pub open spec fn infix_text(s: Seq<Symbol>, style: InfixStyle) -> Seq<char> {
    match postfix_stack(s) {
        Some(st) => if st.len() > 0 {
            render(st.last(), style).0
        } else {
            seq!['?']
        },
        None => seq!['?'],
    }
}

/// Concatenation of three texts.
pub(crate) fn cat3(a: Vec<char>, b: &Vec<char>, c: Vec<char>) -> (r: Vec<char>)
    ensures
        r@ == a@ + b@ + c@,
{
    let mut r = a;
    push_all(&mut r, b);
    push_all(&mut r, &c);
    r
}

/// Concatenation of five texts.
fn cat5(a: Vec<char>, b: &Vec<char>, c: Vec<char>, d: &Vec<char>, e: Vec<char>) -> (r: Vec<char>)
    ensures
        r@ == a@ + b@ + c@ + d@ + e@,
{
    let mut r = a;
    push_all(&mut r, b);
    push_all(&mut r, &c);
    push_all(&mut r, d);
    push_all(&mut r, &e);
    r
}

/// The operand text, parenthesized when its precedence requires it.
pub(crate) fn wrap_chars(s: &Vec<char>, prec: u8, parent: u8, right_assoc: bool, right_operand: bool) -> (r: Vec<char>)
    ensures
        r@ == wrap(s@, prec, parent, right_assoc, right_operand),
{
    if prec < parent || (right_assoc && right_operand && prec == parent) {
        cat3(vec!['('], s, vec![')'])
    } else {
        let mut r: Vec<char> = Vec::new();
        push_all(&mut r, s);
        r
    }
}

/// Text of a constant or of the variable.
fn leaf_chars(sym: Symbol, style: InfixStyle) -> (r: Vec<char>)
    ensures
        r@ == leaf_text(sym, style),
{
    match style {
        InfixStyle::Standard => sym.name_chars(),
        InfixStyle::Mathematica => match sym {
            Symbol::Pi => vec!['P', 'i'],
            Symbol::E => vec!['E'],
            Symbol::Phi => vec!['G', 'o', 'l', 'd', 'e', 'n', 'R', 'a', 't', 'i', 'o'],
            Symbol::Gamma => vec!['E', 'u', 'l', 'e', 'r', 'G', 'a', 'm', 'm', 'a'],
            Symbol::Apery => vec!['Z', 'e', 't', 'a', '[', '3', ']'],
            Symbol::Catalan => vec!['C', 'a', 't', 'a', 'l', 'a', 'n'],
            _ => sym.name_chars(),
        },
        InfixStyle::SymPy => match sym {
            Symbol::Pi => vec!['p', 'i'],
            Symbol::E => vec!['E'],
            Symbol::Phi => vec!['G', 'o', 'l', 'd', 'e', 'n', 'R', 'a', 't', 'i', 'o'],
            Symbol::Gamma => vec!['E', 'u', 'l', 'e', 'r', 'G', 'a', 'm', 'm', 'a'],
            Symbol::Apery => vec!['z', 'e', 't', 'a', '(', '3', ')'],
            Symbol::Catalan => vec!['C', 'a', 't', 'a', 'l', 'a', 'n'],
            _ => sym.name_chars(),
        },
    }
}

/// Text of a function of one argument applied to an operand.
pub(crate) fn unary_chars(op: Symbol, arg: &Vec<char>, prec: u8, style: InfixStyle) -> (r: Vec<char>)
    ensures
        r@ == unary_text(op, arg@, prec, style),
{
    match style {
        InfixStyle::Standard => match op {
            Symbol::Neg => cat3(vec!['-'], &wrap_chars(arg, prec, PREC_UNARY, false, false), Vec::new()),
            Symbol::Recip => cat3(vec!['1', '/'], &wrap_chars(arg, prec, PREC_MUL, false, false), Vec::new()),
            Symbol::Sqrt => cat3(vec!['s', 'q', 'r', 't', '('], arg, vec![')']),
            Symbol::Square => cat3(wrap_chars(arg, prec, PREC_POWER, false, false), &vec!['^', '2'], Vec::new()),
            Symbol::Ln => cat3(vec!['l', 'n', '('], arg, vec![')']),
            Symbol::Exp => cat3(vec!['e', '^'], &wrap_chars(arg, prec, PREC_POWER, true, true), Vec::new()),
            Symbol::SinPi => cat3(vec!['s', 'i', 'n', 'p', 'i', '('], arg, vec![')']),
            Symbol::CosPi => cat3(vec!['c', 'o', 's', 'p', 'i', '('], arg, vec![')']),
            Symbol::TanPi => cat3(vec!['t', 'a', 'n', 'p', 'i', '('], arg, vec![')']),
            Symbol::LambertW => cat3(vec!['W', '('], arg, vec![')']),
            Symbol::UserFunction0 | Symbol::UserFunction1 | Symbol::UserFunction2 | Symbol::UserFunction3 | Symbol::UserFunction4 | Symbol::UserFunction5 | Symbol::UserFunction6 | Symbol::UserFunction7 | Symbol::UserFunction8 | Symbol::UserFunction9 | Symbol::UserFunction10 | Symbol::UserFunction11 | Symbol::UserFunction12 | Symbol::UserFunction13 | Symbol::UserFunction14 | Symbol::UserFunction15 => cat3({ let mut n = op.name_chars(); push_all(&mut n, &vec!['(']); n }, arg, vec![')']),
            _ => vec!['?'],
        },
        InfixStyle::Mathematica => match op {
            Symbol::Neg => cat3(vec!['-'], &wrap_chars(arg, prec, PREC_UNARY, false, false), Vec::new()),
            Symbol::Recip => cat3(vec!['1', '/'], &wrap_chars(arg, prec, PREC_MUL, false, false), Vec::new()),
            Symbol::Sqrt => cat3(vec!['S', 'q', 'r', 't', '['], arg, vec![']']),
            Symbol::Square => cat3(wrap_chars(arg, prec, PREC_POWER, false, false), &vec!['^', '2'], Vec::new()),
            Symbol::Ln => cat3(vec!['L', 'o', 'g', '['], arg, vec![']']),
            Symbol::Exp => cat3(vec!['E', 'x', 'p', '['], arg, vec![']']),
            Symbol::SinPi => cat3(vec!['S', 'i', 'n', '[', 'P', 'i', '*'], arg, vec![']']),
            Symbol::CosPi => cat3(vec!['C', 'o', 's', '[', 'P', 'i', '*'], arg, vec![']']),
            Symbol::TanPi => cat3(vec!['T', 'a', 'n', '[', 'P', 'i', '*'], arg, vec![']']),
            Symbol::LambertW => cat3(vec!['P', 'r', 'o', 'd', 'u', 'c', 't', 'L', 'o', 'g', '['], arg, vec![']']),
            Symbol::UserFunction0 | Symbol::UserFunction1 | Symbol::UserFunction2 | Symbol::UserFunction3 | Symbol::UserFunction4 | Symbol::UserFunction5 | Symbol::UserFunction6 | Symbol::UserFunction7 | Symbol::UserFunction8 | Symbol::UserFunction9 | Symbol::UserFunction10 | Symbol::UserFunction11 | Symbol::UserFunction12 | Symbol::UserFunction13 | Symbol::UserFunction14 | Symbol::UserFunction15 => cat3({ let mut n = op.name_chars(); push_all(&mut n, &vec!['[']); n }, arg, vec![']']),
            _ => vec!['?'],
        },
        InfixStyle::SymPy => match op {
            Symbol::Neg => cat3(vec!['-'], &wrap_chars(arg, prec, PREC_UNARY, false, false), Vec::new()),
            Symbol::Recip => cat3(vec!['1', '/'], &wrap_chars(arg, prec, PREC_MUL, false, false), Vec::new()),
            Symbol::Sqrt => cat3(vec!['s', 'q', 'r', 't', '('], arg, vec![')']),
            Symbol::Square => cat3(wrap_chars(arg, prec, PREC_POWER, false, false), &vec!['*', '*', '2'], Vec::new()),
            Symbol::Ln => cat3(vec!['l', 'o', 'g', '('], arg, vec![')']),
            Symbol::Exp => cat3(vec!['e', 'x', 'p', '('], arg, vec![')']),
            Symbol::SinPi => cat3(vec!['s', 'i', 'n', '(', 'p', 'i', '*'], arg, vec![')']),
            Symbol::CosPi => cat3(vec!['c', 'o', 's', '(', 'p', 'i', '*'], arg, vec![')']),
            Symbol::TanPi => cat3(vec!['t', 'a', 'n', '(', 'p', 'i', '*'], arg, vec![')']),
            Symbol::LambertW => cat3(vec!['l', 'a', 'm', 'b', 'e', 'r', 't', 'w', '('], arg, vec![')']),
            Symbol::UserFunction0 | Symbol::UserFunction1 | Symbol::UserFunction2 | Symbol::UserFunction3 | Symbol::UserFunction4 | Symbol::UserFunction5 | Symbol::UserFunction6 | Symbol::UserFunction7 | Symbol::UserFunction8 | Symbol::UserFunction9 | Symbol::UserFunction10 | Symbol::UserFunction11 | Symbol::UserFunction12 | Symbol::UserFunction13 | Symbol::UserFunction14 | Symbol::UserFunction15 => cat3({ let mut n = op.name_chars(); push_all(&mut n, &vec!['(']); n }, arg, vec![')']),
            _ => vec!['?'],
        },
    }
}

/// Text and precedence of a function of two arguments applied to operands.
pub(crate) fn binary_chars(
    op: Symbol,
    a: &Vec<char>,
    pa: u8,
    b: &Vec<char>,
    pb: u8,
    style: InfixStyle,
) -> (r: (Vec<char>, u8))
    ensures
        (r.0@, r.1) == binary_text(op, a@, pa, b@, pb, style),
{
    match op {
        Symbol::Add => (cat3(a.clone(), &vec!['+'], wrap_chars(b, pb, PREC_ADD, false, true)), PREC_ADD),
        Symbol::Sub => (cat3(a.clone(), &vec!['-'], wrap_chars(b, pb, PREC_ADD, false, true)), PREC_ADD),
        Symbol::Mul => (
            cat3(
                wrap_chars(a, pa, PREC_MUL, false, false),
                &vec!['*'],
                wrap_chars(b, pb, PREC_MUL, false, true),
            ),
            PREC_MUL,
        ),
        Symbol::Div => (
            cat3(
                wrap_chars(a, pa, PREC_MUL, false, false),
                &vec!['/'],
                wrap_chars(b, pb, PREC_MUL + 1, false, true),
            ),
            PREC_MUL,
        ),
        Symbol::Pow => {
            let sa = wrap_chars(a, pa, PREC_POWER, true, false);
            let sb = wrap_chars(b, pb, PREC_POWER, true, true);
            match style {
                InfixStyle::SymPy => (cat3(sa, &vec!['*', '*'], sb), PREC_POWER),
                _ => (cat3(sa, &vec!['^'], sb), PREC_POWER),
            }
        },
        Symbol::Root => match style {
            InfixStyle::Standard => (cat3(a.clone(), &vec!['"', '/'], b.clone()), PREC_POWER),
            InfixStyle::Mathematica => (
                cat3(wrap_chars(b, pb, PREC_POWER, true, false), &vec!['^', '(', '1', '/'], cat3(a.clone(), &vec![')'], Vec::new())),
                PREC_POWER,
            ),
            InfixStyle::SymPy => (
                cat3(wrap_chars(b, pb, PREC_POWER, true, false), &vec!['*', '*', '(', '1', '/'], cat3(a.clone(), &vec![')'], Vec::new())),
                PREC_POWER,
            ),
        },
        Symbol::Log => match style {
            InfixStyle::Standard => (cat5(vec!['l', 'o', 'g', '_'], a, vec!['('], b, vec![')']), PREC_ATOM),
            InfixStyle::Mathematica => (cat5(vec!['L', 'o', 'g', '['], a, vec![',', ' '], b, vec![']']), PREC_ATOM),
            InfixStyle::SymPy => (cat5(vec!['l', 'o', 'g', '('], b, vec![',', ' '], a, vec![')']), PREC_ATOM),
        },
        Symbol::Atan2 => match style {
            InfixStyle::Mathematica => (cat5(vec!['A', 'r', 'c', 'T', 'a', 'n', '['], b, vec![',', ' '], a, vec![']']), PREC_ATOM),
            _ => (cat5(vec!['a', 't', 'a', 'n', '2', '('], a, vec![',', ' '], b, vec![')']), PREC_ATOM),
        },
        _ => (vec!['?'], PREC_ATOM),
    }
}

/// Reads postfix symbols with a stack of rendered operands.
///
/// Returns the text of the top tree (`?` when none is left), or
/// `Err(StackUnderflow)` when a function symbol lacks operands.
pub fn render_postfix(symbols: &[Symbol], style: InfixStyle) -> (r: Result<Vec<char>, InfixError>)
    ensures
        r is Ok <==> postfix_stack(symbols@) is Some,
        r matches Ok(v) ==> v@ == infix_text(symbols@, style),
{
    let mut stack: Vec<(Vec<char>, u8)> = Vec::new();
    let mut i: usize = 0;
    while i < symbols.len()
        invariant
            i <= symbols@.len(),
            postfix_stack(symbols@.take(i as int)) matches Some(st) && st.len() == stack@.len()
                && forall|j: int|
                0 <= j < st.len() ==> (#[trigger] stack@[j]).0@ == render(st[j], style).0
                    && stack@[j].1 == render(st[j], style).1,
        decreases symbols.len() - i,
    {
        let ghost st = postfix_stack(symbols@.take(i as int))->Some_0;
        assert(symbols@.take(i + 1).drop_last() =~= symbols@.take(i as int));
        let sym = symbols[i];
        match sym.seft() {
            Seft::A => {
                stack.push((leaf_chars(sym, style), PREC_ATOM));
            },
            Seft::B => {
                match stack.pop() {
                    Some(top) => {
                        let text = unary_chars(sym, &top.0, top.1, style);
                        stack.push((text, PREC_ATOM));
                    },
                    None => {
                        proof {
                            crate::tree::lemma_stack_none_extends(symbols@, i + 1);
                        }
                        return Err(InfixError::StackUnderflow);
                    },
                }
            },
            Seft::C => {
                if stack.len() < 2 {
                    proof {
                        crate::tree::lemma_stack_none_extends(symbols@, i + 1);
                    }
                    return Err(InfixError::StackUnderflow);
                }
                let rhs = stack.pop().unwrap();
                let lhs = stack.pop().unwrap();
                let res = binary_chars(sym, &lhs.0, lhs.1, &rhs.0, rhs.1, style);
                stack.push(res);
            },
        }
        proof {
            let nst = postfix_stack(symbols@.take(i + 1))->Some_0;
            assert forall|j: int| 0 <= j < nst.len() implies (#[trigger] stack@[j]).0@ == render(
                nst[j],
                style,
            ).0 && stack@[j].1 == render(nst[j], style).1 by {
                if j < nst.len() - 1 {
                    assert(nst[j] == st[j]);
                }
            }
        }
        i = i + 1;
    }
    assert(symbols@.take(symbols@.len() as int) =~= symbols@);
    match stack.pop() {
        Some(top) => Ok(top.0),
        None => Ok(vec!['?']),
    }
}

impl Expression {
    /// Infix text in the library's own notation, or `Err(StackUnderflow)`
    /// when the expression is malformed: a function symbol lacks operands,
    /// or the reading does not end with exactly one value.
    pub fn try_to_infix(&self) -> (r: Result<String, InfixError>)
        ensures
            r is Ok <==> parse_tree(self@) is Some,
            r matches Ok(s) ==> s@ == infix_text(self@, InfixStyle::Standard),
            r matches Err(e) ==> e == InfixError::StackUnderflow,
    {
        proof {
            lemma_valid_iff_tree(self@);
        }
        if !self.is_valid() {
            return Err(InfixError::StackUnderflow);
        }
        match render_postfix(self.symbols(), InfixStyle::Standard) {
            Ok(v) => Ok(chars_to_string(&v)),
            Err(e) => Err(e),
        }
    }

    /// Infix text in the library's own notation. The expression must not
    /// underflow its stack.
    pub fn to_infix(&self) -> (r: String)
        requires
            postfix_stack(self@) is Some,
        ensures
            r@ == infix_text(self@, InfixStyle::Standard),
    {
        match render_postfix(self.symbols(), InfixStyle::Standard) {
            Ok(v) => chars_to_string(&v),
            Err(_) => String::new(),
        }
    }

    /// Infix text in Mathematica syntax. The expression must not underflow
    /// its stack.
    pub fn to_infix_mathematica(&self) -> (r: String)
        requires
            postfix_stack(self@) is Some,
        ensures
            r@ == infix_text(self@, InfixStyle::Mathematica),
    {
        match render_postfix(self.symbols(), InfixStyle::Mathematica) {
            Ok(v) => chars_to_string(&v),
            Err(_) => String::new(),
        }
    }

    /// Infix text in SymPy syntax. The expression must not underflow its
    /// stack.
    pub fn to_infix_sympy(&self) -> (r: String)
        requires
            postfix_stack(self@) is Some,
        ensures
            r@ == infix_text(self@, InfixStyle::SymPy),
    {
        match render_postfix(self.symbols(), InfixStyle::SymPy) {
            Ok(v) => chars_to_string(&v),
            Err(_) => String::new(),
        }
    }
}

/// `s` with every occurrence of the nonempty pattern `pat` replaced by `rep`,
/// scanning from the left and never reusing replaced characters.
pub open spec fn replace_all(s: Seq<char>, pat: Seq<char>, rep: Seq<char>) -> Seq<char>
    decreases s.len(),
{
    if pat.len() == 0 || s.len() < pat.len() {
        s
    } else if s.take(pat.len() as int) == pat {
        rep + replace_all(s.skip(pat.len() as int), pat, rep)
    } else {
        seq![s[0]] + replace_all(s.skip(1), pat, rep)
    }
}

/// The default infix text with `pi`, `sqrt(`, `^2` and `*` written as `π`,
/// `√(`, `²` and `·`.
pub open spec fn pretty_text(s: Seq<char>) -> Seq<char> {
    replace_all(
        replace_all(
            replace_all(replace_all(s, seq!['p', 'i'], seq!['π']), seq!['s', 'q', 'r', 't', '('], seq!['√', '(']),
            seq!['^', '2'],
            seq!['²'],
        ),
        seq!['*'],
        seq!['·'],
    )
}

/// Whether `pat` occurs in `s` at position `i`.
fn matches_at(s: &Vec<char>, i: usize, pat: &Vec<char>) -> (r: bool)
    requires
        i <= s@.len(),
    ensures
        r == (s@.len() - i >= pat@.len() && s@.skip(i as int).take(pat@.len() as int) == pat@),
{
    if s.len() - i < pat.len() {
        return false;
    }
    let mut k: usize = 0;
    assert(i + pat@.len() <= s@.len());
    while k < pat.len()
        invariant
            k <= pat@.len(),
            i + pat@.len() <= s@.len(),
            s@.len() == s.len(),
            pat@.len() == pat.len(),
            forall|j: int| 0 <= j < k ==> s@[i + j] == pat@[j],
        decreases pat.len() - k,
    {
        if s[i + k] != pat[k] {
            assert(s@.skip(i as int).take(pat@.len() as int)[k as int] != pat@[k as int]);
            return false;
        }
        k = k + 1;
    }
    assert(s@.skip(i as int).take(pat@.len() as int) =~= pat@);
    true
}

/// `s` with every occurrence of the nonempty pattern `pat` replaced by `rep`.
pub fn replace_chars(s: &Vec<char>, pat: &Vec<char>, rep: &Vec<char>) -> (r: Vec<char>)
    requires
        pat@.len() > 0,
    ensures
        r@ == replace_all(s@, pat@, rep@),
{
    let mut out: Vec<char> = Vec::new();
    let mut i: usize = 0;
    assert(s@.skip(0) =~= s@);
    assert(out@ + replace_all(s@, pat@, rep@) =~= replace_all(s@, pat@, rep@));
    while i < s.len()
        invariant
            i <= s@.len(),
            pat@.len() > 0,
            out@ + replace_all(s@.skip(i as int), pat@, rep@) == replace_all(s@, pat@, rep@),
        decreases s.len() - i,
    {
        let ghost rest = s@.skip(i as int);
        if matches_at(s, i, pat) {
            assert(rest.take(pat@.len() as int) == pat@);
            assert(rest.skip(pat@.len() as int) =~= s@.skip(i + pat@.len()));
            push_all(&mut out, rep);
            assert(out@ + replace_all(s@.skip(i + pat@.len()), pat@, rep@) =~= old_out_plus(
                out@,
                rep@,
                replace_all(s@.skip(i + pat@.len()), pat@, rep@),
            ));
            i = i + pat.len();
        } else {
            assert(rest.skip(1) =~= s@.skip(i + 1));
            out.push(s[i]);
            i = i + 1;
        }
    }
    assert(s@.skip(i as int).len() == 0);
    assert(out@ + Seq::<char>::empty() =~= out@);
    out
}

/// Concatenation, stated as a function to name an intermediate value.
pub open spec fn old_out_plus(a: Seq<char>, b: Seq<char>, c: Seq<char>) -> Seq<char> {
    a + c
}

impl Expression {
    /// Infix text in the given output format. The expression must not
    /// underflow its stack.
    pub fn to_infix_with_format(&self, format: OutputFormat) -> (r: String)
        requires
            postfix_stack(self@) is Some,
        ensures
            format == OutputFormat::Default ==> r@ == infix_text(self@, InfixStyle::Standard),
            format == OutputFormat::Pretty ==> r@ == pretty_text(infix_text(self@, InfixStyle::Standard)),
            format == OutputFormat::Mathematica ==> r@ == infix_text(self@, InfixStyle::Mathematica),
            format == OutputFormat::SymPy ==> r@ == infix_text(self@, InfixStyle::SymPy),
    {
        match format {
            OutputFormat::Default => self.to_infix(),
            OutputFormat::Pretty => {
                let v = match render_postfix(self.symbols(), InfixStyle::Standard) {
                    Ok(v) => v,
                    Err(_) => Vec::new(),
                };
                assert(v@ == infix_text(self@, InfixStyle::Standard));
                let p1 = vec!['p', 'i'];
                let r1 = vec!['π'];
                let p2 = vec!['s', 'q', 'r', 't', '('];
                let r2 = vec!['√', '('];
                let p3 = vec!['^', '2'];
                let r3 = vec!['²'];
                assert(p1@ =~= seq!['p', 'i'] && r1@ =~= seq!['π'] && p2@ =~= seq!['s', 'q', 'r', 't', '(']);
                assert(r2@ =~= seq!['√', '('] && p3@ =~= seq!['^', '2'] && r3@ =~= seq!['²']);
                let a = replace_chars(&v, &p1, &r1);
                let b = replace_chars(&a, &p2, &r2);
                let c = replace_chars(&b, &p3, &r3);
                let p4 = vec!['*'];
                let r4 = vec!['·'];
                assert(p4@ =~= seq!['*'] && r4@ =~= seq!['·']);
                let d = replace_chars(&c, &p4, &r4);
                assert(d@ == pretty_text(v@));
                chars_to_string(&d)
            },
            OutputFormat::Mathematica => self.to_infix_mathematica(),
            OutputFormat::SymPy => self.to_infix_sympy(),
        }
    }
}

} // verus!

