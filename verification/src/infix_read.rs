//! Reading infix text back: the library's own infix rendering means what
//! it shows.
//!
//! A reader of infix text with the usual precedence (`*` and `/` bind
//! tighter than `+`, operators of one level group from the left, brackets
//! group what they enclose) is stated here for the arithmetic of digits,
//! `x`, `+`, `*` and `/`. Reading the rendered text of such an expression
//! gives an expression of the same value: where the expression has a value
//! in exact integer arithmetic (see `crate::solve::int_eval`), the text
//! read back has that value too. Regrouping an associative chain (`a*(b*c)`
//! written `a*b*c`) keeps the value; losing the brackets of a divisor
//! (`6/(2*3)` written `6/2*3`) would not.

use vstd::prelude::*;
use crate::infix::{infix_text, render, wrap, InfixStyle, PREC_ADD, PREC_ATOM, PREC_MUL};
use crate::solve::{int_eval, lemma_exact_div};
use crate::symbol::Symbol;
use crate::tree::{parse_tree, postfix_stack, Tree};

verus! {

/// The digit or variable that a character names.
pub open spec fn leaf_of_char(c: char) -> Option<Symbol> {
    if c == '1' {
        Some(Symbol::One)
    } else if c == '2' {
        Some(Symbol::Two)
    } else if c == '3' {
        Some(Symbol::Three)
    } else if c == '4' {
        Some(Symbol::Four)
    } else if c == '5' {
        Some(Symbol::Five)
    } else if c == '6' {
        Some(Symbol::Six)
    } else if c == '7' {
        Some(Symbol::Seven)
    } else if c == '8' {
        Some(Symbol::Eight)
    } else if c == '9' {
        Some(Symbol::Nine)
    } else if c == 'x' {
        Some(Symbol::X)
    } else {
        None
    }
}

/// Reads a factor: a digit, `x`, or a bracketed expression. Gives the tree
/// read and the text after it.
pub open spec fn parse_factor(s: Seq<char>) -> Option<(Tree, Seq<char>)>
    decreases s.len(), 0nat,
{
    if s.len() == 0 {
        None
    } else if leaf_of_char(s[0]) is Some {
        Some((Tree::Leaf(leaf_of_char(s[0])->Some_0), s.skip(1)))
    } else if s[0] == '(' {
        match parse_expr(s.skip(1)) {
            Some((t, r)) => if r.len() > 0 && r[0] == ')' {
                Some((t, r.skip(1)))
            } else {
                None
            },
            None => None,
        }
    } else {
        None
    }
}

/// Reads the rest of a product: while the text goes on with `*` or `/`, a
/// factor more, grouped from the left onto `acc`.
pub open spec fn parse_term_tail(acc: Tree, s: Seq<char>) -> Option<(Tree, Seq<char>)>
    decreases s.len(), 1nat,
{
    if s.len() > 0 && (s[0] == '*' || s[0] == '/') {
        let op = if s[0] == '*' {
            Symbol::Mul
        } else {
            Symbol::Div
        };
        match parse_factor(s.skip(1)) {
            Some((f, r)) => if r.len() < s.len() {
                parse_term_tail(Tree::Binary(op, Box::new(acc), Box::new(f)), r)
            } else {
                None
            },
            None => None,
        }
    } else {
        Some((acc, s))
    }
}

/// Reads a product of factors.
pub open spec fn parse_term(s: Seq<char>) -> Option<(Tree, Seq<char>)>
    decreases s.len(), 2nat,
{
    match parse_factor(s) {
        Some((f, r)) => if r.len() < s.len() {
            parse_term_tail(f, r)
        } else {
            None
        },
        None => None,
    }
}

/// Reads the rest of a sum: while the text goes on with `+`, a product
/// more, grouped from the left onto `acc`.
pub open spec fn parse_expr_tail(acc: Tree, s: Seq<char>) -> Option<(Tree, Seq<char>)>
    decreases s.len(), 1nat,
{
    if s.len() > 0 && s[0] == '+' {
        match parse_term(s.skip(1)) {
            Some((t, r)) => if r.len() < s.len() {
                parse_expr_tail(Tree::Binary(Symbol::Add, Box::new(acc), Box::new(t)), r)
            } else {
                None
            },
            None => None,
        }
    } else {
        Some((acc, s))
    }
}

/// Reads a sum of products.
pub open spec fn parse_expr(s: Seq<char>) -> Option<(Tree, Seq<char>)>
    decreases s.len(), 3nat,
{
    match parse_term(s) {
        Some((t, r)) => if r.len() <= s.len() {
            parse_expr_tail(t, r)
        } else {
            None
        },
        None => None,
    }
}

/// The tree that infix text reads as, when the whole text is one
/// expression.
pub open spec fn read_infix(s: Seq<char>) -> Option<Tree> {
    match parse_expr(s) {
        Some((t, r)) => if r.len() == 0 {
            Some(t)
        } else {
            None
        },
        None => None,
    }
}

/// Whether a tree is built from the digits and `x` with `+`, `*` and `/`.
pub open spec fn arith_tree(t: Tree) -> bool
    decreases t,
{
    match t {
        Tree::Leaf(s) => s == Symbol::X || s == Symbol::One || s == Symbol::Two || s == Symbol::Three
            || s == Symbol::Four || s == Symbol::Five || s == Symbol::Six || s == Symbol::Seven || s
            == Symbol::Eight || s == Symbol::Nine,
        Tree::Unary(_, _) => false,
        Tree::Binary(op, a, b) => (op == Symbol::Add || op == Symbol::Mul || op == Symbol::Div)
            && arith_tree(*a) && arith_tree(*b),
    }
}

/// Where `a` has an integer value at `x`, `b` has the same one.
pub open spec fn ev_imp(a: Tree, b: Tree, x: int) -> bool {
    int_eval(a, x) matches Some(v) ==> int_eval(b, x) == Some(v)
}

/// The rendered text of a tree.
pub open spec fn text(t: Tree) -> Seq<char> {
    render(t, InfixStyle::Standard).0
}

/// The rendered text of a tree as an operand of `*` (bracketed when it is
/// a sum).
pub open spec fn term_text(t: Tree) -> Seq<char> {
    wrap(text(t), render(t, InfixStyle::Standard).1, PREC_MUL, false, false)
}

/// The rendered text of a tree as the divisor of `/` (bracketed unless it
/// is a digit or `x`).
pub open spec fn factor_text(t: Tree) -> Seq<char> {
    wrap(text(t), render(t, InfixStyle::Standard).1, (PREC_MUL + 1) as u8, false, true)
}

/// Text after a product: it does not go on with `*` or `/`.
pub open spec fn term_stop(r: Seq<char>) -> bool {
    r.len() == 0 || (r[0] != '*' && r[0] != '/')
}

/// Text after a sum: it does not go on with `+`, `*` or `/`.
pub open spec fn expr_stop(r: Seq<char>) -> bool {
    term_stop(r) && (r.len() == 0 || r[0] != '+')
}

/// A rank of a tree's kind, for the order in which the reading lemmas
/// call each other on one tree.
pub open spec fn kind_rank(t: Tree, leaf: nat, add: nat, other: nat) -> nat {
    match t {
        Tree::Leaf(_) => leaf,
        Tree::Binary(Symbol::Add, _, _) => add,
        _ => other,
    }
}

/// The tree `op(a, b)`.
pub open spec fn bin2(op: Symbol, a: Tree, b: Tree) -> Tree {
    Tree::Binary(op, Box::new(a), Box::new(b))
}

/// The symbol of `/` or `*`.
pub open spec fn mul_or_div(div: bool) -> Symbol {
    if div {
        Symbol::Div
    } else {
        Symbol::Mul
    }
}

/// Values carry over through an operand: a tree of the value of `a` in
/// place of `a` keeps the value of `op(a, b)` and of `op(c, a)`.
proof fn lemma_congruence(op: Symbol, a: Tree, a2: Tree, b: Tree, x: int)
    requires
        ev_imp(a, a2, x),
    ensures
        ev_imp(bin2(op, a, b), bin2(op, a2, b), x),
        ev_imp(bin2(op, b, a), bin2(op, b, a2), x),
{
}

/// `ev_imp` is transitive.
proof fn lemma_ev_trans(a: Tree, b: Tree, c: Tree, x: int)
    requires
        ev_imp(a, b, x),
        ev_imp(b, c, x),
    ensures
        ev_imp(a, c, x),
{
}

/// `a+(b+c)` has the value of `(a+b)+c`, `a*(b*c)` that of `(a*b)*c`, and
/// `a*(b/c)` that of `(a*b)/c`.
proof fn lemma_regroup(op: Symbol, inner: Symbol, acc: Tree, a: Tree, b: Tree, x: int)
    requires
        (op == Symbol::Add && inner == Symbol::Add) || (op == Symbol::Mul && (inner == Symbol::Mul
            || inner == Symbol::Div)),
    ensures
        ev_imp(bin2(op, acc, bin2(inner, a, b)), bin2(inner, bin2(op, acc, a), b), x),
{
    if let (Some(u), Some(p), Some(q)) = (int_eval(acc, x), int_eval(a, x), int_eval(b, x)) {
        if inner == Symbol::Div {
            if q != 0 && p % q == 0 {
                vstd::arithmetic::div_mod::lemma_fundamental_div_mod(p, q);
                let w = p / q;
                assert(p == q * w);
                assert(u * p == q * (u * w)) by (nonlinear_arith)
                    requires
                        p == q * w,
                ;
                lemma_exact_div(u * p, q, u * w);
                assert(int_eval(bin2(inner, a, b), x) == Some(w));
                assert(int_eval(bin2(op, acc, bin2(inner, a, b)), x) == Some(u * w));
                assert(int_eval(bin2(Symbol::Mul, acc, a), x) == Some(u * p));
                assert(int_eval(bin2(inner, bin2(op, acc, a), b), x) == Some(u * w));
            }
        } else if op == Symbol::Mul {
            assert(u * (p * q) == (u * p) * q) by (nonlinear_arith);
            assert(int_eval(bin2(inner, a, b), x) == Some(p * q));
            assert(int_eval(bin2(op, acc, a), x) == Some(u * p));
        } else {
            assert(int_eval(bin2(inner, a, b), x) == Some(p + q));
            assert(int_eval(bin2(op, acc, a), x) == Some(u + p));
        }
    }
}

/// The shapes of rendered text of the trees read here.
proof fn lemma_text_shapes(t: Tree)
    requires
        arith_tree(t),
    ensures
        t is Leaf ==> render(t, InfixStyle::Standard).1 == PREC_ATOM && text(t).len() == 1
            && leaf_of_char(text(t)[0]) == Some(t->Leaf_0) && factor_text(t) == text(t) && term_text(t)
            == text(t),
        t is Binary && t->Binary_0 == Symbol::Add ==> render(t, InfixStyle::Standard).1 == PREC_ADD
            && text(t) == text(*t->Binary_1) + seq!['+'] + text(*t->Binary_2) && term_text(t)
            == seq!['('] + text(t) + seq![')'] && factor_text(t) == term_text(t),
        t is Binary && t->Binary_0 == Symbol::Mul ==> render(t, InfixStyle::Standard).1 == PREC_MUL
            && term_text(t) == text(t) && text(t) == term_text(*t->Binary_1) + seq!['*'] + term_text(
            *t->Binary_2,
        ) && factor_text(t) == seq!['('] + text(t) + seq![')'],
        t is Binary && t->Binary_0 == Symbol::Div ==> render(t, InfixStyle::Standard).1 == PREC_MUL
            && term_text(t) == text(t) && text(t) == term_text(*t->Binary_1) + seq!['/'] + factor_text(
            *t->Binary_2,
        ) && factor_text(t) == seq!['('] + text(t) + seq![')'],
{
}

/// Reading a digit, `x`, or a bracketed expression as a factor.
proof fn lemma_factor_text(t: Tree, rest: Seq<char>, x: int) -> (t2: Tree)
    requires
        arith_tree(t),
    ensures
        parse_factor(factor_text(t) + rest) == Some((t2, rest)),
        ev_imp(t, t2, x),
    decreases t, kind_rank(t, 0, 2, 3),
{
    lemma_text_shapes(t);
    match t {
        Tree::Leaf(s) => {
            let s2 = factor_text(t) + rest;
            assert(s2[0] == text(t)[0]);
            assert(s2.skip(1) =~= rest);
            t
        },
        _ => lemma_factor_wrapped(t, rest, x),
    }
}

/// Reading a bracketed expression as a factor.
proof fn lemma_factor_wrapped(t: Tree, rest: Seq<char>, x: int) -> (t2: Tree)
    requires
        arith_tree(t),
        !(t is Leaf),
    ensures
        parse_factor(seq!['('] + text(t) + seq![')'] + rest) == Some((t2, rest)),
        parse_factor(factor_text(t) + rest) == Some((t2, rest)),
        ev_imp(t, t2, x),
    decreases t, kind_rank(t, 0, 1, 2),
{
    lemma_text_shapes(t);
    let r1 = seq![')'] + rest;
    let t0 = lemma_expr_open(t, r1, x);
    let s = seq!['('] + text(t) + seq![')'] + rest;
    assert(s[0] == '(');
    assert(s.skip(1) =~= text(t) + r1);
    assert(r1[0] == ')');
    assert(r1.skip(1) =~= rest);
    assert(expr_stop(r1));
    t0
}

/// Reading a sum: the text of `t`, then text that does not go on with `*`
/// or `/`, reads as a tree of the value of `t` followed by that text.
proof fn lemma_expr_open(t: Tree, rest: Seq<char>, x: int) -> (t0: Tree)
    requires
        arith_tree(t),
        term_stop(rest),
    ensures
        parse_expr(text(t) + rest) == parse_expr_tail(t0, rest),
        ev_imp(t, t0, x),
        expr_stop(rest) ==> parse_expr_tail(t0, rest) == Some((t0, rest)),
    decreases t, kind_rank(t, 2, 0, 1),
{
    lemma_text_shapes(t);
    match t {
        Tree::Binary(Symbol::Add, a, b) => {
            let r1 = seq!['+'] + text(*b) + rest;
            assert(text(t) + rest =~= text(*a) + r1);
            let ta = lemma_expr_open(*a, r1, x);
            let acc2 = lemma_expr_tail(ta, *b, rest, x);
            lemma_congruence(Symbol::Add, *a, ta, *b, x);
            lemma_ev_trans(t, bin2(Symbol::Add, ta, *b), acc2, x);
            acc2
        },
        _ => {
            let t0 = lemma_term_open(t, rest, x);
            t0
        },
    }
}

/// Reading `+` and the text of `t` after a sum read so far as `acc`.
proof fn lemma_expr_tail(acc: Tree, t: Tree, rest: Seq<char>, x: int) -> (acc2: Tree)
    requires
        arith_tree(t),
        term_stop(rest),
    ensures
        parse_expr_tail(acc, seq!['+'] + text(t) + rest) == parse_expr_tail(acc2, rest),
        ev_imp(bin2(Symbol::Add, acc, t), acc2, x),
    decreases t, 2nat,
{
    lemma_text_shapes(t);
    match t {
        Tree::Binary(Symbol::Add, a, b) => {
            let r1 = seq!['+'] + text(*b) + rest;
            assert(seq!['+'] + text(t) + rest =~= seq!['+'] + text(*a) + r1);
            let acc1 = lemma_expr_tail(acc, *a, r1, x);
            let acc2 = lemma_expr_tail(acc1, *b, rest, x);
            lemma_regroup(Symbol::Add, Symbol::Add, acc, *a, *b, x);
            lemma_congruence(Symbol::Add, bin2(Symbol::Add, acc, *a), acc1, *b, x);
            lemma_ev_trans(
                bin2(Symbol::Add, acc, t),
                bin2(Symbol::Add, bin2(Symbol::Add, acc, *a), *b),
                bin2(Symbol::Add, acc1, *b),
                x,
            );
            lemma_ev_trans(bin2(Symbol::Add, acc, t), bin2(Symbol::Add, acc1, *b), acc2, x);
            acc2
        },
        _ => {
            let s = seq!['+'] + text(t) + rest;
            let t0 = lemma_term_open(t, rest, x);
            assert(s.skip(1) =~= term_text(t) + rest);
            assert(s[0] == '+');
            lemma_congruence(Symbol::Add, t, t0, acc, x);
            bin2(Symbol::Add, acc, t0)
        },
    }
}

/// Reading a product: the text of `t` as an operand of `*`, then more text,
/// reads as a tree of the value of `t` and goes on from that text.
#[verifier::rlimit(60)]
proof fn lemma_term_open(t: Tree, rest: Seq<char>, x: int) -> (t0: Tree)
    requires
        arith_tree(t),
    ensures
        parse_term(term_text(t) + rest) == parse_term_tail(t0, rest),
        ev_imp(t, t0, x),
        term_stop(rest) ==> parse_term_tail(t0, rest) == Some((t0, rest)),
    decreases t, kind_rank(t, 1, 3, 0),
{
    lemma_text_shapes(t);
    match t {
        Tree::Binary(Symbol::Mul, a, b) => {
            let r1 = seq!['*'] + term_text(*b) + rest;
            assert(term_text(t) + rest =~= term_text(*a) + r1);
            let ta = lemma_term_open(*a, r1, x);
            let acc2 = lemma_term_tail(ta, false, *b, rest, x);
            lemma_congruence(Symbol::Mul, *a, ta, *b, x);
            lemma_ev_trans(t, bin2(Symbol::Mul, ta, *b), acc2, x);
            acc2
        },
        Tree::Binary(Symbol::Div, a, b) => {
            let r1 = seq!['/'] + factor_text(*b) + rest;
            assert(term_text(t) + rest =~= term_text(*a) + r1);
            let ta = lemma_term_open(*a, r1, x);
            let acc2 = lemma_term_tail(ta, true, *b, rest, x);
            lemma_congruence(Symbol::Div, *a, ta, *b, x);
            lemma_ev_trans(t, bin2(Symbol::Div, ta, *b), acc2, x);
            acc2
        },
        _ => {
            let f = lemma_factor_text(t, rest, x);
            f
        },
    }
}

/// Reading `*` (or `/`) and the operand text of `t` after a product read
/// so far as `acc`.
#[verifier::rlimit(60)]
proof fn lemma_term_tail(acc: Tree, div: bool, t: Tree, rest: Seq<char>, x: int) -> (acc2: Tree)
    requires
        arith_tree(t),
    ensures
        parse_term_tail(
            acc,
            seq![if div { '/' } else { '*' }] + (if div {
                factor_text(t)
            } else {
                term_text(t)
            }) + rest,
        ) == parse_term_tail(acc2, rest),
        ev_imp(bin2(mul_or_div(div), acc, t), acc2, x),
    decreases t, 4nat,
{
    lemma_text_shapes(t);
    let op = mul_or_div(div);
    let oc = if div {
        '/'
    } else {
        '*'
    };
    let ft = if div {
        factor_text(t)
    } else {
        term_text(t)
    };
    if !div && t is Binary && (t->Binary_0 == Symbol::Mul || t->Binary_0 == Symbol::Div) {
        let inner = t->Binary_0;
        let a = *t->Binary_1;
        let b = *t->Binary_2;
        let ic = if inner == Symbol::Mul {
            '*'
        } else {
            '/'
        };
        let bt = if inner == Symbol::Mul {
            term_text(b)
        } else {
            factor_text(b)
        };
        assert(term_text(t) == term_text(a) + seq![ic] + bt);
        let r1 = seq![ic] + bt + rest;
        assert(seq!['*'] + term_text(t) + rest =~= seq!['*'] + term_text(a) + r1);
        let acc1 = lemma_term_tail(acc, false, a, r1, x);
        let acc2 = lemma_term_tail(acc1, inner == Symbol::Div, b, rest, x);
        assert(mul_or_div(inner == Symbol::Div) == inner);
        lemma_regroup(Symbol::Mul, inner, acc, a, b, x);
        lemma_congruence(inner, bin2(Symbol::Mul, acc, a), acc1, b, x);
        assert(bin2(Symbol::Mul, acc, t) == bin2(Symbol::Mul, acc, bin2(inner, a, b)));
        lemma_ev_trans(
            bin2(Symbol::Mul, acc, t),
            bin2(inner, bin2(Symbol::Mul, acc, a), b),
            bin2(inner, acc1, b),
            x,
        );
        lemma_ev_trans(bin2(Symbol::Mul, acc, t), bin2(inner, acc1, b), acc2, x);
        acc2
    } else {
        assert(ft == factor_text(t));
        let f = lemma_factor_text(t, rest, x);
        let s = seq![oc] + ft + rest;
        assert(s.skip(1) =~= factor_text(t) + rest);
        assert(s[0] == oc);
        lemma_congruence(op, t, f, acc, x);
        bin2(op, acc, f)
    }
}

/// The library's infix text of an expression of digits and `x` with `+`,
/// `*` and `/` reads back, with the usual precedence, as an expression of
/// the same value: where the expression has an integer value at `x`, the
/// text read back has that value too.
pub proof fn lemma_infix_reads_back(t: Tree, x: int)
    requires
        arith_tree(t),
        int_eval(t, x) is Some,
    ensures
        read_infix(render(t, InfixStyle::Standard).0) matches Some(t2) && int_eval(t2, x) == int_eval(
            t,
            x,
        ),
{
    let rest = Seq::<char>::empty();
    let t0 = lemma_expr_open(t, rest, x);
    assert(text(t) + rest =~= text(t));
}

/// The infix text of well-formed postfix symbols (what `to_infix` gives)
/// of digits and `x` with `+`, `*` and `/` reads back, with the usual
/// precedence, as an expression of the same value.
pub proof fn lemma_to_infix_reads_back(s: Seq<Symbol>, x: int)
    requires
        parse_tree(s) is Some,
        arith_tree(parse_tree(s)->Some_0),
        int_eval(parse_tree(s)->Some_0, x) is Some,
    ensures
        read_infix(infix_text(s, InfixStyle::Standard)) matches Some(t2) && int_eval(t2, x) == int_eval(
            parse_tree(s)->Some_0,
            x,
        ),
{
    let t = parse_tree(s)->Some_0;
    let st = postfix_stack(s)->Some_0;
    assert(st.last() == t);
    lemma_infix_reads_back(t, x);
}

} // verus!
