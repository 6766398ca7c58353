//! Solving an equation `lhs = rhs` for `x`, and canonical keys of expressions.
//!
//! When `x` occurs exactly once in `lhs`, the path from the root of the
//! left-hand tree to `x` can be unwound: each function on the path is
//! undone on the right-hand side, until `lhs` is `x` alone.

use vstd::prelude::*;
use crate::expr::{cap_u32, count_of, lemma_weight_sum_nonneg, postfix_char, saturated_weight, Expression};
use crate::symbol::{Seft, Symbol};
use crate::text::chars_to_string;
use crate::tree::{
    lemma_parse_tree_postfix, lemma_parse_tree_roundtrip, lemma_parse_tree_wf,
    lemma_stack_none_extends, lemma_valid_iff_tree, parse_tree, postfix_stack, tree_postfix,
    tree_size, tree_wf, tree_x_count, valid_postfix, Tree,
};

verus! {

/// Shape of a node of a solve tree.
pub enum SolveNodeKind {
    /// A constant or the variable.
    Atom,
    /// A function of one argument over a child node.
    Unary(Symbol, Box<SolveNode>),
    /// A function of two arguments over two child nodes.
    Binary(Symbol, Box<SolveNode>, Box<SolveNode>),
}

/// A node of the tree of an expression, with the expression of its subtree
/// and the number of occurrences of `x` in it.
pub struct SolveNode {
    /// The postfix expression of this subtree.
    pub expr: Expression,
    /// Occurrences of `x` in this subtree, saturating at the largest `u32`.
    pub x_count: u32,
    /// The node's shape.
    pub kind: SolveNodeKind,
}

/// The expression tree that a solve node stands for.
pub open spec fn node_tree(n: SolveNode) -> Tree
    decreases n,
{
    match n.kind {
        SolveNodeKind::Atom => Tree::Leaf(n.expr@[0]),
        SolveNodeKind::Unary(op, c) => Tree::Unary(op, Box::new(node_tree(*c))),
        SolveNodeKind::Binary(op, l, r) => Tree::Binary(
            op,
            Box::new(node_tree(*l)),
            Box::new(node_tree(*r)),
        ),
    }
}

/// `v` capped at the largest `u32`.
pub open spec fn cap_count(v: nat) -> u32 {
    if v > u32::MAX {
        u32::MAX
    } else {
        v as u32
    }
}

/// A solve node is consistent: each node's expression spells its subtree,
/// its count is that of its subtree, and the same holds of its children.
pub open spec fn node_wf(n: SolveNode) -> bool
    decreases n,
{
    &&& n.expr.wf()
    &&& n.expr@ == tree_postfix(node_tree(n))
    &&& n.x_count == cap_count(tree_x_count(node_tree(n)))
    &&& match n.kind {
        SolveNodeKind::Atom => n.expr@.len() == 1,
        SolveNodeKind::Unary(_, c) => node_wf(*c),
        SolveNodeKind::Binary(_, l, r) => node_wf(*l) && node_wf(*r),
    }
}

/// The right-hand side after undoing a function of one argument, if that
/// function has an inverse that can be written with the symbols.
pub open spec fn unary_inverse(op: Symbol, r: Seq<Symbol>) -> Option<Seq<Symbol>> {
    match op {
        Symbol::Neg => Some(r.push(Symbol::Neg)),
        Symbol::Recip => Some(r.push(Symbol::Recip)),
        Symbol::Square => Some(r.push(Symbol::Sqrt)),
        Symbol::Sqrt => Some(r.push(Symbol::Square)),
        Symbol::Ln => Some(r.push(Symbol::Exp)),
        Symbol::Exp => Some(r.push(Symbol::Ln)),
        Symbol::TanPi => Some(r + seq![Symbol::One, Symbol::Atan2, Symbol::Pi, Symbol::Div]),
        Symbol::SinPi => Some(
            r + seq![Symbol::One] + r + seq![
                Symbol::Square,
                Symbol::Sub,
                Symbol::Sqrt,
                Symbol::Atan2,
                Symbol::Pi,
                Symbol::Div,
            ],
        ),
        Symbol::CosPi => Some(
            seq![Symbol::One] + r + seq![Symbol::Square, Symbol::Sub, Symbol::Sqrt] + r + seq![
                Symbol::Atan2,
                Symbol::Pi,
                Symbol::Div,
            ],
        ),
        Symbol::LambertW => Some(r + r + seq![Symbol::Exp, Symbol::Mul]),
        _ => None,
    }
}

/// The right-hand side after undoing `op` whose left operand holds `x` and
/// whose right operand is the known expression `k`.
pub open spec fn binary_inverse_left(op: Symbol, r: Seq<Symbol>, k: Seq<Symbol>) -> Option<
    Seq<Symbol>,
> {
    match op {
        Symbol::Add => Some((r + k).push(Symbol::Sub)),
        Symbol::Sub => Some((r + k).push(Symbol::Add)),
        Symbol::Mul => Some((r + k).push(Symbol::Div)),
        Symbol::Div => Some((r + k).push(Symbol::Mul)),
        Symbol::Pow => Some((k + r).push(Symbol::Root)),
        Symbol::Root => Some((r + k).push(Symbol::Log)),
        Symbol::Log => Some((r + k).push(Symbol::Root)),
        _ => None,
    }
}

/// The right-hand side after undoing `op` whose right operand holds `x` and
/// whose left operand is the known expression `k`.
pub open spec fn binary_inverse_right(op: Symbol, k: Seq<Symbol>, r: Seq<Symbol>) -> Option<
    Seq<Symbol>,
> {
    match op {
        Symbol::Add => Some((r + k).push(Symbol::Sub)),
        Symbol::Sub => Some((k + r).push(Symbol::Sub)),
        Symbol::Mul => Some((r + k).push(Symbol::Div)),
        Symbol::Div => Some((k + r).push(Symbol::Div)),
        Symbol::Pow => Some((k + r).push(Symbol::Log)),
        Symbol::Root => Some((r + k).push(Symbol::Pow)),
        Symbol::Log => Some((k + r).push(Symbol::Pow)),
        _ => None,
    }
}

/// The expression of `x` obtained by unwinding `t = r`, where `x` occurs
/// exactly once in `t`.
pub open spec fn solve_tree(t: Tree, r: Seq<Symbol>) -> Option<Seq<Symbol>>
    decreases t,
{
    match t {
        Tree::Leaf(s) => if s == Symbol::X {
            Some(r)
        } else {
            None
        },
        Tree::Unary(op, a) => if tree_x_count(*a) != 1 {
            None
        } else {
            match unary_inverse(op, r) {
                Some(r2) => solve_tree(*a, r2),
                None => None,
            }
        },
        Tree::Binary(op, a, b) => if tree_x_count(*a) + tree_x_count(*b) != 1 {
            None
        } else if tree_x_count(*a) == 1 {
            match binary_inverse_left(op, r, tree_postfix(*b)) {
                Some(r2) => solve_tree(*a, r2),
                None => None,
            }
        } else {
            match binary_inverse_right(op, tree_postfix(*a), r) {
                Some(r2) => solve_tree(*b, r2),
                None => None,
            }
        },
    }
}

/// The expression of `x` that solves `lhs = rhs`, when `lhs` is one
/// expression holding `x` exactly once and every function on the way to `x`
/// can be undone.
pub open spec fn solve_for_x(lhs: Seq<Symbol>, rhs: Seq<Symbol>) -> Option<Seq<Symbol>> {
    match parse_tree(lhs) {
        Some(t) => if tree_x_count(t) == 1 {
            solve_tree(t, rhs)
        } else {
            None
        },
        None => None,
    }
}

/// Occurrences add up over a concatenation.
pub proof fn lemma_count_concat(a: Seq<Symbol>, b: Seq<Symbol>, sym: Symbol)
    ensures
        count_of(a + b, sym) == count_of(a, sym) + count_of(b, sym),
    decreases b.len(),
{
    if b.len() == 0 {
        assert(a + b =~= a);
    } else {
        lemma_count_concat(a, b.drop_last(), sym);
        assert((a + b).drop_last() =~= a + b.drop_last());
    }
}

/// The occurrences of `x` in a tree are those of its postfix symbols.
pub proof fn lemma_tree_count(t: Tree)
    ensures
        count_of(tree_postfix(t), Symbol::X) == tree_x_count(t),
    decreases t,
{
    match t {
        Tree::Leaf(s) => {
            let q = seq![s];
            assert(tree_postfix(t) == q);
            assert(q.drop_last() =~= Seq::<Symbol>::empty());
            assert(count_of(q.drop_last(), Symbol::X) == 0);
            assert(q.last() == s);
            assert(tree_x_count(t) == if s == Symbol::X {
                1nat
            } else {
                0nat
            });
            assert(count_of(q, Symbol::X) == count_of(q.drop_last(), Symbol::X) + if q.last()
                == Symbol::X {
                1nat
            } else {
                0nat
            });
        },
        Tree::Unary(op, a) => {
            lemma_tree_count(*a);
            assert(tree_postfix(t).drop_last() =~= tree_postfix(*a));
        },
        Tree::Binary(op, a, b) => {
            lemma_tree_count(*a);
            lemma_tree_count(*b);
            lemma_count_concat(tree_postfix(*a), tree_postfix(*b), Symbol::X);
            assert(tree_postfix(t).drop_last() =~= tree_postfix(*a) + tree_postfix(*b));
        },
    }
}

/// Concatenation of symbol slices followed by one symbol.
fn concat_push(a: &[Symbol], b: &[Symbol], op: Symbol) -> (r: Vec<Symbol>)
    ensures
        r@ == (a@ + b@).push(op),
{
    let mut v: Vec<Symbol> = Vec::new();
    let mut i: usize = 0;
    while i < a.len()
        invariant
            i <= a@.len(),
            v@ == a@.take(i as int),
        decreases a.len() - i,
    {
        v.push(a[i]);
        assert(a@.take(i + 1) =~= a@.take(i as int).push(a@[i as int]));
        i = i + 1;
    }
    assert(a@.take(a@.len() as int) =~= a@);
    let mut j: usize = 0;
    while j < b.len()
        invariant
            j <= b@.len(),
            v@ == a@ + b@.take(j as int),
        decreases b.len() - j,
    {
        v.push(b[j]);
        assert(b@.take(j + 1) =~= b@.take(j as int).push(b@[j as int]));
        j = j + 1;
    }
    assert(b@.take(b@.len() as int) =~= b@);
    v.push(op);
    v
}

/// Whether the cached complexity of `e` is the saturated sum of the
/// weights of its symbols, as it is for parsed and built expressions.
pub open spec fn weights_agree(e: Expression) -> bool {
    e.complexity_of() == saturated_weight(e@)
}

/// Adding a symbol's weight to a saturated sum saturates the longer sum.
proof fn lemma_saturated_push(s: Seq<Symbol>, sym: Symbol)
    ensures
        cap_u32(saturated_weight(s) + sym.weight_of()) == saturated_weight(s.push(sym)),
{
    lemma_weight_sum_nonneg(s);
    assert(s.push(sym).drop_last() =~= s);
}

/// A copy of `base` with the function `op` applied on top.
fn append_unary_expression(base: &Expression, op: Symbol) -> (r: Expression)
    requires
        base.wf(),
    ensures
        r.wf(),
        r@ == base@.push(op),
        weights_agree(*base) ==> weights_agree(r),
{
    proof {
        lemma_saturated_push(base@, op);
    }
    base.appended(op)
}

/// The expression `lhs rhs op` built from scratch.
pub fn combine_binary_expressions(lhs: &Expression, rhs: &Expression, op: Symbol) -> (r: Expression)
    ensures
        r.wf(),
        r@ == (lhs@ + rhs@).push(op),
        weights_agree(r),
{
    let v = concat_push(lhs.symbols(), rhs.symbols(), op);
    Expression::from_symbols(v.as_slice())
}

/// The expression holding the single symbol `sym`.
fn constant_expression(sym: Symbol) -> (r: Expression)
    ensures
        r.wf(),
        r@ == seq![sym],
        weights_agree(r),
{
    let mut out = Expression::new();
    out.push(sym);
    proof {
        assert(Seq::<Symbol>::empty().push(sym) =~= seq![sym]);
        lemma_saturated_push(Seq::<Symbol>::empty(), sym);
    }
    out
}

/// The right-hand side after undoing the function `op` of one argument.
pub fn unary_inverse_expression(op: Symbol, rhs_value: &Expression) -> (r: Option<Expression>)
    requires
        rhs_value.wf(),
    ensures
        r is Some <==> unary_inverse(op, rhs_value@) is Some,
        r matches Some(e) ==> e.wf() && Some(e@) == unary_inverse(op, rhs_value@),
        weights_agree(*rhs_value) ==> (r matches Some(e) ==> weights_agree(e)),
{
    let ghost r = rhs_value@;
    let res = match op {
        Symbol::Neg => append_unary_expression(rhs_value, Symbol::Neg),
        Symbol::Recip => append_unary_expression(rhs_value, Symbol::Recip),
        Symbol::Square => append_unary_expression(rhs_value, Symbol::Sqrt),
        Symbol::Sqrt => append_unary_expression(rhs_value, Symbol::Square),
        Symbol::Ln => append_unary_expression(rhs_value, Symbol::Exp),
        Symbol::Exp => append_unary_expression(rhs_value, Symbol::Ln),
        Symbol::TanPi => {
            let one = constant_expression(Symbol::One);
            let atan = combine_binary_expressions(rhs_value, &one, Symbol::Atan2);
            let pi = constant_expression(Symbol::Pi);
            let e = combine_binary_expressions(&atan, &pi, Symbol::Div);
            assert(e@ =~= r + seq![Symbol::One, Symbol::Atan2, Symbol::Pi, Symbol::Div]);
            e
        },
        Symbol::SinPi => {
            let one = constant_expression(Symbol::One);
            let rhs_sq = append_unary_expression(rhs_value, Symbol::Square);
            let inner = combine_binary_expressions(&one, &rhs_sq, Symbol::Sub);
            let denom = append_unary_expression(&inner, Symbol::Sqrt);
            let atan = combine_binary_expressions(rhs_value, &denom, Symbol::Atan2);
            let pi = constant_expression(Symbol::Pi);
            let e = combine_binary_expressions(&atan, &pi, Symbol::Div);
            assert(e@ =~= r + seq![Symbol::One] + r + seq![
                Symbol::Square,
                Symbol::Sub,
                Symbol::Sqrt,
                Symbol::Atan2,
                Symbol::Pi,
                Symbol::Div,
            ]);
            e
        },
        Symbol::CosPi => {
            let one = constant_expression(Symbol::One);
            let rhs_sq = append_unary_expression(rhs_value, Symbol::Square);
            let inner = combine_binary_expressions(&one, &rhs_sq, Symbol::Sub);
            let numer = append_unary_expression(&inner, Symbol::Sqrt);
            let atan = combine_binary_expressions(&numer, rhs_value, Symbol::Atan2);
            let pi = constant_expression(Symbol::Pi);
            let e = combine_binary_expressions(&atan, &pi, Symbol::Div);
            assert(e@ =~= seq![Symbol::One] + r + seq![Symbol::Square, Symbol::Sub, Symbol::Sqrt]
                + r + seq![Symbol::Atan2, Symbol::Pi, Symbol::Div]);
            e
        },
        Symbol::LambertW => {
            let exp_rhs = append_unary_expression(rhs_value, Symbol::Exp);
            let e = combine_binary_expressions(rhs_value, &exp_rhs, Symbol::Mul);
            assert(e@ =~= r + r + seq![Symbol::Exp, Symbol::Mul]);
            e
        },
        _ => {
            return None;
        },
    };
    Some(res)
}

/// The right-hand side after undoing `op` whose left operand holds `x`.
pub fn invert_binary_left(op: Symbol, rhs_value: &Expression, known_right: &Expression) -> (r:
    Option<Expression>)
    ensures
        r is Some <==> binary_inverse_left(op, rhs_value@, known_right@) is Some,
        r matches Some(e) ==> e.wf() && Some(e@) == binary_inverse_left(
            op,
            rhs_value@,
            known_right@,
        ),        r matches Some(e) ==> weights_agree(e),
{
    match op {
        Symbol::Add => Some(combine_binary_expressions(rhs_value, known_right, Symbol::Sub)),
        Symbol::Sub => Some(combine_binary_expressions(rhs_value, known_right, Symbol::Add)),
        Symbol::Mul => Some(combine_binary_expressions(rhs_value, known_right, Symbol::Div)),
        Symbol::Div => Some(combine_binary_expressions(rhs_value, known_right, Symbol::Mul)),
        Symbol::Pow => Some(combine_binary_expressions(known_right, rhs_value, Symbol::Root)),
        Symbol::Root => Some(combine_binary_expressions(rhs_value, known_right, Symbol::Log)),
        Symbol::Log => Some(combine_binary_expressions(rhs_value, known_right, Symbol::Root)),
        _ => None,
    }
}

/// The right-hand side after undoing `op` whose right operand holds `x`.
pub fn invert_binary_right(op: Symbol, known_left: &Expression, rhs_value: &Expression) -> (r:
    Option<Expression>)
    ensures
        r is Some <==> binary_inverse_right(op, known_left@, rhs_value@) is Some,
        r matches Some(e) ==> e.wf() && Some(e@) == binary_inverse_right(
            op,
            known_left@,
            rhs_value@,
        ),        r matches Some(e) ==> weights_agree(e),
{
    match op {
        Symbol::Add => Some(combine_binary_expressions(rhs_value, known_left, Symbol::Sub)),
        Symbol::Sub => Some(combine_binary_expressions(known_left, rhs_value, Symbol::Sub)),
        Symbol::Mul => Some(combine_binary_expressions(rhs_value, known_left, Symbol::Div)),
        Symbol::Div => Some(combine_binary_expressions(known_left, rhs_value, Symbol::Div)),
        Symbol::Pow => Some(combine_binary_expressions(known_left, rhs_value, Symbol::Log)),
        Symbol::Root => Some(combine_binary_expressions(rhs_value, known_left, Symbol::Pow)),
        Symbol::Log => Some(combine_binary_expressions(known_left, rhs_value, Symbol::Pow)),
        _ => None,
    }
}

/// Build the solve tree of an expression: `None` when the expression is not
/// one well-formed postfix expression.
pub fn build_solve_ast(expression: &Expression) -> (r: Option<SolveNode>)
    ensures
        r is Some <==> parse_tree(expression@) is Some,
        r matches Some(n) ==> node_wf(n) && Some(node_tree(n)) == parse_tree(expression@),
{
    let s = expression.symbols();
    let mut stack: Vec<SolveNode> = Vec::new();
    let mut i: usize = 0;
    while i < s.len()
        invariant
            i <= s@.len(),
            s@ == expression@,
            postfix_stack(s@.take(i as int)) matches Some(st) && st.len() == stack@.len()
                && forall|j: int|
                0 <= j < st.len() ==> node_wf(#[trigger] stack@[j]) && node_tree(stack@[j])
                    == st[j],
        decreases s.len() - i,
    {
        let ghost st = postfix_stack(s@.take(i as int))->Some_0;
        assert(s@.take(i + 1).drop_last() =~= s@.take(i as int));
        let sym = s[i];
        match sym.seft() {
            Seft::A => {
                let e = constant_expression(sym);
                let n = SolveNode {
                    expr: e,
                    x_count: if sym == Symbol::X {
                        1
                    } else {
                        0
                    },
                    kind: SolveNodeKind::Atom,
                };
                assert(node_tree(n) == Tree::Leaf(sym));
                stack.push(n);
            },
            Seft::B => {
                let arg = match stack.pop() {
                    Some(a) => a,
                    None => {
                        proof {
                            lemma_stack_none_extends(s@, i + 1);
                        }
                        return None;
                    },
                };
                let e = arg.expr.appended(sym);
                let xc = arg.x_count;
                let n = SolveNode { expr: e, x_count: xc, kind: SolveNodeKind::Unary(sym, Box::new(arg)) };
                stack.push(n);
            },
            Seft::C => {
                if stack.len() < 2 {
                    proof {
                        lemma_stack_none_extends(s@, i + 1);
                    }
                    return None;
                }
                let rhs = stack.pop().unwrap();
                let lhs = stack.pop().unwrap();
                let e = combine_binary_expressions(&lhs.expr, &rhs.expr, sym);
                let xc = lhs.x_count.saturating_add(rhs.x_count);
                let n = SolveNode {
                    expr: e,
                    x_count: xc,
                    kind: SolveNodeKind::Binary(sym, Box::new(lhs), Box::new(rhs)),
                };
                stack.push(n);
            },
        }
        proof {
            let nst = postfix_stack(s@.take(i + 1))->Some_0;
            assert forall|j: int| 0 <= j < nst.len() implies node_wf(#[trigger] stack@[j])
                && node_tree(stack@[j]) == nst[j] by {
                if j < nst.len() - 1 {
                    assert(nst[j] == st[j]);
                }
            }
        }
        i = i + 1;
    }
    assert(s@.take(s@.len() as int) =~= s@);
    if stack.len() == 1 {
        stack.pop()
    } else {
        None
    }
}

/// Whether the expression is the variable `x` alone.
pub fn is_x_atom(expression: &Expression) -> (r: bool)
    ensures
        r == (expression@ == seq![Symbol::X]),
{
    let s = expression.symbols();
    if s.len() == 1 && s[0] == Symbol::X {
        assert(s@ =~= seq![Symbol::X]);
        true
    } else {
        false
    }
}

/// Solve `lhs = rhs` for `x`: the expression of `x`, or `None` when `x`
/// does not occur exactly once in `lhs` or a function on the way to it
/// cannot be undone.
pub fn solve_for_x_rhs_expression(lhs: &Expression, rhs: &Expression) -> (r: Option<Expression>)
    requires
        rhs.wf(),
    ensures
        r is Some <==> solve_for_x(lhs@, rhs@) is Some,
        r matches Some(e) ==> e.wf() && Some(e@) == solve_for_x(lhs@, rhs@),
        weights_agree(*rhs) ==> (r matches Some(e) ==> weights_agree(e)),
{
    proof {
        lemma_parse_tree_postfix(lhs@);
        if let Some(t) = parse_tree(lhs@) {
            lemma_tree_count(t);
        }
    }
    if lhs.count_symbol(Symbol::X) != 1 {
        return None;
    }
    let mut node = match build_solve_ast(lhs) {
        Some(n) => n,
        None => {
            return None;
        },
    };
    if node.x_count != 1 {
        return None;
    }
    let mut rhs_expr = rhs.clone();
    loop
        invariant
            node_wf(node),
            rhs_expr.wf(),
            weights_agree(*rhs) ==> weights_agree(rhs_expr),
            tree_x_count(node_tree(node)) == 1,
            solve_tree(node_tree(node), rhs_expr@) == solve_for_x(lhs@, rhs@),
        decreases tree_size(node_tree(node)),
    {
        let ghost old_node = node;
        let ghost old_tree = node_tree(node);
        match node.kind {
            SolveNodeKind::Atom => {
                if is_x_atom(&node.expr) {
                    return Some(rhs_expr);
                } else {
                    return None;
                }
            },
            SolveNodeKind::Unary(op, child) => {
                assert(old_tree == Tree::Unary(op, Box::new(node_tree(*child))));
                assert(node_wf(*child));
                if child.x_count != 1 {
                    return None;
                }
                rhs_expr = match unary_inverse_expression(op, &rhs_expr) {
                    Some(e) => e,
                    None => {
                        return None;
                    },
                };
                node = *child;
            },
            SolveNodeKind::Binary(op, left, right) => {
                assert(old_tree == Tree::Binary(
                    op,
                    Box::new(node_tree(*left)),
                    Box::new(node_tree(*right)),
                ));
                assert(node_wf(*left) && node_wf(*right));
                let lx = left.x_count;
                let rx = right.x_count;
                if lx as u64 + rx as u64 != 1 {
                    return None;
                }
                if lx == 1 {
                    rhs_expr = match invert_binary_left(op, &rhs_expr, &right.expr) {
                        Some(e) => e,
                        None => {
                            return None;
                        },
                    };
                    node = *left;
                } else {
                    rhs_expr = match invert_binary_right(op, &left.expr, &rhs_expr) {
                        Some(e) => e,
                        None => {
                            return None;
                        },
                    };
                    node = *right;
                }
            },
        }
    }
}

/// Whether `x` does not occur in `s`.
pub open spec fn x_free(s: Seq<Symbol>) -> bool {
    !s.contains(Symbol::X)
}

proof fn lemma_x_free_concat(a: Seq<Symbol>, b: Seq<Symbol>)
    requires
        x_free(a),
        x_free(b),
    ensures
        x_free(a + b),
{
    if (a + b).contains(Symbol::X) {
        let k = choose|k: int| 0 <= k < (a + b).len() && (a + b)[k] == Symbol::X;
        if k < a.len() {
            assert(a[k] == Symbol::X);
        } else {
            assert(b[k - a.len()] == Symbol::X);
        }
    }
}

proof fn lemma_x_free_push(a: Seq<Symbol>, s: Symbol)
    requires
        x_free(a),
        s != Symbol::X,
    ensures
        x_free(a.push(s)),
{
    lemma_x_free_concat(a, seq![s]);
    assert(a + seq![s] =~= a.push(s));
}

proof fn lemma_count_zero_x_free(s: Seq<Symbol>)
    requires
        count_of(s, Symbol::X) == 0,
    ensures
        x_free(s),
    decreases s.len(),
{
    if s.len() > 0 {
        lemma_count_zero_x_free(s.drop_last());
        lemma_x_free_push(s.drop_last(), s.last());
        assert(s.drop_last().push(s.last()) =~= s);
    }
}

/// Undoing a function never brings `x` into an `x`-free right-hand side.
proof fn lemma_inverse_x_free(op: Symbol, r: Seq<Symbol>, k: Seq<Symbol>)
    requires
        x_free(r),
        x_free(k),
    ensures
        unary_inverse(op, r) matches Some(q) ==> x_free(q),
        binary_inverse_left(op, r, k) matches Some(q) ==> x_free(q),
        binary_inverse_right(op, k, r) matches Some(q) ==> x_free(q),
{
    lemma_x_free_concat(r, k);
    lemma_x_free_concat(k, r);
    lemma_x_free_concat(r, r);
    let rk = r + k;
    let kr = k + r;
    lemma_x_free_push(rk, Symbol::Sub);
    lemma_x_free_push(rk, Symbol::Add);
    lemma_x_free_push(rk, Symbol::Div);
    lemma_x_free_push(rk, Symbol::Mul);
    lemma_x_free_push(kr, Symbol::Root);
    lemma_x_free_push(rk, Symbol::Log);
    lemma_x_free_push(rk, Symbol::Root);
    lemma_x_free_push(kr, Symbol::Sub);
    lemma_x_free_push(kr, Symbol::Div);
    lemma_x_free_push(kr, Symbol::Log);
    lemma_x_free_push(rk, Symbol::Pow);
    lemma_x_free_push(kr, Symbol::Pow);
    lemma_x_free_push(r, Symbol::Neg);
    lemma_x_free_push(r, Symbol::Recip);
    lemma_x_free_push(r, Symbol::Sqrt);
    lemma_x_free_push(r, Symbol::Square);
    lemma_x_free_push(r, Symbol::Exp);
    lemma_x_free_push(r, Symbol::Ln);
    let tail_tan = seq![Symbol::One, Symbol::Atan2, Symbol::Pi, Symbol::Div];
    let one = seq![Symbol::One];
    let mid_sin = seq![Symbol::Square, Symbol::Sub, Symbol::Sqrt, Symbol::Atan2, Symbol::Pi, Symbol::Div];
    let mid_cos = seq![Symbol::Square, Symbol::Sub, Symbol::Sqrt];
    let tail_cos = seq![Symbol::Atan2, Symbol::Pi, Symbol::Div];
    let tail_w = seq![Symbol::Exp, Symbol::Mul];
    assert(x_free(tail_tan)) by {
        if tail_tan.contains(Symbol::X) {
            let j = choose|j: int| 0 <= j < tail_tan.len() && tail_tan[j] == Symbol::X;
        }
    }
    assert(x_free(one)) by {
        if one.contains(Symbol::X) {
            let j = choose|j: int| 0 <= j < one.len() && one[j] == Symbol::X;
        }
    }
    assert(x_free(mid_sin)) by {
        if mid_sin.contains(Symbol::X) {
            let j = choose|j: int| 0 <= j < mid_sin.len() && mid_sin[j] == Symbol::X;
        }
    }
    assert(x_free(mid_cos)) by {
        if mid_cos.contains(Symbol::X) {
            let j = choose|j: int| 0 <= j < mid_cos.len() && mid_cos[j] == Symbol::X;
        }
    }
    assert(x_free(tail_cos)) by {
        if tail_cos.contains(Symbol::X) {
            let j = choose|j: int| 0 <= j < tail_cos.len() && tail_cos[j] == Symbol::X;
        }
    }
    assert(x_free(tail_w)) by {
        if tail_w.contains(Symbol::X) {
            let j = choose|j: int| 0 <= j < tail_w.len() && tail_w[j] == Symbol::X;
        }
    }
    lemma_x_free_concat(r, tail_tan);
    lemma_x_free_concat(r, one);
    lemma_x_free_concat(r + one, r);
    lemma_x_free_concat(r + one + r, mid_sin);
    lemma_x_free_concat(one, r);
    lemma_x_free_concat(one + r, mid_cos);
    lemma_x_free_concat(one + r + mid_cos, r);
    lemma_x_free_concat(one + r + mid_cos + r, tail_cos);
    lemma_x_free_concat(r + r, tail_w);
}

proof fn lemma_solve_tree_x_free(t: Tree, r: Seq<Symbol>)
    requires
        x_free(r),
    ensures
        solve_tree(t, r) matches Some(q) ==> x_free(q),
    decreases t,
{
    match t {
        Tree::Leaf(_) => {},
        Tree::Unary(op, a) => {
            lemma_inverse_x_free(op, r, Seq::empty());
            if let Some(r2) = unary_inverse(op, r) {
                lemma_solve_tree_x_free(*a, r2);
            }
        },
        Tree::Binary(op, a, b) => {
            lemma_tree_count(*a);
            lemma_tree_count(*b);
            if tree_x_count(*a) + tree_x_count(*b) == 1 {
                if tree_x_count(*a) == 1 {
                    lemma_count_zero_x_free(tree_postfix(*b));
                    lemma_inverse_x_free(op, r, tree_postfix(*b));
                    if let Some(r2) = binary_inverse_left(op, r, tree_postfix(*b)) {
                        lemma_solve_tree_x_free(*a, r2);
                    }
                } else {
                    lemma_count_zero_x_free(tree_postfix(*a));
                    lemma_inverse_x_free(op, r, tree_postfix(*a));
                    if let Some(r2) = binary_inverse_right(op, tree_postfix(*a), r) {
                        lemma_solve_tree_x_free(*b, r2);
                    }
                }
            }
        },
    }
}

/// When the right-hand side does not hold `x`, neither does the solved
/// expression of `x`.
pub proof fn lemma_solution_free_of_x(lhs: Seq<Symbol>, rhs: Seq<Symbol>)
    requires
        x_free(rhs),
    ensures
        solve_for_x(lhs, rhs) matches Some(q) ==> x_free(q),
{
    if let Some(t) = parse_tree(lhs) {
        lemma_solve_tree_x_free(t, rhs);
    }
}

/// The tree of a function of one argument over `a`.
pub open spec fn un(o: Symbol, a: Tree) -> Tree {
    Tree::Unary(o, Box::new(a))
}

/// The tree of a function of two arguments over `a` and `b`.
pub open spec fn bin(o: Symbol, a: Tree, b: Tree) -> Tree {
    Tree::Binary(o, Box::new(a), Box::new(b))
}

/// The tree of `sqrt(1 - r^2)`.
pub open spec fn cofactor_tree(r: Tree) -> Tree {
    un(Symbol::Sqrt, bin(Symbol::Sub, Tree::Leaf(Symbol::One), un(Symbol::Square, r)))
}

/// The tree of the right-hand side after undoing a function of one argument.
pub open spec fn unary_inverse_tree(op: Symbol, r: Tree) -> Option<Tree> {
    match op {
        Symbol::Neg => Some(un(Symbol::Neg, r)),
        Symbol::Recip => Some(un(Symbol::Recip, r)),
        Symbol::Square => Some(un(Symbol::Sqrt, r)),
        Symbol::Sqrt => Some(un(Symbol::Square, r)),
        Symbol::Ln => Some(un(Symbol::Exp, r)),
        Symbol::Exp => Some(un(Symbol::Ln, r)),
        Symbol::TanPi => Some(
            bin(Symbol::Div, bin(Symbol::Atan2, r, Tree::Leaf(Symbol::One)), Tree::Leaf(Symbol::Pi)),
        ),
        Symbol::SinPi => Some(
            bin(Symbol::Div, bin(Symbol::Atan2, r, cofactor_tree(r)), Tree::Leaf(Symbol::Pi)),
        ),
        Symbol::CosPi => Some(
            bin(Symbol::Div, bin(Symbol::Atan2, cofactor_tree(r), r), Tree::Leaf(Symbol::Pi)),
        ),
        Symbol::LambertW => Some(bin(Symbol::Mul, r, un(Symbol::Exp, r))),
        _ => None,
    }
}

/// The tree of the right-hand side after undoing a function of two
/// arguments; `x_left` tells which operand holds `x`, `k` is the other.
pub open spec fn binary_inverse_tree(op: Symbol, r: Tree, k: Tree, x_left: bool) -> Option<Tree> {
    if x_left {
        match op {
            Symbol::Add => Some(bin(Symbol::Sub, r, k)),
            Symbol::Sub => Some(bin(Symbol::Add, r, k)),
            Symbol::Mul => Some(bin(Symbol::Div, r, k)),
            Symbol::Div => Some(bin(Symbol::Mul, r, k)),
            Symbol::Pow => Some(bin(Symbol::Root, k, r)),
            Symbol::Root => Some(bin(Symbol::Log, r, k)),
            Symbol::Log => Some(bin(Symbol::Root, r, k)),
            _ => None,
        }
    } else {
        match op {
            Symbol::Add => Some(bin(Symbol::Sub, r, k)),
            Symbol::Sub => Some(bin(Symbol::Sub, k, r)),
            Symbol::Mul => Some(bin(Symbol::Div, r, k)),
            Symbol::Div => Some(bin(Symbol::Div, k, r)),
            Symbol::Pow => Some(bin(Symbol::Log, k, r)),
            Symbol::Root => Some(bin(Symbol::Pow, r, k)),
            Symbol::Log => Some(bin(Symbol::Pow, k, r)),
            _ => None,
        }
    }
}

proof fn lemma_cofactor_tree(r: Tree)
    requires
        tree_wf(r),
    ensures
        tree_wf(cofactor_tree(r)),
        tree_postfix(cofactor_tree(r)) == seq![Symbol::One] + tree_postfix(r) + seq![
            Symbol::Square,
            Symbol::Sub,
            Symbol::Sqrt,
        ],
{
    let pr = tree_postfix(r);
    let one = Tree::Leaf(Symbol::One);
    let sq = un(Symbol::Square, r);
    let sub = bin(Symbol::Sub, one, sq);
    assert(tree_postfix(one) == seq![Symbol::One]);
    assert(tree_postfix(sq) == pr.push(Symbol::Square));
    assert(tree_postfix(sub) == (tree_postfix(one) + tree_postfix(sq)).push(Symbol::Sub));
    assert(tree_postfix(cofactor_tree(r)) == tree_postfix(sub).push(Symbol::Sqrt));
    assert(tree_wf(one));
    assert(tree_wf(sq));
    assert(tree_wf(sub));
    assert(tree_postfix(cofactor_tree(r)) =~= seq![Symbol::One] + pr + seq![
        Symbol::Square,
        Symbol::Sub,
        Symbol::Sqrt,
    ]);
}

proof fn lemma_trig_inverse_tree(op: Symbol, r: Tree)
    requires
        tree_wf(r),
        op == Symbol::SinPi || op == Symbol::CosPi || op == Symbol::TanPi,
    ensures
        unary_inverse_tree(op, r) matches Some(u) && tree_wf(u) && Some(tree_postfix(u))
            == unary_inverse(op, tree_postfix(r)),
{
    let pr = tree_postfix(r);
    let one = Tree::Leaf(Symbol::One);
    let pi = Tree::Leaf(Symbol::Pi);
    assert(tree_postfix(one) == seq![Symbol::One]);
    assert(tree_postfix(pi) == seq![Symbol::Pi]);
    assert(tree_wf(one) && tree_wf(pi));
    if op == Symbol::TanPi {
        let at = bin(Symbol::Atan2, r, one);
        let u = bin(Symbol::Div, at, pi);
        assert(tree_postfix(at) == (pr + tree_postfix(one)).push(Symbol::Atan2));
        assert(tree_postfix(u) == (tree_postfix(at) + tree_postfix(pi)).push(Symbol::Div));
        assert(tree_wf(at));
        assert(tree_wf(u));
        assert(tree_postfix(u) =~= pr + seq![Symbol::One, Symbol::Atan2, Symbol::Pi, Symbol::Div]);
    } else {
        lemma_cofactor_tree(r);
        let c = cofactor_tree(r);
        let pc = tree_postfix(c);
        if op == Symbol::SinPi {
            let at = bin(Symbol::Atan2, r, c);
            let u = bin(Symbol::Div, at, pi);
            assert(tree_postfix(at) == (pr + pc).push(Symbol::Atan2));
            assert(tree_postfix(u) == (tree_postfix(at) + tree_postfix(pi)).push(Symbol::Div));
            assert(tree_wf(at));
            assert(tree_wf(u));
            assert(tree_postfix(u) =~= pr + seq![Symbol::One] + pr + seq![
                Symbol::Square,
                Symbol::Sub,
                Symbol::Sqrt,
                Symbol::Atan2,
                Symbol::Pi,
                Symbol::Div,
            ]);
        } else {
            let at = bin(Symbol::Atan2, c, r);
            let u = bin(Symbol::Div, at, pi);
            assert(tree_postfix(at) == (pc + pr).push(Symbol::Atan2));
            assert(tree_postfix(u) == (tree_postfix(at) + tree_postfix(pi)).push(Symbol::Div));
            assert(tree_wf(at));
            assert(tree_wf(u));
            assert(tree_postfix(u) =~= seq![Symbol::One] + pr + seq![
                Symbol::Square,
                Symbol::Sub,
                Symbol::Sqrt,
            ] + pr + seq![Symbol::Atan2, Symbol::Pi, Symbol::Div]);
        }
    }
}

proof fn lemma_unary_inverse_tree(op: Symbol, r: Tree)
    requires
        tree_wf(r),
    ensures
        unary_inverse_tree(op, r) is Some <==> unary_inverse(op, tree_postfix(r)) is Some,
        unary_inverse_tree(op, r) matches Some(u) ==> tree_wf(u) && Some(tree_postfix(u))
            == unary_inverse(op, tree_postfix(r)),
{
    let pr = tree_postfix(r);
    if op == Symbol::SinPi || op == Symbol::CosPi || op == Symbol::TanPi {
        lemma_trig_inverse_tree(op, r);
    } else if op == Symbol::LambertW {
        let ex = un(Symbol::Exp, r);
        let u = bin(Symbol::Mul, r, ex);
        assert(tree_postfix(ex) == pr.push(Symbol::Exp));
        assert(tree_postfix(u) == (pr + tree_postfix(ex)).push(Symbol::Mul));
        assert(tree_wf(ex));
        assert(tree_postfix(u) =~= pr + pr + seq![Symbol::Exp, Symbol::Mul]);
    }
}

proof fn lemma_binary_inverse_tree(op: Symbol, r: Tree, k: Tree)
    requires
        tree_wf(r),
        tree_wf(k),
    ensures
        binary_inverse_tree(op, r, k, true) is Some <==> binary_inverse_left(
            op,
            tree_postfix(r),
            tree_postfix(k),
        ) is Some,
        binary_inverse_tree(op, r, k, true) matches Some(u) ==> tree_wf(u) && Some(tree_postfix(u))
            == binary_inverse_left(op, tree_postfix(r), tree_postfix(k)),
        binary_inverse_tree(op, r, k, false) is Some <==> binary_inverse_right(
            op,
            tree_postfix(k),
            tree_postfix(r),
        ) is Some,
        binary_inverse_tree(op, r, k, false) matches Some(u) ==> tree_wf(u) && Some(
            tree_postfix(u),
        ) == binary_inverse_right(op, tree_postfix(k), tree_postfix(r)),
{
}

/// The tree of the solved expression, unwinding `t` against the tree `r`.
pub open spec fn solve_tree_shape(t: Tree, r: Tree) -> Option<Tree>
    decreases t,
{
    match t {
        Tree::Leaf(s) => if s == Symbol::X {
            Some(r)
        } else {
            None
        },
        Tree::Unary(op, a) => if tree_x_count(*a) != 1 {
            None
        } else {
            match unary_inverse_tree(op, r) {
                Some(r2) => solve_tree_shape(*a, r2),
                None => None,
            }
        },
        Tree::Binary(op, a, b) => if tree_x_count(*a) + tree_x_count(*b) != 1 {
            None
        } else if tree_x_count(*a) == 1 {
            match binary_inverse_tree(op, r, *b, true) {
                Some(r2) => solve_tree_shape(*a, r2),
                None => None,
            }
        } else {
            match binary_inverse_tree(op, r, *a, false) {
                Some(r2) => solve_tree_shape(*b, r2),
                None => None,
            }
        },
    }
}

proof fn lemma_solve_tree_shape(t: Tree, r: Tree)
    requires
        tree_wf(t),
        tree_wf(r),
    ensures
        solve_tree_shape(t, r) is Some <==> solve_tree(t, tree_postfix(r)) is Some,
        solve_tree_shape(t, r) matches Some(u) ==> tree_wf(u) && Some(tree_postfix(u))
            == solve_tree(t, tree_postfix(r)),
    decreases t,
{
    match t {
        Tree::Leaf(_) => {},
        Tree::Unary(op, a) => {
            lemma_unary_inverse_tree(op, r);
            if let Some(r2) = unary_inverse_tree(op, r) {
                lemma_solve_tree_shape(*a, r2);
            }
        },
        Tree::Binary(op, a, b) => {
            lemma_binary_inverse_tree(op, r, *b);
            lemma_binary_inverse_tree(op, r, *a);
            if let Some(r2) = binary_inverse_tree(op, r, *b, true) {
                lemma_solve_tree_shape(*a, r2);
            }
            if let Some(r2) = binary_inverse_tree(op, r, *a, false) {
                lemma_solve_tree_shape(*b, r2);
            }
        },
    }
}

/// When the right-hand side is one well-formed expression, so is the solved
/// expression of `x`.
pub proof fn lemma_solution_well_formed(lhs: Seq<Symbol>, rhs: Seq<Symbol>)
    requires
        valid_postfix(rhs),
    ensures
        solve_for_x(lhs, rhs) matches Some(q) ==> valid_postfix(q),
{
    lemma_valid_iff_tree(rhs);
    lemma_parse_tree_postfix(rhs);
    lemma_parse_tree_wf(rhs);
    lemma_parse_tree_wf(lhs);
    let tr = parse_tree(rhs)->Some_0;
    if let Some(t) = parse_tree(lhs) {
        lemma_solve_tree_shape(t, tr);
        if let Some(u) = solve_tree_shape(t, tr) {
            lemma_parse_tree_roundtrip(u);
        }
    }
}

/// The value of a tree at `x` in exact integer arithmetic, where it has
/// one: the digits, `x`, `+`, `-`, `*`, division without remainder,
/// negation, and the reciprocal of 1 and -1. Any other symbol, a division
/// with a remainder or by zero, and the reciprocal of any other integer
/// leave the tree without an integer value.
pub open spec fn int_eval(t: Tree, x: int) -> Option<int>
    decreases t,
{
    match t {
        Tree::Leaf(s) => match s {
            Symbol::X => Some(x),
            Symbol::One => Some(1),
            Symbol::Two => Some(2),
            Symbol::Three => Some(3),
            Symbol::Four => Some(4),
            Symbol::Five => Some(5),
            Symbol::Six => Some(6),
            Symbol::Seven => Some(7),
            Symbol::Eight => Some(8),
            Symbol::Nine => Some(9),
            _ => None,
        },
        Tree::Unary(op, a) => match int_eval(*a, x) {
            Some(v) => match op {
                Symbol::Neg => Some(-v),
                Symbol::Recip => if v == 1 || v == -1 {
                    Some(v)
                } else {
                    None
                },
                _ => None,
            },
            None => None,
        },
        Tree::Binary(op, a, b) => match (int_eval(*a, x), int_eval(*b, x)) {
            (Some(u), Some(w)) => match op {
                Symbol::Add => Some(u + w),
                Symbol::Sub => Some(u - w),
                Symbol::Mul => Some(u * w),
                Symbol::Div => if w != 0 && u % w == 0 {
                    Some(u / w)
                } else {
                    None
                },
                _ => None,
            },
            _ => None,
        },
    }
}

/// The integer value of postfix symbols at `x` (see `int_eval`), when they
/// form one expression that has one.
pub open spec fn int_eval_postfix(s: Seq<Symbol>, x: int) -> Option<int> {
    match parse_tree(s) {
        Some(t) => int_eval(t, x),
        None => None,
    }
}

/// A tree without `x` has the same value whatever `x` is.
proof fn lemma_int_eval_x_free(t: Tree, x1: int, x2: int)
    requires
        tree_x_count(t) == 0,
    ensures
        int_eval(t, x1) == int_eval(t, x2),
    decreases t,
{
    match t {
        Tree::Leaf(s) => {},
        Tree::Unary(op, a) => {
            lemma_int_eval_x_free(*a, x1, x2);
        },
        Tree::Binary(op, a, b) => {
            lemma_int_eval_x_free(*a, x1, x2);
            lemma_int_eval_x_free(*b, x1, x2);
        },
    }
}

/// A multiple of `d` divides by `d` without remainder, giving the factor.
pub proof fn lemma_exact_div(x: int, d: int, q: int)
    requires
        d != 0,
        x == d * q,
    ensures
        x % d == 0,
        x / d == q,
{
    vstd::arithmetic::div_mod::lemma_fundamental_div_mod(x, d);
    let p = x / d;
    let r = x % d;
    assert(0 <= r < (if d < 0 {
        -d
    } else {
        d
    }));
    assert(d * (q - p) == r) by (nonlinear_arith)
        requires
            x == d * q,
            x == d * p + r,
    ;
    if q != p {
        assert(false) by (nonlinear_arith)
            requires
                d != 0,
                q != p,
                0 <= r < (if d < 0 {
                    -d
                } else {
                    d
                }),
                d * (q - p) == r,
        ;
    }
}

/// Unwinding `t = r` into `u`: where `u` has the integer value `v` at `x0`
/// and `t` has an integer value at `v`, that value is the value of `r` at
/// `x0`.
proof fn lemma_shape_satisfies(t: Tree, r: Tree, x0: int, v: int)
    requires
        solve_tree_shape(t, r) is Some,
        int_eval(solve_tree_shape(t, r)->Some_0, x0) == Some(v),
    ensures
        int_eval(t, v) matches Some(l) ==> int_eval(r, x0) == Some(l),
    decreases t,
{
    match t {
        Tree::Leaf(_) => {},
        Tree::Unary(op, a) => {
            let r2 = unary_inverse_tree(op, r)->Some_0;
            lemma_shape_satisfies(*a, r2, x0, v);
        },
        Tree::Binary(op, a, b) => {
            if tree_x_count(*a) == 1 {
                let r2 = binary_inverse_tree(op, r, *b, true)->Some_0;
                lemma_shape_satisfies(*a, r2, x0, v);
                lemma_int_eval_x_free(*b, v, x0);
                if let (Some(la), Some(bv)) = (int_eval(*a, v), int_eval(*b, v)) {
                    if op == Symbol::Mul {
                        let rv = int_eval(r, x0)->Some_0;
                        vstd::arithmetic::div_mod::lemma_fundamental_div_mod(rv, bv);
                        assert(la * bv == rv) by (nonlinear_arith)
                            requires
                                la == rv / bv,
                                rv == bv * (rv / bv) + rv % bv,
                                rv % bv == 0,
                        ;
                    } else if op == Symbol::Div {
                        let rv = int_eval(r, x0)->Some_0;
                        assert(la == bv * rv) by (nonlinear_arith)
                            requires
                                la == rv * bv,
                        ;
                        if bv != 0 {
                            lemma_exact_div(la, bv, rv);
                        }
                    }
                }
            } else {
                let r2 = binary_inverse_tree(op, r, *a, false)->Some_0;
                lemma_shape_satisfies(*b, r2, x0, v);
                lemma_int_eval_x_free(*a, v, x0);
                if let (Some(av), Some(lb)) = (int_eval(*a, v), int_eval(*b, v)) {
                    if op == Symbol::Mul {
                        let rv = int_eval(r, x0)->Some_0;
                        vstd::arithmetic::div_mod::lemma_fundamental_div_mod(rv, av);
                        assert(av * lb == rv) by (nonlinear_arith)
                            requires
                                lb == rv / av,
                                rv == av * (rv / av) + rv % av,
                                rv % av == 0,
                        ;
                    } else if op == Symbol::Div {
                        let rv = int_eval(r, x0)->Some_0;
                        vstd::arithmetic::div_mod::lemma_fundamental_div_mod(av, rv);
                        assert(av == lb * rv) by (nonlinear_arith)
                            requires
                                lb == av / rv,
                                av == rv * (av / rv) + av % rv,
                                av % rv == 0,
                        ;
                        if lb != 0 {
                            lemma_exact_div(av, lb, rv);
                        }
                    }
                }
            }
        },
    }
}

/// The solution solves the equation: substituting the solved expression
/// for `x` in the left-hand side gives the right-hand side. Stated over the
/// values that exact integer arithmetic gives (see `int_eval`): where the
/// solution has a value `v` at `x0` and the left-hand side has a value at
/// `v`, that value is the right-hand side's value at `x0`.
pub proof fn lemma_solution_satisfies_equation(lhs: Seq<Symbol>, rhs: Seq<Symbol>, x0: int)
    requires
        valid_postfix(rhs),
    ensures
        solve_for_x(lhs, rhs) matches Some(q) ==> (int_eval_postfix(q, x0) matches Some(v) ==> (
        int_eval_postfix(lhs, v) matches Some(l) ==> int_eval_postfix(rhs, x0) == Some(l))),
{
    lemma_valid_iff_tree(rhs);
    lemma_parse_tree_postfix(rhs);
    lemma_parse_tree_wf(rhs);
    lemma_parse_tree_wf(lhs);
    let tr = parse_tree(rhs)->Some_0;
    if let Some(t) = parse_tree(lhs) {
        if tree_x_count(t) == 1 {
            lemma_solve_tree_shape(t, tr);
            if let Some(u) = solve_tree_shape(t, tr) {
                lemma_parse_tree_roundtrip(u);
                if let Some(v) = int_eval(u, x0) {
                    lemma_shape_satisfies(t, tr, x0, v);
                }
            }
        }
    }
}

} // verus!
