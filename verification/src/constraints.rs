//! Structural and numeric constraints on generated expressions.
//!
//! An expression can be required to raise only to rational exponents, to
//! apply trigonometric functions only to rational arguments, and to use at
//! most a given number of trigonometric functions. The numeric class of each
//! subexpression is inferred from the classes of its operands.

use vstd::prelude::*;
use crate::expr::Expression;
use crate::symbol::{NumType, Seft, Symbol};
use crate::tree::{parse_tree, postfix_stack, stack_step, valid_postfix, Tree};

verus! {

/// Options for additional expression constraints.
#[derive(Debug, Clone, Copy)]
pub struct ExpressionConstraintOptions {
    /// Exponents of `^` must be rational and free of `x`.
    pub rational_exponents: bool,
    /// Arguments of `sinpi`, `cospi`, `tanpi` must be rational and free of `x`.
    pub rational_trig_args: bool,
    /// Maximum number of trigonometric functions in an expression.
    pub max_trig_cycles: Option<u32>,
    /// Numeric classes of the user-defined constants 0 to 15.
    pub user_constant_types: [NumType; 16],
    /// Numeric classes of the values of user-defined functions 0 to 15.
    pub user_function_types: [NumType; 16],
}

impl Default for ExpressionConstraintOptions {
    fn default() -> (r: Self)
        ensures
            !r.rational_exponents,
            !r.rational_trig_args,
            r.max_trig_cycles is None,
            forall|i: int| 0 <= i < 16 ==> r.user_constant_types@[i] == NumType::Transcendental,
            forall|i: int| 0 <= i < 16 ==> r.user_function_types@[i] == NumType::Transcendental,
    {
        ExpressionConstraintOptions {
            rational_exponents: false,
            rational_trig_args: false,
            max_trig_cycles: None,
            user_constant_types: [NumType::Transcendental; 16],
            user_function_types: [NumType::Transcendental; 16],
        }
    }
}

/// Whether the symbol is one of the trigonometric functions.
pub open spec fn is_trig(sym: Symbol) -> bool {
    sym == Symbol::SinPi || sym == Symbol::CosPi || sym == Symbol::TanPi
}

/// Numeric class of a constant or of the variable.
pub open spec fn leaf_type(sym: Symbol, opts: ExpressionConstraintOptions) -> NumType {
    match sym.user_constant_index_of() {
        Some(i) => opts.user_constant_types@[i as int],
        None => sym.inherent_type_of(),
    }
}

/// Rank of the rational class.
pub open spec fn rational_rank() -> int {
    NumType::Rational.rank_of()
}

/// Numeric class of a function of one argument applied to an operand of class `a`.
pub open spec fn unary_type(op: Symbol, a: NumType, opts: ExpressionConstraintOptions) -> NumType {
    match op {
        Symbol::Neg | Symbol::Square => a,
        Symbol::Recip => if a.rank_of() >= rational_rank() {
            NumType::Rational
        } else {
            a
        },
        Symbol::Sqrt => if a.rank_of() >= rational_rank() {
            NumType::Algebraic
        } else {
            a
        },
        _ => match op.user_function_index_of() {
            Some(i) => opts.user_function_types@[i as int],
            None => NumType::Transcendental,
        },
    }
}

/// Numeric class of a function of two arguments applied to operands of
/// classes `l` and `r`, where `r_has_x` tells whether the right operand
/// contains `x`.
pub open spec fn binary_type(op: Symbol, l: NumType, r: NumType, r_has_x: bool) -> NumType {
    match op {
        Symbol::Add | Symbol::Sub | Symbol::Mul => l.combined(r),
        Symbol::Div => if l.combined(r) == NumType::Integer {
            NumType::Rational
        } else {
            l.combined(r)
        },
        Symbol::Pow => if r_has_x {
            NumType::Transcendental
        } else if r == NumType::Integer {
            l
        } else if l.rank_of() >= rational_rank() && r.rank_of() >= rational_rank() {
            NumType::Algebraic
        } else {
            NumType::Transcendental
        },
        Symbol::Root => NumType::Algebraic,
        _ => NumType::Transcendental,
    }
}

/// Whether `x` occurs in a tree.
pub open spec fn tree_has_x(t: Tree) -> bool
    decreases t,
{
    match t {
        Tree::Leaf(s) => s == Symbol::X,
        Tree::Unary(_, a) => tree_has_x(*a),
        Tree::Binary(_, a, b) => tree_has_x(*a) || tree_has_x(*b),
    }
}

/// Numeric class inferred for a tree.
pub open spec fn tree_type(t: Tree, opts: ExpressionConstraintOptions) -> NumType
    decreases t,
{
    match t {
        Tree::Leaf(s) => leaf_type(s, opts),
        Tree::Unary(op, a) => unary_type(op, tree_type(*a, opts), opts),
        Tree::Binary(op, a, b) => binary_type(
            op,
            tree_type(*a, opts),
            tree_type(*b, opts),
            tree_has_x(*b),
        ),
    }
}

/// Whether no node of the tree breaks the exponent and trigonometric
/// argument constraints.
pub open spec fn tree_ok(t: Tree, opts: ExpressionConstraintOptions) -> bool
    decreases t,
{
    match t {
        Tree::Leaf(_) => true,
        Tree::Unary(op, a) => tree_ok(*a, opts) && (is_trig(op) && opts.rational_trig_args ==> (
        !tree_has_x(*a) && tree_type(*a, opts).rank_of() >= rational_rank())),
        Tree::Binary(op, a, b) => tree_ok(*a, opts) && tree_ok(*b, opts) && (opts.rational_exponents
            && op == Symbol::Pow ==> (!tree_has_x(*b) && tree_type(*b, opts).rank_of()
            >= rational_rank())),
    }
}

/// Every tree of a stack satisfies the constraints.
pub open spec fn all_ok(st: Seq<Tree>, opts: ExpressionConstraintOptions) -> bool {
    forall|j: int| 0 <= j < st.len() ==> tree_ok(#[trigger] st[j], opts)
}

/// Number of trigonometric functions in `s`.
pub open spec fn trig_count(s: Seq<Symbol>) -> nat
    decreases s.len(),
{
    if s.len() == 0 {
        0
    } else {
        trig_count(s.drop_last()) + if is_trig(s.last()) {
            1nat
        } else {
            0nat
        }
    }
}

/// Whether the symbols form one expression that satisfies all the options.
pub open spec fn respects_constraints(s: Seq<Symbol>, opts: ExpressionConstraintOptions) -> bool {
    match parse_tree(s) {
        Some(t) => tree_ok(t, opts) && (opts.max_trig_cycles matches Some(m) ==> (if trig_count(s)
            > u32::MAX {
            u32::MAX as int
        } else {
            trig_count(s) as int
        }) <= m),
        None => false,
    }
}

/// A stack holding a tree that breaks the constraints keeps such a tree
/// after one more step.
proof fn lemma_step_keeps_bad(st: Seq<Tree>, sym: Symbol, opts: ExpressionConstraintOptions)
    requires
        !all_ok(st, opts),
    ensures
        stack_step(st, sym) matches Some(st2) ==> !all_ok(st2, opts),
{
    let j = choose|j: int| 0 <= j < st.len() && !tree_ok(#[trigger] st[j], opts);
    if let Some(st2) = stack_step(st, sym) {
        match sym.seft_of() {
            Seft::A => {
                assert(!tree_ok(st2[j], opts));
            },
            Seft::B => {
                if j == st.len() - 1 {
                    assert(!tree_ok(st2[j], opts));
                } else {
                    assert(!tree_ok(st2[j], opts));
                }
            },
            Seft::C => {
                if j >= st.len() - 2 {
                    assert(!tree_ok(st2[st.len() - 2], opts));
                } else {
                    assert(!tree_ok(st2[j], opts));
                }
            },
        }
    }
}

/// Once a prefix leaves a tree that breaks the constraints, so does the whole text.
proof fn lemma_bad_persists(s: Seq<Symbol>, i: int, opts: ExpressionConstraintOptions)
    requires
        0 <= i <= s.len(),
        postfix_stack(s.take(i)) matches Some(st) && !all_ok(st, opts),
    ensures
        postfix_stack(s) matches Some(st2) ==> !all_ok(st2, opts),
    decreases s.len() - i,
{
    if i < s.len() {
        assert(s.take(i + 1).drop_last() =~= s.take(i));
        let st = postfix_stack(s.take(i))->Some_0;
        lemma_step_keeps_bad(st, s[i], opts);
        if postfix_stack(s.take(i + 1)) is Some {
            lemma_bad_persists(s, i + 1, opts);
        } else {
            crate::tree::lemma_stack_none_extends(s, i + 1);
        }
    } else {
        assert(s.take(i) =~= s);
    }
}

/// Check if an expression respects the configured structural and numeric
/// constraints.
pub fn expression_respects_constraints(
    expression: &Expression,
    opts: ExpressionConstraintOptions,
) -> (r: bool)
    ensures
        r == respects_constraints(expression@, opts),
{
    let s = expression.symbols();
    let mut stack: Vec<(bool, NumType)> = Vec::new();
    let mut trig_ops: u32 = 0;
    let mut i: usize = 0;
    while i < s.len()
        invariant
            i <= s@.len(),
            s@ == expression@,
            trig_ops == (if trig_count(s@.take(i as int)) > u32::MAX {
                u32::MAX as int
            } else {
                trig_count(s@.take(i as int)) as int
            }),
            postfix_stack(s@.take(i as int)) matches Some(st) && st.len() == stack@.len() && all_ok(
                st,
                opts,
            ) && forall|j: int|
                0 <= j < st.len() ==> (#[trigger] stack@[j]).0 == tree_has_x(st[j]) && stack@[j].1
                    == tree_type(st[j], opts),
        decreases s.len() - i,
    {
        let ghost st = postfix_stack(s@.take(i as int))->Some_0;
        assert(s@.take(i + 1).drop_last() =~= s@.take(i as int));
        let sym = s[i];
        if sym == Symbol::SinPi || sym == Symbol::CosPi || sym == Symbol::TanPi {
            trig_ops = trig_ops.saturating_add(1);
        }
        match sym.seft() {
            Seft::A => {
                let num_type = match sym.user_constant_index() {
                    Some(idx) => opts.user_constant_types[idx as usize],
                    None => sym.inherent_type(),
                };
                stack.push((sym == Symbol::X, num_type));
            },
            Seft::B => {
                let arg = match stack.pop() {
                    Some(a) => a,
                    None => {
                        proof {
                            crate::tree::lemma_stack_none_extends(s@, i + 1);
                        }
                        return false;
                    },
                };
                if (sym == Symbol::SinPi || sym == Symbol::CosPi || sym == Symbol::TanPi)
                    && opts.rational_trig_args && (arg.0 || !arg.1.at_least(NumType::Rational)) {
                    proof {
                        let nst = postfix_stack(s@.take(i + 1))->Some_0;
                        assert(!tree_ok(nst[nst.len() - 1], opts));
                        lemma_bad_persists(s@, i + 1, opts);
                    }
                    return false;
                }
                let num_type = match sym {
                    Symbol::Neg | Symbol::Square => arg.1,
                    Symbol::Recip => if arg.1.at_least(NumType::Rational) {
                        NumType::Rational
                    } else {
                        arg.1
                    },
                    Symbol::Sqrt => if arg.1.at_least(NumType::Rational) {
                        NumType::Algebraic
                    } else {
                        arg.1
                    },
                    _ => match sym.user_function_index() {
                        Some(idx) => opts.user_function_types[idx as usize],
                        None => NumType::Transcendental,
                    },
                };
                stack.push((arg.0, num_type));
            },
            Seft::C => {
                if stack.len() < 2 {
                    proof {
                        crate::tree::lemma_stack_none_extends(s@, i + 1);
                    }
                    return false;
                }
                let rhs = stack.pop().unwrap();
                let lhs = stack.pop().unwrap();
                if opts.rational_exponents && sym == Symbol::Pow && (rhs.0 || !rhs.1.at_least(
                    NumType::Rational,
                )) {
                    proof {
                        let nst = postfix_stack(s@.take(i + 1))->Some_0;
                        assert(!tree_ok(nst[nst.len() - 1], opts));
                        lemma_bad_persists(s@, i + 1, opts);
                    }
                    return false;
                }
                let num_type = match sym {
                    Symbol::Add | Symbol::Sub | Symbol::Mul => lhs.1.combine(rhs.1),
                    Symbol::Div => {
                        let combined = lhs.1.combine(rhs.1);
                        if combined == NumType::Integer {
                            NumType::Rational
                        } else {
                            combined
                        }
                    },
                    Symbol::Pow => {
                        if rhs.0 {
                            NumType::Transcendental
                        } else if rhs.1 == NumType::Integer {
                            lhs.1
                        } else if lhs.1.at_least(NumType::Rational) && rhs.1.at_least(
                            NumType::Rational,
                        ) {
                            NumType::Algebraic
                        } else {
                            NumType::Transcendental
                        }
                    },
                    Symbol::Root => NumType::Algebraic,
                    _ => NumType::Transcendental,
                };
                stack.push((lhs.0 || rhs.0, num_type));
            },
        }
        proof {
            let nst = postfix_stack(s@.take(i + 1))->Some_0;
            assert forall|j: int| 0 <= j < nst.len() implies (#[trigger] stack@[j]).0
                == tree_has_x(nst[j]) && stack@[j].1 == tree_type(nst[j], opts) by {
                if j < nst.len() - 1 {
                    assert(nst[j] == st[j]);
                }
            }
            assert forall|j: int| 0 <= j < nst.len() implies tree_ok(#[trigger] nst[j], opts) by {
                if j < nst.len() - 1 {
                    assert(nst[j] == st[j]);
                }
            }
        }
        i = i + 1;
    }
    assert(s@.take(s@.len() as int) =~= s@);
    if stack.len() != 1 {
        return false;
    }
    match opts.max_trig_cycles {
        Some(max_cycles) => trig_ops <= max_cycles,
        None => true,
    }
}

/// Without the exponent and trigonometric-argument constraints no node of
/// a tree is refused.
proof fn lemma_unconstrained_tree_ok(t: Tree, opts: ExpressionConstraintOptions)
    requires
        !opts.rational_exponents,
        !opts.rational_trig_args,
    ensures
        tree_ok(t, opts),
    decreases t,
{
    match t {
        Tree::Leaf(_) => {},
        Tree::Unary(_, a) => lemma_unconstrained_tree_ok(*a, opts),
        Tree::Binary(_, a, b) => {
            lemma_unconstrained_tree_ok(*a, opts);
            lemma_unconstrained_tree_ok(*b, opts);
        },
    }
}

/// With no constraint switched on, exactly the well-formed expressions are
/// accepted.
pub proof fn lemma_unconstrained_accepts_valid(s: Seq<Symbol>, opts: ExpressionConstraintOptions)
    requires
        !opts.rational_exponents,
        !opts.rational_trig_args,
        opts.max_trig_cycles is None,
    ensures
        respects_constraints(s, opts) == valid_postfix(s),
{
    crate::tree::lemma_valid_iff_tree(s);
    if let Some(t) = parse_tree(s) {
        lemma_unconstrained_tree_ok(t, opts);
    }
}

/// Whether a tree is built from values of rational class by field
/// operations alone: negation, squaring, reciprocal, `+`, `-`, `*`, `/`,
/// powers with an integer exponent free of `x`, and user functions declared
/// rational; no square root, logarithm, exponential or trigonometric
/// function.
pub open spec fn field_built(t: Tree, opts: ExpressionConstraintOptions) -> bool
    decreases t,
{
    match t {
        Tree::Leaf(s) => leaf_type(s, opts).rank_of() >= rational_rank(),
        Tree::Unary(op, a) => match op {
            Symbol::Neg | Symbol::Square | Symbol::Recip => field_built(*a, opts),
            _ => match op.user_function_index_of() {
                Some(i) => opts.user_function_types@[i as int].rank_of() >= rational_rank(),
                None => false,
            },
        },
        Tree::Binary(op, a, b) => match op {
            Symbol::Add | Symbol::Sub | Symbol::Mul | Symbol::Div => field_built(*a, opts)
                && field_built(*b, opts),
            Symbol::Pow => field_built(*a, opts) && !tree_has_x(*b) && tree_type(*b, opts)
                == NumType::Integer,
            _ => false,
        },
    }
}

/// The inferred class is sound for rationals: an expression is classed
/// rational (or integer) only when it is built from rational values by
/// field operations, so a square root, a logarithm or a trigonometric
/// function never yields a rational class.
pub proof fn lemma_rational_class_is_field_built(t: Tree, opts: ExpressionConstraintOptions)
    ensures
        tree_type(t, opts).rank_of() >= rational_rank() ==> field_built(t, opts),
    decreases t,
{
    match t {
        Tree::Leaf(_) => {},
        Tree::Unary(op, a) => {
            lemma_rational_class_is_field_built(*a, opts);
        },
        Tree::Binary(op, a, b) => {
            lemma_rational_class_is_field_built(*a, opts);
            lemma_rational_class_is_field_built(*b, opts);
        },
    }
}

/// Whether every exponent of `^` in the tree is built from rational values
/// by field operations and free of `x`.
pub open spec fn exponents_field_built(t: Tree, opts: ExpressionConstraintOptions) -> bool
    decreases t,
{
    match t {
        Tree::Leaf(_) => true,
        Tree::Unary(_, a) => exponents_field_built(*a, opts),
        Tree::Binary(op, a, b) => exponents_field_built(*a, opts) && exponents_field_built(*b, opts)
            && (op == Symbol::Pow ==> !tree_has_x(*b) && field_built(*b, opts)),
    }
}

/// With rational exponents required, a tree that meets the constraints
/// raises only to exponents built from rational values by field
/// operations: `x^sqrt(2)` is refused.
pub proof fn lemma_rational_exponents_field_built(t: Tree, opts: ExpressionConstraintOptions)
    requires
        opts.rational_exponents,
        tree_ok(t, opts),
    ensures
        exponents_field_built(t, opts),
    decreases t,
{
    match t {
        Tree::Leaf(_) => {},
        Tree::Unary(op, a) => {
            lemma_rational_exponents_field_built(*a, opts);
        },
        Tree::Binary(op, a, b) => {
            lemma_rational_exponents_field_built(*a, opts);
            lemma_rational_exponents_field_built(*b, opts);
            lemma_rational_class_is_field_built(*b, opts);
        },
    }
}

/// An expression accepted with rational exponents required raises only to
/// exponents built from rational values by field operations.
pub proof fn lemma_accepted_exponents_field_built(s: Seq<Symbol>, opts: ExpressionConstraintOptions)
    requires
        opts.rational_exponents,
        respects_constraints(s, opts),
    ensures
        parse_tree(s) matches Some(t) && exponents_field_built(t, opts),
{
    lemma_rational_exponents_field_built(parse_tree(s)->Some_0, opts);
}

} // verus!
