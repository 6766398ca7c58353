//! Configuration of expression generation and the rules that decide which
//! symbol may extend a partial expression.
//!
//! Generation itself evaluates expressions numerically as it goes; the
//! decisions it takes about symbols, limits and pruning stand here.

use vstd::prelude::*;
use std::collections::HashMap;
use crate::expr::{count_of, Expression};
use crate::symbol::{NumType, Seft, Symbol};
use crate::tree::{lemma_parse_tree_roundtrip, lemma_stack_wf, postfix_stack, tree_postfix, Tree};

verus! {

broadcast use vstd::std_specs::hash::group_hash_axioms;

/// Configuration for expression generation.
///
/// Symbol count limits are keyed by the byte of the symbol. The user
/// constants and functions themselves carry numeric values and are kept by
/// the caller; the configuration records how many there are.
pub struct GenConfig {
    /// Maximum complexity of left-hand-side expressions (those with `x`).
    pub max_lhs_complexity: u32,
    /// Maximum complexity of right-hand-side expressions (constants only).
    pub max_rhs_complexity: u32,
    /// Maximum number of symbols in one expression.
    pub max_length: usize,
    /// Symbols that push a value (constants and `x`).
    pub constants: Vec<Symbol>,
    /// Functions of one argument.
    pub unary_ops: Vec<Symbol>,
    /// Functions of two arguments.
    pub binary_ops: Vec<Symbol>,
    /// Constants for right-hand sides, when they differ.
    pub rhs_constants: Option<Vec<Symbol>>,
    /// Functions of one argument for right-hand sides, when they differ.
    pub rhs_unary_ops: Option<Vec<Symbol>>,
    /// Functions of two arguments for right-hand sides, when they differ.
    pub rhs_binary_ops: Option<Vec<Symbol>>,
    /// Largest number of times a symbol may occur in one expression.
    pub symbol_max_counts: HashMap<u8, u32>,
    /// Count limits for right-hand sides, when they differ.
    pub rhs_symbol_max_counts: Option<HashMap<u8, u32>>,
    /// Minimum numeric type required of generated expressions.
    pub min_num_type: NumType,
    /// Whether to generate left-hand sides.
    pub generate_lhs: bool,
    /// Whether to generate right-hand sides.
    pub generate_rhs: bool,
    /// Number of user-defined constants.
    pub user_constant_count: usize,
    /// Number of user-defined functions.
    pub user_function_count: usize,
    /// Whether to report expressions dropped for arithmetic errors.
    pub show_pruned_arith: bool,
}

/// A copy of a vector of symbols.
pub fn copy_symbols(v: &Vec<Symbol>) -> (r: Vec<Symbol>)
    ensures
        r@ == v@,
{
    let mut out: Vec<Symbol> = Vec::new();
    let mut i: usize = 0;
    while i < v.len()
        invariant
            i <= v@.len(),
            out@ == v@.take(i as int),
        decreases v.len() - i,
    {
        out.push(v[i]);
        assert(v@.take(i + 1) =~= v@.take(i as int).push(v@[i as int]));
        i = i + 1;
    }
    assert(v@.take(v@.len() as int) =~= v@);
    out
}

impl Default for GenConfig {
    fn default() -> (r: Self)
        ensures
            r.max_lhs_complexity == 128,
            r.max_rhs_complexity == 128,
            r.max_length == crate::expr::MAX_EXPR_LEN,
            r.constants@ == Symbol::builtin_constants(),
            r.unary_ops@ == Symbol::builtin_unary_ops(),
            r.binary_ops@ == Symbol::builtin_binary_ops(),
            r.rhs_constants is None,
            r.rhs_unary_ops is None,
            r.rhs_binary_ops is None,
            r.symbol_max_counts@ == Map::<u8, u32>::empty(),
            r.rhs_symbol_max_counts is None,
            r.min_num_type == NumType::Transcendental,
            r.generate_lhs,
            r.generate_rhs,
            r.user_constant_count == 0,
            r.user_function_count == 0,
            !r.show_pruned_arith,
    {
        GenConfig {
            max_lhs_complexity: 128,
            max_rhs_complexity: 128,
            max_length: crate::expr::MAX_EXPR_LEN,
            constants: Symbol::constants(),
            unary_ops: Symbol::unary_ops(),
            binary_ops: Symbol::binary_ops(),
            rhs_constants: None,
            rhs_unary_ops: None,
            rhs_binary_ops: None,
            symbol_max_counts: HashMap::new(),
            rhs_symbol_max_counts: None,
            min_num_type: NumType::Transcendental,
            generate_lhs: true,
            generate_rhs: true,
            user_constant_count: 0,
            user_function_count: 0,
            show_pruned_arith: false,
        }
    }
}

/// Whether the configuration sets anything apart for right-hand sides.
pub fn has_rhs_symbol_overrides(config: &GenConfig) -> (r: bool)
    ensures
        r == (config.rhs_constants is Some || config.rhs_unary_ops is Some
            || config.rhs_binary_ops is Some || config.rhs_symbol_max_counts is Some),
{
    config.rhs_constants.is_some() || config.rhs_unary_ops.is_some()
        || config.rhs_binary_ops.is_some() || config.rhs_symbol_max_counts.is_some()
}

/// Complexity limit for a partial expression: the left-hand limit once it
/// holds `x`, else the larger limit, since `x` may still be added.
pub fn get_max_complexity(config: &GenConfig, contains_x: bool) -> (r: u32)
    ensures
        contains_x ==> r == config.max_lhs_complexity,
        !contains_x ==> r == if config.max_lhs_complexity >= config.max_rhs_complexity {
            config.max_lhs_complexity
        } else {
            config.max_rhs_complexity
        },
{
    if contains_x {
        config.max_lhs_complexity
    } else if config.max_lhs_complexity >= config.max_rhs_complexity {
        config.max_lhs_complexity
    } else {
        config.max_rhs_complexity
    }
}

/// The configuration for generating right-hand sides only: left-hand
/// generation off, and the right-hand symbol sets and limits in place of
/// the general ones where they are given.
pub fn rhs_only_config(config: &GenConfig) -> (r: GenConfig)
    ensures
        !r.generate_lhs,
        r.generate_rhs,
        r.constants@ == match config.rhs_constants {
            Some(v) => v@,
            None => config.constants@,
        },
        r.unary_ops@ == match config.rhs_unary_ops {
            Some(v) => v@,
            None => config.unary_ops@,
        },
        r.binary_ops@ == match config.rhs_binary_ops {
            Some(v) => v@,
            None => config.binary_ops@,
        },
        r.symbol_max_counts@ == match config.rhs_symbol_max_counts {
            Some(m) => m@,
            None => config.symbol_max_counts@,
        },
        r.rhs_constants.is_some() == config.rhs_constants.is_some(),
        r.rhs_constants matches Some(v) ==> v@ == config.rhs_constants->Some_0@,
        r.rhs_unary_ops.is_some() == config.rhs_unary_ops.is_some(),
        r.rhs_unary_ops matches Some(v) ==> v@ == config.rhs_unary_ops->Some_0@,
        r.rhs_binary_ops.is_some() == config.rhs_binary_ops.is_some(),
        r.rhs_binary_ops matches Some(v) ==> v@ == config.rhs_binary_ops->Some_0@,
        r.rhs_symbol_max_counts.is_some() == config.rhs_symbol_max_counts.is_some(),
        r.rhs_symbol_max_counts matches Some(m) ==> m@ == config.rhs_symbol_max_counts->Some_0@,
        r.max_lhs_complexity == config.max_lhs_complexity,
        r.max_rhs_complexity == config.max_rhs_complexity,
        r.max_length == config.max_length,
        r.min_num_type == config.min_num_type,
        r.user_constant_count == config.user_constant_count,
        r.user_function_count == config.user_function_count,
        r.show_pruned_arith == config.show_pruned_arith,
{
    let constants = match &config.rhs_constants {
        Some(v) => copy_symbols(v),
        None => copy_symbols(&config.constants),
    };
    let unary_ops = match &config.rhs_unary_ops {
        Some(v) => copy_symbols(v),
        None => copy_symbols(&config.unary_ops),
    };
    let binary_ops = match &config.rhs_binary_ops {
        Some(v) => copy_symbols(v),
        None => copy_symbols(&config.binary_ops),
    };
    let symbol_max_counts = match &config.rhs_symbol_max_counts {
        Some(m) => m.clone(),
        None => config.symbol_max_counts.clone(),
    };
    GenConfig {
        max_lhs_complexity: config.max_lhs_complexity,
        max_rhs_complexity: config.max_rhs_complexity,
        max_length: config.max_length,
        constants,
        unary_ops,
        binary_ops,
        rhs_constants: match &config.rhs_constants {
            Some(v) => Some(copy_symbols(v)),
            None => None,
        },
        rhs_unary_ops: match &config.rhs_unary_ops {
            Some(v) => Some(copy_symbols(v)),
            None => None,
        },
        rhs_binary_ops: match &config.rhs_binary_ops {
            Some(v) => Some(copy_symbols(v)),
            None => None,
        },
        symbol_max_counts,
        rhs_symbol_max_counts: match &config.rhs_symbol_max_counts {
            Some(m) => Some(m.clone()),
            None => None,
        },
        min_num_type: config.min_num_type,
        generate_lhs: false,
        generate_rhs: true,
        user_constant_count: config.user_constant_count,
        user_function_count: config.user_function_count,
        show_pruned_arith: config.show_pruned_arith,
    }
}

/// Whether `current` already holds `sym` as many times as its count limit
/// allows (the count taken as `u32`).
pub fn exceeds_symbol_limit(config: &GenConfig, current: &Expression, sym: Symbol) -> (r: bool)
    ensures
        r == (config.symbol_max_counts@.contains_key(sym.byte_of()) && count_of(current@, sym) as u32
            >= config.symbol_max_counts@[sym.byte_of()]),
{
    match config.symbol_max_counts.get(&sym.to_byte()) {
        Some(max) => current.count_symbol(sym) >= *max,
        None => false,
    }
}

/// Smallest default weight among `ops`, if there are any.
pub open spec fn min_weight(ops: Seq<Symbol>) -> Option<u32>
    decreases ops.len(),
{
    if ops.len() == 0 {
        None
    } else {
        let w = ops.last().weight_of();
        match min_weight(ops.drop_last()) {
            None => Some(w),
            Some(m) => Some(
                if w < m {
                    w
                } else {
                    m
                },
            ),
        }
    }
}

/// The weight of the lightest function of two arguments of the
/// configuration, 4 when it has none.
pub(crate) fn lightest_binary_weight(config: &GenConfig) -> (r: u32)
    ensures
        r == match min_weight(config.binary_ops@) {
            Some(w) => w,
            None => 4u32,
        },
{
    let ops = &config.binary_ops;
    let mut best: Option<u32> = None;
    let mut i: usize = 0;
    while i < ops.len()
        invariant
            i <= ops@.len(),
            ops@ == config.binary_ops@,
            best == min_weight(ops@.take(i as int)),
        decreases ops.len() - i,
    {
        let w = ops[i].weight();
        assert(ops@.take(i + 1).drop_last() =~= ops@.take(i as int));
        best = match best {
            None => Some(w),
            Some(m) => Some(
                if w < m {
                    w
                } else {
                    m
                },
            ),
        };
        i = i + 1;
    }
    assert(ops@.take(ops@.len() as int) =~= ops@);
    match best {
        Some(w) => w,
        None => 4,
    }
}

/// Least complexity that completing an expression with `stack_depth`
/// values on its stack still costs: one binary operator, at the smallest
/// default weight among those configured (4 when there are none), for each
/// value beyond the first. The operator count is taken as `u32`.
pub fn min_complexity_to_complete(stack_depth: usize, config: &GenConfig) -> (r: u32)
    requires
        stack_depth > 1 ==> ((stack_depth - 1) as u32) * match min_weight(config.binary_ops@) {
            Some(w) => w,
            None => 4u32,
        } <= u32::MAX,
    ensures
        r == if stack_depth <= 1 {
            0
        } else {
            ((stack_depth - 1) as u32) * match min_weight(config.binary_ops@) {
                Some(w) => w,
                None => 4u32,
            }
        },
{
    if stack_depth <= 1 {
        return 0;
    }
    let min_binary_weight = lightest_binary_weight(config);
    let depth = (stack_depth - 1) as u32;
    depth * min_binary_weight
}

/// Whether applying the unary `sym` right after the symbol `last` gives an
/// expression that is redundant or unhelpful: a double negation or
/// reciprocal, a function next to its inverse, powers better written
/// directly, and a few forms that are rarely useful.
pub open spec fn unary_prune_rule(last: Symbol, sym: Symbol) -> bool {
    match (last, sym) {
        (Symbol::Neg, Symbol::Neg) => true,
        (Symbol::Recip, Symbol::Recip) => true,
        (Symbol::Square, Symbol::Sqrt) => true,
        (Symbol::Sqrt, Symbol::Square) => true,
        (Symbol::Exp, Symbol::Ln) => true,
        (Symbol::Ln, Symbol::Exp) => true,
        (Symbol::Sqrt, Symbol::Recip) => true,
        (Symbol::Square, Symbol::Recip) => true,
        (Symbol::Ln, Symbol::Recip) => true,
        (Symbol::Square, Symbol::Square) => true,
        (Symbol::Sqrt, Symbol::Sqrt) => true,
        (Symbol::Sub, Symbol::Neg) => true,
        (Symbol::SinPi, Symbol::SinPi) => true,
        (Symbol::CosPi, Symbol::CosPi) => true,
        (Symbol::Exp, Symbol::Exp) => true,
        (Symbol::Exp, Symbol::LambertW) => true,
        (Symbol::Recip, Symbol::LambertW) => true,
        _ => false,
    }
}

/// Whether appending the unary `sym` to `expr` should be skipped.
pub fn should_prune_unary(expr: &Expression, sym: Symbol) -> (r: bool)
    ensures
        r == (expr@.len() > 0 && unary_prune_rule(expr@.last(), sym)),
{
    let symbols = expr.symbols();
    if symbols.len() == 0 {
        return false;
    }
    let last = symbols[symbols.len() - 1];
    match (last, sym) {
        (Symbol::Neg, Symbol::Neg) => true,
        (Symbol::Recip, Symbol::Recip) => true,
        (Symbol::Square, Symbol::Sqrt) => true,
        (Symbol::Sqrt, Symbol::Square) => true,
        (Symbol::Exp, Symbol::Ln) => true,
        (Symbol::Ln, Symbol::Exp) => true,
        (Symbol::Sqrt, Symbol::Recip) => true,
        (Symbol::Square, Symbol::Recip) => true,
        (Symbol::Ln, Symbol::Recip) => true,
        (Symbol::Square, Symbol::Square) => true,
        (Symbol::Sqrt, Symbol::Sqrt) => true,
        (Symbol::Sub, Symbol::Neg) => true,
        (Symbol::SinPi, Symbol::SinPi) => true,
        (Symbol::CosPi, Symbol::CosPi) => true,
        (Symbol::Exp, Symbol::Exp) => true,
        (Symbol::Exp, Symbol::LambertW) => true,
        (Symbol::Recip, Symbol::LambertW) => true,
        _ => false,
    }
}

/// Whether `sym` is a constant: it pushes a value and is not `x`.
pub open spec fn is_constant_symbol(sym: Symbol) -> bool {
    sym.seft_of() == Seft::A && sym != Symbol::X
}

/// Whether `sym` is a constant: it pushes a value and is not `x`.
pub fn is_constant(sym: Symbol) -> (r: bool)
    ensures
        r == is_constant_symbol(sym),
{
    match sym.seft() {
        Seft::A => sym != Symbol::X,
        _ => false,
    }
}

/// Whether the top `n` values of the stack that `s` leaves are `n ≥ 2`
/// identical subexpressions; text that underflows its stack, or is shorter
/// than `2 n` symbols, has none.
pub open spec fn top_items_identical(s: Seq<Symbol>, n: nat) -> bool {
    &&& n >= 2
    &&& s.len() >= 2 * n
    &&& postfix_stack(s) matches Some(st)
    &&& st.len() >= n
    &&& forall|k: int| st.len() - n <= k < st.len() ==> #[trigger] st[k] == st[st.len() - 1]
}

/// End of the stretch of symbols of stack entry `j` when the entries start
/// at `starts` and the text read so far ends at `i`.
pub open spec fn span_end(starts: Seq<usize>, j: int, i: int) -> int {
    if j + 1 < starts.len() {
        starts[j + 1] as int
    } else {
        i
    }
}

/// The stack entries starting at `starts` span, in order, the postfix text
/// of the trees `st`, the last one ending at `end`.
pub open spec fn spans_match(s: Seq<Symbol>, starts: Seq<usize>, st: Seq<Tree>, end: int) -> bool {
    &&& starts.len() == st.len()
    &&& forall|j: int| 0 <= j < starts.len() ==> starts[j] < #[trigger] span_end(starts, j, end) <= end
    &&& forall|j: int|
        0 <= j < starts.len() ==> #[trigger] s.subrange(starts[j] as int, span_end(starts, j, end))
            == tree_postfix(st[j])
}

/// Whether the symbol stretches `s[a1..e1]` and `s[a2..e2]` are equal.
fn same_stretch(s: &[Symbol], a1: usize, e1: usize, a2: usize, e2: usize) -> (r: bool)
    requires
        a1 <= e1 <= s@.len(),
        a2 <= e2 <= s@.len(),
    ensures
        r == (s@.subrange(a1 as int, e1 as int) == s@.subrange(a2 as int, e2 as int)),
{
    if e1 - a1 != e2 - a2 {
        assert(s@.subrange(a1 as int, e1 as int).len() != s@.subrange(a2 as int, e2 as int).len());
        return false;
    }
    let len = e1 - a1;
    let mut k: usize = 0;
    assert(s@.subrange(a1 as int, a1 as int) =~= s@.subrange(a2 as int, a2 as int));
    while k < len
        invariant
            len == e1 - a1,
            len == e2 - a2,
            a1 <= e1 <= s@.len(),
            a2 <= e2 <= s@.len(),
            k <= len,
            s@.subrange(a1 as int, a1 + k) == s@.subrange(a2 as int, a2 + k),
        decreases len - k,
    {
        if s[a1 + k] != s[a2 + k] {
            assert(s@.subrange(a1 as int, e1 as int)[k as int] != s@.subrange(a2 as int, e2 as int)[
                k as int]);
            return false;
        }
        assert(s@.subrange(a1 as int, a1 + k + 1) =~= s@.subrange(a1 as int, a1 + k).push(s@[a1 + k]));
        assert(s@.subrange(a2 as int, a2 + k + 1) =~= s@.subrange(a2 as int, a2 + k).push(s@[a2 + k]));
        k = k + 1;
    }
    assert(s@.subrange(a1 as int, e1 as int) =~= s@.subrange(a2 as int, e2 as int));
    true
}

/// Whether the last `n` values on the stack are identical subexpressions.
pub fn is_same_subexpr(symbols: &[Symbol], n: usize) -> (r: bool)
    ensures
        r == top_items_identical(symbols@, n as nat),
{
    if n < 2 || symbols.len() / 2 < n {
        return false;
    }
    let ghost s = symbols@;
    let mut starts: Vec<usize> = Vec::new();
    let mut i: usize = 0;
    assert(s.take(0) =~= Seq::<Symbol>::empty());
    while i < symbols.len()
        invariant
            s == symbols@,
            i <= s.len(),
            postfix_stack(s.take(i as int)) is Some,
            spans_match(s, starts@, postfix_stack(s.take(i as int)).unwrap(), i as int),
        decreases s.len() - i,
    {
        let sym = symbols[i];
        let ghost st = postfix_stack(s.take(i as int)).unwrap();
        let ghost prev = starts@;
        assert(s.take(i + 1).drop_last() =~= s.take(i as int));
        assert(s.take(i + 1).last() == sym);
        match sym.seft() {
            Seft::A => {
                starts.push(i);
                proof {
                    let nst = st.push(Tree::Leaf(sym));
                    assert(postfix_stack(s.take(i + 1)) == Some(nst));
                    assert forall|j: int| 0 <= j < starts@.len() implies starts@[j] < #[trigger] span_end(
                        starts@,
                        j,
                        i + 1,
                    ) <= i + 1 && s.subrange(starts@[j] as int, span_end(starts@, j, i + 1))
                        == tree_postfix(nst[j]) by {
                        if j < prev.len() {
                            assert(span_end(starts@, j, i + 1) == span_end(prev, j, i as int));
                            assert(s.subrange(starts@[j] as int, span_end(prev, j, i as int))
                                == tree_postfix(st[j]));
                        } else {
                            assert(s.subrange(i as int, i + 1) =~= seq![sym]);
                        }
                    }
                    assert(spans_match(s, starts@, nst, i + 1));
                }
            },
            Seft::B => {
                if starts.len() == 0 {
                    proof {
                        assert(postfix_stack(s.take(i + 1)) is None);
                        assert(s.take(s.len() as int) =~= s);
                        crate::tree::lemma_stack_none_extends(s, i + 1);
                    }
                    return false;
                }
                proof {
                    let top = st.len() - 1;
                    let nst = st.drop_last().push(Tree::Unary(sym, Box::new(st.last())));
                    assert(postfix_stack(s.take(i + 1)) == Some(nst));
                    assert forall|j: int| 0 <= j < starts@.len() implies starts@[j] < #[trigger] span_end(
                        starts@,
                        j,
                        i + 1,
                    ) <= i + 1 && s.subrange(starts@[j] as int, span_end(starts@, j, i + 1))
                        == tree_postfix(nst[j]) by {
                        if j < top {
                            assert(span_end(starts@, j, i + 1) == span_end(prev, j, i as int));
                            assert(s.subrange(starts@[j] as int, span_end(prev, j, i as int))
                                == tree_postfix(st[j]));
                        } else {
                            assert(s.subrange(starts@[j] as int, span_end(prev, j, i as int))
                                == tree_postfix(st[j]));
                            assert(s.subrange(starts@[j] as int, i + 1) =~= s.subrange(
                                starts@[j] as int,
                                i as int,
                            ).push(sym));
                        }
                    }
                    assert(spans_match(s, starts@, nst, i + 1));
                }
            },
            Seft::C => {
                if starts.len() < 2 {
                    proof {
                        assert(postfix_stack(s.take(i + 1)) is None);
                        crate::tree::lemma_stack_none_extends(s, i + 1);
                    }
                    return false;
                }
                let _ = starts.pop();
                proof {
                    let top = st.len() - 1;
                    let r = st[top];
                    let l = st[top - 1];
                    let nst = st.subrange(0, st.len() - 2).push(
                        Tree::Binary(sym, Box::new(l), Box::new(r)),
                    );
                    assert(postfix_stack(s.take(i + 1)) == Some(nst));
                    assert forall|j: int| 0 <= j < starts@.len() implies starts@[j] < #[trigger] span_end(
                        starts@,
                        j,
                        i + 1,
                    ) <= i + 1 && s.subrange(starts@[j] as int, span_end(starts@, j, i + 1))
                        == tree_postfix(nst[j]) by {
                        if j < top - 1 {
                            assert(starts@[j] == prev[j]);
                            assert(span_end(starts@, j, i + 1) == span_end(prev, j, i as int));
                            assert(s.subrange(prev[j] as int, span_end(prev, j, i as int))
                                == tree_postfix(st[j]));
                        } else {
                            let a = prev[top - 1] as int;
                            let m = prev[top] as int;
                            assert(s.subrange(a, span_end(prev, top - 1, i as int)) == tree_postfix(l));
                            assert(s.subrange(m, span_end(prev, top, i as int)) == tree_postfix(r));
                            assert(s.subrange(a, i + 1) =~= (s.subrange(a, m) + s.subrange(
                                m,
                                i as int,
                            )).push(sym));
                        }
                    }
                    assert(spans_match(s, starts@, nst, i + 1));
                }
            },
        }
        i = i + 1;
    }
    assert(s.take(s.len() as int) =~= s);
    assert(i == s.len());
    let ghost st = postfix_stack(s).unwrap();
    assert(spans_match(s, starts@, st, s.len() as int));
    let depth = starts.len();
    if depth < n {
        return false;
    }
    let last_start = starts[depth - 1];
    let mut k: usize = depth - n;
    proof {
        lemma_stack_wf(s);
    }
    while k < depth - 1
        invariant
            s == symbols@,
            postfix_stack(s) == Some(st),
            depth == starts@.len(),
            depth == st.len(),
            n <= depth,
            n >= 2,
            depth - n <= k <= depth - 1,
            last_start == starts@[depth - 1],
            spans_match(s, starts@, st, s.len() as int),
            forall|j: int| 0 <= j < st.len() ==> crate::tree::tree_wf(#[trigger] st[j]),
            forall|j: int| depth - n <= j < k ==> #[trigger] st[j] == st[depth - 1],
        decreases depth - 1 - k,
    {
        proof {
            assert(span_end(starts@, k as int, s.len() as int) == starts@[k + 1]);
            assert(span_end(starts@, depth - 1, s.len() as int) == s.len());
            assert(starts@[k as int] < span_end(starts@, k as int, s.len() as int));
            assert(starts@[depth - 1] < span_end(starts@, depth - 1, s.len() as int));
            assert(s.subrange(starts@[k as int] as int, span_end(starts@, k as int, s.len() as int))
                == tree_postfix(st[k as int]));
            assert(s.subrange(starts@[depth - 1] as int, span_end(starts@, depth - 1, s.len() as int))
                == tree_postfix(st[depth - 1]));
        }
        let same = same_stretch(symbols, starts[k], starts[k + 1], last_start, symbols.len());
        proof {
            let pk = s.subrange(starts@[k as int] as int, starts@[k + 1] as int);
            let pl = s.subrange(last_start as int, s.len() as int);
            assert(pk == tree_postfix(st[k as int]));
            assert(pl == tree_postfix(st[depth - 1]));
            lemma_parse_tree_roundtrip(st[k as int]);
            lemma_parse_tree_roundtrip(st[depth - 1]);
        }
        if !same {
            return false;
        }
        k = k + 1;
    }
    true
}

/// Whether applying the binary `sym` to the top two values of `s` gives an
/// expression that is trivial or degenerate (`a - a`, `a / a`, `a / 1`,
/// `a + a`, `x + (-x)`, `1^b`, `a^1`, `a * 1`, first and second roots,
/// logarithms of or to 1 and to base `e`) or one written in the
/// non-preferred order of two constants for `+` and `*` (by symbol byte).
pub open spec fn binary_prune_rule(s: Seq<Symbol>, sym: Symbol) -> bool {
    s.len() >= 2 && {
        let last = s.last();
        let prev = s[s.len() - 2];
        let same = top_items_identical(s, 2);
        let ordered_constants = prev.byte_of() > last.byte_of() && is_constant_symbol(last)
            && is_constant_symbol(prev);
        match sym {
            Symbol::Sub => same || (last == Symbol::X && prev == Symbol::X),
            Symbol::Div => same || (last == Symbol::X && prev == Symbol::X) || last == Symbol::One,
            Symbol::Add => same || (last == Symbol::Neg && s.len() >= 3 && prev == Symbol::X)
                || ordered_constants,
            Symbol::Pow => prev == Symbol::One || last == Symbol::One,
            Symbol::Mul => last == Symbol::One || prev == Symbol::One || ordered_constants,
            Symbol::Root => prev == Symbol::One || last == Symbol::One || last == Symbol::Two,
            Symbol::Log => (last == Symbol::X && prev == Symbol::X) || prev == Symbol::One || last
                == Symbol::One || prev == Symbol::E,
            _ => false,
        }
    }
}

/// Whether appending the binary `sym` to `expr` should be skipped.
pub fn should_prune_binary(expr: &Expression, sym: Symbol) -> (r: bool)
    ensures
        r == binary_prune_rule(expr@, sym),
{
    let symbols = expr.symbols();
    let n = symbols.len();
    if n < 2 {
        return false;
    }
    let last = symbols[n - 1];
    let prev = symbols[n - 2];
    let ordered_constants = prev.to_byte() > last.to_byte() && is_constant(last) && is_constant(prev);
    match sym {
        Symbol::Sub => is_same_subexpr(symbols, 2) || (last == Symbol::X && prev == Symbol::X),
        Symbol::Div => is_same_subexpr(symbols, 2) || (last == Symbol::X && prev == Symbol::X)
            || last == Symbol::One,
        Symbol::Add => is_same_subexpr(symbols, 2) || (last == Symbol::Neg && n >= 3 && prev
            == Symbol::X) || ordered_constants,
        Symbol::Pow => prev == Symbol::One || last == Symbol::One,
        Symbol::Mul => last == Symbol::One || prev == Symbol::One || ordered_constants,
        Symbol::Root => prev == Symbol::One || last == Symbol::One || last == Symbol::Two,
        Symbol::Log => (last == Symbol::X && prev == Symbol::X) || prev == Symbol::One || last
            == Symbol::One || prev == Symbol::E,
        _ => false,
    }
}

} // verus!
