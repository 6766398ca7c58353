//! One step of expression generation: which symbols may extend a partial
//! expression, and whether a complete one is kept.
//!
//! Generation walks postfix expressions depth first. At each partial
//! expression it asks which symbols may come next; it evaluates the complete
//! expressions it meets numerically and keeps those that `accepts_complete`
//! admits. The weights in force may differ from the built-in ones (profiles
//! and presets override them), so the running complexity `cost` is carried
//! by the caller.

use vstd::prelude::*;
use std::collections::HashMap;
use crate::expr::{count_of, Expression};
use crate::gen::{
    binary_prune_rule, exceeds_symbol_limit, get_max_complexity, lightest_binary_weight,
    min_weight, should_prune_binary, should_prune_unary, unary_prune_rule, GenConfig,
};
use crate::symbol::{NumType, Symbol};

verus! {

broadcast use vstd::std_specs::hash::group_hash_axioms;

/// Which kind of symbol a step adds.
#[derive(Clone, Copy, PartialEq, Eq, Structural, Debug)]
pub enum StepKind {
    /// A constant or `x`: the stack grows by one.
    Value,
    /// A function of one argument: the stack keeps its depth.
    Unary,
    /// A function of two arguments: the stack shrinks by one.
    Binary,
}

/// The weight of a symbol: its override where there is one, else its
/// built-in weight.
pub open spec fn weight_under(sym: Symbol, overrides: Map<u8, u32>) -> u32 {
    if overrides.contains_key(sym.byte_of()) {
        overrides[sym.byte_of()]
    } else {
        sym.weight_of()
    }
}

/// The complexity limit of a partial expression: the left-hand one once it
/// holds `x`, else the larger of the two.
pub open spec fn cost_limit(config: GenConfig, has_x: bool) -> u32 {
    if has_x || config.max_lhs_complexity >= config.max_rhs_complexity {
        config.max_lhs_complexity
    } else {
        config.max_rhs_complexity
    }
}

/// The least complexity still needed to bring a stack of `depth` values
/// down to one: a lightest function of two arguments for each extra value.
pub open spec fn cost_to_finish(config: GenConfig, depth: int) -> int {
    if depth <= 1 {
        0
    } else {
        (depth - 1) * match min_weight(config.binary_ops@) {
            Some(w) => w as int,
            None => 4,
        }
    }
}

/// Whether the count limit of `sym` is already reached in `s`.
pub open spec fn limit_reached(config: GenConfig, s: Seq<Symbol>, sym: Symbol) -> bool {
    config.symbol_max_counts@.contains_key(sym.byte_of()) && count_of(s, sym) as u32
        >= config.symbol_max_counts@[sym.byte_of()]
}

/// Whether `sym`, of the given kind, may extend `s` of running complexity
/// `cost` under the limit `limit`.
pub open spec fn step_allowed(
    config: GenConfig,
    s: Seq<Symbol>,
    cost: u32,
    limit: u32,
    overrides: Map<u8, u32>,
    sym: Symbol,
    kind: StepKind,
) -> bool {
    &&& cost + weight_under(sym, overrides) <= limit
    &&& !limit_reached(config, s, sym)
    &&& match kind {
        StepKind::Value => sym != Symbol::X || config.generate_lhs,
        StepKind::Unary => !(s.len() > 0 && unary_prune_rule(s.last(), sym)),
        StepKind::Binary => !binary_prune_rule(s, sym),
    }
}

/// The steps that the symbols of `ops`, in order, allow: each with its
/// symbol, the new stack depth and the new running complexity.
pub open spec fn steps_from(
    ops: Seq<Symbol>,
    config: GenConfig,
    s: Seq<Symbol>,
    cost: u32,
    limit: u32,
    overrides: Map<u8, u32>,
    kind: StepKind,
    new_depth: int,
) -> Seq<(Symbol, int, int)>
    decreases ops.len(),
{
    if ops.len() == 0 {
        Seq::empty()
    } else {
        let prev = steps_from(ops.drop_last(), config, s, cost, limit, overrides, kind, new_depth);
        let sym = ops.last();
        if step_allowed(config, s, cost, limit, overrides, sym, kind) {
            prev.push((sym, new_depth, cost + weight_under(sym, overrides)))
        } else {
            prev
        }
    }
}

/// Every step from the partial expression `s` with `depth` values on its
/// stack and running complexity `cost`: none once `s` has the maximum
/// length, reaches its complexity limit, or cannot be finished within it;
/// else the constants of the configuration, then `x` when the constants
/// leave it out and left-hand sides are generated, then the functions of
/// one argument (with a value on the stack) and of two (with two).
pub open spec fn expansion(
    config: GenConfig,
    s: Seq<Symbol>,
    cost: u32,
    depth: int,
    overrides: Map<u8, u32>,
) -> Seq<(Symbol, int, int)> {
    let limit = cost_limit(config, s.contains(Symbol::X));
    if s.len() >= config.max_length || cost >= limit || cost + cost_to_finish(config, depth)
        > limit {
        Seq::empty()
    } else {
        let values = steps_from(
            config.constants@,
            config,
            s,
            cost,
            limit,
            overrides,
            StepKind::Value,
            depth + 1,
        );
        let with_x = if config.generate_lhs && !config.constants@.contains(Symbol::X)
            && step_allowed(config, s, cost, limit, overrides, Symbol::X, StepKind::Value) {
            values.push((Symbol::X, depth + 1, cost + weight_under(Symbol::X, overrides)))
        } else {
            values
        };
        let with_unary = if depth >= 1 {
            with_x + steps_from(
                config.unary_ops@,
                config,
                s,
                cost,
                limit,
                overrides,
                StepKind::Unary,
                depth,
            )
        } else {
            with_x
        };
        if depth >= 2 {
            with_unary + steps_from(
                config.binary_ops@,
                config,
                s,
                cost,
                limit,
                overrides,
                StepKind::Binary,
                depth - 1,
            )
        } else {
            with_unary
        }
    }
}

/// The exec steps viewed with integer depth and cost.
pub open spec fn steps_view(v: Seq<(Symbol, usize, u32)>) -> Seq<(Symbol, int, int)> {
    v.map_values(|t: (Symbol, usize, u32)| (t.0, t.1 as int, t.2 as int))
}

/// The weight of a symbol under the overrides.
pub fn weight_with(sym: Symbol, overrides: &HashMap<u8, u32>) -> (r: u32)
    ensures
        r == weight_under(sym, overrides@),
{
    match overrides.get(&sym.to_byte()) {
        Some(w) => *w,
        None => sym.weight(),
    }
}

/// Whether `sym` of the given kind may extend `current`.
fn allowed(
    config: &GenConfig,
    current: &Expression,
    cost: u32,
    limit: u32,
    overrides: &HashMap<u8, u32>,
    sym: Symbol,
    kind: StepKind,
) -> (r: Option<u32>)
    requires
        cost <= limit,
    ensures
        r is Some == step_allowed(*config, current@, cost, limit, overrides@, sym, kind),
        r matches Some(c) ==> c == cost + weight_under(sym, overrides@),
{
    let w = weight_with(sym, overrides);
    if w > limit - cost || exceeds_symbol_limit(config, current, sym) {
        return None;
    }
    let kind_ok = match kind {
        StepKind::Value => sym != Symbol::X || config.generate_lhs,
        StepKind::Unary => !should_prune_unary(current, sym),
        StepKind::Binary => !should_prune_binary(current, sym),
    };
    if kind_ok {
        Some(cost + w)
    } else {
        None
    }
}

/// Append to `out` the steps that the symbols of `ops` allow.
fn push_steps(
    out: &mut Vec<(Symbol, usize, u32)>,
    ops: &Vec<Symbol>,
    config: &GenConfig,
    current: &Expression,
    cost: u32,
    limit: u32,
    overrides: &HashMap<u8, u32>,
    kind: StepKind,
    new_depth: usize,
)
    requires
        cost <= limit,
    ensures
        steps_view(final(out)@) == steps_view(old(out)@) + steps_from(
            ops@,
            *config,
            current@,
            cost,
            limit,
            overrides@,
            kind,
            new_depth as int,
        ),
{
    let ghost start = steps_view(old(out)@);
    let mut i: usize = 0;
    while i < ops.len()
        invariant
            i <= ops@.len(),
            cost <= limit,
            steps_view(out@) == start + steps_from(
                ops@.take(i as int),
                *config,
                current@,
                cost,
                limit,
                overrides@,
                kind,
                new_depth as int,
            ),
        decreases ops.len() - i,
    {
        let sym = ops[i];
        let ghost prev = steps_from(
            ops@.take(i as int),
            *config,
            current@,
            cost,
            limit,
            overrides@,
            kind,
            new_depth as int,
        );
        assert(ops@.take(i + 1).drop_last() =~= ops@.take(i as int));
        assert(ops@.take(i + 1).last() == sym);
        match allowed(config, current, cost, limit, overrides, sym, kind) {
            Some(c) => {
                let ghost before = out@;
                out.push((sym, new_depth, c));
                assert(steps_view(out@) =~= steps_view(before).push(
                    (sym, new_depth as int, c as int),
                ));
                assert(start + prev.push((sym, new_depth as int, c as int)) =~= (start + prev).push(
                    (sym, new_depth as int, c as int),
                ));
            },
            None => {},
        }
        i = i + 1;
    }
    assert(ops@.take(ops@.len() as int) =~= ops@);
}

/// The steps that may extend the partial expression `current`, which has
/// `depth` values on its stack and running complexity `cost` under the
/// weight overrides: each step gives the symbol, the new stack depth and
/// the new running complexity, in the order in which generation tries them.
pub fn expansion_steps(
    config: &GenConfig,
    current: &Expression,
    cost: u32,
    depth: usize,
    overrides: &HashMap<u8, u32>,
) -> (r: Vec<(Symbol, usize, u32)>)
    requires
        current.wf(),
        depth <= current@.len(),
    ensures
        steps_view(r@) == expansion(*config, current@, cost, depth as int, overrides@),
{
    let mut out: Vec<(Symbol, usize, u32)> = Vec::new();
    assert(steps_view(out@) =~= Seq::<(Symbol, int, int)>::empty());
    if current.len() >= config.max_length {
        return out;
    }
    let limit = get_max_complexity(config, current.contains_x());
    if cost >= limit {
        return out;
    }
    if depth > 1 {
        let lightest = lightest_binary_weight(config);
        let d: u128 = (depth - 1) as u128;
        let w: u128 = lightest as u128;
        assert(d * w <= 0xffff_ffff_ffff_ffffu128 * 0xffff_ffffu128) by (nonlinear_arith)
            requires
                d <= 0xffff_ffff_ffff_ffffu128,
                w <= 0xffff_ffffu128,
        ;
        let need: u128 = d * w;
        if cost as u128 + need > limit as u128 {
            return out;
        }
    }
    let ghost s = current@;
    let ghost o = overrides@;
    push_steps(&mut out, &config.constants, config, current, cost, limit, overrides, StepKind::Value, depth + 1);
    let ghost values = steps_view(out@);
    if config.generate_lhs && !slice_has_x(config.constants.as_slice()) {
        match allowed(config, current, cost, limit, overrides, Symbol::X, StepKind::Value) {
            Some(c) => {
                out.push((Symbol::X, depth + 1, c));
                assert(steps_view(out@) =~= values.push((Symbol::X, depth + 1, c as int)));
            },
            None => {},
        }
    }
    if depth >= 1 {
        push_steps(&mut out, &config.unary_ops, config, current, cost, limit, overrides, StepKind::Unary, depth);
    }
    if depth >= 2 {
        push_steps(&mut out, &config.binary_ops, config, current, cost, limit, overrides, StepKind::Binary, depth - 1);
    }
    out
}

/// Whether `x` is among the symbols.
fn slice_has_x(symbols: &[Symbol]) -> (r: bool)
    ensures
        r == symbols@.contains(Symbol::X),
{
    let mut i: usize = 0;
    while i < symbols.len()
        invariant
            i <= symbols@.len(),
            forall|k: int| 0 <= k < i ==> symbols@[k] != Symbol::X,
        decreases symbols.len() - i,
    {
        if symbols[i] == Symbol::X {
            assert(symbols@[i as int] == Symbol::X);
            return true;
        }
        i = i + 1;
    }
    false
}

/// Whether a complete expression of running complexity `cost`, numeric
/// class `class` and containing `x` or not (`has_x`) is kept: its class is
/// at least the required one and its side is generated within its limit.
/// Its value must also be finite and of moderate size; the caller, which
/// computed it, checks that.
pub fn accepts_complete(config: &GenConfig, cost: u32, has_x: bool, class: NumType) -> (r: bool)
    ensures
        r == (class.rank_of() >= config.min_num_type.rank_of() && if has_x {
            config.generate_lhs && cost <= config.max_lhs_complexity
        } else {
            config.generate_rhs && cost <= config.max_rhs_complexity
        }),
{
    class.at_least(config.min_num_type) && if has_x {
        config.generate_lhs && cost <= config.max_lhs_complexity
    } else {
        config.generate_rhs && cost <= config.max_rhs_complexity
    }
}

/// Every step that `steps_from` gives is allowed, at the given depth, with
/// the symbol's weight added.
proof fn lemma_steps_from_allowed(
    ops: Seq<Symbol>,
    config: GenConfig,
    s: Seq<Symbol>,
    cost: u32,
    limit: u32,
    overrides: Map<u8, u32>,
    kind: StepKind,
    new_depth: int,
    k: int,
)
    requires
        0 <= k < steps_from(ops, config, s, cost, limit, overrides, kind, new_depth).len(),
    ensures
        ({
            let t = steps_from(ops, config, s, cost, limit, overrides, kind, new_depth)[k];
            &&& step_allowed(config, s, cost, limit, overrides, t.0, kind)
            &&& t.1 == new_depth
            &&& t.2 == cost + weight_under(t.0, overrides)
        }),
    decreases ops.len(),
{
    let prev = steps_from(ops.drop_last(), config, s, cost, limit, overrides, kind, new_depth);
    if k < prev.len() {
        lemma_steps_from_allowed(ops.drop_last(), config, s, cost, limit, overrides, kind, new_depth, k);
    }
}

/// Generation stays within its limits: every step from a partial
/// expression adds the weight of its symbol without passing the complexity
/// limit, respects the symbol's count limit, and leaves at least one value
/// on the stack (one more after a constant or `x`, as many after a function
/// of one argument, one fewer after a function of two).
pub proof fn lemma_expansion_within_limits(
    config: GenConfig,
    s: Seq<Symbol>,
    cost: u32,
    depth: int,
    overrides: Map<u8, u32>,
    k: int,
)
    requires
        depth >= 0,
        0 <= k < expansion(config, s, cost, depth, overrides).len(),
    ensures
        ({
            let t = expansion(config, s, cost, depth, overrides)[k];
            &&& t.2 == cost + weight_under(t.0, overrides)
            &&& t.2 <= cost_limit(config, s.contains(Symbol::X))
            &&& !limit_reached(config, s, t.0)
            &&& t.1 >= 1
            &&& (t.1 == depth + 1 || t.1 == depth || t.1 == depth - 1)
        }),
{
    let limit = cost_limit(config, s.contains(Symbol::X));
    let values = steps_from(config.constants@, config, s, cost, limit, overrides, StepKind::Value, depth + 1);
    let with_x = if config.generate_lhs && !config.constants@.contains(Symbol::X) && step_allowed(
        config,
        s,
        cost,
        limit,
        overrides,
        Symbol::X,
        StepKind::Value,
    ) {
        values.push((Symbol::X, depth + 1, cost + weight_under(Symbol::X, overrides)))
    } else {
        values
    };
    let unary = steps_from(config.unary_ops@, config, s, cost, limit, overrides, StepKind::Unary, depth);
    let binary = steps_from(config.binary_ops@, config, s, cost, limit, overrides, StepKind::Binary, depth - 1);
    let with_unary = if depth >= 1 { with_x + unary } else { with_x };
    if k < values.len() {
        lemma_steps_from_allowed(config.constants@, config, s, cost, limit, overrides, StepKind::Value, depth + 1, k);
        assert(with_x[k] == values[k]);
    } else if k < with_x.len() {
    } else if k < with_unary.len() {
        lemma_steps_from_allowed(config.unary_ops@, config, s, cost, limit, overrides, StepKind::Unary, depth, k - with_x.len());
        assert(with_unary[k] == unary[k - with_x.len()]);
    } else {
        lemma_steps_from_allowed(config.binary_ops@, config, s, cost, limit, overrides, StepKind::Binary, depth - 1, k - with_unary.len());
    }
}

} // verus!
