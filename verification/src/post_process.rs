//! Expression-shape constraints chosen on the command line, and the
//! filters that they and the other match options apply to found equations.

use vstd::prelude::*;
use crate::canon::{canonical_expression_key, canonical_key_of, digit_signature_of, match_is_numeric_anagram};
use crate::constraints::{expression_respects_constraints, respects_constraints, ExpressionConstraintOptions};
use crate::expr::{postfix_chars, Expression};
use crate::symbol::{NumType, Symbol};
use crate::text::str_equals;

verus! {

/// Command-line flags that control expression-shape constraints.
#[derive(Clone, Copy, Debug)]
pub struct ExpressionConstraintArgs {
    /// Exponents must be rational (`--rational-exponents`).
    pub rational_exponents: bool,
    /// Exponents may be anything (`--any-exponents`); overrides the former.
    pub any_exponents: bool,
    /// Trigonometric arguments must be rational (`--rational-trig-args`).
    pub rational_trig_args: bool,
    /// Trigonometric arguments may be anything (`--any-trig-args`).
    pub any_trig_args: bool,
    /// Maximum number of trigonometric functions (`--max-trig-cycles`).
    pub max_trig_cycles: Option<u32>,
}

/// The numeric type of user slot `k` given the types of the defined slots:
/// those past the end, or past slot 15, are transcendental.
pub open spec fn slot_type(types: Seq<NumType>, k: int) -> NumType {
    if k < types.len() {
        types[k]
    } else {
        NumType::Transcendental
    }
}

/// The type array of the user slots.
fn slot_types(types: &[NumType]) -> (r: [NumType; 16])
    ensures
        forall|k: int| 0 <= k < 16 ==> #[trigger] r@[k] == slot_type(types@, k),
{
    let mut out = [NumType::Transcendental;16];
    let mut idx: usize = 0;
    while idx < types.len() && idx < 16
        invariant
            idx <= 16,
            idx <= types@.len(),
            forall|k: int| 0 <= k < idx ==> #[trigger] out@[k] == types@[k],
            forall|k: int| idx <= k < 16 ==> #[trigger] out@[k] == NumType::Transcendental,
        decreases 16 - idx,
    {
        out[idx] = types[idx];
        idx = idx + 1;
    }
    assert forall|k: int| 0 <= k < 16 implies #[trigger] out@[k] == slot_type(types@, k) by {
        if k < idx {
            assert(out@[k] == types@[k]);
        } else {
            assert(out@[k] == NumType::Transcendental);
        }
    }
    out
}

/// The numeric types of the user constants and of the values of the user
/// functions, slot by slot; undefined slots are transcendental.
pub fn user_type_arrays(constant_types: &[NumType], function_types: &[NumType]) -> (r: (
    [NumType; 16],
    [NumType; 16],
))
    ensures
        forall|k: int| 0 <= k < 16 ==> #[trigger] r.0@[k] == slot_type(constant_types@, k),
        forall|k: int| 0 <= k < 16 ==> #[trigger] r.1@[k] == slot_type(function_types@, k),
{
    (slot_types(constant_types), slot_types(function_types))
}

/// The expression constraint options that the flags and the user types
/// give, and whether any constraint is active: an `any` flag turns its
/// `rational` flag off.
pub fn expression_constraints_from_args(
    constant_types: &[NumType],
    function_types: &[NumType],
    args: ExpressionConstraintArgs,
) -> (r: (ExpressionConstraintOptions, bool))
    ensures
        r.0.rational_exponents == (args.rational_exponents && !args.any_exponents),
        r.0.rational_trig_args == (args.rational_trig_args && !args.any_trig_args),
        r.0.max_trig_cycles == args.max_trig_cycles,
        forall|k: int|
            0 <= k < 16 ==> #[trigger] r.0.user_constant_types@[k] == slot_type(constant_types@, k),
        forall|k: int|
            0 <= k < 16 ==> #[trigger] r.0.user_function_types@[k] == slot_type(function_types@, k),
        r.1 == (r.0.rational_exponents || r.0.rational_trig_args || r.0.max_trig_cycles is Some),
{
    let (user_constant_types, user_function_types) = user_type_arrays(constant_types, function_types);
    let options = ExpressionConstraintOptions {
        rational_exponents: args.rational_exponents && !args.any_exponents,
        rational_trig_args: args.rational_trig_args && !args.any_trig_args,
        max_trig_cycles: args.max_trig_cycles,
        user_constant_types,
        user_function_types,
    };
    let active = options.rational_exponents || options.rational_trig_args
        || options.max_trig_cycles.is_some();
    (options, active)
}

/// The key by which canonical deduplication compares a side: its
/// canonical key, or its postfix text when it has none.
pub open spec fn side_key(s: Seq<Symbol>) -> Seq<char> {
    match canonical_key_of(s) {
        Some(k) => k,
        None => postfix_chars(s),
    }
}

/// Whether the equation `lhs = rhs` passes the shape constraints (when
/// given) and, when asked, the numeric-anagram test.
pub open spec fn passes_filters(
    lhs: Seq<Symbol>,
    rhs: Seq<Symbol>,
    constraints: Option<ExpressionConstraintOptions>,
    numeric_anagram: bool,
) -> bool {
    &&& (constraints matches Some(o) ==> respects_constraints(lhs, o) && respects_constraints(rhs, o))
    &&& (numeric_anagram ==> digit_signature_of(lhs).len() > 0 && digit_signature_of(lhs)
        == digit_signature_of(rhs))
}

/// The positions of the equations of `eqs` that the filters keep, in
/// order: those that pass, and with `canon`, only the first of those with
/// the same pair of side keys.
pub open spec fn kept_positions(
    eqs: Seq<(Seq<Symbol>, Seq<Symbol>)>,
    constraints: Option<ExpressionConstraintOptions>,
    numeric_anagram: bool,
    canon: bool,
) -> Seq<int>
    decreases eqs.len(),
{
    if eqs.len() == 0 {
        Seq::empty()
    } else {
        let prev = kept_positions(eqs.drop_last(), constraints, numeric_anagram, canon);
        let i = eqs.len() - 1;
        let e = eqs[i];
        let seen = exists|k: int|
            0 <= k < prev.len() && side_key(eqs[prev[k]].0) == side_key(e.0) && side_key(
                eqs[prev[k]].1,
            ) == side_key(e.1);
        if passes_filters(e.0, e.1, constraints, numeric_anagram) && !(canon && seen) {
            prev.push(i)
        } else {
            prev
        }
    }
}

/// The equations as pairs of symbol sequences.
pub open spec fn equation_views(eqs: Seq<(Expression, Expression)>) -> Seq<(Seq<Symbol>, Seq<Symbol>)> {
    eqs.map_values(|e: (Expression, Expression)| (e.0@, e.1@))
}

/// The key of a side for canonical deduplication.
fn side_key_of(e: &Expression) -> (r: String)
    ensures
        r@ == side_key(e@),
{
    match canonical_expression_key(e) {
        Some(k) => k,
        None => e.to_postfix(),
    }
}

/// Which of the found equations the match options keep, by position: the
/// shape constraints (when given), the numeric-anagram test (when asked),
/// and with `canon` only the first equation of each pair of canonical side
/// keys. The options on values (equate bounds, match distance) are numeric
/// and are applied by the caller before.
pub fn kept_equations(
    eqs: &Vec<(Expression, Expression)>,
    constraints: Option<ExpressionConstraintOptions>,
    numeric_anagram: bool,
    canon: bool,
) -> (r: Vec<usize>)
    ensures
        r@.map_values(|i: usize| i as int) == kept_positions(
            equation_views(eqs@),
            constraints,
            numeric_anagram,
            canon,
        ),
{
    let ghost views = equation_views(eqs@);
    let mut kept: Vec<usize> = Vec::new();
    let mut keys: Vec<(String, String)> = Vec::new();
    let mut i: usize = 0;
    while i < eqs.len()
        invariant
            i <= eqs@.len(),
            views == equation_views(eqs@),
            kept@.map_values(|j: usize| j as int) == kept_positions(
                views.take(i as int),
                constraints,
                numeric_anagram,
                canon,
            ),
            keys@.len() == kept@.len(),
            forall|k: int| 0 <= k < kept@.len() ==> #[trigger] kept@[k] < i,
            forall|k: int|
                0 <= k < keys@.len() ==> #[trigger] keys@[k].0@ == side_key(views[kept@[k] as int].0)
                    && keys@[k].1@ == side_key(views[kept@[k] as int].1),
        decreases eqs.len() - i,
    {
        let ghost prefix = views.take(i as int);
        let ghost next = views.take(i + 1);
        assert(next.drop_last() =~= prefix);
        assert(next[i as int] == views[i as int]);
        let ghost prev = kept_positions(prefix, constraints, numeric_anagram, canon);
        assert(forall|k: int| 0 <= k < prev.len() ==> next[prev[k]] == views[prev[k]]) by {
            assert forall|k: int| 0 <= k < prev.len() implies next[prev[k]] == views[prev[k]] by {
                assert(prev[k] == kept@[k] as int);
            }
        }
        let lhs = &eqs[i].0;
        let rhs = &eqs[i].1;
        assert(views[i as int] == (lhs@, rhs@));
        let pass_shape = match constraints {
            Some(o) => expression_respects_constraints(lhs, o) && expression_respects_constraints(rhs, o),
            None => true,
        };
        let pass = pass_shape && (!numeric_anagram || match_is_numeric_anagram(lhs, rhs));
        if pass {
            let lk = side_key_of(lhs);
            let rk = side_key_of(rhs);
            let mut seen = false;
            if canon {
                let mut k: usize = 0;
                while k < keys.len()
                    invariant
                        k <= keys@.len(),
                        !seen ==> forall|m: int| 0 <= m < k ==> !(#[trigger] keys@[m].0@ == lk@
                            && keys@[m].1@ == rk@),
                        seen ==> exists|m: int| 0 <= m < keys@.len() && #[trigger] keys@[m].0@
                            == lk@ && keys@[m].1@ == rk@,
                    decreases keys.len() - k,
                {
                    if str_equals(keys[k].0.as_str(), lk.as_str()) && str_equals(keys[k].1.as_str(), rk.as_str()) {
                        seen = true;
                        assert(keys@[k as int].0@ == lk@ && keys@[k as int].1@ == rk@);
                    }
                    k = k + 1;
                }
                proof {
                    if seen {
                        let m = choose|m: int| 0 <= m < keys@.len() && #[trigger] keys@[m].0@
                            == lk@ && keys@[m].1@ == rk@;
                        assert(prev[m] == kept@[m] as int);
                    } else {
                        assert forall|m: int| 0 <= m < prev.len() implies !(side_key(
                            next[prev[m]].0,
                        ) == side_key(next[i as int].0) && side_key(next[prev[m]].1) == side_key(
                            next[i as int].1,
                        )) by {
                            let j = prev[m];
                            assert(j == kept@[m] as int);
                            assert(keys@[m].0@ == side_key(views[j].0));
                            assert(keys@[m].1@ == side_key(views[j].1));
                            assert(next[j] == views[j]);
                            assert(lk@ == side_key(views[i as int].0));
                            assert(rk@ == side_key(views[i as int].1));
                            assert(!(keys@[m].0@ == lk@ && keys@[m].1@ == rk@));
                        }
                    }
                }
            }
            if !seen {
                let ghost before = kept@.map_values(|j: usize| j as int);
                kept.push(i);
                keys.push((lk, rk));
                assert(kept@.map_values(|j: usize| j as int) =~= before.push(i as int));
            }
        }
        i = i + 1;
    }
    assert(views.take(eqs@.len() as int) =~= views);
    kept
}

/// The filters keep equations in their order, each of which passes them;
/// with canonical deduplication no two kept equations have the same pair
/// of side keys.
pub proof fn lemma_kept_positions_sound(
    eqs: Seq<(Seq<Symbol>, Seq<Symbol>)>,
    constraints: Option<ExpressionConstraintOptions>,
    numeric_anagram: bool,
    canon: bool,
)
    ensures
        ({
            let kept = kept_positions(eqs, constraints, numeric_anagram, canon);
            &&& forall|k: int| 0 <= k < kept.len() ==> 0 <= #[trigger] kept[k] < eqs.len()
            &&& forall|k: int|
                0 <= k < kept.len() ==> passes_filters(
                    eqs[#[trigger] kept[k]].0,
                    eqs[kept[k]].1,
                    constraints,
                    numeric_anagram,
                )
            &&& forall|a: int, b: int| 0 <= a < b < kept.len() ==> #[trigger] kept[a] < #[trigger] kept[b]
            &&& canon ==> forall|a: int, b: int|
                0 <= a < b < kept.len() ==> !(side_key(eqs[#[trigger] kept[a]].0) == side_key(
                    eqs[#[trigger] kept[b]].0,
                ) && side_key(eqs[kept[a]].1) == side_key(eqs[kept[b]].1))
        }),
    decreases eqs.len(),
{
    if eqs.len() > 0 {
        let init = eqs.drop_last();
        lemma_kept_positions_sound(init, constraints, numeric_anagram, canon);
        let prev = kept_positions(init, constraints, numeric_anagram, canon);
        assert forall|k: int| 0 <= k < prev.len() implies eqs[#[trigger] prev[k]] == init[prev[k]] by {}
    }
}

/// The filters drop nothing else: every equation that passes them is kept
/// unless, with canonical deduplication, an earlier kept equation has the
/// same key on both sides. An equation that shares only one side's key
/// with the earlier ones stays.
pub proof fn lemma_kept_positions_complete(
    eqs: Seq<(Seq<Symbol>, Seq<Symbol>)>,
    constraints: Option<ExpressionConstraintOptions>,
    numeric_anagram: bool,
    canon: bool,
    i: int,
)
    requires
        0 <= i < eqs.len(),
        passes_filters(eqs[i].0, eqs[i].1, constraints, numeric_anagram),
        canon ==> forall|k: int|
            0 <= k < kept_positions(eqs, constraints, numeric_anagram, canon).len()
                && #[trigger] kept_positions(eqs, constraints, numeric_anagram, canon)[k] < i
                ==> !(side_key(eqs[kept_positions(eqs, constraints, numeric_anagram, canon)[k]].0)
                == side_key(eqs[i].0) && side_key(
                eqs[kept_positions(eqs, constraints, numeric_anagram, canon)[k]].1,
            ) == side_key(eqs[i].1)),
    ensures
        kept_positions(eqs, constraints, numeric_anagram, canon).contains(i),
    decreases eqs.len(),
{
    let init = eqs.drop_last();
    let prev = kept_positions(init, constraints, numeric_anagram, canon);
    let kept = kept_positions(eqs, constraints, numeric_anagram, canon);
    lemma_kept_positions_sound(init, constraints, numeric_anagram, canon);
    assert(kept == prev || kept == prev.push(eqs.len() - 1));
    assert forall|k: int| 0 <= k < prev.len() implies #[trigger] kept[k] == prev[k] by {}
    if i < eqs.len() - 1 {
        assert(init[i] == eqs[i]);
        if canon {
            assert forall|k: int| 0 <= k < prev.len() && #[trigger] prev[k] < i implies !(side_key(
                init[prev[k]].0,
            ) == side_key(init[i].0) && side_key(init[prev[k]].1) == side_key(init[i].1)) by {
                assert(kept[k] == prev[k]);
                assert(init[prev[k]] == eqs[prev[k]]);
            }
        }
        lemma_kept_positions_complete(init, constraints, numeric_anagram, canon, i);
        let w = choose|w: int| 0 <= w < prev.len() && prev[w] == i;
        assert(kept[w] == i);
    } else {
        let e = eqs[i];
        if canon {
            assert(!(exists|k: int|
                0 <= k < prev.len() && side_key(eqs[prev[k]].0) == side_key(e.0) && side_key(
                    eqs[prev[k]].1,
                ) == side_key(e.1))) by {
                assert forall|k: int| 0 <= k < prev.len() implies !(side_key(eqs[prev[k]].0)
                    == side_key(e.0) && side_key(eqs[prev[k]].1) == side_key(e.1)) by {
                    assert(kept[k] == prev[k]);
                    assert(prev[k] < i);
                }
            }
        }
        assert(kept == prev.push(i));
        assert(kept[prev.len() as int] == i);
    }
}

} // verus!
