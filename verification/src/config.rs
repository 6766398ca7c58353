//! Building the generation configuration from command-line options.

use vstd::prelude::*;
use std::collections::{HashMap, HashSet};
use crate::args::{optional_set_view, parse_symbol_count_limits, parse_symbol_sets, scan_limits, symbol_sets};
use crate::gen::{copy_symbols, GenConfig};
use crate::symbol::{NumType, Symbol};

verus! {

broadcast use vstd::std_specs::hash::group_hash_axioms;

/// Whether a symbol survives the allowed and excluded byte sets.
pub open spec fn keeps(sym: Symbol, allowed: Option<Set<u8>>, excluded: Option<Set<u8>>) -> bool {
    &&& (allowed matches Some(a) ==> a.contains(sym.byte_of()))
    &&& (excluded matches Some(x) ==> !x.contains(sym.byte_of()))
}

/// The symbols of `s` that survive the allowed and excluded sets, in order.
pub open spec fn filtered(s: Seq<Symbol>, allowed: Option<Set<u8>>, excluded: Option<Set<u8>>) -> Seq<
    Symbol,
> {
    s.filter(|sym: Symbol| keeps(sym, allowed, excluded))
}

/// The symbols named by the bytes `base` to `base + n - 1` that are not
/// excluded, in order; bytes that name no symbol are passed over.
pub open spec fn user_slots_kept(base: u8, n: nat, excluded: Option<Set<u8>>) -> Seq<Symbol>
    decreases n,
{
    if n == 0 {
        Seq::empty()
    } else {
        let prev = user_slots_kept(base, (n - 1) as nat, excluded);
        match Symbol::symbol_of_byte((base + n - 1) as u8) {
            Some(sym) => if keeps(sym, None, excluded) {
                prev.push(sym)
            } else {
                prev
            },
            None => prev,
        }
    }
}

/// `count`, or 16 when it is larger: the number of user slots.
pub open spec fn slot_count(count: nat) -> nat {
    if count < 16 {
        count
    } else {
        16
    }
}

/// Keep the symbols whose bytes are in `allowed` (when given) and not in
/// `excluded` (when given).
pub fn filter_symbols(
    symbols: &[Symbol],
    allowed: Option<&HashSet<u8>>,
    excluded: Option<&HashSet<u8>>,
) -> (r: Vec<Symbol>)
    ensures
        r@ == filtered(
            symbols@,
            match allowed {
                Some(a) => Some(a@),
                None => None,
            },
            match excluded {
                Some(x) => Some(x@),
                None => None,
            },
        ),
{
    let ghost a = match allowed {
        Some(a) => Some(a@),
        None => None::<Set<u8>>,
    };
    let ghost x = match excluded {
        Some(x) => Some(x@),
        None => None::<Set<u8>>,
    };
    let mut result: Vec<Symbol> = Vec::new();
    let mut i: usize = 0;
    while i < symbols.len()
        invariant
            i <= symbols@.len(),
            a == match allowed {
                Some(a) => Some(a@),
                None => None::<Set<u8>>,
            },
            x == match excluded {
                Some(x) => Some(x@),
                None => None::<Set<u8>>,
            },
            result@ == filtered(symbols@.take(i as int), a, x),
        decreases symbols.len() - i,
    {
        let sym = symbols[i];
        let b = sym.to_byte();
        let allowed_ok = match allowed {
            Some(set) => set.contains(&b),
            None => true,
        };
        let excluded_ok = match excluded {
            Some(set) => !set.contains(&b),
            None => true,
        };
        proof {
            let p = symbols@.take(i + 1);
            assert(p.drop_last() =~= symbols@.take(i as int));
            assert(p.last() == sym);
            reveal_with_fuel(Seq::filter, 1);
        }
        if allowed_ok && excluded_ok {
            result.push(sym);
        }
        i = i + 1;
    }
    assert(symbols@.take(symbols@.len() as int) =~= symbols@);
    result
}

/// Append the symbols of the first `count` (at most 16) user slots from
/// byte `base` to `out`, skipping bytes that name no symbol and symbols
/// whose bytes are in `excluded`.
fn push_user_slots(out: &mut Vec<Symbol>, base: u8, count: usize, excluded: Option<&HashSet<u8>>)
    requires
        base <= 144,
    ensures
        final(out)@ == old(out)@ + user_slots_kept(
            base,
            slot_count(count as nat),
            match excluded {
                Some(x) => Some(x@),
                None => None,
            },
        ),
{
    let ghost x = match excluded {
        Some(x) => Some(x@),
        None => None::<Set<u8>>,
    };
    let limit: usize = if count < 16 {
        count
    } else {
        16
    };
    let mut idx: usize = 0;
    while idx < limit
        invariant
            base <= 144,
            limit <= 16,
            limit == slot_count(count as nat),
            idx <= limit,
            x == match excluded {
                Some(x) => Some(x@),
                None => None::<Set<u8>>,
            },
            out@ == old(out)@ + user_slots_kept(base, idx as nat, x),
        decreases limit - idx,
    {
        let b: u8 = base + (idx as u8);
        let ghost before = out@;
        match Symbol::from_byte(b) {
            Some(sym) => {
                proof {
                    crate::symbol::lemma_byte_symbol_roundtrip(b);
                }
                let is_excluded = match excluded {
                    Some(set) => set.contains(&b),
                    None => false,
                };
                if !is_excluded {
                    out.push(sym);
                }
            },
            None => {},
        }
        proof {
            assert(user_slots_kept(base, (idx + 1) as nat, x) == match Symbol::symbol_of_byte(b) {
                Some(sym) => if keeps(sym, None, x) {
                    user_slots_kept(base, idx as nat, x).push(sym)
                } else {
                    user_slots_kept(base, idx as nat, x)
                },
                None => user_slots_kept(base, idx as nat, x),
            });
            assert(out@ =~= old(out)@ + user_slots_kept(base, (idx + 1) as nat, x));
        }
        idx = idx + 1;
    }
}

/// The optional contents of an optional borrowed set.
pub open spec fn borrowed_set_view(o: Option<&HashSet<u8>>) -> Option<Set<u8>> {
    match o {
        Some(x) => Some(x@),
        None => None,
    }
}

/// A borrow of the set inside an option.
fn as_ref_set(o: &Option<HashSet<u8>>) -> (r: Option<&HashSet<u8>>)
    ensures
        borrowed_set_view(r) == optional_set_view(*o),
{
    match o {
        Some(x) => Some(x),
        None => None,
    }
}

/// The count limits an optional `-O` text gives: none when it is absent.
pub open spec fn limits_of(text: Option<Seq<char>>) -> Result<Map<u8, u32>, Seq<char>> {
    match text {
        Some(t) => scan_limits(t, 0, Map::empty()),
        None => Ok(Map::empty()),
    }
}

/// The view of an optional string slice.
pub open spec fn opt_view(o: Option<&str>) -> Option<Seq<char>> {
    match o {
        Some(s) => Some(s@),
        None => None,
    }
}

/// The left-hand pool of a symbol class: the built-in symbols that the
/// allowed and excluded sets keep, then the user slots that are not
/// excluded.
pub open spec fn pool(
    builtin: Seq<Symbol>,
    base: u8,
    user_count: nat,
    allowed: Option<Set<u8>>,
    excluded: Option<Set<u8>>,
) -> Seq<Symbol> {
    filtered(builtin, allowed, excluded) + user_slots_kept(base, slot_count(user_count), excluded)
}

/// The right-hand pool of a symbol class: from every symbol of the class
/// (user slots included) when right-hand allowed symbols are given, else
/// from the left-hand pool, filtered by the right-hand sets.
pub open spec fn rhs_pool(
    builtin: Seq<Symbol>,
    base: u8,
    user_count: nat,
    lhs: Seq<Symbol>,
    allowed_rhs: Option<Set<u8>>,
    excluded_rhs: Option<Set<u8>>,
) -> Seq<Symbol> {
    filtered(
        if allowed_rhs is Some {
            builtin + user_slots_kept(base, slot_count(user_count), None)
        } else {
            lhs
        },
        allowed_rhs,
        excluded_rhs,
    )
}

/// Build the generation configuration from the command-line options:
/// complexity limits, the minimum numeric type, the symbol options `-N`,
/// `-E`, `-S` for both sides and for right-hand sides, the `-O` count
/// limits for both, and the numbers of user constants and functions.
pub fn build_gen_config(
    max_lhs_complexity: u32,
    max_rhs_complexity: u32,
    min_type: NumType,
    exclude: Option<&str>,
    enable: Option<&str>,
    only_symbols: Option<&str>,
    exclude_rhs: Option<&str>,
    enable_rhs: Option<&str>,
    only_symbols_rhs: Option<&str>,
    op_limits: Option<&str>,
    op_limits_rhs: Option<&str>,
    user_constant_count: usize,
    user_function_count: usize,
    show_pruned_arith: bool,
) -> (r: Result<GenConfig, String>)
    ensures
        limits_of(opt_view(op_limits)) matches Err(m) ==> r matches Err(e) && e@ == m,
        limits_of(opt_view(op_limits)) is Ok ==> (limits_of(opt_view(op_limits_rhs)) matches Err(m)
            ==> r matches Err(e) && e@ == m),
        r is Ok <==> (limits_of(opt_view(op_limits)) is Ok && limits_of(opt_view(op_limits_rhs)) is Ok),
        r matches Ok(c) ==> {
            let (allowed, excluded) = symbol_sets(only_symbols, exclude, enable);
            let (allowed_rhs, excluded_rhs) = symbol_sets(only_symbols_rhs, exclude_rhs, enable_rhs);
            let constants = pool(Symbol::builtin_constants(), 128, user_constant_count as nat, allowed, excluded);
            let unary = pool(Symbol::builtin_unary_ops(), 144, user_function_count as nat, allowed, excluded);
            let binary = filtered(Symbol::builtin_binary_ops(), allowed, excluded);
            let has_rhs = allowed_rhs is Some || excluded_rhs is Some || op_limits_rhs is Some;
            &&& c.max_lhs_complexity == max_lhs_complexity
            &&& c.max_rhs_complexity == max_rhs_complexity
            &&& c.max_length == crate::expr::MAX_EXPR_LEN
            &&& c.min_num_type == min_type
            &&& c.generate_lhs && c.generate_rhs
            &&& c.user_constant_count == user_constant_count
            &&& c.user_function_count == user_function_count
            &&& c.show_pruned_arith == show_pruned_arith
            &&& c.constants@ == constants
            &&& c.unary_ops@ == unary
            &&& c.binary_ops@ == binary
            &&& Ok::<Map<u8, u32>, Seq<char>>(c.symbol_max_counts@) == limits_of(opt_view(op_limits))
            &&& (op_limits_rhs is None ==> c.rhs_symbol_max_counts is None)
            &&& (c.rhs_symbol_max_counts matches Some(m) ==> op_limits_rhs is Some && Ok::<
                Map<u8, u32>,
                Seq<char>,
            >(m@) == limits_of(opt_view(op_limits_rhs)))
            &&& (op_limits_rhs is Some ==> c.rhs_symbol_max_counts is Some)
            &&& c.rhs_constants is Some == has_rhs
            &&& c.rhs_unary_ops is Some == has_rhs
            &&& c.rhs_binary_ops is Some == has_rhs
            &&& (c.rhs_constants matches Some(v) ==> v@ == rhs_pool(
                Symbol::builtin_constants(),
                128,
                user_constant_count as nat,
                constants,
                allowed_rhs,
                excluded_rhs,
            ))
            &&& (c.rhs_unary_ops matches Some(v) ==> v@ == rhs_pool(
                Symbol::builtin_unary_ops(),
                144,
                user_function_count as nat,
                unary,
                allowed_rhs,
                excluded_rhs,
            ))
            &&& (c.rhs_binary_ops matches Some(v) ==> v@ == filtered(
                if allowed_rhs is Some {
                    Symbol::builtin_binary_ops()
                } else {
                    binary
                },
                allowed_rhs,
                excluded_rhs,
            ))
        },
{
    let mut config = GenConfig::default();
    config.max_lhs_complexity = max_lhs_complexity;
    config.max_rhs_complexity = max_rhs_complexity;
    config.min_num_type = min_type;
    config.user_constant_count = user_constant_count;
    config.user_function_count = user_function_count;
    config.show_pruned_arith = show_pruned_arith;

    let (allowed, excluded) = parse_symbol_sets(only_symbols, exclude, enable);
    let (allowed_rhs, excluded_rhs) = parse_symbol_sets(only_symbols_rhs, exclude_rhs, enable_rhs);
    let allowed_ref = as_ref_set(&allowed);
    let excluded_ref = as_ref_set(&excluded);

    let builtin_constants = Symbol::constants();
    let builtin_unary = Symbol::unary_ops();
    let builtin_binary = Symbol::binary_ops();
    config.constants = filter_symbols(builtin_constants.as_slice(), allowed_ref, excluded_ref);
    config.unary_ops = filter_symbols(builtin_unary.as_slice(), allowed_ref, excluded_ref);
    config.binary_ops = filter_symbols(builtin_binary.as_slice(), allowed_ref, excluded_ref);

    match op_limits {
        Some(text) => match parse_symbol_count_limits(text) {
            Ok(m) => {
                config.symbol_max_counts = m;
            },
            Err(e) => {
                return Err(e);
            },
        },
        None => {},
    }
    match op_limits_rhs {
        Some(text) => match parse_symbol_count_limits(text) {
            Ok(m) => {
                config.rhs_symbol_max_counts = Some(m);
            },
            Err(e) => {
                return Err(e);
            },
        },
        None => {},
    }

    push_user_slots(&mut config.constants, 128, user_constant_count, excluded_ref);
    push_user_slots(&mut config.unary_ops, 144, user_function_count, excluded_ref);

    let mut all_constants = copy_symbols(&builtin_constants);
    let mut all_unary = copy_symbols(&builtin_unary);
    push_user_slots(&mut all_constants, 128, user_constant_count, None);
    push_user_slots(&mut all_unary, 144, user_function_count, None);

    if allowed_rhs.is_some() || excluded_rhs.is_some() || op_limits_rhs.is_some() {
        let constants_base = if allowed_rhs.is_some() {
            all_constants
        } else {
            copy_symbols(&config.constants)
        };
        let unary_base = if allowed_rhs.is_some() {
            all_unary
        } else {
            copy_symbols(&config.unary_ops)
        };
        let binary_base = if allowed_rhs.is_some() {
            builtin_binary
        } else {
            copy_symbols(&config.binary_ops)
        };
        let allowed_rhs_ref = as_ref_set(&allowed_rhs);
        let excluded_rhs_ref = as_ref_set(&excluded_rhs);
        config.rhs_constants = Some(
            filter_symbols(constants_base.as_slice(), allowed_rhs_ref, excluded_rhs_ref),
        );
        config.rhs_unary_ops = Some(
            filter_symbols(unary_base.as_slice(), allowed_rhs_ref, excluded_rhs_ref),
        );
        config.rhs_binary_ops = Some(
            filter_symbols(binary_base.as_slice(), allowed_rhs_ref, excluded_rhs_ref),
        );
    }
    Ok(config)
}

/// The user slots that are kept are not excluded.
proof fn lemma_user_slots_kept_not_excluded(base: u8, n: nat, excluded: Option<Set<u8>>)
    ensures
        forall|k: int|
            0 <= k < user_slots_kept(base, n, excluded).len() ==> keeps(
                #[trigger] user_slots_kept(base, n, excluded)[k],
                None,
                excluded,
            ),
    decreases n,
{
    if n > 0 {
        lemma_user_slots_kept_not_excluded(base, (n - 1) as nat, excluded);
        let prev = user_slots_kept(base, (n - 1) as nat, excluded);
        let cur = user_slots_kept(base, n, excluded);
        assert forall|k: int| 0 <= k < cur.len() implies keeps(#[trigger] cur[k], None, excluded) by {
            if k < prev.len() {
                assert(cur[k] == prev[k]);
            }
        }
    }
}

/// Filters of the generation pools: every symbol of a pool built from the
/// `-S` and `-N` sets has its byte outside the excluded set, and every
/// built-in symbol of it has its byte in the allowed set when one is given;
/// every built-in symbol that the sets keep is in the pool.
pub proof fn lemma_pool_respects_filters(
    builtin: Seq<Symbol>,
    base: u8,
    user_count: nat,
    allowed: Option<Set<u8>>,
    excluded: Option<Set<u8>>,
)
    ensures
        forall|k: int|
            0 <= k < pool(builtin, base, user_count, allowed, excluded).len() ==> (excluded matches Some(
                x,
            ) ==> !x.contains(
                (#[trigger] pool(builtin, base, user_count, allowed, excluded)[k]).byte_of(),
            )),
        forall|k: int|
            0 <= k < filtered(builtin, allowed, excluded).len() ==> keeps(
                #[trigger] filtered(builtin, allowed, excluded)[k],
                allowed,
                excluded,
            ),
        forall|k: int|
            0 <= k < builtin.len() && keeps(builtin[k], allowed, excluded) ==> pool(
                builtin,
                base,
                user_count,
                allowed,
                excluded,
            ).contains(#[trigger] builtin[k]),
{
    let pred = |sym: Symbol| keeps(sym, allowed, excluded);
    let f = filtered(builtin, allowed, excluded);
    let u = user_slots_kept(base, slot_count(user_count), excluded);
    let p = pool(builtin, base, user_count, allowed, excluded);
    assert forall|k: int| 0 <= k < f.len() implies keeps(#[trigger] f[k], allowed, excluded) by {
        builtin.lemma_filter_pred(pred, k);
    }
    lemma_user_slots_kept_not_excluded(base, slot_count(user_count), excluded);
    assert forall|k: int| 0 <= k < p.len() implies (excluded matches Some(x) ==> !x.contains(
        (#[trigger] p[k]).byte_of(),
    )) by {
        if k < f.len() {
            assert(p[k] == f[k]);
            assert(keeps(f[k], allowed, excluded));
        } else {
            assert(p[k] == u[k - f.len()]);
            assert(keeps(u[k - f.len()], None, excluded));
        }
    }
    assert forall|k: int| 0 <= k < builtin.len() && keeps(builtin[k], allowed, excluded) implies p.contains(
        #[trigger] builtin[k],
    ) by {
        builtin.lemma_filter_contains(pred, k);
        let j = choose|j: int| 0 <= j < f.len() && f[j] == builtin[k];
        assert(p[j] == f[j]);
    }
}

} // verus!
