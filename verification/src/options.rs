//! Decisions that the command line takes from its flags before a search:
//! the numeric modes of `-i`, `-r` and their exact forms, the least class of
//! number that expressions may denote, the ranking of matches, and the
//! symbol sets that the quick search for exact matches obeys.

use vstd::prelude::*;
use std::collections::HashSet;
use crate::pool::RankingMode;
use crate::symbol::NumType;

verus! {

broadcast use vstd::std_specs::hash::group_hash_axioms;

/// The numeric modes that `-i`, `-r`, `--ie` and `--re` select.
#[derive(Debug, Clone, Copy, PartialEq, Eq, Structural)]
pub struct NumericModes {
    /// Expressions must denote integers.
    pub integer: bool,
    /// Expressions must denote rationals.
    pub rational: bool,
    /// The search stops at the first exact match.
    pub exact: bool,
    /// `-i` was given for a target that is not an integer, and was read as
    /// `-r`.
    pub integer_replaced: bool,
}

/// The modes that the flags select: `--ie` is integer and exact, `--re`
/// rational and exact; `-i` is integer, or rational where the target is not
/// an integer; otherwise `-i` and `-r` as given.
pub open spec fn numeric_modes_of(
    integer_exact: bool,
    rational_exact: bool,
    integer: bool,
    rational: bool,
    target_is_integer: bool,
) -> NumericModes {
    if integer_exact {
        NumericModes { integer: true, rational: false, exact: true, integer_replaced: false }
    } else if rational_exact {
        NumericModes { integer: false, rational: true, exact: true, integer_replaced: false }
    } else if integer {
        if target_is_integer {
            NumericModes { integer: true, rational: false, exact: false, integer_replaced: false }
        } else {
            NumericModes { integer: false, rational: true, exact: false, integer_replaced: true }
        }
    } else {
        NumericModes { integer: false, rational, exact: false, integer_replaced: false }
    }
}

/// The numeric modes that the flags select (see `numeric_modes_of`).
/// Whether the target is an integer is decided by the caller.
pub fn numeric_modes(
    integer_exact: bool,
    rational_exact: bool,
    integer: bool,
    rational: bool,
    target_is_integer: bool,
) -> (r: NumericModes)
    ensures
        r == numeric_modes_of(integer_exact, rational_exact, integer, rational, target_is_integer),
{
    if integer_exact {
        NumericModes { integer: true, rational: false, exact: true, integer_replaced: false }
    } else if rational_exact {
        NumericModes { integer: false, rational: true, exact: true, integer_replaced: false }
    } else if integer {
        if target_is_integer {
            NumericModes { integer: true, rational: false, exact: false, integer_replaced: false }
        } else {
            NumericModes { integer: false, rational: true, exact: false, integer_replaced: true }
        }
    } else {
        NumericModes { integer: false, rational, exact: false, integer_replaced: false }
    }
}

/// The least class of number that expressions may denote: the first of
/// integer, rational, constructible, algebraic and Liouvillian that is
/// asked for, else any number; `--any-subexpressions` lifts every
/// restriction.
pub open spec fn min_type_of(
    integer_mode: bool,
    rational_mode: bool,
    constructible: bool,
    algebraic: bool,
    liouvillian: bool,
    any_subexpressions: bool,
) -> NumType {
    if any_subexpressions {
        NumType::Transcendental
    } else if integer_mode {
        NumType::Integer
    } else if rational_mode {
        NumType::Rational
    } else if constructible {
        NumType::Constructible
    } else if algebraic {
        NumType::Algebraic
    } else if liouvillian {
        NumType::Liouvillian
    } else {
        NumType::Transcendental
    }
}

/// The least class of number that expressions may denote (see
/// `min_type_of`).
pub fn min_num_type(
    integer_mode: bool,
    rational_mode: bool,
    constructible: bool,
    algebraic: bool,
    liouvillian: bool,
    any_subexpressions: bool,
) -> (r: NumType)
    ensures
        r == min_type_of(
            integer_mode,
            rational_mode,
            constructible,
            algebraic,
            liouvillian,
            any_subexpressions,
        ),
{
    if any_subexpressions {
        NumType::Transcendental
    } else if integer_mode {
        NumType::Integer
    } else if rational_mode {
        NumType::Rational
    } else if constructible {
        NumType::Constructible
    } else if algebraic {
        NumType::Algebraic
    } else if liouvillian {
        NumType::Liouvillian
    } else {
        NumType::Transcendental
    }
}

/// How matches are ranked: by complexity when asked, else by parity when
/// asked or in classic mode, else by complexity.
pub fn ranking_mode_for(complexity_ranking: bool, parity_ranking: bool, classic: bool) -> (r:
    RankingMode)
    ensures
        r == if complexity_ranking {
            RankingMode::Complexity
        } else if parity_ranking || classic {
            RankingMode::Parity
        } else {
            RankingMode::Complexity
        },
{
    if complexity_ranking {
        RankingMode::Complexity
    } else if parity_ranking || classic {
        RankingMode::Parity
    } else {
        RankingMode::Complexity
    }
}

/// The symbols of an optional set, none when there is no set.
pub open spec fn set_or_empty(s: Option<Set<u8>>) -> Set<u8> {
    match s {
        Some(t) => t,
        None => Set::empty(),
    }
}

/// The symbols allowed on both sides: the intersection where both sides
/// restrict them, the one restriction where one does, none where neither
/// does.
pub open spec fn both_allowed(a: Option<Set<u8>>, r: Option<Set<u8>>) -> Option<Set<u8>> {
    match (a, r) {
        (Some(x), Some(y)) => Some(x.intersect(y)),
        (Some(x), None) => Some(x),
        (None, Some(y)) => Some(y),
        (None, None) => None,
    }
}

/// The view of an optional set.
pub open spec fn opt_view(s: Option<&HashSet<u8>>) -> Option<Set<u8>> {
    match s {
        Some(t) => Some(t@),
        None => None,
    }
}

/// Membership of `b` in an optional set (false without a set).
fn in_opt(s: Option<&HashSet<u8>>, b: u8) -> (r: bool)
    ensures
        r == set_or_empty(opt_view(s)).contains(b),
{
    match s {
        Some(t) => t.contains(&b),
        None => false,
    }
}

/// The symbol sets of the quick search for exact matches: the symbols
/// excluded on either side, and the symbols allowed on both sides.
pub fn fast_match_symbol_sets(
    excluded: Option<&HashSet<u8>>,
    rhs_excluded: Option<&HashSet<u8>>,
    allowed: Option<&HashSet<u8>>,
    rhs_allowed: Option<&HashSet<u8>>,
) -> (r: (HashSet<u8>, Option<HashSet<u8>>))
    ensures
        r.0@ == set_or_empty(opt_view(excluded)).union(set_or_empty(opt_view(rhs_excluded))),
        (match r.1 {
            Some(t) => Some(t@),
            None => None,
        }) == both_allowed(opt_view(allowed), opt_view(rhs_allowed)),
{
    let ghost ex = set_or_empty(opt_view(excluded)).union(set_or_empty(opt_view(rhs_excluded)));
    let ghost al = both_allowed(opt_view(allowed), opt_view(rhs_allowed));
    let restricted = allowed.is_some() || rhs_allowed.is_some();
    let mut out_ex: HashSet<u8> = HashSet::new();
    let mut out_al: HashSet<u8> = HashSet::new();
    let mut i: u16 = 0;
    while i < 256
        invariant
            i <= 256,
            ex == set_or_empty(opt_view(excluded)).union(set_or_empty(opt_view(rhs_excluded))),
            al == both_allowed(opt_view(allowed), opt_view(rhs_allowed)),
            restricted == (al is Some),
            forall|b: u8| #[trigger] out_ex@.contains(b) <==> (b < i && ex.contains(b)),
            forall|b: u8|
                #[trigger] out_al@.contains(b) <==> (b < i && al is Some && al->Some_0.contains(b)),
        decreases 256 - i,
    {
        let b = i as u8;
        assert(b as u16 == i) by (bit_vector)
            requires
                i < 256,
                b == i as u8,
        ;
        let ghost ex0 = out_ex@;
        let ghost al0 = out_al@;
        let e1 = in_opt(excluded, b);
        let e2 = in_opt(rhs_excluded, b);
        assert((e1 || e2) == ex.contains(b));
        if e1 || e2 {
            out_ex.insert(b);
            assert(out_ex@ == ex0.insert(b));
        }
        let keep = match (allowed, rhs_allowed) {
            (Some(x), Some(y)) => x.contains(&b) && y.contains(&b),
            (Some(x), None) => x.contains(&b),
            (None, Some(y)) => y.contains(&b),
            (None, None) => false,
        };
        assert(keep == (al is Some && al->Some_0.contains(b)));
        if keep {
            out_al.insert(b);
            assert(out_al@ == al0.insert(b));
        }
        assert forall|c: u8| #[trigger] out_ex@.contains(c) <==> (c < i + 1 && ex.contains(c)) by {
            if c == b {
            } else {
                assert(out_ex@.contains(c) == ex0.contains(c));
            }
        }
        assert forall|c: u8| #[trigger] out_al@.contains(c) <==> (c < i + 1 && al is Some
            && al->Some_0.contains(c)) by {
            if c == b {
            } else {
                assert(out_al@.contains(c) == al0.contains(c));
            }
        }
        i = i + 1;
    }
    assert(out_ex@ =~= ex);
    if restricted {
        assert(out_al@ =~= al->Some_0);
        (out_ex, Some(out_al))
    } else {
        (out_ex, None)
    }
}

} // verus!
