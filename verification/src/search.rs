//! Search levels.

use vstd::prelude::*;

verus! {

/// `a + b`, or `u32::MAX` when the sum is larger.
pub open spec fn saturating_sum(a: int, b: int) -> u32 {
    if a + b > u32::MAX {
        u32::MAX
    } else {
        (a + b) as u32
    }
}

/// The maximum left-hand and right-hand complexities of a search level:
/// 10 and 12, plus 4 for each level, saturating at `u32::MAX`.
pub open spec fn level_limits(level: u32) -> (u32, u32) {
    let factor = saturating_sum(4 * level, 0);
    (saturating_sum(10, factor as int), saturating_sum(12, factor as int))
}

/// Complexity limits `(lhs, rhs)` for a search level.
pub fn level_to_complexity(level: u32) -> (r: (u32, u32))
    ensures
        r == level_limits(level),
{
    let level_factor: u32 = if level > u32::MAX / 4 {
        u32::MAX
    } else {
        4 * level
    };
    (10u32.saturating_add(level_factor), 12u32.saturating_add(level_factor))
}

/// A higher level never lowers a limit, and below saturation the
/// right-hand limit is the left-hand one plus 2.
pub proof fn lemma_level_limits_monotone(a: u32, b: u32)
    requires
        a <= b,
    ensures
        level_limits(a).0 <= level_limits(b).0,
        level_limits(a).1 <= level_limits(b).1,
        level_limits(a).0 <= level_limits(a).1,
        level_limits(a).1 < u32::MAX ==> level_limits(a).1 == level_limits(a).0 + 2,
{
}

} // verus!
