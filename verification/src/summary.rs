//! The text and structure of a found equation, as reported to users: both
//! sides in infix and postfix, the equation solved for `x`, its canonical
//! key, and operator and depth counts.
//!
//! The numeric fields of a match (the value of `x`, the error) are floating
//! point and are kept by the caller beside this summary.

use vstd::prelude::*;
use crate::canon::{canonical_expression_key, canonical_key_of};
use crate::expr::{depth_of, operator_count_of, postfix_chars, Expression};
use crate::infix::{infix_text, InfixStyle};
use crate::solve::{solve_for_x, solve_for_x_rhs_expression};
use crate::symbol::Symbol;
use crate::text::{chars_to_string, push_all, str_to_chars};
use crate::tree::{parse_tree, postfix_stack};

verus! {

/// Infix text of `s` where it is well-formed postfix, else its postfix
/// text.
pub open spec fn infix_or_postfix(s: Seq<Symbol>) -> Seq<char> {
    if parse_tree(s) is Some {
        infix_text(s, InfixStyle::Standard)
    } else {
        postfix_chars(s)
    }
}

/// The canonical key of an equation: the keys of both sides joined by `=`,
/// or their postfix texts when a side has no key.
pub open spec fn equation_key(lhs: Seq<Symbol>, rhs: Seq<Symbol>) -> Seq<char> {
    match (canonical_key_of(lhs), canonical_key_of(rhs)) {
        (Some(l), Some(r)) => l + seq!['='] + r,
        _ => postfix_chars(lhs) + seq!['='] + postfix_chars(rhs),
    }
}

/// Summary of an equation `lhs = rhs` for reports.
#[derive(Debug)]
pub struct MatchSummary {
    /// Left-hand side, infix (postfix when it cannot be read as infix).
    pub lhs: String,
    /// Right-hand side, infix (postfix when it cannot be read as infix).
    pub rhs: String,
    /// Left-hand side, postfix.
    pub lhs_postfix: String,
    /// Right-hand side, postfix.
    pub rhs_postfix: String,
    /// `x = ...` when the equation can be solved for `x`.
    pub solve_for_x: Option<String>,
    /// The solution's postfix text.
    pub solve_for_x_postfix: Option<String>,
    /// Canonical key of the equation.
    pub canonical_key: String,
    /// Complexity of the match.
    pub complexity: u32,
    /// Operators on both sides.
    pub operator_count: usize,
    /// Depth of the deeper side.
    pub tree_depth: usize,
}

/// Infix text of an expression, or its postfix text when it is malformed.
pub fn to_infix_or_postfix(e: &Expression) -> (r: String)
    ensures
        r@ == infix_or_postfix(e@),
{
    match e.try_to_infix() {
        Ok(s) => s,
        Err(_) => e.to_postfix(),
    }
}

/// The canonical key of the equation `lhs = rhs`.
pub fn equation_canonical_key(lhs: &Expression, rhs: &Expression) -> (r: String)
    ensures
        r@ == equation_key(lhs@, rhs@),
{
    let (l, r) = match (canonical_expression_key(lhs), canonical_expression_key(rhs)) {
        (Some(l), Some(r)) => (l, r),
        _ => (lhs.to_postfix(), rhs.to_postfix()),
    };
    let mut v = str_to_chars(l.as_str());
    v.push('=');
    let tail = str_to_chars(r.as_str());
    push_all(&mut v, &tail);
    chars_to_string(&v)
}

impl MatchSummary {
    /// Summarize the equation `lhs = rhs` whose match has complexity
    /// `complexity`.
    pub fn from_match(lhs: &Expression, rhs: &Expression, complexity: u32) -> (s: Self)
        requires
            rhs.wf(),
            lhs@.len() + rhs@.len() <= usize::MAX,
        ensures
            s.lhs@ == infix_or_postfix(lhs@),
            s.rhs@ == infix_or_postfix(rhs@),
            s.lhs_postfix@ == postfix_chars(lhs@),
            s.rhs_postfix@ == postfix_chars(rhs@),
            match solve_for_x(lhs@, rhs@) {
                Some(x) => {
                    &&& s.solve_for_x matches Some(t) && t@ == seq!['x', ' ', '=', ' ']
                        + infix_or_postfix(x)
                    &&& s.solve_for_x_postfix matches Some(p) && p@ == postfix_chars(x)
                },
                None => s.solve_for_x is None && s.solve_for_x_postfix is None,
            },
            s.canonical_key@ == equation_key(lhs@, rhs@),
            s.complexity == complexity,
            s.operator_count == operator_count_of(lhs@) + operator_count_of(rhs@),
            s.tree_depth == if depth_of(lhs@) >= depth_of(rhs@) {
                depth_of(lhs@)
            } else {
                depth_of(rhs@)
            },
    {
        let (solve_text, solve_postfix) = match solve_for_x_rhs_expression(lhs, rhs) {
            Some(e) => {
                let shown = to_infix_or_postfix(&e);
                let mut v: Vec<char> = vec!['x', ' ', '=', ' '];
                let tail = str_to_chars(shown.as_str());
                push_all(&mut v, &tail);
                (Some(chars_to_string(&v)), Some(e.to_postfix()))
            },
            None => (None, None),
        };
        let ops_l = lhs.operator_count();
        let ops_r = rhs.operator_count();
        proof {
            crate::expr::lemma_operator_count_le_len(lhs@);
            crate::expr::lemma_operator_count_le_len(rhs@);
        }
        let depth_l = lhs.tree_depth();
        let depth_r = rhs.tree_depth();
        MatchSummary {
            lhs: to_infix_or_postfix(lhs),
            rhs: to_infix_or_postfix(rhs),
            lhs_postfix: lhs.to_postfix(),
            rhs_postfix: rhs.to_postfix(),
            solve_for_x: solve_text,
            solve_for_x_postfix: solve_postfix,
            canonical_key: equation_canonical_key(lhs, rhs),
            complexity,
            operator_count: ops_l + ops_r,
            tree_depth: if depth_l >= depth_r {
                depth_l
            } else {
                depth_r
            },
        }
    }
}

} // verus!
