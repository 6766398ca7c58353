//! Categories of the categorized match report, and the choice of the
//! matches that each category shows.
//!
//! Which matches belong to a category and in which order they rank are
//! decided by floating-point scores (error, stability, novelty) computed by
//! the caller; from the ranked candidates the category shows the first ones,
//! without repeating what it considers the same match.

use vstd::prelude::*;
use crate::expr::Expression;
use crate::pool::{signature_bytes, SignatureKey};
use crate::symbol::Symbol;

pub use crate::output::DisplayFormat;

verus! {

/// Report categories.
#[derive(Debug, Clone, Copy, PartialEq, Eq, Structural)]
pub enum Category {
    /// Exact matches.
    Exact,
    /// Best approximations (lowest error).
    Best,
    /// Elegant or efficient (lowest complexity).
    Elegant,
    /// Interesting or unexpected (high novelty).
    Interesting,
    /// Stable or robust (good conditioning).
    Stable,
}

impl Category {
    /// Heading of the category.
    pub open spec fn name_of(self) -> Seq<char> {
        match self {
            Category::Exact => "Exact matches"@,
            Category::Best => "Best approximations"@,
            Category::Elegant => "Elegant/efficient"@,
            Category::Interesting => "Interesting/unexpected"@,
            Category::Stable => "Stable/robust"@,
        }
    }

    /// Heading of the category.
    pub fn name(&self) -> (r: &'static str)
        ensures
            r@ == self.name_of(),
    {
        match self {
            Category::Exact => "Exact matches",
            Category::Best => "Best approximations",
            Category::Elegant => "Elegant/efficient",
            Category::Interesting => "Interesting/unexpected",
            Category::Stable => "Stable/robust",
        }
    }

    /// Description of the category.
    pub open spec fn description_of(self) -> Seq<char> {
        match self {
            Category::Exact => "Equations that hold exactly at the target value"@,
            Category::Best => "Closest approximations to the target"@,
            Category::Elegant => "Simplest expressions with good accuracy"@,
            Category::Interesting => "Novel or unusual equation structures"@,
            Category::Stable => "Matches with robust numerical properties"@,
        }
    }

    /// Description of the category.
    pub fn description(&self) -> (r: &'static str)
        ensures
            r@ == self.description_of(),
    {
        match self {
            Category::Exact => "Equations that hold exactly at the target value",
            Category::Best => "Closest approximations to the target",
            Category::Elegant => "Simplest expressions with good accuracy",
            Category::Interesting => "Novel or unusual equation structures",
            Category::Stable => "Matches with robust numerical properties",
        }
    }
}

/// Whether a category counts two equations as the same match: the exact
/// matches never do, the interesting ones compare whole equations by their
/// signature, and the other categories compare left-hand sides.
pub open spec fn same_in_category(
    category: Category,
    a: (Seq<Symbol>, Seq<Symbol>),
    b: (Seq<Symbol>, Seq<Symbol>),
) -> bool {
    match category {
        Category::Exact => false,
        Category::Interesting => signature_bytes(a.0, a.1) == signature_bytes(b.0, b.1),
        _ => a.0 == b.0,
    }
}

/// The equations that a category shows, by position: going through the
/// ranked candidates `order`, each is taken unless the category already
/// shows the same match, until `top_k` are taken.
pub open spec fn shown_in_category(
    category: Category,
    eqs: Seq<(Seq<Symbol>, Seq<Symbol>)>,
    order: Seq<usize>,
    top_k: nat,
) -> Seq<int>
    decreases order.len(),
{
    if order.len() == 0 {
        Seq::empty()
    } else {
        let prev = shown_in_category(category, eqs, order.drop_last(), top_k);
        let i = order.last() as int;
        if prev.len() >= top_k || exists|k: int|
            0 <= k < prev.len() && same_in_category(category, eqs[prev[k]], eqs[i]) {
            prev
        } else {
            prev.push(i)
        }
    }
}

/// Whether two symbol slices are equal.
fn same_symbols(a: &[Symbol], b: &[Symbol]) -> (r: bool)
    ensures
        r == (a@ == b@),
{
    if a.len() != b.len() {
        return false;
    }
    let mut i: usize = 0;
    while i < a.len()
        invariant
            i <= a@.len(),
            a@.len() == b@.len(),
            forall|k: int| 0 <= k < i ==> a@[k] == b@[k],
        decreases a.len() - i,
    {
        if a[i] != b[i] {
            return false;
        }
        i = i + 1;
    }
    assert(a@ =~= b@);
    true
}

/// Whether two byte slices are equal.
fn same_bytes(a: &[u8], b: &[u8]) -> (r: bool)
    ensures
        r == (a@ == b@),
{
    if a.len() != b.len() {
        return false;
    }
    let mut i: usize = 0;
    while i < a.len()
        invariant
            i <= a@.len(),
            a@.len() == b@.len(),
            forall|k: int| 0 <= k < i ==> a@[k] == b@[k],
        decreases a.len() - i,
    {
        if a[i] != b[i] {
            return false;
        }
        i = i + 1;
    }
    assert(a@ =~= b@);
    true
}

/// Whether the category counts equations `a` and `b` as the same match.
fn same_match(category: Category, a: &(Expression, Expression), b: &(Expression, Expression)) -> (r: bool)
    ensures
        r == same_in_category(category, (a.0@, a.1@), (b.0@, b.1@)),
{
    match category {
        Category::Exact => false,
        Category::Interesting => {
            let ka = SignatureKey::from_expressions(&a.0, &a.1);
            let kb = SignatureKey::from_expressions(&b.0, &b.1);
            same_bytes(ka.bytes(), kb.bytes())
        },
        _ => same_symbols(a.0.symbols(), b.0.symbols()),
    }
}

/// The equations that `category` shows, by position, from the candidates
/// `order` ranked best first: at most `top_k`, without two that the
/// category counts as the same match.
pub fn select_category(
    category: Category,
    eqs: &Vec<(Expression, Expression)>,
    order: &Vec<usize>,
    top_k: usize,
) -> (r: Vec<usize>)
    requires
        forall|k: int| 0 <= k < order@.len() ==> #[trigger] order@[k] < eqs@.len(),
    ensures
        r@.map_values(|i: usize| i as int) == shown_in_category(
            category,
            eqs@.map_values(|e: (Expression, Expression)| (e.0@, e.1@)),
            order@,
            top_k as nat,
        ),
{
    let ghost views = eqs@.map_values(|e: (Expression, Expression)| (e.0@, e.1@));
    let mut shown: Vec<usize> = Vec::new();
    let mut j: usize = 0;
    while j < order.len()
        invariant
            j <= order@.len(),
            views == eqs@.map_values(|e: (Expression, Expression)| (e.0@, e.1@)),
            forall|k: int| 0 <= k < order@.len() ==> #[trigger] order@[k] < eqs@.len(),
            shown@.map_values(|i: usize| i as int) == shown_in_category(
                category,
                views,
                order@.take(j as int),
                top_k as nat,
            ),
            forall|k: int| 0 <= k < shown@.len() ==> #[trigger] shown@[k] < eqs@.len(),
        decreases order.len() - j,
    {
        let ghost prev = shown_in_category(category, views, order@.take(j as int), top_k as nat);
        assert(order@.take(j + 1).drop_last() =~= order@.take(j as int));
        let i = order[j];
        assert(order@.take(j + 1).last() == i);
        if shown.len() < top_k {
            let mut seen = false;
            let mut k: usize = 0;
            while k < shown.len()
                invariant
                    k <= shown@.len(),
                    i < eqs@.len(),
                    forall|m: int| 0 <= m < shown@.len() ==> #[trigger] shown@[m] < eqs@.len(),
                    !seen ==> forall|m: int|
                        0 <= m < k ==> !same_in_category(category, views[#[trigger] shown@[m] as int], views[i as int]),
                    seen ==> exists|m: int|
                        0 <= m < shown@.len() && same_in_category(category, views[#[trigger] shown@[m] as int], views[i as int]),
                    views == eqs@.map_values(|e: (Expression, Expression)| (e.0@, e.1@)),
                decreases shown.len() - k,
            {
                let s = shown[k];
                if same_match(category, &eqs[s], &eqs[i]) {
                    seen = true;
                }
                k = k + 1;
            }
            proof {
                if seen {
                    let m = choose|m: int|
                        0 <= m < shown@.len() && same_in_category(category, views[#[trigger] shown@[m] as int], views[i as int]);
                    assert(prev[m] == shown@[m] as int);
                } else {
                    assert forall|m: int| 0 <= m < prev.len() implies !same_in_category(
                        category,
                        views[prev[m]],
                        views[i as int],
                    ) by {
                        assert(prev[m] == shown@[m] as int);
                    }
                }
            }
            if !seen {
                let ghost before = shown@.map_values(|x: usize| x as int);
                shown.push(i);
                assert(shown@.map_values(|x: usize| x as int) =~= before.push(i as int));
            }
        }
        j = j + 1;
    }
    assert(order@.take(order@.len() as int) =~= order@);
    shown
}

/// A category shows at most `top_k` equations, each one of the ranked
/// candidates, and no two that it counts as the same match.
pub proof fn lemma_shown_in_category_sound(
    category: Category,
    eqs: Seq<(Seq<Symbol>, Seq<Symbol>)>,
    order: Seq<usize>,
    top_k: nat,
)
    ensures
        ({
            let shown = shown_in_category(category, eqs, order, top_k);
            &&& shown.len() <= top_k
            &&& forall|k: int| 0 <= k < shown.len() ==> order.contains(#[trigger] shown[k] as usize)
            &&& forall|a: int, b: int|
                0 <= a < b < shown.len() ==> !same_in_category(
                    category,
                    eqs[#[trigger] shown[a]],
                    eqs[#[trigger] shown[b]],
                )
        }),
    decreases order.len(),
{
    if order.len() > 0 {
        let init = order.drop_last();
        lemma_shown_in_category_sound(category, eqs, init, top_k);
        let prev = shown_in_category(category, eqs, init, top_k);
        assert forall|k: int| 0 <= k < prev.len() implies order.contains(#[trigger] prev[k] as usize) by {
            let j = choose|j: int| 0 <= j < init.len() && init[j] == prev[k] as usize;
            assert(order[j] == init[j]);
        }
        assert(order[order.len() - 1] == order.last());
    }
}

} // verus!
