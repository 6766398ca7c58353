//! Keeping the simplest of equivalent generated expressions.
//!
//! Generation meets many expressions with the same value (and, for
//! left-hand sides, the same derivative). Values are quantized to integers
//! by the caller; among the expressions that share a quantized key, the one
//! of least complexity is kept, the earliest of those on a tie.

use vstd::prelude::*;
use std::collections::HashMap;

verus! {

broadcast use vstd::std_specs::hash::group_hash_axioms;

/// The key of a left-hand side: its quantized value and its quantized
/// derivative, as one integer.
pub open spec fn pair_key_of(value_key: i64, derivative_key: i64) -> int {
    value_key * 0x1_0000_0000_0000_0000 + (derivative_key - i64::MIN)
}

/// Distinct pairs have distinct keys.
pub proof fn lemma_pair_key_injective(a: i64, b: i64, c: i64, d: i64)
    requires
        pair_key_of(a, b) == pair_key_of(c, d),
    ensures
        a == c,
        b == d,
{
    let x = b - i64::MIN;
    let y = d - i64::MIN;
    assert(0 <= x < 0x1_0000_0000_0000_0000);
    assert(0 <= y < 0x1_0000_0000_0000_0000);
    if a < c {
        assert(a * 0x1_0000_0000_0000_0000 + 0x1_0000_0000_0000_0000 <= c * 0x1_0000_0000_0000_0000)
            by (nonlinear_arith)
            requires
                a < c,
        ;
    } else if c < a {
        assert(c * 0x1_0000_0000_0000_0000 + 0x1_0000_0000_0000_0000 <= a * 0x1_0000_0000_0000_0000)
            by (nonlinear_arith)
            requires
                c < a,
        ;
    }
}

/// The key of a left-hand side with quantized value `value_key` and
/// quantized derivative `derivative_key`.
pub fn pair_key(value_key: i64, derivative_key: i64) -> (r: i128)
    ensures
        r == pair_key_of(value_key, derivative_key),
{
    assert(-0x8000_0000_0000_0000 * 0x1_0000_0000_0000_0000 <= value_key * 0x1_0000_0000_0000_0000
        <= 0x7fff_ffff_ffff_ffff * 0x1_0000_0000_0000_0000) by (nonlinear_arith)
        requires
            -0x8000_0000_0000_0000 <= value_key <= 0x7fff_ffff_ffff_ffff,
    ;
    (value_key as i128) * 0x1_0000_0000_0000_0000i128 + ((derivative_key as i128) - (i64::MIN as i128))
}

/// Whether item `i` is the one kept for its key: no item with the same key
/// is simpler, and none as simple comes earlier.
pub open spec fn is_simplest(keys: Seq<i128>, complexities: Seq<u32>, i: int) -> bool {
    forall|t: int|
        0 <= t < keys.len() && #[trigger] keys[t] == keys[i] ==> complexities[i] < complexities[t]
            || (complexities[i] == complexities[t] && i <= t)
}

/// Among the first `n` items, the position of the first one of least
/// complexity with key `k`, or -1 when none has that key.
pub open spec fn simplest_upto(keys: Seq<i128>, complexities: Seq<u32>, k: i128, n: nat) -> int
    decreases n,
{
    if n == 0 {
        -1
    } else {
        let b = simplest_upto(keys, complexities, k, (n - 1) as nat);
        if keys[n - 1] == k && (b < 0 || complexities[n - 1] < complexities[b]) {
            n - 1
        } else {
            b
        }
    }
}

/// `simplest_upto` finds the first item of least complexity with the key.
proof fn lemma_simplest_upto(keys: Seq<i128>, complexities: Seq<u32>, k: i128, n: nat)
    requires
        n <= keys.len(),
        keys.len() == complexities.len(),
    ensures
        ({
            let b = simplest_upto(keys, complexities, k, n);
            &&& -1 <= b < n
            &&& b >= 0 ==> keys[b] == k
            &&& b < 0 ==> forall|t: int| 0 <= t < n ==> keys[t] != k
            &&& b >= 0 ==> forall|t: int|
                0 <= t < n && keys[t] == k ==> complexities[b] < complexities[t] || (
                complexities[b] == complexities[t] && b <= t)
        }),
    decreases n,
{
    if n > 0 {
        lemma_simplest_upto(keys, complexities, k, (n - 1) as nat);
    }
}

/// Exactly one item is kept for each key present: two kept items with the
/// same key are the same item.
pub proof fn lemma_simplest_unique(keys: Seq<i128>, complexities: Seq<u32>, i: int, j: int)
    requires
        keys.len() == complexities.len(),
        0 <= i < keys.len(),
        0 <= j < keys.len(),
        keys[i] == keys[j],
        is_simplest(keys, complexities, i),
        is_simplest(keys, complexities, j),
    ensures
        i == j,
{
    assert(keys[j] == keys[i]);
}

/// Every key present keeps an item: some item with the same key as item
/// `i` is the one kept.
pub proof fn lemma_simplest_exists(keys: Seq<i128>, complexities: Seq<u32>, i: int)
    requires
        keys.len() == complexities.len(),
        0 <= i < keys.len(),
    ensures
        exists|j: int| 0 <= j < keys.len() && keys[j] == keys[i] && is_simplest(keys, complexities, j),
{
    let n = keys.len();
    lemma_simplest_upto(keys, complexities, keys[i], n);
    let b = simplest_upto(keys, complexities, keys[i], n);
    assert(b >= 0);
    assert(is_simplest(keys, complexities, b));
}

/// The positions of the items kept, one per distinct key: for each key the
/// first item of least complexity. The positions come in increasing order.
pub fn simplest_per_key(keys: &Vec<i128>, complexities: &Vec<u32>) -> (r: Vec<usize>)
    requires
        keys.len() == complexities.len(),
    ensures
        forall|j: int| 0 <= j < r.len() ==> r[j] < keys.len(),
        forall|j: int, k: int| 0 <= j < k < r.len() ==> r[j] < r[k],
        forall|i: int|
            0 <= i < keys.len() ==> (r@.contains(i as usize) <==> is_simplest(
                keys@,
                complexities@,
                i,
            )),
{
    let n = keys.len();
    let mut best: HashMap<i128, usize> = HashMap::new();
    let mut i: usize = 0;
    while i < n
        invariant
            n == keys.len(),
            n == complexities.len(),
            i <= n,
            forall|t: int| 0 <= t < i ==> best@.contains_key(#[trigger] keys@[t]),
            forall|k: i128|
                #![trigger best@[k]]
                best@.contains_key(k) ==> best@[k] < i && keys@[best@[k] as int] == k,
            forall|k: i128, t: int|
                #![trigger best@[k], keys@[t]]
                best@.contains_key(k) && 0 <= t < i && keys@[t] == k ==> complexities@[best@[k] as int]
                    < complexities@[t] || (complexities@[best@[k] as int] == complexities@[t]
                    && best@[k] <= t),
        decreases n - i,
    {
        let key = keys[i];
        match best.get(&key) {
            Some(j) => {
                let j = *j;
                if complexities[i] < complexities[j] {
                    best.insert(key, i);
                }
            },
            None => {
                best.insert(key, i);
            },
        }
        proof {
            assert forall|k: i128, t: int|
                #![trigger best@[k], keys@[t]]
                best@.contains_key(k) && 0 <= t < i + 1 && keys@[t] == k implies complexities@[best@[k] as int]
                < complexities@[t] || (complexities@[best@[k] as int] == complexities@[t]
                && best@[k] <= t) by {
                if t < i {
                    assert(best@.contains_key(keys@[t]));
                }
            }
        }
        i = i + 1;
    }
    let mut r: Vec<usize> = Vec::new();
    let mut i: usize = 0;
    while i < n
        invariant
            n == keys.len(),
            n == complexities.len(),
            i <= n,
            forall|t: int| 0 <= t < n ==> best@.contains_key(#[trigger] keys@[t]),
            forall|k: i128|
                #![trigger best@[k]]
                best@.contains_key(k) ==> best@[k] < n && keys@[best@[k] as int] == k,
            forall|k: i128, t: int|
                #![trigger best@[k], keys@[t]]
                best@.contains_key(k) && 0 <= t < n && keys@[t] == k ==> complexities@[best@[k] as int]
                    < complexities@[t] || (complexities@[best@[k] as int] == complexities@[t]
                    && best@[k] <= t),
            forall|j: int| 0 <= j < r.len() ==> r[j] < i,
            forall|j: int, k: int| 0 <= j < k < r.len() ==> r[j] < r[k],
            forall|t: int|
                0 <= t < i ==> (r@.contains(t as usize) <==> is_simplest(keys@, complexities@, t)),
        decreases n - i,
    {
        let key = keys[i];
        let chosen = match best.get(&key) {
            Some(j) => *j == i,
            None => false,
        };
        proof {
            let b = best@[key] as int;
            assert(keys@[i as int] == key);
            if is_simplest(keys@, complexities@, i as int) {
                assert(keys@[b] == keys@[i as int]);
            } else {
                assert(b != i) by {
                    if b == i {
                        assert forall|t: int|
                            0 <= t < keys@.len() && #[trigger] keys@[t] == keys@[i as int] implies complexities@[i as int]
                            < complexities@[t] || (complexities@[i as int] == complexities@[t]
                            && i <= t) by {
                            assert(best@.contains_key(key));
                        }
                    }
                }
            }
            if chosen {
                assert forall|t: int|
                    0 <= t < keys@.len() && #[trigger] keys@[t] == keys@[i as int] implies complexities@[i as int]
                    < complexities@[t] || (complexities@[i as int] == complexities@[t] && i <= t) by {
                    assert(best@.contains_key(key));
                }
            }
        }
        let ghost before = r@;
        if chosen {
            r.push(i);
        }
        proof {
            assert forall|t: int|
                0 <= t < i + 1 implies (r@.contains(t as usize) <==> is_simplest(
                keys@,
                complexities@,
                t,
            )) by {
                if t < i {
                    if r@.contains(t as usize) && !before.contains(t as usize) {
                        assert(r@.last() == i);
                        let w = choose|w: int| 0 <= w < r@.len() && r@[w] == t as usize;
                        assert(w == r@.len() - 1);
                    }
                    if before.contains(t as usize) {
                        let w = choose|w: int| 0 <= w < before.len() && before[w] == t as usize;
                        assert(r@[w] == t as usize);
                    }
                } else {
                    if chosen {
                        assert(r@[r@.len() - 1] == i);
                    } else {
                        if r@.contains(i) {
                            let w = choose|w: int| 0 <= w < r@.len() && r@[w] == i;
                            assert(r@[w] < i);
                        }
                    }
                }
            }
        }
        i = i + 1;
    }
    r
}

} // verus!
