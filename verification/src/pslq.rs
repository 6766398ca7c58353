//! Integer arithmetic behind the search for integer relations: greatest
//! common divisors, normalizing a relation, and enumerating small
//! coefficient vectors.

use vstd::prelude::*;
use vstd::arithmetic::power::pow;

verus! {

/// Absolute value.
pub open spec fn abs(x: int) -> nat {
    if x < 0 {
        (-x) as nat
    } else {
        x as nat
    }
}

/// Greatest common divisor by Euclid's algorithm; `gcd(a, 0) == a`.
pub open spec fn gcd(a: nat, b: nat) -> nat
    decreases b,
{
    if b == 0 {
        a
    } else {
        gcd(b, a % b)
    }
}

/// A positive divisor's remainder does not depend on its sign.
proof fn lemma_mod_neg_divisor(x: int, b: int)
    requires
        b < 0,
        x >= 0,
    ensures
        x % b == x % (-b),
{
    vstd::arithmetic::div_mod::lemma_fundamental_div_mod(x, b);
    assert(x == (-b) * (-(x / b)) + x % b) by (nonlinear_arith)
        requires
            x == b * (x / b) + x % b,
    ;
    vstd::arithmetic::div_mod::lemma_fundamental_div_mod_converse(x, -b, -(x / b), x % b);
}

/// The remainder of `a` by `b` that truncates towards zero, as the `%` of
/// signed machine integers computes it.
pub open spec fn trunc_rem(a: int, b: int) -> int {
    if a >= 0 {
        a % b
    } else {
        -((-a) % b)
    }
}

/// The truncating remainder has the absolute value of the remainder of the
/// absolute values.
proof fn lemma_truncated_rem(a: int, b: int)
    requires
        b != 0,
    ensures
        abs(trunc_rem(a, b)) == abs(a) % abs(b),
{
    if b < 0 {
        lemma_mod_neg_divisor(abs(a) as int, b);
    }
}

/// Zero is neutral for `gcd` on the left.
proof fn lemma_gcd_zero_left(m: nat)
    ensures
        gcd(0, m) == m,
{
    if m > 0 {
        assert(0nat % m == 0);
        assert(gcd(m, 0) == m);
    }
}

/// Greatest common divisor of two integers: with one of them zero, the
/// other as it is; else the greatest common divisor of their absolute
/// values.
pub fn gcd_i128(left: i128, right: i128) -> (r: i128)
    requires
        left > i128::MIN,
        right > i128::MIN,
    ensures
        left == 0 ==> r == right,
        left != 0 && right == 0 ==> r == left,
        left != 0 && right != 0 ==> r == gcd(abs(left as int), abs(right as int)),
{
    if left == 0 {
        return right;
    }
    if right == 0 {
        return left;
    }
    let ghost g = gcd(abs(left as int), abs(right as int));
    let mut a = left;
    let mut b = right;
    while b != 0
        invariant
            a > i128::MIN,
            b > i128::MIN,
            gcd(abs(a as int), abs(b as int)) == g,
        decreases abs(b as int),
    {
        let remainder = a % b;
        proof {
            lemma_truncated_rem(a as int, b as int);
            assert(remainder as int == trunc_rem(a as int, b as int));
        }
        a = b;
        b = remainder;
    }
    if a < 0 {
        -a
    } else {
        a
    }
}

/// Greatest common divisor of the absolute values of `s`, folding from 0.
pub open spec fn gcd_of(s: Seq<i128>) -> nat
    decreases s.len(),
{
    if s.len() == 0 {
        0
    } else {
        gcd(gcd_of(s.drop_last()), abs(s.last() as int))
    }
}

/// Division truncating towards zero.
pub open spec fn trunc_div(c: int, g: int) -> int {
    if c >= 0 {
        c / g
    } else {
        -((-c) / g)
    }
}

/// Index of the first nonzero entry of `s`, if any.
pub open spec fn first_nonzero(s: Seq<int>) -> Option<int>
    decreases s.len(),
{
    if s.len() == 0 {
        None
    } else if s[0] != 0 {
        Some(0)
    } else {
        match first_nonzero(s.skip(1)) {
            Some(k) => Some(k + 1),
            None => None,
        }
    }
}

/// The entries of `coeffs` divided by their greatest common divisor, when
/// that is above 1.
pub open spec fn divided_relation(coeffs: Seq<i128>) -> Seq<int> {
    let g = gcd_of(coeffs);
    Seq::new(
        coeffs.len(),
        |k: int|
            if g > 1 {
                trunc_div(coeffs[k] as int, g as int)
            } else {
                coeffs[k] as int
            },
    )
}

/// `d` negated when its first nonzero entry is negative.
pub open spec fn sign_normalized(d: Seq<int>) -> Seq<int> {
    match first_nonzero(d) {
        Some(k) => if d[k] < 0 {
            Seq::new(d.len(), |j: int| -d[j])
        } else {
            d
        },
        None => d,
    }
}

/// The relation `coeffs` in normal form: `None` when it is all zero;
/// otherwise divided by the greatest common divisor of its entries (when
/// that is above 1), negated when its first nonzero entry is negative, and
/// `None` when an entry then exceeds `max_coefficient` in absolute value.
pub open spec fn normalized_relation(coeffs: Seq<i128>, max_coefficient: i64) -> Option<Seq<int>> {
    if forall|k: int| 0 <= k < coeffs.len() ==> #[trigger] coeffs[k] == 0 {
        None
    } else {
        let signed = sign_normalized(divided_relation(coeffs));
        if exists|k: int| 0 <= k < signed.len() && abs(#[trigger] signed[k]) > max_coefficient {
            None
        } else {
            Some(signed)
        }
    }
}

/// `first_nonzero` finds the first nonzero entry.
proof fn lemma_first_nonzero(s: Seq<int>)
    ensures
        match first_nonzero(s) {
            Some(k) => 0 <= k < s.len() && s[k] != 0 && forall|j: int| 0 <= j < k ==> s[j] == 0,
            None => forall|j: int| 0 <= j < s.len() ==> s[j] == 0,
        },
    decreases s.len(),
{
    if s.len() > 0 && s[0] == 0 {
        lemma_first_nonzero(s.skip(1));
        assert forall|j: int| 0 < j < s.len() implies s[j] == s.skip(1)[j - 1] by {}
    }
}

/// `gcd` of values in range stays in range.
proof fn lemma_gcd_bound(a: nat, b: nat)
    ensures
        gcd(a, b) <= if a >= b {
            a
        } else {
            b
        },
    decreases b,
{
    if b > 0 {
        lemma_gcd_bound(b, a % b);
    }
}

/// Put an integer relation in normal form (see `normalized_relation`).
pub fn normalize_relation(coeffs: Vec<i128>, max_coefficient: i64) -> (r: Option<Vec<i64>>)
    requires
        forall|k: int| 0 <= k < coeffs@.len() ==> #[trigger] coeffs@[k] > i128::MIN,
    ensures
        match normalized_relation(coeffs@, max_coefficient) {
            None => r is None,
            Some(n) => r matches Some(v) && v@.len() == n.len() && forall|k: int|
                0 <= k < n.len() ==> #[trigger] v@[k] as int == n[k],
        },
{
    let ghost c = coeffs@;
    let n = coeffs.len();
    let mut all_zero = true;
    let mut i: usize = 0;
    while i < n
        invariant
            n == c.len(),
            c == coeffs@,
            i <= n,
            all_zero == forall|k: int| 0 <= k < i ==> #[trigger] c[k] == 0,
        decreases n - i,
    {
        if coeffs[i] != 0 {
            all_zero = false;
        }
        i = i + 1;
    }
    if all_zero {
        return None;
    }
    let mut g: i128 = 0;
    let mut i: usize = 0;
    while i < n
        invariant
            n == c.len(),
            c == coeffs@,
            i <= n,
            forall|k: int| 0 <= k < c.len() ==> #[trigger] c[k] > i128::MIN,
            g == gcd_of(c.take(i as int)),
            0 <= g <= i128::MAX,
        decreases n - i,
    {
        let value = coeffs[i];
        let magnitude: i128 = if value < 0 {
            -value
        } else {
            value
        };
        assert(c.take(i + 1).drop_last() =~= c.take(i as int));
        proof {
            lemma_gcd_bound(g as nat, magnitude as nat);
            lemma_gcd_zero_left(magnitude as nat);
            assert(gcd(g as nat, 0) == g);
            assert(abs(c[i as int] as int) == magnitude);
        }
        g = gcd_i128(g, magnitude);
        i = i + 1;
    }
    assert(c.take(n as int) =~= c);
    let ghost divided = divided_relation(c);
    let mut values: Vec<i128> = Vec::new();
    let mut i: usize = 0;
    while i < n
        invariant
            n == c.len(),
            c == coeffs@,
            i <= n,
            g == gcd_of(c),
            forall|k: int| 0 <= k < c.len() ==> #[trigger] c[k] > i128::MIN,
            divided == divided_relation(c),
            values@.len() == i,
            forall|k: int| 0 <= k < i ==> #[trigger] values@[k] as int == divided[k],
            forall|k: int| 0 <= k < i ==> #[trigger] values@[k] > i128::MIN,
        decreases n - i,
    {
        let value = coeffs[i];
        let q: i128 = if g > 1 {
            value / g
        } else {
            value
        };
        proof {
            if g > 1 {
                if value >= 0 {
                    assert(value / g <= value) by (nonlinear_arith)
                        requires
                            value >= 0,
                            g > 1,
                    ;
                } else {
                    assert((-(value as int)) / (g as int) <= -(value as int)) by (nonlinear_arith)
                        requires
                            value < 0,
                            g > 1,
                    ;
                    assert((-(value as int)) / (g as int) >= 0) by (nonlinear_arith)
                        requires
                            value < 0,
                            g > 1,
                    ;
                }
            }
        }
        values.push(q);
        i = i + 1;
    }
    assert(values@.map_values(|v: i128| v as int) =~= divided);
    proof {
        lemma_first_nonzero(divided);
    }
    let mut first: usize = 0;
    while first < n && values[first] == 0
        invariant
            n == c.len(),
            values@.len() == n,
            first <= n,
            forall|k: int| 0 <= k < n ==> #[trigger] values@[k] as int == divided[k],
            forall|j: int| 0 <= j < first ==> divided[j] == 0,
        decreases n - first,
    {
        first = first + 1;
    }
    let negate = first < n && values[first] < 0;
    let ghost signed = sign_normalized(divided);
    proof {
        if first < n {
            assert(first_nonzero(divided) == Some(first as int));
        } else {
            assert(first_nonzero(divided) is None);
        }
    }
    assert forall|k: int| 0 <= k < n implies #[trigger] signed[k] == if negate {
        -divided[k]
    } else {
        divided[k]
    } by {}
    let cap: i128 = max_coefficient as i128;
    let mut out: Vec<i64> = Vec::new();
    let mut i: usize = 0;
    while i < n
        invariant
            n == c.len(),
            values@.len() == n,
            signed.len() == n,
            i <= n,
            cap == max_coefficient,
            c == coeffs@,
            !(forall|k: int| 0 <= k < c.len() ==> #[trigger] c[k] == 0),
            g == gcd_of(c),
            divided == divided_relation(c),
            signed == sign_normalized(divided),
            forall|k: int| 0 <= k < n ==> #[trigger] values@[k] as int == divided[k],
            forall|k: int| 0 <= k < n ==> #[trigger] values@[k] > i128::MIN,
            forall|k: int|
                0 <= k < n ==> #[trigger] signed[k] == if negate {
                    -divided[k]
                } else {
                    divided[k]
                },
            forall|k: int| 0 <= k < i ==> abs(#[trigger] signed[k]) <= max_coefficient,
            out@.len() == i,
            forall|k: int| 0 <= k < i ==> #[trigger] out@[k] as int == signed[k],
        decreases n - i,
    {
        let value: i128 = if negate {
            -values[i]
        } else {
            values[i]
        };
        let magnitude: i128 = if value < 0 {
            -value
        } else {
            value
        };
        if magnitude > cap {
            assert(abs(signed[i as int]) > max_coefficient);
            return None;
        }
        out.push(value as i64);
        i = i + 1;
    }
    assert(!exists|k: int| 0 <= k < signed.len() && abs(#[trigger] signed[k]) > max_coefficient);
    Some(out)
}

/// Largest absolute value in `row`, 0 when it is empty.
pub open spec fn max_abs_row(row: Seq<i128>) -> nat
    decreases row.len(),
{
    if row.len() == 0 {
        0
    } else {
        let m = max_abs_row(row.drop_last());
        let a = abs(row.last() as int);
        if a > m {
            a
        } else {
            m
        }
    }
}

/// Largest absolute value of the entries of `rows`, 0 when there are none.
pub open spec fn max_abs_rows(rows: Seq<Seq<i128>>) -> nat
    decreases rows.len(),
{
    if rows.len() == 0 {
        0
    } else {
        let m = max_abs_rows(rows.drop_last());
        let a = max_abs_row(rows.last());
        if a > m {
            a
        } else {
            m
        }
    }
}

/// The rows of a matrix, each by its entries.
pub open spec fn matrix_view(matrix: Seq<Vec<i128>>) -> Seq<Seq<i128>> {
    matrix.map_values(|row: Vec<i128>| row@)
}

/// Largest absolute value of the entries of a matrix, 0 when it has none.
pub fn max_abs_matrix_entry(matrix: &[Vec<i128>]) -> (r: i128)
    requires
        forall|i: int, j: int|
            0 <= i < matrix@.len() && 0 <= j < matrix@[i]@.len() ==> #[trigger] matrix@[i]@[j]
                > i128::MIN,
    ensures
        r == max_abs_rows(matrix_view(matrix@)),
{
    let ghost m = matrix_view(matrix@);
    let mut best: i128 = 0;
    let mut i: usize = 0;
    while i < matrix.len()
        invariant
            i <= matrix@.len(),
            m == matrix_view(matrix@),
            forall|a: int, b: int|
                0 <= a < matrix@.len() && 0 <= b < matrix@[a]@.len() ==> #[trigger] matrix@[a]@[b]
                    > i128::MIN,
            best == max_abs_rows(m.take(i as int)),
        decreases matrix.len() - i,
    {
        let row = &matrix[i];
        let ghost before = best;
        let mut j: usize = 0;
        while j < row.len()
            invariant
                j <= row@.len(),
                row@ == matrix@[i as int]@,
                forall|b: int| 0 <= b < row@.len() ==> #[trigger] row@[b] > i128::MIN,
                best == if max_abs_row(row@.take(j as int)) > before {
                    max_abs_row(row@.take(j as int))
                } else {
                    before as nat
                },
                before >= 0,
            decreases row.len() - j,
        {
            let v = row[j];
            let a: i128 = if v < 0 {
                -v
            } else {
                v
            };
            assert(row@.take(j + 1).drop_last() =~= row@.take(j as int));
            if a > best {
                best = a;
            }
            j = j + 1;
        }
        assert(row@.take(row@.len() as int) =~= row@);
        assert(m.take(i + 1).drop_last() =~= m.take(i as int));
        assert(m.take(i + 1).last() == row@);
        i = i + 1;
    }
    assert(m.take(m.len() as int) =~= m);
    best
}

/// Entry `k` of the list of all `count`-long vectors over `ranges`, listed
/// with the last position varying fastest.
pub open spec fn product_at(ranges: Seq<i64>, count: nat, k: int) -> Seq<i64>
    decreases count,
{
    if count == 0 {
        Seq::empty()
    } else {
        product_at(ranges, (count - 1) as nat, k / ranges.len() as int).push(
            ranges[k % ranges.len() as int],
        )
    }
}

/// A copy of `v` with `x` appended.
fn pushed(v: &Vec<i64>, x: i64) -> (r: Vec<i64>)
    ensures
        r@ == v@.push(x),
{
    let mut out: Vec<i64> = Vec::new();
    let mut i: usize = 0;
    while i < v.len()
        invariant
            i <= v@.len(),
            out@ == v@.take(i as int),
        decreases v.len() - i,
    {
        out.push(v[i]);
        assert(v@.take(i + 1) =~= v@.take(i as int).push(v@[i as int]));
        i = i + 1;
    }
    assert(v@.take(v@.len() as int) =~= v@);
    out.push(x);
    out
}

/// Every vector of `count` entries taken from `ranges`, with the last
/// position varying fastest: `|ranges|^count` vectors.
pub fn coefficients_product(ranges: &[i64], count: usize) -> (r: Vec<Vec<i64>>)
    requires
        pow(ranges@.len() as int, count as nat) <= usize::MAX,
    ensures
        r@.len() == pow(ranges@.len() as int, count as nat),
        forall|k: int| 0 <= k < r@.len() ==> #[trigger] r@[k]@ == product_at(ranges@, count as nat, k),
    decreases count,
{
    if count == 0 {
        proof {
            vstd::arithmetic::power::lemma_pow0(ranges@.len() as int);
        }
        let mut one: Vec<Vec<i64>> = Vec::new();
        one.push(Vec::new());
        assert(one@[0]@ =~= product_at(ranges@, 0, 0));
        return one;
    }
    let len = ranges.len();
    proof {
        vstd::arithmetic::power::lemma_pow_adds(len as int, (count - 1) as nat, 1);
        vstd::arithmetic::power::lemma_pow1(len as int);
        if len > 0 {
            vstd::arithmetic::power::lemma_pow_positive(len as int, (count - 1) as nat);
            assert(pow(len as int, (count - 1) as nat) <= pow(len as int, (count - 1) as nat) * len)
                by (nonlinear_arith)
                requires
                    len > 0,
                    pow(len as int, (count - 1) as nat) >= 0,
            ;
        } else {
            vstd::arithmetic::power::lemma0_pow(count as nat);
        }
    }
    let mut result: Vec<Vec<i64>> = Vec::new();
    if len == 0 {
        proof {
            vstd::arithmetic::power::lemma0_pow(count as nat);
        }
        return result;
    }
    let rest = coefficients_product(ranges, count - 1);
    let ghost p = pow(len as int, (count - 1) as nat);
    let mut i: usize = 0;
    while i < rest.len()
        invariant
            len == ranges@.len(),
            len > 0,
            count > 0,
            rest@.len() == p,
            p * len <= usize::MAX,
            p * len == pow(len as int, count as nat),
            forall|k: int| 0 <= k < rest@.len() ==> #[trigger] rest@[k]@ == product_at(ranges@, (count - 1) as nat, k),
            i <= rest@.len(),
            result@.len() == i * len,
            forall|k: int| 0 <= k < result@.len() ==> #[trigger] result@[k]@ == product_at(ranges@, count as nat, k),
        decreases rest.len() - i,
    {
        let mut j: usize = 0;
        while j < len
            invariant
                len == ranges@.len(),
                len > 0,
                count > 0,
                i < rest@.len(),
                rest@.len() == p,
                p * len <= usize::MAX,
                forall|k: int| 0 <= k < rest@.len() ==> #[trigger] rest@[k]@ == product_at(ranges@, (count - 1) as nat, k),
                j <= len,
                result@.len() == i * len + j,
                forall|k: int| 0 <= k < result@.len() ==> #[trigger] result@[k]@ == product_at(ranges@, count as nat, k),
            decreases len - j,
        {
            proof {
                assert(i * len + j < p * len) by (nonlinear_arith)
                    requires
                        i < p,
                        j < len,
                ;
            }
            let combo = pushed(&rest[i], ranges[j]);
            proof {
                let k = i * len + j;
                vstd::arithmetic::div_mod::lemma_fundamental_div_mod_converse(k as int, len as int, i as int, j as int);
                assert(combo@ == product_at(ranges@, count as nat, k as int));
            }
            result.push(combo);
            j = j + 1;
        }
        assert((i + 1) * len == i * len + len) by (nonlinear_arith);
        i = i + 1;
    }
    result
}

/// `d` divides `x` (only 0 is a multiple of 0).
pub open spec fn divides(d: nat, x: nat) -> bool {
    if d == 0 {
        x == 0
    } else {
        x % d == 0
    }
}

/// A sum of multiples of `g` is a multiple of `g`.
proof fn lemma_divides_combination(g: nat, b: nat, r: nat, q: nat)
    requires
        g > 0,
        b % g == 0,
        r % g == 0,
    ensures
        (q * b + r) % g == 0,
{
    vstd::arithmetic::div_mod::lemma_fundamental_div_mod(b as int, g as int);
    vstd::arithmetic::div_mod::lemma_fundamental_div_mod(r as int, g as int);
    let p1 = b / g;
    let p2 = r / g;
    assert(q * b + r == (q * p1 + p2) * g) by (nonlinear_arith)
        requires
            b == g * p1,
            r == g * p2,
    ;
    vstd::arithmetic::div_mod::lemma_mod_multiples_basic((q * p1 + p2) as int, g as int);
}

/// Dividing is transitive.
proof fn lemma_divides_trans(g: nat, h: nat, x: nat)
    requires
        divides(g, h),
        divides(h, x),
    ensures
        divides(g, x),
{
    if g > 0 && h > 0 {
        lemma_divides_combination(g, h, 0, x / h);
        vstd::arithmetic::div_mod::lemma_fundamental_div_mod(x as int, h as int);
        assert(x == (x / h) * h + 0) by (nonlinear_arith)
            requires
                x == h * (x / h) + 0,
        ;
    }
}

/// The greatest common divisor divides both numbers.
proof fn lemma_gcd_divides(a: nat, b: nat)
    ensures
        divides(gcd(a, b), a),
        divides(gcd(a, b), b),
    decreases b,
{
    if b == 0 {
        if a > 0 {
            vstd::arithmetic::div_mod::lemma_mod_self_0(a as int);
            vstd::arithmetic::div_mod::lemma_small_mod(0, a);
        }
    } else {
        lemma_gcd_divides(b, a % b);
        let g = gcd(b, a % b);
        vstd::arithmetic::div_mod::lemma_fundamental_div_mod(a as int, b as int);
        lemma_divides_combination(g, b, a % b, a / b);
        assert(a == (a / b) * b + a % b) by (nonlinear_arith)
            requires
                a == b * (a / b) + a % b,
        ;
    }
}

/// The greatest common divisor of a sequence divides each entry.
proof fn lemma_gcd_of_divides(s: Seq<i128>, k: int)
    requires
        0 <= k < s.len(),
    ensures
        divides(gcd_of(s), abs(s[k] as int)),
    decreases s.len(),
{
    let init = s.drop_last();
    lemma_gcd_divides(gcd_of(init), abs(s.last() as int));
    if k < s.len() - 1 {
        lemma_gcd_of_divides(init, k);
        lemma_divides_trans(gcd_of(s), gcd_of(init), abs(s[k] as int));
    }
}

/// Dividing a multiple of `g` by `g`, truncating, is exact.
proof fn lemma_trunc_div_exact(c: int, g: int)
    requires
        g > 0,
        abs(c) % (g as nat) == 0,
    ensures
        trunc_div(c, g) * g == c,
{
    if c >= 0 {
        vstd::arithmetic::div_mod::lemma_fundamental_div_mod(c, g);
        assert(c / g * g == c) by (nonlinear_arith)
            requires
                c == g * (c / g) + 0,
        ;
    } else {
        vstd::arithmetic::div_mod::lemma_fundamental_div_mod(-c, g);
        assert(-((-c) / g) * g == c) by (nonlinear_arith)
            requires
                -c == g * ((-c) / g) + 0,
        ;
    }
}

/// A relation in normal form is the input divided by the greatest common
/// divisor of its entries (when that is above 1), negated or not so that
/// its first nonzero entry is positive.
pub proof fn lemma_normal_form(coeffs: Seq<i128>, max_coefficient: i64)
    ensures
        normalized_relation(coeffs, max_coefficient) matches Some(n) ==> {
            let m: int = if gcd_of(coeffs) > 1 {
                gcd_of(coeffs) as int
            } else {
                1
            };
            &&& n.len() == coeffs.len()
            &&& first_nonzero(n) matches Some(k) && n[k] > 0
            &&& (forall|j: int| 0 <= j < n.len() ==> #[trigger] n[j] * m == coeffs[j] as int) || (
            forall|j: int| 0 <= j < n.len() ==> #[trigger] n[j] * m == -(coeffs[j] as int))
        },
{
    if let Some(n) = normalized_relation(coeffs, max_coefficient) {
        let g = gcd_of(coeffs);
        let m: int = if g > 1 {
            g as int
        } else {
            1
        };
        let d = divided_relation(coeffs);
        assert forall|j: int| 0 <= j < d.len() implies #[trigger] d[j] * m == coeffs[j] as int by {
            if g > 1 {
                lemma_gcd_of_divides(coeffs, j);
                lemma_trunc_div_exact(coeffs[j] as int, g as int);
            }
        }
        let j0 = choose|j: int| 0 <= j < coeffs.len() && coeffs[j] != 0;
        assert(d[j0] * m == coeffs[j0] as int);
        assert(d[j0] != 0);
        lemma_first_nonzero(d);
        let k = first_nonzero(d)->Some_0;
        let flip = d[k] < 0;
        assert(n == sign_normalized(d));
        if flip {
            assert forall|j: int| 0 <= j < n.len() implies #[trigger] n[j] * m == -(
            coeffs[j] as int) by {
                assert(d[j] * m == coeffs[j] as int);
                assert(n[j] == -d[j]);
                assert(n[j] * m == -(d[j] * m)) by (nonlinear_arith)
                    requires
                        n[j] == -d[j],
                ;
            }
        } else {
            assert forall|j: int| 0 <= j < n.len() implies #[trigger] n[j] * m == coeffs[j] as int by {
                assert(d[j] * m == coeffs[j] as int);
            }
        }
        lemma_first_nonzero(n);
        assert forall|j: int| 0 <= j < n.len() implies (#[trigger] n[j] == 0) == (d[j] == 0) by {
            if flip {
                assert(n[j] == -d[j]);
            }
        }
        match first_nonzero(n) {
            Some(k2) => {
                if k2 < k {
                    assert(d[k2] == 0);
                } else if k < k2 {
                    assert(n[k] == 0);
                }
                assert(k2 == k);
            },
            None => {
                assert(n[k] == 0);
            },
        }
    }
}

} // verus!
