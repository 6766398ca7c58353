//! The text of an integer relation `c0*b0 + c1*b1 + ... = 0` between named
//! basis values, as the relation search reports it.

use vstd::prelude::*;
use crate::infix::{replace_all, replace_chars};
use crate::text::{chars_to_string, decimal, decimal_chars, push_all, str_to_chars};

verus! {

/// Decimal text of an integer, with a leading `-` when it is negative.
pub open spec fn signed_decimal(c: int) -> Seq<char> {
    if c < 0 {
        seq!['-'] + decimal((-c) as nat)
    } else {
        decimal(c as nat)
    }
}

/// The term of coefficient `c` on the basis value `name`: the name alone
/// for 1, `-name` for -1, else `c*name`.
pub open spec fn term_text(c: i64, name: Seq<char>) -> Seq<char> {
    if c == 1 {
        name
    } else if c == -1 {
        seq!['-'] + name
    } else {
        signed_decimal(c as int) + seq!['*'] + name
    }
}

/// The terms of the nonzero coefficients among the first `n` pairs of
/// coefficient and name, in order.
pub open spec fn relation_terms(coeffs: Seq<i64>, names: Seq<Seq<char>>, n: nat) -> Seq<Seq<char>>
    decreases n,
{
    if n == 0 {
        Seq::empty()
    } else {
        let p = relation_terms(coeffs, names, (n - 1) as nat);
        if coeffs[n - 1] != 0 {
            p.push(term_text(coeffs[n - 1], names[n - 1]))
        } else {
            p
        }
    }
}

/// The terms joined by ` + `.
pub open spec fn join_terms(t: Seq<Seq<char>>) -> Seq<char>
    decreases t.len(),
{
    if t.len() == 0 {
        Seq::empty()
    } else if t.len() == 1 {
        t[0]
    } else {
        join_terms(t.drop_last()) + seq![' ', '+', ' '] + t.last()
    }
}

/// The text of a relation: its terms (coefficients paired with names as
/// far as both go, zero coefficients left out) joined by ` + `, with every
/// `+ -` written `- `; `0` when no term is left.
pub open spec fn relation_text(coeffs: Seq<i64>, names: Seq<Seq<char>>) -> Seq<char> {
    let n = if coeffs.len() <= names.len() {
        coeffs.len()
    } else {
        names.len()
    };
    let t = relation_terms(coeffs, names, n);
    if t.len() == 0 {
        seq!['0']
    } else {
        replace_all(join_terms(t), seq!['+', ' ', '-'], seq!['-', ' '])
    }
}

/// The texts of the names.
pub open spec fn names_view(names: Seq<String>) -> Seq<Seq<char>> {
    names.map_values(|s: String| s@)
}

/// Decimal text of an integer, with a leading `-` when it is negative.
fn signed_decimal_chars(c: i64) -> (r: Vec<char>)
    ensures
        r@ == signed_decimal(c as int),
{
    if c < 0 {
        let m = (-(c as i128)) as u64;
        let mut r = vec!['-'];
        let d = decimal_chars(m);
        push_all(&mut r, &d);
        r
    } else {
        decimal_chars(c as u64)
    }
}

/// The term of coefficient `c` on the basis value `name`.
fn term_chars(c: i64, name: &Vec<char>) -> (r: Vec<char>)
    ensures
        r@ == term_text(c, name@),
{
    if c == 1 {
        let mut r: Vec<char> = Vec::new();
        push_all(&mut r, name);
        r
    } else if c == -1 {
        let mut r = vec!['-'];
        push_all(&mut r, name);
        r
    } else {
        let mut r = signed_decimal_chars(c);
        r.push('*');
        push_all(&mut r, name);
        r
    }
}

/// The text of the relation with coefficients `coefficients` on the basis
/// values named `basis_names` (see `relation_text`).
pub fn format_relation(coefficients: &Vec<i64>, basis_names: &Vec<String>) -> (r: String)
    ensures
        r@ == relation_text(coefficients@, names_view(basis_names@)),
{
    let ghost names = names_view(basis_names@);
    let n = if coefficients.len() <= basis_names.len() {
        coefficients.len()
    } else {
        basis_names.len()
    };
    let mut joined: Vec<char> = Vec::new();
    let mut count: usize = 0;
    let mut i: usize = 0;
    while i < n
        invariant
            i <= n,
            n <= coefficients.len(),
            n <= basis_names.len(),
            names == names_view(basis_names@),
            count == relation_terms(coefficients@, names, i as nat).len(),
            joined@ == join_terms(relation_terms(coefficients@, names, i as nat)),
            count <= i,
        decreases n - i,
    {
        let c = coefficients[i];
        if c != 0 {
            let name = str_to_chars(basis_names[i].as_str());
            assert(name@ == names[i as int]);
            let term = term_chars(c, &name);
            let ghost p = relation_terms(coefficients@, names, i as nat);
            if count > 0 {
                joined.push(' ');
                joined.push('+');
                joined.push(' ');
            }
            push_all(&mut joined, &term);
            proof {
                let t = p.push(term_text(c, names[i as int]));
                assert(t.drop_last() =~= p);
                if count == 0 {
                    assert(p.len() == 0);
                    assert(joined@ =~= t[0]);
                } else {
                    assert(joined@ =~= join_terms(p) + seq![' ', '+', ' '] + t.last());
                }
            }
            count = count + 1;
        }
        i = i + 1;
    }
    if count == 0 {
        return chars_to_string(&vec!['0']);
    }
    let pat = vec!['+', ' ', '-'];
    let rep = vec!['-', ' '];
    assert(pat@ =~= seq!['+', ' ', '-']);
    assert(rep@ =~= seq!['-', ' ']);
    let out = replace_chars(&joined, &pat, &rep);
    chars_to_string(&out)
}

} // verus!
