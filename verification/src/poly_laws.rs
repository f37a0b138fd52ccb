//! How evaluation at a point behaves under the operations on polynomials.

use crate::field::{gf_add, gf_mul, gf_pow, lemma_mul_distributes, lemma_mul_zero_one};
use crate::field_laws::{
    lemma_add_laws, lemma_mul_associative, lemma_mul_commutative, lemma_mul_distributes_left,
};
use crate::poly::{
    add_poly, coefficient, eval_terms, mul_poly, mul_rows, padded, poly_eval, shifted_multiple,
};
use vstd::prelude::*;

verus! {

/// Two sums of two terms each can exchange their inner terms.
pub proof fn lemma_add_exchange(a: u8, b: u8, c: u8, d: u8)
    ensures
        gf_add(gf_add(a, b), gf_add(c, d)) == gf_add(gf_add(a, c), gf_add(b, d)),
{
    assert((a ^ b) ^ (c ^ d) == (a ^ c) ^ (b ^ d)) by (bit_vector);
}

/// Two products of two factors each can exchange their outer factors.
pub proof fn lemma_mul_exchange(a: u8, b: u8, c: u8, d: u8)
    ensures
        gf_mul(gf_mul(a, b), gf_mul(c, d)) == gf_mul(gf_mul(b, c), gf_mul(a, d)),
{
    // (ab)(cd) = (ba)(cd) = b(a(cd)) = b((ac)d) = b((ca)d) = b(c(ad)) = (bc)(ad)
    lemma_mul_commutative(a, b);
    lemma_mul_associative(b, a, gf_mul(c, d));
    lemma_mul_associative(a, c, d);
    lemma_mul_commutative(a, c);
    lemma_mul_associative(c, a, d);
    lemma_mul_associative(b, c, gf_mul(a, d));
}

/// Powers of one element multiply by adding their exponents.
pub proof fn lemma_pow_add(x: u8, j: nat, k: nat)
    ensures
        gf_pow(x, j + k) == gf_mul(gf_pow(x, j), gf_pow(x, k)),
    decreases k,
{
    if k == 0 {
        lemma_mul_zero_one(gf_pow(x, j));
    } else {
        lemma_pow_add(x, j, (k - 1) as nat);
        assert(gf_pow(x, j + k) == gf_mul(gf_pow(x, (j + k - 1) as nat), x));
        lemma_mul_associative(gf_pow(x, j), gf_pow(x, (k - 1) as nat), x);
    }
}

/// Terms whose coefficients are all 0 sum to 0.
pub proof fn lemma_eval_terms_zero(p: Seq<u8>, x: u8, n: nat)
    requires
        forall|k: int| 0 <= k < n ==> coefficient(p, k) == 0,
    ensures
        eval_terms(p, x, n) == 0,
    decreases n,
{
    if n > 0 {
        lemma_eval_terms_zero(p, x, (n - 1) as nat);
        lemma_mul_zero_one(gf_pow(x, (n - 1) as nat));
        lemma_add_laws(0, 0, 0);
    }
}

/// Polynomials with the same coefficients below degree `n` have the same
/// terms below it.
pub proof fn lemma_eval_terms_agree(p: Seq<u8>, q: Seq<u8>, x: u8, n: nat)
    requires
        forall|k: int| 0 <= k < n ==> coefficient(p, k) == coefficient(q, k),
    ensures
        eval_terms(p, x, n) == eval_terms(q, x, n),
    decreases n,
{
    if n > 0 {
        lemma_eval_terms_agree(p, q, x, (n - 1) as nat);
    }
}

/// The terms beyond the stored coefficients add nothing.
pub proof fn lemma_eval_terms_beyond(p: Seq<u8>, x: u8, n: nat)
    requires
        n >= p.len(),
    ensures
        eval_terms(p, x, n) == poly_eval(p, x),
    decreases n,
{
    if n > p.len() {
        lemma_eval_terms_beyond(p, x, (n - 1) as nat);
        lemma_mul_zero_one(gf_pow(x, (n - 1) as nat));
        lemma_add_laws(eval_terms(p, x, (n - 1) as nat), 0, 0);
    }
}

/// Appending zeros to a polynomial changes none of its values.
pub proof fn lemma_eval_padded(p: Seq<u8>, n: nat, x: u8)
    requires
        n >= p.len(),
    ensures
        poly_eval(padded(p, n), x) == poly_eval(p, x),
{
    lemma_eval_terms_agree(padded(p, n), p, x, n);
    lemma_eval_terms_beyond(p, x, n);
}

/// The value of a polynomial at 0 is its constant term.
pub proof fn lemma_eval_at_zero(p: Seq<u8>)
    ensures
        poly_eval(p, 0) == coefficient(p, 0),
{
    lemma_terms_at_zero(p, p.len());
}

proof fn lemma_terms_at_zero(p: Seq<u8>, n: nat)
    ensures
        eval_terms(p, 0, n) == if n == 0 {
            0
        } else {
            coefficient(p, 0)
        },
    decreases n,
{
    if n > 0 {
        let m = (n - 1) as nat;
        lemma_terms_at_zero(p, m);
        lemma_mul_zero_one(coefficient(p, m as int));
        lemma_add_laws(coefficient(p, 0), 0, 0);
        if m > 0 {
            assert(gf_pow(0, m) == 0) by {
                lemma_mul_zero_one(gf_pow(0, (m - 1) as nat));
            }
        }
    }
}

/// The value of a sum is the sum of the values, term by term.
pub proof fn lemma_eval_terms_add(a: Seq<u8>, b: Seq<u8>, x: u8, n: nat)
    requires
        n <= add_poly(a, b).len(),
    ensures
        eval_terms(add_poly(a, b), x, n) == gf_add(eval_terms(a, x, n), eval_terms(b, x, n)),
    decreases n,
{
    if n == 0 {
        lemma_add_laws(0, 0, 0);
    } else {
        let m = (n - 1) as nat;
        lemma_eval_terms_add(a, b, x, m);
        let power = gf_pow(x, m);
        lemma_mul_distributes_left(coefficient(a, m as int), coefficient(b, m as int), power);
        lemma_add_exchange(
            eval_terms(a, x, m),
            eval_terms(b, x, m),
            gf_mul(coefficient(a, m as int), power),
            gf_mul(coefficient(b, m as int), power),
        );
    }
}

/// The value of a sum of polynomials is the sum of their values.
pub proof fn lemma_eval_add(a: Seq<u8>, b: Seq<u8>, x: u8)
    ensures
        poly_eval(add_poly(a, b), x) == gf_add(poly_eval(a, x), poly_eval(b, x)),
{
    let n = add_poly(a, b).len();
    lemma_eval_terms_add(a, b, x, n);
    lemma_eval_terms_beyond(a, x, n);
    lemma_eval_terms_beyond(b, x, n);
}

/// The value of `a` times `s` times x^shift, term by term.
proof fn lemma_eval_terms_shifted(a: Seq<u8>, s: u8, shift: nat, x: u8, n: nat)
    requires
        n <= a.len(),
    ensures
        eval_terms(shifted_multiple(a, s, shift), x, shift + n) == gf_mul(
            gf_mul(s, gf_pow(x, shift)),
            eval_terms(a, x, n),
        ),
    decreases n,
{
    let row = shifted_multiple(a, s, shift);
    let scale = gf_mul(s, gf_pow(x, shift));
    if n == 0 {
        lemma_eval_terms_zero(row, x, shift);
        lemma_mul_zero_one(scale);
    } else {
        let m = (n - 1) as nat;
        lemma_eval_terms_shifted(a, s, shift, x, m);
        assert(coefficient(row, (shift + m) as int) == gf_mul(a[m as int], s));
        lemma_pow_add(x, shift, m);
        lemma_mul_exchange(a[m as int], s, gf_pow(x, shift), gf_pow(x, m));
        lemma_mul_distributes(scale, eval_terms(a, x, m), gf_mul(a[m as int], gf_pow(x, m)));
        assert(eval_terms(row, x, shift + n) == gf_add(
            eval_terms(row, x, shift + m),
            gf_mul(coefficient(row, (shift + m) as int), gf_pow(x, shift + m)),
        ));
    }
}

/// The value of `a` times `s` times x^shift is the value of `a`, times `s`,
/// times the point raised to `shift`.
pub proof fn lemma_eval_shifted_multiple(a: Seq<u8>, s: u8, shift: nat, x: u8)
    ensures
        poly_eval(shifted_multiple(a, s, shift), x) == gf_mul(
            gf_mul(s, gf_pow(x, shift)),
            poly_eval(a, x),
        ),
{
    lemma_eval_terms_shifted(a, s, shift, x, a.len());
}

/// The value of the first `n` rows of a product.
proof fn lemma_eval_rows(a: Seq<u8>, b: Seq<u8>, x: u8, n: nat)
    requires
        n <= b.len(),
    ensures
        poly_eval(mul_rows(a, b, n), x) == gf_mul(poly_eval(a, x), eval_terms(b, x, n)),
    decreases n,
{
    if n == 0 {
        lemma_mul_zero_one(poly_eval(a, x));
    } else {
        let m = (n - 1) as nat;
        lemma_eval_rows(a, b, x, m);
        lemma_eval_add(mul_rows(a, b, m), shifted_multiple(a, b[m as int], m), x);
        lemma_eval_shifted_multiple(a, b[m as int], m, x);
        lemma_mul_commutative(gf_mul(b[m as int], gf_pow(x, m)), poly_eval(a, x));
        lemma_mul_distributes(
            poly_eval(a, x),
            eval_terms(b, x, m),
            gf_mul(b[m as int], gf_pow(x, m)),
        );
    }
}

/// The value of a product of polynomials is the product of their values.
pub proof fn lemma_eval_mul(a: Seq<u8>, b: Seq<u8>, x: u8)
    ensures
        poly_eval(mul_poly(a, b), x) == gf_mul(poly_eval(a, x), poly_eval(b, x)),
{
    lemma_eval_rows(a, b, x, b.len());
}

/// How long the first `n` rows of a product are.
pub proof fn lemma_rows_len(a: Seq<u8>, b: Seq<u8>, n: nat)
    ensures
        mul_rows(a, b, n).len() == if n == 0 {
            0
        } else {
            a.len() + n - 1
        },
    decreases n,
{
    if n > 0 {
        lemma_rows_len(a, b, (n - 1) as nat);
    }
}

/// A product with a nonempty second factor is one shorter than the two
/// factors together; with an empty one it is empty.
pub proof fn lemma_mul_len(a: Seq<u8>, b: Seq<u8>)
    ensures
        mul_poly(a, b).len() == if b.len() == 0 {
            0
        } else {
            a.len() + b.len() - 1
        },
{
    lemma_rows_len(a, b, b.len());
}

/// A constant polynomial has its constant as value everywhere.
pub proof fn lemma_eval_constant(c: u8, x: u8)
    ensures
        poly_eval(seq![c], x) == c,
{
    let p = seq![c];
    assert(eval_terms(p, x, 1) == gf_add(
        eval_terms(p, x, 0),
        gf_mul(coefficient(p, 0), gf_pow(x, 0)),
    ));
    lemma_mul_zero_one(c);
    lemma_add_laws(c, 0, 0);
}

/// The value of a polynomial of degree one.
pub proof fn lemma_eval_linear(c0: u8, c1: u8, x: u8)
    ensures
        poly_eval(seq![c0, c1], x) == gf_add(c0, gf_mul(c1, x)),
{
    let p = seq![c0, c1];
    assert(eval_terms(p, x, 1) == gf_add(
        eval_terms(p, x, 0),
        gf_mul(coefficient(p, 0), gf_pow(x, 0)),
    ));
    assert(eval_terms(p, x, 2) == gf_add(
        eval_terms(p, x, 1),
        gf_mul(coefficient(p, 1), gf_pow(x, 1)),
    ));
    assert(gf_pow(x, 1) == gf_mul(gf_pow(x, 0), x));
    lemma_mul_zero_one(c0);
    lemma_mul_zero_one(x);
    lemma_add_laws(c0, 0, 0);
}

} // verus!
