//! The polynomial through given points: that there is at most one, and the
//! Lagrange construction of it.

use crate::error::{outcome, ShamirError};
use crate::field::{
    checked_div, gf_add, gf_div, gf_mul, gf_pow, lemma_mul_distributes, lemma_mul_zero_one,
};
use crate::field_laws::{
    lemma_add_cancel, lemma_add_laws, lemma_div_mul, lemma_mul_associative, lemma_mul_cancel,
    lemma_mul_commutative, lemma_mul_distributes_left, lemma_mul_is_zero,
};
use crate::poly::{add_poly, eval_terms, mul_poly, poly_eval};
use crate::poly_laws::{
    lemma_eval_add, lemma_eval_constant, lemma_eval_linear, lemma_eval_mul, lemma_mul_len,
};
use crate::secret::SecretData;
use vstd::prelude::*;

verus! {

/// `p` has one coefficient for each point and takes the value `ys[i]` at
/// each `xs[i]`.
pub open spec fn interpolates(p: Seq<u8>, xs: Seq<u8>, ys: Seq<u8>) -> bool {
    &&& p.len() == xs.len()
    &&& forall|i: int| 0 <= i < xs.len() ==> #[trigger] poly_eval(p, xs[i]) == ys[i]
}

/// The polynomial of degree below the number of points that passes through
/// the points `(xs[i], ys[i])`.
pub open spec fn interpolant(xs: Seq<u8>, ys: Seq<u8>) -> Seq<u8> {
    choose|p: Seq<u8>| interpolates(p, xs, ys)
}

/// What the Lagrange construction gives for the points `(xs[i], ys[i])`:
/// their interpolant, or an error where two of them share a first
/// coordinate, which makes a denominator of the construction zero.
pub open spec fn lagrange(xs: Seq<u8>, ys: Seq<u8>) -> Result<Seq<u8>, ShamirError> {
    if xs.no_duplicates() {
        Ok(interpolant(xs, ys))
    } else {
        Err(ShamirError::DivisionByZero)
    }
}

/// The value at `x` of the terms of `p` from degree `k` on, divided by x^k.
spec fn tail_eval(p: Seq<u8>, x: u8, k: nat) -> u8
    decreases p.len() - k,
{
    if k >= p.len() {
        0
    } else {
        gf_add(p[k as int], gf_mul(x, tail_eval(p, x, k + 1)))
    }
}

/// The quotient of `p` by the polynomial x - r.
spec fn quotient(p: Seq<u8>, r: u8) -> Seq<u8> {
    Seq::new((p.len() - 1) as nat, |i: int| tail_eval(p, r, (i + 1) as nat))
}

/// A polynomial splits at any degree into its lower terms and x^k times the
/// rest.
proof fn lemma_eval_split(p: Seq<u8>, x: u8, k: nat)
    requires
        k <= p.len(),
    ensures
        poly_eval(p, x) == gf_add(eval_terms(p, x, k), gf_mul(gf_pow(x, k), tail_eval(p, x, k))),
    decreases p.len() - k,
{
    if k == p.len() {
        lemma_mul_zero_one(gf_pow(x, k));
        lemma_add_laws(eval_terms(p, x, k), 0, 0);
    } else {
        lemma_eval_split(p, x, k + 1);
        let rest = tail_eval(p, x, k + 1);
        let power = gf_pow(x, k);
        assert(gf_pow(x, k + 1) == gf_mul(power, x));
        assert(eval_terms(p, x, k + 1) == gf_add(eval_terms(p, x, k), gf_mul(p[k as int], power)));
        lemma_mul_associative(power, x, rest);
        lemma_mul_distributes(power, p[k as int], gf_mul(x, rest));
        lemma_mul_commutative(p[k as int], power);
        lemma_add_laws(
            eval_terms(p, x, k),
            gf_mul(power, p[k as int]),
            gf_mul(power, gf_mul(x, rest)),
        );
    }
}

/// The value of a polynomial is the value of all its terms, nested.
proof fn lemma_eval_nested(p: Seq<u8>, x: u8)
    ensures
        poly_eval(p, x) == tail_eval(p, x, 0),
{
    lemma_eval_split(p, x, 0);
    lemma_mul_zero_one(tail_eval(p, x, 0));
    lemma_add_laws(tail_eval(p, x, 0), 0, 0);
}

/// The sums on the two sides of the division with remainder are the same.
proof fn lemma_division_sum(a: u8, b: u8, c: u8, d: u8)
    ensures
        gf_add(a, gf_add(d, b)) == gf_add(gf_add(gf_add(b, c), d), gf_add(a, c)),
{
    assert(a ^ (d ^ b) == ((b ^ c) ^ d) ^ (a ^ c)) by (bit_vector);
}

/// Division with remainder by x - r: at every point `x`, the polynomial is
/// its quotient times `x - r`, plus its value at `r`.
proof fn lemma_division(p: Seq<u8>, r: u8, x: u8, k: nat)
    requires
        p.len() >= 1,
    ensures
        tail_eval(p, x, k) == gf_add(
            gf_mul(gf_add(x, r), tail_eval(quotient(p, r), x, k)),
            tail_eval(p, r, k),
        ),
    decreases p.len() - k,
{
    let q = quotient(p, r);
    let d = gf_add(x, r);
    if k >= p.len() {
        lemma_mul_zero_one(d);
        lemma_add_laws(0, 0, 0);
    } else {
        lemma_division(p, r, x, k + 1);
        let rest_r = tail_eval(p, r, k + 1);
        let rest_q = tail_eval(q, x, k + 1);
        assert(tail_eval(q, x, k) == gf_add(rest_r, gf_mul(x, rest_q))) by {
            if k < q.len() {
                assert(q[k as int] == rest_r);
            } else {
                lemma_mul_zero_one(x);
                lemma_add_laws(0, 0, 0);
            }
        }
        // x * (d * rest_q + rest_r) = d * (x * rest_q) + x * rest_r
        lemma_mul_distributes(x, gf_mul(d, rest_q), rest_r);
        lemma_mul_associative(x, d, rest_q);
        lemma_mul_commutative(x, d);
        lemma_mul_associative(d, x, rest_q);
        // d * (rest_r + x * rest_q) = (x * rest_r + r * rest_r) + d * (x * rest_q)
        lemma_mul_distributes(d, rest_r, gf_mul(x, rest_q));
        lemma_mul_distributes_left(x, r, rest_r);
        lemma_division_sum(
            p[k as int],
            gf_mul(x, rest_r),
            gf_mul(r, rest_r),
            gf_mul(d, gf_mul(x, rest_q)),
        );
    }
}

/// A polynomial with a zero quotient by x - r and the value 0 at `r` has
/// no nonzero coefficient.
proof fn lemma_zero_quotient(p: Seq<u8>, r: u8)
    requires
        p.len() >= 1,
        poly_eval(p, r) == 0,
        forall|i: int| 0 <= i < quotient(p, r).len() ==> quotient(p, r)[i] == 0,
    ensures
        forall|k: int| 0 <= k < p.len() ==> p[k] == 0,
{
    lemma_eval_nested(p, r);
    assert forall|k: int| 0 <= k < p.len() implies p[k] == 0 by {
        assert(tail_eval(p, r, k as nat) == 0) by {
            if k > 0 {
                assert(quotient(p, r)[k - 1] == 0);
            }
        }
        assert(tail_eval(p, r, (k + 1) as nat) == 0) by {
            if k + 1 < p.len() {
                assert(quotient(p, r)[k] == 0);
            }
        }
        lemma_mul_zero_one(r);
        lemma_add_laws(p[k], 0, 0);
    }
}

/// A polynomial with more distinct roots than its degree has no nonzero
/// coefficient.
pub proof fn lemma_roots(p: Seq<u8>, xs: Seq<u8>)
    requires
        p.len() <= xs.len(),
        xs.no_duplicates(),
        forall|i: int| 0 <= i < xs.len() ==> #[trigger] poly_eval(p, xs[i]) == 0,
    ensures
        forall|k: int| 0 <= k < p.len() ==> p[k] == 0,
    decreases p.len(),
{
    if p.len() > 0 {
        let r = xs.last();
        let q = quotient(p, r);
        let others = xs.drop_last();
        assert(poly_eval(p, xs[xs.len() - 1]) == 0);
        lemma_eval_nested(p, r);
        assert forall|i: int| 0 <= i < others.len() implies #[trigger] poly_eval(q, others[i])
            == 0 by {
            let x = others[i];
            assert(x == xs[i]);
            assert(poly_eval(p, xs[i]) == 0);
            lemma_eval_nested(p, x);
            lemma_eval_nested(q, x);
            lemma_division(p, r, x, 0);
            let product = gf_mul(gf_add(x, r), tail_eval(q, x, 0));
            lemma_add_laws(product, 0, 0);
            lemma_mul_is_zero(gf_add(x, r), tail_eval(q, x, 0));
            lemma_add_cancel(x, r);
        }
        lemma_roots(q, others);
        lemma_zero_quotient(p, r);
    }
}

/// Through points with distinct first coordinates passes at most one
/// polynomial of degree below their number.
pub proof fn lemma_interpolation_unique(p: Seq<u8>, q: Seq<u8>, xs: Seq<u8>, ys: Seq<u8>)
    requires
        xs.no_duplicates(),
        interpolates(p, xs, ys),
        interpolates(q, xs, ys),
    ensures
        p == q,
{
    let d = add_poly(p, q);
    assert forall|i: int| 0 <= i < xs.len() implies #[trigger] poly_eval(d, xs[i]) == 0 by {
        lemma_eval_add(p, q, xs[i]);
        assert(poly_eval(p, xs[i]) == ys[i]);
        assert(poly_eval(q, xs[i]) == ys[i]);
        lemma_add_laws(ys[i], 0, 0);
    }
    lemma_roots(d, xs);
    assert forall|k: int| 0 <= k < p.len() implies p[k] == q[k] by {
        assert(d[k] == 0);
        lemma_add_cancel(p[k], q[k]);
    }
    assert(p =~= q);
}

/// A polynomial through the points is the interpolant of the points.
pub proof fn lemma_interpolant_is(p: Seq<u8>, xs: Seq<u8>, ys: Seq<u8>)
    requires
        xs.no_duplicates(),
        interpolates(p, xs, ys),
    ensures
        interpolant(xs, ys) == p,
{
    lemma_interpolation_unique(interpolant(xs, ys), p, xs, ys);
}

/// The polynomial with the leading coefficient 1 whose roots are the first
/// `n` of `xs`.
spec fn vanishing(xs: Seq<u8>, n: nat) -> Seq<u8>
    decreases n,
{
    if n == 0 {
        seq![1u8]
    } else {
        mul_poly(vanishing(xs, (n - 1) as nat), seq![xs[n - 1], 1u8])
    }
}

/// A polynomial through the first `n` of the points, built one point at a
/// time: to the polynomial through the points before the last, a multiple
/// of the polynomial that vanishes at them is added to meet the last.
spec fn through(xs: Seq<u8>, ys: Seq<u8>, n: nat) -> Seq<u8>
    decreases n,
{
    if n == 0 {
        Seq::empty()
    } else {
        let before = through(xs, ys, (n - 1) as nat);
        let zero_before = vanishing(xs, (n - 1) as nat);
        let missing = gf_add(ys[n - 1], poly_eval(before, xs[n - 1]));
        let step = gf_div(missing, poly_eval(zero_before, xs[n - 1]));
        add_poly(before, mul_poly(zero_before, seq![step]))
    }
}

/// The vanishing polynomial of `n` points has `n + 1` coefficients, is 0
/// at each of the points and is not 0 anywhere else.
proof fn lemma_vanishing(xs: Seq<u8>, n: nat, x: u8)
    requires
        n <= xs.len(),
    ensures
        vanishing(xs, n).len() == n + 1,
        poly_eval(vanishing(xs, n), x) == 0 <==> exists|k: int| 0 <= k < n && xs[k] == x,
    decreases n,
{
    if n == 0 {
        lemma_eval_constant(1, x);
    } else {
        let m = (n - 1) as nat;
        let factor = seq![xs[m as int], 1u8];
        lemma_vanishing(xs, m, x);
        lemma_mul_len(vanishing(xs, m), factor);
        lemma_eval_mul(vanishing(xs, m), factor, x);
        lemma_eval_linear(xs[m as int], 1, x);
        lemma_mul_zero_one(x);
        lemma_add_cancel(xs[m as int], x);
        lemma_mul_is_zero(poly_eval(vanishing(xs, m), x), poly_eval(factor, x));
        if poly_eval(vanishing(xs, n), x) == 0 {
            if poly_eval(vanishing(xs, m), x) == 0 {
                let k = choose|k: int| 0 <= k < m && xs[k] == x;
                assert(0 <= k < n && xs[k] == x);
            } else {
                assert(0 <= m < n && xs[m as int] == x);
            }
        }
    }
}

/// The polynomial built through the first `n` points has `n` coefficients
/// and passes through each of them.
proof fn lemma_through(xs: Seq<u8>, ys: Seq<u8>, n: nat, k: int)
    requires
        xs.no_duplicates(),
        n <= xs.len(),
        0 <= k < n,
    ensures
        through(xs, ys, n).len() == n,
        poly_eval(through(xs, ys, n), xs[k]) == ys[k],
    decreases n,
{
    let m = (n - 1) as nat;
    let before = through(xs, ys, m);
    let zero_before = vanishing(xs, m);
    let at_last = poly_eval(zero_before, xs[m as int]);
    let missing = gf_add(ys[m as int], poly_eval(before, xs[m as int]));
    let step = gf_div(missing, at_last);
    if m > 0 {
        lemma_through(xs, ys, m, 0);
    }
    lemma_vanishing(xs, m, xs[k]);
    lemma_mul_len(zero_before, seq![step]);
    lemma_eval_add(before, mul_poly(zero_before, seq![step]), xs[k]);
    lemma_eval_mul(zero_before, seq![step], xs[k]);
    lemma_eval_constant(step, xs[k]);
    if k < m {
        lemma_through(xs, ys, m, k);
        assert(poly_eval(zero_before, xs[k]) == 0);
        lemma_mul_zero_one(step);
        lemma_add_laws(ys[k], 0, 0);
    } else {
        lemma_div_mul(missing, at_last);
        lemma_mul_commutative(step, at_last);
        lemma_add_laws(poly_eval(before, xs[k]), ys[k], poly_eval(before, xs[k]));
        lemma_add_laws(ys[k], poly_eval(before, xs[k]), 0);
        lemma_add_laws(ys[k], poly_eval(before, xs[k]), poly_eval(before, xs[k]));
    }
}

/// Through points with distinct first coordinates passes a polynomial of
/// degree below their number, and the interpolant is it.
pub proof fn lemma_interpolant_exists(xs: Seq<u8>, ys: Seq<u8>)
    requires
        xs.no_duplicates(),
        xs.len() == ys.len(),
    ensures
        interpolates(interpolant(xs, ys), xs, ys),
{
    let p = through(xs, ys, xs.len());
    if xs.len() == 0 {
        assert(interpolates(p, xs, ys));
    } else {
        lemma_through(xs, ys, xs.len(), 0);
        assert forall|i: int| 0 <= i < xs.len() implies #[trigger] poly_eval(p, xs[i])
            == ys[i] by {
            lemma_through(xs, ys, xs.len(), i);
        }
        assert(interpolates(p, xs, ys));
    }
}

/// The factor of a Lagrange basis polynomial that belongs to the points
/// `xi` and `xj` is 1 at `xi` and 0 at `xj`.
proof fn lemma_factor_values(xi: u8, xj: u8, a: u8, b: u8)
    requires
        xi != xj,
        checked_div(xj, gf_add(xi, xj)) == Ok::<u8, ShamirError>(a),
        checked_div(1, gf_add(xi, xj)) == Ok::<u8, ShamirError>(b),
    ensures
        poly_eval(seq![a, b], xi) == 1,
        poly_eval(seq![a, b], xj) == 0,
{
    let d = gf_add(xi, xj);
    lemma_add_cancel(xi, xj);
    lemma_div_mul(xj, d);
    lemma_div_mul(1, d);
    lemma_mul_zero_one(d);
    lemma_factor_value_at(xi, xj, a, b, xi);
    lemma_factor_value_at(xi, xj, a, b, xj);
    lemma_add_laws(xj, xi, 0);
    lemma_mul_cancel(poly_eval(seq![a, b], xi), 1, d);
    lemma_mul_cancel(poly_eval(seq![a, b], xj), 0, d);
}

/// The value of such a factor at `x`, multiplied by the denominator.
proof fn lemma_factor_value_at(xi: u8, xj: u8, a: u8, b: u8, x: u8)
    requires
        gf_mul(a, gf_add(xi, xj)) == xj,
        gf_mul(b, gf_add(xi, xj)) == 1,
    ensures
        gf_mul(poly_eval(seq![a, b], x), gf_add(xi, xj)) == gf_add(xj, x),
{
    let d = gf_add(xi, xj);
    lemma_eval_linear(a, b, x);
    lemma_mul_distributes_left(a, gf_mul(b, x), d);
    lemma_mul_associative(b, x, d);
    lemma_mul_commutative(x, d);
    lemma_mul_associative(b, d, x);
    lemma_mul_zero_one(x);
}

impl SecretData {
    /// Builds, by Lagrange's construction, the polynomial that takes the
    /// value `fxs[i]` at `xs[i]` for every `i` below the length of `fxs`:
    /// the sum, over the points, of the value times the product of the
    /// factors `(x - xs[j]) / (xs[i] - xs[j])` for the other points. Two
    /// equal points make a denominator zero, which is an error.
    pub fn full_lagrange(xs: &[u8], fxs: &[u8]) -> (r: Result<Vec<u8>, ShamirError>)
        requires
            fxs.len() <= xs.len(),
        ensures
            outcome(r) == lagrange(xs@.take(fxs@.len() as int), fxs@),
            r matches Ok(p) ==> interpolates(p@, xs@.take(fxs@.len() as int), fxs@),
    {
        let len: usize = fxs.len();
        let ghost pts = xs@.take(len as int);
        let mut returned_coefficients: Vec<u8> = Vec::new();
        let mut i: usize = 0;
        while i < len
            invariant
                i <= len,
                len == fxs.len(),
                len <= xs.len(),
                pts == xs@.take(len as int),
                returned_coefficients@.len() == (if i == 0 {
                    0
                } else {
                    len as int
                }),
                forall|m: int|
                    0 <= m < len ==> #[trigger] poly_eval(returned_coefficients@, pts[m]) == (if m
                        < i {
                        fxs@[m]
                    } else {
                        0u8
                    }),
                forall|m: int, k: int| 0 <= m < i && 0 <= k < len && m != k ==> pts[m] != pts[k],
            decreases len - i,
        {
            let mut this_polynomial: Vec<u8> = vec![1];
            proof {
                assert(this_polynomial@ =~= seq![1u8]);
                lemma_eval_constant(1, pts[i as int]);
            }
            let mut j: usize = 0;
            while j < len
                invariant
                    j <= len,
                    i < len,
                    len == fxs.len(),
                    len <= xs.len(),
                    pts == xs@.take(len as int),
                    this_polynomial@.len() == 1 + j - (if j > i {
                        1int
                    } else {
                        0int
                    }),
                    poly_eval(this_polynomial@, pts[i as int]) == 1,
                    forall|m: int|
                        0 <= m < j && m != i ==> #[trigger] poly_eval(this_polynomial@, pts[m])
                            == 0,
                    forall|m: int| 0 <= m < j && m != i ==> pts[m] != pts[i as int],
                decreases len - j,
            {
                if i != j {
                    let denominator: u8 = SecretData::gf256_sub(xs[i], xs[j]);
                    let first_term = SecretData::gf256_checked_div(xs[j], denominator);
                    let second_term = SecretData::gf256_checked_div(1, denominator);
                    proof {
                        assert(pts[i as int] == xs@[i as int]);
                        assert(pts[j as int] == xs@[j as int]);
                        lemma_add_cancel(xs@[i as int], xs@[j as int]);
                    }
                    match (first_term, second_term) {
                        (Ok(a), Ok(b)) => {
                            let this_term: Vec<u8> = vec![a, b];
                            let ghost basis = this_polynomial@;
                            this_polynomial = SecretData::multiply_polynomials(
                                this_polynomial.as_slice(),
                                this_term.as_slice(),
                            );
                            proof {
                                let factor = seq![a, b];
                                assert(this_term@ =~= factor);
                                lemma_factor_values(xs@[i as int], xs@[j as int], a, b);
                                lemma_mul_len(basis, factor);
                                lemma_eval_mul(basis, factor, pts[i as int]);
                                lemma_mul_zero_one(1);
                                assert forall|m: int| 0 <= m < j + 1 && m != i implies
                                    #[trigger] poly_eval(this_polynomial@, pts[m]) == 0 by {
                                    lemma_eval_mul(basis, factor, pts[m]);
                                    lemma_mul_zero_one(poly_eval(factor, pts[m]));
                                    lemma_mul_zero_one(poly_eval(basis, pts[m]));
                                }
                            }
                        },
                        _ => {
                            return Err(ShamirError::DivisionByZero);
                        },
                    }
                }
                j = j + 1;
            }
            let value: Vec<u8> = vec![fxs[i]];
            let ghost basis = this_polynomial@;
            this_polynomial = SecretData::multiply_polynomials(
                this_polynomial.as_slice(),
                value.as_slice(),
            );
            let ghost sum = returned_coefficients@;
            returned_coefficients = SecretData::add_polynomials(
                returned_coefficients.as_slice(),
                this_polynomial.as_slice(),
            );
            proof {
                assert(value@ =~= seq![fxs@[i as int]]);
                lemma_mul_len(basis, value@);
                assert forall|m: int| 0 <= m < len implies #[trigger] poly_eval(
                    returned_coefficients@,
                    pts[m],
                ) == (if m < i + 1 {
                    fxs@[m]
                } else {
                    0u8
                }) by {
                    lemma_eval_add(sum, this_polynomial@, pts[m]);
                    lemma_eval_mul(basis, value@, pts[m]);
                    lemma_eval_constant(fxs@[i as int], pts[m]);
                    lemma_mul_zero_one(fxs@[i as int]);
                    lemma_add_laws(fxs@[m], 0, 0);
                    lemma_add_laws(0, 0, 0);
                    assert(poly_eval(sum, pts[m]) == (if m < i {
                        fxs@[m]
                    } else {
                        0u8
                    }));
                    if m != i {
                        assert(poly_eval(basis, pts[m]) == 0);
                    }
                }
            }
            i = i + 1;
        }
        proof {
            assert(interpolates(returned_coefficients@, pts, fxs@));
            lemma_interpolant_is(returned_coefficients@, pts, fxs@);
        }
        Ok(returned_coefficients)
    }
}

} // verus!
