//! Polynomials over GF(2^8), held as their coefficients in ascending degree.

use crate::field::{gf_add, gf_mul, gf_pow};
use crate::secret::SecretData;
use vstd::prelude::*;

verus! {

/// The coefficient of x^k in `p`, which is 0 beyond the stored ones.
pub open spec fn coefficient(p: Seq<u8>, k: int) -> u8 {
    if 0 <= k < p.len() {
        p[k]
    } else {
        0
    }
}

/// `p` with zeros appended up to `n` coefficients.
pub open spec fn padded(p: Seq<u8>, n: nat) -> Seq<u8> {
    Seq::new(n, |k: int| coefficient(p, k))
}

/// The sum of two polynomials, as long as the longer of the two.
pub open spec fn add_poly(a: Seq<u8>, b: Seq<u8>) -> Seq<u8> {
    Seq::new(
        if a.len() >= b.len() {
            a.len()
        } else {
            b.len()
        },
        |k: int| gf_add(coefficient(a, k), coefficient(b, k)),
    )
}

/// The product of `a`, the scalar `s` and x^shift: `shift` zeros, then the
/// coefficients of `a`, each multiplied by `s`.
pub open spec fn shifted_multiple(a: Seq<u8>, s: u8, shift: nat) -> Seq<u8> {
    Seq::new(
        shift + a.len(),
        |k: int|
            if k < shift {
                0u8
            } else {
                gf_mul(a[k - shift], s)
            },
    )
}

/// The sum of the products of `a` with the terms of `b` below degree `n`.
pub open spec fn mul_rows(a: Seq<u8>, b: Seq<u8>, n: nat) -> Seq<u8>
    decreases n,
{
    if n == 0 {
        Seq::empty()
    } else {
        add_poly(mul_rows(a, b, (n - 1) as nat), shifted_multiple(a, b[n - 1], (n - 1) as nat))
    }
}

/// The product of two polynomials: the sum, over the terms of `b`, of `a`
/// multiplied by that term.
pub open spec fn mul_poly(a: Seq<u8>, b: Seq<u8>) -> Seq<u8> {
    mul_rows(a, b, b.len())
}

/// The sum of the terms of `p` below degree `n`, at the point `x`.
pub open spec fn eval_terms(p: Seq<u8>, x: u8, n: nat) -> u8
    decreases n,
{
    if n == 0 {
        0
    } else {
        gf_add(
            eval_terms(p, x, (n - 1) as nat),
            gf_mul(coefficient(p, n - 1), gf_pow(x, (n - 1) as nat)),
        )
    }
}

/// The value of the polynomial `p` at the point `x`.
pub open spec fn poly_eval(p: Seq<u8>, x: u8) -> u8 {
    eval_terms(p, x, p.len())
}

impl SecretData {
    /// Adds two polynomials; the shorter one counts as padded with zeros.
    #[inline]
    pub fn add_polynomials(a: &[u8], b: &[u8]) -> (r: Vec<u8>)
        ensures
            r@ == add_poly(a@, b@),
    {
        let len: usize = if a.len() >= b.len() {
            a.len()
        } else {
            b.len()
        };
        let mut sum: Vec<u8> = Vec::new();
        let mut i: usize = 0;
        while i < len
            invariant
                i <= len,
                len == add_poly(a@, b@).len(),
                sum@ == add_poly(a@, b@).take(i as int),
            decreases len - i,
        {
            let x: u8 = if i < a.len() {
                a[i]
            } else {
                0
            };
            let y: u8 = if i < b.len() {
                b[i]
            } else {
                0
            };
            sum.push(SecretData::gf256_add(x, y));
            i = i + 1;
        }
        sum
    }

    /// Multiplies two polynomials by convolution. Trailing zeros are kept.
    #[inline]
    pub fn multiply_polynomials(a: &[u8], b: &[u8]) -> (r: Vec<u8>)
        ensures
            r@ == mul_poly(a@, b@),
    {
        let mut product: Vec<u8> = Vec::new();
        let mut j: usize = 0;
        while j < b.len()
            invariant
                j <= b.len(),
                product@ == mul_rows(a@, b@, j as nat),
            decreases b.len() - j,
        {
            let row = SecretData::shifted_row(a, b[j], j);
            product = SecretData::add_polynomials(product.as_slice(), row.as_slice());
            j = j + 1;
        }
        product
    }

    /// `shift` zeros followed by the coefficients of `a`, each multiplied by
    /// `s`.
    fn shifted_row(a: &[u8], s: u8, shift: usize) -> (r: Vec<u8>)
        ensures
            r@ == shifted_multiple(a@, s, shift as nat),
    {
        let mut row: Vec<u8> = Vec::new();
        let mut k: usize = 0;
        while k < shift
            invariant
                k <= shift,
                row@.len() == k,
                forall|m: int| 0 <= m < k ==> row@[m] == 0,
            decreases shift - k,
        {
            row.push(0);
            k = k + 1;
        }
        let mut i: usize = 0;
        while i < a.len()
            invariant
                i <= a.len(),
                row@.len() == shift + i,
                forall|m: int| 0 <= m < shift ==> row@[m] == 0,
                forall|m: int| shift <= m < shift + i ==> row@[m] == gf_mul(a@[m - shift], s),
            decreases a.len() - i,
        {
            row.push(SecretData::gf256_mul(a[i], s));
            i = i + 1;
        }
        row
    }
}

} // verus!
