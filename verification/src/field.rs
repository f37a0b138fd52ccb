//! Arithmetic in GF(2^8): bytes as polynomials over GF(2), reduced modulo
//! x^8 + x^4 + x^3 + x + 1.

use crate::error::ShamirError;
use crate::field_laws::lemma_div_logs;
use crate::secret::SecretData;
use crate::tables::{
    antilog, antilog_entry, lemma_antilog_log, lemma_antilog_step, lemma_log_antilog, log,
    log_entry,
};
use vstd::prelude::*;

verus! {

/// The sum of two field elements; it is also their difference.
pub open spec fn gf_add(a: u8, b: u8) -> u8 {
    a ^ b
}

/// The product of `a` and the polynomial x.
pub open spec fn xtime(a: u8) -> u8 {
    if a & 0x80 == 0x80 {
        (a << 1) ^ 0x1b
    } else {
        a << 1
    }
}

/// The product of `a` and the polynomial x + 1, the byte 3.
pub open spec fn times_three(a: u8) -> u8 {
    xtime(a) ^ a
}

/// `a` where bit `k` of `b` is set, and 0 where it is not.
pub open spec fn bit_term(b: u8, k: u8, a: u8) -> u8 {
    if (b >> k) & 1 == 1 {
        a
    } else {
        0
    }
}

/// The product of two field elements: the sum, over the bits set in `b`, of
/// `a` times the matching power of x.
#[verifier::opaque]
pub open spec fn gf_mul(a: u8, b: u8) -> u8 {
    let a1 = xtime(a);
    let a2 = xtime(a1);
    let a3 = xtime(a2);
    let a4 = xtime(a3);
    let a5 = xtime(a4);
    let a6 = xtime(a5);
    let a7 = xtime(a6);
    bit_term(b, 0, a) ^ bit_term(b, 1, a1) ^ bit_term(b, 2, a2) ^ bit_term(b, 3, a3)
        ^ bit_term(b, 4, a4) ^ bit_term(b, 5, a5) ^ bit_term(b, 6, a6) ^ bit_term(b, 7, a7)
}

/// The quotient of `a` by a nonzero `b`: the element whose product with `b`
/// is `a`.
pub open spec fn gf_div(a: u8, b: u8) -> u8 {
    choose|q: u8| gf_mul(q, b) == a
}

/// What dividing `a` by `b` gives: 0 for a zero `a`, else an error for a
/// zero `b`, else the quotient.
pub open spec fn checked_div(a: u8, b: u8) -> Result<u8, ShamirError> {
    if a == 0 {
        Ok(0)
    } else if b == 0 {
        Err(ShamirError::DivisionByZero)
    } else {
        Ok(gf_div(a, b))
    }
}

/// `x` raised to the power `n`.
pub open spec fn gf_pow(x: u8, n: nat) -> u8
    decreases n,
{
    if n == 0 {
        1
    } else {
        gf_mul(gf_pow(x, (n - 1) as nat), x)
    }
}

/// Zero annihilates and one is neutral, on either side.
pub proof fn lemma_mul_zero_one(a: u8)
    ensures
        gf_mul(a, 0) == 0,
        gf_mul(0, a) == 0,
        gf_mul(a, 1) == a,
        gf_mul(1, a) == a,
{
    reveal(gf_mul);
    assert(gf_mul(a, 0) == 0 && gf_mul(0, a) == 0 && gf_mul(a, 1) == a && gf_mul(1, a) == a)
        by (bit_vector);
}

/// Three times an element is its product with the byte 3.
pub proof fn lemma_times_three(a: u8)
    ensures
        gf_mul(a, 3) == times_three(a),
{
    reveal(gf_mul);
    assert(gf_mul(a, 3) == times_three(a)) by (bit_vector);
}

/// Multiplication distributes over addition in its second argument.
pub proof fn lemma_mul_distributes(a: u8, b: u8, c: u8)
    ensures
        gf_mul(a, gf_add(b, c)) == gf_add(gf_mul(a, b), gf_mul(a, c)),
{
    reveal(gf_mul);
    assert(gf_mul(a, b ^ c) == gf_mul(a, b) ^ gf_mul(a, c)) by (bit_vector);
}

/// Multiplying by x shifts, and reduces where the top bit falls out; a byte
/// is its top bit and the rest.
proof fn lemma_xtime_parts(b: u8)
    ensures
        xtime(b) == (b << 1) ^ bit_term(b, 7, 0x1b),
        b == (b & 0x7f) ^ (b & 0x80),
{
    assert(xtime(b) == (b << 1) ^ bit_term(b, 7, 0x1b)) by (bit_vector);
    assert(b == (b & 0x7f) ^ (b & 0x80)) by (bit_vector);
}

/// Multiplying by x distributes over addition.
proof fn lemma_xtime_additive(u: u8, v: u8)
    ensures
        xtime(u ^ v) == xtime(u) ^ xtime(v),
{
    assert(xtime(u ^ v) == xtime(u) ^ xtime(v)) by (bit_vector);
}

/// Shifting the second factor, without reduction, is multiplying the first
/// by x.
proof fn lemma_mul_shifted(a: u8, b: u8)
    ensures
        gf_mul(a, b << 1) == gf_mul(xtime(a), b & 0x7f),
{
    reveal(gf_mul);
    assert(gf_mul(a, b << 1) == gf_mul(xtime(a), b & 0x7f)) by (bit_vector);
}

/// Multiplying the first factor by x multiplies the product by x.
proof fn lemma_mul_xtime_left(a: u8, b: u8)
    ensures
        gf_mul(xtime(a), b) == xtime(gf_mul(a, b)),
{
    reveal(gf_mul);
    assert(gf_mul(xtime(a), b) == xtime(gf_mul(a, b))) by (bit_vector);
}

/// The reduction that the top bit of the second factor causes is x times
/// the part of the product that belongs to that bit.
proof fn lemma_mul_reduction(a: u8, b: u8)
    ensures
        gf_mul(a, bit_term(b, 7, 0x1b)) == xtime(gf_mul(a, b & 0x80)),
{
    reveal(gf_mul);
    assert(gf_mul(a, bit_term(b, 7, 0x1b)) == xtime(gf_mul(a, b & 0x80))) by (bit_vector);
}

/// Multiplying the second factor by x multiplies the product by x.
proof fn lemma_mul_xtime_right(a: u8, b: u8)
    ensures
        gf_mul(a, xtime(b)) == xtime(gf_mul(a, b)),
{
    lemma_xtime_parts(b);
    lemma_mul_distributes(a, b << 1, bit_term(b, 7, 0x1b));
    lemma_mul_shifted(a, b);
    lemma_mul_xtime_left(a, b & 0x7f);
    lemma_mul_reduction(a, b);
    lemma_xtime_additive(gf_mul(a, b & 0x7f), gf_mul(a, b & 0x80));
    lemma_mul_distributes(a, b & 0x7f, b & 0x80);
}

/// Multiplying the second factor by 3 multiplies the product by 3.
proof fn lemma_mul_times_three(a: u8, b: u8)
    ensures
        gf_mul(a, times_three(b)) == times_three(gf_mul(a, b)),
{
    lemma_mul_distributes(a, xtime(b), b);
    lemma_mul_xtime_right(a, b);
}

/// The product of a nonzero `a` and the `j`-th power of the generator, read
/// from the tables.
proof fn lemma_mul_by_power(a: u8, j: int)
    requires
        a != 0,
        0 <= j < 255,
    ensures
        gf_mul(a, antilog(j)) == antilog((log(a) + j) % 255),
    decreases j,
{
    lemma_antilog_log(a);
    if j == 0 {
        lemma_antilog_step(0);
        lemma_mul_zero_one(a);
    } else {
        lemma_mul_by_power(a, j - 1);
        let k = (log(a) + j - 1) % 255;
        lemma_antilog_step(j - 1);
        lemma_antilog_step(k);
        lemma_mul_times_three(a, antilog(j - 1));
        assert((k + 1) % 255 == (log(a) + j) % 255);
    }
}

/// The product of two nonzero elements is the power of the generator whose
/// exponent is the sum of their logarithms.
pub(crate) proof fn lemma_mul_logs(a: u8, b: u8)
    requires
        a != 0,
        b != 0,
    ensures
        gf_mul(a, b) == antilog((log(a) + log(b)) % 255),
        gf_mul(a, b) != 0,
{
    lemma_antilog_log(b);
    lemma_mul_by_power(a, log(b));
    lemma_log_antilog((log(a) + log(b)) % 255);
}

impl SecretData {
    /// Adds two field elements.
    #[inline]
    pub fn gf256_add(a: u8, b: u8) -> (r: u8)
        ensures
            r == gf_add(a, b),
    {
        a ^ b
    }

    /// Subtracts `b` from `a`, which in this field is adding it.
    #[inline]
    pub fn gf256_sub(a: u8, b: u8) -> (r: u8)
        ensures
            r == gf_add(a, b),
    {
        SecretData::gf256_add(a, b)
    }

    /// Divides `a` by `b`. Zero divided by anything is zero; anything else
    /// divided by zero is an error.
    #[inline]
    pub fn gf256_checked_div(a: u8, b: u8) -> (r: Result<u8, ShamirError>)
        ensures
            r == checked_div(a, b),
    {
        if a == 0 {
            Ok(0)
        } else if b == 0 {
            Err(ShamirError::DivisionByZero)
        } else {
            let a_log: i16 = log_entry(a) as i16;
            let b_log: i16 = log_entry(b) as i16;
            let mut diff: i16 = a_log - b_log;
            if diff < 0 {
                diff = diff + 255;
            }
            proof {
                lemma_div_logs(a, b);
                assert(diff == (log(a) - log(b)) % 255);
            }
            Ok(antilog_entry(diff as usize))
        }
    }

    /// Multiplies two field elements.
    #[inline]
    pub fn gf256_mul(a: u8, b: u8) -> (r: u8)
        ensures
            r == gf_mul(a, b),
    {
        if a == 0 || b == 0 {
            proof {
                lemma_mul_zero_one(a);
                lemma_mul_zero_one(b);
            }
            0
        } else {
            let sum: u16 = log_entry(a) as u16 + log_entry(b) as u16;
            proof {
                lemma_mul_logs(a, b);
            }
            antilog_entry((sum % 255) as usize)
        }
    }
}

} // verus!
