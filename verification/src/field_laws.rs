//! The laws of GF(2^8) that the rest of the library reasons with.

use crate::field::{
    gf_add, gf_div, gf_mul, lemma_mul_distributes, lemma_mul_logs, lemma_mul_zero_one,
};
use crate::tables::{antilog, lemma_antilog_log, lemma_log_antilog, log};
use vstd::prelude::*;

verus! {

/// Addition is commutative and associative, 0 is neutral, and every element
/// is its own negative.
pub proof fn lemma_add_laws(a: u8, b: u8, c: u8)
    ensures
        gf_add(a, b) == gf_add(b, a),
        gf_add(gf_add(a, b), c) == gf_add(a, gf_add(b, c)),
        gf_add(a, 0) == a,
        gf_add(0, a) == a,
        gf_add(a, a) == 0,
{
    assert(a ^ b == b ^ a && (a ^ b) ^ c == a ^ (b ^ c) && a ^ 0 == a && 0 ^ a == a && a ^ a == 0)
        by (bit_vector);
}

/// Two elements are equal exactly when their sum is 0.
pub proof fn lemma_add_cancel(a: u8, b: u8)
    ensures
        gf_add(a, b) == 0 <==> a == b,
{
    assert((a ^ b == 0) <==> a == b) by (bit_vector);
}

/// Multiplication is commutative.
pub proof fn lemma_mul_commutative(a: u8, b: u8)
    ensures
        gf_mul(a, b) == gf_mul(b, a),
{
    if a == 0 || b == 0 {
        lemma_mul_zero_one(a);
        lemma_mul_zero_one(b);
    } else {
        lemma_mul_logs(a, b);
        lemma_mul_logs(b, a);
    }
}

/// A product is 0 exactly when one of its factors is.
pub proof fn lemma_mul_is_zero(a: u8, b: u8)
    ensures
        gf_mul(a, b) == 0 <==> a == 0 || b == 0,
{
    if a == 0 || b == 0 {
        lemma_mul_zero_one(a);
        lemma_mul_zero_one(b);
    } else {
        lemma_mul_logs(a, b);
    }
}

/// Multiplication is associative.
pub proof fn lemma_mul_associative(a: u8, b: u8, c: u8)
    ensures
        gf_mul(gf_mul(a, b), c) == gf_mul(a, gf_mul(b, c)),
{
    lemma_mul_is_zero(a, b);
    lemma_mul_is_zero(b, c);
    if a == 0 || b == 0 || c == 0 {
        lemma_mul_zero_one(a);
        lemma_mul_zero_one(c);
        lemma_mul_zero_one(gf_mul(a, b));
        lemma_mul_zero_one(gf_mul(b, c));
    } else {
        let left = (log(a) + log(b)) % 255;
        let right = (log(b) + log(c)) % 255;
        lemma_antilog_log(a);
        lemma_antilog_log(b);
        lemma_antilog_log(c);
        lemma_mul_logs(a, b);
        lemma_mul_logs(b, c);
        lemma_log_antilog(left);
        lemma_log_antilog(right);
        lemma_mul_logs(gf_mul(a, b), c);
        lemma_mul_logs(a, gf_mul(b, c));
        lemma_exponents_regroup(log(a), log(b), log(c));
    }
}

/// Sums of exponents, reduced to the cycle's length, can be regrouped.
proof fn lemma_exponents_regroup(x: int, y: int, z: int)
    requires
        0 <= x < 255,
        0 <= y < 255,
        0 <= z < 255,
    ensures
        ((x + y) % 255 + z) % 255 == (x + (y + z) % 255) % 255,
{
    assert((x + y) % 255 == if x + y < 255 { x + y } else { x + y - 255 });
    assert((y + z) % 255 == if y + z < 255 { y + z } else { y + z - 255 });
}

/// Multiplication distributes over addition in its first argument.
pub proof fn lemma_mul_distributes_left(a: u8, b: u8, c: u8)
    ensures
        gf_mul(gf_add(a, b), c) == gf_add(gf_mul(a, c), gf_mul(b, c)),
{
    lemma_mul_commutative(gf_add(a, b), c);
    lemma_mul_distributes(c, a, b);
    lemma_mul_commutative(c, a);
    lemma_mul_commutative(c, b);
}

/// A nonzero factor can be cancelled from both sides of an equation.
pub proof fn lemma_mul_cancel(p: u8, q: u8, b: u8)
    requires
        b != 0,
        gf_mul(p, b) == gf_mul(q, b),
    ensures
        p == q,
{
    lemma_mul_distributes_left(p, q, b);
    lemma_add_cancel(gf_mul(p, b), gf_mul(q, b));
    lemma_mul_is_zero(gf_add(p, q), b);
    lemma_add_cancel(p, q);
}

/// The quotient by a nonzero element, read from the tables.
pub(crate) proof fn lemma_div_logs(a: u8, b: u8)
    requires
        a != 0,
        b != 0,
    ensures
        gf_div(a, b) == antilog((log(a) - log(b)) % 255),
{
    let d = (log(a) - log(b)) % 255;
    let q = antilog(d);
    lemma_antilog_log(a);
    lemma_antilog_log(b);
    lemma_log_antilog(d);
    lemma_mul_logs(q, b);
    assert((d + log(b)) % 255 == log(a));
    assert(gf_mul(q, b) == a);
    lemma_mul_cancel(gf_div(a, b), q, b);
}

/// Division by a nonzero element undoes multiplication by it.
pub proof fn lemma_div_mul(a: u8, b: u8)
    requires
        b != 0,
    ensures
        gf_mul(gf_div(a, b), b) == a,
{
    if a == 0 {
        lemma_mul_zero_one(b);
        assert(gf_mul(0, b) == a);
    } else {
        lemma_div_logs(a, b);
        let q = antilog((log(a) - log(b)) % 255);
        lemma_antilog_log(a);
        lemma_antilog_log(b);
        lemma_log_antilog((log(a) - log(b)) % 255);
        lemma_mul_logs(q, b);
        assert(((log(a) - log(b)) % 255 + log(b)) % 255 == log(a));
    }
}

} // verus!
