//! The exponent and logarithm tables of GF(2^8) for the generator 3, and the
//! facts that tie them to the field's arithmetic.

use crate::field::{gf_div, gf_mul, gf_pow, lemma_mul_logs, lemma_times_three, times_three};
use crate::field_laws::lemma_div_logs;
use vstd::prelude::*;

verus! {

/// `GF256_EXP[i]` is the generator 3 raised to the power `i`. The cycle has
/// length 255, so the last entry repeats the first.
pub const GF256_EXP: [u8; 256] = [
    0x01, 0x03, 0x05, 0x0f, 0x11, 0x33, 0x55, 0xff, 0x1a, 0x2e, 0x72, 0x96, 0xa1, 0xf8, 0x13, 0x35,
    0x5f, 0xe1, 0x38, 0x48, 0xd8, 0x73, 0x95, 0xa4, 0xf7, 0x02, 0x06, 0x0a, 0x1e, 0x22, 0x66, 0xaa,
    0xe5, 0x34, 0x5c, 0xe4, 0x37, 0x59, 0xeb, 0x26, 0x6a, 0xbe, 0xd9, 0x70, 0x90, 0xab, 0xe6, 0x31,
    0x53, 0xf5, 0x04, 0x0c, 0x14, 0x3c, 0x44, 0xcc, 0x4f, 0xd1, 0x68, 0xb8, 0xd3, 0x6e, 0xb2, 0xcd,
    0x4c, 0xd4, 0x67, 0xa9, 0xe0, 0x3b, 0x4d, 0xd7, 0x62, 0xa6, 0xf1, 0x08, 0x18, 0x28, 0x78, 0x88,
    0x83, 0x9e, 0xb9, 0xd0, 0x6b, 0xbd, 0xdc, 0x7f, 0x81, 0x98, 0xb3, 0xce, 0x49, 0xdb, 0x76, 0x9a,
    0xb5, 0xc4, 0x57, 0xf9, 0x10, 0x30, 0x50, 0xf0, 0x0b, 0x1d, 0x27, 0x69, 0xbb, 0xd6, 0x61, 0xa3,
    0xfe, 0x19, 0x2b, 0x7d, 0x87, 0x92, 0xad, 0xec, 0x2f, 0x71, 0x93, 0xae, 0xe9, 0x20, 0x60, 0xa0,
    0xfb, 0x16, 0x3a, 0x4e, 0xd2, 0x6d, 0xb7, 0xc2, 0x5d, 0xe7, 0x32, 0x56, 0xfa, 0x15, 0x3f, 0x41,
    0xc3, 0x5e, 0xe2, 0x3d, 0x47, 0xc9, 0x40, 0xc0, 0x5b, 0xed, 0x2c, 0x74, 0x9c, 0xbf, 0xda, 0x75,
    0x9f, 0xba, 0xd5, 0x64, 0xac, 0xef, 0x2a, 0x7e, 0x82, 0x9d, 0xbc, 0xdf, 0x7a, 0x8e, 0x89, 0x80,
    0x9b, 0xb6, 0xc1, 0x58, 0xe8, 0x23, 0x65, 0xaf, 0xea, 0x25, 0x6f, 0xb1, 0xc8, 0x43, 0xc5, 0x54,
    0xfc, 0x1f, 0x21, 0x63, 0xa5, 0xf4, 0x07, 0x09, 0x1b, 0x2d, 0x77, 0x99, 0xb0, 0xcb, 0x46, 0xca,
    0x45, 0xcf, 0x4a, 0xde, 0x79, 0x8b, 0x86, 0x91, 0xa8, 0xe3, 0x3e, 0x42, 0xc6, 0x51, 0xf3, 0x0e,
    0x12, 0x36, 0x5a, 0xee, 0x29, 0x7b, 0x8d, 0x8c, 0x8f, 0x8a, 0x85, 0x94, 0xa7, 0xf2, 0x0d, 0x17,
    0x39, 0x4b, 0xdd, 0x7c, 0x84, 0x97, 0xa2, 0xfd, 0x1c, 0x24, 0x6c, 0xb4, 0xc7, 0x52, 0xf6, 0x01,
];

/// `GF256_LOG[a]` is the exponent `i` below 255 with `GF256_EXP[i] == a`, for
/// every `a` but 0, which has no logarithm and holds a filler.
pub const GF256_LOG: [u8; 256] = [
    0x00, 0x00, 0x19, 0x01, 0x32, 0x02, 0x1a, 0xc6, 0x4b, 0xc7, 0x1b, 0x68, 0x33, 0xee, 0xdf, 0x03,
    0x64, 0x04, 0xe0, 0x0e, 0x34, 0x8d, 0x81, 0xef, 0x4c, 0x71, 0x08, 0xc8, 0xf8, 0x69, 0x1c, 0xc1,
    0x7d, 0xc2, 0x1d, 0xb5, 0xf9, 0xb9, 0x27, 0x6a, 0x4d, 0xe4, 0xa6, 0x72, 0x9a, 0xc9, 0x09, 0x78,
    0x65, 0x2f, 0x8a, 0x05, 0x21, 0x0f, 0xe1, 0x24, 0x12, 0xf0, 0x82, 0x45, 0x35, 0x93, 0xda, 0x8e,
    0x96, 0x8f, 0xdb, 0xbd, 0x36, 0xd0, 0xce, 0x94, 0x13, 0x5c, 0xd2, 0xf1, 0x40, 0x46, 0x83, 0x38,
    0x66, 0xdd, 0xfd, 0x30, 0xbf, 0x06, 0x8b, 0x62, 0xb3, 0x25, 0xe2, 0x98, 0x22, 0x88, 0x91, 0x10,
    0x7e, 0x6e, 0x48, 0xc3, 0xa3, 0xb6, 0x1e, 0x42, 0x3a, 0x6b, 0x28, 0x54, 0xfa, 0x85, 0x3d, 0xba,
    0x2b, 0x79, 0x0a, 0x15, 0x9b, 0x9f, 0x5e, 0xca, 0x4e, 0xd4, 0xac, 0xe5, 0xf3, 0x73, 0xa7, 0x57,
    0xaf, 0x58, 0xa8, 0x50, 0xf4, 0xea, 0xd6, 0x74, 0x4f, 0xae, 0xe9, 0xd5, 0xe7, 0xe6, 0xad, 0xe8,
    0x2c, 0xd7, 0x75, 0x7a, 0xeb, 0x16, 0x0b, 0xf5, 0x59, 0xcb, 0x5f, 0xb0, 0x9c, 0xa9, 0x51, 0xa0,
    0x7f, 0x0c, 0xf6, 0x6f, 0x17, 0xc4, 0x49, 0xec, 0xd8, 0x43, 0x1f, 0x2d, 0xa4, 0x76, 0x7b, 0xb7,
    0xcc, 0xbb, 0x3e, 0x5a, 0xfb, 0x60, 0xb1, 0x86, 0x3b, 0x52, 0xa1, 0x6c, 0xaa, 0x55, 0x29, 0x9d,
    0x97, 0xb2, 0x87, 0x90, 0x61, 0xbe, 0xdc, 0xfc, 0xbc, 0x95, 0xcf, 0xcd, 0x37, 0x3f, 0x5b, 0xd1,
    0x53, 0x39, 0x84, 0x3c, 0x41, 0xa2, 0x6d, 0x47, 0x14, 0x2a, 0x9e, 0x5d, 0x56, 0xf2, 0xd3, 0xab,
    0x44, 0x11, 0x92, 0xd9, 0x23, 0x20, 0x2e, 0x89, 0xb4, 0x7c, 0xb8, 0x26, 0x77, 0x99, 0xe3, 0xa5,
    0x67, 0x4a, 0xed, 0xde, 0xc5, 0x31, 0xfe, 0x18, 0x0d, 0x63, 0x8c, 0x80, 0xc0, 0xf7, 0x70, 0x07,
];

/// Seventeen bytes of which each is three times the one before it.
spec fn run_of_powers(
    a0: u8,
    a1: u8,
    a2: u8,
    a3: u8,
    a4: u8,
    a5: u8,
    a6: u8,
    a7: u8,
    a8: u8,
    a9: u8,
    a10: u8,
    a11: u8,
    a12: u8,
    a13: u8,
    a14: u8,
    a15: u8,
    a16: u8,
) -> bool {
    &&& times_three(a0) == a1
    &&& times_three(a1) == a2
    &&& times_three(a2) == a3
    &&& times_three(a3) == a4
    &&& times_three(a4) == a5
    &&& times_three(a5) == a6
    &&& times_three(a6) == a7
    &&& times_three(a7) == a8
    &&& times_three(a8) == a9
    &&& times_three(a9) == a10
    &&& times_three(a10) == a11
    &&& times_three(a11) == a12
    &&& times_three(a12) == a13
    &&& times_three(a13) == a14
    &&& times_three(a14) == a15
    &&& times_three(a15) == a16
}

/// Walks the exponent table row by row: every entry is three times its
/// predecessor, and after 255 steps the walk is back at 1.
proof fn lemma_exp_rows()
    by (bit_vector)
    ensures
        run_of_powers(
            0x01, 0x03, 0x05, 0x0f, 0x11, 0x33, 0x55, 0xff, 0x1a,
            0x2e, 0x72, 0x96, 0xa1, 0xf8, 0x13, 0x35, 0x5f,
        ),
        run_of_powers(
            0x5f, 0xe1, 0x38, 0x48, 0xd8, 0x73, 0x95, 0xa4, 0xf7,
            0x02, 0x06, 0x0a, 0x1e, 0x22, 0x66, 0xaa, 0xe5,
        ),
        run_of_powers(
            0xe5, 0x34, 0x5c, 0xe4, 0x37, 0x59, 0xeb, 0x26, 0x6a,
            0xbe, 0xd9, 0x70, 0x90, 0xab, 0xe6, 0x31, 0x53,
        ),
        run_of_powers(
            0x53, 0xf5, 0x04, 0x0c, 0x14, 0x3c, 0x44, 0xcc, 0x4f,
            0xd1, 0x68, 0xb8, 0xd3, 0x6e, 0xb2, 0xcd, 0x4c,
        ),
        run_of_powers(
            0x4c, 0xd4, 0x67, 0xa9, 0xe0, 0x3b, 0x4d, 0xd7, 0x62,
            0xa6, 0xf1, 0x08, 0x18, 0x28, 0x78, 0x88, 0x83,
        ),
        run_of_powers(
            0x83, 0x9e, 0xb9, 0xd0, 0x6b, 0xbd, 0xdc, 0x7f, 0x81,
            0x98, 0xb3, 0xce, 0x49, 0xdb, 0x76, 0x9a, 0xb5,
        ),
        run_of_powers(
            0xb5, 0xc4, 0x57, 0xf9, 0x10, 0x30, 0x50, 0xf0, 0x0b,
            0x1d, 0x27, 0x69, 0xbb, 0xd6, 0x61, 0xa3, 0xfe,
        ),
        run_of_powers(
            0xfe, 0x19, 0x2b, 0x7d, 0x87, 0x92, 0xad, 0xec, 0x2f,
            0x71, 0x93, 0xae, 0xe9, 0x20, 0x60, 0xa0, 0xfb,
        ),
        run_of_powers(
            0xfb, 0x16, 0x3a, 0x4e, 0xd2, 0x6d, 0xb7, 0xc2, 0x5d,
            0xe7, 0x32, 0x56, 0xfa, 0x15, 0x3f, 0x41, 0xc3,
        ),
        run_of_powers(
            0xc3, 0x5e, 0xe2, 0x3d, 0x47, 0xc9, 0x40, 0xc0, 0x5b,
            0xed, 0x2c, 0x74, 0x9c, 0xbf, 0xda, 0x75, 0x9f,
        ),
        run_of_powers(
            0x9f, 0xba, 0xd5, 0x64, 0xac, 0xef, 0x2a, 0x7e, 0x82,
            0x9d, 0xbc, 0xdf, 0x7a, 0x8e, 0x89, 0x80, 0x9b,
        ),
        run_of_powers(
            0x9b, 0xb6, 0xc1, 0x58, 0xe8, 0x23, 0x65, 0xaf, 0xea,
            0x25, 0x6f, 0xb1, 0xc8, 0x43, 0xc5, 0x54, 0xfc,
        ),
        run_of_powers(
            0xfc, 0x1f, 0x21, 0x63, 0xa5, 0xf4, 0x07, 0x09, 0x1b,
            0x2d, 0x77, 0x99, 0xb0, 0xcb, 0x46, 0xca, 0x45,
        ),
        run_of_powers(
            0x45, 0xcf, 0x4a, 0xde, 0x79, 0x8b, 0x86, 0x91, 0xa8,
            0xe3, 0x3e, 0x42, 0xc6, 0x51, 0xf3, 0x0e, 0x12,
        ),
        run_of_powers(
            0x12, 0x36, 0x5a, 0xee, 0x29, 0x7b, 0x8d, 0x8c, 0x8f,
            0x8a, 0x85, 0x94, 0xa7, 0xf2, 0x0d, 0x17, 0x39,
        ),
        run_of_powers(
            0x39, 0x4b, 0xdd, 0x7c, 0x84, 0x97, 0xa2, 0xfd, 0x1c,
            0x24, 0x6c, 0xb4, 0xc7, 0x52, 0xf6, 0x01, 0x03,
        ),
{
}

/// The entry of the exponent table at `i`.
#[verifier::opaque]
pub(crate) closed spec fn antilog(i: int) -> u8 {
    GF256_EXP[i]
}

/// The entry of the logarithm table at `a`.
#[verifier::opaque]
pub(crate) closed spec fn log(a: u8) -> int {
    GF256_LOG[a as int] as int
}

/// Reads the exponent table.
pub(crate) fn antilog_entry(i: usize) -> (r: u8)
    requires
        i < 255,
    ensures
        r == antilog(i as int),
{
    reveal(antilog);
    GF256_EXP[i]
}

/// Reads the logarithm table.
pub(crate) fn log_entry(a: u8) -> (r: u8)
    requires
        a != 0,
    ensures
        r == log(a),
        r < 255,
{
    reveal(log);
    GF256_LOG[a as usize]
}

/// Each entry of the exponent table is three times the entry before it.
proof fn lemma_antilog_successor(i: int)
    requires
        0 <= i < 255,
    ensures
        antilog(i + 1) == times_three(antilog(i)),
{
    reveal(antilog);
    lemma_exp_rows();
}

/// The exponent table starts and ends at 1.
proof fn lemma_antilog_ends()
    ensures
        antilog(0) == 1,
        antilog(255) == 1,
{
    reveal(antilog);
}

/// The exponent table starts at 1, each entry is three times the entry
/// before it, and three times the last entry of the cycle is 1 again.
pub(crate) proof fn lemma_antilog_step(i: int)
    requires
        0 <= i < 255,
    ensures
        antilog(0) == 1,
        antilog((i + 1) % 255) == times_three(antilog(i)),
{
    lemma_antilog_successor(i);
    lemma_antilog_ends();
}

/// The logarithm table inverts the exponent table on exponents below 255.
pub(crate) proof fn lemma_log_antilog(i: int)
    requires
        0 <= i < 255,
    ensures
        antilog(i) != 0,
        log(antilog(i)) == i,
{
    reveal(antilog);
    reveal(log);
}

/// The exponent table inverts the logarithm table on the nonzero bytes.
pub(crate) proof fn lemma_antilog_log(a: u8)
    requires
        a != 0,
    ensures
        0 <= log(a) < 255,
        antilog(log(a)) == a,
{
    reveal(antilog);
    reveal(log);
}

/// The exponent table holds the powers of the generator 3.
pub proof fn lemma_exp_is_power(i: int)
    requires
        0 <= i < 256,
    ensures
        GF256_EXP[i] == gf_pow(3, i as nat),
    decreases i,
{
    reveal(antilog);
    if i == 0 {
        lemma_antilog_ends();
    } else {
        lemma_exp_is_power(i - 1);
        lemma_antilog_successor(i - 1);
        lemma_times_three(antilog(i - 1));
    }
}

/// The logarithm table holds, for each nonzero element, the exponent below
/// 255 at which the generator 3 gives it.
pub proof fn lemma_log_is_exponent(a: u8)
    requires
        a != 0,
    ensures
        GF256_LOG[a as int] < 255,
        gf_pow(3, GF256_LOG[a as int] as nat) == a,
{
    lemma_antilog_log(a);
    lemma_exp_is_power(log(a));
    reveal(antilog);
    reveal(log);
}

/// The product of two nonzero elements is the entry of the exponent table
/// at the sum of their logarithms, reduced modulo 255.
pub proof fn lemma_mul_by_tables(a: u8, b: u8)
    requires
        a != 0,
        b != 0,
    ensures
        gf_mul(a, b) == GF256_EXP[(GF256_LOG[a as int] + GF256_LOG[b as int]) % 255],
{
    lemma_mul_logs(a, b);
    reveal(antilog);
    reveal(log);
}

/// The quotient of two nonzero elements is the entry of the exponent table
/// at the difference of their logarithms, reduced modulo 255.
pub proof fn lemma_div_by_tables(a: u8, b: u8)
    requires
        a != 0,
        b != 0,
    ensures
        gf_div(a, b) == GF256_EXP[(GF256_LOG[a as int] - GF256_LOG[b as int] + 255) % 255],
{
    lemma_div_logs(a, b);
    lemma_antilog_log(a);
    lemma_antilog_log(b);
    assert((log(a) - log(b) + 255) % 255 == (log(a) - log(b)) % 255);
    reveal(antilog);
    reveal(log);
}

} // verus!
