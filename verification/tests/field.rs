use shamir::{SecretData, ShamirError};

/// The product by shifting and reducing modulo x^8 + x^4 + x^3 + x + 1.
fn slow_mul(a: u8, b: u8) -> u8 {
    let mut product: u8 = 0;
    let mut a: u8 = a;
    let mut b: u8 = b;
    while b != 0 {
        if b & 1 == 1 {
            product ^= a;
        }
        let carry: bool = a & 0x80 != 0;
        a <<= 1;
        if carry {
            a ^= 0x1b;
        }
        b >>= 1;
    }
    product
}

#[test]
fn addition_is_exclusive_or() {
    assert_eq!(SecretData::gf256_add(0x53, 0xca), 0x99);
    assert_eq!(SecretData::gf256_add(0xff, 0xff), 0);
    assert_eq!(SecretData::gf256_add(0, 0x80), 0x80);
    assert_eq!(SecretData::gf256_add(1, 2), 3);
}

#[test]
fn subtraction_is_addition() {
    assert_eq!(SecretData::gf256_sub(0x53, 0xca), 0x99);
    for a in 0..=255u8 {
        for b in 0..=255u8 {
            assert_eq!(SecretData::gf256_sub(a, b), SecretData::gf256_add(a, b));
            assert_eq!(SecretData::gf256_sub(SecretData::gf256_add(a, b), b), a);
        }
    }
}

#[test]
fn products_of_known_pairs() {
    assert_eq!(SecretData::gf256_mul(0x53, 0xca), 0x01);
    assert_eq!(SecretData::gf256_mul(0x57, 0x83), 0xc1);
    assert_eq!(SecretData::gf256_mul(2, 0x80), 0x1b);
    assert_eq!(SecretData::gf256_mul(3, 7), 9);
    assert_eq!(SecretData::gf256_mul(1, 0xab), 0xab);
}

#[test]
fn product_with_zero_is_zero() {
    for a in 0..=255u8 {
        assert_eq!(SecretData::gf256_mul(a, 0), 0);
        assert_eq!(SecretData::gf256_mul(0, a), 0);
    }
}

#[test]
fn products_match_shift_and_reduce() {
    for a in 0..=255u8 {
        for b in 0..=255u8 {
            assert_eq!(SecretData::gf256_mul(a, b), slow_mul(a, b));
        }
    }
}

#[test]
fn powers_of_three_reach_every_nonzero_element() {
    let mut seen: Vec<bool> = vec![false; 256];
    let mut power: u8 = 1;
    for _ in 0..255 {
        assert!(!seen[power as usize]);
        seen[power as usize] = true;
        power = SecretData::gf256_mul(power, 3);
    }
    assert_eq!(power, 1);
    assert!(!seen[0]);
}

#[test]
fn multiplication_distributes_over_addition() {
    for a in 0..=255u8 {
        for b in (0..=255u8).step_by(7) {
            for c in (0..=255u8).step_by(11) {
                assert_eq!(
                    SecretData::gf256_mul(a, SecretData::gf256_add(b, c)),
                    SecretData::gf256_add(SecretData::gf256_mul(a, b), SecretData::gf256_mul(a, c))
                );
            }
        }
    }
}

#[test]
fn quotients_of_known_pairs() {
    assert_eq!(SecretData::gf256_checked_div(1, 2), Ok(141));
    assert_eq!(SecretData::gf256_checked_div(7, 3), Ok(244));
    assert_eq!(SecretData::gf256_checked_div(0xc1, 0x83), Ok(0x57));
    assert_eq!(SecretData::gf256_checked_div(1, 0x53), Ok(0xca));
    assert_eq!(SecretData::gf256_checked_div(0xab, 1), Ok(0xab));
    assert_eq!(SecretData::gf256_checked_div(0xab, 0xab), Ok(1));
}

#[test]
fn zero_divided_by_anything_is_zero() {
    for b in 0..=255u8 {
        assert_eq!(SecretData::gf256_checked_div(0, b), Ok(0));
    }
}

#[test]
fn division_by_zero_is_an_error() {
    for a in 1..=255u8 {
        assert_eq!(SecretData::gf256_checked_div(a, 0), Err(ShamirError::DivisionByZero));
    }
}

#[test]
fn division_undoes_multiplication() {
    for a in 0..=255u8 {
        for b in 1..=255u8 {
            let q: u8 = SecretData::gf256_checked_div(a, b).unwrap();
            assert_eq!(SecretData::gf256_mul(q, b), a);
            assert_eq!(SecretData::gf256_checked_div(SecretData::gf256_mul(a, b), b), Ok(a));
        }
    }
}
