use shamir::{SecretData, ShamirError};

fn try_recover(n: u8, shares: &Vec<Vec<u8>>) -> Option<String> {
    let shares: Vec<Vec<u8>> = shares.iter().take(n as usize).cloned().collect::<Vec<_>>();
    match SecretData::recover_secret(n, shares) {
        Ok(bytes) => String::from_utf8(bytes).ok(),
        Err(_) => None,
    }
}

fn hello_world() -> SecretData {
    SecretData {
        secret_data: "Hello World!".as_bytes().to_vec(),
        threshold: 3,
        coefficients: vec![
            vec![72, 31, 239],
            vec![101, 102, 189],
            vec![108, 254, 105],
            vec![108, 3, 56],
            vec![111, 106, 237],
            vec![32, 162, 165],
            vec![87, 188, 196],
            vec![111, 99, 29],
            vec![114, 222, 168],
            vec![108, 4, 76],
            vec![100, 0, 218],
            vec![33, 235, 63],
        ],
    }
}

#[test]
fn it_works() {}

#[test]
fn it_generates_coefficients() {
    let secret_data = SecretData::with_secret("Hello, world!".as_bytes(), 3);
    assert_eq!(secret_data.coefficients.len(), 13);
}

#[test]
fn it_rejects_share_id_under_1() {
    let secret_data = SecretData::with_secret("Hello, world!".as_bytes(), 3);
    let d = secret_data.get_share(0);
    assert!(d.is_err());
}

#[test]
fn it_issues_shares() {
    let secret_data = SecretData::with_secret("Hello, world!".as_bytes(), 3);

    let s1 = secret_data.get_share(1).unwrap();
    println!("Share: {:?}", s1);
    assert!(secret_data.is_valid_share(&s1));
}

#[test]
fn it_repeatedly_issues_shares() {
    let secret_data = SecretData::with_secret("Hello, world!".as_bytes(), 3);

    let s1 = secret_data.get_share(1).unwrap();
    println!("Share: {:?}", s1);
    assert!(secret_data.is_valid_share(&s1));

    let s2 = secret_data.get_share(1).unwrap();
    assert_eq!(s1, s2);
}

#[test]
fn it_can_recover_secret() {
    let s1: Vec<u8> = vec![1, 184, 190, 251, 87, 232, 39, 47, 17, 4, 36, 190, 245];
    let s2: Vec<u8> = vec![2, 231, 107, 52, 138, 34, 221, 9, 221, 67, 79, 33, 16];
    let s3: Vec<u8> = vec![3, 23, 176, 163, 177, 165, 218, 113, 163, 53, 7, 251, 196];

    let new_secret = SecretData::recover_secret(3, vec![s1, s2, s3]).unwrap();

    assert_eq!(&new_secret[..], "Hello World!".as_bytes());
}

#[test]
fn it_can_recover_a_generated_secret() {
    let secret_data = SecretData::with_secret("Hello, world!".as_bytes(), 3);

    let s1 = secret_data.get_share(1).unwrap();
    println!("s1: {:?}", s1);
    let s2 = secret_data.get_share(2).unwrap();
    println!("s2: {:?}", s2);
    let s3 = secret_data.get_share(3).unwrap();
    println!("s3: {:?}", s3);

    let new_secret = SecretData::recover_secret(3, vec![s1, s2, s3]).unwrap();

    assert_eq!(&new_secret[..], "Hello, world!".as_bytes());
}

#[test]
fn it_requires_enough_shares() {
    let secret_data = SecretData::with_secret("Hello World!".as_bytes(), 5);

    let shares = vec![
        secret_data.get_share(1).unwrap(),
        secret_data.get_share(2).unwrap(),
        secret_data.get_share(3).unwrap(),
        secret_data.get_share(4).unwrap(),
        secret_data.get_share(5).unwrap(),
    ];

    let recovered = try_recover(5, &shares);
    assert!(recovered.is_some());

    let recovered = try_recover(3, &shares);
    assert!(recovered.is_none());
}

#[test]
fn split_keeps_the_secret_and_the_threshold() {
    let secret_data = SecretData::with_secret(&[9, 8, 7], 4);
    assert_eq!(secret_data.secret_data, vec![9, 8, 7]);
    assert_eq!(secret_data.threshold, 4);
}

#[test]
fn split_builds_one_polynomial_of_threshold_terms_per_byte() {
    let secret: Vec<u8> = vec![0, 1, 2, 250, 251, 252];
    let secret_data = SecretData::with_secret(&secret, 7);
    assert_eq!(secret_data.coefficients.len(), secret.len());
    for (polynomial, byte) in secret_data.coefficients.iter().zip(secret.iter()) {
        assert_eq!(polynomial.len(), 7);
        assert_eq!(polynomial[0], *byte);
    }
}

#[test]
fn split_draws_random_coefficients() {
    let secret: Vec<u8> = vec![0; 32];
    let first = SecretData::with_secret(&secret, 3);
    let second = SecretData::with_secret(&secret, 3);
    assert!(first.coefficients.iter().any(|p| p[1] != 0 || p[2] != 0));
    assert_ne!(first.coefficients, second.coefficients);
}

#[test]
fn split_draws_fresh_coefficients_for_each_byte() {
    let secret: Vec<u8> = vec![7; 32];
    let secret_data = SecretData::with_secret(&secret, 5);
    let first = &secret_data.coefficients[0];
    assert!(secret_data.coefficients.iter().any(|p| p != first));
}

#[test]
fn split_of_an_empty_secret_has_no_polynomials() {
    let secret_data = SecretData::with_secret(&[], 2);
    assert!(secret_data.coefficients.is_empty());
    assert_eq!(secret_data.get_share(9), Ok(vec![9]));
}

#[test]
fn threshold_of_one_puts_the_secret_in_every_share() {
    let secret_data = SecretData::with_secret("abc".as_bytes(), 1);
    assert_eq!(secret_data.coefficients, vec![vec![97], vec![98], vec![99]]);
    assert_eq!(secret_data.get_share(1), Ok(vec![1, 97, 98, 99]));
    assert_eq!(secret_data.get_share(200), Ok(vec![200, 97, 98, 99]));
}

#[test]
fn polynomial_for_puts_the_constant_first() {
    assert_eq!(SecretData::polynomial_for(5, &[1, 2, 3]), vec![5, 1, 2, 3]);
    assert_eq!(SecretData::polynomial_for(5, &[]), vec![5]);
}

#[test]
fn share_of_identifier_zero_is_refused() {
    assert_eq!(hello_world().get_share(0), Err(ShamirError::InvalidShareId));
    let empty = SecretData { secret_data: vec![], threshold: 1, coefficients: vec![] };
    assert_eq!(empty.get_share(0), Err(ShamirError::InvalidShareId));
}

#[test]
fn shares_are_the_values_of_the_polynomials() {
    let material = hello_world();
    assert_eq!(
        material.get_share(1),
        Ok(vec![1, 184, 190, 251, 87, 232, 39, 47, 17, 4, 36, 190, 245])
    );
    assert_eq!(
        material.get_share(2),
        Ok(vec![2, 231, 107, 52, 138, 34, 221, 9, 221, 67, 79, 33, 16])
    );
    assert_eq!(
        material.get_share(3),
        Ok(vec![3, 23, 176, 163, 177, 165, 218, 113, 163, 53, 7, 251, 196])
    );
    assert_eq!(
        material.get_share(4),
        Ok(vec![4, 70, 195, 115, 205, 142, 32, 101, 51, 73, 208, 107, 125])
    );
    assert_eq!(
        material.get_share(255),
        Ok(vec![255, 11, 197, 241, 147, 32, 56, 66, 244, 193, 197, 30, 22])
    );
}

#[test]
fn shares_of_a_line() {
    let material = SecretData {
        secret_data: vec![104, 105],
        threshold: 2,
        coefficients: vec![vec![104, 0x11], vec![105, 0xfe]],
    };
    assert_eq!(material.get_share(1), Ok(vec![1, 121, 151]));
    assert_eq!(material.get_share(2), Ok(vec![2, 74, 142]));
    assert_eq!(material.get_share(200), Ok(vec![200, 148, 194]));
}

#[test]
fn asking_twice_gives_the_same_share() {
    let material = hello_world();
    for id in 0..=255u8 {
        assert_eq!(material.get_share(id), material.get_share(id));
    }
    let drawn = SecretData::with_secret("again".as_bytes(), 4);
    assert_eq!(drawn.get_share(77), drawn.get_share(77));
}

#[test]
fn accumulate_evaluates_at_the_identifier() {
    assert_eq!(SecretData::accumulate_share_bytes(1, &[72, 31, 239]), Ok(184));
    assert_eq!(SecretData::accumulate_share_bytes(2, &[5, 3, 1]), Ok(7));
    assert_eq!(SecretData::accumulate_share_bytes(0x10, &[1, 2, 3, 4]), Ok(150));
    assert_eq!(SecretData::accumulate_share_bytes(9, &[]), Ok(0));
    assert_eq!(SecretData::accumulate_share_bytes(9, &[33]), Ok(33));
}

#[test]
fn accumulate_refuses_identifier_zero() {
    assert_eq!(
        SecretData::accumulate_share_bytes(0, &[72, 31, 239]),
        Err(ShamirError::InvalidShareId)
    );
    assert_eq!(SecretData::accumulate_share_bytes(0, &[]), Err(ShamirError::InvalidShareId));
}

#[test]
fn issued_shares_are_valid() {
    let material = hello_world();
    assert!(material.is_valid_share(&[1, 184, 190, 251, 87, 232, 39, 47, 17, 4, 36, 190, 245]));
    assert!(material.is_valid_share(&[255, 11, 197, 241, 147, 32, 56, 66, 244, 193, 197, 30, 22]));
}

#[test]
fn altered_shares_are_not_valid() {
    let material = hello_world();
    // one byte changed
    assert!(!material.is_valid_share(&[1, 184, 190, 251, 87, 232, 39, 47, 17, 4, 36, 190, 244]));
    // the identifier changed
    assert!(!material.is_valid_share(&[2, 184, 190, 251, 87, 232, 39, 47, 17, 4, 36, 190, 245]));
    // too short and too long
    assert!(!material.is_valid_share(&[1, 184, 190, 251, 87, 232, 39, 47, 17, 4, 36, 190]));
    assert!(!material.is_valid_share(&[1, 184, 190, 251, 87, 232, 39, 47, 17, 4, 36, 190, 245, 0]));
    assert!(!material.is_valid_share(&[1]));
    // the reserved identifier
    assert!(!material.is_valid_share(&[0, 72, 101, 108, 108, 111, 32, 87, 111, 114, 108, 100, 33]));
}

#[test]
fn a_share_is_valid_only_for_its_own_material() {
    let first = SecretData::with_secret(&[1; 24], 3);
    let second = SecretData::with_secret(&[1; 24], 3);
    let share = first.get_share(5).unwrap();
    assert!(first.is_valid_share(&share));
    assert!(!second.is_valid_share(&share));
}
