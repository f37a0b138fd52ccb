use shamir::{SecretData, ShamirError};

fn share_one() -> Vec<u8> {
    vec![1, 184, 190, 251, 87, 232, 39, 47, 17, 4, 36, 190, 245]
}

fn share_two() -> Vec<u8> {
    vec![2, 231, 107, 52, 138, 34, 221, 9, 221, 67, 79, 33, 16]
}

fn share_three() -> Vec<u8> {
    vec![3, 23, 176, 163, 177, 165, 218, 113, 163, 53, 7, 251, 196]
}

fn share_four() -> Vec<u8> {
    vec![4, 70, 195, 115, 205, 142, 32, 101, 51, 73, 208, 107, 125]
}

fn share_last() -> Vec<u8> {
    vec![255, 11, 197, 241, 147, 32, 56, 66, 244, 193, 197, 30, 22]
}

#[test]
fn any_three_shares_recover_the_secret() {
    let all: Vec<Vec<u8>> =
        vec![share_one(), share_two(), share_three(), share_four(), share_last()];
    for a in 0..all.len() {
        for b in 0..all.len() {
            for c in 0..all.len() {
                if a != b && a != c && b != c {
                    let picked = vec![all[a].clone(), all[b].clone(), all[c].clone()];
                    assert_eq!(
                        SecretData::recover_secret(3, picked),
                        Ok("Hello World!".as_bytes().to_vec())
                    );
                }
            }
        }
    }
}

#[test]
fn more_shares_than_the_threshold_recover_the_secret() {
    let all: Vec<Vec<u8>> =
        vec![share_last(), share_two(), share_four(), share_one(), share_three()];
    assert_eq!(SecretData::recover_secret(3, all), Ok("Hello World!".as_bytes().to_vec()));
}

#[test]
fn too_few_points_give_other_bytes() {
    assert_eq!(
        SecretData::recover_secret(2, vec![share_one(), share_two()]),
        Ok(vec![141, 4, 190, 28, 174, 113, 196, 85, 57, 244, 203, 95])
    );
}

#[test]
fn fewer_shares_than_the_threshold_are_refused() {
    assert_eq!(
        SecretData::recover_secret(3, vec![share_one(), share_two()]),
        Err(ShamirError::InsufficientShares)
    );
    assert_eq!(SecretData::recover_secret(1, vec![]), Err(ShamirError::InsufficientShares));
    assert_eq!(
        SecretData::recover_secret(255, vec![share_one(), share_two(), share_three()]),
        Err(ShamirError::InsufficientShares)
    );
}

#[test]
fn too_few_shares_are_refused_before_they_are_read() {
    assert_eq!(
        SecretData::recover_secret(3, vec![vec![], vec![]]),
        Err(ShamirError::InsufficientShares)
    );
    assert_eq!(
        SecretData::recover_secret(4, vec![share_one(), share_one(), vec![1]]),
        Err(ShamirError::InsufficientShares)
    );
}

#[test]
fn shares_with_one_identifier_are_refused() {
    assert_eq!(
        SecretData::recover_secret(3, vec![share_one(), share_two(), share_one()]),
        Err(ShamirError::DuplicateShareId)
    );
    let mut forged = share_three();
    forged[0] = 2;
    assert_eq!(
        SecretData::recover_secret(2, vec![share_one(), share_two(), forged]),
        Err(ShamirError::DuplicateShareId)
    );
}

#[test]
fn shares_of_unequal_length_are_refused() {
    let mut short = share_two();
    short.pop();
    assert_eq!(
        SecretData::recover_secret(3, vec![share_one(), short, share_three()]),
        Err(ShamirError::MismatchedShareLength)
    );
    let mut long = share_three();
    long.push(0);
    assert_eq!(
        SecretData::recover_secret(3, vec![share_one(), share_two(), long]),
        Err(ShamirError::MismatchedShareLength)
    );
}

#[test]
fn a_repeated_identifier_is_reported_before_a_length() {
    let mut short = share_two();
    short.pop();
    assert_eq!(
        SecretData::recover_secret(3, vec![share_one(), short, share_one()]),
        Err(ShamirError::DuplicateShareId)
    );
}

#[test]
fn recovery_never_reports_a_division_by_zero() {
    let inputs: Vec<Vec<Vec<u8>>> = vec![
        vec![share_one(), share_one()],
        vec![vec![0, 5], vec![0, 5]],
        vec![vec![0, 5], vec![1, 5]],
        vec![vec![7], vec![7]],
    ];
    for shares in inputs {
        assert_ne!(SecretData::recover_secret(2, shares), Err(ShamirError::DivisionByZero));
    }
}

#[test]
fn shares_of_an_empty_secret_recover_it() {
    assert_eq!(SecretData::recover_secret(2, vec![vec![1], vec![2]]), Ok(vec![]));
}

#[test]
fn a_threshold_of_zero_recovers_from_what_is_given() {
    assert_eq!(
        SecretData::recover_secret(0, vec![share_one(), share_two(), share_three()]),
        Ok("Hello World!".as_bytes().to_vec())
    );
}

#[test]
fn one_share_of_a_constant_recovers_it() {
    assert_eq!(SecretData::recover_secret(1, vec![vec![200, 97, 98, 99]]), Ok(vec![97, 98, 99]));
}

#[test]
fn a_share_at_zero_holds_the_secret() {
    assert_eq!(
        SecretData::recover_secret(2, vec![vec![0, 42, 43], vec![9, 1, 2]]),
        Ok(vec![42, 43])
    );
}

#[test]
fn issued_shares_recover_the_secret_for_every_threshold() {
    let secret: Vec<u8> = vec![0, 1, 2, 3, 127, 128, 129, 200, 250, 251, 252, 253, 254, 255];
    for threshold in 2..=50u8 {
        let material = SecretData::with_secret(&secret, threshold);
        let mut shares: Vec<Vec<u8>> = Vec::new();
        for k in 0..threshold {
            let id: u8 = 255 - 3 * k;
            shares.push(material.get_share(id).unwrap());
        }
        assert_eq!(SecretData::recover_secret(threshold, shares), Ok(secret.clone()));
    }
}

#[test]
fn bytes_that_are_no_text_come_back_unchanged() {
    let secret: Vec<u8> = vec![0xff, 0xfe, 0x00, 0x80, 0xc3];
    let material = SecretData::with_secret(&secret, 3);
    let shares = vec![
        material.get_share(10).unwrap(),
        material.get_share(20).unwrap(),
        material.get_share(30).unwrap(),
    ];
    assert_eq!(SecretData::recover_secret(3, shares), Ok(secret));
}
