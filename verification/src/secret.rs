//! The material that a secret is split into, the shares issued from it, and
//! the recovery of a secret from shares.

use crate::entropy::fill_bytes;
use crate::error::{outcome, ShamirError};
use crate::interpolation::{interpolant, interpolates};
use crate::field::gf_pow;
use crate::poly::{eval_terms, poly_eval};
use vstd::prelude::*;

verus! {

/// A secret together with one polynomial for each of its bytes.
pub struct SecretData {
    /// The bytes that were split.
    pub secret_data: Vec<u8>,
    /// How many shares recover the secret.
    pub threshold: u8,
    /// For each byte of the secret, the coefficients of its polynomial in
    /// ascending degree.
    pub coefficients: Vec<Vec<u8>>,
}

/// The byte sequences that a list of byte vectors holds.
pub open spec fn rows(list: Seq<Vec<u8>>) -> Seq<Seq<u8>> {
    Seq::new(list.len(), |i: int| list[i]@)
}

/// The share with identifier `id` of the polynomials `polys`: the
/// identifier, then the value of each polynomial at it.
pub open spec fn share_bytes(polys: Seq<Seq<u8>>, id: u8) -> Seq<u8> {
    seq![id] + Seq::new(polys.len(), |i: int| poly_eval(polys[i], id))
}

/// The leading identifiers of the shares.
pub open spec fn share_ids(shares: Seq<Seq<u8>>) -> Seq<u8> {
    Seq::new(shares.len(), |i: int| shares[i][0])
}

/// The bytes that the shares hold at position `p`.
pub open spec fn column(shares: Seq<Seq<u8>>, p: int) -> Seq<u8> {
    Seq::new(shares.len(), |i: int| shares[i][p])
}

/// All shares are as long as the first one.
pub open spec fn same_lengths(shares: Seq<Seq<u8>>) -> bool {
    forall|i: int| 0 <= i < shares.len() ==> (#[trigger] shares[i]).len() == shares[0].len()
}

/// Recovery can read the shares: where there are enough of them, there is
/// at least one, and each holds its identifier.
pub open spec fn readable(threshold: u8, shares: Seq<Seq<u8>>) -> bool {
    shares.len() >= threshold ==> {
        &&& shares.len() > 0
        &&& forall|i: int| 0 <= i < shares.len() ==> (#[trigger] shares[i]).len() > 0
    }
}

/// What recovery gives for the shares: an error where they are too few,
/// where two carry one identifier, or where their lengths differ, in this
/// order; else, for each position behind the identifier, the constant term
/// of the polynomial through the points that the shares give there.
pub open spec fn recover(threshold: u8, shares: Seq<Seq<u8>>) -> Result<Seq<u8>, ShamirError> {
    if shares.len() < threshold {
        Err(ShamirError::InsufficientShares)
    } else if !share_ids(shares).no_duplicates() {
        Err(ShamirError::DuplicateShareId)
    } else if !same_lengths(shares) {
        Err(ShamirError::MismatchedShareLength)
    } else {
        Ok(
            Seq::new(
                (shares[0].len() - 1) as nat,
                |p: int| interpolant(share_ids(shares), column(shares, p + 1))[0],
            ),
        )
    }
}

impl SecretData {
    /// The polynomials of the material, as sequences.
    pub open spec fn polynomials(&self) -> Seq<Seq<u8>> {
        rows(self.coefficients@)
    }

    /// The material has a threshold of at least 1 and, for each byte of
    /// the secret, a polynomial of `threshold` coefficients whose constant
    /// term is that byte.
    pub open spec fn wf(&self) -> bool {
        &&& self.threshold >= 1
        &&& self.coefficients@.len() == self.secret_data@.len()
        &&& forall|i: int|
            0 <= i < self.coefficients@.len() ==> {
                &&& (#[trigger] self.coefficients@[i])@.len() == self.threshold
                &&& self.coefficients@[i]@[0] == self.secret_data@[i]
            }
    }

    /// What asking for the share `id` gives: an error for the reserved
    /// identifier 0, else the share.
    pub open spec fn share(&self, id: u8) -> Result<Seq<u8>, ShamirError> {
        if id == 0 {
            Err(ShamirError::InvalidShareId)
        } else {
            Ok(share_bytes(self.polynomials(), id))
        }
    }

    /// Splits `secret`: draws, for each of its bytes, `threshold - 1` random
    /// coefficients to stand above the byte in its polynomial. A threshold
    /// of 1 is accepted; every share then holds the secret itself.
    pub fn with_secret(secret: &[u8], threshold: u8) -> (r: SecretData)
        requires
            threshold >= 1,
        ensures
            r.wf(),
            r.secret_data@ == secret@,
            r.threshold == threshold,
    {
        let mut coefficients: Vec<Vec<u8>> = Vec::new();
        let mut secret_data: Vec<u8> = Vec::new();
        let mut rng = rand::thread_rng();
        let mut rand_container: Vec<u8> = vec![0u8; (threshold - 1) as usize];
        let mut i: usize = 0;
        while i < secret.len()
            invariant
                i <= secret.len(),
                threshold >= 1,
                rand_container@.len() == threshold - 1,
                secret_data@ == secret@.take(i as int),
                coefficients@.len() == i,
                forall|k: int|
                    0 <= k < i ==> {
                        &&& (#[trigger] coefficients@[k])@.len() == threshold
                        &&& coefficients@[k]@[0] == secret@[k]
                    },
            decreases secret.len() - i,
        {
            fill_bytes(&mut rng, &mut rand_container);
            let polynomial = SecretData::polynomial_for(secret[i], rand_container.as_slice());
            coefficients.push(polynomial);
            secret_data.push(secret[i]);
            i = i + 1;
        }
        assert(secret@.take(secret@.len() as int) =~= secret@);
        SecretData { secret_data, threshold, coefficients }
    }

    /// The polynomial with the constant term `constant` and, above it, the
    /// coefficients `upper`.
    pub fn polynomial_for(constant: u8, upper: &[u8]) -> (r: Vec<u8>)
        ensures
            r@ == seq![constant] + upper@,
    {
        let mut polynomial: Vec<u8> = vec![constant];
        let mut k: usize = 0;
        while k < upper.len()
            invariant
                k <= upper.len(),
                polynomial@ == seq![constant] + upper@.take(k as int),
            decreases upper.len() - k,
        {
            polynomial.push(upper[k]);
            k = k + 1;
        }
        assert(upper@.take(upper@.len() as int) =~= upper@);
        polynomial
    }

    /// Issues the share with the identifier `id`: the identifier, then the
    /// value of each polynomial at it. The identifier 0 is refused, as the
    /// value there is the secret itself.
    pub fn get_share(&self, id: u8) -> (r: Result<Vec<u8>, ShamirError>)
        ensures
            outcome(r) == self.share(id),
            id == 0 ==> (r matches Err(e) && e == ShamirError::InvalidShareId),
            id != 0 ==> r is Ok,
    {
        if id == 0 {
            return Err(ShamirError::InvalidShareId);
        }
        let mut share: Vec<u8> = Vec::new();
        let mut i: usize = 0;
        while i < self.coefficients.len()
            invariant
                i <= self.coefficients.len(),
                id != 0,
                share@.len() == i,
                forall|k: int| 0 <= k < i ==> share@[k] == poly_eval(self.coefficients@[k]@, id),
            decreases self.coefficients.len() - i,
        {
            let b = SecretData::accumulate_share_bytes(id, self.coefficients[i].as_slice())?;
            share.push(b);
            i = i + 1;
        }
        share.insert(0, id);
        assert(share@ =~= share_bytes(self.polynomials(), id));
        Ok(share)
    }

    /// Whether `share` is the share that this material issues for the
    /// identifier that `share` leads with.
    pub fn is_valid_share(&self, share: &[u8]) -> (r: bool)
        requires
            share.len() > 0,
        ensures
            r == (self.share(share@[0]) == Ok::<Seq<u8>, ShamirError>(share@)),
    {
        let id: u8 = share[0];
        match self.get_share(id) {
            Ok(s) => SecretData::same_bytes(s.as_slice(), share),
            _ => false,
        }
    }

    /// Whether two byte strings are equal.
    fn same_bytes(a: &[u8], b: &[u8]) -> (r: bool)
        ensures
            r == (a@ == b@),
    {
        if a.len() != b.len() {
            return false;
        }
        let mut i: usize = 0;
        while i < a.len()
            invariant
                i <= a.len(),
                a.len() == b.len(),
                forall|k: int| 0 <= k < i ==> a@[k] == b@[k],
            decreases a.len() - i,
        {
            if a[i] != b[i] {
                return false;
            }
            i = i + 1;
        }
        assert(a@ =~= b@);
        true
    }

    /// Evaluates the polynomial with the coefficients `coefficient_bytes`
    /// at the point `id`: the sum of each coefficient times the matching
    /// power of `id`. The reserved identifier 0 is refused.
    pub fn accumulate_share_bytes(id: u8, coefficient_bytes: &[u8]) -> (r: Result<
        u8,
        ShamirError,
    >)
        ensures
            r == (if id == 0 {
                Err::<u8, ShamirError>(ShamirError::InvalidShareId)
            } else {
                Ok::<u8, ShamirError>(poly_eval(coefficient_bytes@, id))
            }),
    {
        if id == 0 {
            return Err(ShamirError::InvalidShareId);
        }
        let mut accumulator: u8 = 0;
        let mut x_i: u8 = 1;
        let mut k: usize = 0;
        while k < coefficient_bytes.len()
            invariant
                k <= coefficient_bytes.len(),
                accumulator == eval_terms(coefficient_bytes@, id, k as nat),
                x_i == gf_pow(id, k as nat),
            decreases coefficient_bytes.len() - k,
        {
            let term: u8 = SecretData::gf256_mul(coefficient_bytes[k], x_i);
            accumulator = SecretData::gf256_add(accumulator, term);
            x_i = SecretData::gf256_mul(x_i, id);
            k = k + 1;
        }
        Ok(accumulator)
    }

    /// Recovers a secret from shares. Too few shares, two shares with one
    /// identifier and shares of unequal length are refused, in this order.
    /// Else each byte of the secret is the constant term of the polynomial
    /// through the points that the shares give at its position.
    pub fn recover_secret(threshold: u8, shares: Vec<Vec<u8>>) -> (r: Result<
        Vec<u8>,
        ShamirError,
    >)
        requires
            readable(threshold, rows(shares@)),
        ensures
            outcome(r) == recover(threshold, rows(shares@)),
            shares.len() < threshold ==> (r matches Err(e) && e
                == ShamirError::InsufficientShares),
            !share_ids(rows(shares@)).no_duplicates() || !same_lengths(rows(shares@)) ==> r is Err,
            r matches Err(e) ==> (e != ShamirError::DivisionByZero && e
                != ShamirError::InvalidShareId),
    {
        if threshold as usize > shares.len() {
            return Err(ShamirError::InsufficientShares);
        }
        let ghost all = rows(shares@);
        let count: usize = shares.len();
        let mut ids: Vec<u8> = Vec::new();
        let mut i: usize = 0;
        while i < count
            invariant
                i <= count,
                count == shares.len(),
                all == rows(shares@),
                forall|k: int| 0 <= k < count ==> (#[trigger] all[k]).len() > 0,
                threshold <= count,
                ids@ == share_ids(all).take(i as int),
                ids@.no_duplicates(),
            decreases count - i,
        {
            assert(all[i as int] == shares@[i as int]@);
            let id: u8 = shares[i][0];
            if SecretData::holds(ids.as_slice(), id) {
                proof {
                    let k = ids@.index_of(id);
                    assert(share_ids(all)[k] == share_ids(all)[i as int]);
                    assert(!share_ids(all).no_duplicates());
                }
                return Err(ShamirError::DuplicateShareId);
            }
            ids.push(id);
            assert(ids@ =~= share_ids(all).take(i + 1));
            i = i + 1;
        }
        assert(ids@ =~= share_ids(all));
        let width: usize = shares[0].len();
        let mut i: usize = 0;
        while i < count
            invariant
                i <= count,
                count == shares.len(),
                count > 0,
                all == rows(shares@),
                threshold <= count,
                share_ids(all).no_duplicates(),
                width == all[0].len(),
                forall|k: int| 0 <= k < i ==> (#[trigger] all[k]).len() == width,
            decreases count - i,
        {
            assert(all[i as int] == shares@[i as int]@);
            if shares[i].len() != width {
                assert(!same_lengths(all));
                return Err(ShamirError::MismatchedShareLength);
            }
            i = i + 1;
        }
        let mut secret: Vec<u8> = Vec::new();
        let rounds: usize = width - 1;
        let mut position: usize = 0;
        while position < rounds
            invariant
                position <= rounds,
                rounds == width - 1,
                count == shares.len(),
                count > 0,
                all == rows(shares@),
                width == all[0].len(),
                threshold <= count,
                same_lengths(all),
                ids@ == share_ids(all),
                ids@.no_duplicates(),
                secret@.len() == position,
                forall|p: int|
                    0 <= p < position ==> secret@[p] == interpolant(
                        share_ids(all),
                        column(all, p + 1),
                    )[0],
            decreases rounds - position,
        {
            let mut values: Vec<u8> = Vec::new();
            let mut k: usize = 0;
            while k < count
                invariant
                    k <= count,
                    count == shares.len(),
                    all == rows(shares@),
                    position < rounds,
                    rounds == width - 1,
                    width == all[0].len(),
                    same_lengths(all),
                    values@ == column(all, position + 1).take(k as int),
                decreases count - k,
            {
                assert(all[k as int] == shares@[k as int]@);
                values.push(shares[k][position + 1]);
                assert(values@ =~= column(all, position + 1).take(k + 1));
                k = k + 1;
            }
            assert(values@ =~= column(all, position + 1));
            assert(ids@.take(values@.len() as int) =~= ids@);
            match SecretData::full_lagrange(ids.as_slice(), values.as_slice()) {
                Ok(polynomial) => {
                    secret.push(polynomial[0]);
                },
                // No two identifiers are equal, so no denominator is zero.
                Err(e) => {
                    return Err(e);
                },
            }
            position = position + 1;
        }
        assert(secret@ =~= recover(threshold, all)->Ok_0);
        Ok(secret)
    }

    /// Whether `id` is among `ids`.
    fn holds(ids: &[u8], id: u8) -> (r: bool)
        ensures
            r == ids@.contains(id),
    {
        let mut k: usize = 0;
        while k < ids.len()
            invariant
                k <= ids.len(),
                forall|m: int| 0 <= m < k ==> ids@[m] != id,
            decreases ids.len() - k,
        {
            if ids[k] == id {
                return true;
            }
            k = k + 1;
        }
        false
    }
}

} // verus!
