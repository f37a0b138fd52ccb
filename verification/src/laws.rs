//! What holds of splitting and recovering together.

use crate::error::{outcome, ShamirError};
use crate::interpolation::{
    interpolant, interpolates, lemma_interpolant_exists, lemma_interpolant_is,
    lemma_interpolation_unique,
};
use crate::poly::{padded, poly_eval};
use crate::poly_laws::{lemma_eval_at_zero, lemma_eval_padded};
use crate::secret::{column, readable, recover, same_lengths, share_ids, SecretData};
use vstd::prelude::*;

verus! {

/// Asking a material twice for the share of one identifier gives the same
/// answer both times.
pub proof fn lemma_get_share_deterministic(
    material: SecretData,
    id: u8,
    first: Result<Vec<u8>, ShamirError>,
    second: Result<Vec<u8>, ShamirError>,
)
    requires
        outcome(first) == material.share(id),
        outcome(second) == material.share(id),
    ensures
        outcome(first) == outcome(second),
{
}

/// Recovery undoes splitting: from shares that a material issued, at least
/// as many as its threshold and no two for one identifier, recovery gives
/// the secret of the material, whichever shares they are and whatever the
/// random coefficients were.
pub proof fn lemma_round_trip(material: SecretData, shares: Seq<Seq<u8>>)
    requires
        material.wf(),
        shares.len() >= material.threshold,
        share_ids(shares).no_duplicates(),
        forall|k: int|
            0 <= k < shares.len() ==> material.share(#[trigger] shares[k][0]) == Ok::<
                Seq<u8>,
                ShamirError,
            >(shares[k]),
    ensures
        readable(material.threshold, shares),
        recover(material.threshold, shares) == Ok::<Seq<u8>, ShamirError>(material.secret_data@),
{
    let polys = material.polynomials();
    let ids = share_ids(shares);
    let count = shares.len();
    assert forall|k: int| 0 <= k < count implies (#[trigger] shares[k]).len() == polys.len() + 1
        && shares[k][0] != 0 by {
        assert(material.share(shares[k][0]) == Ok::<Seq<u8>, ShamirError>(shares[k]));
    }
    assert(same_lengths(shares));
    let recovered = recover(material.threshold, shares)->Ok_0;
    assert forall|p: int| 0 <= p < polys.len() implies recovered[p] == material.secret_data@[p] by {
        let values = column(shares, p + 1);
        let full = padded(polys[p], count);
        assert(polys[p] == material.coefficients@[p]@);
        assert forall|k: int| 0 <= k < count implies #[trigger] poly_eval(full, ids[k])
            == values[k] by {
            assert(material.share(shares[k][0]) == Ok::<Seq<u8>, ShamirError>(shares[k]));
            lemma_eval_padded(polys[p], count, ids[k]);
        }
        assert(interpolates(full, ids, values));
        lemma_interpolant_is(full, ids, values);
    }
    assert(recovered =~= material.secret_data@);
}

/// `p` has one coefficient more than there are shares, has `secret` as
/// its constant term, and gives the share with the identifier `ids[k]` the
/// value `values[k]`.
pub open spec fn explains(p: Seq<u8>, ids: Seq<u8>, values: Seq<u8>, secret: u8) -> bool {
    &&& p.len() == ids.len() + 1
    &&& p[0] == secret
    &&& forall|k: int| 0 <= k < ids.len() ==> #[trigger] poly_eval(p, ids[k]) == values[k]
}

/// Shares one fewer than the threshold say nothing of the secret: whatever
/// they hold at one position, every byte is the secret's byte there for
/// exactly one choice of the coefficients.
pub proof fn lemma_too_few_shares_fit_every_secret(ids: Seq<u8>, values: Seq<u8>, secret: u8)
    requires
        ids.no_duplicates(),
        ids.len() == values.len(),
        forall|k: int| 0 <= k < ids.len() ==> ids[k] != 0,
    ensures
        exists|p: Seq<u8>| explains(p, ids, values, secret),
        forall|p: Seq<u8>, q: Seq<u8>|
            explains(p, ids, values, secret) && explains(q, ids, values, secret) ==> p == q,
{
    let xs = seq![0u8] + ids;
    let ys = seq![secret] + values;
    assert(xs.no_duplicates()) by {
        assert forall|i: int, j: int| 0 <= i < xs.len() && 0 <= j < xs.len() && i != j implies xs[i]
            != xs[j] by {
            if i > 0 && j > 0 {
                assert(xs[i] == ids[i - 1] && xs[j] == ids[j - 1]);
            } else if i > 0 {
                assert(xs[i] == ids[i - 1]);
            } else {
                assert(xs[j] == ids[j - 1]);
            }
        }
    }
    assert forall|p: Seq<u8>| explains(p, ids, values, secret) <==> interpolates(p, xs, ys) by {
        lemma_eval_at_zero(p);
        if explains(p, ids, values, secret) {
            assert forall|i: int| 0 <= i < xs.len() implies #[trigger] poly_eval(p, xs[i])
                == ys[i] by {
                if i > 0 {
                    assert(xs[i] == ids[i - 1]);
                    assert(poly_eval(p, ids[i - 1]) == values[i - 1]);
                }
            }
        }
        if interpolates(p, xs, ys) {
            assert(poly_eval(p, xs[0]) == ys[0]);
            assert forall|k: int| 0 <= k < ids.len() implies #[trigger] poly_eval(p, ids[k])
                == values[k] by {
                assert(xs[k + 1] == ids[k]);
                assert(poly_eval(p, xs[k + 1]) == ys[k + 1]);
            }
        }
    }
    lemma_interpolant_exists(xs, ys);
    assert(explains(interpolant(xs, ys), ids, values, secret));
    assert forall|p: Seq<u8>, q: Seq<u8>|
        explains(p, ids, values, secret) && explains(q, ids, values, secret) implies p == q by {
        lemma_interpolation_unique(p, q, xs, ys);
    }
}

} // verus!
