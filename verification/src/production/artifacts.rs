//! Consistency checks of the model artifacts and vote counting of the
//! rain ensemble.
//!
//! Loading (disk I/O, JSON and bincode parsing) and the floating-point
//! model arithmetic live outside this library; what is decided about the
//! loaded values is decided here.

use vstd::prelude::*;
use crate::production::text::{str_eq, string_views};

verus! {

/// Which artifact disagrees with the scaler about the feature names.
#[derive(Debug, Clone, Copy, PartialEq, Eq, Structural)]
pub enum FeatureSource {
    Ridge24h,
    Ridge48h,
    Ridge72h,
    Contract,
}

/// Why a loaded artifact is rejected.
#[derive(Debug, Clone, Copy, PartialEq, Eq, Structural)]
pub enum ArtifactError {
    /// The scaler's mean or std vector does not have `n_features` entries.
    ScalerShapeMismatch { means: usize, stds: usize, n_features: usize },
    /// A Ridge JSON whose `model_type` is not `"ridge_regression"`.
    UnexpectedModelType,
    /// A Ridge JSON with a coefficient count unlike its feature count.
    CoefficientCountMismatch { coefficients: usize, features: usize },
    /// A bagging ensemble without trees.
    EmptyEnsemble,
    /// Feature names differ between the scaler and another artifact.
    FeatureNamesMismatch { source: FeatureSource, scaler: usize, other: usize },
}

/// Scaler shape check: both vectors must have `n_features` entries.
pub fn check_scaler_shape(n_means: usize, n_stds: usize, n_features: usize) -> (r: Result<(), ArtifactError>)
    ensures
        r is Ok <==> (n_means == n_features && n_stds == n_features),
        r is Err ==> r == Err::<(), ArtifactError>(
            ArtifactError::ScalerShapeMismatch { means: n_means, stds: n_stds, n_features },
        ),
{
    if n_means != n_features || n_stds != n_features {
        return Err(ArtifactError::ScalerShapeMismatch { means: n_means, stds: n_stds, n_features });
    }
    Ok(())
}

/// Ridge JSON check: the model type must be `"ridge_regression"`, then
/// there must be one coefficient per feature name.
pub fn check_ridge_manual(model_type: &str, n_coefficients: usize, n_features: usize) -> (r: Result<
    (),
    ArtifactError,
>)
    ensures
        model_type@ != "ridge_regression"@ ==> r == Err::<(), ArtifactError>(
            ArtifactError::UnexpectedModelType,
        ),
        model_type@ == "ridge_regression"@ && n_coefficients != n_features ==> r == Err::<
            (),
            ArtifactError,
        >(
            ArtifactError::CoefficientCountMismatch {
                coefficients: n_coefficients,
                features: n_features,
            },
        ),
        model_type@ == "ridge_regression"@ && n_coefficients == n_features ==> r is Ok,
{
    if !str_eq(model_type, "ridge_regression") {
        return Err(ArtifactError::UnexpectedModelType);
    }
    if n_coefficients != n_features {
        return Err(
            ArtifactError::CoefficientCountMismatch {
                coefficients: n_coefficients,
                features: n_features,
            },
        );
    }
    Ok(())
}

/// A bagging ensemble must hold at least one tree.
pub fn check_ensemble_size(n_trees: usize) -> (r: Result<(), ArtifactError>)
    ensures
        r is Ok <==> n_trees > 0,
        r is Err ==> r == Err::<(), ArtifactError>(ArtifactError::EmptyEnsemble),
{
    if n_trees == 0 {
        return Err(ArtifactError::EmptyEnsemble);
    }
    Ok(())
}

/// Two lists of names are equal.
fn names_eq(a: &[String], b: &[String]) -> (r: bool)
    ensures
        r == (string_views(a@) == string_views(b@)),
{
    if a.len() != b.len() {
        proof {
            if string_views(a@) == string_views(b@) {
                assert(string_views(a@).len() == string_views(b@).len());
            }
        }
        return false;
    }
    let mut i: usize = 0;
    while i < a.len()
        invariant
            a.len() == b.len(),
            i <= a.len(),
            forall|k: int| 0 <= k < i ==> a@[k]@ == b@[k]@,
        decreases a.len() - i,
    {
        if a[i] != b[i] {
            proof {
                if string_views(a@) == string_views(b@) {
                    assert(string_views(a@)[i as int] == string_views(b@)[i as int]);
                }
            }
            return false;
        }
        i = i + 1;
    }
    assert(string_views(a@) =~= string_views(b@));
    true
}

/// Feature-ordering check of a model bundle: the three Ridge models and
/// the contract must list exactly the scaler's feature names, checked in
/// that order.
pub fn check_feature_alignment(
    scaler: &[String],
    ridge_24h: &[String],
    ridge_48h: &[String],
    ridge_72h: &[String],
    contract: &[String],
) -> (r: Result<(), ArtifactError>)
    ensures
        ({
            let s = string_views(scaler@);
            let mismatch = |src: FeatureSource, other: Seq<String>|
                Err::<(), ArtifactError>(
                    ArtifactError::FeatureNamesMismatch {
                        source: src,
                        scaler: scaler@.len() as usize,
                        other: other.len() as usize,
                    },
                );
            if string_views(ridge_24h@) != s {
                r == mismatch(FeatureSource::Ridge24h, ridge_24h@)
            } else if string_views(ridge_48h@) != s {
                r == mismatch(FeatureSource::Ridge48h, ridge_48h@)
            } else if string_views(ridge_72h@) != s {
                r == mismatch(FeatureSource::Ridge72h, ridge_72h@)
            } else if string_views(contract@) != s {
                r == mismatch(FeatureSource::Contract, contract@)
            } else {
                r is Ok
            }
        }),
{
    if !names_eq(ridge_24h, scaler) {
        return Err(
            ArtifactError::FeatureNamesMismatch {
                source: FeatureSource::Ridge24h,
                scaler: scaler.len(),
                other: ridge_24h.len(),
            },
        );
    }
    if !names_eq(ridge_48h, scaler) {
        return Err(
            ArtifactError::FeatureNamesMismatch {
                source: FeatureSource::Ridge48h,
                scaler: scaler.len(),
                other: ridge_48h.len(),
            },
        );
    }
    if !names_eq(ridge_72h, scaler) {
        return Err(
            ArtifactError::FeatureNamesMismatch {
                source: FeatureSource::Ridge72h,
                scaler: scaler.len(),
                other: ridge_72h.len(),
            },
        );
    }
    if !names_eq(contract, scaler) {
        return Err(
            ArtifactError::FeatureNamesMismatch {
                source: FeatureSource::Contract,
                scaler: scaler.len(),
                other: contract.len(),
            },
        );
    }
    Ok(())
}

/// A tree votes "rain" for the row when its first prediction is class 1.
pub open spec fn votes_rain(pred: Seq<u32>) -> bool {
    pred.len() > 0 && pred[0] == 1
}

/// Number of trees of `preds` that vote "rain".
pub open spec fn rain_votes(preds: Seq<Vec<u32>>) -> nat
    decreases preds.len(),
{
    if preds.len() == 0 {
        0
    } else {
        rain_votes(preds.drop_last()) + if votes_rain(preds.last()@) {
            1nat
        } else {
            0nat
        }
    }
}

/// Vote count of the rain ensemble for one row, from each tree's
/// prediction vector.
pub fn count_rain_votes(tree_predictions: &[Vec<u32>]) -> (votes: usize)
    ensures
        votes == rain_votes(tree_predictions@),
        votes <= tree_predictions.len(),
{
    let mut votes: usize = 0;
    let mut i: usize = 0;
    while i < tree_predictions.len()
        invariant
            i <= tree_predictions.len(),
            votes == rain_votes(tree_predictions@.take(i as int)),
            votes <= i,
        decreases tree_predictions.len() - i,
    {
        assert(tree_predictions@.take(i + 1).drop_last() =~= tree_predictions@.take(i as int));
        let p = &tree_predictions[i];
        if p.len() > 0 && p[0] == 1 {
            votes = votes + 1;
        }
        i = i + 1;
    }
    assert(tree_predictions@.take(tree_predictions.len() as int) =~= tree_predictions@);
    votes
}

/// Number of trees of `preds` that predict class 1 for row `row`.
pub open spec fn row_votes(preds: Seq<Vec<u32>>, row: int) -> nat
    decreases preds.len(),
{
    if preds.len() == 0 {
        0
    } else {
        row_votes(preds.drop_last(), row) + if 0 <= row < preds.last()@.len()
            && preds.last()@[row] == 1 {
            1nat
        } else {
            0nat
        }
    }
}

/// Per-row vote counts of the rain ensemble over a batch of `n_rows`
/// rows, from each tree's prediction vector.
pub fn tally_row_votes(tree_predictions: &[Vec<u32>], n_rows: usize) -> (sums: Vec<usize>)
    requires
        forall|t: int| 0 <= t < tree_predictions.len() ==> #[trigger] tree_predictions@[t].len() <= n_rows,
    ensures
        sums.len() == n_rows,
        forall|row: int| 0 <= row < n_rows ==> #[trigger] sums@[row] == row_votes(tree_predictions@, row),
{
    let mut sums: Vec<usize> = vec![0usize; n_rows];
    let mut t: usize = 0;
    while t < tree_predictions.len()
        invariant
            t <= tree_predictions.len(),
            sums.len() == n_rows,
            forall|row: int|
                0 <= row < n_rows ==> #[trigger] sums@[row] == row_votes(
                    tree_predictions@.take(t as int),
                    row,
                ),
            forall|row: int| 0 <= row < n_rows ==> #[trigger] sums@[row] <= t,
            forall|k: int| 0 <= k < tree_predictions.len() ==> #[trigger] tree_predictions@[k].len() <= n_rows,
        decreases tree_predictions.len() - t,
    {
        assert(tree_predictions@.take(t + 1).drop_last() =~= tree_predictions@.take(t as int));
        let p = &tree_predictions[t];
        let ghost before = sums@;
        let mut i: usize = 0;
        while i < p.len()
            invariant
                p.len() <= n_rows,
                sums.len() == n_rows,
                i <= p.len(),
                forall|row: int|
                    0 <= row < n_rows ==> #[trigger] sums@[row] == before[row] + if row < i && p@[row]
                        == 1 {
                        1int
                    } else {
                        0int
                    },
                forall|row: int| 0 <= row < n_rows ==> before[row] <= t,
                t < tree_predictions.len(),
            decreases p.len() - i,
        {
            if p[i] == 1 {
                let c = sums[i];
                sums.set(i, c + 1);
            }
            i = i + 1;
        }
        t = t + 1;
    }
    assert(tree_predictions@.take(tree_predictions.len() as int) =~= tree_predictions@);
    sums
}

/// Each tree adds its vote: appending a tree whose prediction vector
/// starts with class 1 (of any length, one row included) adds exactly one
/// vote, and appending any other tree adds none.  So the count is the
/// number of trees whose first prediction is 1.
pub proof fn lemma_rain_votes_push(preds: Seq<Vec<u32>>, p: Vec<u32>)
    ensures
        (p@.len() >= 1 && p@[0] == 1) ==> rain_votes(preds.push(p)) == rain_votes(preds) + 1,
        !(p@.len() >= 1 && p@[0] == 1) ==> rain_votes(preds.push(p)) == rain_votes(preds),
{
    assert(preds.push(p).drop_last() =~= preds);
}

/// The vote count never exceeds the number of trees, and equals it when
/// every tree predicts class 1 first.
pub proof fn lemma_rain_votes_bounds(preds: Seq<Vec<u32>>)
    ensures
        rain_votes(preds) <= preds.len(),
        (forall|i: int| 0 <= i < preds.len() ==> (#[trigger] preds[i])@.len() >= 1 && preds[i]@[0]
            == 1) ==> rain_votes(preds) == preds.len(),
        (forall|i: int| 0 <= i < preds.len() ==> !((#[trigger] preds[i])@.len() >= 1 && preds[i]@[0]
            == 1)) ==> rain_votes(preds) == 0,
    decreases preds.len(),
{
    if preds.len() > 0 {
        let init = preds.drop_last();
        lemma_rain_votes_bounds(init);
        assert forall|i: int| 0 <= i < init.len() implies #[trigger] init[i] == preds[i] by {}
        assert(preds.last() == preds[preds.len() - 1]);
    }
}

/// Each tree adds its vote for a row: appending a tree whose prediction
/// for `row` is class 1 adds exactly one vote to that row, and appending
/// a tree that predicts anything else for it (or has no prediction for
/// it) adds none.
pub proof fn lemma_row_votes_push(preds: Seq<Vec<u32>>, p: Vec<u32>, row: int)
    ensures
        (0 <= row < p@.len() && p@[row] == 1) ==> row_votes(preds.push(p), row) == row_votes(preds, row) + 1,
        !(0 <= row < p@.len() && p@[row] == 1) ==> row_votes(preds.push(p), row) == row_votes(preds, row),
{
    assert(preds.push(p).drop_last() =~= preds);
}

} // verus!
