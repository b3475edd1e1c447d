//! What a snapshot has to be like, and what cleaning makes of it.

use crate::bayesian_lr;
use crate::linalg;
use crate::q_state;
use crate::q_state::BayesianLinearRegressionSnapshot;
use crate::relations;
use crate::scalar::Scalar;
use crate::vector_laws;
use vstd::prelude::*;

verus! {

/// A snapshot without a fault has a dimension, positive variances and regularization, a weight from
/// zero to one, and parts of the right shape.
pub proof fn a_sound_snapshot_is_in_range(s: BayesianLinearRegressionSnapshot)
    requires
        bayesian_lr::fault(s) is None,
        !s.lambda_reg.nan(),
        !s.sigma2_noise.nan(),
        !s.residual_var_ema.nan(),
        !s.divergence_threshold.nan(),
    ensures
        s.dim > 0,
        Scalar::of_int(0).below(s.lambda_reg),
        Scalar::of_int(0).below(s.sigma2_noise),
        Scalar::of_int(0).below(s.residual_var_ema),
        Scalar::of_int(0).below(s.ema_alpha),
        s.ema_alpha.at_most(Scalar::of_int(1)),
        Scalar::of_int(0).below(s.divergence_threshold),
        s.posterior_mean.len == s.dim && s.posterior_mean.data@.len() == s.dim,
        s.b_vector.len == s.dim && s.b_vector.data@.len() == s.dim,
        s.precision_inverse.rows == s.dim && s.precision_inverse.cols == s.dim
            && s.precision_inverse.data@.len() == s.dim * s.dim,
        s.posterior_covariance.rows == s.dim && s.posterior_covariance.cols == s.dim
            && s.posterior_covariance.data@.len() == s.dim * s.dim,
{
    relations::zero_and_one();
}

/// In a snapshot without a fault the stored covariance is the precision times the noise, and the
/// stored mean the precision times the evidence, in every place, but for the tolerance.
pub proof fn a_sound_snapshot_agrees_with_itself(
    s: BayesianLinearRegressionSnapshot,
    i: int,
    j: int,
)
    requires
        bayesian_lr::fault(s) is None,
        0 <= i < s.dim,
        0 <= j < s.posterior_covariance.data@.len(),
        vector_laws::all_finite(s.posterior_covariance.data@),
        vector_laws::all_finite(s.posterior_mean.data@),
        vector_laws::all_finite(linalg::scaled(s.precision_inverse.data@, s.sigma2_noise)),
        vector_laws::all_finite(linalg::product(s.precision_inverse.data@, s.b_vector.data@)),
    ensures
        s.precision_inverse.data@[j].times(s.sigma2_noise).minus(
            s.posterior_covariance.data@[j],
        ).magnitude().at_most(Scalar::of_ratio(1, 1_000_000_000)),
        linalg::product(s.precision_inverse.data@, s.b_vector.data@)[i].minus(
            s.posterior_mean.data@[i],
        ).magnitude().at_most(Scalar::of_ratio(1, 1_000_000_000)),
{
    let n = s.posterior_covariance.data@.len() as int;
    let scaled = linalg::scaled(s.precision_inverse.data@, s.sigma2_noise);
    let product = linalg::product(s.precision_inverse.data@, s.b_vector.data@);
    crate::order::proper_ratio(1, 1_000_000_000);
    vector_laws::the_greatest_distance_is_reached(scaled, s.posterior_covariance.data@, n, j);
    vector_laws::the_greatest_distance_is_reached(
        product,
        s.posterior_mean.data@,
        s.posterior_mean.data@.len() as int,
        i,
    );
}

/// Cleaning keeps every finite number, and makes zero of the rest.
pub proof fn cleaning_keeps_finite_numbers(v: Scalar)
    ensures
        v.finite() ==> q_state::cleaned(v) == v,
        !v.finite() ==> q_state::cleaned(v).zero(),
        q_state::cleaned(v).finite(),
{
    relations::zero_and_one();
}

/// A cleaned snapshot has finite single numbers, and variances and regularization of at least their
/// least value; numbers that were so already stay, and so do the vectors and matrices. Cleaning
/// again changes nothing.
pub proof fn cleaning_a_snapshot_once_is_enough(s: BayesianLinearRegressionSnapshot)
    ensures
        ({
            let c = s.sanitized();
            let least = Scalar::of_ratio(1, 10_000_000_000);
            &&& least.at_most(c.sigma2_noise) && least.at_most(c.residual_var_ema)
                && least.at_most(c.lambda_reg)
            &&& c.sigma2_noise.finite() && c.residual_var_ema.finite() && c.lambda_reg.finite()
            &&& c.ema_alpha.finite() && c.prev_w_norm.finite() && c.divergence_threshold.finite()
            &&& s.sigma2_noise.finite() && least.at_most(s.sigma2_noise) ==> c.sigma2_noise
                == s.sigma2_noise
            &&& s.residual_var_ema.finite() && least.at_most(s.residual_var_ema)
                ==> c.residual_var_ema == s.residual_var_ema
            &&& s.lambda_reg.finite() && least.at_most(s.lambda_reg) ==> c.lambda_reg
                == s.lambda_reg
            &&& s.ema_alpha.finite() ==> c.ema_alpha == s.ema_alpha
            &&& s.prev_w_norm.finite() ==> c.prev_w_norm == s.prev_w_norm
            &&& s.divergence_threshold.finite() ==> c.divergence_threshold
                == s.divergence_threshold
            &&& c.posterior_mean == s.posterior_mean && c.posterior_covariance
                == s.posterior_covariance
            &&& c.precision_inverse == s.precision_inverse && c.b_vector == s.b_vector
            &&& c.dim == s.dim && c.n_observations == s.n_observations
            &&& c.sanitized() == c
        }),
{
    relations::zero_and_one();
    crate::order::proper_ratio(1, 10_000_000_000);
}

/// A letter keeps its place in the alphabet in lower case, and what is in lower case stays as it is.
pub proof fn lower_case_keeps_letters(c: char)
    ensures
        q_state::lower(q_state::lower(c)) == q_state::lower(c),
        c == 'A' ==> q_state::lower(c) == 'a',
        c == 'Z' ==> q_state::lower(c) == 'z',
        'A' <= c <= 'Z' ==> q_state::lower(c) as int - 'a' as int == c as int - 'A' as int,
        !('A' <= c <= 'Z') ==> q_state::lower(c) == c,
{
}

} // verus!
