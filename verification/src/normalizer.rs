//! Online per-feature mean/variance tracking (Welford-style), fixed point.
//!
//! `variance` is the running sum-of-squared-deviations accumulator, in
//! micro-units, initialized to one unit so warm starts read as unit
//! variance; the sample variance for `count >= 2` is `variance/(count-1)`.
//! `normalize` on fewer than two accumulated samples returns its input
//! unchanged.

use vstd::prelude::*;
use vstd::pervasive::VecAdditionalExecFns;
use crate::fixed::{
    SCALE, VAL_LIMIT, tdiv, iabs, sqrt_floor, div_trunc_i128, copy_vec_i64, isqrt_u128,
    lemma_tdiv_bounds, lemma_abs_mul_bound, lemma_sqrt_floor_bounds,
};

verus! {

/// Largest amount one update can add to a feature's accumulator:
/// `(2 * VAL_LIMIT)^2 / SCALE`.
pub const DSQ_MAX: i128 = 4000000000000000000;

/// The running mean after folding in `x` as the `c`-th sample.
pub open spec fn mean_step(m: int, x: int, c: int) -> int {
    m + tdiv(x - m, c)
}

/// The accumulator after folding in `x`, deviating from the post-update
/// mean `m_new`.
pub open spec fn acc_step(v: int, x: int, m_new: int) -> int {
    v + tdiv((x - m_new) * (x - m_new), SCALE as int)
}

/// The normalized feature: deviation from the mean over the sample standard
/// deviation, floored at `eps` to guard the division.
pub open spec fn normalized_value(x: int, m: int, v: int, c: int, eps: int) -> int {
    let sample_var = v / (c - 1);
    let std = sqrt_floor((sample_var * SCALE) as nat) as int;
    let d = if std >= eps {
        std
    } else {
        eps
    };
    tdiv((x - m) * SCALE, d)
}

#[derive(Debug)]
pub struct RunningNormalizer {
    pub mean: Vec<i64>,
    pub variance: Vec<i128>,
    pub count: u64,
    pub epsilon: i64,
}

impl RunningNormalizer {
    pub open spec fn wf(self) -> bool {
        &&& self.mean@.len() == self.variance@.len()
        &&& forall|i: int|
            0 <= i < self.mean@.len() ==> iabs(#[trigger] self.mean@[i] as int) <= VAL_LIMIT
        &&& forall|i: int|
            0 <= i < self.variance@.len() ==> 0 <= #[trigger] self.variance@[i]
        &&& forall|i: int|
            0 <= i < self.variance@.len() ==> #[trigger] self.variance@[i] as int <= SCALE
                + self.count as int * DSQ_MAX
        &&& 1 <= self.epsilon <= SCALE
    }

    pub open spec fn features(self) -> int {
        self.mean@.len() as int
    }

    pub fn new(num_features: usize) -> (r: RunningNormalizer)
        ensures
            r.wf(),
            r.features() == num_features,
            r.count == 0,
            r.epsilon == 1,
            forall|i: int| 0 <= i < num_features ==> #[trigger] r.mean@[i] == 0,
            forall|i: int| 0 <= i < num_features ==> #[trigger] r.variance@[i] == SCALE,
    {
        let mut mean: Vec<i64> = Vec::new();
        let mut variance: Vec<i128> = Vec::new();
        let mut i: usize = 0;
        while i < num_features
            invariant
                i <= num_features,
                mean@.len() == i,
                variance@.len() == i,
                forall|k: int| 0 <= k < i ==> #[trigger] mean@[k] == 0,
                forall|k: int| 0 <= k < i ==> #[trigger] variance@[k] == SCALE,
            decreases num_features - i,
        {
            mean.push(0);
            variance.push(SCALE as i128);
            i = i + 1;
        }
        RunningNormalizer { mean, variance, count: 0, epsilon: 1 }
    }

    /// Folds one sample into the running statistics: the mean moves by the
    /// scaled deviation, then the accumulator grows by the squared deviation
    /// from the just-updated mean.
    pub fn update(&mut self, state: &Vec<i64>)
        requires
            old(self).wf(),
            state@.len() == old(self).features(),
            old(self).count < u64::MAX,
            forall|i: int| 0 <= i < state@.len() ==> iabs(#[trigger] state@[i] as int) <= VAL_LIMIT,
        ensures
            final(self).wf(),
            final(self).features() == old(self).features(),
            final(self).count == old(self).count + 1,
            final(self).epsilon == old(self).epsilon,
            forall|i: int|
                0 <= i < state@.len() ==> #[trigger] final(self).mean@[i] == mean_step(
                    old(self).mean@[i] as int,
                    state@[i] as int,
                    old(self).count + 1,
                ),
            forall|i: int|
                0 <= i < state@.len() ==> #[trigger] final(self).variance@[i] == acc_step(
                    old(self).variance@[i] as int,
                    state@[i] as int,
                    final(self).mean@[i] as int,
                ),
    {
        let c = self.count + 1;
        self.count = c;
        let n = self.mean.len();
        let mut i: usize = 0;
        while i < n
            invariant
                i <= n,
                n == state@.len(),
                n == old(self).features(),
                self.mean@.len() == n,
                self.variance@ == old(self).variance@,
                self.count == c,
                c == old(self).count + 1,
                self.epsilon == old(self).epsilon,
                forall|k: int| 0 <= k < state@.len() ==> iabs(#[trigger] state@[k] as int) <= VAL_LIMIT,
                forall|k: int|
                    0 <= k < i ==> #[trigger] self.mean@[k] == mean_step(
                        old(self).mean@[k] as int,
                        state@[k] as int,
                        c as int,
                    ),
                forall|k: int|
                    0 <= k < self.mean@.len() ==> iabs(#[trigger] self.mean@[k] as int) <= VAL_LIMIT,
                forall|k: int| i <= k < n ==> #[trigger] self.mean@[k] == old(self).mean@[k],
            decreases n - i,
        {
            let x = state[i];
            let m = self.mean[i];
            let delta: i64 = x - m;
            let step128 = div_trunc_i128(delta as i128, c as i128);
            proof {
                lemma_tdiv_bounds(delta as int, c as int);
            }
            let step = step128 as i64;
            self.mean.set(i, m + step);
            i = i + 1;
        }
        let mut j: usize = 0;
        while j < n
            invariant
                j <= n,
                n == state@.len(),
                n == old(self).features(),
                self.mean@.len() == n,
                self.variance@.len() == n,
                self.count == c,
                c == old(self).count + 1,
                self.epsilon == old(self).epsilon,
                forall|k: int| 0 <= k < state@.len() ==> iabs(#[trigger] state@[k] as int) <= VAL_LIMIT,
                forall|k: int|
                    0 <= k < n ==> #[trigger] self.mean@[k] == mean_step(
                        old(self).mean@[k] as int,
                        state@[k] as int,
                        c as int,
                    ),
                forall|k: int|
                    0 <= k < n ==> iabs(#[trigger] self.mean@[k] as int) <= VAL_LIMIT,
                forall|k: int|
                    0 <= k < j ==> #[trigger] self.variance@[k] == acc_step(
                        old(self).variance@[k] as int,
                        state@[k] as int,
                        self.mean@[k] as int,
                    ),
                forall|k: int| j <= k < n ==> #[trigger] self.variance@[k] == old(self).variance@[k],
                forall|k: int| 0 <= k < n ==> 0 <= #[trigger] self.variance@[k],
                forall|k: int|
                    0 <= k < j ==> #[trigger] self.variance@[k] as int <= SCALE + c as int * DSQ_MAX,
                forall|k: int|
                    j <= k < n ==> #[trigger] self.variance@[k] as int <= SCALE + old(
                        self,
                    ).count as int * DSQ_MAX,
            decreases n - j,
        {
            let x = state[j];
            let m2 = self.mean[j];
            let delta2: i64 = x - m2;
            proof {
                lemma_abs_mul_bound(delta2 as int, delta2 as int, 2 * VAL_LIMIT as int, 2
                    * VAL_LIMIT as int);
                assert(delta2 as int * delta2 as int >= 0) by (nonlinear_arith);
            }
            let sq: i128 = (delta2 as i128) * (delta2 as i128);
            let dsq = div_trunc_i128(sq, SCALE as i128);
            proof {
                lemma_tdiv_bounds(sq as int, SCALE as int);
                assert(old(self).count as int * DSQ_MAX <= c as int * DSQ_MAX - DSQ_MAX);
            }
            let v = self.variance[j];
            self.variance.set(j, v + dsq);
            j = j + 1;
        }
    }

    /// With fewer than two samples this is the identity; otherwise each
    /// feature is centred on the mean and divided by the sample standard
    /// deviation (floored at `epsilon`).
    pub fn normalize(&self, state: &Vec<i64>) -> (r: Vec<i64>)
        requires
            self.wf(),
            state@.len() == self.features(),
            forall|i: int| 0 <= i < state@.len() ==> iabs(#[trigger] state@[i] as int) <= VAL_LIMIT,
        ensures
            r@.len() == state@.len(),
            self.count < 2 ==> r@ == state@,
            self.count >= 2 ==> forall|i: int|
                0 <= i < state@.len() ==> #[trigger] r@[i] == normalized_value(
                    state@[i] as int,
                    self.mean@[i] as int,
                    self.variance@[i] as int,
                    self.count as int,
                    self.epsilon as int,
                ),
    {
        if self.count < 2 {
            return copy_vec_i64(state);
        }
        let mut r: Vec<i64> = Vec::new();
        let mut i: usize = 0;
        while i < state.len()
            invariant
                i <= state@.len(),
                state@.len() == self.features(),
                self.wf(),
                self.count >= 2,
                r@.len() == i,
                forall|k: int| 0 <= k < state@.len() ==> iabs(#[trigger] state@[k] as int) <= VAL_LIMIT,
                forall|k: int|
                    0 <= k < i ==> #[trigger] r@[k] == normalized_value(
                        state@[k] as int,
                        self.mean@[k] as int,
                        self.variance@[k] as int,
                        self.count as int,
                        self.epsilon as int,
                    ),
            decreases state@.len() - i,
        {
            let x = state[i];
            let m = self.mean[i];
            let v = self.variance[i];
            let cm1 = (self.count - 1) as i128;
            let sample_var = div_trunc_i128(v, cm1);
            proof {
                lemma_sample_var_bound(v as int, self.count as int);
                assert(sample_var == v as int / (self.count - 1) as int);
            }
            proof {
                lemma_abs_mul_bound(sample_var as int, SCALE as int, SCALE + 2 * DSQ_MAX, SCALE as int);
                assert(sample_var as int * SCALE as int >= 0) by (nonlinear_arith)
                    requires
                        sample_var as int >= 0 && SCALE as int > 0;
            }
            let prod: i128 = sample_var * (SCALE as i128);
            let std_u = isqrt_u128(prod as u128);
            proof {
                lemma_sqrt_floor_bounds(prod as nat);
                assert(std_u as int <= 3000000000000int) by (nonlinear_arith)
                    requires
                        std_u as int * std_u as int <= prod as int
                            && prod as int <= 9000000000000000000000000int
                            && std_u as int >= 0;
            }
            let std = std_u as i64;
            let d: i64 = if std >= self.epsilon {
                std
            } else {
                self.epsilon
            };
            let num: i128 = ((x - m) as i128) * (SCALE as i128);
            proof {
                lemma_abs_mul_bound((x - m) as int, SCALE as int, 2 * VAL_LIMIT as int, SCALE as int);
            }
            let q = div_trunc_i128(num, d as i128);
            proof {
                lemma_tdiv_bounds(num as int, d as int);
            }
            r.push(q as i64);
            i = i + 1;
        }
        r
    }

    /// Returns the statistics to their starting point: zero means, unit
    /// accumulators, no samples seen.
    pub fn reset(&mut self)
        requires
            old(self).wf(),
        ensures
            final(self).wf(),
            final(self).features() == old(self).features(),
            final(self).count == 0,
            final(self).epsilon == old(self).epsilon,
            forall|i: int| 0 <= i < final(self).features() ==> #[trigger] final(self).mean@[i] == 0,
            forall|i: int|
                0 <= i < final(self).features() ==> #[trigger] final(self).variance@[i] == SCALE,
    {
        let n = self.mean.len();
        let mut i: usize = 0;
        while i < n
            invariant
                i <= n,
                self.mean@.len() == n,
                self.variance@.len() == n,
                self.epsilon == old(self).epsilon,
                1 <= self.epsilon <= SCALE,
                forall|k: int| 0 <= k < i ==> #[trigger] self.mean@[k] == 0,
                forall|k: int| 0 <= k < i ==> #[trigger] self.variance@[k] == SCALE,
            decreases n - i,
        {
            self.mean.set(i, 0);
            self.variance.set(i, SCALE as i128);
            i = i + 1;
        }
        self.count = 0;
    }
}

/// Bounds the sample variance: the accumulator grows by at most `DSQ_MAX`
/// per sample, so dividing by `count - 1` stays within twice that.
proof fn lemma_sample_var_bound(v: int, c: int)
    requires
        2 <= c,
        0 <= v,
        v <= SCALE + c * DSQ_MAX,
    ensures
        0 <= v / (c - 1) <= SCALE + 2 * DSQ_MAX,
{
    vstd::arithmetic::div_mod::lemma_fundamental_div_mod(v, c - 1);
    vstd::arithmetic::div_mod::lemma_mod_bound(v, c - 1);
    vstd::arithmetic::div_mod::lemma_div_pos_is_pos(v, c - 1);
    let q = v / (c - 1);
    assert(q <= SCALE + 2 * DSQ_MAX) by (nonlinear_arith)
        requires
            c >= 2 && q >= 0 && (c - 1) * q <= SCALE + c * DSQ_MAX;
}

} // verus!
