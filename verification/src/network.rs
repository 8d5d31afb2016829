//! Feed-forward network over fixed-point values, with a mutation operator.
//!
//! `weights[layer][input][output]` and `biases[layer][neuron]` mirror the
//! usual dense layout. Each neuron computes its bias plus the scaled dot
//! product of the layer input, saturates the sum at `VAL_LIMIT` (the
//! fixed-point stand-in for the unbounded float range), and applies the
//! activation. ReLU is exact; Tanh is a clamped Pade-style rational
//! approximation that is exactly one unit at three units and beyond; SiLU
//! is `x * sigmoid(x)` written through that Tanh. The forward pass is a
//! pure function of the stored coefficients.

use vstd::prelude::*;
use crate::config::ActivationFunction;
use crate::fixed::{
    SCALE, VAL_LIMIT, tdiv, iabs, clamp_spec, div_trunc, div_trunc_i128, clamp_i64, isqrt_u128,
    sqrt_floor, lemma_tdiv_bounds, lemma_tdiv_exact, lemma_tdiv_quot_bound, lemma_abs_mul_bound,
    lemma_sqrt_floor_bounds,
};
use crate::rng::rand_range;

verus! {

/// Weights are clamped to two units either side of zero, biases to one.
pub const WEIGHT_LIMIT: i64 = 2000000;

pub const BIAS_LIMIT: i64 = 1000000;

/// Largest magnitude of one term of a scaled dot product:
/// `VAL_LIMIT * WEIGHT_LIMIT`.
pub const TERM_LIMIT: i128 = 2000000000000000000;

pub open spec fn int_seq(s: Seq<i64>) -> Seq<int> {
    s.map_values(|x: i64| x as int)
}

/// The He-style initialization scale for a layer with `n` inputs:
/// `sqrt(2 / n)` in fixed point (the literal is `2 * SCALE * SCALE`).
pub open spec fn he_scale_of(n: int) -> int {
    sqrt_floor((2000000000000int / n) as nat) as int
}

/// Saturation applied to every pre-activation sum.
pub open spec fn sat(x: int) -> int {
    clamp_spec(x, -(VAL_LIMIT as int), VAL_LIMIT as int)
}

pub open spec fn relu_fx(x: int) -> int {
    if x >= 0 {
        x
    } else {
        0
    }
}

/// Clamped rational approximation of the hyperbolic tangent, exact in
/// fixed point: `x (27 + x^2) / (27 + 9 x^2)` on whole units, one unit flat
/// beyond three units. The literal below is `27 * SCALE * SCALE`.
pub open spec fn tanh_fx(x: int) -> int {
    if x >= 3 * SCALE {
        SCALE as int
    } else if x <= -3 * SCALE {
        -(SCALE as int)
    } else {
        tdiv(x * (27000000000000 + x * x), 27000000000000 + 9 * (x * x))
    }
}

/// `x * sigmoid(x)`, using `sigmoid(x) = (1 + tanh(x/2)) / 2`.
pub open spec fn silu_fx(x: int) -> int {
    tdiv(x * (SCALE + tanh_fx(tdiv(x, 2))), 2 * SCALE)
}

pub open spec fn act_fx(a: ActivationFunction, x: int) -> int {
    match a {
        ActivationFunction::ReLU => relu_fx(x),
        ActivationFunction::Tanh => tanh_fx(x),
        ActivationFunction::SiLU => silu_fx(x),
    }
}

/// Sum of the first `n` products `input[i] * w[i][j]`.
pub open spec fn dot_prefix(input: Seq<int>, w: Seq<Seq<int>>, j: int, n: int) -> int
    decreases n,
{
    if n <= 0 {
        0
    } else {
        dot_prefix(input, w, j, n - 1) + input[n - 1] * w[n - 1][j]
    }
}

/// One neuron: bias plus scaled dot product, saturated, then activated.
pub open spec fn neuron_out(
    a: ActivationFunction,
    input: Seq<int>,
    w: Seq<Seq<int>>,
    b: int,
    j: int,
) -> int {
    act_fx(a, sat(b + tdiv(dot_prefix(input, w, j, input.len() as int), SCALE as int)))
}

pub open spec fn layer_out(
    a: ActivationFunction,
    input: Seq<int>,
    w: Seq<Seq<int>>,
    b: Seq<int>,
) -> Seq<int> {
    Seq::new(b.len(), |j: int| neuron_out(a, input, w, b[j], j))
}

#[derive(Clone, Debug)]
pub struct NeuralNetwork {
    pub weights: Vec<Vec<Vec<i64>>>,
    pub biases: Vec<Vec<i64>>,
    pub activation: ActivationFunction,
}

impl NeuralNetwork {
    pub open spec fn layer_count(self) -> int {
        self.weights@.len() as int
    }

    /// Layer `l`'s weight matrix as mathematical integers.
    pub open spec fn wmat(self, l: int) -> Seq<Seq<int>> {
        self.weights@[l]@.map_values(|col: Vec<i64>| int_seq(col@))
    }

    /// Layer `l`'s bias vector as mathematical integers.
    pub open spec fn bvec(self, l: int) -> Seq<int> {
        int_seq(self.biases@[l]@)
    }

    pub open spec fn in_dim(self) -> int {
        self.wmat(0).len() as int
    }

    pub open spec fn out_dim(self) -> int {
        self.bvec(self.layer_count() - 1).len() as int
    }

    /// Width of the value vector entering layer `l`.
    pub open spec fn dim_at(self, l: int) -> int {
        if l == 0 {
            self.in_dim()
        } else {
            self.bvec(l - 1).len() as int
        }
    }

    /// Consecutive layers agree on their widths and every coefficient is
    /// within its clamp bound.
    pub open spec fn wf(self) -> bool {
        &&& self.layer_count() >= 1
        &&& self.biases@.len() == self.weights@.len()
        &&& forall|l: int| 0 <= l < self.layer_count() ==> #[trigger] self.wmat(l).len() >= 1
        &&& forall|l: int| 0 <= l < self.layer_count() ==> #[trigger] self.bvec(l).len() >= 1
        &&& forall|l: int, i: int|
            0 <= l < self.layer_count() && 0 <= i < self.wmat(l).len() ==> (
            #[trigger] self.wmat(l)[i]).len() == self.bvec(l).len()
        &&& forall|l: int|
            0 < l < self.layer_count() ==> #[trigger] self.wmat(l).len() == self.bvec(l - 1).len()
        &&& forall|l: int, i: int, j: int|
            0 <= l < self.layer_count() && 0 <= i < self.wmat(l).len() && 0 <= j < self.bvec(
                l,
            ).len() ==> iabs(#[trigger] self.wmat(l)[i][j]) <= WEIGHT_LIMIT
        &&& forall|l: int, j: int|
            0 <= l < self.layer_count() && 0 <= j < self.bvec(l).len() ==> iabs(
                #[trigger] self.bvec(l)[j],
            ) <= BIAS_LIMIT
    }

    /// The value vector after the first `l` layers.
    pub open spec fn forward_upto(self, input: Seq<int>, l: int) -> Seq<int>
        decreases l,
    {
        if l <= 0 {
            input
        } else {
            layer_out(
                self.activation,
                self.forward_upto(input, l - 1),
                self.wmat(l - 1),
                self.bvec(l - 1),
            )
        }
    }

    /// The whole pass: what `forward` returns.
    pub open spec fn forward_spec(self, input: Seq<int>) -> Seq<int> {
        self.forward_upto(input, self.layer_count())
    }

    /// All weight matrices as mathematical integers, layer by layer.
    pub open spec fn weights_model(self) -> Seq<Seq<Seq<int>>> {
        Seq::new(self.layer_count() as nat, |l: int| self.wmat(l))
    }

    /// All bias vectors as mathematical integers, layer by layer.
    pub open spec fn biases_model(self) -> Seq<Seq<int>> {
        Seq::new(self.layer_count() as nat, |l: int| self.bvec(l))
    }

    /// Two networks of one shape, entry for entry no further apart than `d`.
    pub open spec fn within_of(self, other: NeuralNetwork, d: int) -> bool {
        &&& self.layer_count() == other.layer_count()
        &&& self.activation == other.activation
        &&& forall|l: int| 0 <= l < self.layer_count() ==> #[trigger] self.wmat(l).len() == other.wmat(l).len()
        &&& forall|l: int| 0 <= l < self.layer_count() ==> #[trigger] self.bvec(l).len() == other.bvec(l).len()
        &&& forall|l: int, i: int, j: int|
            0 <= l < self.layer_count() && 0 <= i < self.wmat(l).len() && 0 <= j < self.bvec(
                l,
            ).len() ==> iabs(#[trigger] self.wmat(l)[i][j] - other.wmat(l)[i][j]) <= d
        &&& forall|l: int, j: int|
            0 <= l < self.layer_count() && 0 <= j < self.bvec(l).len() ==> iabs(
                #[trigger] self.bvec(l)[j] - other.bvec(l)[j],
            ) <= d
    }

    /// Freshly initialized coefficients: each weight of layer `l` lies
    /// within the He-style scale `sqrt(2 / layer_sizes[l])`, each bias
    /// within a tenth of a unit. The draws themselves are random; shape
    /// and these ranges are all that is promised.
    pub fn new(
        layer_sizes: &Vec<usize>,
        activation: ActivationFunction,
        rng: &mut rand::rngs::StdRng,
    ) -> (r: NeuralNetwork)
        requires
            layer_sizes@.len() >= 2,
            forall|k: int|
                0 <= k < layer_sizes@.len() ==> 1 <= #[trigger] layer_sizes@[k] <= 1000000,
        ensures
            r.wf(),
            r.activation == activation,
            r.layer_count() == layer_sizes@.len() - 1,
            forall|l: int|
                0 <= l < r.layer_count() ==> #[trigger] r.wmat(l).len() == layer_sizes@[l],
            forall|l: int|
                0 <= l < r.layer_count() ==> #[trigger] r.bvec(l).len() == layer_sizes@[l + 1],
            forall|l: int, i: int, j: int|
                0 <= l < r.layer_count() && 0 <= i < r.wmat(l).len() && 0 <= j < r.bvec(l).len()
                    ==> iabs(#[trigger] r.wmat(l)[i][j]) <= he_scale_of(layer_sizes@[l] as int),
            forall|l: int, j: int|
                0 <= l < r.layer_count() && 0 <= j < r.bvec(l).len() ==> iabs(
                    #[trigger] r.bvec(l)[j],
                ) <= 100000,
    {
        let mut weights: Vec<Vec<Vec<i64>>> = Vec::new();
        let mut biases: Vec<Vec<i64>> = Vec::new();
        let layer_total = layer_sizes.len() - 1;
        let mut l: usize = 0;
        while l < layer_total
            invariant
                layer_total == layer_sizes@.len() - 1,
                layer_sizes@.len() >= 2,
                forall|k: int|
                    0 <= k < layer_sizes@.len() ==> 1 <= #[trigger] layer_sizes@[k] <= 1000000,
                l <= layer_total,
                weights@.len() == l,
                biases@.len() == l,
                forall|m: int|
                    0 <= m < l ==> (#[trigger] weights@[m])@.len() == layer_sizes@[m],
                forall|m: int|
                    0 <= m < l ==> (#[trigger] biases@[m])@.len() == layer_sizes@[m + 1],
                forall|m: int, i: int|
                    0 <= m < l && 0 <= i < weights@[m]@.len() ==> ((#[trigger] weights@[m]@[i])@).len()
                        == layer_sizes@[m + 1],
                forall|m: int, i: int, j: int|
                    0 <= m < l && 0 <= i < weights@[m]@.len() && 0 <= j < weights@[m]@[i]@.len()
                        ==> iabs(#[trigger] weights@[m]@[i]@[j] as int) <= WEIGHT_LIMIT,
                forall|m: int, i: int, j: int|
                    0 <= m < l && 0 <= i < weights@[m]@.len() && 0 <= j < weights@[m]@[i]@.len()
                        ==> iabs(#[trigger] weights@[m]@[i]@[j] as int) <= he_scale_of(
                        layer_sizes@[m] as int,
                    ),
                forall|m: int, j: int|
                    0 <= m < l && 0 <= j < biases@[m]@.len() ==> iabs(
                        #[trigger] biases@[m]@[j] as int,
                    ) <= 100000,
            decreases layer_total - l,
        {
            let input_size = layer_sizes[l];
            let output_size = layer_sizes[l + 1];
            // 2 * SCALE * SCALE: two whole units in squared micro-units
            let he_num: u128 = 2000000000000;
            let he_scale_u = isqrt_u128(he_num / (input_size as u128));
            proof {
                lemma_sqrt_floor_bounds((he_num / (input_size as u128)) as nat);
                assert(he_scale_u as int <= 1414213int) by (nonlinear_arith)
                    requires
                        he_scale_u as int * he_scale_u as int <= 2000000000000int
                            && he_scale_u as int >= 0;
                assert(he_scale_u as int == he_scale_of(layer_sizes@[l as int] as int));
            }
            let he_scale = he_scale_u as i64;
            let mut layer_weights: Vec<Vec<i64>> = Vec::new();
            let mut i: usize = 0;
            while i < input_size
                invariant
                    i <= input_size,
                    layer_weights@.len() == i,
                    0 <= he_scale <= 1414213,
                    he_scale as int == he_scale_of(layer_sizes@[l as int] as int),
                    0 <= l < layer_sizes@.len(),
                    1 <= output_size <= 1000000,
                    forall|a: int|
                        0 <= a < i ==> (#[trigger] layer_weights@[a])@.len() == output_size,
                    forall|a: int, b: int|
                        0 <= a < i && 0 <= b < layer_weights@[a]@.len() ==> iabs(
                            #[trigger] layer_weights@[a]@[b] as int,
                        ) <= he_scale,
                decreases input_size - i,
            {
                let mut row: Vec<i64> = Vec::new();
                let mut j: usize = 0;
                while j < output_size
                    invariant
                        j <= output_size,
                        row@.len() == j,
                        0 <= he_scale <= 1414213,
                        forall|b: int|
                            0 <= b < j ==> iabs(#[trigger] row@[b] as int) <= he_scale,
                    decreases output_size - j,
                {
                    let draw = rand_range(rng, -SCALE, SCALE);
                    proof {
                        lemma_abs_mul_bound(
                            draw as int,
                            he_scale as int,
                            SCALE as int,
                            he_scale as int,
                        );
                        crate::fixed::lemma_mul_comm(SCALE as int, he_scale as int);
                        lemma_tdiv_quot_bound(
                            draw as int * he_scale as int,
                            SCALE as int,
                            he_scale as int,
                        );
                    }
                    let w128 = div_trunc_i128(
                        (draw as i128) * (he_scale as i128),
                        SCALE as i128,
                    );
                    row.push(w128 as i64);
                    j = j + 1;
                }
                layer_weights.push(row);
                i = i + 1;
            }
            let mut layer_biases: Vec<i64> = Vec::new();
            let mut j: usize = 0;
            while j < output_size
                invariant
                    j <= output_size,
                    layer_biases@.len() == j,
                    forall|b: int|
                        0 <= b < j ==> iabs(#[trigger] layer_biases@[b] as int) <= 100000,
                decreases output_size - j,
            {
                layer_biases.push(rand_range(rng, -100000, 100000));
                j = j + 1;
            }
            weights.push(layer_weights);
            biases.push(layer_biases);
            l = l + 1;
        }
        let r = NeuralNetwork { weights, biases, activation };
        proof {
            assert forall|ll: int| 0 <= ll < r.layer_count() implies #[trigger] r.wmat(ll).len()
                == layer_sizes@[ll] by {
                assert(r.wmat(ll).len() == r.weights@[ll]@.len());
            }
            assert forall|ll: int| 0 <= ll < r.layer_count() implies #[trigger] r.bvec(ll).len()
                == layer_sizes@[ll + 1] by {
                assert(r.bvec(ll).len() == r.biases@[ll]@.len());
            }
        }
        r
    }

    /// The activation applied to a saturated pre-activation value.
    fn activate(&self, x: i64) -> (r: i64)
        requires
            iabs(x as int) <= VAL_LIMIT,
        ensures
            r as int == act_fx(self.activation, x as int),
            iabs(r as int) <= VAL_LIMIT,
    {
        match self.activation {
            ActivationFunction::ReLU => {
                if x >= 0 {
                    x
                } else {
                    0
                }
            },
            ActivationFunction::Tanh => {
                proof {
                    lemma_tanh_bound(x as int);
                }
                tanh_exec(x)
            },
            ActivationFunction::SiLU => {
                proof {
                    lemma_tdiv_bounds(x as int, 2);
                }
                let half = div_trunc(x, 2);
                let t = tanh_exec(half);
                proof {
                    lemma_abs_mul_bound(x as int, SCALE as int + t as int, VAL_LIMIT as int, 2
                        * SCALE as int);
                    lemma_tdiv_quot_bound(
                        x as int * (SCALE as int + t as int),
                        2 * SCALE as int,
                        VAL_LIMIT as int,
                    );
                }
                let num: i128 = (x as i128) * ((SCALE + t) as i128);
                let q = div_trunc_i128(num, (2 * SCALE) as i128);
                q as i64
            },
        }
    }

    /// The forward pass: exactly `forward_spec`, a pure function of the
    /// coefficients and the input.
    pub fn forward(&self, input: &Vec<i64>) -> (r: Vec<i64>)
        requires
            self.wf(),
            input@.len() == self.in_dim(),
            forall|i: int| 0 <= i < input@.len() ==> iabs(#[trigger] input@[i] as int) <= VAL_LIMIT,
        ensures
            r@.len() == self.out_dim(),
            int_seq(r@) == self.forward_spec(int_seq(input@)),
            forall|i: int| 0 <= i < r@.len() ==> iabs(#[trigger] r@[i] as int) <= VAL_LIMIT,
    {
        let ghost input_s = int_seq(input@);
        let mut cur: Vec<i64> = crate::fixed::copy_vec_i64(input);
        let layer_total = self.weights.len();
        let mut l: usize = 0;
        proof {
            assert(int_seq(cur@) =~= self.forward_upto(input_s, 0));
        }
        while l < layer_total
            invariant
                self.wf(),
                layer_total == self.layer_count(),
                l <= layer_total,
                input_s.len() == self.in_dim(),
                cur@.len() == self.dim_at(l as int),
                int_seq(cur@) == self.forward_upto(input_s, l as int),
                forall|i: int| 0 <= i < cur@.len() ==> iabs(#[trigger] cur@[i] as int) <= VAL_LIMIT,
            decreases layer_total - l,
        {
            let ghost cur_s = int_seq(cur@);
            let ghost wm = self.wmat(l as int);
            let ghost bv = self.bvec(l as int);
            let width = self.biases[l].len();
            let rows = cur.len();
            proof {
                assert(wm.len() == self.dim_at(l as int));
            }
            let mut next: Vec<i64> = Vec::new();
            let mut j: usize = 0;
            while j < width
                invariant
                    self.wf(),
                    0 <= l < self.layer_count(),
                    width == bv.len(),
                    rows == cur@.len(),
                    rows == wm.len(),
                    wm == self.wmat(l as int),
                    bv == self.bvec(l as int),
                    cur_s == int_seq(cur@),
                    j <= width,
                    next@.len() == j,
                    forall|k: int| 0 <= k < cur@.len() ==> iabs(#[trigger] cur@[k] as int) <= VAL_LIMIT,
                    forall|k: int|
                        0 <= k < j ==> #[trigger] next@[k] as int == neuron_out(
                            self.activation,
                            cur_s,
                            wm,
                            bv[k],
                            k,
                        ),
                    forall|k: int| 0 <= k < j ==> iabs(#[trigger] next@[k] as int) <= VAL_LIMIT,
                decreases width - j,
            {
                let mut acc: i128 = 0;
                let mut i: usize = 0;
                while i < rows
                    invariant
                        self.wf(),
                        0 <= l < self.layer_count(),
                        0 <= j < bv.len(),
                        rows == cur@.len(),
                        rows == wm.len(),
                        wm == self.wmat(l as int),
                        bv == self.bvec(l as int),
                        cur_s == int_seq(cur@),
                        forall|k: int| 0 <= k < cur@.len() ==> iabs(#[trigger] cur@[k] as int) <= VAL_LIMIT,
                        i <= rows,
                        acc as int == dot_prefix(cur_s, wm, j as int, i as int),
                        iabs(acc as int) <= i as int * TERM_LIMIT,
                    decreases rows - i,
                {
                    proof {
                        assert(wm[i as int] == int_seq(self.weights@[l as int]@[i as int]@));
                        lemma_abs_mul_bound(
                            cur@[i as int] as int,
                            wm[i as int][j as int],
                            VAL_LIMIT as int,
                            WEIGHT_LIMIT as int,
                        );
                        assert((i + 1) as int * TERM_LIMIT == i as int * TERM_LIMIT + TERM_LIMIT);
                        vstd::arithmetic::mul::lemma_mul_inequality(
                            (i + 1) as int,
                            0x10000000000000000int,
                            TERM_LIMIT as int,
                        );
                    }
                    let term: i128 = (cur[i] as i128) * (self.weights[l][i][j] as i128);
                    acc = acc + term;
                    i = i + 1;
                }
                proof {
                    vstd::arithmetic::mul::lemma_mul_inequality(
                        rows as int,
                        0x10000000000000000int,
                        TERM_LIMIT as int,
                    );
                    lemma_tdiv_bounds(acc as int, SCALE as int);
                }
                let scaled = div_trunc_i128(acc, SCALE as i128);
                let pre: i128 = (self.biases[l][j] as i128) + scaled;
                let pre_sat: i64 = if pre > VAL_LIMIT as i128 {
                    VAL_LIMIT
                } else if pre < -(VAL_LIMIT as i128) {
                    -VAL_LIMIT
                } else {
                    pre as i64
                };
                proof {
                    assert(pre_sat as int == sat(
                        bv[j as int] + tdiv(dot_prefix(cur_s, wm, j as int, cur_s.len() as int), SCALE as int),
                    ));
                }
                let out = self.activate(pre_sat);
                next.push(out);
                j = j + 1;
            }
            proof {
                assert(int_seq(next@) =~= layer_out(self.activation, cur_s, wm, bv));
                assert(int_seq(next@) == self.forward_upto(input_s, l as int + 1));
            }
            cur = next;
            l = l + 1;
        }
        cur
    }

    /// An independent copy in which each coefficient has, with probability
    /// `mutation_rate`, a perturbation of at most `mutation_strength` added,
    /// and is then clamped to its limit; a zero rate copies the network
    /// unchanged, entry for entry.
    pub fn copy_with_mutation(
        &self,
        mutation_rate: i64,
        mutation_strength: i64,
        rng: &mut rand::rngs::StdRng,
    ) -> (r: NeuralNetwork)
        requires
            self.wf(),
            0 <= mutation_rate <= SCALE,
            0 <= mutation_strength <= SCALE,
        ensures
            r.wf(),
            r.within_of(*self, mutation_strength as int),
            mutation_rate == 0 ==> r.weights_model() == self.weights_model()
                && r.biases_model() == self.biases_model() && r.activation == self.activation,
    {
        let mut new_weights: Vec<Vec<Vec<i64>>> = Vec::new();
        let mut new_biases: Vec<Vec<i64>> = Vec::new();
        let layer_total = self.weights.len();
        let mut l: usize = 0;
        while l < layer_total
            invariant
                self.wf(),
                0 <= mutation_rate <= SCALE,
                0 <= mutation_strength <= SCALE,
                layer_total == self.layer_count(),
                l <= layer_total,
                new_weights@.len() == l,
                new_biases@.len() == l,
                forall|m: int|
                    0 <= m < l ==> (#[trigger] new_weights@[m])@.len() == self.wmat(m).len(),
                forall|m: int, i: int|
                    0 <= m < l && 0 <= i < new_weights@[m]@.len() ==> ((
                    #[trigger] new_weights@[m]@[i])@).len() == self.bvec(m).len(),
                forall|m: int|
                    0 <= m < l ==> (#[trigger] new_biases@[m])@.len() == self.bvec(m).len(),
                forall|m: int, i: int, j: int|
                    0 <= m < l && 0 <= i < new_weights@[m]@.len() && 0 <= j
                        < new_weights@[m]@[i]@.len() ==> iabs(
                        #[trigger] new_weights@[m]@[i]@[j] as int,
                    ) <= WEIGHT_LIMIT,
                forall|m: int, j: int|
                    0 <= m < l && 0 <= j < new_biases@[m]@.len() ==> iabs(
                        #[trigger] new_biases@[m]@[j] as int,
                    ) <= BIAS_LIMIT,
                forall|m: int, i: int, j: int|
                    0 <= m < l && 0 <= i < new_weights@[m]@.len() && 0 <= j
                        < new_weights@[m]@[i]@.len() ==> iabs(
                        #[trigger] new_weights@[m]@[i]@[j] as int - self.wmat(m)[i][j],
                    ) <= mutation_strength,
                forall|m: int, j: int|
                    0 <= m < l && 0 <= j < new_biases@[m]@.len() ==> iabs(
                        #[trigger] new_biases@[m]@[j] as int - self.bvec(m)[j],
                    ) <= mutation_strength,
                mutation_rate == 0 ==> forall|m: int, i: int, j: int|
                    0 <= m < l && 0 <= i < new_weights@[m]@.len() && 0 <= j
                        < new_weights@[m]@[i]@.len() ==> #[trigger] new_weights@[m]@[i]@[j] as int
                        == self.wmat(m)[i][j],
                mutation_rate == 0 ==> forall|m: int, j: int|
                    0 <= m < l && 0 <= j < new_biases@[m]@.len() ==> #[trigger] new_biases@[m]@[j] as int
                        == self.bvec(m)[j],
            decreases layer_total - l,
        {
            let rows = self.weights[l].len();
            let mut layer_w: Vec<Vec<i64>> = Vec::new();
            let mut i: usize = 0;
            while i < rows
                invariant
                    self.wf(),
                    0 <= mutation_rate <= SCALE,
                    0 <= mutation_strength <= SCALE,
                    0 <= l < self.layer_count(),
                    rows == self.wmat(l as int).len(),
                    i <= rows,
                    layer_w@.len() == i,
                    forall|a: int|
                        0 <= a < i ==> (#[trigger] layer_w@[a])@.len() == self.bvec(l as int).len(),
                    forall|a: int, b: int|
                        0 <= a < i && 0 <= b < layer_w@[a]@.len() ==> iabs(
                            #[trigger] layer_w@[a]@[b] as int,
                        ) <= WEIGHT_LIMIT,
                    forall|a: int, b: int|
                        0 <= a < i && 0 <= b < layer_w@[a]@.len() ==> iabs(
                            #[trigger] layer_w@[a]@[b] as int - self.wmat(l as int)[a][b],
                        ) <= mutation_strength,
                    mutation_rate == 0 ==> forall|a: int, b: int|
                        0 <= a < i && 0 <= b < layer_w@[a]@.len() ==> #[trigger] layer_w@[a]@[b] as int
                            == self.wmat(l as int)[a][b],
                decreases rows - i,
            {
                let width = self.weights[l][i].len();
                proof {
                    assert(self.wmat(l as int)[i as int] == int_seq(self.weights@[l as int]@[i as int]@));
                }
                let mut row: Vec<i64> = Vec::new();
                let mut j: usize = 0;
                while j < width
                    invariant
                        self.wf(),
                        0 <= mutation_rate <= SCALE,
                        0 <= mutation_strength <= SCALE,
                        0 <= l < self.layer_count(),
                        0 <= i < self.wmat(l as int).len(),
                        width == self.wmat(l as int)[i as int].len(),
                        j <= width,
                        row@.len() == j,
                        forall|b: int|
                            0 <= b < j ==> iabs(#[trigger] row@[b] as int) <= WEIGHT_LIMIT,
                        forall|b: int|
                            0 <= b < j ==> iabs(
                                #[trigger] row@[b] as int - self.wmat(l as int)[i as int][b],
                            ) <= mutation_strength,
                        mutation_rate == 0 ==> forall|b: int|
                            0 <= b < j ==> #[trigger] row@[b] as int == self.wmat(l as int)[i as int][b],
                    decreases width - j,
                {
                    let w = self.weights[l][i][j];
                    proof {
                        assert(self.wmat(l as int)[i as int] == int_seq(
                            self.weights@[l as int]@[i as int]@,
                        ));
                        assert(w as int == self.wmat(l as int)[i as int][j as int]);
                        assert(iabs(self.wmat(l as int)[i as int][j as int]) <= WEIGHT_LIMIT);
                    }
                    let nw = mutate_entry(w, mutation_rate, mutation_strength, -WEIGHT_LIMIT, WEIGHT_LIMIT, rng);
                    row.push(nw);
                    j = j + 1;
                }
                layer_w.push(row);
                i = i + 1;
            }
            let width = self.biases[l].len();
            let mut layer_b: Vec<i64> = Vec::new();
            let mut j: usize = 0;
            while j < width
                invariant
                    self.wf(),
                    0 <= mutation_rate <= SCALE,
                    0 <= mutation_strength <= SCALE,
                    0 <= l < self.layer_count(),
                    width == self.bvec(l as int).len(),
                    j <= width,
                    layer_b@.len() == j,
                    forall|b: int| 0 <= b < j ==> iabs(#[trigger] layer_b@[b] as int) <= BIAS_LIMIT,
                    forall|b: int|
                        0 <= b < j ==> iabs(#[trigger] layer_b@[b] as int - self.bvec(l as int)[b])
                            <= mutation_strength,
                    mutation_rate == 0 ==> forall|b: int|
                        0 <= b < j ==> #[trigger] layer_b@[b] as int == self.bvec(l as int)[b],
                decreases width - j,
            {
                let b = self.biases[l][j];
                proof {
                    assert(b as int == self.bvec(l as int)[j as int]);
                    assert(iabs(self.bvec(l as int)[j as int]) <= BIAS_LIMIT);
                }
                let nb = mutate_entry(b, mutation_rate, mutation_strength, -BIAS_LIMIT, BIAS_LIMIT, rng);
                layer_b.push(nb);
                j = j + 1;
            }
            new_weights.push(layer_w);
            new_biases.push(layer_b);
            l = l + 1;
        }
        let r = NeuralNetwork { weights: new_weights, biases: new_biases, activation: self.activation };
        proof {
            if mutation_rate == 0 {
                assert(r.weights_model() =~~= self.weights_model());
                assert(r.biases_model() =~~= self.biases_model());
            }
        }
        r
    }
}

/// One coefficient of a mutated copy: perturbed with probability
/// `rate / SCALE` by up to `strength` either way, then clamped to
/// `[lo, hi]`; left exactly alone otherwise.
fn mutate_entry(
    w: i64,
    rate: i64,
    strength: i64,
    lo: i64,
    hi: i64,
    rng: &mut rand::rngs::StdRng,
) -> (r: i64)
    requires
        0 <= rate <= SCALE,
        0 <= strength <= SCALE,
        lo <= w <= hi,
        -WEIGHT_LIMIT <= lo < hi <= WEIGHT_LIMIT,
    ensures
        lo <= r <= hi,
        iabs(r as int - w as int) <= strength,
        rate == 0 ==> r == w,
{
    let draw = rand_range(rng, 0, SCALE);
    if draw < rate {
        let noise = rand_range(rng, -SCALE, SCALE);
        proof {
            lemma_abs_mul_bound(noise as int, strength as int, SCALE as int, strength as int);
            lemma_tdiv_quot_bound(noise as int * strength as int, SCALE as int, strength as int);
        }
        let p128 = div_trunc_i128((noise as i128) * (strength as i128), SCALE as i128);
        let p = p128 as i64;
        clamp_i64(w + p, lo, hi)
    } else {
        w
    }
}

fn tanh_exec(x: i64) -> (r: i64)
    requires
        iabs(x as int) <= VAL_LIMIT,
    ensures
        r as int == tanh_fx(x as int),
        iabs(r as int) <= SCALE,
{
    proof {
        lemma_tanh_bound(x as int);
    }
    if x >= 3 * SCALE {
        SCALE
    } else if x <= -(3 * SCALE) {
        -SCALE
    } else {
        let xi = x as i128;
        proof {
            assert(x as int * x as int >= 0) by (nonlinear_arith);
            lemma_abs_mul_bound(x as int, x as int, 3000000, 3000000);
        }
        let sq: i128 = xi * xi;
        proof {
            lemma_abs_mul_bound(x as int, 27000000000000 + sq as int, 3000000, 36000000000000int);
        }
        let num: i128 = xi * (27000000000000 + sq);
        let den: i128 = 27000000000000 + 9 * sq;
        let q = div_trunc_i128(num, den);
        proof {
            assert(q == tanh_fx(x as int));
        }
        q as i64
    }
}

/// The clamped rational tanh stays within one unit either side of zero.
pub proof fn lemma_tanh_bound(x: int)
    ensures
        iabs(tanh_fx(x)) <= SCALE,
{
    if x >= 3 * SCALE {
    } else if x <= -3 * SCALE {
    } else {
        let num = x * (27000000000000 + x * x);
        let den = 27000000000000 + 9 * (x * x);
        assert(x * x >= 0) by (nonlinear_arith);
        assert(1000000 * (27000000000000 + 9 * (x * x)) - x * (27000000000000 + x * x) == (3000000
            - x) * (3000000 - x) * (3000000 - x)) by (nonlinear_arith);
        assert(1000000 * (27000000000000 + 9 * (x * x)) + x * (27000000000000 + x * x) == (3000000
            + x) * (3000000 + x) * (3000000 + x)) by (nonlinear_arith);
        assert((3000000 - x) * (3000000 - x) * (3000000 - x) >= 0) by (nonlinear_arith)
            requires
                3000000 - x >= 0;
        assert((3000000 + x) * (3000000 + x) * (3000000 + x) >= 0) by (nonlinear_arith)
            requires
                3000000 + x >= 0;
        assert(iabs(num) <= 1000000 * den);
        lemma_tdiv_quot_bound(num, den, 1000000);
    }
}

/// A single-layer, single-unit ReLU network with unit weight and zero
/// bias computes exactly `max(0, x)`, for every input in range.
pub proof fn lemma_relu_unit_forward(net: NeuralNetwork, x: int)
    requires
        net.wf(),
        net.layer_count() == 1,
        net.in_dim() == 1,
        net.out_dim() == 1,
        net.activation == ActivationFunction::ReLU,
        net.wmat(0)[0][0] == SCALE,
        net.bvec(0)[0] == 0,
        iabs(x) <= VAL_LIMIT,
    ensures
        net.forward_spec(seq![x]) == seq![relu_fx(x)],
{
    let input = seq![x];
    let wm = net.wmat(0);
    let bv = net.bvec(0);
    assert(dot_prefix(input, wm, 0, 0) == 0);
    assert(dot_prefix(input, wm, 0, 1) == x * SCALE);
    lemma_tdiv_exact(x, SCALE as int);
    assert(tdiv(dot_prefix(input, wm, 0, 1), SCALE as int) == x);
    assert(sat(x) == x);
    assert(neuron_out(net.activation, input, wm, 0, 0) == relu_fx(x));
    assert(net.forward_upto(input, 0) == input);
    assert(net.forward_spec(input) =~= seq![relu_fx(x)]);
}

} // verus!
