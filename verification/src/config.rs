//! Hyperparameter bundle for the agent, in fixed-point micro-units.
//!
//! Several fields (clip epsilon, entropy and value coefficients, GAE lambda,
//! epoch count, horizon) are carried for completeness but never read by the
//! mutation-based update rule.

use vstd::prelude::*;
use crate::fixed::SCALE;

verus! {

#[derive(Clone, Copy, Debug, PartialEq, Eq, Structural)]
pub enum ActivationFunction {
    ReLU,
    Tanh,
    SiLU,
}

#[derive(Clone, Debug)]
pub struct AgentConfig {
    pub hidden_sizes: Vec<usize>,
    pub activation: ActivationFunction,
    pub learning_rate: i64,
    pub clip_epsilon: i64,
    pub entropy_coef: i64,
    pub value_coef: i64,
    pub gamma: i64,
    pub gae_lambda: i64,
    pub batch_size: usize,
    pub epochs: usize,
    pub horizon: usize,
    pub exploration_noise: i64,
    pub min_exploration: i64,
}

impl AgentConfig {
    /// Ranges every component of the library assumes of a configuration:
    /// rates and coefficients are fractions of one unit, layer widths are
    /// positive and small enough for index arithmetic, and a batch is
    /// never empty.
    pub open spec fn wf(self) -> bool {
        &&& 0 <= self.gamma <= SCALE
        &&& 0 <= self.exploration_noise <= SCALE
        &&& 0 <= self.min_exploration <= SCALE
        &&& 1 <= self.batch_size <= 100000000
        &&& forall|i: int|
            0 <= i < self.hidden_sizes@.len() ==> 1 <= #[trigger] self.hidden_sizes@[i]
                <= 1000000
    }
}

impl Default for AgentConfig {
    /// The stock configuration: two hidden layers, Tanh activation, and the
    /// exploration schedule the trainer decays from.
    fn default() -> (c: AgentConfig)
        ensures
            c.wf(),
            c.hidden_sizes@ == seq![64usize, 32usize],
            c.activation == ActivationFunction::Tanh,
            c.learning_rate == 500,
            c.clip_epsilon == 100000,
            c.entropy_coef == 50000,
            c.value_coef == 500000,
            c.gamma == 980000,
            c.gae_lambda == 950000,
            c.batch_size == 128,
            c.epochs == 10,
            c.horizon == 2048,
            c.exploration_noise == 500000,
            c.min_exploration == 50000,
    {
        let hidden: Vec<usize> = vec![64, 32];
        proof {
            assert(hidden@ =~= seq![64usize, 32usize]);
        }
        AgentConfig {
            hidden_sizes: hidden,
            activation: ActivationFunction::Tanh,
            learning_rate: 500,
            clip_epsilon: 100000,
            entropy_coef: 50000,
            value_coef: 500000,
            gamma: 980000,
            gae_lambda: 950000,
            batch_size: 128,
            epochs: 10,
            horizon: 2048,
            exploration_noise: 500000,
            min_exploration: 50000,
        }
    }
}

} // verus!
