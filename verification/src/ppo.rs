//! The agent: one policy network, one value network, the normalizer, the
//! replay buffer, exploration-noise state and the training policy.
//!
//! Training is mutation-based: a sampled batch's reward statistics select
//! one of four perturbation tiers, the policy network is replaced by a
//! mutated copy, and exploration noise decays. The reward function is a
//! pure piecewise mapping from vehicle statistics to a fixed-point scalar,
//! with every threshold an exact contract value.

use vstd::prelude::*;
use crate::config::AgentConfig;
use crate::fixed::{
    SCALE, VAL_LIMIT, tdiv, iabs, clamp_spec, div_trunc, div_trunc_i128, clamp_i64,
    lemma_tdiv_quot_bound, lemma_abs_mul_bound,
};
use crate::memory::{ReplayBuffer, Transition, TransitionModel, models};
use crate::network::{NeuralNetwork, int_seq};
use crate::normalizer::{RunningNormalizer, normalized_value, mean_step, acc_step};
use crate::rng::rand_range;

verus! {

/// Magnitude bound on every reward the agent produces or stores.
pub const REWARD_LIMIT: i64 = 20000000000000;

/// Episode phase as the simulation reports it.
#[derive(Clone, Copy, Debug, PartialEq, Eq, Structural)]
pub enum GameState {
    Playing,
    Crashed,
    Landed,
    Restarting,
}

/// The vehicle statistics the reward function reads, in micro-units; the
/// angle is in micro-degrees.
#[derive(Clone, Copy, Debug)]
pub struct RocketStats {
    pub altitude: i64,
    pub vertical_speed: i64,
    pub horizontal_speed: i64,
    pub angle_deg: i64,
    pub fuel_percentage: i64,
    pub distance_to_target: i64,
    pub landing_score: i64,
}

pub open spec fn stats_bounded(s: RocketStats) -> bool {
    &&& iabs(s.altitude as int) <= VAL_LIMIT
    &&& iabs(s.vertical_speed as int) <= VAL_LIMIT
    &&& iabs(s.horizontal_speed as int) <= VAL_LIMIT
    &&& iabs(s.angle_deg as int) <= VAL_LIMIT
    &&& iabs(s.fuel_percentage as int) <= VAL_LIMIT
    &&& iabs(s.distance_to_target as int) <= VAL_LIMIT
    &&& iabs(s.landing_score as int) <= VAL_LIMIT
}

/// How far the vehicle leans from upright (ninety degrees).
pub open spec fn angle_deviation(angle_deg: int) -> int {
    iabs(iabs(angle_deg) - 90 * SCALE)
}

/// The reward, piecewise by phase. Landed pays a large bonus plus ten times
/// the landing score; Crashed charges for tilt, speed and distance;
/// Playing shapes angle, speed, position, descent and fuel per tick.
pub open spec fn reward_spec(s: RocketStats, g: GameState) -> int {
    match g {
        GameState::Landed => 1000 * SCALE + 10 * s.landing_score,
        GameState::Crashed => {
            let base = -100 * SCALE - 2 * angle_deviation(s.angle_deg as int) - 3 * iabs(
                s.vertical_speed as int,
            ) - 2 * iabs(s.horizontal_speed as int);
            if s.distance_to_target > 50 * SCALE {
                base - 20 * SCALE
            } else {
                base
            }
        },
        GameState::Playing => {
            let dev = angle_deviation(s.angle_deg as int);
            let angle_part: int = if dev <= 9 * SCALE {
                10 * SCALE
            } else if dev <= 30 * SCALE {
                2 * SCALE
            } else {
                -5 * SCALE
            };
            let speed_part: int = if iabs(s.vertical_speed as int) < 10 * SCALE {
                5 * SCALE
            } else if iabs(s.vertical_speed as int) < 30 * SCALE {
                1 * SCALE
            } else if s.vertical_speed > 50 * SCALE {
                -3 * SCALE
            } else {
                0
            };
            let position_part: int = if dev <= 30 * SCALE && iabs(s.vertical_speed as int) < 50
                * SCALE {
                if s.distance_to_target < 40 * SCALE {
                    5 * SCALE
                } else if s.distance_to_target < 100 * SCALE {
                    1 * SCALE
                } else {
                    0
                }
            } else {
                0
            };
            let descent_part: int = if s.altitude < 100 * SCALE && s.vertical_speed < 0 {
                2 * SCALE
            } else {
                0
            };
            let fuel_part: int = tdiv(s.fuel_percentage as int, 2);
            -100000 + angle_part + speed_part + position_part + descent_part + fuel_part
        },
        GameState::Restarting => 0,
    }
}

/// Saturation of a normalized observation before it enters the network.
pub open spec fn clamp_cap(x: int) -> int {
    clamp_spec(x, -(VAL_LIMIT as int), VAL_LIMIT as int)
}

/// The vector the policy network reads for `state`, given the normalizer as
/// it stands after folding that state in.
pub open spec fn policy_input(n: RunningNormalizer, state: Seq<int>) -> Seq<int> {
    Seq::new(
        state.len(),
        |i: int|
            if n.count < 2 {
                clamp_cap(state[i])
            } else {
                clamp_cap(
                    normalized_value(
                        state[i],
                        n.mean@[i] as int,
                        n.variance@[i] as int,
                        n.count as int,
                        n.epsilon as int,
                    ),
                )
            },
    )
}

/// Perturbation size of each training tier, smallest for the best batches.
pub open spec fn tier_strength(t: int) -> int {
    if t == 0 {
        5000
    } else if t == 1 {
        10000
    } else if t == 2 {
        50000
    } else {
        100000
    }
}

/// The summed reward of a batch.
pub open spec fn sum_rewards(b: Seq<TransitionModel>) -> int
    decreases b.len(),
{
    if b.len() == 0 {
        0
    } else {
        sum_rewards(b.drop_last()) + b.last().reward
    }
}

/// How many of a batch's rewards exceed five units.
pub open spec fn count_high(b: Seq<TransitionModel>) -> int
    decreases b.len(),
{
    if b.len() == 0 {
        0
    } else {
        count_high(b.drop_last()) + if b.last().reward > 5 * SCALE {
            1int
        } else {
            0int
        }
    }
}

/// The mutation tier a batch selects, tested in order: high-reward rate
/// above thirty percent, above ten percent, positive average reward, else
/// the aggressive tier.
pub open spec fn batch_tier(b: Seq<TransitionModel>) -> int {
    if 10 * count_high(b) > 3 * b.len() {
        0
    } else if 10 * count_high(b) > b.len() {
        1
    } else if sum_rewards(b) > 0 {
        2
    } else {
        3
    }
}

/// The buffer law of one training step on batch `b`: flushed exactly when
/// it was full and the batch averaged positive, kept whole otherwise.
pub open spec fn flushed(pre: ReplayBuffer, post: ReplayBuffer, b: Seq<TransitionModel>) -> bool {
    let cleared = pre.contents().len() == pre.capacity && sum_rewards(b) > 0;
    &&& post.capacity == pre.capacity
    &&& post.contents() == if cleared {
        Seq::<TransitionModel>::empty()
    } else {
        pre.contents()
    }
}

/// Exploration bumped by thirty percent, capped at four fifths of a unit.
pub open spec fn boost_noise(x: int) -> int {
    let b = tdiv(x * 13, 10);
    if b < 800000 {
        b
    } else {
        800000
    }
}

/// Exploration decayed by a tenth of a percent, floored at `floor`.
pub open spec fn decay_noise(x: int, floor: int) -> int {
    let d = tdiv(x * 999, 1000);
    if d > floor {
        d
    } else {
        floor
    }
}

/// What one training step did, in terms of the batch `b` it sampled: `b`
/// is a batch-sized selection of stored transitions; its statistics pick
/// the tier that bounds the policy mutation and decides the noise boost,
/// and the buffer is flushed exactly when it was full and `b` averaged
/// positive.
pub open spec fn trained_step(pre: PPOAgent, post: PPOAgent, b: Seq<TransitionModel>) -> bool {
    &&& b.len() == pre.config.batch_size
    &&& b.to_multiset().subset_of(pre.memory.contents().to_multiset())
    &&& post.policy_net.within_of(pre.policy_net, tier_strength(batch_tier(b)))
    &&& post.exploration_noise as int == decay_noise(
        if batch_tier(b) == 3 {
            boost_noise(pre.exploration_noise as int)
        } else {
            pre.exploration_noise as int
        },
        pre.config.min_exploration as int,
    )
    &&& post.training_iterations == pre.training_iterations + 1
    &&& flushed(pre.memory, post.memory, b)
    &&& post.value_net == pre.value_net
    &&& post.config == pre.config
    &&& post.normalizer == pre.normalizer
}

/// What a stagnation reset followed directly by a training step did: the
/// counter restarted at the trained step, the statistics are fresh, the
/// noise schedule ran from twice the configured level, and the (untouched
/// by the reset) buffer obeyed the flush law for the sampled batch `b`.
pub open spec fn reset_then_trained(pre: PPOAgent, post: PPOAgent, b: Seq<TransitionModel>) -> bool {
    &&& b.len() == pre.config.batch_size
    &&& b.to_multiset().subset_of(pre.memory.contents().to_multiset())
    &&& post.training_iterations == 1
    &&& post.normalizer.count == 0
    &&& post.config == pre.config
    &&& post.exploration_noise as int == decay_noise(
        if batch_tier(b) == 3 {
            boost_noise(2 * pre.config.exploration_noise as int)
        } else {
            2 * pre.config.exploration_noise as int
        },
        pre.config.min_exploration as int,
    )
    &&& flushed(pre.memory, post.memory, b)
}

pub struct PPOAgent {
    pub policy_net: NeuralNetwork,
    pub value_net: NeuralNetwork,
    pub config: AgentConfig,
    pub memory: ReplayBuffer,
    pub normalizer: RunningNormalizer,
    pub exploration_noise: i64,
    pub training_iterations: u32,
}

impl PPOAgent {
    pub open spec fn wf(self) -> bool {
        &&& self.config.wf()
        &&& self.policy_net.wf()
        &&& self.policy_net.in_dim() == 6
        &&& self.policy_net.out_dim() == 2
        &&& self.value_net.wf()
        &&& self.value_net.in_dim() == 6
        &&& self.value_net.out_dim() == 1
        &&& self.memory.wf()
        &&& self.normalizer.wf()
        &&& self.normalizer.features() == 6
        &&& 0 <= self.exploration_noise <= 2 * SCALE
        &&& forall|i: int|
            0 <= i < self.memory.contents().len() ==> iabs(
                (#[trigger] self.memory.contents()[i]).reward,
            ) <= REWARD_LIMIT
    }

    /// Both networks have the configured shape: the hidden widths of the
    /// configuration between the six inputs and the two policy (one value)
    /// outputs.
    pub open spec fn nets_shaped(self) -> bool {
        let h = self.config.hidden_sizes@.len() as int;
        &&& self.policy_net.layer_count() == h + 1
        &&& self.value_net.layer_count() == h + 1
        &&& forall|l: int|
            0 <= l < h ==> #[trigger] self.policy_net.bvec(l).len() == self.config.hidden_sizes@[l]
        &&& forall|l: int|
            0 <= l < h ==> #[trigger] self.value_net.bvec(l).len() == self.config.hidden_sizes@[l]
        &&& self.policy_net.bvec(h).len() == 2
        &&& self.value_net.bvec(h).len() == 1
    }

    /// A fresh agent: randomly initialized six-input networks (two policy
    /// outputs, one value output), an empty buffer of five thousand
    /// transitions, untouched statistics, the configured noise level.
    pub fn new(config: AgentConfig, rng: &mut rand::rngs::StdRng) -> (r: PPOAgent)
        requires
            config.wf(),
        ensures
            r.wf(),
            r.nets_shaped(),
            r.config == config,
            r.exploration_noise == config.exploration_noise,
            r.training_iterations == 0,
            r.memory.capacity == 5000,
            r.memory.contents() == Seq::<TransitionModel>::empty(),
            r.normalizer.count == 0,
            r.normalizer.epsilon == 1,
            forall|i: int| 0 <= i < 6 ==> #[trigger] r.normalizer.mean@[i] == 0,
            forall|i: int| 0 <= i < 6 ==> #[trigger] r.normalizer.variance@[i] == SCALE,
            r.policy_net.activation == config.activation,
            r.value_net.activation == config.activation,
    {
        let policy_sizes = build_sizes(&config.hidden_sizes, 2);
        let value_sizes = build_sizes(&config.hidden_sizes, 1);
        let policy_net = NeuralNetwork::new(&policy_sizes, config.activation, rng);
        let value_net = NeuralNetwork::new(&value_sizes, config.activation, rng);
        let exploration_noise = config.exploration_noise;
        let r = PPOAgent {
            policy_net,
            value_net,
            config,
            memory: ReplayBuffer::new(5000),
            normalizer: RunningNormalizer::new(6),
            exploration_noise,
            training_iterations: 0,
        };
        proof {
            lemma_sized_nets_shaped(r, policy_sizes@, value_sizes@);
        }
        r
    }

    /// Folds the observation into the normalizer, feeds the normalized
    /// (saturated) vector through the policy network, then adds bounded
    /// exploration noise — three times the level during the first thousand
    /// training iterations — and clamps each action dimension to one unit.
    pub fn get_action(&mut self, state: &Vec<i64>, rng: &mut rand::rngs::StdRng) -> (r: Vec<i64>)
        requires
            old(self).wf(),
            state@.len() == 6,
            old(self).normalizer.count < u64::MAX,
            forall|i: int| 0 <= i < state@.len() ==> iabs(#[trigger] state@[i] as int) <= VAL_LIMIT,
        ensures
            final(self).wf(),
            final(self).policy_net == old(self).policy_net,
            final(self).value_net == old(self).value_net,
            final(self).config == old(self).config,
            final(self).memory == old(self).memory,
            final(self).exploration_noise == old(self).exploration_noise,
            final(self).training_iterations == old(self).training_iterations,
            final(self).normalizer.count == old(self).normalizer.count + 1,
            final(self).normalizer.features() == 6,
            final(self).normalizer.epsilon == old(self).normalizer.epsilon,
            forall|i: int|
                0 <= i < 6 ==> #[trigger] final(self).normalizer.mean@[i] == mean_step(
                    old(self).normalizer.mean@[i] as int,
                    state@[i] as int,
                    old(self).normalizer.count + 1,
                ),
            forall|i: int|
                0 <= i < 6 ==> #[trigger] final(self).normalizer.variance@[i] == acc_step(
                    old(self).normalizer.variance@[i] as int,
                    state@[i] as int,
                    final(self).normalizer.mean@[i] as int,
                ),
            r@.len() == 2,
            forall|i: int| 0 <= i < 2 ==> -SCALE <= #[trigger] r@[i] <= SCALE,
            forall|i: int|
                0 <= i < 2 ==> clamp_spec(
                    final(self).policy_net.forward_spec(
                        policy_input(final(self).normalizer, int_seq(state@)),
                    )[i] - (if old(self).training_iterations < 1000 {
                        3 * old(self).exploration_noise as int
                    } else {
                        old(self).exploration_noise as int
                    }),
                    -(SCALE as int),
                    SCALE as int,
                ) <= #[trigger] r@[i] as int <= clamp_spec(
                    final(self).policy_net.forward_spec(
                        policy_input(final(self).normalizer, int_seq(state@)),
                    )[i] + (if old(self).training_iterations < 1000 {
                        3 * old(self).exploration_noise as int
                    } else {
                        old(self).exploration_noise as int
                    }),
                    -(SCALE as int),
                    SCALE as int,
                ),
    {
        self.normalizer.update(state);
        let normalized = self.normalizer.normalize(state);
        let mut clamped: Vec<i64> = Vec::new();
        let mut i: usize = 0;
        while i < normalized.len()
            invariant
                i <= normalized@.len(),
                normalized@.len() == 6,
                clamped@.len() == i,
                forall|k: int|
                    0 <= k < i ==> #[trigger] clamped@[k] as int == clamp_cap(
                        normalized@[k] as int,
                    ),
                forall|k: int| 0 <= k < i ==> iabs(#[trigger] clamped@[k] as int) <= VAL_LIMIT,
            decreases normalized@.len() - i,
        {
            clamped.push(clamp_i64(normalized[i], -VAL_LIMIT, VAL_LIMIT));
            i = i + 1;
        }
        proof {
            assert(int_seq(clamped@) =~= policy_input(self.normalizer, int_seq(state@)));
        }
        let mut action = self.policy_net.forward(&clamped);
        let ghost out = self.policy_net.forward_spec(policy_input(self.normalizer, int_seq(state@)));
        proof {
            assert(out == int_seq(action@));
        }
        let effective_noise: i64 = if self.training_iterations < 1000 {
            self.exploration_noise * 3
        } else {
            self.exploration_noise
        };
        let ghost eff = effective_noise as int;
        let mut j: usize = 0;
        while j < action.len()
            invariant
                j <= action@.len(),
                action@.len() == 2,
                out.len() == 2,
                0 <= eff <= 6 * SCALE,
                eff == effective_noise as int,
                forall|k: int| j <= k < 2 ==> #[trigger] action@[k] as int == out[k],
                forall|k: int| j <= k < 2 ==> iabs(#[trigger] action@[k] as int) <= VAL_LIMIT,
                forall|k: int| 0 <= k < j ==> -SCALE <= #[trigger] action@[k] <= SCALE,
                forall|k: int|
                    0 <= k < j ==> clamp_spec(out[k] - eff, -(SCALE as int), SCALE as int) <= (
                    #[trigger] action@[k]) as int <= clamp_spec(
                        out[k] + eff,
                        -(SCALE as int),
                        SCALE as int,
                    ),
            decreases action@.len() - j,
        {
            let draw = rand_range(rng, -SCALE, SCALE);
            proof {
                lemma_abs_mul_bound(draw as int, eff, SCALE as int, eff);
                crate::fixed::lemma_mul_comm(SCALE as int, eff);
                lemma_tdiv_quot_bound(draw as int * eff, SCALE as int, eff);
                lemma_abs_mul_bound(draw as int, eff, 1000000int, 6000000int);
            }
            let noise128 = div_trunc_i128((draw as i128) * (effective_noise as i128), SCALE as i128);
            let noise = noise128 as i64;
            let a_j = action[j];
            proof {
                assert(a_j as int == out[j as int]);
            }
            let v2 = clamp_i64(a_j + noise, -SCALE, SCALE);
            vstd::pervasive::VecAdditionalExecFns::set(&mut action, j, v2);
            proof {
                assert(action@[j as int] == v2);
                assert(iabs(noise as int) <= eff);
                assert(clamp_spec(out[j as int] - eff, -(SCALE as int), SCALE as int) <= v2 as int
                    <= clamp_spec(out[j as int] + eff, -(SCALE as int), SCALE as int));
            }
            j = j + 1;
        }
        action
    }

    /// The reward for the current statistics and phase: exactly
    /// `reward_spec`, a pure function with no state.
    pub fn compute_reward(&self, stats: &RocketStats, game_state: &GameState, step: usize) -> (r:
        i64)
        requires
            stats_bounded(*stats),
        ensures
            r as int == reward_spec(*stats, *game_state),
            iabs(r as int) <= REWARD_LIMIT,
    {
        let _ = step;
        match game_state {
            GameState::Landed => 1000 * SCALE + 10 * stats.landing_score,
            GameState::Crashed => {
                let dev = abs_i64(abs_i64(stats.angle_deg) - 90 * SCALE);
                let mut reward: i64 = -100 * SCALE - 2 * dev - 3 * abs_i64(stats.vertical_speed) - 2
                    * abs_i64(stats.horizontal_speed);
                if stats.distance_to_target > 50 * SCALE {
                    reward = reward - 20 * SCALE;
                }
                reward
            },
            GameState::Playing => {
                let dev = abs_i64(abs_i64(stats.angle_deg) - 90 * SCALE);
                let vabs = abs_i64(stats.vertical_speed);
                let mut reward: i64 = -100000;
                if dev <= 9 * SCALE {
                    reward = reward + 10 * SCALE;
                } else if dev <= 30 * SCALE {
                    reward = reward + 2 * SCALE;
                } else {
                    reward = reward - 5 * SCALE;
                }
                if vabs < 10 * SCALE {
                    reward = reward + 5 * SCALE;
                } else if vabs < 30 * SCALE {
                    reward = reward + SCALE;
                } else if stats.vertical_speed > 50 * SCALE {
                    reward = reward - 3 * SCALE;
                }
                if dev <= 30 * SCALE && vabs < 50 * SCALE {
                    if stats.distance_to_target < 40 * SCALE {
                        reward = reward + 5 * SCALE;
                    } else if stats.distance_to_target < 100 * SCALE {
                        reward = reward + SCALE;
                    }
                }
                if stats.altitude < 100 * SCALE && stats.vertical_speed < 0 {
                    reward = reward + 2 * SCALE;
                }
                reward + div_trunc(stats.fuel_percentage, 2)
            },
            GameState::Restarting => 0,
        }
    }

    /// One training step. Below the batch size nothing happens at all.
    /// Otherwise a batch is sampled; its high-reward and positive-reward
    /// rates pick the mutation tier that replaces the policy network, the
    /// iteration counter advances, noise decays (after a boost on the worst
    /// tier), and a full buffer is flushed when the batch averaged positive.
    pub fn train_from_memory(&mut self, rng: &mut rand::rngs::StdRng)
        requires
            old(self).wf(),
            old(self).training_iterations < u32::MAX,
        ensures
            final(self).wf(),
            old(self).memory.contents().len() < old(self).config.batch_size ==> *final(self)
                == *old(self),
            old(self).memory.contents().len() >= old(self).config.batch_size ==> exists|
                b: Seq<TransitionModel>,
            | trained_step(*old(self), *final(self), b),
    {
        if self.memory.size < self.config.batch_size {
            proof {
                self.memory.lemma_contents_len();
            }
            return ;
        }
        proof {
            self.memory.lemma_contents_len();
        }
        let batch = self.memory.sample(self.config.batch_size, rng);
        let ghost b = models(batch@);
        let len = batch.len();
        let ghost cm = self.memory.contents().to_multiset();
        let mut total: i128 = 0;
        // the positive-reward count is the batch's success rate; the tier
        // rule below reads only the high-reward rate and the average's sign
        let mut positive: usize = 0;
        let mut high: usize = 0;
        let mut i: usize = 0;
        proof {
            assert(b.take(0) =~= Seq::<TransitionModel>::empty());
        }
        while i < len
            invariant
                len == batch@.len(),
                b == models(batch@),
                b.to_multiset().subset_of(cm),
                cm == old(self).memory.contents().to_multiset(),
                old(self).wf(),
                i <= len,
                positive <= i,
                high as int == count_high(b.take(i as int)),
                high <= i,
                total as int == sum_rewards(b.take(i as int)),
                iabs(total as int) <= i as int * REWARD_LIMIT,
            decreases len - i,
        {
            proof {
                lemma_batch_reward_bounded(batch@, *old(self), i as int);
                vstd::arithmetic::mul::lemma_mul_inequality(
                    (i + 1) as int,
                    0x10000000000000000int,
                    REWARD_LIMIT as int,
                );
                assert((i + 1) as int * REWARD_LIMIT == i as int * REWARD_LIMIT + REWARD_LIMIT);
                assert(b.take(i as int + 1).drop_last() =~= b.take(i as int));
                assert(b.take(i as int + 1).last() == batch@[i as int]@);
            }
            let reward = batch[i].reward;
            total = total + (reward as i128);
            if reward > 0 {
                positive = positive + 1;
            }
            if reward > 5 * SCALE {
                high = high + 1;
            }
            i = i + 1;
        }
        proof {
            assert(b.take(len as int) =~= b);
        }
        // the batch averaged positive exactly when its reward sum did
        let avg_positive = total > 0;
        let tier0 = 10 * high > 3 * len;
        let tier1 = 10 * high > len;
        let rate: i64;
        let strength: i64;
        if tier0 {
            rate = 50000;
            strength = 5000;
        } else if tier1 {
            rate = 100000;
            strength = 10000;
        } else if avg_positive {
            rate = 200000;
            strength = 50000;
        } else {
            rate = 400000;
            strength = 100000;
        }
        proof {
            assert(strength as int == tier_strength(batch_tier(b)));
        }
        let mutated = self.policy_net.copy_with_mutation(rate, strength, rng);
        self.policy_net = mutated;
        if !tier0 && !tier1 && !avg_positive {
            let boosted = div_trunc(self.exploration_noise * 13, 10);
            self.exploration_noise = if boosted < 800000 {
                boosted
            } else {
                800000
            };
        }
        self.training_iterations = self.training_iterations + 1;
        let decayed = div_trunc(self.exploration_noise * 999, 1000);
        self.exploration_noise = if decayed > self.config.min_exploration {
            decayed
        } else {
            self.config.min_exploration
        };
        let full = self.memory.is_full();
        if full && avg_positive {
            self.memory.clear();
        }
        proof {
            assert(trained_step(*old(self), *self, b));
        }
    }

    /// After five hundred episodes with the best score still at zero, the
    /// whole agent restarts: fresh random networks, doubled initial noise,
    /// reset statistics and counter. Returns whether that happened.
    pub fn check_performance_stagnation(
        &mut self,
        episode_count: u32,
        best_score: i64,
        rng: &mut rand::rngs::StdRng,
    ) -> (r: bool)
        requires
            old(self).wf(),
        ensures
            final(self).wf(),
            r == (episode_count > 500 && best_score == 0),
            !r ==> *final(self) == *old(self),
            r ==> final(self).exploration_noise == 2 * old(self).config.exploration_noise,
            r ==> final(self).training_iterations == 0,
            r ==> final(self).memory == old(self).memory,
            r ==> final(self).config == old(self).config,
            r ==> final(self).nets_shaped(),
            r ==> final(self).policy_net.activation == old(self).config.activation,
            r ==> final(self).value_net.activation == old(self).config.activation,
            r ==> final(self).normalizer.count == 0,
            r ==> final(self).normalizer.features() == 6,
            r ==> forall|i: int|
                0 <= i < 6 ==> #[trigger] final(self).normalizer.mean@[i] == 0,
            r ==> forall|i: int|
                0 <= i < 6 ==> #[trigger] final(self).normalizer.variance@[i] == SCALE,
    {
        if episode_count > 500 && best_score == 0 {
            let policy_sizes = build_sizes(&self.config.hidden_sizes, 2);
            let value_sizes = build_sizes(&self.config.hidden_sizes, 1);
            self.policy_net = NeuralNetwork::new(&policy_sizes, self.config.activation, rng);
            self.value_net = NeuralNetwork::new(&value_sizes, self.config.activation, rng);
            self.exploration_noise = self.config.exploration_noise * 2;
            self.normalizer.reset();
            self.training_iterations = 0;
            proof {
                lemma_sized_nets_shaped(*self, policy_sizes@, value_sizes@);
            }
            true
        } else {
            false
        }
    }

    /// Discounted returns, from the back: a terminal step restarts the
    /// running return at its own reward, any other adds the discounted
    /// running return to it.
    pub fn compute_advantages(&self, rewards: &Vec<i64>, dones: &Vec<bool>) -> (r: Vec<i64>)
        requires
            self.wf(),
            rewards@.len() == dones@.len(),
            rewards@.len() <= 100000,
            forall|i: int|
                0 <= i < rewards@.len() ==> iabs(#[trigger] rewards@[i] as int) <= REWARD_LIMIT,
        ensures
            r@.len() == rewards@.len(),
            forall|i: int|
                0 <= i < r@.len() ==> #[trigger] r@[i] as int == running_return(
                    int_seq(rewards@),
                    dones@,
                    self.config.gamma as int,
                    i,
                ),
    {
        let ghost rew = int_seq(rewards@);
        let ghost g = self.config.gamma as int;
        let n = rewards.len();
        let mut advantages: Vec<i64> = Vec::new();
        let mut k: usize = 0;
        while k < n
            invariant
                k <= n,
                advantages@.len() == k,
            decreases n - k,
        {
            advantages.push(0);
            k = k + 1;
        }
        let mut running: i64 = 0;
        let mut i: usize = n;
        proof {
            assert(running as int == running_return(rew, dones@, g, n as int));
        }
        while i > 0
            invariant
                i <= n,
                n == rewards@.len(),
                n == dones@.len(),
                n <= 100000,
                rew == int_seq(rewards@),
                g == self.config.gamma as int,
                0 <= g <= SCALE,
                advantages@.len() == n,
                forall|j: int| 0 <= j < rewards@.len() ==> iabs(#[trigger] rew[j]) <= REWARD_LIMIT,
                running as int == running_return(rew, dones@, g, i as int),
                iabs(running as int) <= (n - i) as int * 20000000000000,
                forall|j: int|
                    i <= j < n ==> #[trigger] advantages@[j] as int == running_return(
                        rew,
                        dones@,
                        g,
                        j,
                    ),
            decreases i,
        {
            i = i - 1;
            proof {
                assert(rew[i as int] == rewards@[i as int] as int);
                lemma_abs_mul_bound(g, running as int, 1000000int, (n - i - 1) as int
                    * 20000000000000);
                lemma_tdiv_quot_bound(g * running as int, 1000000int, (n - i - 1) as int
                    * 20000000000000);
            }
            if dones[i] {
                running = rewards[i];
            } else {
                let discounted = div_trunc_i128((self.config.gamma as i128) * (running as i128),
                    SCALE as i128);
                running = rewards[i] + (discounted as i64);
            }
            vstd::pervasive::VecAdditionalExecFns::set(&mut advantages, i, running);
        }
        advantages
    }
}

/// The layer-size run `[6, hidden.., last]` both networks are built from.
fn build_sizes(hidden: &Vec<usize>, last: usize) -> (r: Vec<usize>)
    requires
        forall|i: int| 0 <= i < hidden@.len() ==> 1 <= #[trigger] hidden@[i] <= 1000000,
        1 <= last <= 1000000,
    ensures
        r@.len() == hidden@.len() + 2,
        r@[0] == 6,
        forall|i: int| 0 <= i < hidden@.len() ==> #[trigger] r@[i + 1] == hidden@[i],
        r@[r@.len() - 1] == last,
        forall|k: int| 0 <= k < r@.len() ==> 1 <= #[trigger] r@[k] <= 1000000,
{
    let mut r: Vec<usize> = Vec::new();
    r.push(6);
    let mut i: usize = 0;
    while i < hidden.len()
        invariant
            i <= hidden@.len(),
            r@.len() == i + 1,
            r@[0] == 6,
            forall|k: int| 0 <= k < i ==> #[trigger] r@[k + 1] == hidden@[k],
            forall|k: int| 0 <= k < hidden@.len() ==> 1 <= #[trigger] hidden@[k] <= 1000000,
            forall|k: int| 0 <= k < r@.len() ==> 1 <= #[trigger] r@[k] <= 1000000,
        decreases hidden@.len() - i,
    {
        r.push(hidden[i]);
        i = i + 1;
    }
    r.push(last);
    r
}

/// Networks built from `build_sizes` runs have the configured shape.
proof fn lemma_sized_nets_shaped(a: PPOAgent, psizes: Seq<usize>, vsizes: Seq<usize>)
    requires
        psizes.len() == a.config.hidden_sizes@.len() + 2,
        vsizes.len() == a.config.hidden_sizes@.len() + 2,
        forall|i: int|
            0 <= i < a.config.hidden_sizes@.len() ==> #[trigger] psizes[i + 1]
                == a.config.hidden_sizes@[i],
        forall|i: int|
            0 <= i < a.config.hidden_sizes@.len() ==> #[trigger] vsizes[i + 1]
                == a.config.hidden_sizes@[i],
        psizes[psizes.len() - 1] == 2,
        vsizes[vsizes.len() - 1] == 1,
        a.policy_net.layer_count() == psizes.len() - 1,
        a.value_net.layer_count() == vsizes.len() - 1,
        forall|l: int|
            0 <= l < a.policy_net.layer_count() ==> #[trigger] a.policy_net.bvec(l).len()
                == psizes[l + 1],
        forall|l: int|
            0 <= l < a.value_net.layer_count() ==> #[trigger] a.value_net.bvec(l).len() == vsizes[l
                + 1],
    ensures
        a.nets_shaped(),
{
    let h = a.config.hidden_sizes@.len() as int;
    assert forall|l: int| 0 <= l < h implies #[trigger] a.policy_net.bvec(l).len()
        == a.config.hidden_sizes@[l] by {
        assert(a.policy_net.bvec(l).len() == psizes[l + 1]);
        assert(psizes[l + 1] == a.config.hidden_sizes@[l]);
    }
    assert forall|l: int| 0 <= l < h implies #[trigger] a.value_net.bvec(l).len()
        == a.config.hidden_sizes@[l] by {
        assert(a.value_net.bvec(l).len() == vsizes[l + 1]);
        assert(vsizes[l + 1] == a.config.hidden_sizes@[l]);
    }
    assert(a.policy_net.bvec(h).len() == psizes[h + 1]);
    assert(a.value_net.bvec(h).len() == vsizes[h + 1]);
}

/// A policy replaced by a same-shape copy keeps the configured shape.
pub proof fn lemma_mutated_keeps_shape(pre: PPOAgent, post: PPOAgent)
    requires
        pre.nets_shaped(),
        post.config == pre.config,
        post.value_net == pre.value_net,
        post.policy_net.layer_count() == pre.policy_net.layer_count(),
        forall|l: int|
            0 <= l < post.policy_net.layer_count() ==> #[trigger] post.policy_net.bvec(l).len()
                == pre.policy_net.bvec(l).len(),
    ensures
        post.nets_shaped(),
{
    let h = post.config.hidden_sizes@.len() as int;
    assert forall|l: int| 0 <= l < h implies #[trigger] post.policy_net.bvec(l).len()
        == post.config.hidden_sizes@[l] by {
        assert(post.policy_net.bvec(l).len() == pre.policy_net.bvec(l).len());
    }
    assert(post.policy_net.bvec(h).len() == pre.policy_net.bvec(h).len());
}

/// The discounted running return at index `i`, reset at terminal steps.
pub open spec fn running_return(rew: Seq<int>, don: Seq<bool>, gamma: int, i: int) -> int
    decreases rew.len() - i,
{
    if i < 0 || i >= rew.len() {
        0
    } else {
        let nxt = running_return(rew, don, gamma, i + 1);
        if don[i] {
            rew[i]
        } else {
            rew[i] + tdiv(gamma * nxt, SCALE as int)
        }
    }
}

/// An absolute value that mirrors `iabs`.
fn abs_i64(x: i64) -> (r: i64)
    requires
        x > i64::MIN,
    ensures
        r as int == iabs(x as int),
{
    if x >= 0 {
        x
    } else {
        -x
    }
}

/// Every sampled transition is one of the stored transitions, so its
/// reward carries the store's bound.
proof fn lemma_batch_reward_bounded(batch: Seq<Transition>, agent: PPOAgent, i: int)
    requires
        agent.wf(),
        models(batch).to_multiset().subset_of(agent.memory.contents().to_multiset()),
        0 <= i < batch.len(),
    ensures
        iabs(batch[i]@.reward) <= REWARD_LIMIT,
{
    broadcast use vstd::seq_lib::group_to_multiset_ensures;
    broadcast use vstd::multiset::group_multiset_axioms;

    let m = batch[i]@;
    let bm = models(batch);
    assert(bm[i] == m);
    assert(bm.contains(m));
    assert(bm.to_multiset().count(m) > 0);
    let contents = agent.memory.contents();
    assert(contents.to_multiset().count(m) > 0);
    assert(contents.contains(m));
    let j = choose|j: int| 0 <= j < contents.len() && contents[j] == m;
    assert(iabs(contents[j].reward) <= REWARD_LIMIT);
}

} // verus!
