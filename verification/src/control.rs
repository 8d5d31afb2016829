//! The per-tick control step and the episode-boundary bookkeeping.
//!
//! `rl_control_system` realizes the one-tick-delayed reward attribution:
//! the consequence of an action is only recorded on the following tick,
//! when the statistics it produced are visible. The pending (state, action)
//! pair lives in `RLTraining`; pairing it with the current tick's reward
//! and observation yields the transition that is pushed. The surrounding
//! simulation performs the returned controls and reports back.

use vstd::prelude::*;
use crate::fixed::{SCALE, VAL_LIMIT, tdiv, iabs, clamp_spec, div_trunc, clamp_i64,
    lemma_tdiv_quot_bound};
use crate::memory::{Transition, TransitionModel, ring_push};
use crate::network::int_seq;
use crate::normalizer::{mean_step, acc_step};
use crate::ppo::{
    PPOAgent, GameState, RocketStats, reward_spec, stats_bounded, trained_step,
    reset_then_trained, lemma_mutated_keeps_shape, policy_input,
};

verus! {

/// The six scaled features the agent observes, in order: altitude,
/// vertical speed (shifted positive), horizontal speed, angle, fuel
/// fraction, and distance to target capped at one unit.
pub open spec fn observation_spec(s: RocketStats) -> Seq<int> {
    seq![
        tdiv(s.altitude as int, 400),
        tdiv(s.vertical_speed as int + 200 * SCALE, 400),
        tdiv(s.horizontal_speed as int, 100),
        tdiv(s.angle_deg as int, 180),
        s.fuel_percentage as int,
        if tdiv(s.distance_to_target as int, 400) < SCALE {
            tdiv(s.distance_to_target as int, 400)
        } else {
            SCALE as int
        },
    ]
}

/// What the agent hands the vehicle: throttle in `[0, 1]` units, rotation
/// command in `[-1, 1]` units.
pub struct RocketControls {
    pub throttle: i64,
    pub rotation: i64,
    pub controlled_by_ai: bool,
}

/// The training context the simulation loop owns: the agent plus episode
/// counters and the half-open (state, action) pair awaiting its reward.
pub struct RLTraining {
    pub agent: PPOAgent,
    pub episode_count: u32,
    pub total_steps: u64,
    pub best_score: i64,
    pub training: bool,
    pub current_episode_steps: usize,
    pub last_state: Option<Vec<i64>>,
    pub last_action: Option<Vec<i64>>,
    pub consecutive_crashes: u32,
}

impl RLTraining {
    pub open spec fn wf(self) -> bool {
        self.agent.wf()
    }
}

/// The transition recorded one tick after (`last_state`, `last_action`)
/// was chosen, from the statistics that choice produced.
pub open spec fn pending_model(
    last_state: Seq<int>,
    last_action: Seq<int>,
    stats: RocketStats,
    g: GameState,
) -> TransitionModel {
    TransitionModel {
        state: last_state,
        action: last_action,
        reward: reward_spec(stats, g),
        next_state: observation_spec(stats),
        done: g == GameState::Landed || g == GameState::Crashed,
        log_prob: 0,
        value: 0,
    }
}

/// The observation vector handed to the agent, scaled feature by feature.
pub fn build_observation(stats: &RocketStats) -> (r: Vec<i64>)
    requires
        stats_bounded(*stats),
    ensures
        r@.len() == 6,
        int_seq(r@) == observation_spec(*stats),
        forall|i: int| 0 <= i < r@.len() ==> iabs(#[trigger] r@[i] as int) <= VAL_LIMIT,
{
    let mut r: Vec<i64> = Vec::new();
    proof {
        lemma_tdiv_quot_bound(stats.vertical_speed as int + 200 * SCALE, 400int, VAL_LIMIT as int);
    }
    r.push(div_trunc(stats.altitude, 400));
    r.push(div_trunc(stats.vertical_speed + 200 * SCALE, 400));
    r.push(div_trunc(stats.horizontal_speed, 100));
    r.push(div_trunc(stats.angle_deg, 180));
    r.push(stats.fuel_percentage);
    let scaled_distance = div_trunc(stats.distance_to_target, 400);
    r.push(
        if scaled_distance < SCALE {
            scaled_distance
        } else {
            SCALE
        },
    );
    proof {
        crate::fixed::lemma_tdiv_bounds(stats.altitude as int, 400);
        crate::fixed::lemma_tdiv_bounds(stats.horizontal_speed as int, 100);
        crate::fixed::lemma_tdiv_bounds(stats.angle_deg as int, 180);
        crate::fixed::lemma_tdiv_bounds(stats.distance_to_target as int, 400);
        assert(int_seq(r@) =~= observation_spec(*stats));
    }
    r
}

/// One control tick while the episode is live: record the pending
/// transition with the reward its action earned, choose the next action,
/// and hand back throttle and rotation. Outside a live, training episode
/// nothing happens.
pub fn rl_control_system(
    training: &mut RLTraining,
    game_state: GameState,
    stats: &RocketStats,
    rng: &mut rand::rngs::StdRng,
) -> (r: Option<RocketControls>)
    requires
        old(training).wf(),
        stats_bounded(*stats),
        old(training).total_steps < u64::MAX,
        old(training).current_episode_steps < usize::MAX,
        old(training).agent.normalizer.count < u64::MAX,
    ensures
        final(training).wf(),
        !(game_state == GameState::Playing && old(training).training) ==> *final(training) == *old(training) && r is None,
        game_state == GameState::Playing && old(training).training ==> {
            &&& r is Some
            &&& final(training).training == old(training).training
            &&& final(training).episode_count == old(training).episode_count
            &&& final(training).best_score == old(training).best_score
            &&& final(training).consecutive_crashes == old(training).consecutive_crashes
            &&& final(training).total_steps == old(training).total_steps + 1
            &&& final(training).current_episode_steps == old(training).current_episode_steps + 1
            &&& final(training).agent.policy_net == old(training).agent.policy_net
            &&& final(training).agent.value_net == old(training).agent.value_net
            &&& final(training).agent.config == old(training).agent.config
            &&& final(training).agent.exploration_noise == old(training).agent.exploration_noise
            &&& final(training).agent.training_iterations == old(training).agent.training_iterations
            &&& final(training).agent.normalizer.count == old(training).agent.normalizer.count + 1
            &&& final(training).agent.normalizer.epsilon == old(training).agent.normalizer.epsilon
            &&& forall|i: int|
                0 <= i < 6 ==> #[trigger] final(training).agent.normalizer.mean@[i] == mean_step(
                    old(training).agent.normalizer.mean@[i] as int,
                    observation_spec(*stats)[i],
                    old(training).agent.normalizer.count + 1,
                )
            &&& forall|i: int|
                0 <= i < 6 ==> #[trigger] final(training).agent.normalizer.variance@[i]
                    == acc_step(
                    old(training).agent.normalizer.variance@[i] as int,
                    observation_spec(*stats)[i],
                    final(training).agent.normalizer.mean@[i] as int,
                )
            &&& final(training).agent.memory.capacity == old(training).agent.memory.capacity
            &&& (old(training).last_state is Some && old(training).last_action is Some ==> final(training).agent.memory.contents() == ring_push(
                old(training).agent.memory.contents(),
                old(training).agent.memory.capacity as int,
                pending_model(
                    int_seq(old(training).last_state.unwrap()@),
                    int_seq(old(training).last_action.unwrap()@),
                    *stats,
                    game_state,
                ),
            ))
            &&& (!(old(training).last_state is Some && old(training).last_action is Some) ==> final(training).agent.memory.contents() == old(training).agent.memory.contents())
            &&& final(training).last_state is Some
            &&& int_seq(final(training).last_state.unwrap()@) == observation_spec(*stats)
            &&& final(training).last_action is Some
            &&& final(training).last_action.unwrap()@.len() == 2
            &&& forall|i: int|
                0 <= i < 2 ==> -SCALE <= #[trigger] final(training).last_action.unwrap()@[i]
                    <= SCALE
            &&& forall|i: int|
                0 <= i < 2 ==> clamp_spec(
                    final(training).agent.policy_net.forward_spec(
                        policy_input(final(training).agent.normalizer, observation_spec(*stats)),
                    )[i] - (if old(training).agent.training_iterations < 1000 {
                        3 * old(training).agent.exploration_noise as int
                    } else {
                        old(training).agent.exploration_noise as int
                    }),
                    -(SCALE as int),
                    SCALE as int,
                ) <= (#[trigger] final(training).last_action.unwrap()@[i]) as int <= clamp_spec(
                    final(training).agent.policy_net.forward_spec(
                        policy_input(final(training).agent.normalizer, observation_spec(*stats)),
                    )[i] + (if old(training).agent.training_iterations < 1000 {
                        3 * old(training).agent.exploration_noise as int
                    } else {
                        old(training).agent.exploration_noise as int
                    }),
                    -(SCALE as int),
                    SCALE as int,
                )
            &&& r.unwrap().throttle as int == tdiv(
                final(training).last_action.unwrap()@[0] as int + SCALE,
                2,
            )
            &&& r.unwrap().rotation as int == clamp_spec(
                final(training).last_action.unwrap()@[1] as int,
                -(SCALE as int),
                SCALE as int,
            )
            &&& r.unwrap().controlled_by_ai
        },
{
    if !(game_state == GameState::Playing) || !training.training {
        return None;
    }
    let observation = build_observation(stats);
    let last_state = training.last_state.take();
    let last_action = training.last_action.take();
    match (last_state, last_action) {
        (Some(ls), Some(la)) => {
            let reward = training.agent.compute_reward(
                stats,
                &game_state,
                training.current_episode_steps,
            );
            let done = matches!(game_state, GameState::Landed | GameState::Crashed);
            let next_state = crate::fixed::copy_vec_i64(&observation);
            let transition = Transition {
                state: ls,
                action: la,
                reward,
                next_state,
                done,
                log_prob: 0,
                value: 0,
            };
            let ghost pushed = transition@;
            training.agent.memory.push(transition);
            proof {
                assert(pushed == pending_model(
                    int_seq(old(training).last_state.unwrap()@),
                    int_seq(old(training).last_action.unwrap()@),
                    *stats,
                    game_state,
                ));
                lemma_ring_push_keeps_reward_bound(
                    old(training).agent.memory.contents(),
                    training.agent.memory.contents(),
                    old(training).agent.memory.capacity as int,
                    pushed,
                );
            }
        },
        _ => {},
    }
    let action = training.agent.get_action(&observation, rng);
    let throttle = div_trunc(action[0] + SCALE, 2);
    let rotation = clamp_i64(action[1], -SCALE, SCALE);
    let controls = RocketControls { throttle, rotation, controlled_by_ai: true };
    training.last_state = Some(observation);
    training.last_action = Some(action);
    training.total_steps = training.total_steps + 1;
    training.current_episode_steps = training.current_episode_steps + 1;
    Some(controls)
}

/// At an episode's end: track consecutive crashes, check stagnation every
/// fifty episodes, train when enough experience is buffered, count the
/// episode, keep the best landing score, and drop the pending pair.
pub fn handle_episode_end(
    training: &mut RLTraining,
    game_state: GameState,
    stats: &RocketStats,
    rng: &mut rand::rngs::StdRng,
)
    requires
        old(training).wf(),
        stats_bounded(*stats),
        old(training).episode_count < u32::MAX,
        old(training).consecutive_crashes < u32::MAX,
        old(training).agent.training_iterations < u32::MAX,
    ensures
        final(training).wf(),
        !(game_state == GameState::Landed || game_state == GameState::Crashed) ==> *final(training)
            == *old(training),
        game_state == GameState::Landed || game_state == GameState::Crashed ==> {
            let reset = old(training).episode_count % 50 == 0 && old(training).episode_count > 500
                && old(training).best_score == 0;
            let trains = old(training).agent.memory.contents().len() >= old(training).agent.config.batch_size;
            &&& final(training).episode_count == old(training).episode_count + 1
            &&& final(training).consecutive_crashes == (if game_state == GameState::Crashed {
                old(training).consecutive_crashes + 1
            } else {
                0
            })
            &&& final(training).best_score == (if game_state == GameState::Landed
                && stats.landing_score > old(training).best_score {
                stats.landing_score
            } else {
                old(training).best_score
            })
            &&& final(training).current_episode_steps == 0
            &&& final(training).last_state is None
            &&& final(training).last_action is None
            &&& final(training).training == old(training).training
            &&& final(training).total_steps == old(training).total_steps
            &&& (!reset && !trains ==> final(training).agent == old(training).agent)
            &&& (!reset && trains ==> exists|b: Seq<TransitionModel>|
                trained_step(old(training).agent, final(training).agent, b))
            &&& (reset ==> {
                &&& final(training).agent.nets_shaped()
                &&& final(training).agent.config == old(training).agent.config
                &&& final(training).agent.normalizer.count == 0
                &&& forall|i: int|
                    0 <= i < 6 ==> #[trigger] final(training).agent.normalizer.mean@[i] == 0
                &&& forall|i: int|
                    0 <= i < 6 ==> #[trigger] final(training).agent.normalizer.variance@[i]
                        == SCALE
            })
            &&& (reset && !trains ==> final(training).agent.exploration_noise == 2 * old(training).agent.config.exploration_noise && final(training).agent.training_iterations == 0
                && final(training).agent.memory == old(training).agent.memory)
            &&& (reset && trains ==> exists|b: Seq<TransitionModel>|
                reset_then_trained(old(training).agent, final(training).agent, b))
        },
{
    if matches!(game_state, GameState::Landed | GameState::Crashed) {
        if game_state == GameState::Crashed {
            training.consecutive_crashes = training.consecutive_crashes + 1;
        } else {
            training.consecutive_crashes = 0;
        }
        let episode_count = training.episode_count;
        let best_score = training.best_score;
        let mut reset_done = false;
        if episode_count % 50 == 0 {
            reset_done = training.agent.check_performance_stagnation(
                episode_count,
                best_score,
                rng,
            );
        }
        let ghost mid = training.agent;
        proof {
            training.agent.memory.lemma_contents_len();
        }
        if training.agent.memory.size >= training.agent.config.batch_size {
            training.agent.train_from_memory(rng);
            proof {
                let b = choose|b: Seq<TransitionModel>| trained_step(mid, training.agent, b);
                if reset_done {
                    assert(reset_then_trained(old(training).agent, training.agent, b));
                    lemma_mutated_keeps_shape(mid, training.agent);
                } else {
                    assert(trained_step(old(training).agent, training.agent, b));
                }
            }
        }
        training.episode_count = training.episode_count + 1;
        if game_state == GameState::Landed && stats.landing_score > training.best_score {
            training.best_score = stats.landing_score;
        }
        training.current_episode_steps = 0;
        training.last_state = None;
        training.last_action = None;
    }
}

/// Pushing a reward-bounded transition keeps every stored reward bounded.
proof fn lemma_ring_push_keeps_reward_bound(
    pre: Seq<TransitionModel>,
    post: Seq<TransitionModel>,
    cap: int,
    t: TransitionModel,
)
    requires
        cap >= 1,
        pre.len() <= cap,
        post == ring_push(pre, cap, t),
        iabs(t.reward) <= crate::ppo::REWARD_LIMIT,
        forall|i: int|
            0 <= i < pre.len() ==> iabs((#[trigger] pre[i]).reward) <= crate::ppo::REWARD_LIMIT,
    ensures
        forall|i: int|
            0 <= i < post.len() ==> iabs((#[trigger] post[i]).reward) <= crate::ppo::REWARD_LIMIT,
{
    assert forall|i: int| 0 <= i < post.len() implies iabs((#[trigger] post[i]).reward)
        <= crate::ppo::REWARD_LIMIT by {
        if pre.len() < cap {
            assert(post.len() == pre.len() + 1);
            if i < pre.len() {
                assert(post[i] == pre[i]);
            } else {
                assert(post[i] == t);
            }
        } else {
            assert(pre.len() == cap);
            assert(post.len() == pre.len());
            if i < post.len() - 1 {
                assert(pre.skip(1)[i] == pre[i + 1]);
                assert(post[i] == pre[i + 1]);
            } else {
                assert(post[i] == t);
            }
        }
    }
}

} // verus!
