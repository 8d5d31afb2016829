use fusee_controle::config::AgentConfig;
use fusee_controle::memory::Transition;
use fusee_controle::ppo::PPOAgent;
use rand::SeedableRng;

fn rng(seed: u64) -> rand::rngs::StdRng {
    rand::rngs::StdRng::seed_from_u64(seed)
}

fn transition(reward: i64) -> Transition {
    Transition {
        state: vec![0; 6],
        action: vec![0, 0],
        reward,
        next_state: vec![0; 6],
        done: false,
        log_prob: 0,
        value: 0,
    }
}

#[test]
fn default_config_values() {
    let c = AgentConfig::default();
    assert_eq!(c.hidden_sizes, vec![64, 32]);
    assert_eq!(c.learning_rate, 500);
    assert_eq!(c.clip_epsilon, 100_000);
    assert_eq!(c.entropy_coef, 50_000);
    assert_eq!(c.value_coef, 500_000);
    assert_eq!(c.gamma, 980_000);
    assert_eq!(c.gae_lambda, 950_000);
    assert_eq!(c.batch_size, 128);
    assert_eq!(c.epochs, 10);
    assert_eq!(c.horizon, 2048);
    assert_eq!(c.exploration_noise, 500_000);
    assert_eq!(c.min_exploration, 50_000);
}

#[test]
fn new_agent_starts_fresh() {
    let mut r = rng(2);
    let a = PPOAgent::new(AgentConfig::default(), &mut r);
    assert_eq!(a.training_iterations, 0);
    assert_eq!(a.exploration_noise, 500_000);
    assert_eq!(a.memory.capacity, 5000);
    assert_eq!(a.memory.size, 0);
    assert_eq!(a.normalizer.count, 0);
    // 6 inputs -> 64 -> 32 -> 2 outputs
    assert_eq!(a.policy_net.weights.len(), 3);
    assert_eq!(a.policy_net.weights[0].len(), 6);
    assert_eq!(a.policy_net.biases[2].len(), 2);
    assert_eq!(a.value_net.biases[2].len(), 1);
}

#[test]
fn train_below_batch_size_is_a_no_op() {
    let mut r = rng(3);
    let mut a = PPOAgent::new(AgentConfig::default(), &mut r);
    for _ in 0..5 {
        a.memory.push(transition(1_000_000));
    }
    let weights_before = a.policy_net.weights.clone();
    let noise_before = a.exploration_noise;
    a.train_from_memory(&mut r);
    assert_eq!(a.training_iterations, 0);
    assert_eq!(a.exploration_noise, noise_before);
    assert_eq!(a.policy_net.weights, weights_before);
    assert_eq!(a.memory.size, 5);
}

#[test]
fn train_on_high_rewards_mutates_lightly_and_decays_noise() {
    let mut r = rng(4);
    let mut a = PPOAgent::new(AgentConfig::default(), &mut r);
    for _ in 0..128 {
        a.memory.push(transition(10_000_000));
    }
    let weights_before = a.policy_net.weights.clone();
    a.train_from_memory(&mut r);
    assert_eq!(a.training_iterations, 1);
    // decay only: 500000 * 999 / 1000
    assert_eq!(a.exploration_noise, 499_500);
    // the best tier perturbs each coefficient by at most 0.005 units
    for (lw, lc) in weights_before.iter().zip(a.policy_net.weights.iter()) {
        for (rw, rc) in lw.iter().zip(lc.iter()) {
            for (x, y) in rw.iter().zip(rc.iter()) {
                assert!((x - y).abs() <= 5_000);
            }
        }
    }
    // buffer not at capacity, so it is kept
    assert_eq!(a.memory.size, 128);
}

#[test]
fn train_on_poor_rewards_boosts_then_decays_noise() {
    let mut r = rng(5);
    let mut a = PPOAgent::new(AgentConfig::default(), &mut r);
    for _ in 0..128 {
        a.memory.push(transition(-10_000_000));
    }
    a.train_from_memory(&mut r);
    // boost: min(500000 * 13 / 10, 800000) = 650000; decay: * 999 / 1000
    assert_eq!(a.exploration_noise, 649_350);
    assert_eq!(a.training_iterations, 1);
    assert_eq!(a.memory.size, 128);
}

#[test]
fn stagnation_resets_after_five_hundred_scoreless_episodes() {
    let mut r = rng(6);
    let mut a = PPOAgent::new(AgentConfig::default(), &mut r);
    a.training_iterations = 77;
    a.normalizer.update(&vec![1_000_000; 6]);
    let weights_before = a.policy_net.weights.clone();
    let reset = a.check_performance_stagnation(501, 0, &mut r);
    assert!(reset);
    assert_eq!(a.exploration_noise, 1_000_000);
    assert_eq!(a.training_iterations, 0);
    assert_eq!(a.normalizer.count, 0);
    assert!(a.policy_net.weights != weights_before);
}

#[test]
fn stagnation_leaves_agent_alone_otherwise() {
    let mut r = rng(7);
    let mut a = PPOAgent::new(AgentConfig::default(), &mut r);
    let noise_before = a.exploration_noise;
    assert!(!a.check_performance_stagnation(500, 0, &mut r));
    assert!(!a.check_performance_stagnation(501, 3_000_000, &mut r));
    assert_eq!(a.exploration_noise, noise_before);
}

#[test]
fn get_action_is_clamped_and_feeds_normalizer() {
    let mut r = rng(8);
    let mut a = PPOAgent::new(AgentConfig::default(), &mut r);
    let obs = vec![250_000, 500_000, 0, 500_000, 1_000_000, 250_000];
    let action = a.get_action(&obs, &mut r);
    assert_eq!(action.len(), 2);
    for v in &action {
        assert!(-1_000_000 <= *v && *v <= 1_000_000);
    }
    assert_eq!(a.normalizer.count, 1);
    let action2 = a.get_action(&obs, &mut r);
    assert_eq!(a.normalizer.count, 2);
    assert_eq!(action2.len(), 2);
}

#[test]
fn advantages_discount_and_reset_at_terminals() {
    let mut r = rng(9);
    let a = PPOAgent::new(AgentConfig::default(), &mut r);
    let rewards = vec![1_000_000, 2_000_000, 3_000_000];
    let dones = vec![false, true, false];
    let adv = a.compute_advantages(&rewards, &dones);
    // gamma = 0.98: index 1 restarts at its own reward; index 0 adds the
    // discounted running return
    assert_eq!(adv, vec![2_960_000, 2_000_000, 3_000_000]);
}

#[test]
fn advantages_chain_without_terminals() {
    let mut r = rng(10);
    let a = PPOAgent::new(AgentConfig::default(), &mut r);
    let rewards = vec![1_000_000, 1_000_000];
    let dones = vec![false, false];
    let adv = a.compute_advantages(&rewards, &dones);
    // last: 1.0; first: 1.0 + 0.98 * 1.0
    assert_eq!(adv, vec![1_980_000, 1_000_000]);
}
