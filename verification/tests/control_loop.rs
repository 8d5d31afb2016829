use fusee_controle::config::AgentConfig;
use fusee_controle::control::{build_observation, handle_episode_end, rl_control_system, RLTraining};
use fusee_controle::ppo::{GameState, PPOAgent, RocketStats};
use rand::SeedableRng;

fn rng(seed: u64) -> rand::rngs::StdRng {
    rand::rngs::StdRng::seed_from_u64(seed)
}

fn fresh_training(seed: u64) -> RLTraining {
    let mut r = rng(seed);
    RLTraining {
        agent: PPOAgent::new(AgentConfig::default(), &mut r),
        episode_count: 0,
        total_steps: 0,
        best_score: 0,
        training: true,
        current_episode_steps: 0,
        last_state: None,
        last_action: None,
        consecutive_crashes: 0,
    }
}

fn mid_air_stats() -> RocketStats {
    RocketStats {
        altitude: 400_000_000,
        vertical_speed: 0,
        horizontal_speed: 50_000_000,
        angle_deg: 90_000_000,
        fuel_percentage: 750_000,
        distance_to_target: 100_000_000,
        landing_score: 0,
    }
}

#[test]
fn observation_scales_each_feature() {
    let obs = build_observation(&mid_air_stats());
    assert_eq!(
        obs,
        vec![1_000_000, 500_000, 500_000, 500_000, 750_000, 250_000]
    );
}

#[test]
fn observation_caps_distance_at_one_unit() {
    let mut s = mid_air_stats();
    s.distance_to_target = 800_000_000;
    let obs = build_observation(&s);
    assert_eq!(obs[5], 1_000_000);
}

#[test]
fn control_system_idles_outside_live_episodes() {
    let mut training = fresh_training(20);
    let mut r = rng(21);
    let out = rl_control_system(&mut training, GameState::Crashed, &mid_air_stats(), &mut r);
    assert!(out.is_none());
    assert_eq!(training.total_steps, 0);
    assert!(training.last_state.is_none());

    training.training = false;
    let out = rl_control_system(&mut training, GameState::Playing, &mid_air_stats(), &mut r);
    assert!(out.is_none());
    assert_eq!(training.total_steps, 0);
}

#[test]
fn control_system_records_one_tick_late() {
    let mut training = fresh_training(22);
    let mut r = rng(23);
    let stats = mid_air_stats();

    let first = rl_control_system(&mut training, GameState::Playing, &stats, &mut r).unwrap();
    // first tick: an action was chosen, but there was nothing to record yet
    assert_eq!(training.agent.memory.size, 0);
    assert!(training.last_state.is_some());
    assert!(training.last_action.is_some());
    assert_eq!(training.total_steps, 1);
    assert!(first.controlled_by_ai);
    assert!((0..=1_000_000).contains(&first.throttle));
    assert!((-1_000_000..=1_000_000).contains(&first.rotation));

    let expected_reward = training
        .agent
        .compute_reward(&stats, &GameState::Playing, 1);
    let _ = rl_control_system(&mut training, GameState::Playing, &stats, &mut r).unwrap();
    // second tick: the pending pair was paired with this tick's reward
    assert_eq!(training.agent.memory.size, 1);
    assert_eq!(training.agent.memory.buffer[0].reward, expected_reward);
    assert_eq!(training.agent.memory.buffer[0].done, false);
    assert_eq!(
        training.agent.memory.buffer[0].next_state,
        build_observation(&stats)
    );
    assert_eq!(training.total_steps, 2);
}

#[test]
fn episode_end_counts_crashes_and_episodes() {
    let mut training = fresh_training(24);
    let mut r = rng(25);
    training.last_state = Some(vec![0; 6]);
    training.last_action = Some(vec![0, 0]);
    training.current_episode_steps = 40;

    handle_episode_end(&mut training, GameState::Crashed, &mid_air_stats(), &mut r);
    assert_eq!(training.episode_count, 1);
    assert_eq!(training.consecutive_crashes, 1);
    assert_eq!(training.current_episode_steps, 0);
    assert!(training.last_state.is_none());
    assert!(training.last_action.is_none());

    handle_episode_end(&mut training, GameState::Playing, &mid_air_stats(), &mut r);
    // not an episode boundary
    assert_eq!(training.episode_count, 1);
}

#[test]
fn episode_end_keeps_best_landing_score() {
    let mut training = fresh_training(26);
    let mut r = rng(27);
    let mut stats = mid_air_stats();
    stats.landing_score = 55_000_000;
    handle_episode_end(&mut training, GameState::Landed, &stats, &mut r);
    assert_eq!(training.best_score, 55_000_000);
    assert_eq!(training.consecutive_crashes, 0);

    stats.landing_score = 30_000_000;
    handle_episode_end(&mut training, GameState::Landed, &stats, &mut r);
    // a worse landing does not lower the best
    assert_eq!(training.best_score, 55_000_000);
    assert_eq!(training.episode_count, 2);
}
