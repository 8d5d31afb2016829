use fusee_controle::config::AgentConfig;
use fusee_controle::ppo::{GameState, PPOAgent, RocketStats};
use rand::SeedableRng;

fn agent() -> PPOAgent {
    let mut rng = rand::rngs::StdRng::seed_from_u64(1);
    PPOAgent::new(AgentConfig::default(), &mut rng)
}

fn stats() -> RocketStats {
    RocketStats {
        altitude: 0,
        vertical_speed: 0,
        horizontal_speed: 0,
        angle_deg: 90_000_000,
        fuel_percentage: 0,
        distance_to_target: 0,
        landing_score: 0,
    }
}

#[test]
fn reward_landed_pays_bonus_plus_ten_times_score() {
    let a = agent();
    let mut s = stats();
    s.landing_score = 80_000_000;
    let r = a.compute_reward(&s, &GameState::Landed, 0);
    // 1000 + 10 * 80 = 1800 units
    assert_eq!(r, 1_800_000_000);
}

#[test]
fn reward_crashed_charges_speeds_and_angle() {
    let a = agent();
    let mut s = stats();
    s.angle_deg = 90_000_000;
    s.vertical_speed = 5_000_000;
    s.horizontal_speed = 2_000_000;
    s.distance_to_target = 10_000_000;
    let r = a.compute_reward(&s, &GameState::Crashed, 3);
    // -100 - 0 - 15 - 4 = -119 units
    assert_eq!(r, -119_000_000);
}

#[test]
fn reward_crashed_far_from_target_charges_twenty_more() {
    let a = agent();
    let mut s = stats();
    s.angle_deg = 90_000_000;
    s.vertical_speed = 5_000_000;
    s.horizontal_speed = 2_000_000;
    s.distance_to_target = 60_000_000;
    let r = a.compute_reward(&s, &GameState::Crashed, 3);
    assert_eq!(r, -139_000_000);
}

#[test]
fn reward_playing_shaping_adds_up_exactly() {
    let a = agent();
    let s = RocketStats {
        altitude: 50_000_000,
        vertical_speed: -5_000_000,
        horizontal_speed: 0,
        angle_deg: 90_000_000,
        fuel_percentage: 500_000,
        distance_to_target: 20_000_000,
        landing_score: 0,
    };
    let r = a.compute_reward(&s, &GameState::Playing, 10);
    // -0.1 + 10 + 5 + 5 + 2 + 0.25 = 22.15 units
    assert_eq!(r, 22_150_000);
}

#[test]
fn reward_playing_bad_angle_loses_position_bonus() {
    let a = agent();
    let s = RocketStats {
        altitude: 500_000_000,
        vertical_speed: 5_000_000,
        horizontal_speed: 0,
        angle_deg: 0,
        fuel_percentage: 0,
        distance_to_target: 20_000_000,
        landing_score: 0,
    };
    // deviation 90: angle -5; |v| < 10: +5; position gated off; no descent
    let r = a.compute_reward(&s, &GameState::Playing, 0);
    assert_eq!(r, -100_000 - 5_000_000 + 5_000_000);
}

#[test]
fn reward_restarting_is_zero() {
    let a = agent();
    let r = a.compute_reward(&stats(), &GameState::Restarting, 0);
    assert_eq!(r, 0);
}
