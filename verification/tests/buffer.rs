use fusee_controle::memory::{ReplayBuffer, Transition};
use rand::SeedableRng;

fn t(reward: i64) -> Transition {
    Transition {
        state: vec![reward],
        action: vec![0, 0],
        reward,
        next_state: vec![reward + 1],
        done: false,
        log_prob: 0,
        value: 0,
    }
}

fn held_rewards(b: &ReplayBuffer) -> Vec<i64> {
    let mut r: Vec<i64> = b.buffer.iter().map(|x| x.reward).collect();
    r.sort();
    r
}

#[test]
fn push_within_capacity_keeps_all() {
    let mut b = ReplayBuffer::new(5);
    assert_eq!(b.capacity, 5);
    assert_eq!(b.size, 0);
    for i in 0..3 {
        b.push(t(i));
    }
    assert_eq!(b.size, 3);
    assert!(!b.is_full());
    assert_eq!(held_rewards(&b), vec![0, 1, 2]);
}

#[test]
fn push_beyond_capacity_keeps_most_recent() {
    let mut b = ReplayBuffer::new(3);
    for i in 1..=5 {
        b.push(t(i));
    }
    assert_eq!(b.size, 3);
    assert!(b.is_full());
    // the three most recently pushed survive, whatever their slots
    assert_eq!(held_rewards(&b), vec![3, 4, 5]);
}

#[test]
fn push_exactly_capacity_then_one_more() {
    let mut b = ReplayBuffer::new(2);
    b.push(t(10));
    b.push(t(20));
    assert!(b.is_full());
    b.push(t(30));
    assert_eq!(b.size, 2);
    assert_eq!(held_rewards(&b), vec![20, 30]);
}

#[test]
fn clear_resets_size_and_cursor() {
    let mut b = ReplayBuffer::new(2);
    b.push(t(1));
    b.push(t(2));
    b.push(t(3));
    b.clear();
    assert_eq!(b.size, 0);
    assert_eq!(b.position, 0);
    assert_eq!(b.capacity, 2);
    assert!(!b.is_full());
    b.push(t(9));
    assert_eq!(held_rewards(&b), vec![9]);
}

#[test]
fn sample_more_than_held_returns_all() {
    let mut rng = rand::rngs::StdRng::seed_from_u64(7);
    let mut b = ReplayBuffer::new(10);
    for i in 0..4 {
        b.push(t(i));
    }
    let s = b.sample(10, &mut rng);
    assert_eq!(s.len(), 4);
    let mut rewards: Vec<i64> = s.iter().map(|x| x.reward).collect();
    rewards.sort();
    assert_eq!(rewards, vec![0, 1, 2, 3]);
}

#[test]
fn sample_after_wraparound_draws_from_survivors() {
    let mut rng = rand::rngs::StdRng::seed_from_u64(99);
    let mut b = ReplayBuffer::new(3);
    for i in 1..=7 {
        b.push(t(i));
    }
    let s = b.sample(3, &mut rng);
    assert_eq!(s.len(), 3);
    let mut rewards: Vec<i64> = s.iter().map(|x| x.reward).collect();
    rewards.sort();
    assert_eq!(rewards, vec![5, 6, 7]);
}

#[test]
fn sample_returns_distinct_stored_entries() {
    let mut rng = rand::rngs::StdRng::seed_from_u64(42);
    let mut b = ReplayBuffer::new(10);
    for i in 0..8 {
        b.push(t(100 + i));
    }
    let s = b.sample(5, &mut rng);
    assert_eq!(s.len(), 5);
    let mut rewards: Vec<i64> = s.iter().map(|x| x.reward).collect();
    rewards.sort();
    for w in rewards.windows(2) {
        assert!(w[0] != w[1], "sampled entries must be distinct slots");
    }
    for r in rewards {
        assert!((100..108).contains(&r));
    }
}
