//! A mutation-based control agent for a simulated lander.
//!
//! The crate holds the learning and decision core: a feed-forward policy
//! network with a mutation operator, an online observation normalizer, a
//! bounded ring buffer of transitions with uniform sampling, a shaped reward
//! function, and the episode-level training policy around them. All numeric
//! state is fixed-point (see `fixed`), so every computation is exact integer
//! arithmetic with proved bounds; the only nondeterminism is a random source
//! passed in explicitly.

pub mod config;
pub mod control;
pub mod fixed;
pub mod memory;
pub mod network;
pub mod normalizer;
pub mod ppo;
pub mod rng;
