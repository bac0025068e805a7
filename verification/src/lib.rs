//! Verified core of a small top-down survivor game: player progression,
//! hit cooldowns, collision outcomes, animation frames and pause handling.
//! Engine plumbing (rendering, physics queries, input) lives outside this crate;
//! entities are identified here by their 64-bit engine ids and time by whole nanoseconds.

pub mod animation;
pub mod combat;
pub mod effects;
pub mod game_flow;
pub mod player;
pub mod timers;
