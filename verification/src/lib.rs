//! Keyframe animation channels: sparse time-indexed samples over an ordered
//! sample store, evaluated by exact lookup, neighbour search and a one-entry
//! evaluation cache.

pub mod animation;
pub mod samples;
pub mod text;
