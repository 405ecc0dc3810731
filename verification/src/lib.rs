//! Verified core of a JX3 Cangyun combat simulator and its loop optimizer.

pub mod cast_gate;
pub mod compact;
pub mod diversity;
pub mod formation;
pub mod ga_events;
pub mod fmt;
pub mod frames;
pub mod hashing;
pub mod loop_config;
pub mod macro_text;
pub mod model;
pub mod ox;
pub mod mount;
pub mod pareto;
pub mod player;
pub mod random;
pub mod recipes;
pub mod render;
pub mod rules;
pub mod runtime;
pub mod strings;
pub mod struct_ops;
pub mod text;
