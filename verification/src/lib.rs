//! Craft: a data-driven game engine core with verified scene, signal,
//! resource, lint and replay logic.

pub mod behavior;
pub mod canonical;
pub mod determinism;
pub mod engine;
pub mod evaluate;
pub mod error;
pub mod evaluator;
pub mod expression;
pub mod games;
pub mod hot_reload;
pub mod json;
pub mod lint;
pub mod load;
pub mod load_actions;
pub mod load_scene;
pub mod modules;
pub mod path;
pub mod project;
pub mod render;
pub mod replay;
pub mod resource;
pub mod scene;
pub mod same;
pub mod schema;
pub mod signal;
pub mod state_hash;
pub mod strmap;
pub mod suggest;
pub mod system;
pub mod terminal;
pub mod text;
pub mod validate;
