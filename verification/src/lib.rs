//! A deterministic, event-driven gamification rule engine.
//!
//! The engine ingests structured player events, advances three families of
//! rules (simple, compound, result) in a fixed order, moves completed rules
//! between enabled and disabled sets, cascades completions, and applies
//! special outcomes such as `Restart`. Rules are written in a line-oriented
//! textual grammar, one rule per line.

pub mod scalar;
pub mod outcome;
pub mod named_map;
pub mod event;
pub mod simple_rule;
pub mod compound_rule;
pub mod sampler;
pub mod rule_result;
pub mod state;
pub mod text;
pub mod parser;
pub mod config;
pub mod net;
pub mod laws;
