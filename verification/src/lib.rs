//! An ant-colony maze game server library: maze model and generation,
//! the wire protocol, and the per-session simulation rules.
pub mod ai;
pub mod client;
pub mod codec;
pub mod config;
pub mod error;
pub mod generator;
pub mod json;
pub mod lobby;
pub mod maze;
pub mod messages;
pub mod record;
pub mod rng;
pub mod session;
pub mod state;
