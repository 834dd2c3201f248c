//! TCP hole punching by simultaneous open.

pub mod handshake;
pub mod strategy;
pub mod target_laws;
pub mod targets;

pub use strategy::PunchOptions;
pub use targets::{Endpoint, PeerInfo, Target};
