//! Logic of a peer-to-peer file transfer with TCP hole punching.

pub mod cli;
pub mod connection;
pub mod digest;
pub mod metrics;
pub mod netinfo;
pub mod peer;
pub mod protocol;
pub mod punch;
pub mod relay;
pub mod rounding;
pub mod text;
pub mod transfer;
pub mod wire;
