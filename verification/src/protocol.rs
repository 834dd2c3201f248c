//! Protocol messages: the JSON messages of the relay and the binary messages between the peers.

pub mod relay;
pub mod transfer;

pub use relay::{
    AddPortsMessage, ConnAbandonedMessage, ConnEstablishedMessage, NATAnalysis, ProbeMessage,
    RegisterMessage, RelayMessage,
};
