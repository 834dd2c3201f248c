//! Establishing connections through the relay, one after the other.

pub mod establish;
pub mod message_queue;
pub mod message_receiver;
pub mod ports;
pub mod queue_readers;
pub mod state_machine;
pub mod types;

pub use message_queue::MessageQueues;
pub use state_machine::{
    handle_connection_failure, handle_connection_success, handle_go_transition,
    handle_peer_info_transition, handle_retry_granted, handle_retry_request, ConnectionState,
};
pub use types::GoSignal;
