//! File transfer over the punched connections: blocks with a header, a checksum and an answer
//! each, over one or more streams.

pub mod chunking;
pub mod sender;
pub mod receiver;
pub mod filename;
pub mod session;
pub mod reception;
pub mod bench;
pub mod bench_session;
