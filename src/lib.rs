//! Request/response multiplexing for one peer connection, as a verified
//! state machine, together with a few plain beacon-chain data records.

pub mod beacon;
pub mod error;
pub mod handler;
pub mod laws;
pub mod message;
pub mod model;
