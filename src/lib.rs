//! Message channels between two chess clients: the protocol codec, stream
//! framing, the polling relay's decisions, and the local channels.
pub mod protocol;
pub mod framing;
pub mod relay;
pub mod connection;
