//! Receiver-side core of a live audio relay over datagrams: the wire codec for
//! audio chunks, the per-sender playback sessions, and the registry that routes
//! chunks to sessions and evicts the idle ones.

pub mod guarantees;
pub mod message_packing;
pub mod numbering;
pub mod registry;
pub mod session_map;
pub mod streamer;
