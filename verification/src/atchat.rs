//! AtCHAT: a chat network over an audio channel — its wire messages, its modem
//! and the shared channel.
pub mod channel;
pub mod channel_laws;
pub mod json;
pub mod laws;
pub mod link;
pub mod modem;
pub mod netproto;
pub mod preamble;
pub mod sync;
pub mod types;
