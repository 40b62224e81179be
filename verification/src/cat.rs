//! Control of a transceiver over its CAT port: what is written to the radio
//! and when, and what its answers mean.
pub mod civ;
pub mod civ_laws;
pub mod config;
pub mod flrig;
pub mod flrig_laws;
pub mod handle;
pub mod http;
pub mod laws;
pub mod ports;
pub mod power;
pub mod session;
pub mod session_laws;
pub mod xml;
