//! Packet radio: access to a shared channel, and the station that uses it.
pub mod ax25_channel;
pub mod laws;
pub mod packet_controller;
