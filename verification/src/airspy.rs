//! The Airspy R2 and Mini: their wire protocol, and the sequences of requests
//! that change their state.
pub mod device;
pub mod laws;
pub mod protocol;
