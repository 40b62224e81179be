//! The Airspy HF+ receiver: its control changes, its sample accounting and the
//! loop that drains its bulk endpoint.
pub mod handle;
pub mod laws;
pub mod ring;
pub mod stream;
