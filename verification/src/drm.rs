//! Digital Radio Mondiale: the worker around a decoder.
pub mod laws;
pub mod worker;
