//! ADS-B: Mode S replies on 1090 MHz.
pub mod burst;
pub mod demod;
pub mod laws;
pub mod track;
