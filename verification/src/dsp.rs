//! Signal processing: the tones under and in front of an FM over, and the
//! linearisation of a power amplifier.
pub mod feedback;
pub mod laws;
pub mod predistort;
pub mod predistort_laws;
pub mod tonegen;
