//! Verified protocol logic of a software-defined radio station.
pub mod adsb;
pub mod airspy;
pub mod airspyhf;
pub mod aprs;
pub mod atchat;
pub mod ax25;
pub mod cat;
pub mod decimal;
pub mod digi;
pub mod drm;
pub mod dsp;
pub mod floats;
pub mod roots;
pub mod text;
pub mod text_laws;
