//! AX.25: addresses and the packet codec.
use vstd::prelude::*;

pub mod addr;
pub mod laws;
pub mod packet;

verus! {

/// Why something is not AX.25.
#[derive(Clone, Debug, PartialEq, Eq)]
pub enum Ax25Error {
    /// Not a callsign. The text is the one that was tried, in upper case.
    Callsign(String),
    /// An address field of this many bytes instead of seven.
    AddrLength(usize),
    /// A frame of this many bytes, too short to hold two addresses and a
    /// control field.
    Short(usize),
    /// A frame whose control field does not make sense.
    Parse(String),
}

} // verus!
