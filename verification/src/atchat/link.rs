//! Audio samples as base64 text, and where a station connects to.
use crate::atchat::netproto;
use crate::atchat::netproto::{ClientMsg, NotBase64};
use vstd::prelude::*;

verus! {

broadcast use vstd::seq::group_seq_axioms;

/// A 16-bit sample as an unsigned number.
pub open spec fn unsigned(s: i16) -> int {
    if s < 0 {
        s + 65536
    } else {
        s as int
    }
}

/// Samples as bytes, low byte first.
pub open spec fn sample_bytes(s: Seq<i16>) -> Seq<u8> {
    Seq::new(
        2 * s.len(),
        |i: int|
            if i % 2 == 0 {
                (unsigned(s[i / 2]) % 256) as u8
            } else {
                (unsigned(s[i / 2]) / 256) as u8
            },
    )
}

/// The sample of a low and a high byte.
pub open spec fn sample_of(lo: u8, hi: u8) -> i16 {
    let u = lo + 256 * hi;
    if u >= 32768 {
        (u - 65536) as i16
    } else {
        u as i16
    }
}

/// The samples of some bytes; an odd byte at the end is left out.
pub open spec fn byte_samples(b: Seq<u8>) -> Seq<i16> {
    Seq::new((b.len() / 2) as nat, |i: int| sample_of(b[2 * i], b[2 * i + 1]))
}

/// The samples that a base64 text stands for.
pub open spec fn text_samples(s: Seq<char>) -> Option<Seq<i16>> {
    match netproto::base64_bytes(s) {
        Some(b) => Some(byte_samples(b)),
        None => None,
    }
}

/// Samples read back from their bytes.
pub proof fn law_samples_read_back(s: Seq<i16>)
    ensures
        byte_samples(sample_bytes(s)) == s,
{
    let b = sample_bytes(s);
    assert forall|i: int| 0 <= i < s.len() implies sample_of(b[2 * i], b[2 * i + 1]) == s[i] by {
        assert((2 * i) / 2 == i && (2 * i) % 2 == 0);
        assert((2 * i + 1) / 2 == i && (2 * i + 1) % 2 == 1);
    }
    assert(byte_samples(b) =~= s);
}

/// Samples as little-endian bytes.
pub fn samples_to_bytes(samples: &[i16]) -> (r: Vec<u8>)
    ensures
        r@ == sample_bytes(samples@),
{
    let mut bytes: Vec<u8> = Vec::new();
    let mut i: usize = 0;
    while i < samples.len()
        invariant
            i <= samples@.len(),
            bytes@ == sample_bytes(samples@.take(i as int)),
        decreases samples@.len() - i,
    {
        let s: i32 = samples[i] as i32;
        let u: i32 = if s < 0 { s + 65536 } else { s };
        let ghost before = samples@.take(i as int);
        bytes.push((u % 256) as u8);
        bytes.push((u / 256) as u8);
        i += 1;
        proof {
            let now = samples@.take(i as int);
            assert forall|j: int| 0 <= j < 2 * i implies bytes@[j] == sample_bytes(now)[j] by {
                if j < 2 * (i - 1) {
                    assert(sample_bytes(before)[j] == sample_bytes(now)[j]);
                }
            }
            assert(bytes@ =~= sample_bytes(now));
        }
    }
    assert(samples@.take(samples@.len() as int) =~= samples@);
    bytes
}

/// Little-endian bytes as samples.
pub fn bytes_to_samples(bytes: &[u8]) -> (r: Vec<i16>)
    ensures
        r@ == byte_samples(bytes@),
{
    let mut out: Vec<i16> = Vec::new();
    let total: usize = bytes.len();
    let n: usize = total / 2;
    let mut i: usize = 0;
    while i < n
        invariant
            i <= n,
            total == bytes@.len(),
            n == total / 2,
            out@.len() == i,
            forall|j: int| 0 <= j < i ==> out@[j] == byte_samples(bytes@)[j],
        decreases n - i,
    {
        let u: i32 = bytes[2 * i] as i32 + 256 * (bytes[2 * i + 1] as i32);
        out.push(
            if u >= 32768 {
                (u - 65536) as i16
            } else {
                u as i16
            },
        );
        i += 1;
    }
    assert(out@ =~= byte_samples(bytes@));
    out
}

/// Samples as base64 text, which reads back as the same samples.
pub fn samples_to_b64(samples: &[i16]) -> (r: String)
    ensures
        r@ == netproto::base64_of(sample_bytes(samples@)),
        text_samples(r@) == Some(samples@),
{
    let bytes = samples_to_bytes(samples);
    proof {
        law_samples_read_back(samples@);
    }
    netproto::b64e(bytes.as_slice())
}

/// The samples of a base64 text.
pub fn b64_to_samples(b64: &str) -> (r: Result<Vec<i16>, NotBase64>)
    ensures
        match r {
            Ok(v) => text_samples(b64@) == Some(v@),
            Err(_) => text_samples(b64@) is None,
        },
{
    match netproto::b64d(b64) {
        Ok(bytes) => Ok(bytes_to_samples(bytes.as_slice())),
        Err(e) => Err(e),
    }
}

/// The direction from a station to the channel.
pub trait LinkTx {
    /// Sends a message; false where the link is gone.
    fn send(&mut self, msg: ClientMsg) -> bool;

    /// Closes the link.
    fn close(&mut self);
}

/// Where a station connects to, and as whom.
#[derive(Debug, Clone)]
pub struct TcpConnector {
    pub addr: String,
    pub callsign: String,
}

impl TcpConnector {
    pub fn new(addr: String, callsign: String) -> (r: Self)
        ensures
            r.addr == addr,
            r.callsign == callsign,
    {
        TcpConnector { addr, callsign }
    }
}

} // verus!
