//! The symbol in front of a transmission, by which its start is found.
use vstd::prelude::*;

verus! {

/// The carriers of the preamble, of two and every other one from there, that are
/// turned by half: both ends know them.
pub const PREAMBLE: u64 = 0x68f9_0059_28ed_5eb2;

/// How many carriers the preamble has.
pub const PREAMBLE_CARRIERS: usize = 63;

/// Whether carrier `2 * i + 2` of the preamble is turned by half.
pub open spec fn preamble_turned(i: int) -> bool {
    PREAMBLE as int / vstd::arithmetic::power2::pow2((62 - i) as nat) as int % 2 == 1
}

/// The phases of the carriers of the preamble, in eighths of a turn, from carrier
/// two on: every other one, and nothing in between, so that the symbol repeats
/// itself after half its length.
pub fn preamble_phases() -> (r: Vec<u8>)
    ensures
        r@.len() == PREAMBLE_CARRIERS,
        forall|i: int|
            0 <= i < r@.len() ==> #[trigger] r@[i] == (if preamble_turned(i) {
                4u8
            } else {
                0u8
            }),
{
    let mut r: Vec<u8> = Vec::new();
    let mut d: u64 = 0x4000_0000_0000_0000;
    let mut i: usize = 0;
    proof {
        vstd::arithmetic::power2::lemma2_to64_rest();
        vstd::arithmetic::power2::lemma2_to64();
    }
    while i < PREAMBLE_CARRIERS
        invariant
            i <= PREAMBLE_CARRIERS,
            r@.len() == i,
            i < PREAMBLE_CARRIERS ==> d == vstd::arithmetic::power2::pow2((62 - i) as nat),
            forall|k: int|
                0 <= k < i ==> #[trigger] r@[k] == (if preamble_turned(k) {
                    4u8
                } else {
                    0u8
                }),
        decreases PREAMBLE_CARRIERS - i,
    {
        proof {
            vstd::arithmetic::power2::lemma_pow2_pos((62 - i) as nat);
        }
        let turned: bool = PREAMBLE / d % 2 == 1;
        r.push(if turned { 4 } else { 0 });
        proof {
            if i < 62 {
                vstd::arithmetic::power2::lemma_pow2_unfold((62 - i) as nat);
            }
        }
        d = d / 2;
        i += 1;
    }
    r
}

} // verus!
