//! A transmitter: which samples of a reply are lit, and a source of noise to put
//! it into. What it places its pulses by is what the demodulator looks for them
//! by.
use crate::adsb::demod;
use crate::adsb::demod::{Rate, MAX_RATE, PREAMBLE};
use vstd::prelude::*;

verus! {

broadcast use vstd::seq::group_seq_axioms;

/// Quiet chips in front of a reply: ten microseconds.
pub const LEAD: u32 = 20;

/// How many samples a reply takes with the quiet around it, behind it a whole
/// long message and a little more.
pub open spec fn length(rate: int, bytes: int) -> int {
    demod::samples(rate, 146 + 8 * bytes)
}

/// Whether a sample is lit: it is in a chip that is.
pub open spec fn is_lit(msg: Seq<u8>, rate: int, i: int) -> bool {
    exists|h: int|
        0 <= h < PREAMBLE + 16 * msg.len() && #[trigger] demod::lit(msg, h) && demod::at(
            rate,
            LEAD + h,
        ) <= i < demod::at(rate, LEAD + h + 1)
}

fn chip_lit(msg: &[u8], h: u32) -> (r: bool)
    requires
        h < PREAMBLE + 16 * msg@.len(),
        msg@.len() <= 14,
    ensures
        r == demod::lit(msg@, h as int),
{
    if h < 16 {
        return h == 0 || h == 2 || h == 7 || h == 9;
    }
    let k: u32 = (h - 16) / 2;
    let p: u8 = match k % 8 {
        0 => 128,
        1 => 64,
        2 => 32,
        3 => 16,
        4 => 8,
        5 => 4,
        6 => 2,
        _ => 1,
    };
    let bit: bool = msg[(k / 8) as usize] / p % 2 == 1;
    (h % 2 == 0) == bit
}

/// Which samples of a reply are lit.
pub fn keyed(msg: &[u8], rate_hz: u32) -> (r: Vec<bool>)
    requires
        0 < rate_hz <= MAX_RATE,
        msg@.len() <= 14,
    ensures
        r@.len() == length(rate_hz as int, msg@.len() as int),
        forall|i: int|
            0 <= i < r@.len() ==> #[trigger] r@[i] == is_lit(msg@, rate_hz as int, i),
{
    let rate: Rate = Rate { hz: rate_hz };
    let n: usize = rate.micros(146 + 8 * msg.len() as u32);
    let mut on: Vec<bool> = Vec::new();
    while on.len() < n
        invariant
            on@.len() <= n,
            forall|i: int| 0 <= i < on@.len() ==> !#[trigger] on@[i],
        decreases n - on@.len(),
    {
        on.push(false);
    }
    let chips: u32 = 16 + 16 * msg.len() as u32;
    let mut h: u32 = 0;
    while h < chips
        invariant
            h <= chips,
            chips == PREAMBLE + 16 * msg@.len(),
            msg@.len() <= 14,
            rate.hz == rate_hz,
            0 < rate_hz <= MAX_RATE,
            on@.len() == n,
            n == length(rate_hz as int, msg@.len() as int),
            forall|i: int|
                0 <= i < n ==> #[trigger] on@[i] == lit_below(
                    msg@,
                    rate_hz as int,
                    h as int,
                    i,
                ),
        decreases chips - h,
    {
        if chip_lit(msg, h) {
            let a: usize = rate.chip_start(LEAD + h);
            let b: usize = rate.chip_start(LEAD + h + 1);
            let mut j: usize = a;
            while j < b && j < n
                invariant
                    a <= j,
                    on@.len() == n,
                    a == demod::at(rate_hz as int, LEAD + h),
                    b == demod::at(rate_hz as int, LEAD + h + 1),
                    forall|i: int|
                        0 <= i < n ==> #[trigger] on@[i] == (lit_below(
                            msg@,
                            rate_hz as int,
                            h as int,
                            i,
                        ) || (a <= i < j && i < b)),
                decreases n - j,
            {
                on.set(j, true);
                j += 1;
            }
            proof {
                assert forall|i: int| 0 <= i < n implies #[trigger] on@[i] == lit_below(
                    msg@,
                    rate_hz as int,
                    h + 1,
                    i,
                ) by {
                    lemma_one_more(msg@, rate_hz as int, h as int, i);
                }
            }
        } else {
            proof {
                assert forall|i: int| 0 <= i < n implies #[trigger] on@[i] == lit_below(
                    msg@,
                    rate_hz as int,
                    h + 1,
                    i,
                ) by {
                    lemma_one_more(msg@, rate_hz as int, h as int, i);
                }
            }
        }
        h += 1;
    }
    on
}

/// Whether a sample is in one of the first chips that are lit.
spec fn lit_below(msg: Seq<u8>, rate: int, n: int, i: int) -> bool {
    exists|h: int|
        0 <= h < n && #[trigger] demod::lit(msg, h) && demod::at(rate, LEAD + h) <= i < demod::at(
            rate,
            LEAD + h + 1,
        )
}

proof fn lemma_one_more(msg: Seq<u8>, rate: int, n: int, i: int)
    requires
        0 <= n,
    ensures
        lit_below(msg, rate, n + 1, i) == (lit_below(msg, rate, n, i) || (demod::lit(msg, n)
            && demod::at(rate, LEAD + n) <= i < demod::at(rate, LEAD + n + 1))),
{
    if lit_below(msg, rate, n, i) {
        let h = choose|h: int|
            0 <= h < n && #[trigger] demod::lit(msg, h) && demod::at(rate, LEAD + h) <= i
                < demod::at(rate, LEAD + h + 1);
        assert(demod::lit(msg, h));
    }
}

/// A source of noise that gives the same noise for the same seed.
#[derive(Debug, Clone, Copy, PartialEq, Eq, Structural)]
pub struct Noise {
    pub state: u64,
}

/// The next state.
pub open spec fn stirred(s: u64) -> u64 {
    let a = s ^ (s << 13);
    let b = a ^ (a >> 7);
    b ^ (b << 17)
}

impl Noise {
    pub fn new(seed: u64) -> (r: Noise)
        ensures
            r.state == seed | 1,
    {
        Noise { state: seed | 1 }
    }

    /// The next 24 bits.
    pub fn next(&mut self) -> (r: u32)
        ensures
            final(self).state == stirred(old(self).state),
            r == (stirred(old(self).state) >> 40) as u32,
    {
        let s: u64 = self.state;
        let a: u64 = s ^ (s << 13);
        let b: u64 = a ^ (a >> 7);
        self.state = b ^ (b << 17);
        (self.state >> 40) as u32
    }
}

proof fn lemma_lead(rate: int, h: int)
    requires
        rate % 100_000 == 0,
        h >= 0,
    ensures
        demod::at(rate, LEAD + h) == demod::at(rate, LEAD as int) + demod::at(rate, h),
{
    let m = rate / 100_000;
    let x = h * rate;
    assert((20 + h) * rate == 2_000_000 * m + x) by (nonlinear_arith)
        requires
            rate == 100_000 * m,
            x == h * rate,
    ;
    assert(20 * rate == 2_000_000 * m);
}

proof fn lemma_ordered(rate: int, a: int, b: int)
    requires
        rate >= 2_000_000,
        0 <= a < b,
    ensures
        demod::at(rate, a + 1) <= demod::at(rate, b),
{
    assert((a + 1) * rate <= b * rate) by (nonlinear_arith)
        requires
            a + 1 <= b,
            rate >= 0,
    ;
}

/// What the transmitter lights arrives as the message, where the rate is so many
/// hundreds of kilohertz: power where a sample is lit, and none elsewhere.
pub proof fn law_a_keyed_burst_arrives(p: Seq<u64>, rate: int, msg: Seq<u8>, amp: int)
    requires
        rate >= 2_000_000,
        rate % 100_000 == 0,
        p.len() == length(rate, msg.len() as int),
        forall|i: int|
            0 <= i < p.len() ==> #[trigger] p[i] == if is_lit(msg, rate, i) {
                amp
            } else {
                0
            },
    ensures
        demod::arrives(p, rate, demod::at(rate, LEAD as int), msg, amp),
{
    let base = demod::at(rate, LEAD as int);
    assert forall|h: int, i: int|
        0 <= h < PREAMBLE + 16 * msg.len() && #[trigger] demod::in_chip(
            rate,
            base,
            h,
            i,
        ) implies 0 <= i < p.len() && p[i] == (if demod::lit(msg, h) {
        amp
    } else {
        0
    }) by {
        lemma_lead(rate, h);
        lemma_lead(rate, h + 1);
        lemma_inside(rate, msg.len() as int, h, i);
        if demod::lit(msg, h) {
            assert(is_lit(msg, rate, i));
        } else if is_lit(msg, rate, i) {
            let g = choose|g: int|
                0 <= g < PREAMBLE + 16 * msg.len() && #[trigger] demod::lit(msg, g) && demod::at(
                    rate,
                    LEAD + g,
                ) <= i < demod::at(rate, LEAD + g + 1);
            if g < h {
                lemma_ordered(rate, LEAD + g, LEAD + h);
            } else if h < g {
                lemma_ordered(rate, LEAD + h, LEAD + g);
            }
            assert(false);
        }
    }
}

/// The chips of a reply are among its samples.
proof fn lemma_inside(rate: int, bytes: int, h: int, i: int)
    requires
        rate >= 2_000_000,
        bytes >= 0,
        0 <= h < PREAMBLE + 16 * bytes,
        demod::at(rate, LEAD + h) <= i < demod::at(rate, LEAD + h + 1),
    ensures
        0 <= i < length(rate, bytes),
{
    let us = 146 + 8 * bytes;
    let x = (LEAD + h + 1) * rate;
    assert(x <= 2 * (us * rate) - rate) by (nonlinear_arith)
        requires
            x == (20 + h + 1) * rate,
            h < 16 + 16 * bytes,
            us == 146 + 8 * bytes,
            rate >= 0,
    ;
    assert((LEAD + h) * rate >= 0) by (nonlinear_arith)
        requires
            h >= 0,
            rate >= 0,
    ;
}

} // verus!
