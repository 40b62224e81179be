//! The pulse-position demodulator: envelope power in, candidate messages out.
//!
//! A reply is an 8 µs preamble with pulses at 0, 1, 3.5 and 4.5 µs, and 56 or 112
//! bits of 1 µs: energy in the first half of a bit is a one, in the second a
//! zero. The first five bits say which length it is. Everything is measured in
//! half microseconds, called chips here, and a chip is as many samples as the
//! rate makes it.
//!
//! Power is in units of 10^-12 of full scale.
use vstd::prelude::*;

verus! {

broadcast use vstd::seq::group_seq_axioms;

/// Bits of a long message.
pub const LONG_BITS: usize = 112;

/// Bits of a short message.
pub const SHORT_BITS: usize = 56;

/// Chips of the preamble.
pub const PREAMBLE: usize = 16;

/// The most power that a sample can have.
pub const MAX_POWER: u64 = 0x4_0000_0000_0000;

/// The fastest rate, in samples a second.
pub const MAX_RATE: u32 = 1_000_000_000;

/// How many samples a chip starts behind the first, to the nearest.
pub open spec fn at(rate: int, h: int) -> int {
    (h * rate + 1_000_000) / 2_000_000
}

/// How many samples so many microseconds take, a part of one counted in full.
pub open spec fn samples(rate: int, us: int) -> int {
    (us * rate + 999_999) / 1_000_000
}

/// The sum of the samples from `a` up to `b`.
pub open spec fn sum(p: Seq<u64>, a: int, b: int) -> int
    decreases b - a,
{
    if b <= a {
        0
    } else {
        sum(p, a, b - 1) + p[b - 1]
    }
}

/// Where a chip starts.
pub open spec fn chip_start(rate: int, base: int, h: int) -> int {
    base + at(rate, h)
}

/// Where a chip ends: at least one sample behind its start, and not behind the
/// last.
pub open spec fn chip_end(rate: int, base: int, h: int, len: int) -> int {
    let next = base + at(rate, h + 1);
    let a = chip_start(rate, base, h);
    let b = if next > a + 1 {
        next
    } else {
        a + 1
    };
    if b > len {
        len
    } else {
        b
    }
}

/// The mean power of a chip of a message that starts at `base`.
#[verifier::opaque]
pub open spec fn chip(p: Seq<u64>, rate: int, base: int, h: int) -> int {
    let a = chip_start(rate, base, h);
    let b = chip_end(rate, base, h, p.len() as int);
    if a >= b {
        0
    } else {
        sum(p, a, b) / (b - a)
    }
}

pub open spec fn least(a: int, b: int) -> int {
    if a < b {
        a
    } else {
        b
    }
}

pub open spec fn most(a: int, b: int) -> int {
    if a > b {
        a
    } else {
        b
    }
}

/// The weakest of the four pulses.
pub open spec fn weakest(p: Seq<u64>, rate: int, base: int) -> int {
    least(
        least(chip(p, rate, base, 0), chip(p, rate, base, 2)),
        least(chip(p, rate, base, 7), chip(p, rate, base, 9)),
    )
}

/// The strongest of the four pulses.
pub open spec fn strongest(p: Seq<u64>, rate: int, base: int) -> int {
    most(
        most(chip(p, rate, base, 0), chip(p, rate, base, 2)),
        most(chip(p, rate, base, 7), chip(p, rate, base, 9)),
    )
}

/// The loudest of the six chips that have to be dark.
pub open spec fn loudest_space(p: Seq<u64>, rate: int, base: int) -> int {
    most(
        most(
            most(chip(p, rate, base, 1), chip(p, rate, base, 3)),
            most(chip(p, rate, base, 4), chip(p, rate, base, 6)),
        ),
        most(chip(p, rate, base, 8), chip(p, rate, base, 10)),
    )
}

/// Whether a preamble starts at `base`: its pulses stand three times above the
/// noise, and twice above every dark chip.
pub open spec fn preamble_at(p: Seq<u64>, rate: int, noise: int, base: int) -> bool {
    let w = weakest(p, rate, base);
    w >= 3 * noise && w >= 2 * loudest_space(p, rate, base)
}

/// Bit `k` of a message.
pub open spec fn bit_at(p: Seq<u64>, rate: int, base: int, k: int) -> bool {
    chip(p, rate, base, PREAMBLE + 2 * k) > chip(p, rate, base, PREAMBLE + 2 * k + 1)
}

pub open spec fn one(b: bool) -> int {
    if b {
        1
    } else {
        0
    }
}

/// Byte `i` of a message, its highest bit first.
#[verifier::opaque]
pub open spec fn byte_at(p: Seq<u64>, rate: int, base: int, i: int) -> int {
    128 * one(bit_at(p, rate, base, 8 * i)) + 64 * one(bit_at(p, rate, base, 8 * i + 1)) + 32 * one(
        bit_at(p, rate, base, 8 * i + 2),
    ) + 16 * one(bit_at(p, rate, base, 8 * i + 3)) + 8 * one(bit_at(p, rate, base, 8 * i + 4)) + 4
        * one(bit_at(p, rate, base, 8 * i + 5)) + 2 * one(bit_at(p, rate, base, 8 * i + 6)) + one(
        bit_at(p, rate, base, 8 * i + 7),
    )
}

/// The downlink format: the first five bits.
pub open spec fn downlink_format(p: Seq<u64>, rate: int, base: int) -> int {
    byte_at(p, rate, base, 0) / 8
}

/// How many bits a message has: long ones are of the formats from 16 on.
pub open spec fn bit_count(p: Seq<u64>, rate: int, base: int) -> int {
    if downlink_format(p, rate, base) >= 16 {
        LONG_BITS as int
    } else {
        SHORT_BITS as int
    }
}

/// The bytes of a message.
pub open spec fn bytes_at(p: Seq<u64>, rate: int, base: int) -> Seq<u8> {
    Seq::new((bit_count(p, rate, base) / 8) as nat, |i: int| byte_at(p, rate, base, i) as u8)
}

/// How sure bit `k` is, in millionths: how far its two chips differ.
pub open spec fn bit_confidence(p: Seq<u64>, rate: int, base: int, k: int) -> int {
    let a = chip(p, rate, base, PREAMBLE + 2 * k);
    let b = chip(p, rate, base, PREAMBLE + 2 * k + 1);
    if a + b > 0 {
        (if a > b {
            a - b
        } else {
            b - a
        }) * 1_000_000 / (a + b)
    } else {
        0
    }
}

pub open spec fn confidence_sum(p: Seq<u64>, rate: int, base: int, n: int) -> int
    decreases n,
{
    if n <= 0 {
        0
    } else {
        confidence_sum(p, rate, base, n - 1) + bit_confidence(p, rate, base, n - 1)
    }
}

/// All bytes are the same byte.
pub open spec fn all_are(b: Seq<u8>, x: u8) -> bool {
    forall|i: int| 0 <= i < b.len() ==> #[trigger] b[i] == x
}

/// A message that the slicer made, before anything has checked it.
pub struct CandidateView {
    pub bytes: Seq<u8>,
    pub confidence: int,
    pub peak: int,
}

/// The message whose preamble starts at `base`. One of all zeroes or all ones is
/// what a carrier and a dead channel look like, and is none.
#[verifier::opaque]
pub open spec fn message_at(p: Seq<u64>, rate: int, noise: int, base: int) -> Option<
    CandidateView,
> {
    let bytes = bytes_at(p, rate, base);
    if !preamble_at(p, rate, noise, base) || all_are(bytes, 0) || all_are(bytes, 0xff) {
        None
    } else {
        let n = bit_count(p, rate, base);
        Some(
            CandidateView {
                bytes,
                confidence: confidence_sum(p, rate, base, n) / n,
                peak: strongest(p, rate, base),
            },
        )
    }
}

/// How long a long message is, in samples.
pub open spec fn span(rate: int) -> int {
    samples(rate, 120)
}

/// How many samples are left to look at.
pub open spec fn left(i: int, last: int) -> nat {
    if last > i {
        (last - i) as nat
    } else {
        0
    }
}

/// The messages that start from `i` on and before `last`. A message is stepped
/// over as a whole: its own pulses would look like preambles.
pub open spec fn scan(p: Seq<u64>, rate: int, noise: int, i: int, last: int) -> Seq<CandidateView>
    decreases left(i, last),
{
    if i >= last || span(rate) <= 0 {
        Seq::empty()
    } else {
        match message_at(p, rate, noise, i) {
            Some(m) => seq![m] + scan(p, rate, noise, i + span(rate), last),
            None => scan(p, rate, noise, i + 1, last),
        }
    }
}

/// Where that scan ends.
pub open spec fn scan_end(p: Seq<u64>, rate: int, noise: int, i: int, last: int) -> int
    decreases left(i, last),
{
    if i >= last || span(rate) <= 0 {
        i
    } else {
        match message_at(p, rate, noise, i) {
            Some(m) => scan_end(p, rate, noise, i + span(rate), last),
            None => scan_end(p, rate, noise, i + 1, last),
        }
    }
}

/// A message that the slicer made, before anything has checked it.
#[derive(Debug, Clone)]
pub struct Candidate {
    /// 7 or 14 bytes.
    pub bytes: Vec<u8>,
    /// How sure the bits are in the mean, in millionths.
    pub confidence: u32,
    /// The strongest pulse of the preamble.
    pub peak: u64,
}

impl View for Candidate {
    type V = CandidateView;

    open spec fn view(&self) -> CandidateView {
        CandidateView {
            bytes: self.bytes@,
            confidence: self.confidence as int,
            peak: self.peak as int,
        }
    }
}

pub open spec fn views(c: Seq<Candidate>) -> Seq<CandidateView> {
    Seq::new(c.len(), |i: int| c[i]@)
}

/// No sample has more power than can be.
pub open spec fn bounded(p: Seq<u64>) -> bool {
    forall|i: int| 0 <= i < p.len() ==> #[trigger] p[i] <= MAX_POWER
}

/// The demodulator's arithmetic over one stretch of power.
#[derive(Debug, Clone, Copy, PartialEq, Eq, Structural)]
pub struct Rate {
    pub hz: u32,
}

impl Rate {
    /// How many samples a chip starts behind the first.
    pub fn chip_start(self, h: u32) -> (r: usize)
        requires
            0 < self.hz <= MAX_RATE,
            h <= 1000,
        ensures
            r == at(self.hz as int, h as int),
            r <= 1_000_000,
    {
        let x: u64 = h as u64;
        let hz: u64 = self.hz as u64;
        assert(0 <= x * hz <= 1_000_000_000_000) by (nonlinear_arith)
            requires
                0 <= x <= 1000,
                0 <= hz <= 1_000_000_000,
        ;
        ((x * hz + 1_000_000) / 2_000_000) as usize
    }

    /// How many samples so many microseconds take.
    pub fn micros(self, us: u32) -> (r: usize)
        requires
            0 < self.hz <= MAX_RATE,
            us <= 1000,
        ensures
            r == samples(self.hz as int, us as int),
            us > 0 ==> r > 0,
            r <= 1_000_000,
    {
        let x: u64 = us as u64;
        let hz: u64 = self.hz as u64;
        assert(0 <= x * hz <= 1_000_000_000_000) by (nonlinear_arith)
            requires
                0 <= x <= 1000,
                0 <= hz <= 1_000_000_000,
        ;
        assert(us > 0 ==> x * hz > 0) by (nonlinear_arith)
            requires
                x == us,
                hz > 0,
        ;
        ((x * hz + 999_999) / 1_000_000) as usize
    }

    /// The mean power of a chip.
    fn chip(self, p: &Vec<u64>, base: usize, h: u32) -> (r: u64)
        requires
            0 < self.hz <= MAX_RATE,
            h < 1000,
            base <= p@.len(),
            bounded(p@),
            p@.len() <= 0x1000_0000,
        ensures
            r == chip(p@, self.hz as int, base as int, h as int),
            r <= MAX_POWER,
    {
        proof {
            reveal(chip);
        }
        let a: usize = base + self.chip_start(h);
        let next: usize = base + self.chip_start(h + 1);
        let b: usize = if next > a + 1 { next } else { a + 1 };
        let b: usize = if b > p.len() { p.len() } else { b };
        if a >= b {
            return 0;
        }
        let mut s: u128 = 0;
        let mut i: usize = a;
        while i < b
            invariant
                a <= i <= b <= p@.len(),
                bounded(p@),
                s == sum(p@, a as int, i as int),
                s <= MAX_POWER * (i - a),
            decreases b - i,
        {
            assert(p@[i as int] <= MAX_POWER);
            s = s + p[i] as u128;
            i += 1;
        }
        let n: u128 = (b - a) as u128;
        assert(0 <= s / n <= MAX_POWER) by (nonlinear_arith)
            requires
                0 <= s <= MAX_POWER * n,
                n > 0,
        ;
        (s / n) as u64
    }
}

fn smaller(a: u64, b: u64) -> (r: u64)
    ensures
        r == least(a as int, b as int),
{
    if a < b {
        a
    } else {
        b
    }
}

fn larger(a: u64, b: u64) -> (r: u64)
    ensures
        r == most(a as int, b as int),
{
    if a > b {
        a
    } else {
        b
    }
}

/// The first `j` bits of byte `i`.
spec fn partial_byte(p: Seq<u64>, rate: int, base: int, i: int, j: int) -> int
    decreases j,
{
    if j <= 0 {
        0
    } else {
        2 * partial_byte(p, rate, base, i, j - 1) + one(bit_at(p, rate, base, 8 * i + j - 1))
    }
}

proof fn lemma_partial_byte(p: Seq<u64>, rate: int, base: int, i: int)
    ensures
        partial_byte(p, rate, base, i, 8) == byte_at(p, rate, base, i),
        0 <= byte_at(p, rate, base, i) <= 255,
{
    reveal(byte_at);
    reveal_with_fuel(partial_byte, 9);
}

proof fn lemma_partial_small(p: Seq<u64>, rate: int, base: int, i: int, j: int)
    requires
        0 <= j <= 8,
    ensures
        0 <= partial_byte(p, rate, base, i, j),
        j < 8 ==> partial_byte(p, rate, base, i, j) < 128,
        partial_byte(p, rate, base, i, j) < 256,
{
    reveal_with_fuel(partial_byte, 9);
}

impl Rate {
    /// Bit `k` of a message, and how sure it is.
    fn bit(self, p: &Vec<u64>, base: usize, k: u32) -> (r: (bool, u64))
        requires
            0 < self.hz <= MAX_RATE,
            k < 200,
            base <= p@.len(),
            bounded(p@),
            p@.len() <= 0x1000_0000,
        ensures
            r.0 == bit_at(p@, self.hz as int, base as int, k as int),
            r.1 == bit_confidence(p@, self.hz as int, base as int, k as int),
            r.1 <= 1_000_000,
    {
        let a: u64 = self.chip(p, base, 16 + 2 * k);
        let b: u64 = self.chip(p, base, 17 + 2 * k);
        let total: u64 = a + b;
        let sure: u64 = if total > 0 {
            let d: u128 = if a > b { (a - b) as u128 } else { (b - a) as u128 };
            let q: u128 = d * 1_000_000 / total as u128;
            assert(0 <= q <= 1_000_000) by (nonlinear_arith)
                requires
                    0 <= d <= total,
                    total > 0,
                    q == d * 1_000_000 / (total as int),
            ;
            q as u64
        } else {
            0
        };
        (a > b, sure)
    }

    /// Byte `i` of a message; its confidence goes onto the sum.
    fn byte(self, p: &Vec<u64>, base: usize, i: u32, conf: &mut u64) -> (r: u8)
        requires
            0 < self.hz <= MAX_RATE,
            i < 14,
            base <= p@.len(),
            bounded(p@),
            p@.len() <= 0x1000_0000,
            *old(conf) == confidence_sum(p@, self.hz as int, base as int, 8 * i),
            *old(conf) <= 8_000_000 * i,
        ensures
            r == byte_at(p@, self.hz as int, base as int, i as int),
            *final(conf) == confidence_sum(p@, self.hz as int, base as int, 8 * i + 8),
            *final(conf) <= 8_000_000 * (i + 1),
    {
        let mut x: u16 = 0;
        let mut j: u32 = 0;
        while j < 8
            invariant
                j <= 8,
                0 < self.hz <= MAX_RATE,
                i < 14,
                base <= p@.len(),
                bounded(p@),
                p@.len() <= 0x1000_0000,
                x == partial_byte(p@, self.hz as int, base as int, i as int, j as int),
                *conf == confidence_sum(p@, self.hz as int, base as int, 8 * i + j),
                *conf <= 8_000_000 * i + 1_000_000 * j,
            decreases 8 - j,
        {
            let (bit, sure) = self.bit(p, base, 8 * i + j);
            proof {
                lemma_partial_small(p@, self.hz as int, base as int, i as int, j as int);
            }
            x = 2 * x + if bit { 1 } else { 0 };
            *conf = *conf + sure;
            j += 1;
        }
        proof {
            lemma_partial_byte(p@, self.hz as int, base as int, i as int);
        }
        x as u8
    }

    /// The weakest and the strongest pulse.
    fn pulses(self, p: &Vec<u64>, base: usize) -> (r: (u64, u64))
        requires
            0 < self.hz <= MAX_RATE,
            base <= p@.len(),
            bounded(p@),
            p@.len() <= 0x1000_0000,
        ensures
            r.0 == weakest(p@, self.hz as int, base as int),
            r.1 == strongest(p@, self.hz as int, base as int),
            r.0 <= MAX_POWER,
    {
        let a: u64 = self.chip(p, base, 0);
        let b: u64 = self.chip(p, base, 2);
        let c: u64 = self.chip(p, base, 7);
        let d: u64 = self.chip(p, base, 9);
        (smaller(smaller(a, b), smaller(c, d)), larger(larger(a, b), larger(c, d)))
    }

    fn spaces(self, p: &Vec<u64>, base: usize) -> (r: u64)
        requires
            0 < self.hz <= MAX_RATE,
            base <= p@.len(),
            bounded(p@),
            p@.len() <= 0x1000_0000,
        ensures
            r == loudest_space(p@, self.hz as int, base as int),
            r <= MAX_POWER,
    {
        let a: u64 = self.chip(p, base, 1);
        let b: u64 = self.chip(p, base, 3);
        let c: u64 = self.chip(p, base, 4);
        let d: u64 = self.chip(p, base, 6);
        let e: u64 = self.chip(p, base, 8);
        let f: u64 = self.chip(p, base, 10);
        larger(larger(larger(a, b), larger(c, d)), larger(e, f))
    }

    /// The message whose preamble starts at `base`, if there is one.
    pub fn try_at(self, p: &Vec<u64>, noise: u64, base: usize) -> (r: Option<Candidate>)
        requires
            0 < self.hz <= MAX_RATE,
            base <= p@.len(),
            bounded(p@),
            p@.len() <= 0x1000_0000,
            noise <= MAX_POWER,
        ensures
            match message_at(p@, self.hz as int, noise as int, base as int) {
                Some(m) => r matches Some(c) && c@ == m,
                None => r is None,
            },
    {
        proof {
            reveal(message_at);
        }
        let (weak, strong) = self.pulses(p, base);
        if weak < 3 * noise {
            return None;
        }
        if weak < 2 * self.spaces(p, base) {
            return None;
        }
        let mut conf: u64 = 0;
        let first: u8 = self.byte(p, base, 0, &mut conf);
        let len: u32 = if first / 8 >= 16 { 14 } else { 7 };
        let mut bytes: Vec<u8> = Vec::new();
        bytes.push(first);
        let mut i: u32 = 1;
        let ghost all = bytes_at(p@, self.hz as int, base as int);
        while i < len
            invariant
                1 <= i <= len,
                len == 7 || len == 14,
                0 < self.hz <= MAX_RATE,
                base <= p@.len(),
                bounded(p@),
                p@.len() <= 0x1000_0000,
                conf == confidence_sum(p@, self.hz as int, base as int, 8 * i),
                conf <= 8_000_000 * i,
                all == bytes_at(p@, self.hz as int, base as int),
                all.len() == len,
                bytes@.len() == i,
                forall|k: int| 0 <= k < i ==> #[trigger] bytes@[k] == all[k],
            decreases len - i,
        {
            let b: u8 = self.byte(p, base, i, &mut conf);
            bytes.push(b);
            i += 1;
        }
        assert(bytes@ =~= all);
        if same_all(&bytes, 0) || same_all(&bytes, 0xff) {
            return None;
        }
        Some(Candidate { bytes, confidence: (conf / (8 * len as u64)) as u32, peak: strong })
    }
}

fn same_all(b: &Vec<u8>, x: u8) -> (r: bool)
    ensures
        r == all_are(b@, x),
{
    let mut i: usize = 0;
    while i < b.len()
        invariant
            i <= b@.len(),
            forall|k: int| 0 <= k < i ==> #[trigger] b@[k] == x,
        decreases b@.len() - i,
    {
        if b[i] != x {
            assert(b@[i as int] != x);
            return false;
        }
        i += 1;
    }
    true
}

/// Whether a chip of a message that is sent is lit.
pub open spec fn lit(msg: Seq<u8>, h: int) -> bool {
    if h < PREAMBLE {
        h == 0 || h == 2 || h == 7 || h == 9
    } else {
        let k = (h - PREAMBLE) / 2;
        (h % 2 == 0) == msg_bit(msg, k)
    }
}

/// Bit `k` of a message, the highest of each byte first.
pub open spec fn msg_bit(msg: Seq<u8>, k: int) -> bool {
    msg[k / 8] as int / place(k % 8) % 2 == 1
}

pub open spec fn place(j: int) -> int {
    if j == 0 {
        128
    } else if j == 1 {
        64
    } else if j == 2 {
        32
    } else if j == 3 {
        16
    } else if j == 4 {
        8
    } else if j == 5 {
        4
    } else if j == 6 {
        2
    } else {
        1
    }
}

/// A message arrives at `base` as it was sent: every sample of a chip that is lit
/// has the power `amp`, and every other none.
pub open spec fn arrives(p: Seq<u64>, rate: int, base: int, msg: Seq<u8>, amp: int) -> bool {
    forall|h: int, i: int|
        0 <= h < PREAMBLE + 16 * msg.len() && #[trigger] in_chip(rate, base, h, i) ==> {
            &&& 0 <= i < p.len()
            &&& p[i] == if lit(msg, h) {
                amp
            } else {
                0
            }
        }
}

/// Whether a sample is in a chip.
pub open spec fn in_chip(rate: int, base: int, h: int, i: int) -> bool {
    chip_start(rate, base, h) <= i < chip_start(rate, base, h + 1)
}

proof fn lemma_flat_sum(p: Seq<u64>, a: int, b: int, x: int)
    requires
        a <= b,
        forall|i: int| a <= i < b ==> #[trigger] p[i] == x,
    ensures
        sum(p, a, b) == (b - a) * x,
    decreases b - a,
{
    if a < b {
        lemma_flat_sum(p, a, b - 1, x);
        assert(p[b - 1] == x);
        assert((b - 1 - a) * x + x == (b - a) * x) by (nonlinear_arith);
    } else {
        assert((b - a) * x == 0) by (nonlinear_arith)
            requires
                b == a,
        ;
    }
}

/// A chip holds a sample at least where a half microsecond is as long as one.
pub proof fn lemma_chips_advance(rate: int, h: int)
    requires
        rate >= 2_000_000,
        h >= 0,
    ensures
        at(rate, h) + 1 <= at(rate, h + 1),
        at(rate, h) >= 0,
{
    let x = h * rate;
    assert((h + 1) * rate == x + rate) by (nonlinear_arith)
        requires
            x == h * rate,
    ;
    assert(x >= 0) by (nonlinear_arith)
        requires
            x == h * rate,
            h >= 0,
            rate >= 0,
    ;
}

proof fn lemma_chip_arrives(p: Seq<u64>, rate: int, base: int, msg: Seq<u8>, amp: int, h: int)
    requires
        rate >= 2_000_000,
        base >= 0,
        arrives(p, rate, base, msg, amp),
        0 <= h < PREAMBLE + 16 * msg.len(),
        amp >= 0,
    ensures
        chip(p, rate, base, h) == if lit(msg, h) {
            amp
        } else {
            0
        },
{
    reveal(chip);
    lemma_chips_advance(rate, h);
    let a = chip_start(rate, base, h);
    let e = chip_start(rate, base, h + 1);
    let x = if lit(msg, h) {
        amp
    } else {
        0
    };
    assert forall|i: int| a <= i < e implies #[trigger] p[i] == x && i < p.len() by {
        assert(in_chip(rate, base, h, i));
    }
    assert(p[e - 1] == x);
    assert(chip_end(rate, base, h, p.len() as int) == e);
    lemma_flat_sum(p, a, e, x);
    let n = e - a;
    assert((n * x) / n == x) by (nonlinear_arith)
        requires
            n > 0,
            x >= 0,
    ;
}

proof fn lemma_byte_bits(b: u8)
    ensures
        b == 128 * (b as int / 128 % 2) + 64 * (b as int / 64 % 2) + 32 * (b as int / 32 % 2) + 16
            * (b as int / 16 % 2) + 8 * (b as int / 8 % 2) + 4 * (b as int / 4 % 2) + 2 * (b as int
            / 2 % 2) + (b as int % 2),
{
    let x = b as int;
    assert(x == 2 * (x / 2) + x % 2);
    assert(x / 2 == 2 * (x / 4) + x / 2 % 2);
    assert(x / 4 == 2 * (x / 8) + x / 4 % 2);
    assert(x / 8 == 2 * (x / 16) + x / 8 % 2);
    assert(x / 16 == 2 * (x / 32) + x / 16 % 2);
    assert(x / 32 == 2 * (x / 64) + x / 32 % 2);
    assert(x / 64 == 2 * (x / 128) + x / 64 % 2);
    assert(x / 128 == x / 128 % 2);
}

proof fn lemma_bit_arrives(p: Seq<u64>, rate: int, base: int, msg: Seq<u8>, amp: int, k: int)
    requires
        rate >= 2_000_000,
        base >= 0,
        arrives(p, rate, base, msg, amp),
        0 <= k < 8 * msg.len(),
        amp > 0,
    ensures
        bit_at(p, rate, base, k) == msg_bit(msg, k),
{
    lemma_chip_arrives(p, rate, base, msg, amp, PREAMBLE + 2 * k);
    lemma_chip_arrives(p, rate, base, msg, amp, PREAMBLE + 2 * k + 1);
}

proof fn lemma_digit_arrives(
    p: Seq<u64>,
    rate: int,
    base: int,
    msg: Seq<u8>,
    amp: int,
    i: int,
    j: int,
)
    requires
        rate >= 2_000_000,
        base >= 0,
        arrives(p, rate, base, msg, amp),
        0 <= i < msg.len(),
        0 <= j < 8,
        amp > 0,
    ensures
        one(bit_at(p, rate, base, 8 * i + j)) == msg[i] as int / place(j) % 2,
{
    lemma_bit_arrives(p, rate, base, msg, amp, 8 * i + j);
    assert((8 * i + j) / 8 == i && (8 * i + j) % 8 == j);
    let q = msg[i] as int / place(j);
    assert(q % 2 == 0 || q % 2 == 1);
}

#[verifier::rlimit(40)]
proof fn lemma_byte_arrives(p: Seq<u64>, rate: int, base: int, msg: Seq<u8>, amp: int, i: int)
    requires
        rate >= 2_000_000,
        base >= 0,
        arrives(p, rate, base, msg, amp),
        0 <= i < msg.len(),
        amp > 0,
    ensures
        byte_at(p, rate, base, i) == msg[i],
{
    reveal(byte_at);
    let x = msg[i] as int;
    assert(one(bit_at(p, rate, base, 8 * i)) == x / 128 % 2) by {
        lemma_digit_arrives(p, rate, base, msg, amp, i, 0);
    }
    assert(one(bit_at(p, rate, base, 8 * i + 1)) == x / 64 % 2) by {
        lemma_digit_arrives(p, rate, base, msg, amp, i, 1);
    }
    assert(one(bit_at(p, rate, base, 8 * i + 2)) == x / 32 % 2) by {
        lemma_digit_arrives(p, rate, base, msg, amp, i, 2);
    }
    assert(one(bit_at(p, rate, base, 8 * i + 3)) == x / 16 % 2) by {
        lemma_digit_arrives(p, rate, base, msg, amp, i, 3);
    }
    assert(one(bit_at(p, rate, base, 8 * i + 4)) == x / 8 % 2) by {
        lemma_digit_arrives(p, rate, base, msg, amp, i, 4);
    }
    assert(one(bit_at(p, rate, base, 8 * i + 5)) == x / 4 % 2) by {
        lemma_digit_arrives(p, rate, base, msg, amp, i, 5);
    }
    assert(one(bit_at(p, rate, base, 8 * i + 6)) == x / 2 % 2) by {
        lemma_digit_arrives(p, rate, base, msg, amp, i, 6);
    }
    assert(one(bit_at(p, rate, base, 8 * i + 7)) == x % 2) by {
        lemma_digit_arrives(p, rate, base, msg, amp, i, 7);
        assert(x / 1 == x);
    }
    lemma_byte_bits(msg[i]);
}

/// A message is heard as it was sent, at any rate at which a chip holds a sample:
/// where its length is the one that its format says, it is not all zeroes or all
/// ones, and it stands three times above the noise.
pub proof fn law_a_burst_is_heard(
    p: Seq<u64>,
    rate: int,
    noise: int,
    base: int,
    msg: Seq<u8>,
    amp: int,
)
    requires
        rate >= 2_000_000,
        base >= 0,
        noise >= 0,
        amp > 0,
        amp >= 3 * noise,
        msg.len() == if msg[0] / 8 >= 16 {
            14int
        } else {
            7
        },
        !all_are(msg, 0),
        !all_are(msg, 0xff),
        arrives(p, rate, base, msg, amp),
    ensures
        message_at(p, rate, noise, base) is Some,
        message_at(p, rate, noise, base)->0.bytes == msg,
        message_at(p, rate, noise, base)->0.peak == amp,
{
    reveal(message_at);
    assert forall|h: int| 0 <= h < 11 implies chip(p, rate, base, h) == (if #[trigger] lit(msg, h) {
        amp
    } else {
        0
    }) by {
        lemma_chip_arrives(p, rate, base, msg, amp, h);
    }
    assert(lit(msg, 0) && lit(msg, 2) && lit(msg, 7) && lit(msg, 9));
    assert(!lit(msg, 1) && !lit(msg, 3) && !lit(msg, 4) && !lit(msg, 6) && !lit(msg, 8) && !lit(
        msg,
        10,
    ));
    lemma_byte_arrives(p, rate, base, msg, amp, 0);
    let b = bytes_at(p, rate, base);
    assert forall|i: int| 0 <= i < msg.len() implies b[i] == msg[i] by {
        lemma_byte_arrives(p, rate, base, msg, amp, i);
    }
    assert(b =~= msg);
}

} // verus!
