//! Repeater signalling: the sub-audible tone that rides under an FM over, and
//! the burst that opens a carrier-access repeater.
//!
//! A DCS word is cyclic: whichever of its 23 bits it is read from, it is a
//! codeword of the Golay code. So a transmitter has to choose a convention. Here
//! it is the usual one: nine code bits, least significant first, three fixed
//! bits, eleven check bits, and again from the top without a gap.
use vstd::prelude::*;

verus! {

broadcast use vstd::seq::group_seq_axioms;

/// The length of a DCS word.
pub const WORD: usize = 23;

/// DCS bits in ten seconds.
pub const DCS_BIT_RATE: u64 = 1344;

/// The three bits between the code and the check bits, as a number.
pub const DCS_FIXED_BITS: u16 = 4;

/// The frequency of the burst, in Hz.
pub const TONE_BURST_HZ: u32 = 1750;

/// How long the burst takes to reach full amplitude, in milliseconds.
pub const BURST_RAMP_MS: u64 = 5;

/// A sub-audible tone.
#[derive(Debug, Clone, Copy, PartialEq, Eq, Structural)]
pub enum TxSubTone {
    /// A tone, in tenths of a Hz.
    Ctcss(u16),
    /// A code, whose decimal digits are its octal ones.
    Dcs { code: u16, invert: bool },
}

/// The nine bits of a code, where its digits are three octal ones.
pub open spec fn code_bits(code: u16) -> Option<int> {
    let a = code as int / 100;
    let b = code as int / 10 % 10;
    let c = code as int % 10;
    if a > 7 || b > 7 || c > 7 {
        None
    } else {
        Some(64 * a + 8 * b + c)
    }
}

/// The nine bits of a code; none where it is not three octal digits.
pub fn dcs_bits(code: u16) -> (r: Option<u16>)
    ensures
        match code_bits(code) {
            None => r is None,
            Some(n) => r matches Some(v) && v == n,
        },
{
    let a: u16 = code / 100;
    let b: u16 = code / 10 % 10;
    let c: u16 = code % 10;
    if a > 7 || b > 7 || c > 7 {
        None
    } else {
        Some(64 * a + 8 * b + c)
    }
}

/// Bit `i` of a number.
pub open spec fn bit_at(n: int, i: nat) -> bool
    decreases i,
{
    if i == 0 {
        n % 2 == 1
    } else {
        bit_at(n / 2, (i - 1) as nat)
    }
}

/// The twelve information bits of a code: the code, and the fixed bits above it.
pub open spec fn information(bits: int) -> int {
    bits + 512 * DCS_FIXED_BITS
}

/// A word as it is sent: the information bits, then the check bits, the least
/// significant first.
pub open spec fn word_of(bits: int, check: int, invert: bool) -> Seq<bool> {
    Seq::new(
        WORD as nat,
        |i: int|
            (if i < 12 {
                bit_at(information(bits), i as nat)
            } else {
                bit_at(check, (i - 12) as nat)
            }) != invert,
    )
}

/// Writes the low `n` bits of a number behind some others.
fn push_bits(v: &mut Vec<bool>, n: u16, count: usize, invert: bool)
    ensures
        final(v)@ == old(v)@ + Seq::new(count as nat, |i: int| bit_at(n as int, i as nat) != invert),
{
    let ghost start = v@;
    let ghost all = Seq::new(count as nat, |i: int| bit_at(n as int, i as nat) != invert);
    let mut rest: u16 = n;
    let mut i: usize = 0;
    assert(v@ =~= start + all.take(0));
    while i < count
        invariant
            i <= count,
            all == Seq::new(count as nat, |k: int| bit_at(n as int, k as nat) != invert),
            v@ == start + all.take(i as int),
            forall|k: nat| #[trigger] bit_at(rest as int, k) == bit_at(n as int, k + i as nat),
        decreases count - i,
    {
        assert(bit_at(rest as int, 0) == bit_at(n as int, 0 + i as nat));
        let b: bool = rest % 2 == 1;
        v.push(b != invert);
        proof {
            assert forall|k: nat| #[trigger]
                bit_at((rest / 2) as int, k) == bit_at(n as int, k + (i + 1) as nat) by {
                assert(bit_at(rest as int, k + 1) == bit_at(n as int, (k + 1) + i as nat));
            }
        }
        rest = rest / 2;
        i += 1;
        assert(all.take(i as int) =~= all.take(i - 1).push(all[i - 1]));
        assert(v@ =~= start + all.take(i as int));
    }
    assert(all.take(count as int) =~= all);
}

/// The bits of a DCS word in the order in which they are sent, with the eleven
/// check bits of its information; none where the code is not three octal digits.
pub fn dcs_word(code: u16, invert: bool, check: u16) -> (r: Option<Vec<bool>>)
    ensures
        match code_bits(code) {
            None => r is None,
            Some(n) => r matches Some(v) && v@ == word_of(n, check as int, invert),
        },
{
    let bits: u16 = match dcs_bits(code) {
        Some(b) => b,
        None => return None,
    };
    let mut v: Vec<bool> = Vec::new();
    push_bits(&mut v, bits + 512 * DCS_FIXED_BITS, 12, invert);
    push_bits(&mut v, check, 11, invert);
    assert(v@ =~= word_of(bits as int, check as int, invert));
    Some(v)
}

/// What the twelve information bits are, of which the check bits are computed;
/// none where the code is not three octal digits.
pub fn dcs_information(code: u16) -> (r: Option<u16>)
    ensures
        match code_bits(code) {
            None => r is None,
            Some(n) => r matches Some(v) && v == information(n),
        },
{
    match dcs_bits(code) {
        Some(b) => Some(b + 512 * DCS_FIXED_BITS),
        None => None,
    }
}

/// A phase that advances by the same part of a turn with each sample.
#[derive(Debug, Clone, Copy)]
pub struct Turn {
    /// Where it is, in parts of a turn.
    pub at: u64,
    /// How far it goes with a sample.
    pub step: u64,
    /// How many parts a turn has.
    pub of: u64,
}

impl Turn {
    pub open spec fn wf(self) -> bool {
        &&& 0 < self.of <= 0xffff_ffff_ffff
        &&& self.at < self.of
        &&& self.step <= 0xffff_ffff
    }

    /// The phase after `n` more samples.
    pub open spec fn after(self, n: nat) -> int {
        (self.at + n * self.step) % (self.of as int)
    }

    /// The next sample's phase; how many turns were completed behind it.
    fn next(&mut self) -> (r: (u64, u64))
        requires
            old(self).wf(),
        ensures
            final(self).wf(),
            r.0 == old(self).at,
            r.1 == (old(self).at + old(self).step) / (old(self).of as int),
            *final(self) == (Turn {
                at: ((old(self).at + old(self).step) % (old(self).of as int)) as u64,
                ..*old(self)
            }),
    {
        let at: u64 = self.at;
        let sum: u64 = at + self.step;
        self.at = sum % self.of;
        (at, sum / self.of)
    }
}

/// One sample of the signalling.
#[derive(Debug, Clone, Copy, PartialEq, Eq, Structural)]
pub enum Signal {
    /// A sine at this phase, in parts of a turn.
    Phase { at: u64, of: u64 },
    /// A bit of a word, not yet rounded off.
    Level(bool),
}

/// The signalling under an over.
#[derive(Debug)]
pub struct SubToneGen {
    pub tone: TxSubTone,
    /// The phase of the tone, or how much of the bit has been sent.
    pub turn: Turn,
    /// The word.
    pub bits: Vec<bool>,
    /// The bit that is being sent.
    pub bit: usize,
}

impl SubToneGen {
    pub open spec fn wf(self) -> bool {
        &&& self.turn.wf()
        &&& self.bits@.len() == WORD
        &&& self.bit < WORD
    }

    /// How many bits have ended after `n` samples.
    pub open spec fn ended(self, n: nat) -> int {
        (self.turn.at + n * self.turn.step) / (self.turn.of as int)
    }

    /// What the sample `n` from here is.
    pub open spec fn sample(self, n: nat) -> Signal {
        match self.tone {
            TxSubTone::Ctcss(_) => Signal::Phase {
                at: self.turn.after(n) as u64,
                of: self.turn.of,
            },
            TxSubTone::Dcs { .. } => Signal::Level(
                self.bits@[(self.bit + self.ended(n)) % WORD as int],
            ),
        }
    }

    /// A generator at so many samples a second. A code that is not three octal
    /// digits sends an empty word: the answer to nonsense is a plain over.
    pub fn new(tone: TxSubTone, rate: u32, check: u16) -> (r: SubToneGen)
        requires
            rate > 0,
        ensures
            r.wf(),
            r.tone == tone,
            r.turn.at == 0 && r.bit == 0,
            r.turn.of == 10 * rate,
            match tone {
                TxSubTone::Ctcss(tenths) => r.turn.step == tenths,
                TxSubTone::Dcs { code, invert } => {
                    &&& r.turn.step == DCS_BIT_RATE
                    &&& r.bits@ == match code_bits(code) {
                        Some(n) => word_of(n, check as int, invert),
                        None => Seq::new(WORD as nat, |i: int| false),
                    }
                },
            },
            match tone {
                TxSubTone::Ctcss(tenths) => forall|n: nat| #[trigger]
                    r.sample(n) == (Signal::Phase {
                        at: ((n * tenths) % (10 * rate)) as u64,
                        of: (10 * rate) as u64,
                    }),
                TxSubTone::Dcs { .. } => forall|n: nat| #[trigger]
                    r.sample(n) == Signal::Level(r.bits@[(n as int * 1344) / (10 * rate) % 23]),
            },
    {
        let mut empty: Vec<bool> = Vec::new();
        push_bits(&mut empty, 0, WORD, false);
        proof {
            assert forall|k: nat| !bit_at(0, k) by {
                lemma_no_bit(k);
            }
            assert(empty@ =~= Seq::new(WORD as nat, |i: int| false));
        }
        let of: u64 = 10 * rate as u64;
        match tone {
            TxSubTone::Ctcss(tenths) => SubToneGen {
                tone,
                turn: Turn { at: 0, step: tenths as u64, of },
                bits: empty,
                bit: 0,
            },
            TxSubTone::Dcs { code, invert } => {
                let bits: Vec<bool> = match dcs_word(code, invert, check) {
                    Some(v) => v,
                    None => empty,
                };
                SubToneGen { tone, turn: Turn { at: 0, step: DCS_BIT_RATE, of }, bits, bit: 0 }
            },
        }
    }

    /// What this generator is sending.
    pub fn tone(&self) -> (r: TxSubTone)
        ensures
            r == self.tone,
    {
        self.tone
    }

    /// One sample of the signalling.
    pub fn next(&mut self) -> (r: Signal)
        requires
            old(self).wf(),
        ensures
            final(self).wf(),
            r == old(self).sample(0),
            final(self).tone == old(self).tone,
            forall|n: nat| #[trigger] final(self).sample(n) == old(self).sample(n + 1),
    {
        let ghost before = *self;
        let (at, turns) = self.turn.next();
        proof {
            lemma_inside(before.turn.at as int, before.turn.of as int);
        }
        let r: Signal = match self.tone {
            TxSubTone::Ctcss(_) => Signal::Phase { at, of: self.turn.of },
            TxSubTone::Dcs { .. } => {
                let level: bool = self.bits[self.bit];
                let word: u64 = WORD as u64;
                let gone: u64 = (self.bit as u64 + turns % word) % word;
                self.bit = gone as usize;
                Signal::Level(level)
            },
        };
        proof {
            assert forall|n: nat| #[trigger] self.sample(n) == before.sample(n + 1) by {
                lemma_turn(before.turn, n);
                lemma_bits(before.bit as int, turns as int, self.ended(n));
            }
        }
        r
    }

    /// The next so many samples of the signalling.
    pub fn fill(&mut self, len: usize) -> (r: Vec<Signal>)
        requires
            old(self).wf(),
        ensures
            final(self).wf(),
            r@ == Seq::new(len as nat, |i: int| old(self).sample(i as nat)),
            final(self).tone == old(self).tone,
            forall|n: nat| #[trigger] final(self).sample(n) == old(self).sample(n + len as nat),
    {
        let ghost before = *self;
        let ghost all = Seq::new(len as nat, |i: int| before.sample(i as nat));
        let mut r: Vec<Signal> = Vec::new();
        let mut i: usize = 0;
        while i < len
            invariant
                i <= len,
                self.wf(),
                self.tone == before.tone,
                all == Seq::new(len as nat, |k: int| before.sample(k as nat)),
                r@ == all.take(i as int),
                forall|n: nat| #[trigger] self.sample(n) == before.sample(n + i as nat),
            decreases len - i,
        {
            let ghost mid = *self;
            assert(mid.sample(0) == before.sample(0 + i as nat));
            let s: Signal = self.next();
            r.push(s);
            i += 1;
            assert(r@ =~= all.take(i as int));
            assert forall|n: nat| #[trigger] self.sample(n) == before.sample(n + i as nat) by {
                assert(self.sample(n) == mid.sample(n + 1));
            }
        }
        assert(r@ =~= all);
        r
    }
}

/// How long a burst is in samples, to the nearest, and one at least.
pub open spec fn burst_len(ms: u32, rate: u32) -> int {
    let n = (ms * rate + 500) / 1000;
    if n < 1 {
        1
    } else {
        n
    }
}

/// How long its ramp is: no more than a third of it, so that a short burst is a
/// tone and not two ramps.
pub open spec fn ramp_len(rate: u32, total: int) -> int {
    let n = BURST_RAMP_MS * rate / 1000;
    if n < total / 3 {
        n
    } else {
        total / 3
    }
}

/// One sample of a burst.
#[derive(Debug, Clone, Copy, PartialEq, Eq, Structural)]
pub struct BurstSample {
    /// The phase of the tone, in parts of a turn.
    pub at: u64,
    pub of: u64,
    /// The amplitude, as a part of the ramp; full where the ramp is empty.
    pub rise: u64,
    pub ramp: u64,
}

/// The burst that opens a repeater. It takes the place of the microphone.
#[derive(Debug)]
pub struct ToneBurst {
    pub turn: Turn,
    /// Samples still to send.
    pub left: u64,
    pub total: u64,
    pub ramp: u64,
}

/// The least of three.
pub open spec fn least(a: int, b: int, c: int) -> int {
    if a <= b && a <= c {
        a
    } else if b <= c {
        b
    } else {
        c
    }
}

impl ToneBurst {
    pub open spec fn wf(self) -> bool {
        &&& self.turn.wf()
        &&& self.left <= self.total
        &&& 3 * self.ramp <= self.total
    }

    /// The amplitude of the sample `n` of the whole burst, as a part of the ramp:
    /// linear in and out, and full in between.
    pub open spec fn rise(self, n: int) -> int {
        least(n, self.total - n, self.ramp as int)
    }

    /// The sample `n` from here.
    pub open spec fn sample(self, n: nat) -> BurstSample {
        BurstSample {
            at: self.turn.after(n) as u64,
            of: self.turn.of,
            rise: self.rise(self.total - self.left + n) as u64,
            ramp: self.ramp,
        }
    }

    /// A burst of so many milliseconds.
    pub fn new(ms: u32, rate: u32) -> (r: ToneBurst)
        requires
            rate > 0,
        ensures
            r.wf(),
            r.total == burst_len(ms, rate),
            r.left == r.total,
            r.ramp == ramp_len(rate, r.total as int),
            r.turn == (Turn { at: 0, step: TONE_BURST_HZ as u64, of: rate as u64 }),
            forall|n: nat| (#[trigger] r.sample(n)).at == (n as int * 1750) % (rate as int),
    {
        let m: u64 = ms as u64;
        let hz: u64 = rate as u64;
        assert(0 <= m * hz <= 0xffff_ffff * 0xffff_ffff) by (nonlinear_arith)
            requires
                0 <= m <= 0xffff_ffff,
                0 <= hz <= 0xffff_ffff,
        ;
        let n: u64 = (m * hz + 500) / 1000;
        let total: u64 = if n < 1 { 1 } else { n };
        let r: u64 = BURST_RAMP_MS * hz / 1000;
        let ramp: u64 = if r < total / 3 { r } else { total / 3 };
        ToneBurst {
            turn: Turn { at: 0, step: TONE_BURST_HZ as u64, of: hz },
            left: total,
            total,
            ramp,
        }
    }

    /// Whether the burst has played out.
    pub fn finished(&self) -> (r: bool)
        ensures
            r == (self.left == 0),
    {
        self.left == 0
    }

    /// What stands at the head of a block of so many samples. Where the burst ends
    /// inside the block, the rest of it is the microphone's.
    pub fn fill(&mut self, len: usize) -> (r: Vec<BurstSample>)
        requires
            old(self).wf(),
        ensures
            final(self).wf(),
            r@.len() == (if old(self).left < len {
                old(self).left as int
            } else {
                len as int
            }),
            r@ == Seq::new(r@.len(), |i: int| old(self).sample(i as nat)),
            final(self).left == old(self).left - r@.len(),
            final(self).total == old(self).total,
            final(self).ramp == old(self).ramp,
            forall|n: nat| #[trigger] final(self).sample(n) == old(self).sample(n + r@.len()),
    {
        let ghost before = *self;
        let mut r: Vec<BurstSample> = Vec::new();
        assert(r@ =~= Seq::new(0, |i: int| before.sample(i as nat)));
        while r.len() < len && self.left > 0
            invariant
                before.wf(),
                self.wf(),
                r@.len() <= len,
                self.left == before.left - r@.len(),
                self.total == before.total,
                self.ramp == before.ramp,
                r@ == Seq::new(r@.len(), |i: int| before.sample(i as nat)),
                forall|n: nat| #[trigger] self.sample(n) == before.sample(n + r@.len()),
            decreases self.left,
        {
            let ghost mid = *self;
            let ghost got = r@;
            let sent: u64 = self.total - self.left;
            let mut rise: u64 = self.ramp;
            if sent < rise {
                rise = sent;
            }
            if self.left < rise {
                rise = self.left;
            }
            proof {
                lemma_inside(mid.turn.at as int, mid.turn.of as int);
                assert(mid.sample(0) == before.sample(0 + got.len()));
            }
            let (at, _) = self.turn.next();
            let s = BurstSample { at, of: self.turn.of, rise, ramp: self.ramp };
            assert(s == mid.sample(0));
            r.push(s);
            self.left = self.left - 1;
            assert(r@ =~= Seq::new(r@.len(), |i: int| before.sample(i as nat)));
            assert forall|n: nat| #[trigger] self.sample(n) == before.sample(n + r@.len()) by {
                lemma_turn(mid.turn, n);
                assert(mid.sample(n + 1) == before.sample((n + 1) + got.len()));
            }
        }
        r
    }
}

proof fn lemma_inside(at: int, of: int)
    requires
        0 <= at < of,
    ensures
        at % of == at,
        at / of == 0,
{
    vstd::arithmetic::div_mod::lemma_small_mod(at as nat, of as nat);
    vstd::arithmetic::div_mod::lemma_basic_div(at, of);
}

/// A step and `n` more are `n + 1` steps.
proof fn lemma_turn(t: Turn, n: nat)
    requires
        t.wf(),
    ensures
        ({
            let x = t.at + t.step;
            let of = t.of as int;
            let u = Turn { at: (x % of) as u64, ..t };
            &&& u.after(n) == t.after(n + 1)
            &&& (u.at + n * u.step) / of + x / of == (t.at + (n + 1) * t.step) / of
        }),
{
    let x = t.at + t.step;
    let of = t.of as int;
    let rest = x % of + n * t.step;
    vstd::arithmetic::div_mod::lemma_fundamental_div_mod(x, of);
    vstd::arithmetic::div_mod::lemma_hoist_over_denominator(rest, x / of, t.of as nat);
    vstd::arithmetic::div_mod::lemma_mod_multiples_vanish(x / of, rest, of);
    assert((n + 1) * t.step == n * t.step + t.step) by (nonlinear_arith);
    assert((x / of) * of == of * (x / of)) by (nonlinear_arith);
}

/// Bits that ended in two parts are those that ended.
proof fn lemma_bits(bit: int, first: int, more: int)
    requires
        0 <= bit < WORD,
        first >= 0,
    ensures
        ((bit + first % 23) % 23 + more) % 23 == (bit + (more + first)) % 23,
{
}

/// The bit clock runs evenly: the sample `n` carries the bit that 134.4 bits a
/// second have reached by then, and the word starts again without a gap.
pub proof fn law_the_bit_clock_is_even(g: SubToneGen, n: nat)
    requires
        g.wf(),
        g.tone is Dcs,
        g.bit == 0,
        g.turn.at == 0,
        g.turn.step == DCS_BIT_RATE,
    ensures
        g.sample(n) == Signal::Level(g.bits@[(n * DCS_BIT_RATE / (g.turn.of as int)) % 23]),
{
}

/// A DCS word is the codeword of its information, information above check bits,
/// read from another bit: in a cyclic code it is a codeword itself.
pub proof fn law_a_word_is_a_turned_codeword(bits: int, check: int, i: int)
    requires
        0 <= bits < 512,
        0 <= check < 2048,
        0 <= i < 23,
    ensures
        word_of(bits, check, false)[i] == bit_at(
            2048 * information(bits) + check,
            ((i + 11) % 23) as nat,
        ),
        word_of(bits, check, true)[i] == !word_of(bits, check, false)[i],
{
    assert(vstd::arithmetic::power2::pow2(11) == 2048) by {
        vstd::arithmetic::power2::lemma2_to64();
    }
    if i < 12 {
        lemma_high_bits(information(bits), check, 11, i as nat);
    } else {
        lemma_low_bits(information(bits), check, 11, (i - 12) as nat);
    }
}

proof fn lemma_high_bits(high: int, low: int, n: nat, i: nat)
    requires
        0 <= high,
        0 <= low < vstd::arithmetic::power2::pow2(n),
    ensures
        bit_at(vstd::arithmetic::power2::pow2(n) * high + low, n + i) == bit_at(high, i),
    decreases n,
{
    let p = vstd::arithmetic::power2::pow2(n) as int;
    if n == 0 {
        vstd::arithmetic::power2::lemma2_to64();
    } else {
        vstd::arithmetic::power2::lemma_pow2_unfold(n);
        let h = vstd::arithmetic::power2::pow2((n - 1) as nat) as int;
        assert(p == 2 * h);
        assert((2 * h) * high == 2 * (h * high)) by (nonlinear_arith);
        assert((p * high + low) / 2 == h * high + low / 2);
        lemma_high_bits(high, low / 2, (n - 1) as nat, i);
    }
}

proof fn lemma_low_bits(high: int, low: int, n: nat, i: nat)
    requires
        0 <= high,
        0 <= low < vstd::arithmetic::power2::pow2(n),
        i < n,
    ensures
        bit_at(vstd::arithmetic::power2::pow2(n) * high + low, i) == bit_at(low, i),
    decreases n,
{
    let p = vstd::arithmetic::power2::pow2(n) as int;
    vstd::arithmetic::power2::lemma_pow2_unfold(n);
    let h = vstd::arithmetic::power2::pow2((n - 1) as nat) as int;
    assert(p == 2 * h);
    assert((2 * h) * high == 2 * (h * high)) by (nonlinear_arith);
    assert((p * high + low) / 2 == h * high + low / 2);
    assert((p * high + low) % 2 == low % 2);
    if i > 0 {
        lemma_low_bits(high, low / 2, (n - 1) as nat, (i - 1) as nat);
    }
}

/// A burst with a ramp opens at nothing, never jumps by more than one step of its ramp, and
/// has come down to one step where it ends.
pub proof fn law_a_burst_ramps_at_both_ends(b: ToneBurst, n: int)
    requires
        b.wf(),
        b.ramp > 0,
        0 <= n < b.total - 1,
    ensures
        b.rise(0) == 0,
        -1 <= b.rise(n + 1) - b.rise(n) <= 1,
        b.rise(b.total - 1) <= 1,
        b.ramp <= n <= b.total - b.ramp ==> b.rise(n) == b.ramp,
{
}

proof fn lemma_no_bit(k: nat)
    ensures
        !bit_at(0, k),
    decreases k,
{
    if k > 0 {
        lemma_no_bit((k - 1) as nat);
    }
}

} // verus!
