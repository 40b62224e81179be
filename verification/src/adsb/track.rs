//! The rolling demodulator: blocks of power in, messages out, and a transmitter
//! to try it with.
//!
//! Blocks are not messages. The tail of a block is kept in front of the next one,
//! so a message that straddles the two is seen whole, and the scan goes on where
//! it left off, so none is found twice.
use crate::adsb::demod;
use crate::adsb::demod::{Candidate, CandidateView, Rate, MAX_POWER, MAX_RATE, PREAMBLE};
use vstd::prelude::*;

verus! {

broadcast use vstd::seq::group_seq_axioms;

/// How much is kept of a block: a long message and a little more.
pub const TAIL_US: u32 = 124;

/// How long a long message is.
pub const MSG_US: u32 = 120;

/// The longest block.
pub const MAX_BLOCK: usize = 0x800_0000;

/// How many samples are at most `v`.
pub open spec fn count_upto(s: Seq<u64>, v: int) -> int
    decreases s.len(),
{
    if s.len() == 0 {
        0
    } else {
        count_upto(s.drop_last(), v) + if s.last() <= v {
            1int
        } else {
            0
        }
    }
}

/// The sample that would stand at place `k` if they were sorted: the least value
/// that more than `k` samples do not exceed.
pub open spec fn is_kth(s: Seq<u64>, k: int, v: int) -> bool {
    count_upto(s, v) > k && count_upto(s, v - 1) <= k
}

/// Every 37th sample: out of step with any period of the traffic.
pub open spec fn sampled(block: Seq<u64>) -> Seq<u64> {
    Seq::new(((block.len() + 36) / 37) as nat, |i: int| block[37 * i])
}

/// The noise floor after a block whose lower quartile is `q`: down quickly, up
/// slowly.
pub open spec fn tracked_noise(noise: int, q: int) -> int {
    let n = if q < noise {
        (7 * noise + 3 * q) / 10
    } else {
        (99 * noise + q) / 100
    };
    if n < 1 {
        1
    } else {
        n
    }
}

/// The noise floor after a block.
pub open spec fn noise_after(noise: int, block: Seq<u64>, r: int) -> bool {
    if block.len() < 64 {
        r == noise
    } else {
        let s = sampled(block);
        exists|q: int| #[trigger] is_kth(s, s.len() as int / 4, q) && r == tracked_noise(noise, q)
    }
}

proof fn lemma_count_grows(s: Seq<u64>, a: int, b: int)
    requires
        a <= b,
    ensures
        0 <= count_upto(s, a) <= count_upto(s, b) <= s.len(),
    decreases s.len(),
{
    if s.len() > 0 {
        lemma_count_grows(s.drop_last(), a, b);
    }
}

/// There is only one sample at a place.
pub proof fn law_the_quartile_is_one_value(s: Seq<u64>, k: int, a: int, b: int)
    requires
        is_kth(s, k, a),
        is_kth(s, k, b),
    ensures
        a == b,
{
    if a < b {
        lemma_count_grows(s, a, b - 1);
    } else if b < a {
        lemma_count_grows(s, b, a - 1);
    }
}

proof fn lemma_count_all(s: Seq<u64>, v: int)
    requires
        forall|i: int| 0 <= i < s.len() ==> #[trigger] s[i] <= v,
    ensures
        count_upto(s, v) == s.len(),
    decreases s.len(),
{
    if s.len() > 0 {
        assert(s[s.len() - 1] <= v);
        lemma_count_all(s.drop_last(), v);
    }
}

proof fn lemma_count_none(s: Seq<u64>)
    ensures
        count_upto(s, -1) == 0,
    decreases s.len(),
{
    if s.len() > 0 {
        lemma_count_none(s.drop_last());
    }
}

fn count(s: &Vec<u64>, v: u64) -> (r: usize)
    ensures
        r == count_upto(s@, v as int),
{
    let mut n: usize = 0;
    let mut i: usize = 0;
    assert(s@.take(0) =~= Seq::empty());
    while i < s.len()
        invariant
            i <= s@.len(),
            n <= i,
            n == count_upto(s@.take(i as int), v as int),
        decreases s@.len() - i,
    {
        if s[i] <= v {
            n = n + 1;
        }
        i += 1;
        assert(s@.take(i as int).drop_last() =~= s@.take(i - 1));
    }
    assert(s@.take(s@.len() as int) =~= s@);
    n
}

/// The sample at place `k`.
fn kth(s: &Vec<u64>, k: usize) -> (r: u64)
    requires
        k < s@.len(),
        demod::bounded(s@),
    ensures
        is_kth(s@, k as int, r as int),
        r <= MAX_POWER,
{
    let mut low: u64 = 0;
    let mut high: u64 = MAX_POWER;
    proof {
        lemma_count_all(s@, MAX_POWER as int);
        lemma_count_none(s@);
    }
    while low < high
        invariant
            low <= high <= MAX_POWER,
            k < s@.len(),
            count_upto(s@, high as int) > k,
            count_upto(s@, low - 1) <= k,
        decreases high - low,
    {
        let mid: u64 = low + (high - low) / 2;
        if count(s, mid) > k {
            high = mid;
        } else {
            low = mid + 1;
        }
    }
    low
}

/// The rolling demodulator of one receiver.
#[derive(Debug)]
pub struct Demod {
    rate: Rate,
    /// Power, with the tail of the last block in front.
    power: Vec<u64>,
    /// Where the scan goes on.
    resume: usize,
    noise: u64,
    preambles: u64,
}

/// The demodulator as it is spoken of.
pub struct DemodView {
    pub rate: int,
    pub power: Seq<u64>,
    pub resume: int,
    pub noise: int,
    /// How many messages were found.
    pub preambles: int,
}

impl View for Demod {
    type V = DemodView;

    closed spec fn view(&self) -> DemodView {
        DemodView {
            rate: self.rate.hz as int,
            power: self.power@,
            resume: self.resume as int,
            noise: self.noise as int,
            preambles: self.preambles as int,
        }
    }
}

impl DemodView {
    /// What is not looked at yet is no longer than a message.
    pub open spec fn wf(self) -> bool {
        &&& 0 < self.rate <= MAX_RATE
        &&& demod::bounded(self.power)
        &&& self.power.len() <= 0x1000_0000
        &&& 1 <= self.noise <= MAX_POWER
        &&& 0 <= self.resume <= self.power.len()
        &&& self.power.len() - self.resume <= demod::span(self.rate)
    }

    /// How much of what is kept is dropped before the next block.
    pub open spec fn dropped(self) -> int {
        let tail = demod::samples(self.rate, TAIL_US as int);
        if self.power.len() > tail {
            self.power.len() - tail
        } else {
            0
        }
    }

    /// The power with the next block behind it.
    pub open spec fn joined(self, block: Seq<u64>) -> Seq<u64> {
        self.power.skip(self.dropped()) + block
    }
}

proof fn lemma_tail_holds_the_rest(rate: int)
    requires
        0 < rate,
    ensures
        0 < demod::span(rate) <= demod::samples(rate, TAIL_US as int),
{
}

proof fn lemma_scan_end(p: Seq<u64>, rate: int, noise: int, i: int, last: int)
    requires
        demod::span(rate) > 0,
    ensures
        demod::scan_end(p, rate, noise, i, last) >= i,
        demod::scan_end(p, rate, noise, i, last) >= last,
        demod::scan_end(p, rate, noise, i, last) < last + demod::span(rate) || demod::scan_end(
            p,
            rate,
            noise,
            i,
            last,
        ) == i,
    decreases demod::left(i, last),
{
    if i < last {
        match demod::message_at(p, rate, noise, i) {
            Some(_) => lemma_scan_end(p, rate, noise, i + demod::span(rate), last),
            None => lemma_scan_end(p, rate, noise, i + 1, last),
        }
    }
}

impl Demod {
    /// A demodulator for a stream of so many samples a second.
    pub fn new(rate_hz: u32) -> (r: Demod)
        requires
            0 < rate_hz <= MAX_RATE,
        ensures
            r@.wf(),
            r@.rate == rate_hz,
            r@.power.len() == 0,
            r@.resume == 0,
            r@.noise == 1_000_000_000,
            r@.preambles == 0,
    {
        proof {
            lemma_tail_holds_the_rest(rate_hz as int);
        }
        Demod {
            rate: Rate { hz: rate_hz },
            power: Vec::new(),
            resume: 0,
            noise: 1_000_000_000,
            preambles: 0,
        }
    }

    pub fn rate_hz(&self) -> (r: u32)
        ensures
            r == self@.rate,
    {
        self.rate.hz
    }

    /// How many messages were found.
    pub fn preambles(&self) -> (r: u64)
        ensures
            r == self@.preambles,
    {
        self.preambles
    }

    /// Tracks the noise floor: by a low quantile and not the mean, for much of
    /// what is heard is traffic.
    fn track_noise(&mut self, block: &[u64])
        requires
            old(self)@.wf(),
            demod::bounded(block@),
        ensures
            final(self).noise >= 1,
            final(self).noise <= MAX_POWER,
            noise_after(old(self).noise as int, block@, final(self).noise as int),
            final(self).rate == old(self).rate,
            final(self).power@ == old(self).power@,
            final(self).resume == old(self).resume,
            final(self).preambles == old(self).preambles,
    {
        if block.len() < 64 {
            return;
        }
        let len: usize = block.len();
        let n: usize = (len - 1) / 37 + 1;
        let mut s: Vec<u64> = Vec::new();
        let mut i: usize = 0;
        while i < n
            invariant
                i <= n,
                len == block@.len(),
                len >= 64,
                n == (len - 1) / 37 + 1,
                demod::bounded(block@),
                s@.len() == i,
                forall|k: int| 0 <= k < i ==> #[trigger] s@[k] == block@[37 * k],
                demod::bounded(s@),
            decreases n - i,
        {
            assert(37 * i < len);
            assert(block@[37 * i] <= MAX_POWER);
            s.push(block[37 * i]);
            i += 1;
        }
        assert(s@ =~= sampled(block@));
        let q: u64 = kth(&s, s.len() / 4);
        let next: u64 = if q < self.noise {
            (7 * self.noise + 3 * q) / 10
        } else {
            (99 * self.noise + q) / 100
        };
        self.noise = if next < 1 { 1 } else { next };
        proof {
            let all = sampled(block@);
            assert(is_kth(all, all.len() as int / 4, q as int));
            assert(self.noise == tracked_noise(old(self).noise as int, q as int));
        }
    }

    /// Takes the next block in, and puts the messages that are found behind
    /// those that are there.
    #[verifier::rlimit(30)]
    pub fn push(&mut self, block: &[u64], out: &mut Vec<Candidate>)
        requires
            old(self)@.wf(),
            demod::bounded(block@),
            block@.len() <= MAX_BLOCK,
        ensures
            final(self)@.wf(),
            final(self)@.rate == old(self)@.rate,
            block@.len() == 0 ==> *final(self) == *old(self) && final(out)@ == old(out)@,
            block@.len() > 0 ==> {
                let rate = old(self)@.rate;
                let p = old(self)@.joined(block@);
                let from = old(self)@.resume - old(self)@.dropped();
                let last = p.len() - demod::span(rate);
                let noise = final(self)@.noise;
                let found = demod::scan(p, rate, noise, from, last);
                &&& noise_after(old(self)@.noise, block@, noise)
                &&& final(self)@.power == p
                &&& final(self)@.resume == demod::scan_end(p, rate, noise, from, last)
                &&& demod::views(final(out)@) == demod::views(old(out)@) + found
                &&& final(self)@.preambles == if old(self)@.preambles + found.len() > u64::MAX {
                    u64::MAX as int
                } else {
                    old(self)@.preambles + found.len()
                }
            },
    {
        if block.len() == 0 {
            return;
        }
        proof {
            lemma_tail_holds_the_rest(self.rate.hz as int);
        }
        let ghost start = self@;
        let drop: usize = self.drop_old();
        self.resume = self.resume - drop;
        self.track_noise(block);
        self.append(block);
        let ghost p = self.power@;
        let ghost from = self.resume as int;
        let ghost noise = self.noise as int;
        let ghost rate = self.rate.hz as int;
        assert(p == start.joined(block@));
        let span: usize = self.rate_span();
        let ghost last = p.len() - span;
        let ghost before = demod::views(out@);
        let ghost all = demod::scan(p, rate, noise, from, last);
        proof {
            lemma_scan_end(p, rate, noise, from, last);
        }
        if self.power.len() <= span {
            assert(demod::views(out@) =~= before + all);
            return;
        }
        let stop: usize = self.power.len() - span;
        let mut i: usize = self.resume;
        let ghost mut got: Seq<CandidateView> = Seq::empty();
        assert(got + all =~= all);
        while i < stop
            invariant
                p == self.power@,
                rate == self.rate.hz,
                noise == self.noise,
                self.resume == from,
                last == stop,
                stop + span == p.len(),
                span == demod::span(rate),
                span > 0,
                0 < rate <= MAX_RATE,
                demod::bounded(p),
                p.len() <= 0x1000_0000,
                1 <= noise <= MAX_POWER,
                i <= p.len(),
                all == demod::scan(p, rate, noise, from, last),
                got + demod::scan(p, rate, noise, i as int, last) == all,
                demod::scan_end(p, rate, noise, i as int, last) == demod::scan_end(
                    p,
                    rate,
                    noise,
                    from,
                    last,
                ),
                demod::views(out@) == before + got,
                self.preambles == if start.preambles + got.len() > u64::MAX {
                    u64::MAX as int
                } else {
                    start.preambles + got.len()
                },
            decreases demod::left(i as int, last),
        {
            match self.rate.try_at(&self.power, self.noise, i) {
                Some(c) => {
                    let ghost v = c@;
                    let ghost was = demod::views(out@);
                    if self.preambles < 0xffff_ffff_ffff_ffff {
                        self.preambles = self.preambles + 1;
                    }
                    out.push(c);
                    proof {
                        assert(demod::views(out@) =~= was.push(v));
                        assert(demod::views(out@) =~= before + got.push(v));
                        let rest = demod::scan(p, rate, noise, i + span, last);
                        assert(got + (seq![v] + rest) =~= got.push(v) + rest);
                        got = got.push(v);
                    }
                    i = i + span;
                },
                None => {
                    i = i + 1;
                },
            }
        }
        assert(demod::scan(p, rate, noise, i as int, last) =~= Seq::empty());
        assert(got =~= all);
        self.resume = i;
    }

    fn rate_span(&self) -> (r: usize)
        requires
            0 < self.rate.hz <= MAX_RATE,
        ensures
            r == demod::span(self.rate.hz as int),
            r > 0,
    {
        self.rate.micros(MSG_US)
    }

    /// Drops what is older than the tail, and says how much that was.
    fn drop_old(&mut self) -> (r: usize)
        requires
            old(self)@.wf(),
        ensures
            r == old(self)@.dropped(),
            final(self).power@ == old(self).power@.skip(r as int),
            final(self).power@.len() <= 1_000_000,
            final(self).rate == old(self).rate,
            final(self).resume == old(self).resume,
            final(self).noise == old(self).noise,
            final(self).preambles == old(self).preambles,
    {
        let tail: usize = self.rate.micros(TAIL_US);
        let n: usize = self.power.len();
        if n <= tail {
            assert(self.power@.skip(0) =~= self.power@);
            return 0;
        }
        let drop: usize = n - tail;
        let mut kept: Vec<u64> = Vec::new();
        let mut i: usize = drop;
        while i < n
            invariant
                drop <= i <= n,
                n == self.power@.len(),
                kept@ == self.power@.subrange(drop as int, i as int),
            decreases n - i,
        {
            kept.push(self.power[i]);
            i += 1;
            assert(kept@ =~= self.power@.subrange(drop as int, i as int));
        }
        assert(kept@ =~= self.power@.skip(drop as int));
        self.power = kept;
        drop
    }

    fn append(&mut self, block: &[u64])
        requires
            demod::bounded(old(self).power@),
            demod::bounded(block@),
        ensures
            final(self).power@ == old(self).power@ + block@,
            demod::bounded(final(self).power@),
            final(self).rate == old(self).rate,
            final(self).resume == old(self).resume,
            final(self).noise == old(self).noise,
            final(self).preambles == old(self).preambles,
    {
        let ghost start = self.power@;
        let mut i: usize = 0;
        assert(self.power@ =~= start + block@.take(0));
        while i < block.len()
            invariant
                i <= block@.len(),
                self.power@ == start + block@.take(i as int),
                self.rate == old(self).rate,
                self.resume == old(self).resume,
                self.noise == old(self).noise,
                self.preambles == old(self).preambles,
            decreases block@.len() - i,
        {
            self.power.push(block[i]);
            i += 1;
            assert(self.power@ =~= start + block@.take(i as int));
        }
        assert(block@.take(block@.len() as int) =~= block@);
        assert forall|k: int| 0 <= k < self.power@.len() implies #[trigger] self.power@[k]
            <= MAX_POWER by {
            if k < start.len() {
                assert(start[k] <= MAX_POWER);
            } else {
                assert(block@[k - start.len()] <= MAX_POWER);
            }
        }
    }
}

/// It makes no difference where a scan is interrupted: what is found up to one
/// place and from there on is what is found in one go, no start is tried twice,
/// and none is passed over.
pub proof fn law_a_scan_can_be_interrupted(
    p: Seq<u64>,
    rate: int,
    noise: int,
    i: int,
    mid: int,
    last: int,
)
    requires
        demod::span(rate) > 0,
        mid <= last,
    ensures
        demod::scan(p, rate, noise, i, last) == demod::scan(p, rate, noise, i, mid) + demod::scan(
            p,
            rate,
            noise,
            demod::scan_end(p, rate, noise, i, mid),
            last,
        ),
        demod::scan_end(p, rate, noise, i, last) == demod::scan_end(
            p,
            rate,
            noise,
            demod::scan_end(p, rate, noise, i, mid),
            last,
        ),
    decreases demod::left(i, mid),
{
    if i >= mid {
        assert(Seq::<CandidateView>::empty() + demod::scan(p, rate, noise, i, last) =~= demod::scan(
            p,
            rate,
            noise,
            i,
            last,
        ));
    } else {
        match demod::message_at(p, rate, noise, i) {
            Some(m) => {
                let n = i + demod::span(rate);
                law_a_scan_can_be_interrupted(p, rate, noise, n, mid, last);
                let a = demod::scan(p, rate, noise, n, mid);
                let b = demod::scan(
                    p,
                    rate,
                    noise,
                    demod::scan_end(p, rate, noise, n, mid),
                    last,
                );
                assert(seq![m] + (a + b) =~= (seq![m] + a) + b);
            },
            None => {
                law_a_scan_can_be_interrupted(p, rate, noise, i + 1, mid, last);
            },
        }
    }
}

proof fn lemma_at_grows(rate: int, a: int, b: int)
    requires
        0 < rate,
        0 <= a <= b,
    ensures
        0 <= demod::at(rate, a) <= demod::at(rate, b),
{
    assert(0 <= a * rate <= b * rate) by (nonlinear_arith)
        requires
            0 < rate,
            0 <= a <= b,
    ;
}

/// The chips of a message are within its span.
proof fn lemma_chip_in_span(rate: int, h: int)
    requires
        rate >= 2_000_000,
        0 <= h < 240,
    ensures
        0 <= demod::at(rate, h),
        demod::at(rate, h) + 1 <= demod::at(rate, h + 1) <= demod::span(rate),
{
    lemma_at_grows(rate, h + 1, 240);
    lemma_at_grows(rate, 0, h);
    demod::lemma_chips_advance(rate, h);
}

/// Two stretches that are the same for a message, from `i` in the one and from
/// `j` in the other.
pub open spec fn same_stretch(p: Seq<u64>, i: int, q: Seq<u64>, j: int, n: int) -> bool {
    &&& 0 <= i && i + n <= p.len()
    &&& 0 <= j && j + n <= q.len()
    &&& forall|k: int| 0 <= k < n ==> #[trigger] p[i + k] == q[j + k]
}

proof fn lemma_same_sum(p: Seq<u64>, i: int, q: Seq<u64>, j: int, n: int, a: int, b: int)
    requires
        same_stretch(p, i, q, j, n),
        0 <= a,
        b <= n,
    ensures
        demod::sum(p, i + a, i + b) == demod::sum(q, j + a, j + b),
    decreases b - a,
{
    if a < b {
        lemma_same_sum(p, i, q, j, n, a, b - 1);
        assert(p[i + (b - 1)] == q[j + (b - 1)]);
    }
}

proof fn lemma_same_chip(p: Seq<u64>, i: int, q: Seq<u64>, j: int, rate: int, h: int)
    requires
        rate >= 2_000_000,
        same_stretch(p, i, q, j, demod::span(rate)),
        0 <= h < 240,
    ensures
        demod::chip(p, rate, i, h) == demod::chip(q, rate, j, h),
{
    reveal(demod::chip);
    lemma_chip_in_span(rate, h);
    let a = demod::at(rate, h);
    let b = demod::at(rate, h + 1);
    lemma_same_sum(p, i, q, j, demod::span(rate), a, b);
    assert(demod::chip_end(rate, i, h, p.len() as int) == i + b);
    assert(demod::chip_end(rate, j, h, q.len() as int) == j + b);
}

proof fn lemma_same_byte(p: Seq<u64>, i: int, q: Seq<u64>, j: int, rate: int, k: int)
    requires
        rate >= 2_000_000,
        same_stretch(p, i, q, j, demod::span(rate)),
        0 <= k < 14,
    ensures
        demod::byte_at(p, rate, i, k) == demod::byte_at(q, rate, j, k),
{
    reveal(demod::byte_at);
    assert forall|b: int| 0 <= b < 8 implies #[trigger] demod::bit_at(p, rate, i, 8 * k + b)
        == demod::bit_at(q, rate, j, 8 * k + b) by {
        lemma_same_chip(p, i, q, j, rate, PREAMBLE + 2 * (8 * k + b));
        lemma_same_chip(p, i, q, j, rate, PREAMBLE + 2 * (8 * k + b) + 1);
    }
    assert(demod::bit_at(p, rate, i, 8 * k + 0) == demod::bit_at(q, rate, j, 8 * k + 0));
    assert(demod::bit_at(p, rate, i, 8 * k + 1) == demod::bit_at(q, rate, j, 8 * k + 1));
    assert(demod::bit_at(p, rate, i, 8 * k + 2) == demod::bit_at(q, rate, j, 8 * k + 2));
    assert(demod::bit_at(p, rate, i, 8 * k + 3) == demod::bit_at(q, rate, j, 8 * k + 3));
    assert(demod::bit_at(p, rate, i, 8 * k + 4) == demod::bit_at(q, rate, j, 8 * k + 4));
    assert(demod::bit_at(p, rate, i, 8 * k + 5) == demod::bit_at(q, rate, j, 8 * k + 5));
    assert(demod::bit_at(p, rate, i, 8 * k + 6) == demod::bit_at(q, rate, j, 8 * k + 6));
    assert(demod::bit_at(p, rate, i, 8 * k + 7) == demod::bit_at(q, rate, j, 8 * k + 7));
}

proof fn lemma_same_confidence(p: Seq<u64>, i: int, q: Seq<u64>, j: int, rate: int, n: int)
    requires
        rate >= 2_000_000,
        same_stretch(p, i, q, j, demod::span(rate)),
        n <= 112,
    ensures
        demod::confidence_sum(p, rate, i, n) == demod::confidence_sum(q, rate, j, n),
    decreases n,
{
    if n > 0 {
        lemma_same_confidence(p, i, q, j, rate, n - 1);
        lemma_same_chip(p, i, q, j, rate, PREAMBLE + 2 * (n - 1));
        lemma_same_chip(p, i, q, j, rate, PREAMBLE + 2 * (n - 1) + 1);
    }
}

/// Whether there is a message at a place, and which, depends on the samples of a
/// long message from there and on nothing else: a block boundary in it makes no
/// difference, nor does what was dropped before it or came in behind it.
pub proof fn law_a_message_is_its_own_samples(
    p: Seq<u64>,
    i: int,
    q: Seq<u64>,
    j: int,
    rate: int,
    noise: int,
)
    requires
        rate >= 2_000_000,
        same_stretch(p, i, q, j, demod::span(rate)),
    ensures
        demod::message_at(p, rate, noise, i) == demod::message_at(q, rate, noise, j),
{
    reveal(demod::message_at);
    lemma_same_chip(p, i, q, j, rate, 0);
    lemma_same_chip(p, i, q, j, rate, 1);
    lemma_same_chip(p, i, q, j, rate, 2);
    lemma_same_chip(p, i, q, j, rate, 3);
    lemma_same_chip(p, i, q, j, rate, 4);
    lemma_same_chip(p, i, q, j, rate, 6);
    lemma_same_chip(p, i, q, j, rate, 7);
    lemma_same_chip(p, i, q, j, rate, 8);
    lemma_same_chip(p, i, q, j, rate, 9);
    lemma_same_chip(p, i, q, j, rate, 10);
    lemma_same_byte(p, i, q, j, rate, 0);
    let a = demod::bytes_at(p, rate, i);
    let b = demod::bytes_at(q, rate, j);
    assert(demod::bit_count(p, rate, i) == demod::bit_count(q, rate, j));
    assert forall|k: int| 0 <= k < a.len() implies a[k] == b[k] by {
        lemma_same_byte(p, i, q, j, rate, k);
    }
    assert(a =~= b);
    lemma_same_confidence(p, i, q, j, rate, demod::bit_count(p, rate, i));
}

} // verus!
