//! What the demodulator does as a whole: which messages are heard, what is read of
//! them, and that every one is handed on.
use crate::adsb::burst;
use crate::adsb::demod;
use crate::adsb::track;
use crate::adsb::track::DemodView;
use vstd::multiset::Multiset;
use vstd::prelude::*;

verus! {

broadcast use vstd::seq::group_seq_axioms;

/// The sum of samples.
pub open spec fn total(s: Seq<u64>) -> int
    decreases s.len(),
{
    if s.len() == 0 {
        0
    } else {
        s[0] + total(s.skip(1))
    }
}

proof fn lemma_total_push(s: Seq<u64>, x: u64)
    ensures
        total(s.push(x)) == total(s) + x,
    decreases s.len(),
{
    if s.len() == 0 {
        assert(s.push(x).skip(1) =~= Seq::empty());
        assert(total(s.push(x).skip(1)) == 0);
    } else {
        lemma_total_push(s.skip(1), x);
        assert(s.push(x).skip(1) =~= s.skip(1).push(x));
    }
}

proof fn lemma_sum_is_total(p: Seq<u64>, a: int, b: int)
    requires
        0 <= a <= b <= p.len(),
    ensures
        demod::sum(p, a, b) == total(p.subrange(a, b)),
    decreases b - a,
{
    if a < b {
        lemma_sum_is_total(p, a, b - 1);
        lemma_total_push(p.subrange(a, b - 1), p[b - 1]);
        assert(p.subrange(a, b - 1).push(p[b - 1]) =~= p.subrange(a, b));
    }
}

/// Every message at a place that the scan reaches is handed on, however strong or
/// weak it is, and the scan goes on behind its 120 microseconds.
pub proof fn law_every_message_is_handed_on(
    p: Seq<u64>,
    rate: int,
    noise: int,
    from: int,
    i: int,
    last: int,
)
    requires
        rate > 0,
        from <= i < last,
        demod::message_at(p, rate, noise, i) is Some,
        forall|j: int| from <= j < i ==> #[trigger] demod::message_at(p, rate, noise, j) is None,
    ensures
        exists|n: int|
            #![trigger demod::scan(p, rate, noise, i + n, last)]
            {
                &&& 1_000_000 * n >= 120 * rate > 1_000_000 * (n - 1)
                &&& demod::scan(p, rate, noise, from, last) == seq![
                    demod::message_at(p, rate, noise, i)->0,
                ] + demod::scan(p, rate, noise, i + n, last)
                &&& demod::scan_end(p, rate, noise, from, last) == demod::scan_end(
                    p,
                    rate,
                    noise,
                    i + n,
                    last,
                )
            },
    decreases i - from,
{
    if from < i {
        assert(demod::message_at(p, rate, noise, from) is None);
        law_every_message_is_handed_on(p, rate, noise, from + 1, i, last);
        assert(demod::span(rate) > 0);
        assert(demod::scan(p, rate, noise, from, last) == demod::scan(
            p,
            rate,
            noise,
            from + 1,
            last,
        ));
        assert(demod::scan_end(p, rate, noise, from, last) == demod::scan_end(
            p,
            rate,
            noise,
            from + 1,
            last,
        ));
    } else {
        let n = demod::span(rate);
        let m = demod::message_at(p, rate, noise, i)->0;
        assert(demod::scan(p, rate, noise, from, last) == seq![m] + demod::scan(
            p,
            rate,
            noise,
            i + n,
            last,
        ));
        assert(1_000_000 * n >= 120 * rate > 1_000_000 * (n - 1));
    }
}

/// Where no message starts, none is handed on, and every place is looked at.
pub proof fn law_silence_is_no_message(
    p: Seq<u64>,
    rate: int,
    noise: int,
    from: int,
    last: int,
)
    requires
        rate > 0,
        forall|j: int| from <= j < last ==> #[trigger] demod::message_at(p, rate, noise, j) is None,
    ensures
        demod::scan(p, rate, noise, from, last).len() == 0,
        demod::scan_end(p, rate, noise, from, last) == if from < last {
            last
        } else {
            from
        },
    decreases last - from,
{
    if from < last {
        assert(demod::message_at(p, rate, noise, from) is None);
        law_silence_is_no_message(p, rate, noise, from + 1, last);
    }
}

/// A reply that arrives clean, with no message before it, is the first that is
/// handed on, with its bytes and at its strength, whatever that is: half a
/// microsecond light at 0, 1, 3.5 and 4.5 microseconds, and light in the first
/// half of every bit that is set and in the second of every other.
pub proof fn law_a_clean_reply_is_handed_on(
    p: Seq<u64>,
    rate: int,
    noise: int,
    from: int,
    i: int,
    last: int,
    msg: Seq<u8>,
    amp: int,
)
    requires
        rate >= 2_000_000,
        0 <= from <= i < last,
        forall|j: int| from <= j < i ==> #[trigger] demod::message_at(p, rate, noise, j) is None,
        noise >= 0,
        amp > 0,
        amp >= 3 * noise,
        msg.len() == if msg[0] >= 128 {
            14int
        } else {
            7
        },
        exists|k: int| 0 <= k < msg.len() && #[trigger] msg[k] != 0,
        exists|k: int| 0 <= k < msg.len() && #[trigger] msg[k] != 255,
        demod::arrives(p, rate, i, msg, amp),
    ensures
        demod::scan(p, rate, noise, from, last).len() > 0,
        demod::scan(p, rate, noise, from, last)[0].bytes == msg,
        demod::scan(p, rate, noise, from, last)[0].peak == amp,
{
    demod::law_a_burst_is_heard(p, rate, noise, i, msg, amp);
    law_every_message_is_handed_on(p, rate, noise, from, i, last);
}

/// A clean reply is light where its pulses and bits say: of its chips of half a
/// microsecond 0, 2, 7 and 9, and of those of bit `k` the first where it is set and
/// the second where it is not. Bits count from the highest of a byte.
pub proof fn law_what_is_light(msg: Seq<u8>, h: int)
    requires
        0 <= h < 16 + 16 * msg.len(),
    ensures
        h < 16 ==> demod::lit(msg, h) == (h == 0 || h == 2 || h == 7 || h == 9),
        h >= 16 ==> {
            let k = (h - 16) / 2;
            let b = msg[k / 8] as int;
            let set = (k % 8 == 0 && b / 128 % 2 == 1) || (k % 8 == 1 && b / 64 % 2 == 1) || (k % 8
                == 2 && b / 32 % 2 == 1) || (k % 8 == 3 && b / 16 % 2 == 1) || (k % 8 == 4 && b / 8
                % 2 == 1) || (k % 8 == 5 && b / 4 % 2 == 1) || (k % 8 == 6 && b / 2 % 2 == 1) || (k
                % 8 == 7 && b % 2 == 1);
            demod::lit(msg, h) == if h % 2 == 0 {
                set
            } else {
                !set
            }
        },
{
}

/// A chip is the mean of the samples of its half microsecond, which starts and
/// ends at the samples that are nearest.
pub proof fn law_a_chip_is_a_mean(p: Seq<u64>, rate: int, base: int, h: int, a: int, b: int)
    requires
        rate >= 2_000_000,
        base >= 0,
        h >= 0,
        2_000_000 * (a - base) <= h * rate + 1_000_000 < 2_000_000 * (a - base + 1),
        2_000_000 * (b - base) <= (h + 1) * rate + 1_000_000 < 2_000_000 * (b - base + 1),
        b <= p.len(),
    ensures
        0 <= a < b,
        demod::chip(p, rate, base, h) * (b - a) <= total(p.subrange(a, b)) < (demod::chip(
            p,
            rate,
            base,
            h,
        ) + 1) * (b - a),
{
    reveal(demod::chip);
    demod::lemma_chips_advance(rate, h);
    let x = h * rate;
    let y = (h + 1) * rate;
    assert(demod::at(rate, h) == a - base);
    assert(demod::at(rate, h + 1) == b - base);
    lemma_sum_is_total(p, a, b);
    let t = total(p.subrange(a, b));
    let d = b - a;
    assert((t / d) * d <= t < (t / d + 1) * d) by (nonlinear_arith)
        requires
            d > 0,
    ;
}

/// Whether the first half of a bit has more power than the second.
pub open spec fn first_half(p: Seq<u64>, rate: int, base: int, k: int) -> bool {
    demod::chip(p, rate, base, 16 + 2 * k) > demod::chip(p, rate, base, 17 + 2 * k)
}

/// How many bits a message has: the first says whether it is a long one.
pub open spec fn bits(p: Seq<u64>, rate: int, base: int) -> int {
    if first_half(p, rate, base, 0) {
        112
    } else {
        56
    }
}

proof fn lemma_byte(p: Seq<u64>, rate: int, base: int, i: int)
    ensures
        0 <= demod::byte_at(p, rate, base, i) < 256,
        (demod::byte_at(p, rate, base, i) / 128 % 2 == 1) == first_half(p, rate, base, 8 * i),
        (demod::byte_at(p, rate, base, i) / 64 % 2 == 1) == first_half(p, rate, base, 8 * i + 1),
        (demod::byte_at(p, rate, base, i) / 32 % 2 == 1) == first_half(p, rate, base, 8 * i + 2),
        (demod::byte_at(p, rate, base, i) / 16 % 2 == 1) == first_half(p, rate, base, 8 * i + 3),
        (demod::byte_at(p, rate, base, i) / 8 % 2 == 1) == first_half(p, rate, base, 8 * i + 4),
        (demod::byte_at(p, rate, base, i) / 4 % 2 == 1) == first_half(p, rate, base, 8 * i + 5),
        (demod::byte_at(p, rate, base, i) / 2 % 2 == 1) == first_half(p, rate, base, 8 * i + 6),
        (demod::byte_at(p, rate, base, i) % 2 == 1) == first_half(p, rate, base, 8 * i + 7),
{
    reveal(demod::byte_at);
    assert(demod::bit_at(p, rate, base, 8 * i) == first_half(p, rate, base, 8 * i));
    assert(demod::bit_at(p, rate, base, 8 * i + 1) == first_half(p, rate, base, 8 * i + 1));
    assert(demod::bit_at(p, rate, base, 8 * i + 2) == first_half(p, rate, base, 8 * i + 2));
    assert(demod::bit_at(p, rate, base, 8 * i + 3) == first_half(p, rate, base, 8 * i + 3));
    assert(demod::bit_at(p, rate, base, 8 * i + 4) == first_half(p, rate, base, 8 * i + 4));
    assert(demod::bit_at(p, rate, base, 8 * i + 5) == first_half(p, rate, base, 8 * i + 5));
    assert(demod::bit_at(p, rate, base, 8 * i + 6) == first_half(p, rate, base, 8 * i + 6));
    assert(demod::bit_at(p, rate, base, 8 * i + 7) == first_half(p, rate, base, 8 * i + 7));
}

/// The bits of a message are those whose first half has more power, the highest of
/// a byte first, and its first bit says whether it has 14 bytes or 7.
pub proof fn law_what_a_message_says(p: Seq<u64>, rate: int, noise: int, base: int, i: int)
    requires
        demod::message_at(p, rate, noise, base) is Some,
        0 <= i < demod::message_at(p, rate, noise, base)->0.bytes.len(),
    ensures
        8 * demod::message_at(p, rate, noise, base)->0.bytes.len() == bits(p, rate, base),
        ({
            let b = demod::message_at(p, rate, noise, base)->0.bytes[i] as int;
            &&& (b / 128 % 2 == 1) == first_half(p, rate, base, 8 * i)
            &&& (b / 64 % 2 == 1) == first_half(p, rate, base, 8 * i + 1)
            &&& (b / 32 % 2 == 1) == first_half(p, rate, base, 8 * i + 2)
            &&& (b / 16 % 2 == 1) == first_half(p, rate, base, 8 * i + 3)
            &&& (b / 8 % 2 == 1) == first_half(p, rate, base, 8 * i + 4)
            &&& (b / 4 % 2 == 1) == first_half(p, rate, base, 8 * i + 5)
            &&& (b / 2 % 2 == 1) == first_half(p, rate, base, 8 * i + 6)
            &&& (b % 2 == 1) == first_half(p, rate, base, 8 * i + 7)
        }),
{
    reveal(demod::message_at);
    lemma_byte(p, rate, base, 0);
    lemma_byte(p, rate, base, i);
}

/// Which of the chips of a preamble are light.
pub open spec fn pulse(h: int) -> bool {
    h == 0 || h == 2 || h == 7 || h == 9
}

/// Which of them have to be dark.
pub open spec fn space(h: int) -> bool {
    h == 1 || h == 3 || h == 4 || h == 6 || h == 8 || h == 10
}

/// A message is heard where its four pulses stand three times above the noise and
/// twice above every chip that has to be dark, and its bits are not all the same.
pub proof fn law_when_a_message_is_heard(p: Seq<u64>, rate: int, noise: int, base: int)
    ensures
        demod::message_at(p, rate, noise, base) is Some <==> {
            &&& forall|h: int|
                #![trigger demod::chip(p, rate, base, h)]
                pulse(h) ==> demod::chip(p, rate, base, h) >= 3 * noise
            &&& forall|h: int, s: int|
                #![trigger demod::chip(p, rate, base, h), demod::chip(p, rate, base, s)]
                pulse(h) && space(s) ==> demod::chip(p, rate, base, h) >= 2 * demod::chip(
                    p,
                    rate,
                    base,
                    s,
                )
            &&& exists|k: int|
                0 <= k < bits(p, rate, base) && #[trigger] first_half(p, rate, base, k)
            &&& exists|k: int|
                0 <= k < bits(p, rate, base) && !#[trigger] first_half(p, rate, base, k)
        },
{
    reveal(demod::message_at);
    lemma_byte(p, rate, base, 0);
    let b = demod::bytes_at(p, rate, base);
    let n = bits(p, rate, base);
    assert(8 * b.len() == n);
    lemma_same_bits(p, rate, base);
    assert(demod::preamble_at(p, rate, noise, base) <==> {
        &&& forall|h: int|
            #![trigger demod::chip(p, rate, base, h)]
            pulse(h) ==> demod::chip(p, rate, base, h) >= 3 * noise
        &&& forall|h: int, s: int|
            #![trigger demod::chip(p, rate, base, h), demod::chip(p, rate, base, s)]
            pulse(h) && space(s) ==> demod::chip(p, rate, base, h) >= 2 * demod::chip(
                p,
                rate,
                base,
                s,
            )
    }) by {
        if (forall|h: int, s: int|
            #![trigger demod::chip(p, rate, base, h), demod::chip(p, rate, base, s)]
            pulse(h) && space(s) ==> demod::chip(p, rate, base, h) >= 2 * demod::chip(
                p,
                rate,
                base,
                s,
            )) {
            lemma_spaces(p, rate, base, 0);
            lemma_spaces(p, rate, base, 2);
            lemma_spaces(p, rate, base, 7);
            lemma_spaces(p, rate, base, 9);
        }
    }
}

proof fn lemma_spaces(p: Seq<u64>, rate: int, base: int, h: int)
    requires
        pulse(h),
        forall|h: int, s: int|
            #![trigger demod::chip(p, rate, base, h), demod::chip(p, rate, base, s)]
            pulse(h) && space(s) ==> demod::chip(p, rate, base, h) >= 2 * demod::chip(
                p,
                rate,
                base,
                s,
            ),
    ensures
        demod::chip(p, rate, base, h) >= 2 * demod::loudest_space(p, rate, base),
{
    assert(space(1) && space(3) && space(4) && space(6) && space(8) && space(10));
}

proof fn lemma_same_bits(p: Seq<u64>, rate: int, base: int)
    requires
        8 * demod::bytes_at(p, rate, base).len() == bits(p, rate, base),
    ensures
        demod::all_are(demod::bytes_at(p, rate, base), 0) <==> (forall|k: int|
            0 <= k < bits(p, rate, base) ==> !#[trigger] first_half(p, rate, base, k)),
        demod::all_are(demod::bytes_at(p, rate, base), 0xff) <==> (forall|k: int|
            0 <= k < bits(p, rate, base) ==> #[trigger] first_half(p, rate, base, k)),
{
    let b = demod::bytes_at(p, rate, base);
    let n = bits(p, rate, base);
    if demod::all_are(b, 0) {
        assert forall|k: int| 0 <= k < n implies !#[trigger] first_half(p, rate, base, k) by {
            lemma_byte(p, rate, base, k / 8);
            assert(b[k / 8] == 0);
            assert(k == 8 * (k / 8) + k % 8);
        }
    }
    if demod::all_are(b, 0xff) {
        assert forall|k: int| 0 <= k < n implies #[trigger] first_half(p, rate, base, k) by {
            lemma_byte(p, rate, base, k / 8);
            assert(b[k / 8] == 0xff);
            assert(k == 8 * (k / 8) + k % 8);
        }
    }
    if forall|k: int| 0 <= k < n ==> !#[trigger] first_half(p, rate, base, k) {
        assert forall|i: int| 0 <= i < b.len() implies #[trigger] b[i] == 0 by {
            lemma_byte(p, rate, base, i);
            lemma_no_bits(demod::byte_at(p, rate, base, i));
        }
    }
    if forall|k: int| 0 <= k < n ==> #[trigger] first_half(p, rate, base, k) {
        assert forall|i: int| 0 <= i < b.len() implies #[trigger] b[i] == 0xff by {
            lemma_byte(p, rate, base, i);
            lemma_no_bits(255 - demod::byte_at(p, rate, base, i));
        }
    }
}

proof fn lemma_no_bits(b: int)
    requires
        0 <= b < 256,
        b / 128 % 2 != 1,
        b / 64 % 2 != 1,
        b / 32 % 2 != 1,
        b / 16 % 2 != 1,
        b / 8 % 2 != 1,
        b / 4 % 2 != 1,
        b / 2 % 2 != 1,
        b % 2 != 1,
    ensures
        b == 0,
{
}

/// The strength of a message is that of its strongest pulse.
pub proof fn law_the_strength_of_a_message(p: Seq<u64>, rate: int, noise: int, base: int)
    requires
        demod::message_at(p, rate, noise, base) is Some,
    ensures
        forall|h: int|
            #![trigger demod::chip(p, rate, base, h)]
            pulse(h) ==> demod::message_at(p, rate, noise, base)->0.peak >= demod::chip(
                p,
                rate,
                base,
                h,
            ),
        exists|h: int|
            #![trigger demod::chip(p, rate, base, h)]
            pulse(h) && demod::message_at(p, rate, noise, base)->0.peak == demod::chip(
                p,
                rate,
                base,
                h,
            ),
{
    reveal(demod::message_at);
    assert(pulse(0) && pulse(2) && pulse(7) && pulse(9));
}

/// How far the two halves of a bit differ, in millionths of their sum.
pub open spec fn sure(p: Seq<u64>, rate: int, base: int, k: int) -> int {
    let a = demod::chip(p, rate, base, 16 + 2 * k);
    let b = demod::chip(p, rate, base, 17 + 2 * k);
    if a + b <= 0 {
        0
    } else if a >= b {
        1_000_000 * (a - b) / (a + b)
    } else {
        1_000_000 * (b - a) / (a + b)
    }
}

/// The sum of the first numbers of a list.
pub open spec fn summed(s: Seq<int>) -> int
    decreases s.len(),
{
    if s.len() == 0 {
        0
    } else {
        summed(s.drop_last()) + s.last()
    }
}

proof fn lemma_sure_sum(p: Seq<u64>, rate: int, base: int, n: int)
    requires
        n >= 0,
    ensures
        demod::confidence_sum(p, rate, base, n) == summed(
            Seq::new(n as nat, |k: int| sure(p, rate, base, k)),
        ),
    decreases n,
{
    if n > 0 {
        lemma_sure_sum(p, rate, base, n - 1);
        let s = Seq::new(n as nat, |k: int| sure(p, rate, base, k));
        assert(s.drop_last() =~= Seq::new((n - 1) as nat, |k: int| sure(p, rate, base, k)));
        let a = demod::chip(p, rate, base, 16 + 2 * (n - 1));
        let b = demod::chip(p, rate, base, 17 + 2 * (n - 1));
        assert(demod::bit_confidence(p, rate, base, n - 1) == sure(p, rate, base, n - 1));
    } else {
        assert(Seq::new(0nat, |k: int| sure(p, rate, base, k)) =~= Seq::empty());
    }
}

/// How sure a message is, is the mean over all of its bits.
pub proof fn law_how_sure_a_message_is(p: Seq<u64>, rate: int, noise: int, base: int)
    requires
        demod::message_at(p, rate, noise, base) is Some,
    ensures
        ({
            let n = bits(p, rate, base);
            let c = demod::message_at(p, rate, noise, base)->0.confidence;
            let s = Seq::new(n as nat, |k: int| sure(p, rate, base, k));
            n * c <= summed(s) < n * (c + 1)
        }),
{
    reveal(demod::message_at);
    lemma_byte(p, rate, base, 0);
    let n = bits(p, rate, base);
    assert(n == demod::bit_count(p, rate, base));
    lemma_sure_sum(p, rate, base, n);
    let t = demod::confidence_sum(p, rate, base, n);
    assert(n * (t / n) <= t < n * (t / n + 1)) by (nonlinear_arith)
        requires
            n > 0,
    ;
}

/// Of what was taken in, the last 124 microseconds stay in front of the next
/// block.
pub proof fn law_what_stays_of_a_block(v: DemodView, block: Seq<u64>, tail: int)
    requires
        v.rate > 0,
        1_000_000 * tail >= 124 * v.rate > 1_000_000 * (tail - 1),
    ensures
        v.power.len() <= tail ==> v.joined(block) == v.power + block && v.dropped() == 0,
        v.power.len() > tail ==> v.joined(block) == v.power.subrange(
            v.power.len() - tail,
            v.power.len() as int,
        ) + block && v.dropped() == v.power.len() - tail,
{
    assert(demod::samples(v.rate, 124) == tail);
    if v.power.len() > tail {
        assert(v.joined(block) =~= v.power.subrange(
            v.power.len() - tail,
            v.power.len() as int,
        ) + block);
    } else {
        assert(v.joined(block) =~= v.power + block);
    }
}

/// The floor goes down by three tenths of the way and up by a hundredth of it, and
/// is never under one.
pub proof fn law_the_floor_falls_fast_and_rises_slowly(noise: int, q: int)
    requires
        noise >= 1,
        q >= 0,
    ensures
        track::tracked_noise(noise, q) >= 1,
        q < noise && track::tracked_noise(noise, q) > 1 ==> 0 <= 10 * noise - 3 * (noise - q) - 10
            * track::tracked_noise(noise, q) < 10,
        q < noise && track::tracked_noise(noise, q) == 1 ==> 7 * noise + 3 * q < 20,
        q >= noise ==> 0 <= 100 * noise + (q - noise) - 100 * track::tracked_noise(noise, q) < 100,
{
}

/// A block of fewer than 64 samples says nothing of the floor; of a longer one
/// every 37th sample is looked at, from the first on.
pub proof fn law_what_the_floor_is_taken_from(noise: int, block: Seq<u64>, r: int)
    requires
        track::noise_after(noise, block, r),
    ensures
        block.len() < 64 ==> r == noise,
        block.len() >= 64 ==> exists|s: Seq<u64>, q: int|
            {
                &&& 37 * s.len() >= block.len() > 37 * (s.len() - 1)
                &&& forall|i: int| 0 <= i < s.len() ==> #[trigger] s[i] == block[37 * i]
                &&& #[trigger] track::is_kth(s, s.len() as int / 4, q)
                &&& r == track::tracked_noise(noise, q)
            },
{
    if block.len() >= 64 {
        let s = track::sampled(block);
        let q = choose|q: int|
            #[trigger] track::is_kth(s, s.len() as int / 4, q)
                && r == track::tracked_noise(noise, q);
        assert(track::is_kth(s, s.len() as int / 4, q));
    }
}

proof fn lemma_count_takes_in_any_order(s: Seq<u64>, v: int)
    ensures
        track::count_upto(s, v) == s.to_multiset().filter(|x: u64| x <= v).len(),
    decreases s.len(),
{
    broadcast use vstd::multiset::group_multiset_axioms;

    let f = |x: u64| x <= v;
    s.to_multiset_ensures();
    if s.len() == 0 {
        assert(s.to_multiset().filter(f) =~= Multiset::empty());
    } else {
        let t = s.drop_last();
        lemma_count_takes_in_any_order(t, v);
        t.to_multiset_ensures();
        assert(s =~= t.push(s.last()));
        assert(s.to_multiset() =~= t.to_multiset().insert(s.last()));
        if s.last() <= v {
            assert(s.to_multiset().filter(f) =~= t.to_multiset().filter(f).insert(s.last()));
        } else {
            assert(s.to_multiset().filter(f) =~= t.to_multiset().filter(f));
        }
    }
}

proof fn lemma_count_sorted(t: Seq<u64>, v: int, k: int)
    requires
        forall|i: int, j: int| 0 <= i <= j < t.len() ==> #[trigger] t[i] <= #[trigger] t[j],
        0 <= k < t.len(),
    ensures
        t[k] <= v ==> track::count_upto(t, v) > k,
        t[k] > v ==> track::count_upto(t, v) <= k,
        0 <= track::count_upto(t, v) <= t.len(),
    decreases t.len(),
{
    let u = t.drop_last();
    if t.len() == 1 {
        assert(track::count_upto(u, v) == 0);
    } else {
        if k < t.len() - 1 {
            lemma_count_sorted(u, v, k);
            assert(u[k] == t[k]);
            assert(t[k] <= t[t.len() - 1]);
        } else {
            lemma_count_sorted(u, v, k - 1);
            assert(t[k - 1] <= t[k]);
        }
    }
}

/// The sample at a place is the one that stands there when they are sorted.
pub proof fn law_a_quartile_is_read_off_the_sorted_samples(s: Seq<u64>, t: Seq<u64>, k: int, q: int)
    requires
        s.to_multiset() == t.to_multiset(),
        forall|i: int, j: int| 0 <= i <= j < t.len() ==> #[trigger] t[i] <= #[trigger] t[j],
        0 <= k < t.len(),
    ensures
        track::is_kth(s, k, q) <==> q == t[k],
{
    lemma_count_takes_in_any_order(s, q);
    lemma_count_takes_in_any_order(s, q - 1);
    lemma_count_takes_in_any_order(t, q);
    lemma_count_takes_in_any_order(t, q - 1);
    lemma_count_sorted(t, q, k);
    lemma_count_sorted(t, q - 1, k);
}

/// A keyed reply is light just where its chips are, ten microseconds behind its
/// start, and lasts 146 microseconds and eight for every byte.
pub proof fn law_where_a_keyed_reply_is_light(
    msg: Seq<u8>,
    rate: int,
    h: int,
    a: int,
    b: int,
    i: int,
)
    requires
        rate > 0,
        0 <= h < 16 + 16 * msg.len(),
        2_000_000 * a <= (20 + h) * rate + 1_000_000 < 2_000_000 * (a + 1),
        2_000_000 * b <= (21 + h) * rate + 1_000_000 < 2_000_000 * (b + 1),
        a <= i < b,
    ensures
        burst::is_lit(msg, rate, i) == demod::lit(msg, h),
        1_000_000 * burst::length(rate, msg.len() as int) >= (146 + 8 * msg.len()) * rate
            > 1_000_000 * (burst::length(rate, msg.len() as int) - 1),
{
    assert(demod::at(rate, 20 + h) == a);
    assert(demod::at(rate, 20 + h + 1) == b);
    if demod::lit(msg, h) {
        assert(demod::at(rate, burst::LEAD + h) <= i < demod::at(rate, burst::LEAD + h + 1));
        assert(burst::is_lit(msg, rate, i));
    } else if burst::is_lit(msg, rate, i) {
        let k = choose|k: int|
            0 <= k < 16 + 16 * msg.len() && #[trigger] demod::lit(msg, k) && demod::at(
                rate,
                burst::LEAD + k,
            ) <= i < demod::at(rate, burst::LEAD + k + 1);
        if k < h {
            lemma_at_grows(rate, 20 + k + 1, 20 + h);
        } else if h < k {
            lemma_at_grows(rate, 20 + h + 1, 20 + k);
        }
        assert(k == h);
    }
}

proof fn lemma_at_grows(rate: int, a: int, b: int)
    requires
        0 < rate,
        0 <= a <= b,
    ensures
        demod::at(rate, a) <= demod::at(rate, b),
{
    assert(a * rate <= b * rate) by (nonlinear_arith)
        requires
            0 < rate,
            0 <= a <= b,
    ;
}

} // verus!
