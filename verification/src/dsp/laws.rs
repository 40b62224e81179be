//! What the signalling sounds like, sample by sample.
use crate::dsp::tonegen;
use crate::dsp::tonegen::{Signal, SubToneGen, ToneBurst, TxSubTone};
use vstd::arithmetic::power2::{lemma2_to64, lemma_pow2_pos, lemma_pow2_unfold, pow2};
use vstd::prelude::*;

verus! {

broadcast use vstd::seq::group_seq_axioms;

/// A tone turns evenly from nothing on: sample `n` has the phase that so many steps
/// of its frequency make, for every `n`, in parts of a turn of which there are ten
/// for every sample of a second.
pub proof fn law_a_tone_turns_evenly(g: SubToneGen, tenths: u16, rate: u32, n: nat)
    requires
        g.tone == TxSubTone::Ctcss(tenths),
        g.turn.at == 0,
        g.turn.step == tenths,
        g.turn.of == 10 * rate,
        rate > 0,
    ensures
        g.sample(n) is Phase,
        g.sample(n)->at == (n * tenths) % (10 * rate),
        g.sample(n)->of == 10 * rate,
{
    let x = n * tenths;
    assert(0 <= x % (10 * rate) < 10 * rate);
}

/// Two samples of a tone are as far apart in phase as the time between them says,
/// whole turns left out: the tone never stands still and never folds back.
pub proof fn law_the_same_time_is_the_same_turn(
    g: SubToneGen,
    tenths: u16,
    rate: u32,
    n: nat,
    more: nat,
)
    requires
        g.tone == TxSubTone::Ctcss(tenths),
        g.turn.step == tenths,
        g.turn.of == 10 * rate,
        g.turn.at < g.turn.of,
        rate > 0,
    ensures
        (g.sample(n + more)->at - g.sample(n)->at - more * tenths) % (10 * rate) == 0,
{
    let of = 10 * rate;
    let x = g.turn.at + n * tenths;
    let y = g.turn.at + (n + more) * tenths;
    assert(y == x + more * tenths) by (nonlinear_arith)
        requires
            x == g.turn.at + n * tenths,
            y == g.turn.at + (n + more) * tenths,
    ;
    vstd::arithmetic::div_mod::lemma_fundamental_div_mod(x, of);
    vstd::arithmetic::div_mod::lemma_fundamental_div_mod(y, of);
    let a = x / of;
    let b = y / of;
    let d = y % of - x % of - more * tenths;
    assert(d == (a - b) * of) by (nonlinear_arith)
        requires
            x == of * a + x % of,
            y == of * b + y % of,
            y == x + more * tenths,
            d == y % of - x % of - more * tenths,
    ;
    vstd::arithmetic::div_mod::lemma_mod_multiples_basic(a - b, of);
    assert(0 <= x % of < of && 0 <= y % of < of);
}

/// Bits leave at 134.4 a second, and the word starts again behind its 23.
pub proof fn law_bits_leave_at_their_rate(g: SubToneGen, rate: u32, n: nat)
    requires
        g.tone is Dcs,
        g.bit == 0,
        g.turn.at == 0,
        g.turn.step == 1344,
        g.turn.of == 10 * rate,
        rate > 0,
    ensures
        g.sample(n) == Signal::Level(g.bits@[n as int * 1344 / (10 * rate) % 23]),
{
}

/// The decimal digits of a code are its octal ones.
pub proof fn law_a_code_is_three_octal_digits(code: u16, a: int, b: int, c: int)
    requires
        0 <= a,
        0 <= b <= 9,
        0 <= c <= 9,
        code == 100 * a + 10 * b + c,
    ensures
        a <= 7 && b <= 7 && c <= 7 ==> tonegen::code_bits(code) == Some(64 * a + 8 * b + c),
        a > 7 || b > 7 || c > 7 ==> tonegen::code_bits(code) is None,
{
    assert(code as int / 100 == a);
    assert(code as int / 10 % 10 == b);
    assert(code as int % 10 == c);
}

/// Bit `i` of a number is what is left of it by halves.
pub open spec fn bit(n: int, i: nat) -> bool {
    n / (pow2(i) as int) % 2 == 1
}

proof fn lemma_bit(n: int, i: nat)
    requires
        n >= 0,
    ensures
        tonegen::bit_at(n, i) == bit(n, i),
    decreases i,
{
    if i == 0 {
        lemma2_to64();
    } else {
        lemma_bit(n / 2, (i - 1) as nat);
        let p = pow2((i - 1) as nat) as int;
        lemma_pow2_pos((i - 1) as nat);
        lemma_pow2_unfold(i);
        assert(pow2(i) == 2 * p);
        vstd::arithmetic::div_mod::lemma_div_denominator(n, 2, p);
    }
}

/// A word is nine bits of its code, least significant first, the three fixed bits
/// with only the last set, and eleven check bits, least significant first; all of
/// them the other way round where it is inverted.
pub proof fn law_a_word_bit_by_bit(bits: int, check: int, invert: bool, i: int)
    requires
        0 <= bits < 512,
        0 <= check < 2048,
        0 <= i < 23,
    ensures
        tonegen::word_of(bits, check, invert).len() == 23,
        i < 9 ==> tonegen::word_of(bits, check, invert)[i] == (bit(bits, i as nat) != invert),
        i == 9 || i == 10 ==> tonegen::word_of(bits, check, invert)[i] == invert,
        i == 11 ==> tonegen::word_of(bits, check, invert)[i] == !invert,
        i >= 12 ==> tonegen::word_of(bits, check, invert)[i] == (bit(check, (i - 12) as nat)
            != invert),
{
    let n = bits + 2048;
    assert(tonegen::information(bits) == n);
    if i < 12 {
        lemma_bit(n, i as nat);
        lemma_bit(bits, i as nat);
        lemma2_to64();
        if i == 0 {
            assert(pow2(i as nat) == 1);
            assert(n / 1 % 2 == bits / 1 % 2);
        } else if i == 1 {
            assert(pow2(i as nat) == 2);
            assert(n / 2 % 2 == bits / 2 % 2);
        } else if i == 2 {
            assert(pow2(i as nat) == 4);
            assert(n / 4 % 2 == bits / 4 % 2);
        } else if i == 3 {
            assert(pow2(i as nat) == 8);
            assert(n / 8 % 2 == bits / 8 % 2);
        } else if i == 4 {
            assert(pow2(i as nat) == 16);
            assert(n / 16 % 2 == bits / 16 % 2);
        } else if i == 5 {
            assert(pow2(i as nat) == 32);
            assert(n / 32 % 2 == bits / 32 % 2);
        } else if i == 6 {
            assert(pow2(i as nat) == 64);
            assert(n / 64 % 2 == bits / 64 % 2);
        } else if i == 7 {
            assert(pow2(i as nat) == 128);
            assert(n / 128 % 2 == bits / 128 % 2);
        } else if i == 8 {
            assert(pow2(i as nat) == 256);
            assert(n / 256 % 2 == bits / 256 % 2);
        } else if i == 9 {
            assert(pow2(i as nat) == 512);
            assert(n / 512 == 4);
        } else if i == 10 {
            assert(pow2(i as nat) == 1024);
            assert(n / 1024 == 2);
        } else if i == 11 {
            assert(pow2(i as nat) == 2048);
            assert(n / 2048 == 1);
        }
    } else {
        lemma_bit(check, (i - 12) as nat);
    }
}

/// The information that the check bits are of is the code with a one at bit 11.
pub proof fn law_what_is_checked(bits: int)
    ensures
        tonegen::information(bits) == bits + 2048,
{
}

/// A burst is as many samples as its milliseconds are nearest to, and one at least;
/// its ramp is five milliseconds, or a third of a burst that is shorter than three
/// ramps.
pub proof fn law_how_long_a_burst_is(ms: u32, rate: u32, total: int)
    ensures
        tonegen::burst_len(ms, rate) >= 1,
        ms * rate >= 500 ==> -1000 < 2 * (1000 * tonegen::burst_len(ms, rate) - ms * rate) <= 1000,
        ms * rate < 500 ==> tonegen::burst_len(ms, rate) == 1,
        total >= 0 && 3 * (5 * rate / 1000) <= total ==> tonegen::ramp_len(rate, total) == 5 * rate
            / 1000,
        total >= 0 && 3 * (5 * rate / 1000) > total ==> 0 <= total - 3 * tonegen::ramp_len(
            rate,
            total,
        ) < 3,
{
}

/// A burst is 1750 Hz, opened and closed in a line: every sample of it is known.
pub proof fn law_a_burst_sample_by_sample(b: ToneBurst, rate: u32, n: nat)
    requires
        rate > 0,
        b.turn.at == 0,
        b.turn.step == 1750,
        b.turn.of == rate,
        b.left == b.total,
        3 * b.ramp <= b.total,
        n < b.total,
    ensures
        b.sample(n).at == (n as int * 1750) % (rate as int),
        b.sample(n).of == rate,
        b.sample(n).ramp == b.ramp,
        n < b.ramp ==> b.sample(n).rise == n,
        b.ramp <= n <= b.total - b.ramp ==> b.sample(n).rise == b.ramp,
        n > b.total - b.ramp ==> b.sample(n).rise == b.total - n,
{
    let x = n as int * 1750;
    assert(0 <= x % (rate as int) < rate);
}

} // verus!
