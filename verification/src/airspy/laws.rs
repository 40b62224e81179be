//! What an Airspy is told and in which order, and what its answers mean.
use crate::airspy::device;
use crate::airspy::device::{Device, Opening, Step, Transfer};
use crate::airspy::protocol;
use crate::airspy::protocol::{GainCurve, PartIdSerial, RateArg, ReceiverMode, Request};
use crate::text;
use vstd::prelude::*;

verus! {

broadcast use vstd::seq::group_seq_axioms;

/// The numbers of the requests.
pub proof fn law_the_numbers_of_the_requests()
    ensures
        Request::Invalid.number() == 0,
        Request::ReceiverMode.number() == 1,
        Request::Si5351cWrite.number() == 2,
        Request::Si5351cRead.number() == 3,
        Request::R820tWrite.number() == 4,
        Request::R820tRead.number() == 5,
        Request::SpiFlashErase.number() == 6,
        Request::SpiFlashWrite.number() == 7,
        Request::SpiFlashRead.number() == 8,
        Request::BoardIdRead.number() == 9,
        Request::VersionStringRead.number() == 10,
        Request::BoardPartidSerialnoRead.number() == 11,
        Request::SetSamplerate.number() == 12,
        Request::SetFreq.number() == 13,
        Request::SetLnaGain.number() == 14,
        Request::SetMixerGain.number() == 15,
        Request::SetVgaGain.number() == 16,
        Request::SetLnaAgc.number() == 17,
        Request::SetMixerAgc.number() == 18,
        Request::MsVendorCmd.number() == 19,
        Request::SetRfBias.number() == 20,
        Request::GpioWrite.number() == 21,
        Request::GpioRead.number() == 22,
        Request::GpioDirWrite.number() == 23,
        Request::GpioDirRead.number() == 24,
        Request::GetSamplerates.number() == 25,
        Request::SetPacking.number() == 26,
        ReceiverMode::Off.number() == 0,
        ReceiverMode::Rx.number() == 1,
{
}

/// The three stages at each step of the linear curve; steps past the last are the
/// last.
pub proof fn law_the_steps_of_linearity(step: int)
    ensures
        step == 0 ==> protocol::stages_at(GainCurve::Linearity, step) == (0u8, 0u8, 4u8),
        step == 1 ==> protocol::stages_at(GainCurve::Linearity, step) == (0u8, 0u8, 5u8),
        step == 2 ==> protocol::stages_at(GainCurve::Linearity, step) == (0u8, 1u8, 6u8),
        step == 3 ==> protocol::stages_at(GainCurve::Linearity, step) == (0u8, 1u8, 7u8),
        step == 4 ==> protocol::stages_at(GainCurve::Linearity, step) == (0u8, 1u8, 8u8),
        step == 5 ==> protocol::stages_at(GainCurve::Linearity, step) == (0u8, 1u8, 9u8),
        step == 6 ==> protocol::stages_at(GainCurve::Linearity, step) == (0u8, 2u8, 10u8),
        step == 7 ==> protocol::stages_at(GainCurve::Linearity, step) == (1u8, 2u8, 10u8),
        step == 8 ==> protocol::stages_at(GainCurve::Linearity, step) == (3u8, 0u8, 10u8),
        step == 9 ==> protocol::stages_at(GainCurve::Linearity, step) == (5u8, 0u8, 10u8),
        step == 10 ==> protocol::stages_at(GainCurve::Linearity, step) == (6u8, 1u8, 10u8),
        step == 11 ==> protocol::stages_at(GainCurve::Linearity, step) == (8u8, 0u8, 10u8),
        step == 12 ==> protocol::stages_at(GainCurve::Linearity, step) == (9u8, 0u8, 10u8),
        step == 13 ==> protocol::stages_at(GainCurve::Linearity, step) == (8u8, 5u8, 10u8),
        step == 14 ==> protocol::stages_at(GainCurve::Linearity, step) == (9u8, 6u8, 10u8),
        step == 15 ==> protocol::stages_at(GainCurve::Linearity, step) == (9u8, 6u8, 11u8),
        step == 16 ==> protocol::stages_at(GainCurve::Linearity, step) == (10u8, 7u8, 11u8),
        step == 17 ==> protocol::stages_at(GainCurve::Linearity, step) == (12u8, 8u8, 11u8),
        step == 18 ==> protocol::stages_at(GainCurve::Linearity, step) == (13u8, 9u8, 11u8),
        step == 19 ==> protocol::stages_at(GainCurve::Linearity, step) == (14u8, 11u8, 11u8),
        step == 20 ==> protocol::stages_at(GainCurve::Linearity, step) == (14u8, 12u8, 12u8),
        step == 21 ==> protocol::stages_at(GainCurve::Linearity, step) == (14u8, 12u8, 13u8),
        step > 21 ==> protocol::stages_at(GainCurve::Linearity, step) == protocol::stages_at(
            GainCurve::Linearity,
            21,
        ),
{
}

/// The three stages at each step of the sensitive curve.
pub proof fn law_the_steps_of_sensitivity(step: int)
    ensures
        step == 0 ==> protocol::stages_at(GainCurve::Sensitivity, step) == (0u8, 0u8, 4u8),
        step == 1 ==> protocol::stages_at(GainCurve::Sensitivity, step) == (1u8, 0u8, 4u8),
        step == 2 ==> protocol::stages_at(GainCurve::Sensitivity, step) == (2u8, 0u8, 4u8),
        step == 3 ==> protocol::stages_at(GainCurve::Sensitivity, step) == (3u8, 0u8, 4u8),
        step == 4 ==> protocol::stages_at(GainCurve::Sensitivity, step) == (5u8, 1u8, 4u8),
        step == 5 ==> protocol::stages_at(GainCurve::Sensitivity, step) == (6u8, 2u8, 4u8),
        step == 6 ==> protocol::stages_at(GainCurve::Sensitivity, step) == (7u8, 2u8, 4u8),
        step == 7 ==> protocol::stages_at(GainCurve::Sensitivity, step) == (8u8, 3u8, 4u8),
        step == 8 ==> protocol::stages_at(GainCurve::Sensitivity, step) == (9u8, 4u8, 4u8),
        step == 9 ==> protocol::stages_at(GainCurve::Sensitivity, step) == (9u8, 4u8, 5u8),
        step == 10 ==> protocol::stages_at(GainCurve::Sensitivity, step) == (12u8, 4u8, 5u8),
        step == 11 ==> protocol::stages_at(GainCurve::Sensitivity, step) == (12u8, 7u8, 5u8),
        step == 12 ==> protocol::stages_at(GainCurve::Sensitivity, step) == (13u8, 8u8, 5u8),
        step == 13 ==> protocol::stages_at(GainCurve::Sensitivity, step) == (14u8, 9u8, 5u8),
        step == 14 ==> protocol::stages_at(GainCurve::Sensitivity, step) == (14u8, 9u8, 6u8),
        step == 15 ==> protocol::stages_at(GainCurve::Sensitivity, step) == (14u8, 10u8, 7u8),
        step == 16 ==> protocol::stages_at(GainCurve::Sensitivity, step) == (14u8, 10u8, 8u8),
        step == 17 ==> protocol::stages_at(GainCurve::Sensitivity, step) == (14u8, 11u8, 9u8),
        step == 18 ==> protocol::stages_at(GainCurve::Sensitivity, step) == (14u8, 12u8, 10u8),
        step == 19 ==> protocol::stages_at(GainCurve::Sensitivity, step) == (14u8, 12u8, 11u8),
        step == 20 ==> protocol::stages_at(GainCurve::Sensitivity, step) == (14u8, 12u8, 12u8),
        step == 21 ==> protocol::stages_at(GainCurve::Sensitivity, step) == (14u8, 12u8, 13u8),
        step > 21 ==> protocol::stages_at(GainCurve::Sensitivity, step) == protocol::stages_at(
            GainCurve::Sensitivity,
            21,
        ),
{
}

proof fn lemma_listed(rates: Seq<u64>, hz: int, from: int)
    requires
        0 <= from <= rates.len(),
    ensures
        match protocol::listed(rates, hz, from) {
            Some(i) => {
                &&& from <= i < rates.len()
                &&& protocol::capped(rates[i]) == hz
                &&& forall|j: int| from <= j < i ==> protocol::capped(#[trigger] rates[j]) != hz
            },
            None => forall|j: int|
                from <= j < rates.len() ==> protocol::capped(#[trigger] rates[j]) != hz,
        },
    decreases rates.len() - from,
{
    if from < rates.len() {
        lemma_listed(rates, hz, from + 1);
    }
}

/// A rate is asked for by its place where the radio lists it, the first of several,
/// and else in thousands, where that is a million or more and fits.
pub proof fn law_how_a_rate_is_asked_for(hz: u64, rates: Seq<u64>, i: int)
    requires
        hz <= u32::MAX,
        forall|j: int| 0 <= j < rates.len() ==> #[trigger] rates[j] <= u32::MAX,
        rates.len() <= 65536,
    ensures
        0 <= i < rates.len() && rates[i] == hz && (forall|j: int|
            0 <= j < i ==> #[trigger] rates[j] != hz) ==> protocol::rate_arg(hz, rates) == Some(
            RateArg::Index(i as u16),
        ),
        !rates.contains(hz) && 1_000_000 <= hz < 65_536_000 ==> protocol::rate_arg(hz, rates)
            == Some(RateArg::Khz((hz / 1000) as u16)),
        !rates.contains(hz) && (hz < 1_000_000 || hz >= 65_536_000) ==> protocol::rate_arg(
            hz,
            rates,
        ) is None,
        forall|v: u16| #[trigger] RateArg::Index(v).wire() == v,
        forall|v: u16| #[trigger] RateArg::Khz(v).wire() == v,
{
    lemma_listed(rates, hz as int, 0);
    match protocol::listed(rates, hz as int, 0) {
        Some(k) => {
            assert(rates[k] == hz);
            if 0 <= i < rates.len() && rates[i] == hz && (forall|j: int|
                0 <= j < i ==> #[trigger] rates[j] != hz) {
                if i < k {
                    assert(protocol::capped(rates[i]) != hz);
                } else if k < i {
                    assert(rates[k] != hz);
                }
            }
        },
        None => {
            if 0 <= i < rates.len() {
                assert(protocol::capped(rates[i]) != hz);
            }
        },
    }
}

/// Four bytes are a number, the lowest first.
pub proof fn law_a_word_of_four_bytes(b: Seq<u8>, at: int)
    requires
        0 <= at,
        at + 4 <= b.len(),
    ensures
        protocol::word(b, at) == b[at] + 256 * (b[at + 1] + 256 * (b[at + 2] + 256 * b[at + 3])),
{
}

/// The rates that a radio lists are its words in order, without those that are zero.
pub proof fn law_the_rates_a_radio_lists(b: Seq<u8>, n: nat)
    ensures
        protocol::rates_of(b, 0).len() == 0,
        protocol::word(b, 4 * n as int) > 0 ==> protocol::rates_of(b, n + 1) == protocol::rates_of(
            b,
            n,
        ).push(protocol::word(b, 4 * n as int) as u64),
        protocol::word(b, 4 * n as int) <= 0 ==> protocol::rates_of(b, n + 1) == protocol::rates_of(b, n),
{
}

/// The value of a capital hexadecimal digit.
pub open spec fn hex_value(c: char) -> int {
    if c <= '9' {
        c as int - 48
    } else {
        c as int - 55
    }
}

proof fn lemma_hex_digit(d: int)
    requires
        0 <= d < 16,
    ensures
        hex_value(protocol::hex_digit(d)) == d,
        ('0' <= protocol::hex_digit(d) <= '9') || ('A' <= protocol::hex_digit(d) <= 'F'),
{
}

proof fn lemma_hex_places(w: int)
    requires
        0 <= w <= 0xffff_ffff,
    ensures
        w == w % 16 + 16 * (w / 0x10 % 16) + 0x100 * (w / 0x100 % 16) + 0x1000 * (w / 0x1000 % 16)
            + 0x1_0000 * (w / 0x1_0000 % 16) + 0x10_0000 * (w / 0x10_0000 % 16) + 0x100_0000 * (w
            / 0x100_0000 % 16) + 0x1000_0000 * (w / 0x1000_0000 % 16),
{
    let a = w / 0x10;
    let b = w / 0x100;
    let c = w / 0x1000;
    let d = w / 0x1_0000;
    let e = w / 0x10_0000;
    let f = w / 0x100_0000;
    let g = w / 0x1000_0000;
    assert(b == a / 16 && c == b / 16 && d == c / 16 && e == d / 16 && f == e / 16 && g == f / 16);
}

/// A serial number is its words in capital hexadecimal digits, the highest first.
pub proof fn law_a_word_in_hexadecimal(w: int)
    requires
        0 <= w <= 0xffff_ffff,
    ensures
        ({
            let h = protocol::hex_word(w);
            &&& h.len() == 8
            &&& forall|i: int|
                0 <= i < 8 ==> ('0' <= #[trigger] h[i] <= '9') || ('A' <= h[i] <= 'F')
            &&& w == 0x1000_0000 * hex_value(h[0]) + 0x100_0000 * hex_value(h[1]) + 0x10_0000
                * hex_value(h[2]) + 0x1_0000 * hex_value(h[3]) + 0x1000 * hex_value(h[4]) + 0x100
                * hex_value(h[5]) + 0x10 * hex_value(h[6]) + hex_value(h[7])
        }),
{
    lemma_hex_places(w);
    lemma_hex_digit(w / 0x1000_0000 % 16);
    lemma_hex_digit(w / 0x100_0000 % 16);
    lemma_hex_digit(w / 0x10_0000 % 16);
    lemma_hex_digit(w / 0x1_0000 % 16);
    lemma_hex_digit(w / 0x1000 % 16);
    lemma_hex_digit(w / 0x100 % 16);
    lemma_hex_digit(w / 0x10 % 16);
    lemma_hex_digit(w % 16);
}

/// A radio is meant where nothing is asked for, or its serial number ends with what
/// is, in any case.
pub proof fn law_which_radio_is_meant(want: Seq<char>, front: Seq<char>)
    requires
        text::trim(want) == want,
        text::trim(front + want) == front + want,
        want.len() > 0,
    ensures
        protocol::names(want, Some(front + want)),
        !protocol::names(want, None),
        forall|found: Option<Seq<char>>| #[trigger]
            protocol::names(Seq::empty(), found),
{
    let t = front + want;
    assert(t.skip(t.len() - want.len()) =~= want);
    assert(text::trim(Seq::<char>::empty()) == Seq::<char>::empty());
}

/// A radio whose serial number ends otherwise is not.
pub proof fn law_which_radio_is_not_meant(want: Seq<char>, found: Seq<char>)
    requires
        text::trim(want) == want,
        text::trim(found) == found,
        want.len() > 0,
        found.len() < want.len() || text::uppers(found.skip(found.len() - want.len()))
            != text::uppers(want),
    ensures
        !protocol::names(want, Some(found)),
{
}

/// What the firmware says of itself ends at its first zero.
pub proof fn law_a_text_ends_at_its_zero(b: Seq<u8>, rest: Seq<u8>)
    requires
        forall|i: int| 0 <= i < b.len() ==> #[trigger] b[i] != 0,
    ensures
        protocol::ascii_of(b.push(0) + rest) == text::trim(text::lossy(b)),
        protocol::ascii_of(b) == text::trim(text::lossy(b)),
{
    let s = b.push(0) + rest;
    let n = b.len() as int;
    assert forall|j: int| 0 <= j < n implies s[j] != 0u8 by {
        assert(s[j] == b[j]);
    }
    assert(s[n] == 0u8);
    text::lemma_find_from(s, 0u8, 0, n);
    text::lemma_find_from(b, 0u8, 0, n);
    assert(s.take(n) =~= b);
    assert(b.take(n) =~= b);
}

/// Packed samples are unpacked group by group, three words or twelve bytes each.
pub proof fn law_groups_are_unpacked_in_order(words: Seq<u32>, b: Seq<u8>, n: nat)
    ensures
        protocol::unpacked(words, 0).len() == 0,
        protocol::unpacked(words, n + 1) == protocol::unpacked(words, n) + protocol::group(
            words[3 * n as int] as int,
            words[3 * n as int + 1] as int,
            words[3 * n as int + 2] as int,
        ),
        protocol::unpacked_bytes(b, 0).len() == 0,
        protocol::unpacked_bytes(b, n + 1) == protocol::unpacked_bytes(b, n) + protocol::group(
            protocol::word(b, 12 * n as int),
            protocol::word(b, 12 * n as int + 4),
            protocol::word(b, 12 * n as int + 8),
        ),
{
}

/// Of several rates that are as near the first is chosen.
pub proof fn law_the_first_of_the_nearest(rates: Seq<u64>, want: int, n: int, i: int)
    requires
        0 <= i < device::nearest(rates, want, n),
        n <= rates.len(),
    ensures
        ({
            let best = rates[device::nearest(rates, want, n)] as int;
            let other = rates[i] as int;
            let far = |x: int|
                if x < want {
                    want - x
                } else {
                    x - want
                };
            far(other) > far(best)
        }),
    decreases n,
{
    if n > 1 {
        let best = device::nearest(rates, want, n - 1);
        if device::nearest(rates, want, n) == n - 1 {
            device::law_the_nearest_rate_is_chosen(rates, want, n - 1, i);
        } else {
            law_the_first_of_the_nearest(rates, want, n - 1, i);
        }
    }
}

/// The gains are set with the loops first, then the stages that no loop holds, and
/// the last stage always.
pub proof fn law_the_gains_in_order(curve: GainCurve, step: u8, lna_agc: bool, mixer_agc: bool)
    ensures
        ({
            let g = device::gain_requests(curve, step, lna_agc, mixer_agc);
            let s = protocol::stages_at(curve, step as int);
            let one = |b: bool|
                if b {
                    1u16
                } else {
                    0u16
                };
            let n = if lna_agc {
                2int
            } else {
                3
            };
            let m = if mixer_agc {
                n
            } else {
                n + 1
            };
            &&& g.len() == m + 1
            &&& g[0] == (Transfer::Setting { request: Request::SetLnaAgc, index: one(lna_agc) })
            &&& g[1] == (Transfer::Setting { request: Request::SetMixerAgc, index: one(mixer_agc) })
            &&& !lna_agc ==> g[2] == (Transfer::Setting {
                request: Request::SetLnaGain,
                index: s.0 as u16,
            })
            &&& !mixer_agc ==> g[n] == (Transfer::Setting {
                request: Request::SetMixerGain,
                index: s.1 as u16,
            })
            &&& g[m] == (Transfer::Setting { request: Request::SetVgaGain, index: s.2 as u16 })
        }),
{
}

/// A radio that lists no rates has these two, and the rates of one that does are
/// programmed at twice what they say.
pub proof fn law_the_rates_on_offer(b: Seq<u8>, i: int)
    ensures
        device::offered(None) == seq![20_000_000u64, 5_000_000u64],
        ({
            let l = protocol::rates_of(b, (b.len() / 4) as nat);
            &&& l.len() == 0 ==> device::offered(Some(b)) == seq![20_000_000u64, 5_000_000u64]
            &&& l.len() > 0 ==> device::offered(Some(b)).len() == l.len()
            &&& l.len() > 0 && 0 <= i < l.len() && 2 * l[i] <= u64::MAX ==> device::offered(
                Some(b),
            )[i] == 2 * l[i]
        }),
{
}

/// A wish that no rate meets is remembered, half a sample either way left out.
pub proof fn law_a_wish_that_is_not_met(rates: Seq<u64>, wish: u32, before: Option<u32>)
    requires
        rates.len() > 0,
    ensures
        ({
            let best = rates[device::nearest(rates, 2 * wish, rates.len() as int)];
            &&& best > 2 * wish + 1 || best + 1 < 2 * wish ==> device::snapped(rates, wish, before)
                == Some(wish)
            &&& 2 * wish - 1 <= best <= 2 * wish + 1 ==> device::snapped(rates, wish, before)
                == before
        }),
{
}

/// A number of rates is believed from one to 32.
pub proof fn law_how_many_rates_are_believed(b: Seq<u8>)
    ensures
        device::announced(None) is None,
        b.len() < 4 ==> device::announced(Some(b)) is None,
        b.len() >= 4 && 1 <= protocol::word(b, 0) <= 32 ==> device::announced(Some(b)) == Some(
            protocol::word(b, 0),
        ),
        b.len() >= 4 && !(1 <= protocol::word(b, 0) <= 32) ==> device::announced(Some(b)) is None,
{
}

/// What is asked at each step of the opening.
pub proof fn law_what_is_asked_at_each_step(o: Opening, n: u16, k: usize)
    ensures
        o.step == Step::Stop ==> o.next() == Some(
            Transfer::Out { request: Request::ReceiverMode, value: 0, index: 0 },
        ),
        o.step == Step::Version ==> o.next() == Some(
            Transfer::In { request: Request::VersionStringRead, index: 0, len: 255 },
        ),
        o.step == Step::PartId ==> o.next() == Some(
            Transfer::In { request: Request::BoardPartidSerialnoRead, index: 0, len: 24 },
        ),
        o.step == Step::RateCount ==> o.next() == Some(
            Transfer::In { request: Request::GetSamplerates, index: 0, len: 4 },
        ),
        o.step == Step::Rates(n) && 4 * n <= 65_535 ==> o.next() is Some && o.next()->0 is In
            && o.next()->0->In_request == Request::GetSamplerates && o.next()->0->In_index == n
            && o.next()->0->len == 4 * n,
        o.step == Step::Packing ==> o.next() == Some(
            Transfer::In {
                request: Request::SetPacking,
                index: if o.dev.packing {
                    1
                } else {
                    0
                },
                len: 1,
            },
        ),
        o.step == Step::Rate ==> o.next() == Some(
            Transfer::Setting {
                request: Request::SetSamplerate,
                index: protocol::rate_arg(
                    o.dev.rate_programmed,
                    o.dev.rates_programmed@,
                )->0.wire(),
            },
        ),
        o.step == Step::Tune ==> o.next() == Some(Transfer::Tune { hz: o.dev.center_hz }),
        o.step == Step::Gains(k) ==> o.next() == Some(
            device::gain_requests(
                o.dev.curve,
                o.dev.gain_step,
                o.dev.lna_agc,
                o.dev.mixer_agc,
            )[k as int],
        ),
        o.step == Step::Bias ==> o.next() == Some(
            Transfer::Out {
                request: Request::SetRfBias,
                value: 0,
                index: if o.dev.bias_tee {
                    1
                } else {
                    0
                },
            },
        ),
        o.step == Step::Done ==> o.next() is None,
{
}

/// What comes behind each step. A radio need not say its version, its serial number
/// or its rates, and need not pack; everything else it has to take, and a HydraSDR is
/// another radio.
pub proof fn law_what_comes_behind_each_step(o: Opening, b: Seq<u8>, n: u16, k: usize)
    ensures
        o.step == Step::Stop ==> o.step_after(Some(b)) == Some(Step::Version) && o.step_after(None)
            is None,
        o.step == Step::Version ==> o.step_after(None) == Some(Step::PartId),
        o.step == Step::Version ==> o.step_after(Some(b)) == if text::has_prefix(
            text::trim_front(protocol::ascii_of(b)),
            "HydraSDR"@,
        ) {
            None
        } else {
            Some(Step::PartId)
        },
        o.step == Step::PartId ==> o.step_after(Some(b)) == Some(Step::RateCount) && o.step_after(
            None,
        ) == Some(Step::RateCount),
        o.step == Step::RateCount && device::announced(Some(b)) is None ==> o.step_after(Some(b))
            == Some(Step::Packing),
        o.step == Step::RateCount && device::announced(Some(b)) == Some(n as int) ==> o.step_after(
            Some(b),
        ) == Some(Step::Rates(n)),
        o.step == Step::RateCount ==> o.step_after(None) == Some(Step::Packing),
        o.step == Step::Rates(n) ==> o.step_after(Some(b)) == Some(Step::Packing) && o.step_after(
            None,
        ) == Some(Step::Packing),
        o.step == Step::Packing ==> o.step_after(Some(b)) == Some(Step::Rate) && o.step_after(None)
            == Some(Step::Rate),
        o.step == Step::Rate ==> o.step_after(Some(b)) == Some(Step::Tune) && o.step_after(None)
            is None,
        o.step == Step::Tune ==> o.step_after(Some(b)) == Some(Step::Gains(0)) && o.step_after(None)
            is None,
        o.step == Step::Gains(k) ==> o.step_after(None) is None,
        o.step == Step::Gains(k) && k + 1 < o.gains().len() && k + 1 <= usize::MAX ==> o.step_after(
            Some(b),
        ) == Some(Step::Gains((k + 1) as usize)),
        o.step == Step::Gains(k) && k + 1 >= o.gains().len() ==> o.step_after(Some(b)) == Some(
            Step::Bias,
        ),
        o.step == Step::Bias ==> o.step_after(Some(b)) == Some(Step::Done) && o.step_after(None)
            is None,
{
}

/// A HydraSDR says so in its product or at the start of its serial number, in any
/// case.
pub proof fn law_which_radio_is_a_hydrasdr(p: Seq<char>, s: Seq<char>)
    ensures
        ({
            let product = text::find_seq(protocol::lowers(text::trim(p)), "hydrasdr"@, 0) is Some;
            let serial = text::has_prefix(text::uppers(text::trim(s)), "HYDRASDR"@);
            &&& protocol::says_hydrasdr(Some(p), Some(s)) == (product || serial)
            &&& protocol::says_hydrasdr(Some(p), None) == product
            &&& protocol::says_hydrasdr(None, Some(s)) == serial
            &&& !protocol::says_hydrasdr(None, None)
        }),
{
}

/// Small letters are made of the capitals and of nothing else.
pub proof fn law_what_small_letters_are_made_of(s: Seq<char>, i: int)
    requires
        0 <= i < s.len(),
    ensures
        protocol::lowers(s).len() == s.len(),
        'A' <= s[i] <= 'Z' ==> protocol::lowers(s)[i] as int == s[i] as int + 32,
        !('A' <= s[i] <= 'Z') ==> protocol::lowers(s)[i] == s[i],
{
}

/// What the answers of the opening leave behind: the radio is off once it took that,
/// and its name, its serial number, its rates and its packing are what it said.
pub proof fn law_what_the_answers_leave_behind(
    after: Device,
    before: Device,
    b: Seq<u8>,
    n: u16,
    wish: u32,
)
    ensures
        after.told(before, Step::Stop, Some(b), wish) ==> after == (Device {
            mode: ReceiverMode::Off,
            ..before
        }),
        after.told(before, Step::Stop, None, wish) ==> after == before,
        after.told(before, Step::Version, Some(b), wish) ==> after.firmware@ == protocol::ascii_of(
            b,
        ) && after.part_serial == before.part_serial && after.rates_programmed
            == before.rates_programmed && after.mode == before.mode,
        after.told(before, Step::Version, None, wish) ==> after.firmware == before.firmware,
        after.told(before, Step::PartId, Some(b), wish) ==> {
            &&& b.len() < 24 ==> after.part_serial is None
            &&& b.len() >= 24 ==> after.part_serial is Some && {
                let p = after.part_serial->0;
                &&& p.part_id[0] == protocol::word(b, 0)
                &&& p.part_id[1] == protocol::word(b, 4)
                &&& p.serial[0] == protocol::word(b, 8)
                &&& p.serial[1] == protocol::word(b, 12)
                &&& p.serial[2] == protocol::word(b, 16)
                &&& p.serial[3] == protocol::word(b, 20)
            }
        },
        after.told(before, Step::PartId, None, wish) ==> after.part_serial == before.part_serial,
        after.told(before, Step::RateCount, None, wish) ==> after.rates_programmed@ == seq![
            20_000_000u64,
            5_000_000u64,
        ],
        after.told(before, Step::RateCount, Some(b), wish) && device::announced(Some(b)) is Some
            ==> after == before,
        after.told(before, Step::Rates(n), Some(b), wish) ==> after.rates_programmed@
            == device::offered(Some(b)) && after.rate_programmed == before.rate_programmed
            && after.gain_step == before.gain_step && after.curve == before.curve,
        after.told(before, Step::Packing, Some(b), wish) ==> {
            let rates = before.rates_programmed@;
            &&& after.packing_active == before.packing
            &&& after.rates_programmed@ == rates
            &&& after.rate_programmed == rates[device::nearest(rates, 2 * wish, rates.len() as int)]
        },
        after.told(before, Step::Packing, None, wish) ==> !after.packing_active,
        after.told(before, Step::Rate, Some(b), wish) ==> after == before,
        after.told(before, Step::Tune, Some(b), wish) ==> after == before,
        after.told(before, Step::Bias, Some(b), wish) ==> after == before,
{
}

/// A serial number is its four words behind each other.
pub proof fn law_a_serial_number_in_hexadecimal(p: PartIdSerial)
    ensures
        p.hex().len() == 32,
        p.hex().subrange(0, 8) == protocol::hex_word(p.serial[0] as int),
        p.hex().subrange(8, 16) == protocol::hex_word(p.serial[1] as int),
        p.hex().subrange(16, 24) == protocol::hex_word(p.serial[2] as int),
        p.hex().subrange(24, 32) == protocol::hex_word(p.serial[3] as int),
{
    assert(p.hex().subrange(0, 8) =~= protocol::hex_word(p.serial[0] as int));
    assert(p.hex().subrange(8, 16) =~= protocol::hex_word(p.serial[1] as int));
    assert(p.hex().subrange(16, 24) =~= protocol::hex_word(p.serial[2] as int));
    assert(p.hex().subrange(24, 32) =~= protocol::hex_word(p.serial[3] as int));
}

/// What an answer does not speak of it leaves alone.
pub proof fn law_what_the_answers_leave_alone(
    after: Device,
    before: Device,
    reply: Option<Seq<u8>>,
    n: u16,
    wish: u32,
)
    ensures
        after.told(before, Step::Version, reply, wish) ==> after == (Device {
            firmware: after.firmware,
            ..before
        }),
        after.told(before, Step::PartId, reply, wish) ==> after == (Device {
            part_serial: after.part_serial,
            ..before
        }),
        after.told(before, Step::Rates(n), reply, wish) ==> after == (Device {
            rates_programmed: after.rates_programmed,
            ..before
        }),
        after.told(before, Step::RateCount, reply, wish) ==> after == (Device {
            rates_programmed: after.rates_programmed,
            ..before
        }),
        after.told(before, Step::Packing, reply, wish) ==> after.rates_programmed@
            == before.rates_programmed@ && after == (Device {
            rates_programmed: after.rates_programmed,
            packing_active: after.packing_active,
            rate_programmed: after.rate_programmed,
            snapped_from: after.snapped_from,
            ..before
        }),
        after.told(before, Step::Packing, reply, wish) ==> after.snapped_from == device::snapped(
            before.rates_programmed@,
            wish,
            before.snapped_from,
        ),
{
}

} // verus!
