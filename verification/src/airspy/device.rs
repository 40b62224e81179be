//! The receiver's state, and the sequences of requests that change it.
//!
//! A rate change is a stop, a new rate and a restart: the tuner and the clocks
//! move with the rate, and samples in flight would belong to the old one. A gain
//! change is a group of requests, with the automatic loops settled first: one
//! that still runs would overwrite the stage it owns.
use crate::airspy::protocol;
use crate::airspy::protocol::{
    GainCurve, PartIdSerial, RateArg, ReceiverMode, Request, GAIN_COUNT,
};
use crate::text;
use vstd::prelude::*;

verus! {

broadcast use vstd::seq::group_seq_axioms;

/// What an operator asks for.
#[derive(Debug, Clone, Copy, PartialEq, Eq, Structural)]
pub struct AirspyConfig {
    /// The complex sample rate.
    pub sample_rate_hz: u32,
    pub gain_curve: GainCurve,
    pub gain_step: u8,
    pub lna_agc: bool,
    pub mixer_agc: bool,
    pub bias_tee: bool,
    pub packing: bool,
}

/// One control transfer.
#[derive(Debug, Clone, Copy, PartialEq, Eq, Structural)]
pub enum Transfer {
    /// A write without data.
    Out { request: Request, value: u16, index: u16 },
    /// A setting that the receiver answers with a byte, which has to be read.
    Setting { request: Request, index: u16 },
    /// A write of the dial frequency.
    Tune { hz: u32 },
    /// A read that the receiver answers.
    In { request: Request, index: u16, len: u16 },
}

/// Why a receiver cannot be used.
#[derive(Debug, Clone, PartialEq, Eq)]
pub enum Error {
    /// A transfer failed.
    Usb,
    /// It is another radio, whose firmware calls itself so.
    WrongRadio(String),
    /// There is no way to ask for the rate.
    Unsupported,
}

/// The receiver's settings.
#[derive(Debug)]
pub struct Device {
    /// The programmed rates on offer, in the receiver's order: twice the complex
    /// rates.
    pub rates_programmed: Vec<u64>,
    pub rate_programmed: u64,
    /// The complex rate that was asked for and is not on offer.
    pub snapped_from: Option<u32>,
    pub center_hz: u32,
    pub curve: GainCurve,
    pub gain_step: u8,
    pub lna_agc: bool,
    pub mixer_agc: bool,
    pub bias_tee: bool,
    pub packing: bool,
    /// The receiver took the request to pack.
    pub packing_active: bool,
    pub firmware: String,
    pub part_serial: Option<PartIdSerial>,
    pub mode: ReceiverMode,
}

/// The distance of two rates.
pub open spec fn distance(a: int, b: int) -> int {
    if a < b {
        b - a
    } else {
        a - b
    }
}

/// Which of the first `n` rates is nearest; the first of those that are as near.
pub open spec fn nearest(rates: Seq<u64>, want: int, n: int) -> int
    decreases n,
{
    if n <= 1 {
        0
    } else {
        let best = nearest(rates, want, n - 1);
        if distance(rates[n - 1] as int, want) < distance(rates[best] as int, want) {
            n - 1
        } else {
            best
        }
    }
}

proof fn lemma_nearest(rates: Seq<u64>, want: int, n: int)
    requires
        0 < n <= rates.len(),
    ensures
        0 <= nearest(rates, want, n) < n,
    decreases n,
{
    if n > 1 {
        lemma_nearest(rates, want, n - 1);
    }
}

/// The rate that is chosen is on offer, and none that is on offer is nearer.
pub proof fn law_the_nearest_rate_is_chosen(rates: Seq<u64>, want: int, n: int, i: int)
    requires
        0 <= i < n <= rates.len(),
    ensures
        0 <= nearest(rates, want, n) < n,
        distance(rates[nearest(rates, want, n)] as int, want) <= distance(rates[i] as int, want),
    decreases n,
{
    lemma_nearest(rates, want, n);
    if n > 1 {
        lemma_nearest(rates, want, n - 1);
        if i < n - 1 {
            law_the_nearest_rate_is_chosen(rates, want, n - 1, i);
        } else {
            law_the_nearest_rate_is_chosen(rates, want, n - 1, 0);
        }
    }
}

/// Whether this is the part and the serial number that a reply gives: none where
/// it is too short.
pub open spec fn names_part(p: Option<PartIdSerial>, b: Seq<u8>) -> bool {
    match p {
        Some(p) => {
            &&& b.len() >= 24
            &&& p.part_id[0] == protocol::word(b, 0)
            &&& p.part_id[1] == protocol::word(b, 4)
            &&& p.serial[0] == protocol::word(b, 8)
            &&& p.serial[1] == protocol::word(b, 12)
            &&& p.serial[2] == protocol::word(b, 16)
            &&& p.serial[3] == protocol::word(b, 20)
        },
        None => b.len() < 24,
    }
}

/// What is remembered of a wish for a rate: the wish itself where it is not on
/// offer, and what was remembered before where it is, or where nothing is.
pub open spec fn snapped(rates: Seq<u64>, wish: u32, before: Option<u32>) -> Option<u32> {
    if rates.len() > 0 && distance(
        rates[nearest(rates, 2 * wish, rates.len() as int)] as int,
        2 * wish,
    ) > 1 {
        Some(wish)
    } else {
        before
    }
}

/// The requests that set the gains: the automatic loops first, then the stages
/// that no loop drives.
pub open spec fn gain_requests(curve: GainCurve, step: u8, lna_agc: bool, mixer_agc: bool) -> Seq<
    Transfer,
> {
    let (lna, mixer, vga) = protocol::stages_at(curve, step as int);
    seq![
        Transfer::Setting { request: Request::SetLnaAgc, index: flag(lna_agc) },
        Transfer::Setting { request: Request::SetMixerAgc, index: flag(mixer_agc) },
    ] + (if lna_agc {
        Seq::empty()
    } else {
        seq![Transfer::Setting { request: Request::SetLnaGain, index: lna as u16 }]
    }) + (if mixer_agc {
        Seq::empty()
    } else {
        seq![Transfer::Setting { request: Request::SetMixerGain, index: mixer as u16 }]
    }) + seq![Transfer::Setting { request: Request::SetVgaGain, index: vga as u16 }]
}

pub open spec fn flag(on: bool) -> u16 {
    if on {
        1
    } else {
        0
    }
}

fn flag_of(on: bool) -> (r: u16)
    ensures
        r == flag(on),
{
    if on {
        1
    } else {
        0
    }
}

/// A firmware that calls itself that of another maker.
pub open spec fn wrong_radio(firmware: Seq<char>) -> bool {
    text::has_prefix(text::trim_front(firmware), "HydraSDR"@)
}

/// The rates that a reply gives: programmed, and those of an old receiver where
/// there are none.
pub open spec fn offered(reply: Option<Seq<u8>>) -> Seq<u64> {
    let listed = match reply {
        Some(b) => protocol::rates_of(b, (b.len() / 4) as nat),
        None => Seq::empty(),
    };
    if listed.len() == 0 {
        seq![20_000_000u64, 5_000_000u64]
    } else {
        Seq::new(listed.len(), |i: int| (2 * listed[i]) as u64)
    }
}

impl Device {
    /// The settings are in range, and the rate is one that is on offer where any
    /// is.
    pub open spec fn wf(self) -> bool {
        &&& self.gain_step < GAIN_COUNT
        &&& self.rates_programmed@.len() <= 65536
        &&& forall|i: int|
            0 <= i < self.rates_programmed@.len() ==> #[trigger] self.rates_programmed@[i] <= 2
                * u32::MAX
        &&& self.rate_programmed <= 2 * u32::MAX
    }

    /// All but the rates is as in another state.
    pub open spec fn same_front_end(self, other: Device) -> bool {
        &&& self.center_hz == other.center_hz
        &&& self.curve == other.curve
        &&& self.gain_step == other.gain_step
        &&& self.lna_agc == other.lna_agc
        &&& self.mixer_agc == other.mixer_agc
        &&& self.bias_tee == other.bias_tee
        &&& self.packing == other.packing
        &&& self.packing_active == other.packing_active
        &&& self.firmware == other.firmware
        &&& self.part_serial == other.part_serial
        &&& self.mode == other.mode
    }

    /// All but the rate in use is as in another state.
    pub open spec fn same_but_rate(self, other: Device) -> bool {
        self.same_front_end(other) && self.rates_programmed@ == other.rates_programmed@
    }

    /// A receiver of which nothing is known yet but what is asked of it. That it
    /// runs is assumed until it was stopped.
    pub fn new(cfg: &AirspyConfig, center_hz: u32) -> (r: Device)
        ensures
            r.wf(),
            r.rates_programmed@.len() == 0,
            r.rate_programmed == 2 * cfg.sample_rate_hz,
            r.snapped_from is None,
            r.center_hz == center_hz,
            r.curve == cfg.gain_curve,
            r.gain_step == protocol::held_step(cfg.gain_step as int),
            r.lna_agc == cfg.lna_agc,
            r.mixer_agc == cfg.mixer_agc,
            r.bias_tee == cfg.bias_tee,
            r.packing == cfg.packing,
            !r.packing_active,
            r.firmware@.len() == 0,
            r.part_serial is None,
            r.mode == ReceiverMode::Rx,
    {
        Device {
            rates_programmed: Vec::new(),
            rate_programmed: protocol::program_rate_hz(cfg.sample_rate_hz as u64),
            snapped_from: None,
            center_hz,
            curve: GainCurve::from_code(cfg.gain_curve.code()),
            gain_step: if cfg.gain_step >= GAIN_COUNT { GAIN_COUNT - 1 } else { cfg.gain_step },
            lna_agc: cfg.lna_agc,
            mixer_agc: cfg.mixer_agc,
            bias_tee: cfg.bias_tee,
            packing: cfg.packing,
            packing_active: false,
            firmware: String::new(),
            part_serial: None,
            mode: ReceiverMode::Rx,
        }
    }

    /// The receiver said what its firmware is; nothing where it did not answer,
    /// which does no harm. Another maker's firmware is refused.
    pub fn on_version(&mut self, reply: Option<Vec<u8>>) -> (r: Result<(), Error>)
        ensures
            final(self).same_rates(*old(self)),
            final(self).part_serial == old(self).part_serial,
            match reply {
                Some(b) => {
                    &&& final(self).firmware@ == protocol::ascii_of(b@)
                    &&& if wrong_radio(protocol::ascii_of(b@)) {
                        r matches Err(Error::WrongRadio(s)) && s@ == protocol::ascii_of(b@)
                    } else {
                        r is Ok
                    }
                },
                None => r is Ok && final(self).firmware == old(self).firmware,
            },
    {
        match reply {
            Some(b) => {
                self.firmware = protocol::parse_ascii(b.as_slice());
                let v: Vec<char> = text::chars_of(self.firmware.as_str());
                if is_wrong_radio(&v) {
                    return Err(Error::WrongRadio(self.firmware.as_str().to_owned()));
                }
                Ok(())
            },
            None => Ok(()),
        }
    }

    /// What a reply in a step of the opening makes of a receiver, with a wish for
    /// a rate. What the step does not set stays as it was.
    pub open spec fn told(self, before: Device, step: Step, reply: Option<Seq<u8>>, wish: u32) -> bool {
        match step {
            Step::Stop => self == if reply is Some {
                (Device { mode: ReceiverMode::Off, ..before })
            } else {
                before
            },
            Step::Version => {
                &&& self.same_rates(before)
                &&& self.part_serial == before.part_serial
                &&& match reply {
                    Some(b) => self.firmware@ == protocol::ascii_of(b),
                    None => self.firmware == before.firmware,
                }
            },
            Step::PartId => {
                &&& self.same_rates(before)
                &&& self.firmware == before.firmware
                &&& match reply {
                    Some(b) => names_part(self.part_serial, b),
                    None => self.part_serial == before.part_serial,
                }
            },
            Step::RateCount => if announced(reply) is Some {
                self == before
            } else {
                self.offers(before, None)
            },
            Step::Rates(_) => self.offers(before, reply),
            Step::Packing => {
                let rates = before.rates_programmed@;
                let packed = Device {
                    packing_active: before.packing && reply is Some,
                    ..before
                };
                &&& self.same_but_rate(packed)
                &&& self.rate_programmed == rates[nearest(rates, 2 * wish, rates.len() as int)]
                &&& self.snapped_from == snapped(rates, wish, before.snapped_from)
            },
            _ => self == before,
        }
    }

    /// All is as in another state but for the rates on offer, which a reply lists.
    pub open spec fn offers(self, before: Device, reply: Option<Seq<u8>>) -> bool {
        &&& self.same_front_end(before)
        &&& self.rate_programmed == before.rate_programmed
        &&& self.snapped_from == before.snapped_from
        &&& self.rates_programmed@ == offered(reply)
    }

    /// All but the identity is as in another state.
    pub open spec fn same_rates(self, other: Device) -> bool {
        &&& self.rates_programmed == other.rates_programmed
        &&& self.rate_programmed == other.rate_programmed
        &&& self.snapped_from == other.snapped_from
        &&& self.center_hz == other.center_hz
        &&& self.curve == other.curve
        &&& self.gain_step == other.gain_step
        &&& self.lna_agc == other.lna_agc
        &&& self.mixer_agc == other.mixer_agc
        &&& self.bias_tee == other.bias_tee
        &&& self.packing == other.packing
        &&& self.packing_active == other.packing_active
        &&& self.mode == other.mode
    }

    /// The receiver said what its serial number is; nothing where it did not
    /// answer.
    pub fn on_part_id(&mut self, reply: Option<Vec<u8>>)
        ensures
            final(self).same_rates(*old(self)),
            final(self).firmware == old(self).firmware,
            match reply {
                Some(b) => names_part(final(self).part_serial, b@),
                None => final(self).part_serial == old(self).part_serial,
            },
    {
        match reply {
            Some(b) => {
                self.part_serial = PartIdSerial::parse(b.as_slice());
            },
            None => {},
        }
    }

    /// The receiver said which complex rates it has; those of an old receiver
    /// stand for an answer that gives none.
    pub fn on_rates(&mut self, reply: Option<Vec<u8>>)
        requires
            old(self).wf(),
            reply matches Some(b) ==> b@.len() <= 65535,
        ensures
            final(self).wf(),
            final(self).same_front_end(*old(self)),
            final(self).rate_programmed == old(self).rate_programmed,
            final(self).snapped_from == old(self).snapped_from,
            final(self).rates_programmed@ == offered(
                match reply {
                    Some(b) => Some(b@),
                    None => None,
                },
            ),
    {
        let listed: Vec<u64> = match reply {
            Some(b) => protocol::parse_rates(b.as_slice()),
            None => Vec::new(),
        };
        let complex: Vec<u64> = if listed.len() == 0 {
            protocol::fallback_rates()
        } else {
            listed
        };
        let mut out: Vec<u64> = Vec::new();
        let mut i: usize = 0;
        while i < complex.len()
            invariant
                i <= complex@.len(),
                forall|k: int| 0 <= k < complex@.len() ==> #[trigger] complex@[k] <= u32::MAX,
                out@.len() == i,
                forall|k: int| 0 <= k < i ==> #[trigger] out@[k] == 2 * complex@[k],
            decreases complex@.len() - i,
        {
            assert(complex@[i as int] <= u32::MAX);
            out.push(protocol::program_rate_hz(complex[i]));
            i += 1;
        }
        assert(out@ =~= offered(
            match reply {
                Some(b) => Some(b@),
                None => None,
            },
        ));
        self.rates_programmed = out;
    }

    /// The receiver took the request to pack, or did not.
    pub fn on_packing(&mut self, took: bool)
        ensures
            *final(self) == (Device {
                packing_active: old(self).packing && took,
                ..*old(self)
            }),
    {
        self.packing_active = self.packing && took;
    }

    /// Chooses the rate that is nearest to a complex rate, and remembers what was
    /// asked for where that is another.
    pub fn choose_rate(&mut self, want_complex_hz: u32) -> (r: Result<(), Error>)
        requires
            old(self).wf(),
        ensures
            final(self).wf(),
            final(self).same_but_rate(*old(self)),
            ({
                let rates = old(self).rates_programmed@;
                let want = 2 * want_complex_hz;
                if rates.len() == 0 {
                    &&& r == Err::<(), Error>(Error::Unsupported)
                    &&& final(self).rate_programmed == old(self).rate_programmed
                    &&& final(self).snapped_from == old(self).snapped_from
                } else {
                    let best = rates[nearest(rates, want, rates.len() as int)];
                    &&& r is Ok
                    &&& final(self).rate_programmed == best
                    &&& final(self).snapped_from == if distance(best as int, want) > 1 {
                        Some(want_complex_hz)
                    } else {
                        old(self).snapped_from
                    }
                }
            }),
    {
        let want: u64 = protocol::program_rate_hz(want_complex_hz as u64);
        if self.rates_programmed.len() == 0 {
            return Err(Error::Unsupported);
        }
        let mut best: usize = 0;
        let mut n: usize = 1;
        while n < self.rates_programmed.len()
            invariant
                1 <= n <= self.rates_programmed@.len(),
                self == old(self),
                best == nearest(self.rates_programmed@, want as int, n as int),
                best < n,
            decreases self.rates_programmed@.len() - n,
        {
            if gap(self.rates_programmed[n], want) < gap(self.rates_programmed[best], want) {
                best = n;
            }
            n += 1;
        }
        let rate: u64 = self.rates_programmed[best];
        assert(rate <= 2 * u32::MAX) by {
            assert(self.rates_programmed@[best as int] <= 2 * u32::MAX);
        }
        if gap(rate, want) > 1 {
            self.snapped_from = Some(want_complex_hz);
        }
        self.rate_programmed = rate;
        Ok(())
    }

    /// The complex rate that comes out.
    pub fn sample_rate_hz(&self) -> (r: u64)
        ensures
            r == self.rate_programmed / 2,
    {
        protocol::complex_rate_hz(self.rate_programmed)
    }

    /// The complex rates on offer.
    pub fn available_rates(&self) -> (r: Vec<u64>)
        ensures
            r@ == Seq::new(
                self.rates_programmed@.len(),
                |i: int| (self.rates_programmed@[i] / 2) as u64,
            ),
    {
        let mut out: Vec<u64> = Vec::new();
        let mut i: usize = 0;
        while i < self.rates_programmed.len()
            invariant
                i <= self.rates_programmed@.len(),
                out@.len() == i,
                forall|k: int| 0 <= k < i ==> out@[k] == self.rates_programmed@[k] / 2,
            decreases self.rates_programmed@.len() - i,
        {
            out.push(protocol::complex_rate_hz(self.rates_programmed[i]));
            i += 1;
        }
        assert(out@ =~= Seq::new(
            self.rates_programmed@.len(),
            |i: int| (self.rates_programmed@[i] / 2) as u64,
        ));
        out
    }

    pub fn center_hz(&self) -> (r: u32)
        ensures
            r == self.center_hz,
    {
        self.center_hz
    }

    /// Whether samples arrive packed.
    pub fn packing_active(&self) -> (r: bool)
        ensures
            r == self.packing_active,
    {
        self.packing_active
    }

    pub fn gain_step(&self) -> (r: u8)
        ensures
            r == self.gain_step,
    {
        self.gain_step
    }

    /// The receiver in words: what it is called, and the end of its serial
    /// number.
    pub fn describe(&self, label: &str) -> (r: String)
        ensures
            r@ == match self.part_serial {
                Some(p) => label@ + " ("@ + p.hex().skip(24) + ")"@,
                None => label@,
            },
    {
        match &self.part_serial {
            Some(p) => {
                let hex: Vec<char> = text::chars_of(p.serial_hex().as_str());
                let tail: Vec<char> = text::copy_chars(hex.as_slice(), 24, hex.len());
                assert(tail@ =~= p.hex().skip(24));
                let mut s = label.to_owned();
                s.append(" (");
                s.append(text::string_of(tail.as_slice()).as_str());
                s.append(")");
                s
            },
            None => label.to_owned(),
        }
    }

    /// The transfer that starts or stops the samples.
    pub fn mode_request(mode: ReceiverMode) -> (r: Transfer)
        ensures
            r == (Transfer::Out {
                request: Request::ReceiverMode,
                value: mode.number(),
                index: 0,
            }),
    {
        Transfer::Out { request: Request::ReceiverMode, value: mode.code(), index: 0 }
    }

    /// The receiver took that transfer.
    pub fn mode_set(&mut self, mode: ReceiverMode)
        ensures
            *final(self) == (Device { mode, ..*old(self) }),
    {
        self.mode = mode;
    }

    /// The transfer that states the dial.
    pub fn retune(&self) -> (r: Transfer)
        ensures
            r == (Transfer::Tune { hz: self.center_hz }),
    {
        Transfer::Tune { hz: self.center_hz }
    }

    /// The transfer that states the rate.
    pub fn apply_rate(&self) -> (r: Result<Transfer, Error>)
        requires
            self.wf(),
        ensures
            match protocol::rate_arg(self.rate_programmed, self.rates_programmed@) {
                Some(a) => r == Ok::<Transfer, Error>(
                    Transfer::Setting { request: Request::SetSamplerate, index: a.wire() },
                ),
                None => r == Err::<Transfer, Error>(Error::Unsupported),
            },
    {
        match protocol::encode_samplerate(self.rate_programmed, self.rates_programmed.as_slice()) {
            Some(a) => Ok(Transfer::Setting { request: Request::SetSamplerate, index: a.value() }),
            None => Err(Error::Unsupported),
        }
    }

    /// The transfers that set the gains.
    pub fn apply_gains(&self) -> (r: Vec<Transfer>)
        ensures
            r@ == gain_requests(self.curve, self.gain_step, self.lna_agc, self.mixer_agc),
    {
        let (lna, mixer, vga) = self.curve.stages(self.gain_step);
        let mut out: Vec<Transfer> = Vec::new();
        out.push(Transfer::Setting { request: Request::SetLnaAgc, index: flag_of(self.lna_agc) });
        out.push(Transfer::Setting { request: Request::SetMixerAgc, index: flag_of(self.mixer_agc) });
        if !self.lna_agc {
            out.push(Transfer::Setting { request: Request::SetLnaGain, index: lna as u16 });
        }
        if !self.mixer_agc {
            out.push(Transfer::Setting { request: Request::SetMixerGain, index: mixer as u16 });
        }
        out.push(Transfer::Setting { request: Request::SetVgaGain, index: vga as u16 });
        assert(out@ =~= gain_requests(self.curve, self.gain_step, self.lna_agc, self.mixer_agc));
        out
    }

    /// The transfer that powers the feed line or does not.
    pub fn apply_bias_tee(&self) -> (r: Transfer)
        ensures
            r == (Transfer::Out {
                request: Request::SetRfBias,
                value: 0,
                index: flag(self.bias_tee),
            }),
    {
        Transfer::Out { request: Request::SetRfBias, value: 0, index: flag_of(self.bias_tee) }
    }

    pub fn set_center_hz(&mut self, hz: u32) -> (r: Transfer)
        ensures
            *final(self) == (Device { center_hz: hz, ..*old(self) }),
            r == (Transfer::Tune { hz }),
    {
        self.center_hz = hz;
        self.retune()
    }

    /// The transfers to another rate. The receiver has to be stopped, and stays
    /// so; the dial is stated again, because the tuner moved with the rate.
    pub fn set_rate(&mut self, complex_hz: u32) -> (r: Result<Vec<Transfer>, Error>)
        requires
            old(self).wf(),
            old(self).mode == ReceiverMode::Off,
        ensures
            final(self).wf(),
            final(self).same_but_rate(*old(self)),
            final(self).snapped_from == snapped(
                old(self).rates_programmed@,
                complex_hz,
                old(self).snapped_from,
            ),
            ({
                let rates = old(self).rates_programmed@;
                if rates.len() == 0 {
                    &&& r == Err::<Vec<Transfer>, Error>(Error::Unsupported)
                    &&& final(self).rate_programmed == old(self).rate_programmed
                } else {
                    let best = rates[nearest(rates, 2 * complex_hz, rates.len() as int)];
                    &&& final(self).rate_programmed == best
                    &&& match protocol::rate_arg(best, rates) {
                        Some(a) => r matches Ok(v) && v@ == seq![
                            Transfer::Setting { request: Request::SetSamplerate, index: a.wire() },
                            Transfer::Tune { hz: old(self).center_hz },
                        ],
                        None => r == Err::<Vec<Transfer>, Error>(Error::Unsupported),
                    }
                }
            }),
    {
        match self.choose_rate(complex_hz) {
            Ok(()) => {},
            Err(e) => {
                return Err(e);
            },
        }
        let t: Transfer = match self.apply_rate() {
            Ok(t) => t,
            Err(e) => {
                return Err(e);
            },
        };
        let mut out: Vec<Transfer> = Vec::new();
        out.push(t);
        out.push(self.retune());
        assert(out@ =~= seq![t, Transfer::Tune { hz: old(self).center_hz }]);
        Ok(out)
    }

    pub fn set_gain_step(&mut self, step: u8) -> (r: Vec<Transfer>)
        ensures
            *final(self) == (Device {
                gain_step: protocol::held_step(step as int) as u8,
                ..*old(self)
            }),
            r@ == gain_requests(
                old(self).curve,
                protocol::held_step(step as int) as u8,
                old(self).lna_agc,
                old(self).mixer_agc,
            ),
    {
        self.gain_step = if step >= GAIN_COUNT { GAIN_COUNT - 1 } else { step };
        self.apply_gains()
    }

    pub fn set_curve(&mut self, curve: GainCurve) -> (r: Vec<Transfer>)
        ensures
            *final(self) == (Device { curve, ..*old(self) }),
            r@ == gain_requests(
                curve,
                old(self).gain_step,
                old(self).lna_agc,
                old(self).mixer_agc,
            ),
    {
        self.curve = curve;
        self.apply_gains()
    }

    pub fn set_lna_agc(&mut self, on: bool) -> (r: Vec<Transfer>)
        ensures
            *final(self) == (Device { lna_agc: on, ..*old(self) }),
            r@ == gain_requests(old(self).curve, old(self).gain_step, on, old(self).mixer_agc),
    {
        self.lna_agc = on;
        self.apply_gains()
    }

    pub fn set_mixer_agc(&mut self, on: bool) -> (r: Vec<Transfer>)
        ensures
            *final(self) == (Device { mixer_agc: on, ..*old(self) }),
            r@ == gain_requests(old(self).curve, old(self).gain_step, old(self).lna_agc, on),
    {
        self.mixer_agc = on;
        self.apply_gains()
    }

    pub fn set_bias_tee(&mut self, on: bool) -> (r: Transfer)
        ensures
            *final(self) == (Device { bias_tee: on, ..*old(self) }),
            r == (Transfer::Out { request: Request::SetRfBias, value: 0, index: flag(on) }),
    {
        self.bias_tee = on;
        self.apply_bias_tee()
    }

    /// The transfers that put the receiver away: both are tried, whatever becomes
    /// of the first. The feed line would stay powered behind the process.
    pub fn shutdown(&mut self) -> (r: Vec<Transfer>)
        ensures
            *final(self) == (Device { mode: ReceiverMode::Off, ..*old(self) }),
            r@ == seq![
                Transfer::Out { request: Request::ReceiverMode, value: 0, index: 0 },
                Transfer::Out { request: Request::SetRfBias, value: 0, index: 0 },
            ],
    {
        self.mode = ReceiverMode::Off;
        let mut out: Vec<Transfer> = Vec::new();
        out.push(Device::mode_request(ReceiverMode::Off));
        out.push(Transfer::Out { request: Request::SetRfBias, value: 0, index: 0 });
        assert(out@ =~= seq![
            Transfer::Out { request: Request::ReceiverMode, value: 0, index: 0 },
            Transfer::Out { request: Request::SetRfBias, value: 0, index: 0 },
        ]);
        out
    }
}

fn gap(a: u64, b: u64) -> (r: u64)
    ensures
        r == distance(a as int, b as int),
{
    if a < b {
        b - a
    } else {
        a - b
    }
}

fn is_wrong_radio(v: &Vec<char>) -> (r: bool)
    ensures
        r == wrong_radio(v@),
{
    let mut i: usize = 0;
    assert(v@.skip(0) =~= v@);
    while i < v.len() && text::white(v[i])
        invariant
            i <= v@.len(),
            text::trim_front(v@.skip(i as int)) == text::trim_front(v@),
        decreases v@.len() - i,
    {
        assert(v@.skip(i as int).drop_first() =~= v@.skip(i + 1));
        i += 1;
    }
    let tail: Vec<char> = text::copy_chars(v.as_slice(), i, v.len());
    assert(tail@ =~= v@.skip(i as int));
    text::starts_with(tail.as_slice(), "HydraSDR")
}

/// A loop is settled before any stage is written, and no stage is written that a
/// loop drives.
pub proof fn law_loops_are_settled_first(
    curve: GainCurve,
    step: u8,
    lna_agc: bool,
    mixer_agc: bool,
    i: int,
)
    requires
        0 <= i < gain_requests(curve, step, lna_agc, mixer_agc).len(),
    ensures
        ({
            let t = gain_requests(curve, step, lna_agc, mixer_agc)[i];
            &&& t is Setting
            &&& (t->Setting_request == Request::SetLnaAgc || t->Setting_request == Request::SetMixerAgc)
                <==> i < 2
            &&& t->Setting_request == Request::SetLnaGain ==> !lna_agc
            &&& t->Setting_request == Request::SetMixerGain ==> !mixer_agc
        }),
{
}

/// A rate that was chosen can be asked for: it is on the receiver's own list.
pub proof fn law_a_chosen_rate_can_be_asked_for(rates: Seq<u64>, i: int)
    requires
        0 <= i < rates.len(),
    ensures
        protocol::rate_arg(rates[i], rates) is Some,
        protocol::rate_arg(rates[i], rates)->0 is Index,
{
    lemma_listed(rates, protocol::capped(rates[i]), 0, i);
}

proof fn lemma_listed(rates: Seq<u64>, hz: int, from: int, i: int)
    requires
        0 <= from <= i < rates.len(),
        protocol::capped(rates[i]) == hz,
    ensures
        protocol::listed(rates, hz, from) is Some,
    decreases i - from,
{
    if from < i && protocol::capped(rates[from]) != hz {
        lemma_listed(rates, hz, from + 1, i);
    }
}

/// How far a receiver has been opened: which transfer is next.
#[derive(Debug, Clone, Copy, PartialEq, Eq, Structural)]
pub enum Step {
    /// It is stopped first, whatever another program left behind.
    Stop,
    Version,
    PartId,
    RateCount,
    /// So many rates are asked for.
    Rates(u16),
    Packing,
    Rate,
    Tune,
    /// So many of the gain requests are done.
    Gains(usize),
    Bias,
    Done,
}

impl Step {
    /// How far along this is.
    pub open spec fn rank(self) -> int {
        match self {
            Step::Stop => 0,
            Step::Version => 1,
            Step::PartId => 2,
            Step::RateCount => 3,
            Step::Rates(_) => 4,
            Step::Packing => 5,
            Step::Rate => 6,
            Step::Tune => 7,
            Step::Gains(k) => 8 + k as int,
            Step::Bias => 20,
            Step::Done => 21,
        }
    }
}

/// A receiver that is being opened.
#[derive(Debug)]
pub struct Opening {
    pub dev: Device,
    /// The complex rate that is asked for.
    pub want: u32,
    pub step: Step,
}

/// How many rates a reply announces, if it can be.
pub open spec fn announced(reply: Option<Seq<u8>>) -> Option<int> {
    match reply {
        Some(b) => if b.len() >= 4 && 1 <= protocol::word(b, 0) <= 32 {
            Some(protocol::word(b, 0))
        } else {
            None
        },
        None => None,
    }
}

pub open spec fn bytes(reply: Option<Vec<u8>>) -> Option<Seq<u8>> {
    match reply {
        Some(b) => Some(b@),
        None => None,
    }
}

impl Opening {
    /// From the rate on there are rates on offer, and the one in use is among
    /// them.
    pub open spec fn wf(self) -> bool {
        &&& self.dev.wf()
        &&& self.step.rank() >= 5 ==> self.dev.rates_programmed@.len() > 0
        &&& self.step.rank() >= 1 ==> self.dev.mode == ReceiverMode::Off
        &&& self.step == Step::Rate ==> protocol::rate_arg(
            self.dev.rate_programmed,
            self.dev.rates_programmed@,
        ) is Some
        &&& self.step matches Step::Gains(k) ==> k < self.gains().len()
    }

    pub open spec fn gains(self) -> Seq<Transfer> {
        gain_requests(self.dev.curve, self.dev.gain_step, self.dev.lna_agc, self.dev.mixer_agc)
    }

    /// The transfer that is next.
    pub open spec fn next(self) -> Option<Transfer> {
        match self.step {
            Step::Stop => Some(
                Transfer::Out { request: Request::ReceiverMode, value: 0, index: 0 },
            ),
            Step::Version => Some(
                Transfer::In { request: Request::VersionStringRead, index: 0, len: 255 },
            ),
            Step::PartId => Some(
                Transfer::In { request: Request::BoardPartidSerialnoRead, index: 0, len: 24 },
            ),
            Step::RateCount => Some(
                Transfer::In { request: Request::GetSamplerates, index: 0, len: 4 },
            ),
            Step::Rates(n) => Some(
                Transfer::In { request: Request::GetSamplerates, index: n, len: (4 * n) as u16 },
            ),
            Step::Packing => Some(
                Transfer::In {
                    request: Request::SetPacking,
                    index: flag(self.dev.packing),
                    len: 1,
                },
            ),
            Step::Rate => Some(
                Transfer::Setting {
                    request: Request::SetSamplerate,
                    index: protocol::rate_arg(
                        self.dev.rate_programmed,
                        self.dev.rates_programmed@,
                    )->0.wire(),
                },
            ),
            Step::Tune => Some(Transfer::Tune { hz: self.dev.center_hz }),
            Step::Gains(k) => Some(self.gains()[k as int]),
            Step::Bias => Some(
                Transfer::Out {
                    request: Request::SetRfBias,
                    value: 0,
                    index: flag(self.dev.bias_tee),
                },
            ),
            Step::Done => None,
        }
    }

    /// What is next once a reply is there, or why the receiver cannot be used.
    /// Only the answers of a receiver that is too old to give them may be
    /// missing.
    pub open spec fn step_after(self, reply: Option<Seq<u8>>) -> Option<Step> {
        match self.step {
            Step::Stop => if reply is Some {
                Some(Step::Version)
            } else {
                None
            },
            Step::Version => if reply matches Some(b) && wrong_radio(protocol::ascii_of(b)) {
                None
            } else {
                Some(Step::PartId)
            },
            Step::PartId => Some(Step::RateCount),
            Step::RateCount => match announced(reply) {
                Some(n) => Some(Step::Rates(n as u16)),
                None => Some(Step::Packing),
            },
            Step::Rates(_) => Some(Step::Packing),
            Step::Packing => Some(Step::Rate),
            Step::Rate => if reply is Some {
                Some(Step::Tune)
            } else {
                None
            },
            Step::Tune => if reply is Some {
                Some(Step::Gains(0))
            } else {
                None
            },
            Step::Gains(k) => if reply is None {
                None
            } else if k + 1 < self.gains().len() {
                Some(Step::Gains((k + 1) as usize))
            } else {
                Some(Step::Bias)
            },
            Step::Bias => if reply is Some {
                Some(Step::Done)
            } else {
                None
            },
            Step::Done => Some(Step::Done),
        }
    }

    pub fn new(cfg: &AirspyConfig, center_hz: u32) -> (r: Opening)
        ensures
            r.wf(),
            r.step == Step::Stop,
            r.want == cfg.sample_rate_hz,
            r.dev.center_hz == center_hz,
            r.dev.curve == cfg.gain_curve,
            r.dev.gain_step == protocol::held_step(cfg.gain_step as int),
            r.dev.lna_agc == cfg.lna_agc,
            r.dev.mixer_agc == cfg.mixer_agc,
            r.dev.bias_tee == cfg.bias_tee,
            r.dev.packing == cfg.packing,
    {
        Opening { dev: Device::new(cfg, center_hz), want: cfg.sample_rate_hz, step: Step::Stop }
    }

    /// The transfer that is next; none where the receiver is open.
    pub fn action(&self) -> (r: Option<Transfer>)
        requires
            self.wf(),
        ensures
            r == self.next(),
    {
        match self.step {
            Step::Stop => Some(Device::mode_request(ReceiverMode::Off)),
            Step::Version => Some(
                Transfer::In { request: Request::VersionStringRead, index: 0, len: 255 },
            ),
            Step::PartId => Some(
                Transfer::In { request: Request::BoardPartidSerialnoRead, index: 0, len: 24 },
            ),
            Step::RateCount => Some(
                Transfer::In { request: Request::GetSamplerates, index: 0, len: 4 },
            ),
            Step::Rates(n) => {
                let len: u32 = 4 * n as u32;
                Some(Transfer::In { request: Request::GetSamplerates, index: n, len: len as u16 })
            },
            Step::Packing => Some(
                Transfer::In {
                    request: Request::SetPacking,
                    index: flag_of(self.dev.packing),
                    len: 1,
                },
            ),
            Step::Rate => match self.dev.apply_rate() {
                Ok(t) => Some(t),
                Err(_) => None,
            },
            Step::Tune => Some(self.dev.retune()),
            Step::Gains(k) => {
                let g: Vec<Transfer> = self.dev.apply_gains();
                Some(g[k])
            },
            Step::Bias => Some(self.dev.apply_bias_tee()),
            Step::Done => None,
        }
    }

    /// The reply to that transfer, none where it failed.
    pub fn on_reply(&mut self, reply: Option<Vec<u8>>) -> (r: Result<(), Error>)
        requires
            old(self).wf(),
            reply matches Some(b) ==> b@.len() <= 65535,
        ensures
            final(self).want == old(self).want,
            match old(self).step_after(bytes(reply)) {
                Some(step) => r is Ok && final(self).wf() && final(self).step == step,
                None => match old(self).step {
                    Step::Version => r matches Err(Error::WrongRadio(s)) && s@
                        == protocol::ascii_of(reply->0@),
                    _ => r == Err::<(), Error>(Error::Usb),
                },
            },
            final(self).dev.told(old(self).dev, old(self).step, bytes(reply), old(self).want),
    {
        match self.step {
            Step::Stop => {
                if reply.is_none() {
                    return Err(Error::Usb);
                }
                self.dev.mode_set(ReceiverMode::Off);
                self.step = Step::Version;
            },
            Step::Version => {
                match self.dev.on_version(reply) {
                    Ok(()) => {},
                    Err(e) => {
                        return Err(e);
                    },
                }
                self.step = Step::PartId;
            },
            Step::PartId => {
                self.dev.on_part_id(reply);
                self.step = Step::RateCount;
            },
            Step::RateCount => {
                let n: u32 = match &reply {
                    Some(b) => match protocol::parse_count(b.as_slice()) {
                        Some(n) => n,
                        None => 0,
                    },
                    None => 0,
                };
                if 1 <= n && n <= 32 {
                    self.step = Step::Rates(n as u16);
                } else {
                    self.dev.on_rates(None);
                    self.step = Step::Packing;
                }
            },
            Step::Rates(_) => {
                self.dev.on_rates(reply);
                self.step = Step::Packing;
            },
            Step::Packing => {
                self.dev.on_packing(reply.is_some());
                let ghost rates = self.dev.rates_programmed@;
                let _ = self.dev.choose_rate(self.want);
                proof {
                    let i = nearest(rates, 2 * self.want, rates.len() as int);
                    lemma_nearest(rates, 2 * self.want, rates.len() as int);
                    law_a_chosen_rate_can_be_asked_for(rates, i);
                }
                self.step = Step::Rate;
            },
            Step::Rate => {
                if reply.is_none() {
                    return Err(Error::Usb);
                }
                self.step = Step::Tune;
            },
            Step::Tune => {
                if reply.is_none() {
                    return Err(Error::Usb);
                }
                self.step = Step::Gains(0);
            },
            Step::Gains(k) => {
                if reply.is_none() {
                    return Err(Error::Usb);
                }
                let g: Vec<Transfer> = self.dev.apply_gains();
                if k + 1 < g.len() {
                    self.step = Step::Gains(k + 1);
                } else {
                    self.step = Step::Bias;
                }
            },
            Step::Bias => {
                if reply.is_none() {
                    return Err(Error::Usb);
                }
                self.step = Step::Done;
            },
            Step::Done => {},
        }
        Ok(())
    }
}

/// Opening goes forward: every reply that is good enough leads to a later step,
/// so the receiver is stopped before anything is set, and the rate, the dial, the
/// gains and the feed line are set in this order, each once.
pub proof fn law_opening_goes_forward(o: Opening, reply: Option<Seq<u8>>)
    requires
        o.wf(),
        o.step != Step::Done,
    ensures
        o.step_after(reply) matches Some(s) ==> s.rank() > o.step.rank(),
        o.step.rank() <= 21,
{
}

} // verus!
