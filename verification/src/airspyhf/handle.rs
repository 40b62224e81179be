//! The control changes that wait for the stream thread, and the accounting of
//! what it delivers.
use crate::airspyhf::ring;
use crate::text;
use vstd::prelude::*;

verus! {

broadcast use vstd::seq::group_seq_axioms;

/// How often the stream thread emits a throughput line, in microseconds.
pub const STATS_INTERVAL: u64 = 2_000_000;

/// Below this the host's own scheduling jitter dominates a clock measurement.
pub const CLOCK_MIN_TIME: u64 = 20_000_000;

/// A control message for the stream thread. Frequencies are thousandths of a
/// hertz and gains thousandths of a decibel.
#[derive(Clone, Copy, Debug, PartialEq, Eq, Structural)]
pub enum Ctrl {
    Center(i64),
    Agc(bool),
    AgcThreshold(bool),
    Attenuator(i64),
    Lna(bool),
    BiasTee(bool),
    CalibrationPpb(i32),
    LibDsp(bool),
    Shutdown,
}

/// Control messages accumulated over one pass of the thread loop: the whole
/// channel collapsed, each field applied once, last value wins.
#[derive(Clone, Copy, Debug, PartialEq, Eq, Structural)]
pub struct Pending {
    pub center: Option<i64>,
    pub agc: Option<bool>,
    pub agc_threshold: Option<bool>,
    pub attenuator: Option<i64>,
    pub lna: Option<bool>,
    pub bias_tee: Option<bool>,
    pub calibration_ppb: Option<i32>,
    pub lib_dsp: Option<bool>,
    pub shutdown: bool,
}

/// Nothing waits.
pub open spec fn nothing() -> Pending {
    Pending {
        center: None,
        agc: None,
        agc_threshold: None,
        attenuator: None,
        lna: None,
        bias_tee: None,
        calibration_ppb: None,
        lib_dsp: None,
        shutdown: false,
    }
}

/// One more message.
pub open spec fn absorbed(p: Pending, c: Ctrl) -> Pending {
    match c {
        Ctrl::Center(v) => Pending { center: Some(v), ..p },
        Ctrl::Agc(v) => Pending { agc: Some(v), ..p },
        Ctrl::AgcThreshold(v) => Pending { agc_threshold: Some(v), ..p },
        Ctrl::Attenuator(v) => Pending { attenuator: Some(v), ..p },
        Ctrl::Lna(v) => Pending { lna: Some(v), ..p },
        Ctrl::BiasTee(v) => Pending { bias_tee: Some(v), ..p },
        Ctrl::CalibrationPpb(v) => Pending { calibration_ppb: Some(v), ..p },
        Ctrl::LibDsp(v) => Pending { lib_dsp: Some(v), ..p },
        Ctrl::Shutdown => Pending { shutdown: true, ..p },
    }
}

/// What a whole channel collapses to.
pub open spec fn collapsed(v: Seq<Ctrl>) -> Pending
    decreases v.len(),
{
    if v.len() == 0 {
        nothing()
    } else {
        absorbed(collapsed(v.drop_last()), v.last())
    }
}

impl Default for Pending {
    fn default() -> (r: Self)
        ensures
            r == nothing(),
    {
        Pending {
            center: None,
            agc: None,
            agc_threshold: None,
            attenuator: None,
            lna: None,
            bias_tee: None,
            calibration_ppb: None,
            lib_dsp: None,
            shutdown: false,
        }
    }
}

impl Pending {
    pub fn absorb(&mut self, c: Ctrl)
        ensures
            *final(self) == absorbed(*old(self), c),
    {
        match c {
            Ctrl::Center(v) => {
                self.center = Some(v);
            },
            Ctrl::Agc(v) => {
                self.agc = Some(v);
            },
            Ctrl::AgcThreshold(v) => {
                self.agc_threshold = Some(v);
            },
            Ctrl::Attenuator(v) => {
                self.attenuator = Some(v);
            },
            Ctrl::Lna(v) => {
                self.lna = Some(v);
            },
            Ctrl::BiasTee(v) => {
                self.bias_tee = Some(v);
            },
            Ctrl::CalibrationPpb(v) => {
                self.calibration_ppb = Some(v);
            },
            Ctrl::LibDsp(v) => {
                self.lib_dsp = Some(v);
            },
            Ctrl::Shutdown => {
                self.shutdown = true;
            },
        }
    }

    /// The whole channel, collapsed.
    pub fn collect(v: &[Ctrl]) -> (r: Pending)
        ensures
            r == collapsed(v@),
    {
        let mut p = Pending::default();
        let mut i: usize = 0;
        while i < v.len()
            invariant
                i <= v@.len(),
                p == collapsed(v@.take(i as int)),
            decreases v@.len() - i,
        {
            p.absorb(v[i]);
            i += 1;
            assert(v@.take(i as int).drop_last() =~= v@.take(i - 1));
        }
        assert(v@.take(v@.len() as int) =~= v@);
        p
    }

    pub fn is_empty(&self) -> (r: bool)
        ensures
            r == (*self == nothing()),
    {
        *self == Pending::default()
    }

    /// The changes in the order in which they are applied: the calibration and
    /// the host-DSP switch first, because both change what a frequency *means*;
    /// then the centre, so the dial has the last word; then the gains, with the
    /// AGC before the attenuator it overrides.
    pub fn settings(&self) -> (out: Vec<Ctrl>)
        ensures
            out@ == settings_of(*self),
    {
        let mut out: Vec<Ctrl> = Vec::new();
        push_change(
            &mut out,
            match self.calibration_ppb {
                Some(v) => Some(Ctrl::CalibrationPpb(v)),
                None => None,
            },
        );
        push_change(
            &mut out,
            match self.lib_dsp {
                Some(v) => Some(Ctrl::LibDsp(v)),
                None => None,
            },
        );
        push_change(
            &mut out,
            match self.center {
                Some(v) => Some(Ctrl::Center(v)),
                None => None,
            },
        );
        push_change(
            &mut out,
            match self.agc {
                Some(v) => Some(Ctrl::Agc(v)),
                None => None,
            },
        );
        push_change(
            &mut out,
            match self.agc_threshold {
                Some(v) => Some(Ctrl::AgcThreshold(v)),
                None => None,
            },
        );
        push_change(
            &mut out,
            match self.attenuator {
                Some(v) => Some(Ctrl::Attenuator(v)),
                None => None,
            },
        );
        push_change(
            &mut out,
            match self.lna {
                Some(v) => Some(Ctrl::Lna(v)),
                None => None,
            },
        );
        push_change(
            &mut out,
            match self.bias_tee {
                Some(v) => Some(Ctrl::BiasTee(v)),
                None => None,
            },
        );
        assert(out@ =~= settings_of(*self));
        out
    }
}

/// A change that may be there, as a list.
pub open spec fn change(c: Option<Ctrl>) -> Seq<Ctrl> {
    match c {
        Some(v) => seq![v],
        None => seq![],
    }
}

fn push_change(out: &mut Vec<Ctrl>, c: Option<Ctrl>)
    ensures
        final(out)@ == old(out)@ + change(c),
{
    match c {
        Some(v) => out.push(v),
        None => {},
    }
    assert(out@ =~= old(out)@ + change(c));
}

/// The changes in the order in which they are applied.
pub open spec fn settings_of(p: Pending) -> Seq<Ctrl> {
    change(
        match p.calibration_ppb {
            Some(v) => Some(Ctrl::CalibrationPpb(v)),
            None => None,
        },
    ) + change(
        match p.lib_dsp {
            Some(v) => Some(Ctrl::LibDsp(v)),
            None => None,
        },
    ) + change(
        match p.center {
            Some(v) => Some(Ctrl::Center(v)),
            None => None,
        },
    ) + change(
        match p.agc {
            Some(v) => Some(Ctrl::Agc(v)),
            None => None,
        },
    ) + change(
        match p.agc_threshold {
            Some(v) => Some(Ctrl::AgcThreshold(v)),
            None => None,
        },
    ) + change(
        match p.attenuator {
            Some(v) => Some(Ctrl::Attenuator(v)),
            None => None,
        },
    ) + change(
        match p.lna {
            Some(v) => Some(Ctrl::Lna(v)),
            None => None,
        },
    ) + change(
        match p.bias_tee {
            Some(v) => Some(Ctrl::BiasTee(v)),
            None => None,
        },
    )
}

/// Shutdown survives anything that arrives around it in the same batch.
pub proof fn law_shutdown_is_sticky(v: Seq<Ctrl>, k: int)
    requires
        0 <= k < v.len(),
        v[k] == Ctrl::Shutdown,
    ensures
        collapsed(v).shutdown,
    decreases v.len(),
{
    if k < v.len() - 1 {
        law_shutdown_is_sticky(v.drop_last(), k);
    }
}

/// Of several centre frequencies in a batch the last one is kept, whatever else
/// is between them.
pub proof fn law_last_center_wins(v: Seq<Ctrl>, k: int, hz: i64)
    requires
        0 <= k < v.len(),
        v[k] == Ctrl::Center(hz),
        forall|j: int| k < j < v.len() ==> !((#[trigger] v[j]) is Center),
    ensures
        collapsed(v).center == Some(hz),
    decreases v.len(),
{
    if k < v.len() - 1 {
        assert(!(v[v.len() - 1] is Center));
        law_last_center_wins(v.drop_last(), k, hz);
    }
}

/// Throughput and health accounting. A window is what happened since the last
/// throughput line.
#[derive(Clone, Copy, Debug, PartialEq, Eq, Structural)]
pub struct RxStats {
    pub nominal_hz: u64,
    /// When the first sample arrived: the time before it is device setup, and
    /// counting it would bias the clock estimate low.
    pub first_iq: Option<u64>,
    pub since: u64,
    pub win_samples: u64,
    pub win_dropped: u64,
    /// Discarded while the engine was not reading because the station was
    /// transmitting. Counted apart because it is not a fault.
    pub win_keyed: u64,
    pub win_errors: u64,
    pub total_samples: u64,
    pub total_dropped: u64,
    pub total_keyed: u64,
    pub total_errors: u64,
    pub stalls: u64,
}

/// The throughput of one window.
#[derive(Clone, Copy, Debug, PartialEq, Eq, Structural)]
pub struct Window {
    pub samples: u64,
    pub dropped: u64,
    pub keyed: u64,
    pub errors: u64,
    /// How long it was, in microseconds.
    pub time: u64,
    /// Whether it is worth a warning.
    pub faulty: bool,
}

/// A count that stops at its end.
pub open spec fn plus(a: u64, b: int) -> u64 {
    if a + b > u64::MAX {
        u64::MAX
    } else {
        (a + b) as u64
    }
}

/// What the accounts are after a block of pairs arrived.
pub open spec fn counted(s: RxStats, pairs: int, now: u64) -> RxStats {
    RxStats {
        win_samples: plus(s.win_samples, pairs),
        first_iq: if s.first_iq is None {
            Some(now)
        } else {
            s.first_iq
        },
        total_samples: if s.first_iq is None {
            s.total_samples
        } else {
            plus(s.total_samples, pairs)
        },
        ..s
    }
}

/// What the accounts are after pairs did not fit: a fault, or the cost of an
/// over.
pub open spec fn lost(s: RxStats, pairs: int, paused: bool) -> RxStats {
    if paused {
        RxStats {
            win_keyed: plus(s.win_keyed, pairs),
            total_keyed: plus(s.total_keyed, pairs),
            ..s
        }
    } else {
        RxStats {
            win_dropped: plus(s.win_dropped, pairs),
            total_dropped: plus(s.total_dropped, pairs),
            ..s
        }
    }
}

/// What the accounts are after an error.
pub open spec fn erred(s: RxStats) -> RxStats {
    RxStats { win_errors: plus(s.win_errors, 1), total_errors: plus(s.total_errors, 1), ..s }
}

/// What the accounts are after the endpoint stalled.
pub open spec fn stalled(s: RxStats) -> RxStats {
    erred(RxStats { stalls: plus(s.stalls, 1), ..s })
}

impl RxStats {
    pub fn new(nominal_hz: u64, now: u64) -> (r: RxStats)
        ensures
            r == (RxStats {
                nominal_hz,
                first_iq: None,
                since: now,
                win_samples: 0,
                win_dropped: 0,
                win_keyed: 0,
                win_errors: 0,
                total_samples: 0,
                total_dropped: 0,
                total_keyed: 0,
                total_errors: 0,
                stalls: 0,
            }),
    {
        RxStats {
            nominal_hz,
            first_iq: None,
            since: now,
            win_samples: 0,
            win_dropped: 0,
            win_keyed: 0,
            win_errors: 0,
            total_samples: 0,
            total_dropped: 0,
            total_keyed: 0,
            total_errors: 0,
            stalls: 0,
        }
    }

    /// A block of pairs arrived. The clock starts at the first block, which is
    /// not counted: it spans an unknown interval reaching back into setup.
    pub fn on_iq(&mut self, pairs: usize, now: u64)
        ensures
            *final(self) == counted(*old(self), pairs as int, now),
    {
        self.win_samples = self.win_samples.saturating_add(pairs as u64);
        match self.first_iq {
            None => {
                self.first_iq = Some(now);
            },
            Some(_) => {
                self.total_samples = self.total_samples.saturating_add(pairs as u64);
            },
        }
    }

    pub fn on_dropped(&mut self, pairs: usize)
        ensures
            *final(self) == lost(*old(self), pairs as int, false),
    {
        self.win_dropped = self.win_dropped.saturating_add(pairs as u64);
        self.total_dropped = self.total_dropped.saturating_add(pairs as u64);
    }

    /// Pairs discarded because the ring was full while the station was
    /// transmitting: expected, and no overrun.
    pub fn on_dropped_keyed(&mut self, pairs: usize)
        ensures
            *final(self) == lost(*old(self), pairs as int, true),
    {
        self.win_keyed = self.win_keyed.saturating_add(pairs as u64);
        self.total_keyed = self.total_keyed.saturating_add(pairs as u64);
    }

    /// What was thrown away while the station was transmitting, phrased so it
    /// cannot be read as a fault. Empty when the operator did not key up.
    pub fn keyed_note(&self) -> (r: String)
        ensures
            r@ == (if self.win_keyed == 0 {
                Seq::empty()
            } else {
                "; "@ + text::dec(self.win_keyed as nat)
                    + " sample(s) discarded while keyed (expected — this receiver is not read during an over); "@
                    + text::dec(self.total_keyed as nat) + " discarded while keyed in total"@
            }),
    {
        let mut s = String::new();
        if self.win_keyed == 0 {
            return s;
        }
        s.append("; ");
        text::push_dec(&mut s, self.win_keyed);
        s.append(
            " sample(s) discarded while keyed (expected — this receiver is not read during an over); ",
        );
        text::push_dec(&mut s, self.total_keyed);
        s.append(" discarded while keyed in total");
        assert(s@ =~= "; "@ + text::dec(self.win_keyed as nat)
            + " sample(s) discarded while keyed (expected — this receiver is not read during an over); "@
            + text::dec(self.total_keyed as nat) + " discarded while keyed in total"@);
        s
    }

    pub fn on_error(&mut self)
        ensures
            *final(self) == (RxStats {
                win_errors: plus(old(self).win_errors, 1),
                total_errors: plus(old(self).total_errors, 1),
                ..*old(self)
            }),
    {
        self.win_errors = self.win_errors.saturating_add(1);
        self.total_errors = self.total_errors.saturating_add(1);
    }

    pub fn on_stall(&mut self)
        ensures
            *final(self) == (RxStats {
                stalls: plus(old(self).stalls, 1),
                win_errors: plus(old(self).win_errors, 1),
                total_errors: plus(old(self).total_errors, 1),
                ..*old(self)
            }),
    {
        self.stalls = self.stalls.saturating_add(1);
        self.on_error();
    }

    /// The samples and the time that the receiver's clock is measured from, once
    /// that means something.
    pub fn clock_measure(&self, now: u64) -> (r: Option<(u64, u64)>)
        ensures
            r == (match self.first_iq {
                Some(t) => if now - t >= CLOCK_MIN_TIME && self.total_samples > 0
                    && self.nominal_hz > 0 {
                    Some((self.total_samples, (now - t) as u64))
                } else {
                    None
                },
                None => None,
            }),
    {
        match self.first_iq {
            Some(t) => {
                let dt = now.saturating_sub(t);
                if dt < CLOCK_MIN_TIME || self.total_samples == 0 || self.nominal_hz == 0 {
                    None
                } else {
                    Some((self.total_samples, dt))
                }
            },
            None => None,
        }
    }

    /// The totals of a session.
    pub fn totals(&self) -> (r: String)
        ensures
            r@ == text::dec(self.total_samples as nat) + " samples, "@ + text::dec(
                self.total_dropped as nat,
            ) + " dropped, "@ + text::dec(self.total_errors as nat) + " transfer errors, "@
                + text::dec(self.stalls as nat) + " endpoint stalls"@,
    {
        let mut s = String::new();
        text::push_dec(&mut s, self.total_samples);
        s.append(" samples, ");
        text::push_dec(&mut s, self.total_dropped);
        s.append(" dropped, ");
        text::push_dec(&mut s, self.total_errors);
        s.append(" transfer errors, ");
        text::push_dec(&mut s, self.stalls);
        s.append(" endpoint stalls");
        assert(s@ =~= text::dec(self.total_samples as nat) + " samples, "@ + text::dec(
            self.total_dropped as nat,
        ) + " dropped, "@ + text::dec(self.total_errors as nat) + " transfer errors, "@ + text::dec(
            self.stalls as nat,
        ) + " endpoint stalls"@);
        s
    }

    /// The throughput of the window that ends now, if it is time for one; a new
    /// one starts. Only dropped samples and errors make it faulty.
    pub fn tick(&mut self, now: u64) -> (r: Option<Window>)
        ensures
            ({
                let dt = now - old(self).since;
                if dt < STATS_INTERVAL {
                    r is None && *final(self) == *old(self)
                } else {
                    &&& r == Some(
                        Window {
                            samples: old(self).win_samples,
                            dropped: old(self).win_dropped,
                            keyed: old(self).win_keyed,
                            errors: old(self).win_errors,
                            time: dt as u64,
                            faulty: old(self).win_dropped > 0 || old(self).win_errors > 0,
                        },
                    )
                    &&& *final(self) == (RxStats {
                        since: now,
                        win_samples: 0,
                        win_dropped: 0,
                        win_keyed: 0,
                        win_errors: 0,
                        ..*old(self)
                    })
                }
            }),
    {
        let dt = now.saturating_sub(self.since);
        if dt < STATS_INTERVAL {
            return None;
        }
        let w = Window {
            samples: self.win_samples,
            dropped: self.win_dropped,
            keyed: self.win_keyed,
            errors: self.win_errors,
            time: dt,
            faulty: self.win_dropped > 0 || self.win_errors > 0,
        };
        self.since = now;
        self.win_samples = 0;
        self.win_dropped = 0;
        self.win_keyed = 0;
        self.win_errors = 0;
        Some(w)
    }
}

/// Push interleaved I/Q into the RX ring, keeping I and Q paired.
///
/// All-or-nothing: if the ring cannot take the whole block it is dropped whole,
/// since pushing what fits would leave the ring one number out of step and swap
/// I with Q for the rest of the session. `paused` says whether the engine has
/// stopped reading for an over, which decides how a full ring is accounted for.
pub fn push_iq(rx: &mut rtrb::Producer<u32>, iq: &[u32], stats: &mut RxStats, paused: bool)
    ensures
        ring::capacity(*final(rx)) == ring::capacity(*old(rx)),
        ({
            let pairs = iq@.len() as int / 2;
            ||| ring::written(*final(rx)) == ring::written(*old(rx)) + iq@ && *final(stats)
                == *old(stats)
            ||| ring::written(*final(rx)) == ring::written(*old(rx)) && *final(stats) == lost(
                *old(stats),
                pairs,
                paused,
            )
        }),
        iq@.len() > ring::capacity(*old(rx)) ==> ring::written(*final(rx)) == ring::written(
            *old(rx),
        ),
        ring::written(*old(rx)).len() + iq@.len() <= ring::capacity(*old(rx)) ==> ring::written(
            *final(rx),
        ) == ring::written(*old(rx)) + iq@,
{
    if !ring::push_entire(rx, iq) {
        if paused {
            stats.on_dropped_keyed(iq.len() / 2);
        } else {
            stats.on_dropped(iq.len() / 2);
        }
    }
}

/// Whether all of what was written keeps I and Q paired.
pub open spec fn paired(s: Seq<u32>) -> bool {
    s.len() % 2 == 0
}

/// Whatever the ring does with a block of pairs, what it holds stays paired.
pub proof fn law_pairs_stay_paired(before: Seq<u32>, block: Seq<u32>, after: Seq<u32>)
    requires
        paired(before),
        paired(block),
        after == before + block || after == before,
    ensures
        paired(after),
{
}

/// How many of `here` numbers are read into `room`: whole pairs.
pub open spec fn pairs_into(here: int, room: int) -> int {
    let most = if here < room {
        here
    } else {
        room
    };
    most - most % 2
}

/// Drain up to `room` interleaved numbers. Always an even count, so the stream
/// can never come out of alignment; empty means nothing is available yet. What
/// was there when it was looked at is what comes out and what is left.
pub fn rx_read(rx: &mut rtrb::Consumer<u32>, room: usize) -> (out: Vec<u32>)
    ensures
        out@.len() == pairs_into((ring::waiting(*final(rx)) + out@.len()) as int, room as int),
        ring::taken(*final(rx)) == ring::taken(*old(rx)) + out@,
{
    let here: usize = ring::slots(rx);
    let most: usize = if here < room { here } else { room };
    let take: usize = most - most % 2;
    let ghost before = ring::taken(*rx);
    let mut out: Vec<u32> = Vec::new();
    assert(before + out@ =~= before);
    while out.len() < take
        invariant
            out@.len() <= take,
            take <= here,
            ring::waiting(*rx) + out@.len() == here,
            ring::taken(*rx) == before + out@,
        decreases take - out@.len(),
    {
        let ghost got = out@;
        match ring::pop(rx) {
            Some(v) => {
                out.push(v);
                assert(before + out@ =~= (before + got).push(v));
            },
            None => {},
        }
    }
    out
}

/// The image balancer's converged phase and amplitude, in millionths.
#[derive(Clone, Copy, Debug, PartialEq, Eq, Structural)]
pub struct Balance {
    pub phase_ppm: i64,
    pub amplitude_ppm: i64,
    /// How many times the balancer has updated since the last retune.
    pub estimates: u64,
}

impl Balance {
    /// Nothing has converged yet.
    pub fn new() -> (r: Balance)
        ensures
            r == (Balance { phase_ppm: i64::MIN, amplitude_ppm: i64::MIN, estimates: 0 }),
    {
        Balance { phase_ppm: i64::MIN, amplitude_ppm: i64::MIN, estimates: 0 }
    }

    /// Takes over the balancer's state, once it has one.
    pub fn publish(&mut self, estimates: u64, phase_ppm: i64, amplitude_ppm: i64)
        ensures
            *final(self) == (if estimates == 0 {
                *old(self)
            } else {
                Balance { phase_ppm, amplitude_ppm, estimates }
            }),
    {
        if estimates == 0 {
            return ;
        }
        self.phase_ppm = phase_ppm;
        self.amplitude_ppm = amplitude_ppm;
        self.estimates = estimates;
    }

    /// The correction that was settled on and how many updates went into it, or
    /// nothing before the first.
    pub fn state(&self) -> (r: Option<(i64, i64, u64)>)
        ensures
            r == (if self.phase_ppm == i64::MIN || self.amplitude_ppm == i64::MIN {
                None
            } else {
                Some((self.phase_ppm, self.amplitude_ppm, self.estimates))
            }),
    {
        if self.phase_ppm == i64::MIN || self.amplitude_ppm == i64::MIN {
            return None;
        }
        Some((self.phase_ppm, self.amplitude_ppm, self.estimates))
    }
}

} // verus!
