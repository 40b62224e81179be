//! One connection to a radio: which frame goes out when, and which of the
//! radio's answers are worth passing on.
//!
//! [`Session`] holds what the driver remembers. Each of its methods takes one
//! thing that happened and says what to do about it; the driver asks the
//! radio's own framing for the bytes and writes them. Times are microseconds
//! from any fixed moment, frequencies thousandths of a hertz, powers millionths
//! of full scale.
use crate::cat::config;
use crate::cat::config::{CatConfig, LineState, Mode, PttMethod};
use vstd::prelude::*;

verus! {

broadcast use vstd::seq::group_seq_axioms;

/// How long after a key-down or unkey the rig's own transmit state is ignored.
pub const PTT_SETTLE: u64 = 600_000;

/// How long a rig that has stopped answering the transmit read is still
/// believed to be transmitting.
pub const RIG_TX_MAX_AGE: u64 = 2_000_000;

/// How often the dial and mode are still read on a rig that reports its own
/// changes unasked.
pub const PUSHED_POLL_PERIOD: u64 = 3_000_000;

/// A scope that has sent nothing for this long has stopped.
pub const SCOPE_STALL: u64 = 3_000_000;

/// How soon after a stall to ask the radio again, and the ceiling the interval
/// backs off to while it stays quiet.
pub const SCOPE_RETRY: u64 = 2_000_000;

pub const SCOPE_RETRY_MAX: u64 = 30_000_000;

/// The shortest gap left between two frames written to the rig.
pub const FRAME_GAP: u64 = 30_000;

/// Shortest gap between two output-power writes.
pub const POWER_GAP: u64 = 100_000;

/// Shortest gap between two receive-filter writes.
pub const FILTER_GAP: u64 = 250_000;

/// Shortest gap between two frequency writes.
pub const FREQ_GAP: u64 = 50_000;

/// How long after a key-down a refusal is put down to it.
pub const REFUSAL_WINDOW: u64 = 500_000;

/// A change the rig reported or that was read back.
#[derive(Clone, Copy, Debug, PartialEq, Eq, Structural)]
pub enum CatUpdate {
    /// The dial, in thousandths of a hertz.
    Freq(i64),
    Mode(Mode),
    /// TX SWR reading, in millionths.
    Swr(i64),
    /// TX ALC reading, in millionths of the rig's own meter.
    Alc(i64),
    /// TX power-output reading, in millionths of full scale.
    Po(i64),
    /// RX S-meter reading, in millionths of a dBm.
    Signal(i64),
    /// The transmit power the rig is set to, in millionths of its maximum.
    Power(i64),
    /// Which of its antenna sockets the rig says it is receiving on, by its
    /// place in the family's list.
    Antenna(usize),
    /// The rig is transmitting under its *own* control. `true` is keyed.
    Ptt(bool),
}

/// A receive filter: the mode it applies to and the audio-band edges.
#[derive(Clone, Copy, Debug, PartialEq, Eq, Structural)]
pub struct Filter {
    pub mode: Mode,
    pub lo: i64,
    pub hi: i64,
}

/// What is to be written to the radio next.
#[derive(Clone, Copy, Debug, PartialEq, Eq, Structural)]
pub enum Write {
    Freq(i64),
    Power(i64),
    Filter(Filter),
    /// The transmit command of the family.
    Ptt(bool),
    /// The RTS and DTR lines.
    Rts(bool),
    Dtr(bool),
    /// The dial and the mode, or the dial alone.
    Poll,
    Dial,
    /// The meters that apply while transmitting, or while receiving.
    TxMeters,
    RxMeters,
    /// Whether the rig is transmitting.
    TxState,
    /// The enables of the spectrum scope.
    Scope,
    /// What is written once when the link opens.
    OpenRequests,
    ClearOffsets,
    ReadPower,
    ReadAntenna,
}

/// What is passed on to the application.
#[derive(Clone, Copy, Debug, PartialEq, Eq, Structural)]
pub enum Report {
    Update(CatUpdate),
    /// The latest of each transmit meter, together.
    Telemetry { swr: Option<i64>, alc: Option<i64>, po: Option<i64> },
    Signal(i64),
}

/// What mode the rig is in, held as the frame that would put it there — either
/// because it was told so, or because it said so on its last poll.
pub struct ModeMemory(pub Option<Vec<u8>>);

impl ModeMemory {
    /// The frame that is remembered.
    pub open spec fn frame(self) -> Option<Seq<u8>> {
        match self.0 {
            None => None,
            Some(f) => Some(f@),
        }
    }

    /// Nothing is known about the rig yet.
    pub fn new() -> (r: Self)
        ensures
            r.frame() == None::<Seq<u8>>,
    {
        ModeMemory(None)
    }

    fn holds(&self, frame: &[u8]) -> (r: bool)
        ensures
            r == (self.frame() == Some(frame@)),
    {
        match &self.0 {
            None => false,
            Some(f) => crate::text::same_bytes(f.as_slice(), frame),
        }
    }

    /// True when `frame` still needs sending — the rig is in some other mode,
    /// or has not said which. Records it as sent.
    pub fn needs(&mut self, frame: &[u8]) -> (r: bool)
        ensures
            r == (old(self).frame() != Some(frame@)),
            final(self).frame() == Some(frame@),
    {
        if self.holds(frame) {
            return false;
        }
        self.0 = Some(vstd::slice::slice_to_vec(frame));
        true
    }

    /// The rig reported the mode `frame` would have set. That is where it is,
    /// whoever put it there.
    pub fn reported(&mut self, frame: &[u8])
        ensures
            final(self).frame() == Some(frame@),
    {
        if !self.holds(frame) {
            self.0 = Some(vstd::slice::slice_to_vec(frame));
        }
    }
}

impl Default for ModeMemory {
    fn default() -> (r: Self)
        ensures
            r.frame() == None::<Seq<u8>>,
    {
        ModeMemory(None)
    }
}

/// Where to put the dial back after a mode change moved it, or `None` when
/// there is nothing to put back: what was last *set* comes first, and only when
/// nothing has been set does the last frequency the rig *reported* stand in.
pub fn dial_to_restore(moves: bool, last_sent: Option<i64>, reported: Option<i64>) -> (r: Option<
    i64,
>)
    ensures
        r == (if !moves {
            None
        } else if last_sent is Some {
            last_sent
        } else {
            reported
        }),
{
    if !moves {
        return None;
    }
    match last_sent {
        Some(hz) => Some(hz),
        None => reported,
    }
}

/// What the driver remembers of one connection.
pub struct Session {
    pub ptt_method: PttMethod,
    pub poll_period: u64,
    pub mode_period: u64,
    pub meter_period: u64,
    /// Whether we are keying the rig.
    pub ptt: bool,
    /// When we last keyed or unkeyed it.
    pub ptt_edge: Option<u64>,
    /// When a CAT key-down was last written.
    pub ptt_written: Option<u64>,
    pub pending_freq: Option<i64>,
    pub last_sent_freq: Option<i64>,
    pub freq_deadline: u64,
    pub pending_power: Option<i64>,
    pub last_sent_power: Option<i64>,
    pub power_deadline: u64,
    pub pending_filter: Option<Filter>,
    pub last_sent_filter: Option<Filter>,
    pub filter_deadline: u64,
    pub last_sent_antenna: Option<usize>,
    pub mode_memory: ModeMemory,
    /// The dial and mode as last passed on.
    pub emit_freq: Option<i64>,
    pub emit_mode: Option<Mode>,
    /// The rig's own transmit state as last passed on. `None` = never answered.
    pub emit_rig_tx: Option<bool>,
    pub last_tx_reply: u64,
    pub next_poll: u64,
    pub next_mode_poll: u64,
    pub next_meter: u64,
    pub scope_wanted: bool,
    pub last_sweep: u64,
    pub next_scope_nudge: u64,
    pub scope_retry: u64,
    /// What is known beyond one connection: whether the stand-down of the poll
    /// has been announced, and the latest of each transmit meter.
    pub announced_push: bool,
    pub last_swr: Option<i64>,
    pub last_alc: Option<i64>,
    pub last_po: Option<i64>,
}

/// `a + b`, held at the end of time.
pub open spec fn later(a: u64, b: u64) -> u64 {
    if a + b > u64::MAX {
        u64::MAX
    } else {
        (a + b) as u64
    }
}

/// How long ago `then` was.
pub open spec fn since(now: u64, then: u64) -> int {
    config::max(now - then, 0)
}

/// What is written when a link opens: the forced control lines, unless the
/// line is the PTT method; the PTT line let go; then the introductions.
pub open spec fn opening_of(cfg: CatConfig) -> Seq<Write> {
    forced(cfg.ptt != PttMethod::Rts, cfg.force_rts, true) + forced(
        cfg.ptt != PttMethod::Dtr,
        cfg.force_dtr,
        false,
    ) + (match cfg.ptt {
        PttMethod::Rts => seq![Write::Rts(false)],
        PttMethod::Dtr => seq![Write::Dtr(false)],
        _ => seq![],
    }) + seq![
        Write::OpenRequests,
        Write::ClearOffsets,
        Write::ReadPower,
        Write::ReadAntenna,
        Write::Scope,
    ]
}

/// A control line forced to a level.
pub open spec fn forced(free: bool, line: LineState, rts: bool) -> Seq<Write> {
    if !free || line == LineState::Free {
        seq![]
    } else if rts {
        seq![Write::Rts(line == LineState::High)]
    } else {
        seq![Write::Dtr(line == LineState::High)]
    }
}

fn push_forced(out: &mut Vec<Write>, free: bool, line: LineState, rts: bool)
    ensures
        final(out)@ == old(out)@ + forced(free, line, rts),
{
    if free && line != LineState::Free {
        let level = line == LineState::High;
        if rts {
            out.push(Write::Rts(level));
        } else {
            out.push(Write::Dtr(level));
        }
    }
    assert(out@ =~= old(out)@ + forced(free, line, rts));
}

/// What is written when a link opens, in order.
pub fn opening(cfg: &CatConfig) -> (out: Vec<Write>)
    ensures
        out@ == opening_of(*cfg),
{
    let mut out: Vec<Write> = Vec::new();
    push_forced(&mut out, cfg.ptt != PttMethod::Rts, cfg.force_rts, true);
    push_forced(&mut out, cfg.ptt != PttMethod::Dtr, cfg.force_dtr, false);
    match cfg.ptt {
        PttMethod::Rts => out.push(Write::Rts(false)),
        PttMethod::Dtr => out.push(Write::Dtr(false)),
        _ => {},
    }
    out.push(Write::OpenRequests);
    out.push(Write::ClearOffsets);
    out.push(Write::ReadPower);
    out.push(Write::ReadAntenna);
    out.push(Write::Scope);
    assert(out@ =~= opening_of(*cfg));
    out
}

/// The writes of a key-down or an unkey.
pub open spec fn key_writes(s: Session, on: bool) -> Seq<Write> {
    (if on && s.pending_power is Some && s.last_sent_power != s.pending_power {
        seq![Write::Power(s.pending_power->0)]
    } else {
        seq![]
    }) + (if on && s.pending_freq is Some && s.last_sent_freq != s.pending_freq {
        seq![Write::Freq(s.pending_freq->0)]
    } else {
        seq![]
    }) + (match s.ptt_method {
        PttMethod::Vox => seq![],
        PttMethod::Rts => seq![Write::Rts(on)],
        PttMethod::Dtr => seq![Write::Dtr(on)],
        PttMethod::Cat => seq![Write::Ptt(on)],
    })
}

/// What is left of a session after a key-down or an unkey.
pub open spec fn keyed(s: Session, on: bool, now: u64) -> Session {
    let flush = on && s.pending_freq is Some && s.last_sent_freq != s.pending_freq;
    Session {
        ptt: on,
        ptt_edge: Some(now),
        ptt_written: if s.ptt_method != PttMethod::Cat {
            s.ptt_written
        } else if on {
            Some(now)
        } else {
            None
        },
        pending_power: if on {
            None
        } else {
            s.pending_power
        },
        last_sent_power: if on && s.pending_power is Some {
            s.pending_power
        } else {
            s.last_sent_power
        },
        pending_freq: if on {
            None
        } else {
            s.pending_freq
        },
        last_sent_freq: if flush {
            s.pending_freq
        } else {
            s.last_sent_freq
        },
        emit_freq: if flush {
            s.pending_freq
        } else {
            s.emit_freq
        },
        freq_deadline: if flush {
            later(now, FREQ_GAP)
        } else {
            s.freq_deadline
        },
        next_meter: now,
        last_swr: if on {
            s.last_swr
        } else {
            None
        },
        last_alc: if on {
            s.last_alc
        } else {
            None
        },
        last_po: if on {
            s.last_po
        } else {
            None
        },
        ..s
    }
}

/// Whether a rate-limited power is due.
pub open spec fn power_is_due(s: Session, now: u64) -> bool {
    s.pending_power is Some && now >= s.power_deadline
}

pub open spec fn filter_is_due(s: Session, now: u64) -> bool {
    s.pending_filter is Some && !s.ptt && now >= s.filter_deadline
}

pub open spec fn freq_is_due(s: Session, now: u64) -> bool {
    s.pending_freq is Some && s.last_sent_freq != s.pending_freq && now >= s.freq_deadline
}

/// Whether somebody is transmitting: we are, or the rig says it is.
pub open spec fn on_air(s: Session) -> bool {
    s.ptt || s.emit_rig_tx == Some(true)
}

/// Whether the scope has been quiet for long enough to be asked again.
pub open spec fn scope_is_stalled(s: Session, now: u64) -> bool {
    &&& s.scope_wanted
    &&& !on_air(s)
    &&& since(now, s.last_sweep) > SCOPE_STALL
    &&& now >= s.next_scope_nudge
}

/// The power that is written now, if any.
pub open spec fn power_write(s: Session, now: u64) -> Option<Write> {
    if power_is_due(s, now) && s.last_sent_power != s.pending_power {
        Some(Write::Power(s.pending_power->0))
    } else {
        None
    }
}

pub open spec fn power_after(s: Session, now: u64) -> Session {
    if power_is_due(s, now) {
        Session {
            pending_power: None,
            power_deadline: later(now, POWER_GAP),
            last_sent_power: s.pending_power,
            ..s
        }
    } else {
        s
    }
}

/// The filter that is written now, if any.
pub open spec fn filter_write(s: Session, now: u64) -> Option<Write> {
    if filter_is_due(s, now) && s.last_sent_filter != s.pending_filter {
        Some(Write::Filter(s.pending_filter->0))
    } else {
        None
    }
}

pub open spec fn filter_after(s: Session, now: u64) -> Session {
    if filter_is_due(s, now) {
        Session {
            pending_filter: None,
            filter_deadline: later(now, FILTER_GAP),
            last_sent_filter: s.pending_filter,
            ..s
        }
    } else {
        s
    }
}

/// The frequency that is written now, if any.
pub open spec fn freq_write(s: Session, now: u64) -> Option<Write> {
    if freq_is_due(s, now) {
        Some(Write::Freq(s.pending_freq->0))
    } else {
        None
    }
}

pub open spec fn freq_after(s: Session, now: u64) -> Session {
    if freq_is_due(s, now) {
        Session {
            pending_freq: None,
            last_sent_freq: s.pending_freq,
            emit_freq: s.pending_freq,
            freq_deadline: later(now, FREQ_GAP),
            ..s
        }
    } else {
        s
    }
}

/// Whether a poll at this moment carries the mode.
pub open spec fn polls_mode(s: Session, now: u64, pushes: bool) -> bool {
    pushes || now >= s.next_mode_poll
}

/// The poll that is written now, if any.
pub open spec fn poll_write(s: Session, now: u64, pushes: bool) -> Option<Write> {
    if now < s.next_poll {
        None
    } else if polls_mode(s, now, pushes) {
        Some(Write::Poll)
    } else {
        Some(Write::Dial)
    }
}

pub open spec fn poll_after(s: Session, now: u64, pushes: bool) -> Session {
    if now < s.next_poll {
        s
    } else {
        Session {
            announced_push: pushes,
            next_poll: later(
                now,
                if pushes && PUSHED_POLL_PERIOD > s.poll_period {
                    PUSHED_POLL_PERIOD
                } else {
                    s.poll_period
                },
            ),
            next_mode_poll: if polls_mode(s, now, pushes) {
                later(now, s.mode_period)
            } else {
                s.next_mode_poll
            },
            ..s
        }
    }
}

/// The meter reads that are written now.
pub open spec fn meter_writes(s: Session, now: u64) -> Seq<Write> {
    if now < s.next_meter {
        seq![]
    } else {
        seq![
            if on_air(s) {
                Write::TxMeters
            } else {
                Write::RxMeters
            },
        ] + (if s.ptt {
            seq![]
        } else {
            seq![Write::TxState]
        })
    }
}

pub open spec fn meter_after(s: Session, now: u64) -> Session {
    if now < s.next_meter {
        s
    } else {
        Session {
            next_meter: later(
                now,
                if on_air(s) {
                    config::METER_FLOOR
                } else {
                    s.meter_period
                },
            ),
            ..s
        }
    }
}

pub open spec fn scope_write(s: Session, now: u64) -> Option<Write> {
    if scope_is_stalled(s, now) {
        Some(Write::Scope)
    } else {
        None
    }
}

pub open spec fn scope_after(s: Session, now: u64) -> Session {
    if s.scope_wanted && on_air(s) {
        Session { last_sweep: now, ..s }
    } else if scope_is_stalled(s, now) {
        Session {
            next_scope_nudge: later(now, s.scope_retry),
            scope_retry: config::min(2 * s.scope_retry, SCOPE_RETRY_MAX as int) as u64,
            ..s
        }
    } else {
        s
    }
}

/// A write that may be there, as a list.
pub open spec fn some(w: Option<Write>) -> Seq<Write> {
    match w {
        Some(x) => seq![x],
        None => seq![],
    }
}

fn push_some(out: &mut Vec<Write>, w: Option<Write>)
    ensures
        final(out)@ == old(out)@ + some(w),
{
    match w {
        Some(x) => out.push(x),
        None => {},
    }
    assert(out@ =~= old(out)@ + some(w));
}

/// Whether an answer about the rig's transmit state may describe the other
/// side of one of our own edges.
pub open spec fn ours(s: Session, now: u64) -> bool {
    s.ptt || (s.ptt_edge matches Some(t) && since(now, t) < PTT_SETTLE)
}

/// Whether two dials are a hertz or more apart.
pub open spec fn dial_moved(from: Option<i64>, to: i64) -> bool {
    match from {
        None => true,
        Some(f) => f - to >= 1000 || to - f >= 1000,
    }
}

/// What is passed on of an update: only genuine changes of the dial, the mode
/// and the transmit state, and every reading of a meter.
pub open spec fn report_of(s: Session, u: CatUpdate, now: u64) -> Option<Report> {
    match u {
        CatUpdate::Swr(v) => Some(
            Report::Telemetry { swr: Some(v), alc: s.last_alc, po: s.last_po },
        ),
        CatUpdate::Alc(v) => Some(
            Report::Telemetry { swr: s.last_swr, alc: Some(v), po: s.last_po },
        ),
        CatUpdate::Po(v) => Some(
            Report::Telemetry { swr: s.last_swr, alc: s.last_alc, po: Some(v) },
        ),
        CatUpdate::Signal(v) => Some(Report::Signal(v)),
        CatUpdate::Ptt(on) => if !ours(s, now) && s.emit_rig_tx != Some(on) {
            Some(Report::Update(u))
        } else {
            None
        },
        CatUpdate::Power(_) => Some(Report::Update(u)),
        CatUpdate::Antenna(a) => if s.last_sent_antenna is None || s.last_sent_antenna == Some(a) {
            Some(Report::Update(u))
        } else {
            None
        },
        CatUpdate::Freq(hz) => if dial_moved(s.emit_freq, hz) {
            Some(Report::Update(u))
        } else {
            None
        },
        CatUpdate::Mode(m) => if s.emit_mode != Some(m) {
            Some(Report::Update(u))
        } else {
            None
        },
    }
}

/// What is remembered of an update, but for the frame of a mode.
pub open spec fn updated(s: Session, u: CatUpdate, now: u64) -> Session {
    match u {
        CatUpdate::Swr(v) => Session { last_swr: Some(v), ..s },
        CatUpdate::Alc(v) => Session { last_alc: Some(v), ..s },
        CatUpdate::Po(v) => Session { last_po: Some(v), ..s },
        CatUpdate::Signal(_) => s,
        CatUpdate::Ptt(on) => Session {
            last_tx_reply: now,
            emit_rig_tx: if ours(s, now) {
                Some(false)
            } else {
                Some(on)
            },
            ..s
        },
        CatUpdate::Power(level) => Session { last_sent_power: Some(level), ..s },
        CatUpdate::Antenna(_) => s,
        CatUpdate::Freq(hz) => if dial_moved(s.emit_freq, hz) {
            Session { emit_freq: Some(hz), ..s }
        } else {
            s
        },
        CatUpdate::Mode(m) => Session { emit_mode: Some(m), ..s },
    }
}

impl Session {
    /// A fresh connection, just opened. `scope_wanted` says whether the family
    /// had scope enables to write; `last` is the session before it, if any.
    pub fn open(cfg: &CatConfig, now: u64, scope_wanted: bool, last: Option<Session>) -> (r: Self)
        ensures
            r.ptt_method == cfg.ptt,
            r.poll_period == config::poll_period_of(cfg.poll_millihz as int),
            r.mode_period == config::mode_poll_period_of(cfg.poll_millihz as int),
            r.meter_period == config::meter_period_of(cfg.poll_millihz as int),
            !r.ptt,
            r.ptt_edge is None,
            r.ptt_written is None,
            r.pending_freq is None && r.last_sent_freq is None && r.freq_deadline == now,
            r.pending_power is None && r.last_sent_power is None && r.power_deadline == now,
            r.pending_filter is None && r.last_sent_filter is None && r.filter_deadline == now,
            r.last_sent_antenna is None,
            r.mode_memory.frame() is None,
            r.emit_freq is None && r.emit_mode is None && r.emit_rig_tx is None,
            r.last_tx_reply == now,
            r.next_poll == now,
            r.next_mode_poll == now,
            r.next_meter == later(now, (r.meter_period / 2) as u64),
            r.scope_wanted == scope_wanted,
            r.last_sweep == now,
            r.next_scope_nudge == later(now, SCOPE_STALL),
            r.scope_retry == SCOPE_RETRY,
            r.announced_push == (last matches Some(l) && l.announced_push),
            r.last_swr == (match last {
                Some(l) => l.last_swr,
                None => None,
            }),
            r.last_alc == (match last {
                Some(l) => l.last_alc,
                None => None,
            }),
            r.last_po == (match last {
                Some(l) => l.last_po,
                None => None,
            }),
    {
        let meter_period = config::meter_period(cfg);
        let (announced_push, last_swr, last_alc, last_po) = match last {
            Some(l) => (l.announced_push, l.last_swr, l.last_alc, l.last_po),
            None => (false, None, None, None),
        };
        Session {
            ptt_method: cfg.ptt,
            poll_period: config::poll_period(cfg),
            mode_period: config::mode_poll_period(cfg),
            meter_period,
            ptt: false,
            ptt_edge: None,
            ptt_written: None,
            pending_freq: None,
            last_sent_freq: None,
            freq_deadline: now,
            pending_power: None,
            last_sent_power: None,
            power_deadline: now,
            pending_filter: None,
            last_sent_filter: None,
            filter_deadline: now,
            last_sent_antenna: None,
            mode_memory: ModeMemory::new(),
            emit_freq: None,
            emit_mode: None,
            emit_rig_tx: None,
            last_tx_reply: now,
            next_poll: now,
            next_mode_poll: now,
            next_meter: now.saturating_add(meter_period / 2),
            scope_wanted,
            last_sweep: now,
            next_scope_nudge: now.saturating_add(SCOPE_STALL),
            scope_retry: SCOPE_RETRY,
            announced_push,
            last_swr,
            last_alc,
            last_po,
        }
    }

    /// The operator tuned. Only the last of several waits to be written.
    pub fn want_freq(&mut self, hz: i64)
        ensures
            *final(self) == (Session { pending_freq: Some(hz), ..*old(self) }),
    {
        self.pending_freq = Some(hz);
    }

    /// The operator moved the drive.
    pub fn want_power(&mut self, level: i64)
        ensures
            *final(self) == (Session { pending_power: Some(level), ..*old(self) }),
    {
        self.pending_power = Some(level);
    }

    /// The operator moved a filter edge.
    pub fn want_filter(&mut self, f: Filter)
        ensures
            *final(self) == (Session { pending_filter: Some(f), ..*old(self) }),
    {
        self.pending_filter = Some(f);
    }

    /// The operator picked a mode, which the rig is put in by `frame`. Says
    /// whether the frame has to be written; where it has, and the rig is one
    /// whose mode changes move its dial, the dial is queued to be put back.
    pub fn want_mode(&mut self, frame: &[u8], moves_dial: bool, now: u64) -> (write: bool)
        ensures
            write == (old(self).mode_memory.frame() != Some(frame@)),
            final(self).mode_memory.frame() == Some(frame@),
            ({
                let back = if !write || !moves_dial {
                    None
                } else if old(self).last_sent_freq is Some {
                    old(self).last_sent_freq
                } else {
                    old(self).emit_freq
                };
                *final(self) == (Session {
                    mode_memory: final(self).mode_memory,
                    last_sent_freq: if back is Some {
                        None
                    } else {
                        old(self).last_sent_freq
                    },
                    pending_freq: if back is Some {
                        back
                    } else {
                        old(self).pending_freq
                    },
                    freq_deadline: if back is Some {
                        now
                    } else {
                        old(self).freq_deadline
                    },
                    ..*old(self)
                })
            }),
    {
        if !self.mode_memory.needs(frame) {
            return false;
        }
        match dial_to_restore(moves_dial, self.last_sent_freq, self.emit_freq) {
            Some(hz) => {
                self.last_sent_freq = None;
                self.pending_freq = Some(hz);
                self.freq_deadline = now;
            },
            None => {},
        }
        true
    }

    /// Key down or up. A key-down has to land at the level and on the frequency
    /// that were asked for, so what still waits of either goes out first.
    /// `Some` is the telemetry that clears the meters on an unkey.
    pub fn key(&mut self, on: bool, now: u64) -> (r: (Vec<Write>, Option<Report>))
        ensures
            r.0@ == key_writes(*old(self), on),
            r.1 == (if on {
                None
            } else {
                Some(Report::Telemetry { swr: None, alc: None, po: None })
            }),
            *final(self) == keyed(*old(self), on, now),
    {
        let mut out: Vec<Write> = Vec::new();
        if on {
            match self.pending_power {
                Some(level) => {
                    if self.last_sent_power != Some(level) {
                        out.push(Write::Power(level));
                    }
                    self.last_sent_power = Some(level);
                },
                None => {},
            }
            self.pending_power = None;
            match self.pending_freq {
                Some(hz) => {
                    if self.last_sent_freq != Some(hz) {
                        out.push(Write::Freq(hz));
                        self.last_sent_freq = Some(hz);
                        self.emit_freq = Some(hz);
                        self.freq_deadline = now.saturating_add(FREQ_GAP);
                    }
                },
                None => {},
            }
            self.pending_freq = None;
        }
        match self.ptt_method {
            PttMethod::Vox => {},
            PttMethod::Rts => out.push(Write::Rts(on)),
            PttMethod::Dtr => out.push(Write::Dtr(on)),
            PttMethod::Cat => {
                self.ptt_written = if on { Some(now) } else { None };
                out.push(Write::Ptt(on));
            },
        }
        self.ptt = on;
        self.ptt_edge = Some(now);
        self.next_meter = now;
        let mut cleared: Option<Report> = None;
        if !on {
            self.last_swr = None;
            self.last_alc = None;
            self.last_po = None;
            cleared = Some(Report::Telemetry { swr: None, alc: None, po: None });
        }
        assert(out@ =~= key_writes(*old(self), on));
        (out, cleared)
    }

    /// Text is about to go to the rig's own keyer, which keys without a PTT to
    /// hang the power off: a power that still waits goes out first.
    pub fn before_cw(&mut self) -> (r: Option<Write>)
        ensures
            *final(self) == (Session {
                pending_power: None,
                last_sent_power: if old(self).pending_power is Some {
                    old(self).pending_power
                } else {
                    old(self).last_sent_power
                },
                ..*old(self)
            }),
            r == (if old(self).pending_power is Some && old(self).last_sent_power != old(
                self,
            ).pending_power {
                Some(Write::Power(old(self).pending_power->0))
            } else {
                None
            }),
    {
        let mut out: Option<Write> = None;
        match self.pending_power {
            Some(level) => {
                if self.last_sent_power != Some(level) {
                    out = Some(Write::Power(level));
                }
                self.last_sent_power = Some(level);
            },
            None => {},
        }
        self.pending_power = None;
        out
    }

    /// An antenna was commanded. A name the family does not have produces no
    /// frames, and is not recorded as where the receiver is.
    pub fn antenna_written(&mut self, any_frame: bool, socket: Option<usize>)
        ensures
            *final(self) == (Session {
                last_sent_antenna: if any_frame && socket is Some {
                    socket
                } else {
                    old(self).last_sent_antenna
                },
                ..*old(self)
            }),
    {
        if any_frame && socket.is_some() {
            self.last_sent_antenna = socket;
        }
    }

    /// The rate-limited power write: only on change.
    pub fn power_due(&mut self, now: u64) -> (r: Option<Write>)
        ensures
            *final(self) == power_after(*old(self), now),
            r == power_write(*old(self), now),
    {
        match self.pending_power {
            Some(level) => {
                if now < self.power_deadline {
                    return None;
                }
                self.pending_power = None;
                self.power_deadline = now.saturating_add(POWER_GAP);
                if self.last_sent_power == Some(level) {
                    return None;
                }
                self.last_sent_power = Some(level);
                Some(Write::Power(level))
            },
            None => None,
        }
    }

    /// The rate-limited filter write: only on change, and never while
    /// transmitting.
    pub fn filter_due(&mut self, now: u64) -> (r: Option<Write>)
        ensures
            *final(self) == filter_after(*old(self), now),
            r == filter_write(*old(self), now),
    {
        match self.pending_filter {
            Some(f) => {
                if self.ptt || now < self.filter_deadline {
                    return None;
                }
                self.pending_filter = None;
                self.filter_deadline = now.saturating_add(FILTER_GAP);
                if self.last_sent_filter == Some(f) {
                    return None;
                }
                self.last_sent_filter = Some(f);
                Some(Write::Filter(f))
            },
            None => None,
        }
    }

    /// The debounced frequency write: only on change.
    pub fn freq_due(&mut self, now: u64) -> (r: Option<Write>)
        ensures
            *final(self) == freq_after(*old(self), now),
            r == freq_write(*old(self), now),
    {
        match self.pending_freq {
            Some(hz) => {
                if self.last_sent_freq == Some(hz) || now < self.freq_deadline {
                    return None;
                }
                self.last_sent_freq = Some(hz);
                self.emit_freq = Some(hz);
                self.pending_freq = None;
                self.freq_deadline = now.saturating_add(FREQ_GAP);
                Some(Write::Freq(hz))
            },
            None => None,
        }
    }

    /// The poll for external changes. On a rig that is telling us about them
    /// (`pushes`) it drops back to a safety net; the mode rides along every so
    /// often.
    pub fn poll_due(&mut self, now: u64, pushes: bool) -> (r: Option<Write>)
        ensures
            *final(self) == poll_after(*old(self), now, pushes),
            r == poll_write(*old(self), now, pushes),
    {
        if now < self.next_poll {
            return None;
        }
        self.announced_push = pushes;
        let period: u64 = if pushes && PUSHED_POLL_PERIOD > self.poll_period {
            PUSHED_POLL_PERIOD
        } else {
            self.poll_period
        };
        self.next_poll = now.saturating_add(period);
        if pushes || now >= self.next_mode_poll {
            self.next_mode_poll = now.saturating_add(self.mode_period);
            Some(Write::Poll)
        } else {
            Some(Write::Dial)
        }
    }

    /// The poll of the meter that applies right now, and — while we are not the
    /// ones keying — of whether the rig has keyed itself.
    pub fn meter_due(&mut self, now: u64) -> (r: Vec<Write>)
        ensures
            *final(self) == meter_after(*old(self), now),
            r@ == meter_writes(*old(self), now),
    {
        let mut out: Vec<Write> = Vec::new();
        if now < self.next_meter {
            return out;
        }
        let tx = self.ptt || self.emit_rig_tx == Some(true);
        self.next_meter = now.saturating_add(
            if tx {
                config::METER_FLOOR
            } else {
                self.meter_period
            },
        );
        out.push(
            if tx {
                Write::TxMeters
            } else {
                Write::RxMeters
            },
        );
        if !self.ptt {
            out.push(Write::TxState);
        }
        assert(out@ =~= meter_writes(*old(self), now));
        out
    }

    /// The watchdog of the scope: asks for the sweeps again when they stop,
    /// with a growing interval. An over is not a stall.
    pub fn scope_due(&mut self, now: u64) -> (r: Option<Write>)
        ensures
            *final(self) == scope_after(*old(self), now),
            r == scope_write(*old(self), now),
    {
        if !self.scope_wanted {
            return None;
        }
        if self.ptt || self.emit_rig_tx == Some(true) {
            self.last_sweep = now;
            return None;
        }
        if now.saturating_sub(self.last_sweep) > SCOPE_STALL && now >= self.next_scope_nudge {
            self.next_scope_nudge = now.saturating_add(self.scope_retry);
            self.scope_retry = if self.scope_retry >= SCOPE_RETRY_MAX / 2 {
                SCOPE_RETRY_MAX
            } else {
                self.scope_retry * 2
            };
            return Some(Write::Scope);
        }
        None
    }

    /// One pass over everything that is written by the clock: the power, the
    /// filter, the frequency, the poll, the meters and the scope, in this order.
    pub fn tick(&mut self, now: u64, pushes: bool) -> (r: Vec<Write>)
        ensures
            ({
                let s1 = power_after(*old(self), now);
                let s2 = filter_after(s1, now);
                let s3 = freq_after(s2, now);
                let s4 = poll_after(s3, now, pushes);
                let s5 = meter_after(s4, now);
                &&& *final(self) == scope_after(s5, now)
                &&& r@ == some(power_write(*old(self), now)) + some(filter_write(s1, now)) + some(
                    freq_write(s2, now),
                ) + some(poll_write(s3, now, pushes)) + meter_writes(s4, now) + some(
                    scope_write(s5, now),
                )
            }),
    {
        let mut out: Vec<Write> = Vec::new();
        let power = self.power_due(now);
        push_some(&mut out, power);
        let filter = self.filter_due(now);
        push_some(&mut out, filter);
        let freq = self.freq_due(now);
        push_some(&mut out, freq);
        let poll = self.poll_due(now, pushes);
        push_some(&mut out, poll);
        let mut meters = self.meter_due(now);
        out.append(&mut meters);
        let scope = self.scope_due(now);
        push_some(&mut out, scope);
        out
    }

    /// A rig that has stopped answering is not a rig that is still
    /// transmitting.
    pub fn tx_age(&mut self, now: u64) -> (r: Option<Report>)
        ensures
            ({
                let stale = old(self).emit_rig_tx == Some(true) && since(
                    now,
                    old(self).last_tx_reply,
                ) > RIG_TX_MAX_AGE;
                if stale {
                    r == Some(Report::Update(CatUpdate::Ptt(false))) && *final(self) == (Session {
                        emit_rig_tx: Some(false),
                        ..*old(self)
                    })
                } else {
                    r is None && *final(self) == *old(self)
                }
            }),
    {
        if self.emit_rig_tx == Some(true) && now.saturating_sub(self.last_tx_reply)
            > RIG_TX_MAX_AGE {
            self.emit_rig_tx = Some(false);
            return Some(Report::Update(CatUpdate::Ptt(false)));
        }
        None
    }

    /// The rig said something. `mode_frame` is the frame that would put the rig
    /// in the mode it reported, and is looked at for a mode alone.
    pub fn on_update(&mut self, u: CatUpdate, mode_frame: &[u8], now: u64) -> (r: Option<Report>)
        ensures
            r == report_of(*old(self), u, now),
            u is Mode ==> final(self).mode_memory.frame() == Some(mode_frame@),
            u !is Mode ==> final(self).mode_memory == old(self).mode_memory,
            *final(self) == (Session {
                mode_memory: final(self).mode_memory,
                ..updated(*old(self), u, now)
            }),
    {
        match u {
            CatUpdate::Swr(v) => {
                self.last_swr = Some(v);
                self.telemetry()
            },
            CatUpdate::Alc(v) => {
                self.last_alc = Some(v);
                self.telemetry()
            },
            CatUpdate::Po(v) => {
                self.last_po = Some(v);
                self.telemetry()
            },
            CatUpdate::Signal(v) => Some(Report::Signal(v)),
            CatUpdate::Ptt(on) => {
                self.last_tx_reply = now;
                let settling = match self.ptt_edge {
                    Some(t) => now.saturating_sub(t) < PTT_SETTLE,
                    None => false,
                };
                if self.ptt || settling {
                    self.emit_rig_tx = Some(false);
                    return None;
                }
                if self.emit_rig_tx == Some(on) {
                    return None;
                }
                self.emit_rig_tx = Some(on);
                Some(Report::Update(u))
            },
            CatUpdate::Power(level) => {
                self.last_sent_power = Some(level);
                Some(Report::Update(u))
            },
            CatUpdate::Antenna(a) => {
                if self.last_sent_antenna.is_none() || self.last_sent_antenna == Some(a) {
                    Some(Report::Update(u))
                } else {
                    None
                }
            },
            CatUpdate::Freq(hz) => {
                let moved = match self.emit_freq {
                    None => true,
                    Some(f) => {
                        let d: i128 = f as i128 - hz as i128;
                        d >= 1000 || d <= -1000
                    },
                };
                if !moved {
                    return None;
                }
                self.emit_freq = Some(hz);
                Some(Report::Update(u))
            },
            CatUpdate::Mode(m) => {
                self.mode_memory.reported(mode_frame);
                if self.emit_mode == Some(m) {
                    return None;
                }
                self.emit_mode = Some(m);
                Some(Report::Update(u))
            },
        }
    }

    fn telemetry(&self) -> (r: Option<Report>)
        ensures
            r == Some(
                Report::Telemetry { swr: self.last_swr, alc: self.last_alc, po: self.last_po },
            ),
    {
        Some(Report::Telemetry { swr: self.last_swr, alc: self.last_alc, po: self.last_po })
    }

    /// A sweep of the scope arrived.
    pub fn sweep_arrived(&mut self, now: u64)
        ensures
            *final(self) == (Session {
                last_sweep: now,
                scope_retry: SCOPE_RETRY,
                ..*old(self)
            }),
    {
        self.last_sweep = now;
        self.scope_retry = SCOPE_RETRY;
    }

    /// A reply taught the framing how this rig takes its frequency, so what was
    /// sent before was refused: the operator's last dial goes out again. Says
    /// whether the frequencies of the same batch are to be dropped.
    pub fn reframed(&mut self, now: u64) -> (drop_freqs: bool)
        ensures
            drop_freqs == old(self).last_sent_freq is Some,
            *final(self) == (if drop_freqs {
                Session {
                    last_sent_freq: None,
                    pending_freq: old(self).last_sent_freq,
                    freq_deadline: now,
                    ..*old(self)
                }
            } else {
                *old(self)
            }),
    {
        match self.last_sent_freq {
            Some(hz) => {
                self.last_sent_freq = None;
                self.pending_freq = Some(hz);
                self.freq_deadline = now;
                true
            },
            None => false,
        }
    }

    /// The rig refused a command. True where it came on the heels of a
    /// key-down, and is worth saying out loud.
    pub fn refused(&mut self, now: u64) -> (warn: bool)
        ensures
            warn == (old(self).ptt_written matches Some(t) && since(now, t) < REFUSAL_WINDOW),
            *final(self) == (if warn {
                Session { ptt_written: None, ..*old(self) }
            } else {
                *old(self)
            }),
    {
        match self.ptt_written {
            Some(t) => {
                if now.saturating_sub(t) < REFUSAL_WINDOW {
                    self.ptt_written = None;
                    return true;
                }
                false
            },
            None => false,
        }
    }
}

/// The frames that wait to be written to the link, in order.
pub struct FrameQueue {
    pub frames: Vec<Vec<u8>>,
    /// When the last one went out.
    pub last_write: Option<u64>,
}

/// What the driver does with the queue next.
pub enum Next {
    /// Nothing waits.
    Idle,
    /// An answer is still owed, and nothing goes out before it is in.
    Held,
    /// The last frame went out so recently that this long is still to wait.
    Wait(u64),
    Write(Vec<u8>),
}

impl FrameQueue {
    /// The queue of a link that has just opened: the first write waits for
    /// nothing.
    pub fn new() -> (r: Self)
        ensures
            r.frames@.len() == 0,
            r.last_write is None,
    {
        FrameQueue { frames: Vec::new(), last_write: None }
    }

    /// Queues a frame. An empty frame is a family saying "nothing to send".
    pub fn push(&mut self, frame: Vec<u8>)
        ensures
            final(self).last_write == old(self).last_write,
            final(self).frames@ == (if frame@.len() == 0 {
                old(self).frames@
            } else {
                old(self).frames@.push(frame)
            }),
    {
        if frame.len() > 0 {
            self.frames.push(frame);
        }
    }

    /// The next frame to write, one at a time: not while the far end still owes
    /// `owed` answers, and not within [`FRAME_GAP`] of the last one.
    pub fn next(&mut self, owed: usize, now: u64) -> (r: Next)
        ensures
            match r {
                Next::Idle => old(self).frames@.len() == 0,
                Next::Held => old(self).frames@.len() > 0 && owed > 0,
                Next::Wait(left) => old(self).frames@.len() > 0 && owed == 0 && (old(
                    self,
                ).last_write matches Some(t) && left == FRAME_GAP - since(now, t) && left > 0),
                Next::Write(frame) => {
                    &&& old(self).frames@.len() > 0
                    &&& owed == 0
                    &&& old(self).last_write matches Some(t) ==> since(now, t) >= FRAME_GAP
                    &&& frame == old(self).frames@[0]
                    &&& final(self).frames@ == old(self).frames@.drop_first()
                    &&& final(self).last_write == Some(now)
                },
            },
            r !is Write ==> *final(self) == *old(self),
    {
        if self.frames.len() == 0 {
            return Next::Idle;
        }
        if owed > 0 {
            return Next::Held;
        }
        match self.last_write {
            Some(t) => {
                let gone = now.saturating_sub(t);
                if gone < FRAME_GAP {
                    return Next::Wait(FRAME_GAP - gone);
                }
            },
            None => {},
        }
        let frame = self.frames.remove(0);
        self.last_write = Some(now);
        assert(self.frames@ =~= old(self).frames@.drop_first());
        Next::Write(frame)
    }
}

/// What a one-shot query at startup has found out so far.
#[derive(Clone, Copy, Debug, PartialEq, Eq, Structural)]
pub struct Found {
    pub freq: Option<i64>,
    pub mode: Option<Mode>,
}

impl Found {
    pub fn new() -> (r: Self)
        ensures
            r == (Found { freq: None, mode: None }),
    {
        Found { freq: None, mode: None }
    }

    /// Notes a dial or a mode; nothing else is asked for at startup.
    pub fn note(&mut self, u: CatUpdate)
        ensures
            *final(self) == (match u {
                CatUpdate::Freq(hz) => Found { freq: Some(hz), ..*old(self) },
                CatUpdate::Mode(m) => Found { mode: Some(m), ..*old(self) },
                _ => *old(self),
            }),
    {
        match u {
            CatUpdate::Freq(hz) => {
                self.freq = Some(hz);
            },
            CatUpdate::Mode(m) => {
                self.mode = Some(m);
            },
            _ => {},
        }
    }

    /// Whether there is nothing left to wait for.
    pub fn complete(&self) -> (r: bool)
        ensures
            r == (self.freq is Some && self.mode is Some),
    {
        self.freq.is_some() && self.mode.is_some()
    }

    /// What the query answers: nothing, if the rig said neither.
    pub fn answer(&self) -> (r: Option<(Option<i64>, Option<Mode>)>)
        ensures
            r == (if self.freq is Some || self.mode is Some {
                Some((self.freq, self.mode))
            } else {
                None
            }),
    {
        if self.freq.is_some() || self.mode.is_some() {
            Some((self.freq, self.mode))
        } else {
            None
        }
    }
}

/// The echo of a frequency that was just written is not passed on as a change.
pub proof fn law_own_tuning_is_not_echoed(s: Session, now: u64, then: u64)
    requires
        freq_write(s, now) is Some,
    ensures
        report_of(
            freq_after(s, now),
            CatUpdate::Freq(s.pending_freq->0),
            then,
        ) is None,
{
}

/// However fast the drive is dragged, two power writes by the clock are at
/// least [`POWER_GAP`] apart.
pub proof fn law_power_is_rate_limited(s: Session, now: u64, level: i64, then: u64)
    requires
        power_is_due(s, now),
        then < later(now, POWER_GAP),
    ensures
        power_write(Session { pending_power: Some(level), ..power_after(s, now) }, then) is None,
{
}

/// However fast a filter edge is dragged, two filter writes are at least
/// [`FILTER_GAP`] apart, and none falls into an over.
pub proof fn law_filter_is_rate_limited(s: Session, now: u64, f: Filter, then: u64)
    requires
        filter_is_due(s, now),
    ensures
        then < later(now, FILTER_GAP) ==> filter_write(
            Session { pending_filter: Some(f), ..filter_after(s, now) },
            then,
        ) is None,
        forall|o: Session, t: u64| o.ptt ==> filter_write(o, t) is None,
{
}

/// However fast the dial is turned, two frequency writes by the clock are at
/// least [`FREQ_GAP`] apart, and a frequency is not written twice in a row.
pub proof fn law_dial_is_rate_limited(s: Session, now: u64, hz: i64, then: u64)
    requires
        freq_is_due(s, now),
    ensures
        then < later(now, FREQ_GAP) ==> freq_write(
            Session { pending_freq: Some(hz), ..freq_after(s, now) },
            then,
        ) is None,
        freq_write(Session { pending_freq: s.pending_freq, ..freq_after(s, now) }, then) is None,
{
}

/// A key-down goes out last, behind the power and the frequency that were asked
/// for, and leaves neither waiting.
pub proof fn law_key_down_lands_on_frequency(s: Session, now: u64)
    ensures
        ({
            let w = key_writes(s, true);
            let k = keyed(s, true, now);
            &&& s.ptt_method == PttMethod::Cat ==> w.last() == Write::Ptt(true)
            &&& s.pending_freq is Some ==> k.last_sent_freq == s.pending_freq && (w.contains(
                Write::Freq(s.pending_freq->0),
            ) || s.last_sent_freq == s.pending_freq)
            &&& s.pending_power is Some ==> k.last_sent_power == s.pending_power && (w.contains(
                Write::Power(s.pending_power->0),
            ) || s.last_sent_power == s.pending_power)
            &&& k.pending_freq is None
            &&& k.pending_power is None
        }),
{
    let w = key_writes(s, true);
    let a = if s.pending_power is Some && s.last_sent_power != s.pending_power {
        seq![Write::Power(s.pending_power->0)]
    } else {
        seq![]
    };
    if s.pending_power is Some && s.last_sent_power != s.pending_power {
        assert(w[0] == Write::Power(s.pending_power->0));
    }
    if s.pending_freq is Some && s.last_sent_freq != s.pending_freq {
        assert(w[a.len() as int] == Write::Freq(s.pending_freq->0));
    }
}

/// An over the rig's answers put on record ends by itself when the rig stops
/// answering, and an answer across one of our own edges never starts one.
pub proof fn law_no_over_across_our_own_edge(s: Session, on: bool, now: u64, then: u64, said: bool)
    requires
        since(then, now) < PTT_SETTLE,
    ensures
        report_of(keyed(s, on, now), CatUpdate::Ptt(said), then) is None,
        updated(keyed(s, on, now), CatUpdate::Ptt(said), then).emit_rig_tx == Some(false),
{
}

/// Every telemetry message carries the latest of each meter, so that no reading
/// blanks another.
pub proof fn law_telemetry_keeps_the_other_meters(s: Session, swr: i64, alc: i64, now: u64)
    ensures
        report_of(updated(s, CatUpdate::Swr(swr), now), CatUpdate::Alc(alc), now) == Some(
            Report::Telemetry { swr: Some(swr), alc: Some(alc), po: s.last_po },
        ),
        report_of(updated(s, CatUpdate::Alc(alc), now), CatUpdate::Swr(swr), now) == Some(
            Report::Telemetry { swr: Some(swr), alc: Some(alc), po: s.last_po },
        ),
{
}

} // verus!
