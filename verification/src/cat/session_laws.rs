//! What a session writes to the rig and when, and what it hands on of the rig's
//! answers. Times are in microseconds, frequencies in thousandths of a hertz.
use crate::cat::config;
use crate::cat::config::{CatConfig, CwKeying, LineState, Mode, ModeTraits, PttMethod};
use crate::cat::session;
use crate::cat::session::{CatUpdate, Filter, Report, Session, Write};
use vstd::prelude::*;

verus! {

broadcast use vstd::seq::group_seq_axioms;

/// So long behind a moment, as far as the clock goes.
pub open spec fn behind(now: u64, gap: int) -> int {
    if now + gap <= 0xffff_ffff_ffff_ffff {
        now + gap
    } else {
        0xffff_ffff_ffff_ffff
    }
}

/// A level is written where one is wanted that the rig is not at, a tenth of a
/// second behind the last at the earliest, and what is wanted last is what the rig
/// is then at.
pub proof fn law_a_power_is_written(s: Session, now: u64, level: i64)
    ensures
        session::power_write(s, now) == Some(Write::Power(level)) <==> s.pending_power == Some(
            level,
        ) && s.last_sent_power != Some(level) && now >= s.power_deadline,
        session::power_write(s, now) is Some ==> session::power_write(s, now)->0 is Power,
        s.pending_power is Some && now >= s.power_deadline ==> {
            let t = session::power_after(s, now);
            &&& t.last_sent_power == s.pending_power
            &&& t.power_deadline == behind(now, 100_000)
            &&& t == (Session {
                pending_power: None,
                last_sent_power: t.last_sent_power,
                power_deadline: t.power_deadline,
                ..s
            })
        },
        s.pending_power is None || now < s.power_deadline ==> session::power_after(s, now) == s,
{
}

/// A filter likewise, a quarter of a second behind the last, and never while the
/// key is down.
pub proof fn law_a_filter_is_written(s: Session, now: u64, f: Filter)
    ensures
        session::filter_write(s, now) == Some(Write::Filter(f)) <==> s.pending_filter == Some(f)
            && s.last_sent_filter != Some(f) && !s.ptt && now >= s.filter_deadline,
        session::filter_write(s, now) is Some ==> session::filter_write(s, now)->0 is Filter,
        s.pending_filter is Some && !s.ptt && now >= s.filter_deadline ==> {
            let t = session::filter_after(s, now);
            &&& t.last_sent_filter == s.pending_filter
            &&& t.filter_deadline == behind(now, 250_000)
            &&& t == (Session {
                pending_filter: None,
                last_sent_filter: t.last_sent_filter,
                filter_deadline: t.filter_deadline,
                ..s
            })
        },
        s.pending_filter is None || s.ptt || now < s.filter_deadline ==> session::filter_after(
            s,
            now,
        ) == s,
{
}

/// A dial likewise, a twentieth of a second behind the last; what was written is
/// what the rig is taken to say of itself.
pub proof fn law_a_dial_is_written(s: Session, now: u64, hz: i64)
    ensures
        session::freq_write(s, now) == Some(Write::Freq(hz)) <==> s.pending_freq == Some(hz)
            && s.last_sent_freq != Some(hz) && now >= s.freq_deadline,
        session::freq_write(s, now) is Some ==> session::freq_write(s, now)->0 is Freq,
        session::freq_write(s, now) is Some ==> {
            let t = session::freq_after(s, now);
            &&& t.last_sent_freq == s.pending_freq
            &&& t.emit_freq == s.pending_freq
            &&& t.freq_deadline == behind(now, 50_000)
            &&& t == (Session {
                pending_freq: None,
                last_sent_freq: t.last_sent_freq,
                emit_freq: t.emit_freq,
                freq_deadline: t.freq_deadline,
                ..s
            })
        },
        session::freq_write(s, now) is None ==> session::freq_after(s, now) == s,
{
}

/// The rig is asked where it is once a period, and for its mode with it where the
/// mode's own, longer period has passed or the rig reports by itself. A rig that
/// does is asked every three seconds at most.
pub proof fn law_the_rig_is_asked_in_turn(s: Session, now: u64, pushes: bool)
    ensures
        session::poll_write(s, now, pushes) == (if now < s.next_poll {
            None
        } else if pushes || now >= s.next_mode_poll {
            Some(Write::Poll)
        } else {
            Some(Write::Dial)
        }),
        now < s.next_poll ==> session::poll_after(s, now, pushes) == s,
        now >= s.next_poll ==> {
            let t = session::poll_after(s, now, pushes);
            &&& t.announced_push == pushes
            &&& t.next_poll == if pushes && s.poll_period < 3_000_000 {
                behind(now, 3_000_000)
            } else {
                behind(now, s.poll_period as int)
            }
            &&& t.next_mode_poll == if session::poll_write(s, now, pushes) == Some(Write::Poll) {
                behind(now, s.mode_period as int)
            } else {
                s.next_mode_poll as int
            }
            &&& t == (Session {
                announced_push: t.announced_push,
                next_poll: t.next_poll,
                next_mode_poll: t.next_mode_poll,
                ..s
            })
        },
{
}

/// The transmit meters are read where the rig is on the air, by this key or its own,
/// five times a second, and the receive meter where it is not; whether the rig keys
/// itself is asked only while this key is up.
pub proof fn law_the_meters_are_read_in_turn(s: Session, now: u64)
    ensures
        now < s.next_meter ==> session::meter_writes(s, now).len() == 0 && session::meter_after(
            s,
            now,
        ) == s,
        now >= s.next_meter ==> {
            let w = session::meter_writes(s, now);
            let t = session::meter_after(s, now);
            let air = s.ptt || s.emit_rig_tx == Some(true);
            &&& w[0] == (if air {
                Write::TxMeters
            } else {
                Write::RxMeters
            })
            &&& s.ptt ==> w.len() == 1
            &&& !s.ptt ==> w.len() == 2 && w[1] == Write::TxState
            &&& t.next_meter == if air {
                behind(now, 200_000)
            } else {
                behind(now, s.meter_period as int)
            }
            &&& t == (Session { next_meter: t.next_meter, ..s })
        },
{
}

/// A scope that is wanted and silent for three seconds is started again, and each
/// time that does not help the next try waits twice as long, up to half a minute.
/// On the air it is silent by itself, and that does not count.
pub proof fn law_a_silent_scope_is_started_again(s: Session, now: u64)
    ensures
        ({
            let air = s.ptt || s.emit_rig_tx == Some(true);
            let t = session::scope_after(s, now);
            &&& session::scope_write(s, now) is Some <==> s.scope_wanted && !air && now
                - s.last_sweep > 3_000_000 && now >= s.next_scope_nudge
            &&& session::scope_write(s, now) is Some ==> {
                &&& session::scope_write(s, now) == Some(Write::Scope)
                &&& t.next_scope_nudge == behind(now, s.scope_retry as int)
                &&& t.scope_retry == if s.scope_retry > 15_000_000 {
                    30_000_000
                } else {
                    2 * s.scope_retry
                }
                &&& t == (Session {
                    next_scope_nudge: t.next_scope_nudge,
                    scope_retry: t.scope_retry,
                    ..s
                })
            }
            &&& session::scope_write(s, now) is None && s.scope_wanted && air ==> t == (Session {
                last_sweep: now,
                ..s
            })
            &&& session::scope_write(s, now) is None && !(s.scope_wanted && air) ==> t == s
        }),
{
}

/// The key goes down behind the power and the dial that are still to be written,
/// and comes up alone. It is keyed the way that the session has, and a session that
/// leaves it to the sound writes nothing.
pub proof fn law_the_key_comes_last(s: Session, on: bool)
    ensures
        ({
            let w = session::key_writes(s, on);
            let power = on && s.pending_power is Some && s.last_sent_power != s.pending_power;
            let dial = on && s.pending_freq is Some && s.last_sent_freq != s.pending_freq;
            let key = s.ptt_method != PttMethod::Vox;
            let n = if power {
                1int
            } else {
                0
            };
            let m = if dial {
                n + 1
            } else {
                n
            };
            &&& w.len() == if key {
                m + 1
            } else {
                m
            }
            &&& power ==> w[0] == Write::Power(s.pending_power->0)
            &&& dial ==> w[n] == Write::Freq(s.pending_freq->0)
            &&& s.ptt_method == PttMethod::Rts ==> w[m] == Write::Rts(on)
            &&& s.ptt_method == PttMethod::Dtr ==> w[m] == Write::Dtr(on)
            &&& s.ptt_method == PttMethod::Cat ==> w[m] == Write::Ptt(on)
        }),
{
}

/// Behind the key the session knows when it moved, what the rig was sent with it,
/// and when a refusal would be one of the key; a key that comes up forgets the
/// transmit meters, and the meters are read at once either way.
pub proof fn law_what_is_known_behind_the_key(s: Session, on: bool, now: u64)
    ensures
        ({
            let t = session::keyed(s, on, now);
            &&& t.ptt == on
            &&& t.ptt_edge == Some(now)
            &&& t.next_meter == now
            &&& s.ptt_method != PttMethod::Cat ==> t.ptt_written == s.ptt_written
            &&& s.ptt_method == PttMethod::Cat ==> t.ptt_written == if on {
                Some(now)
            } else {
                None
            }
            &&& on ==> {
                &&& t.pending_power is None
                &&& t.pending_freq is None
                &&& t.last_sent_power == if s.pending_power is Some {
                    s.pending_power
                } else {
                    s.last_sent_power
                }
                &&& t.last_sent_freq == if s.pending_freq is Some {
                    s.pending_freq
                } else {
                    s.last_sent_freq
                }
                &&& s.pending_freq is Some && s.pending_freq != s.last_sent_freq ==> t.emit_freq
                    == s.pending_freq && t.freq_deadline == behind(now, 50_000)
                &&& s.pending_freq is None || s.pending_freq == s.last_sent_freq ==> t.emit_freq
                    == s.emit_freq && t.freq_deadline == s.freq_deadline
                &&& t.last_swr == s.last_swr && t.last_alc == s.last_alc && t.last_po == s.last_po
            }
            &&& !on ==> {
                &&& t.pending_power == s.pending_power && t.last_sent_power == s.last_sent_power
                &&& t.pending_freq == s.pending_freq && t.last_sent_freq == s.last_sent_freq
                &&& t.emit_freq == s.emit_freq && t.freq_deadline == s.freq_deadline
                &&& t.last_swr is None && t.last_alc is None && t.last_po is None
            }
            &&& t == (Session {
                ptt: t.ptt,
                ptt_edge: t.ptt_edge,
                ptt_written: t.ptt_written,
                pending_power: t.pending_power,
                last_sent_power: t.last_sent_power,
                pending_freq: t.pending_freq,
                last_sent_freq: t.last_sent_freq,
                emit_freq: t.emit_freq,
                freq_deadline: t.freq_deadline,
                next_meter: t.next_meter,
                last_swr: t.last_swr,
                last_alc: t.last_alc,
                last_po: t.last_po,
                ..s
            })
        }),
{
}

/// What the rig says of its key is handed on where it is news and not the echo of
/// this end's own key, which it is while that is down and for six tenths of a second
/// behind its last move.
pub proof fn law_the_rigs_own_key_is_handed_on(s: Session, on: bool, now: u64)
    ensures
        ({
            let own = s.ptt || (s.ptt_edge is Some && now - s.ptt_edge->0 < 600_000);
            let u = CatUpdate::Ptt(on);
            let t = session::updated(s, u, now);
            &&& session::report_of(s, u, now) == (if !own && s.emit_rig_tx != Some(on) {
                Some(Report::Update(u))
            } else {
                None
            })
            &&& t.last_tx_reply == now
            &&& own ==> t.emit_rig_tx == Some(false)
            &&& !own ==> t.emit_rig_tx == Some(on)
            &&& t == (Session { last_tx_reply: t.last_tx_reply, emit_rig_tx: t.emit_rig_tx, ..s })
        }),
{
}

/// A dial that has not moved by a hertz is no news; one that has is handed on and
/// remembered.
pub proof fn law_a_dial_that_moved_is_handed_on(s: Session, hz: i64, now: u64)
    ensures
        ({
            let u = CatUpdate::Freq(hz);
            let news = s.emit_freq is None || hz - s.emit_freq->0 >= 1000 || s.emit_freq->0 - hz
                >= 1000;
            &&& session::report_of(s, u, now) == (if news {
                Some(Report::Update(u))
            } else {
                None
            })
            &&& session::updated(s, u, now) == (if news {
                Session { emit_freq: Some(hz), ..s }
            } else {
                s
            })
        }),
{
}

/// A mode is handed on where it is another than the last, and remembered.
pub proof fn law_a_mode_that_changed_is_handed_on(s: Session, m: Mode, now: u64)
    ensures
        session::report_of(s, CatUpdate::Mode(m), now) == (if s.emit_mode == Some(m) {
            None
        } else {
            Some(Report::Update(CatUpdate::Mode(m)))
        }),
        session::updated(s, CatUpdate::Mode(m), now) == (Session { emit_mode: Some(m), ..s }),
{
}

/// Each transmit meter is handed on with the last readings of the other two, and
/// replaces its own last reading alone.
pub proof fn law_a_meter_is_handed_on_with_the_others(s: Session, v: i64, now: u64)
    ensures
        session::report_of(s, CatUpdate::Swr(v), now) == Some(
            Report::Telemetry { swr: Some(v), alc: s.last_alc, po: s.last_po },
        ),
        session::report_of(s, CatUpdate::Alc(v), now) == Some(
            Report::Telemetry { swr: s.last_swr, alc: Some(v), po: s.last_po },
        ),
        session::report_of(s, CatUpdate::Po(v), now) == Some(
            Report::Telemetry { swr: s.last_swr, alc: s.last_alc, po: Some(v) },
        ),
        session::updated(s, CatUpdate::Swr(v), now) == (Session { last_swr: Some(v), ..s }),
        session::updated(s, CatUpdate::Alc(v), now) == (Session { last_alc: Some(v), ..s }),
        session::updated(s, CatUpdate::Po(v), now) == (Session { last_po: Some(v), ..s }),
        session::report_of(s, CatUpdate::Signal(v), now) == Some(Report::Signal(v)),
        session::updated(s, CatUpdate::Signal(v), now) == s,
{
}

/// The power that the rig is set to is always handed on, and is what it was last
/// sent; an antenna only where this end has chosen none or just that one.
pub proof fn law_power_and_antenna_are_handed_on(s: Session, level: i64, a: usize, now: u64)
    ensures
        session::report_of(s, CatUpdate::Power(level), now) == Some(
            Report::Update(CatUpdate::Power(level)),
        ),
        session::updated(s, CatUpdate::Power(level), now) == (Session {
            last_sent_power: Some(level),
            ..s
        }),
        session::report_of(s, CatUpdate::Antenna(a), now) == (if s.last_sent_antenna is Some
            && s.last_sent_antenna != Some(a) {
            None
        } else {
            Some(Report::Update(CatUpdate::Antenna(a)))
        }),
        session::updated(s, CatUpdate::Antenna(a), now) == s,
{
}

/// A session opens with the line that keys let go and each other line as it is
/// forced, the first of them RTS, and then asks what the rig is set to.
pub proof fn law_how_a_session_opens(cfg: CatConfig)
    ensures
        ({
            let w = session::opening_of(cfg);
            let n = w.len();
            let rts = cfg.ptt != PttMethod::Rts && cfg.force_rts != LineState::Free;
            let dtr = cfg.ptt != PttMethod::Dtr && cfg.force_dtr != LineState::Free;
            let key = cfg.ptt == PttMethod::Rts || cfg.ptt == PttMethod::Dtr;
            let i = if rts {
                1int
            } else {
                0
            };
            let j = if dtr {
                i + 1
            } else {
                i
            };
            let k = if key {
                j + 1
            } else {
                j
            };
            &&& n == k + 5
            &&& rts ==> w[0] == Write::Rts(cfg.force_rts == LineState::High)
            &&& dtr ==> w[i] == Write::Dtr(cfg.force_dtr == LineState::High)
            &&& cfg.ptt == PttMethod::Rts ==> w[j] == Write::Rts(false)
            &&& cfg.ptt == PttMethod::Dtr ==> w[j] == Write::Dtr(false)
            &&& w[k] == Write::OpenRequests
            &&& w[k + 1] == Write::ClearOffsets
            &&& w[k + 2] == Write::ReadPower
            &&& w[k + 3] == Write::ReadAntenna
            &&& w[k + 4] == Write::Scope
        }),
{
}

/// A rate of asking is a period: its reciprocal between 30 milliseconds and five
/// seconds. The meters are read no more often than five times a second, and the mode
/// every fourth time, between once a second and once in five. Rates are in
/// thousandths of a hertz.
pub proof fn law_a_rate_is_a_period(rate: int)
    ensures
        rate >= 33_334 ==> config::poll_period_of(rate) == 30_000,
        200 <= rate <= 33_333 ==> {
            let p = config::poll_period_of(rate);
            30_000 <= p <= 5_000_000 && p * rate <= 1_000_000_000 < (p + 1) * rate
        },
        rate <= 200 ==> config::poll_period_of(rate) == 5_000_000,
        config::poll_period_of(rate) < 200_000 ==> config::meter_period_of(rate) == 200_000,
        config::poll_period_of(rate) >= 200_000 ==> config::meter_period_of(rate)
            == config::poll_period_of(rate),
        config::poll_period_of(rate) < 250_000 ==> config::mode_poll_period_of(rate) == 1_000_000,
        250_000 <= config::poll_period_of(rate) <= 1_250_000 ==> config::mode_poll_period_of(rate)
            == 4 * config::poll_period_of(rate),
        config::poll_period_of(rate) > 1_250_000 ==> config::mode_poll_period_of(rate)
            == 5_000_000,
{
    if rate >= 200 {
        let q = 1_000_000_000int / rate;
        assert(q * rate <= 1_000_000_000 < (q + 1) * rate) by (nonlinear_arith)
            requires
                rate >= 200,
                q == 1_000_000_000int / rate,
        ;
        if rate >= 33_334 {
            assert(q < 30_000) by (nonlinear_arith)
                requires
                    rate >= 33_334,
                    q * rate <= 1_000_000_000,
            ;
        } else {
            assert(30_000 <= q <= 5_000_000) by (nonlinear_arith)
                requires
                    200 <= rate <= 33_333,
                    q * rate <= 1_000_000_000 < (q + 1) * rate,
            ;
        }
    } else {
        assert(1_000_000_000int / 200 == 5_000_000);
    }
    if rate == 200 {
        assert(1_000_000_000int / 200 == 5_000_000);
    }
}

/// How long things take: a key settles in six tenths of a second, what the rig says
/// of its own key holds for two seconds, a scope is given up for silent in three, a
/// refusal within half a second of the key is one of the key, and frames are 30
/// milliseconds apart.
pub proof fn law_how_long_things_take(now: u64, at: u64)
    ensures
        session::PTT_SETTLE == 600_000,
        session::RIG_TX_MAX_AGE == 2_000_000,
        session::PUSHED_POLL_PERIOD == 3_000_000,
        session::SCOPE_STALL == 3_000_000,
        session::SCOPE_RETRY == 2_000_000,
        session::REFUSAL_WINDOW == 500_000,
        session::FRAME_GAP == 30_000,
        config::SIGNAL_MIN_AGE == 1_500_000,
        now >= at ==> session::since(now, at) == now - at,
        now < at ==> session::since(now, at) == 0,
        session::later(now, at) == behind(now, at as int),
{
}

/// Which modes ride on a sideband for data: the digital ones but for pictures and
/// those that sit on their carrier, and CW where it is keyed by sound.
pub proof fn law_which_modes_ride_on_a_sideband(cfg: CatConfig, m: Mode, t: ModeTraits)
    ensures
        m != Mode::Cw ==> config::rides_digi_sideband(cfg, m, t) == (t.digital && !t.sstv
            && !t.carrier_centered),
        m == Mode::Cw
            && cfg.cw_keying == CwKeying::Audio ==> config::rides_digi_sideband(cfg, m, t),
        m == Mode::Cw && cfg.cw_keying == CwKeying::Cat ==> config::rides_digi_sideband(cfg, m, t)
            == (t.digital && !t.sstv && !t.carrier_centered),
{
}

} // verus!
