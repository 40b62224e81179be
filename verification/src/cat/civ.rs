//! CI-V (Icom and Xiegu): what the rig's frames say of where it is, and whether
//! it reports its own changes unasked.
//!
//! A rig with "CI-V transceive" on broadcasts its dial and its mode the moment
//! either moves. That is claimed only once a broadcast has arrived, and
//! withdrawn when the rig turns up somewhere nobody sent it and no broadcast
//! announced.
use crate::cat::config;
use crate::cat::config::Mode;
use crate::cat::session::CatUpdate;
use vstd::prelude::*;

verus! {

broadcast use vstd::seq::group_seq_axioms;

/// The address of this end of the bus.
pub const CONTROLLER_ADDR: u8 = 0xE0;

/// The command byte of a refusal.
pub const NG: u8 = 0xFA;

/// How long after a broadcast a disagreeing polled answer is put down to the
/// two having crossed on the wire rather than to transceive being off.
pub const PUSH_CROSSED_WIRES: u64 = 1_000_000;

/// One finished sweep of the rig's own spectrum scope, in thousandths of a
/// hertz, with its amplitudes on the radio's 0..=160 scale.
#[derive(Debug, PartialEq, Eq)]
pub struct ScopeFrame {
    pub center_hz: i64,
    /// Full width, low edge to high edge.
    pub span_hz: i64,
    pub bins: Vec<u8>,
}

/// One frame from the bus: who sent it, its command, and what its data says
/// under each of the readings a command may have.
#[derive(Debug)]
pub struct Reply {
    pub from: u8,
    pub cmd: u8,
    /// The dial, in thousandths of a hertz.
    pub freq: Option<i64>,
    /// The first byte of the data, and the mode it stands for.
    pub mode_byte: Option<u8>,
    pub mode: Option<Mode>,
    pub power: Option<i64>,
    pub swr: Option<i64>,
    pub alc: Option<i64>,
    pub po: Option<i64>,
    pub dbm: Option<i64>,
    pub ptt: Option<bool>,
    /// The sweep that this frame completes.
    pub sweep: Option<ScopeFrame>,
}

/// What is asked of the rig's scope.
#[derive(Clone, Copy, Debug, PartialEq, Eq, Structural)]
pub enum ScopeRequest {
    /// Run it.
    On,
    /// Stream it here.
    Output,
    /// Follow the dial.
    Center,
    /// Sweep so far either side of it.
    HalfSpan(i64),
}

/// What this end knows of a CI-V rig.
pub struct Civ {
    /// The rig answered "NG" since this was last read.
    pub nak: bool,
    /// The rig has broadcast a change nobody asked for.
    pub pushed: bool,
    /// When the last broadcast arrived.
    pub last_push: Option<u64>,
    /// The dial and mode this end has reason to believe the rig is on: whatever
    /// was last broadcast, answered, or commanded from here.
    pub seen_freq: Option<i64>,
    pub seen_mode: Option<u8>,
    /// Whether this session streams the rig's scope, and the half-span to
    /// command it to (`None` leaves the radio's own span alone).
    pub scope: bool,
    pub scope_half_span: Option<i64>,
    /// The newest finished sweep, until it is taken.
    pub scope_finished: Option<ScopeFrame>,
}

/// Whether the rig turning up at `to`, where we believed `seen`, disproves the
/// transceive claim.
pub open spec fn moved_silently<T>(
    pushed: bool,
    last_push: Option<u64>,
    seen: Option<T>,
    to: T,
    broadcast_frame: bool,
    now: u64,
) -> bool {
    &&& !broadcast_frame
    &&& pushed
    &&& seen matches Some(was) && was != to
    &&& last_push matches Some(at) ==> config::max(now - at, 0) > PUSH_CROSSED_WIRES
}

/// What is believed after hearing where the rig is.
pub open spec fn heard<T>(
    c: Civ,
    seen: Option<T>,
    to: T,
    broadcast_frame: bool,
    now: u64,
) -> Civ {
    Civ {
        pushed: broadcast_frame || (c.pushed && !moved_silently(
            c.pushed,
            c.last_push,
            seen,
            to,
            broadcast_frame,
            now,
        )),
        last_push: if broadcast_frame {
            Some(now)
        } else {
            c.last_push
        },
        ..c
    }
}

/// What a frame leads to.
pub open spec fn after_reply(c: Civ, r: Reply, now: u64) -> Civ {
    if r.from == CONTROLLER_ADDR {
        c
    } else if (r.cmd == 0x00 || r.cmd == 0x03) && r.freq is Some {
        Civ { seen_freq: r.freq, ..heard(c, c.seen_freq, r.freq->0, r.cmd == 0x00, now) }
    } else if (r.cmd == 0x01 || r.cmd == 0x04) && r.mode_byte is Some {
        Civ { seen_mode: r.mode_byte, ..heard(c, c.seen_mode, r.mode_byte->0, r.cmd == 0x01, now) }
    } else if r.cmd == 0x27 && (r.sweep matches Some(s) && s.bins@.len() > 0) {
        Civ { scope_finished: r.sweep, ..c }
    } else if r.cmd == NG {
        Civ { nak: true, ..c }
    } else {
        c
    }
}

/// What a frame reports.
pub open spec fn reported(r: Reply) -> Option<CatUpdate> {
    if r.from == CONTROLLER_ADDR {
        None
    } else if r.cmd == 0x00 || r.cmd == 0x03 {
        match r.freq {
            Some(hz) => Some(CatUpdate::Freq(hz)),
            None => None,
        }
    } else if r.cmd == 0x01 || r.cmd == 0x04 {
        match (r.mode_byte, r.mode) {
            (Some(_), Some(m)) => Some(CatUpdate::Mode(m)),
            _ => None,
        }
    } else if r.cmd == 0x14 {
        match r.power {
            Some(p) => Some(CatUpdate::Power(p)),
            None => None,
        }
    } else if r.cmd == 0x15 {
        if r.swr is Some {
            Some(CatUpdate::Swr(r.swr->0))
        } else if r.alc is Some {
            Some(CatUpdate::Alc(r.alc->0))
        } else if r.po is Some {
            Some(CatUpdate::Po(r.po->0))
        } else if r.dbm is Some {
            Some(CatUpdate::Signal(r.dbm->0))
        } else {
            None
        }
    } else if r.cmd == 0x1C {
        match r.ptt {
            Some(on) => Some(CatUpdate::Ptt(on)),
            None => None,
        }
    } else {
        None
    }
}

/// What the first `n` frames of a batch lead to.
pub open spec fn after_replies(c: Civ, v: Seq<Reply>, n: int, now: u64) -> Civ
    decreases n,
{
    if n <= 0 {
        c
    } else {
        after_reply(after_replies(c, v, n - 1, now), v[n - 1], now)
    }
}

/// What the first `n` frames of a batch report, in order.
pub open spec fn all_reported(v: Seq<Reply>, n: int) -> Seq<CatUpdate>
    decreases n,
{
    if n <= 0 {
        Seq::empty()
    } else {
        match reported(v[n - 1]) {
            Some(u) => all_reported(v, n - 1).push(u),
            None => all_reported(v, n - 1),
        }
    }
}

/// The requests that start the scope.
pub open spec fn scope_requests_of(scope: bool, half_span: Option<i64>) -> Seq<ScopeRequest> {
    if !scope {
        seq![]
    } else {
        match half_span {
            None => seq![ScopeRequest::On, ScopeRequest::Output],
            Some(h) => seq![
                ScopeRequest::On,
                ScopeRequest::Output,
                ScopeRequest::Center,
                ScopeRequest::HalfSpan(h),
            ],
        }
    }
}

impl Civ {
    /// Nothing is known yet. `scope` says whether the scope is streamed this
    /// session, `half_span` how far it is to sweep.
    pub fn new(scope: bool, half_span: Option<i64>) -> (r: Civ)
        ensures
            r == (Civ {
                nak: false,
                pushed: false,
                last_push: None,
                seen_freq: None,
                seen_mode: None,
                scope,
                scope_half_span: half_span,
                scope_finished: None,
            }),
    {
        Civ {
            nak: false,
            pushed: false,
            last_push: None,
            seen_freq: None,
            seen_mode: None,
            scope,
            scope_half_span: half_span,
            scope_finished: None,
        }
    }

    /// The dial is commanded from here: where the rig goes is somewhere it got
    /// to without a broadcast, and legitimately so. Rounded to whole hertz.
    pub fn set_freq(&mut self, hz: i64)
        requires
            i64::MIN + 1000 <= hz <= i64::MAX - 1000,
        ensures
            *final(self) == (Civ { seen_freq: Some(rounded(hz as int) as i64), ..*old(self) }),
    {
        let whole: i64 = if hz >= 0 {
            (hz + 500) / 1000 * 1000
        } else {
            -((-hz + 500) / 1000 * 1000)
        };
        self.seen_freq = Some(whole);
    }

    /// The mode is commanded from here, by this byte.
    pub fn set_mode(&mut self, byte: u8)
        ensures
            *final(self) == (Civ { seen_mode: Some(byte), ..*old(self) }),
    {
        self.seen_mode = Some(byte);
    }

    /// The requests that start the scope: run it, stream it here, and — when a
    /// span is chosen — put it in centre mode so that it follows the dial.
    pub fn scope_requests(&self) -> (r: Vec<ScopeRequest>)
        ensures
            r@ == scope_requests_of(self.scope, self.scope_half_span),
    {
        let mut out: Vec<ScopeRequest> = Vec::new();
        if self.scope {
            out.push(ScopeRequest::On);
            out.push(ScopeRequest::Output);
            match self.scope_half_span {
                Some(h) => {
                    out.push(ScopeRequest::Center);
                    out.push(ScopeRequest::HalfSpan(h));
                },
                None => {},
            }
        }
        assert(out@ =~= scope_requests_of(self.scope, self.scope_half_span));
        out
    }

    /// The newest finished sweep, once.
    pub fn take_scope_sweep(&mut self) -> (r: Option<ScopeFrame>)
        ensures
            r == old(self).scope_finished,
            *final(self) == (Civ { scope_finished: None, ..*old(self) }),
    {
        self.scope_finished.take()
    }

    /// Whether the rig refused a command since last asked.
    pub fn refused(&mut self) -> (r: bool)
        ensures
            r == old(self).nak,
            *final(self) == (Civ { nak: false, ..*old(self) }),
    {
        let r = self.nak;
        self.nak = false;
        r
    }

    /// Whether the rig is reporting its own dial and mode changes unasked.
    pub fn pushes_updates(&self) -> (r: bool)
        ensures
            r == self.pushed,
    {
        self.pushed
    }

    fn disproved(&self, disagrees: bool, broadcast_frame: bool, now: u64) -> (r: bool)
        ensures
            r == (!broadcast_frame && self.pushed && disagrees && (self.last_push matches Some(at)
                ==> config::max(now - at, 0) > PUSH_CROSSED_WIRES)),
    {
        let settled = match self.last_push {
            Some(at) => now.saturating_sub(at) > PUSH_CROSSED_WIRES,
            None => true,
        };
        !broadcast_frame && self.pushed && disagrees && settled
    }

    fn hear(&mut self, disagrees: bool, broadcast_frame: bool, now: u64)
        ensures
            *final(self) == (Civ {
                pushed: broadcast_frame || (old(self).pushed && !(disagrees && (old(
                    self,
                ).last_push matches Some(at) ==> config::max(now - at, 0) > PUSH_CROSSED_WIRES))),
                last_push: if broadcast_frame {
                    Some(now)
                } else {
                    old(self).last_push
                },
                ..*old(self)
            }),
    {
        if self.disproved(disagrees, broadcast_frame, now) {
            self.pushed = false;
        }
        if broadcast_frame {
            self.pushed = true;
            self.last_push = Some(now);
        }
    }

    /// One frame from the bus. Our own echoes are ignored.
    pub fn on_reply(&mut self, r: Reply, now: u64) -> (u: Option<CatUpdate>)
        ensures
            *final(self) == after_reply(*old(self), r, now),
            u == reported(r),
    {
        if r.from == CONTROLLER_ADDR {
            return None;
        }
        if r.cmd == 0x00 || r.cmd == 0x03 {
            match r.freq {
                Some(hz) => {
                    let disagrees = match self.seen_freq {
                        Some(was) => was != hz,
                        None => false,
                    };
                    self.hear(disagrees, r.cmd == 0x00, now);
                    self.seen_freq = Some(hz);
                    Some(CatUpdate::Freq(hz))
                },
                None => None,
            }
        } else if r.cmd == 0x01 || r.cmd == 0x04 {
            match r.mode_byte {
                // Judged on the mode *byte*: two app modes share a byte on
                // CI-V, and a rig that has moved between them has not moved as
                // far as this command can see.
                Some(b) => {
                    let disagrees = match self.seen_mode {
                        Some(was) => was != b,
                        None => false,
                    };
                    self.hear(disagrees, r.cmd == 0x01, now);
                    self.seen_mode = Some(b);
                    match r.mode {
                        Some(m) => Some(CatUpdate::Mode(m)),
                        None => None,
                    }
                },
                None => None,
            }
        } else if r.cmd == 0x14 {
            match r.power {
                Some(p) => Some(CatUpdate::Power(p)),
                None => None,
            }
        } else if r.cmd == 0x15 {
            match (r.swr, r.alc, r.po, r.dbm) {
                (Some(v), _, _, _) => Some(CatUpdate::Swr(v)),
                (None, Some(v), _, _) => Some(CatUpdate::Alc(v)),
                (None, None, Some(v), _) => Some(CatUpdate::Po(v)),
                (None, None, None, Some(v)) => Some(CatUpdate::Signal(v)),
                _ => None,
            }
        } else if r.cmd == 0x1C {
            match r.ptt {
                Some(on) => Some(CatUpdate::Ptt(on)),
                None => None,
            }
        } else if r.cmd == 0x27 {
            match r.sweep {
                Some(s) => {
                    if s.bins.len() > 0 {
                        self.scope_finished = Some(s);
                    }
                },
                None => {},
            }
            None
        } else {
            if r.cmd == NG {
                self.nak = true;
            }
            None
        }
    }

    /// A batch of frames from the bus, in order.
    pub fn parse(&mut self, replies: Vec<Reply>, now: u64) -> (out: Vec<CatUpdate>)
        ensures
            *final(self) == after_replies(*old(self), replies@, replies@.len() as int, now),
            out@ == all_reported(replies@, replies@.len() as int),
    {
        let ghost all = replies@;
        let mut rest = replies;
        let mut out: Vec<CatUpdate> = Vec::new();
        let ghost mut n: int = 0;
        assert(rest@ =~= all.skip(0));
        while rest.len() > 0
            invariant
                0 <= n <= all.len(),
                rest@ == all.skip(n),
                *self == after_replies(*old(self), all, n, now),
                out@ == all_reported(all, n),
            decreases rest@.len(),
        {
            let r = rest.remove(0);
            assert(r == all[n]);
            assert(rest@ =~= all.skip(n + 1));
            match self.on_reply(r, now) {
                Some(u) => out.push(u),
                None => {},
            }
            proof {
                n = n + 1;
            }
        }
        out
    }
}

/// A frequency in thousandths of a hertz, rounded to whole hertz.
pub open spec fn rounded(hz: int) -> int {
    if hz >= 0 {
        (hz + 500) / 1000 * 1000
    } else {
        -((-hz + 500) / 1000 * 1000)
    }
}

/// The claim that the rig reports itself is made by a broadcast from the rig
/// alone: never by an answer to a poll, and never by our own echo.
pub proof fn law_only_a_broadcast_claims(c: Civ, r: Reply, now: u64)
    requires
        !c.pushed,
        after_reply(c, r, now).pushed,
    ensures
        r.from != CONTROLLER_ADDR,
        r.cmd == 0x00 || r.cmd == 0x01,
{
}

/// The claim is withdrawn by a polled answer alone, one that disagrees with what
/// was believed, and not within [`PUSH_CROSSED_WIRES`] of a broadcast.
pub proof fn law_only_a_silent_move_withdraws(c: Civ, r: Reply, now: u64)
    requires
        c.pushed,
        !after_reply(c, r, now).pushed,
    ensures
        r.cmd == 0x03 || r.cmd == 0x04,
        r.cmd == 0x03 ==> c.seen_freq is Some && r.freq is Some && c.seen_freq != r.freq,
        r.cmd == 0x04 ==> c.seen_mode is Some && r.mode_byte is Some && c.seen_mode != r.mode_byte,
        c.last_push matches Some(at) ==> now - at > PUSH_CROSSED_WIRES,
{
}

/// Our own tuning, answered by a poll, never withdraws the claim.
pub proof fn law_own_tuning_is_not_a_silent_move(c: Civ, hz: i64, r: Reply, now: u64)
    requires
        c.pushed,
        r.cmd == 0x03,
        r.freq == Some(rounded(hz as int) as i64),
    ensures
        after_reply(Civ { seen_freq: Some(rounded(hz as int) as i64), ..c }, r, now).pushed,
{
}

} // verus!
