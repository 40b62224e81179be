//! The shared channel: half-duplex access, what it does to the audio, and who
//! hears it. It knows nothing of the protocol above. Times are microseconds.
use crate::atchat::link;
use crate::atchat::netproto::{ClientMsg, NotBase64, ServerMsg};
use crate::text;
use std::collections::VecDeque;
use vstd::prelude::*;

verus! {

broadcast use vstd::seq::group_seq_axioms;

/// How many samples a listener gets at a time: 20 ms.
pub const MONITOR_CHUNK: usize = 160;

/// How long one sample lasts.
pub const SAMPLE_TIME: u64 = 125;

pub type ClientId = u64;

/// How the channel disturbs the audio.
#[derive(Debug)]
pub struct ChannelConfig {
    /// Signal to noise ratio in thousandths of a dB; none: no noise.
    pub snr_mdb: Option<i64>,
    /// How much later the echo arrives.
    pub multipath_delay: u64,
    /// How strong the echo is, in millionths of the signal.
    pub multipath_gain: u32,
    /// The bursts, counted from one, that arrive as silence.
    pub corrupt_burst_nums: Vec<u64>,
}

impl Clone for ChannelConfig {
    fn clone(&self) -> (r: Self)
        ensures
            r.same(*self),
    {
        let mut nums: Vec<u64> = Vec::new();
        let mut i: usize = 0;
        while i < self.corrupt_burst_nums.len()
            invariant
                i <= self.corrupt_burst_nums@.len(),
                nums@ == self.corrupt_burst_nums@.take(i as int),
            decreases self.corrupt_burst_nums@.len() - i,
        {
            nums.push(self.corrupt_burst_nums[i]);
            i += 1;
            assert(nums@ =~= self.corrupt_burst_nums@.take(i as int));
        }
        assert(nums@ =~= self.corrupt_burst_nums@);
        ChannelConfig {
            snr_mdb: self.snr_mdb,
            multipath_delay: self.multipath_delay,
            multipath_gain: self.multipath_gain,
            corrupt_burst_nums: nums,
        }
    }
}

impl Default for ChannelConfig {
    fn default() -> (r: Self)
        ensures
            r.snr_mdb is None,
            r.multipath_delay == 0,
            r.multipath_gain == 0,
            r.corrupt_burst_nums@.len() == 0,
    {
        ChannelConfig {
            snr_mdb: None,
            multipath_delay: 0,
            multipath_gain: 0,
            corrupt_burst_nums: Vec::new(),
        }
    }
}

impl ChannelConfig {
    pub open spec fn same(self, other: ChannelConfig) -> bool {
        &&& self.snr_mdb == other.snr_mdb
        &&& self.multipath_delay == other.multipath_delay
        &&& self.multipath_gain == other.multipath_gain
        &&& self.corrupt_burst_nums@ == other.corrupt_burst_nums@
    }

    /// How many samples later the echo arrives.
    pub fn multipath_delay_samples(&self) -> (r: u64)
        ensures
            r == self.multipath_delay / SAMPLE_TIME,
    {
        self.multipath_delay / SAMPLE_TIME
    }

    /// Whether burst `n` arrives as silence.
    pub fn corrupts(&self, n: u64) -> (r: bool)
        ensures
            r == self.corrupt_burst_nums@.contains(n),
    {
        let mut i: usize = 0;
        while i < self.corrupt_burst_nums.len()
            invariant
                i <= self.corrupt_burst_nums@.len(),
                forall|k: int| 0 <= k < i ==> self.corrupt_burst_nums@[k] != n,
            decreases self.corrupt_burst_nums@.len() - i,
        {
            if self.corrupt_burst_nums[i] == n {
                return true;
            }
            i += 1;
        }
        false
    }
}

/// The audio with its echo, in millionths of a sample step: each sample and the
/// share of the one so many samples before it.
pub open spec fn echoed(s: Seq<i16>, delay: int, gain: int) -> Seq<i64> {
    Seq::new(
        s.len(),
        |i: int|
            (s[i] * 1_000_000 + if gain > 0 && 0 < delay < s.len() && delay <= i {
                gain * s[i - delay]
            } else {
                0
            }) as i64,
    )
}

/// A disturbed sample as it is received: clipped, the fraction dropped.
pub open spec fn clipped(v: int) -> int {
    if v >= 32767_000000 {
        32767
    } else if v <= -32768_000000 {
        -32768
    } else if v >= 0 {
        v / 1_000_000
    } else {
        -(-v / 1_000_000)
    }
}

/// The audio with its echo, in millionths of a sample step. The power of the
/// noise is taken from what this gives.
pub fn add_echo(samples: &[i16], cfg: &ChannelConfig) -> (r: Vec<i64>)
    ensures
        r@ == echoed(
            samples@,
            (cfg.multipath_delay / SAMPLE_TIME) as int,
            cfg.multipath_gain as int,
        ),
{
    let d: u64 = cfg.multipath_delay_samples();
    let gain: i64 = cfg.multipath_gain as i64;
    let n: usize = samples.len();
    let on: bool = gain > 0 && d > 0 && d < n as u64;
    let ghost all = echoed(samples@, d as int, gain as int);
    let mut out: Vec<i64> = Vec::new();
    let mut i: usize = 0;
    while i < n
        invariant
            i <= n,
            n == samples@.len(),
            0 <= gain <= 0xffff_ffff,
            on == (gain > 0 && d > 0 && d < n),
            all == echoed(samples@, d as int, gain as int),
            out@.len() == i,
            forall|k: int| 0 <= k < i ==> out@[k] == all[k],
        decreases n - i,
    {
        let direct: i64 = samples[i] as i64 * 1_000_000;
        let echo: i64 = if on && d as usize <= i {
            let e: i64 = samples[i - d as usize] as i64;
            assert(-0x8000_0000_0000 <= gain * e <= 0x8000_0000_0000) by (nonlinear_arith)
                requires
                    0 <= gain <= 0xffff_ffff,
                    -0x8000 <= e <= 0x7fff,
            ;
            gain * e
        } else {
            0
        };
        out.push(direct + echo);
        i += 1;
    }
    assert(out@ =~= all);
    out
}

/// What is received of audio with an echo when some noise, in millionths of a
/// sample step, is added. Where there is less noise than audio the rest is
/// quiet.
pub fn receive(x: &Vec<i64>, noise: &[i64]) -> (r: Vec<i16>)
    requires
        forall|i: int|
            0 <= i < x@.len() ==> -0x1000_0000_0000_0000 <= #[trigger] x@[i]
                <= 0x1000_0000_0000_0000,
        forall|i: int|
            0 <= i < noise@.len() ==> -0x1000_0000_0000_0000 <= #[trigger] noise@[i]
                <= 0x1000_0000_0000_0000,
    ensures
        r@.len() == x@.len(),
        forall|i: int|
            0 <= i < r@.len() ==> r@[i] == clipped(
                #[trigger] x@[i] + if i < noise@.len() {
                    noise@[i] as int
                } else {
                    0
                },
            ),
{
    let mut out: Vec<i16> = Vec::new();
    let mut i: usize = 0;
    while i < x.len()
        invariant
            i <= x@.len(),
            forall|i: int|
                0 <= i < x@.len() ==> -0x1000_0000_0000_0000 <= #[trigger] x@[i]
                    <= 0x1000_0000_0000_0000,
            forall|i: int|
                0 <= i < noise@.len() ==> -0x1000_0000_0000_0000 <= #[trigger] noise@[i]
                    <= 0x1000_0000_0000_0000,
            out@.len() == i,
            forall|k: int|
                0 <= k < i ==> out@[k] == clipped(
                    #[trigger] x@[k] + if k < noise@.len() {
                        noise@[k] as int
                    } else {
                        0
                    },
                ),
        decreases x@.len() - i,
    {
        let e: i64 = if i < noise.len() { noise[i] } else { 0 };
        let v: i64 = x[i] + e;
        let s: i16 = if v >= 32767_000000 {
            32767
        } else if v <= -32768_000000 {
            -32768
        } else if v >= 0 {
            (v / 1_000_000) as i16
        } else {
            -((-v) / 1_000_000) as i16
        };
        out.push(s);
        i += 1;
    }
    out
}

/// A channel that neither echoes nor makes noise hands the audio on as it is.
pub proof fn law_a_clean_channel_changes_nothing(s: Seq<i16>, delay: int, gain: int, i: int)
    requires
        0 <= i < s.len(),
        gain <= 0 || delay <= 0 || delay >= s.len(),
    ensures
        clipped(echoed(s, delay, gain)[i] as int) == s[i],
{
}

/// What the channel tells those who watch it.
#[derive(Debug, Clone)]
pub enum ChannelEvent {
    Joined { callsign: String, active: usize },
    Left { callsign: String, active: usize },
    TxGranted { src: String, n_samples: usize, duration: u64 },
    TxDenied { src: String, retry_after: u64 },
    Delivered { src: String, n_samples: usize },
    /// What a passive listener made of a burst: `TA1ABC -> ALL | CHAT`.
    Decoded { duration: u64, summary: Option<String> },
}

/// The channel at one moment.
#[derive(Debug)]
pub struct ChannelSnapshot {
    pub busy: bool,
    pub busy_remaining: u64,
    pub current_tx: Option<String>,
    pub active_clients: usize,
    pub cfg: ChannelConfig,
}

/// A station on the channel.
#[derive(Debug)]
pub struct Client {
    pub id: ClientId,
    pub callsign: String,
}

/// What became of a request to transmit.
#[derive(Debug)]
pub enum Answer {
    /// Nobody with that id is on the channel.
    Stranger,
    /// Another transmission is on the air for so long.
    Busy { src: String, retry_after: u64 },
    /// The air belongs to the station for so long.
    Granted {
        src: String,
        n_samples: usize,
        duration: u64,
        /// The burst arrives as silence.
        silenced: bool,
    },
}

impl Answer {
    /// What the station that asked is told.
    pub fn reply(&self) -> (r: Option<ServerMsg>)
        ensures
            match *self {
                Answer::Stranger => r is None,
                Answer::Busy { retry_after, .. } => r matches Some(
                    ServerMsg::ChannelBusy { retry_after: t },
                ) && t == retry_after,
                Answer::Granted { duration, .. } => r matches Some(
                    ServerMsg::TxGranted { duration: t },
                ) && t == duration,
            },
    {
        match self {
            Answer::Stranger => None,
            Answer::Busy { retry_after, .. } => Some(
                ServerMsg::ChannelBusy { retry_after: *retry_after },
            ),
            Answer::Granted { duration, .. } => Some(ServerMsg::TxGranted { duration: *duration }),
        }
    }

    /// What those who watch the channel are told.
    pub fn event(&self) -> (r: Option<ChannelEvent>)
        ensures
            match *self {
                Answer::Stranger => r is None,
                Answer::Busy { src, retry_after } => r matches Some(
                    ChannelEvent::TxDenied { src: s, retry_after: t },
                ) && s@ == src@ && t == retry_after,
                Answer::Granted { src, n_samples, duration, .. } => r matches Some(
                    ChannelEvent::TxGranted { src: s, n_samples: n, duration: t },
                ) && s@ == src@ && n == n_samples && t == duration,
            },
    {
        match self {
            Answer::Stranger => None,
            Answer::Busy { src, retry_after } => Some(
                ChannelEvent::TxDenied {
                    src: src.as_str().to_owned(),
                    retry_after: *retry_after,
                },
            ),
            Answer::Granted { src, n_samples, duration, .. } => Some(
                ChannelEvent::TxGranted {
                    src: src.as_str().to_owned(),
                    n_samples: *n_samples,
                    duration: *duration,
                },
            ),
        }
    }
}

/// The channel.
#[derive(Debug)]
pub struct ChannelCore {
    clients: Vec<Client>,
    next_id: ClientId,
    busy_until: u64,
    busy_src: Option<String>,
    cfg: ChannelConfig,
    burst_count: u64,
    airwaves: VecDeque<i16>,
}

/// The channel as it is spoken of.
pub struct ChannelView {
    /// The stations, in the order in which they came.
    pub clients: Seq<(ClientId, Seq<char>)>,
    pub next_id: int,
    /// When the transmission on the air ends.
    pub busy_until: int,
    pub busy_src: Option<Seq<char>>,
    pub snr_mdb: Option<i64>,
    pub multipath_delay: u64,
    pub multipath_gain: u32,
    pub corrupt: Seq<u64>,
    /// How many bursts were granted.
    pub bursts: int,
    /// What a listener has yet to hear.
    pub airwaves: Seq<i16>,
}

impl View for ChannelCore {
    type V = ChannelView;

    closed spec fn view(&self) -> ChannelView {
        ChannelView {
            clients: callsigns(self.clients@),
            next_id: self.next_id as int,
            busy_until: self.busy_until as int,
            busy_src: match self.busy_src {
                Some(s) => Some(s@),
                None => None,
            },
            snr_mdb: self.cfg.snr_mdb,
            multipath_delay: self.cfg.multipath_delay,
            multipath_gain: self.cfg.multipath_gain,
            corrupt: self.cfg.corrupt_burst_nums@,
            bursts: self.burst_count as int,
            airwaves: self.airwaves@,
        }
    }
}

pub open spec fn callsigns(clients: Seq<Client>) -> Seq<(ClientId, Seq<char>)> {
    Seq::new(clients.len(), |i: int| (clients[i].id, clients[i].callsign@))
}

impl ChannelView {
    /// Ids are given out once, in rising order.
    pub open spec fn wf(self) -> bool {
        &&& forall|i: int| 0 <= i < self.clients.len() ==> (#[trigger] self.clients[i]).0 < self.next_id
        &&& forall|i: int, j: int|
            0 <= i < j < self.clients.len() ==> self.clients[i].0 < self.clients[j].0
    }

    /// Where a station stands, if it is on the channel.
    pub open spec fn place(self, id: ClientId, from: int) -> Option<int>
        decreases self.clients.len() - from,
    {
        if from >= self.clients.len() {
            None
        } else if self.clients[from].0 == id {
            Some(from)
        } else {
            self.place(id, from + 1)
        }
    }

    pub open spec fn same_settings(self, other: ChannelView) -> bool {
        &&& self.snr_mdb == other.snr_mdb
        &&& self.multipath_delay == other.multipath_delay
        &&& self.multipath_gain == other.multipath_gain
        &&& self.corrupt == other.corrupt
    }

    pub open spec fn same_access(self, other: ChannelView) -> bool {
        &&& self.busy_until == other.busy_until
        &&& self.busy_src == other.busy_src
        &&& self.bursts == other.bursts
    }

    /// What a request to transmit `n` samples is answered, and the state after
    /// it: the air is given to one station at a time, for as long as its samples
    /// last.
    pub open spec fn asked(self, id: ClientId, n: int, now: int) -> (Asked, ChannelView) {
        match self.place(id, 0) {
            None => (Asked::Stranger, self),
            Some(i) => {
                let src = self.clients[i].1;
                if now < self.busy_until {
                    (Asked::Busy { src, retry_after: self.busy_until - now }, self)
                } else {
                    (
                        Asked::Granted {
                            src,
                            duration: n * SAMPLE_TIME,
                            silenced: self.corrupt.contains((self.bursts + 1) as u64),
                        },
                        ChannelView {
                            busy_until: now + n * SAMPLE_TIME,
                            busy_src: Some(src),
                            bursts: self.bursts + 1,
                            ..self
                        },
                    )
                }
            },
        }
    }
}

/// An answer as it is spoken of.
pub enum Asked {
    Stranger,
    Busy { src: Seq<char>, retry_after: int },
    Granted { src: Seq<char>, duration: int, silenced: bool },
}

impl Answer {
    pub open spec fn is(self, a: Asked, n: int) -> bool {
        match a {
            Asked::Stranger => self is Stranger,
            Asked::Busy { src, retry_after } => self matches Answer::Busy { src: s, retry_after: t }
                && s@ == src && t == retry_after,
            Asked::Granted { src, duration, silenced } => self matches Answer::Granted {
                src: s,
                n_samples,
                duration: t,
                silenced: z,
            } && s@ == src && n_samples == n && t == duration && z == silenced,
        }
    }
}

/// Half duplex: while a transmission is on the air every other request is
/// refused, with the time that is left, and the channel stays as it is.
pub proof fn law_half_duplex(
    c: ChannelView,
    id: ClientId,
    n: int,
    at: int,
    other: ClientId,
    m: int,
    now: int,
)
    requires
        c.asked(id, n, at).0 is Granted,
        at <= now < at + n * SAMPLE_TIME,
    ensures
        ({
            let after = c.asked(id, n, at).1;
            let (answer, next) = after.asked(other, m, now);
            &&& next == after
            &&& after.place(other, 0) is Some ==> (answer matches Asked::Busy { retry_after, .. }
                && retry_after == at + n * SAMPLE_TIME - now)
            &&& after.place(other, 0) is None ==> answer is Stranger
        }),
{
}

/// Who waits as long as it was told to is let on, unless another came first.
pub proof fn law_the_wait_is_long_enough(c: ChannelView, id: ClientId, n: int, now: int)
    requires
        c.asked(id, n, now).0 is Busy,
    ensures
        ({
            let wait = c.asked(id, n, now).0->retry_after;
            &&& wait > 0
            &&& c.asked(id, n, now + wait).0 is Granted
            &&& c.asked(id, n, now + wait - 1).0 is Busy
        }),
{
}

/// A new station's id belongs to nobody else, and those on the channel keep
/// theirs.
pub proof fn law_ids_are_fresh(c: ChannelView)
    requires
        c.wf(),
    ensures
        forall|i: int| 0 <= i < c.clients.len() ==> (#[trigger] c.clients[i]).0 != c.next_id,
{
}

proof fn lemma_place(c: ChannelView, id: ClientId, from: int, at: int)
    requires
        0 <= from <= at <= c.clients.len(),
        forall|k: int| from <= k < at ==> (#[trigger] c.clients[k]).0 != id,
        at < c.clients.len() ==> c.clients[at].0 == id,
    ensures
        c.place(id, from) == if at < c.clients.len() {
            Some(at)
        } else {
            None::<int>
        },
    decreases at - from,
{
    if from < at {
        lemma_place(c, id, from + 1, at);
    }
}

impl ChannelCore {
    /// A channel with nobody on it.
    pub fn new(cfg: ChannelConfig, now: u64) -> (r: Self)
        ensures
            r@.wf(),
            r@.clients.len() == 0,
            r@.next_id == 1,
            r@.busy_until == now,
            r@.busy_src is None,
            r@.bursts == 0,
            r@.airwaves.len() == 0,
            r@.snr_mdb == cfg.snr_mdb,
            r@.multipath_delay == cfg.multipath_delay,
            r@.multipath_gain == cfg.multipath_gain,
            r@.corrupt == cfg.corrupt_burst_nums@,
    {
        ChannelCore {
            clients: Vec::new(),
            next_id: 1,
            busy_until: now,
            busy_src: None,
            cfg,
            burst_count: 0,
            airwaves: VecDeque::new(),
        }
    }

    /// Where a station stands.
    fn find(&self, id: ClientId) -> (r: Option<usize>)
        ensures
            match self@.place(id, 0) {
                Some(i) => r matches Some(k) && k == i && k < self.clients@.len()
                    && self.clients@[k as int].id == id,
                None => r is None,
            },
    {
        let mut i: usize = 0;
        while i < self.clients.len()
            invariant
                i <= self.clients@.len(),
                forall|k: int| 0 <= k < i ==> (#[trigger] self.clients@[k]).id != id,
            decreases self.clients@.len() - i,
        {
            if self.clients[i].id == id {
                proof {
                    assert forall|k: int| 0 <= k < i implies (#[trigger] self@.clients[k]).0
                        != id by {
                        assert(self.clients@[k].id != id);
                    }
                    lemma_place(self@, id, 0, i as int);
                }
                return Some(i);
            }
            i += 1;
        }
        proof {
            assert forall|k: int| 0 <= k < i implies (#[trigger] self@.clients[k]).0 != id by {
                assert(self.clients@[k].id != id);
            }
            lemma_place(self@, id, 0, i as int);
        }
        None
    }

    /// A station comes on the channel.
    pub fn register(&mut self, callsign: &str) -> (r: (ClientId, ChannelEvent))
        requires
            old(self)@.wf(),
            old(self)@.next_id < u64::MAX,
        ensures
            final(self)@.wf(),
            r.0 == old(self)@.next_id,
            r.1 matches ChannelEvent::Joined { callsign: s, active } && s@ == callsign@ && active
                == final(self)@.clients.len(),
            final(self)@.clients == old(self)@.clients.push((r.0, callsign@)),
            final(self)@.next_id == old(self)@.next_id + 1,
            final(self)@.same_settings(old(self)@),
            final(self)@.same_access(old(self)@),
            final(self)@.airwaves == old(self)@.airwaves,
    {
        let id: u64 = self.next_id;
        let ghost before = self.clients@;
        self.next_id = id + 1;
        self.clients.push(Client { id, callsign: callsign.to_owned() });
        assert(callsigns(self.clients@) =~= callsigns(before).push((id, callsign@)));
        assert(self@.wf()) by {
            let was = old(self)@.clients;
            let now = self@.clients;
            assert forall|i: int| 0 <= i < now.len() implies (#[trigger] now[i]).0
                < self@.next_id by {
                if i < was.len() {
                    assert(now[i] == was[i]);
                }
            }
            assert forall|i: int, j: int| 0 <= i < j < now.len() implies now[i].0 < now[j].0 by {
                assert(now[i] == was[i]);
                if j < was.len() {
                    assert(now[j] == was[j]);
                }
            }
        }
        let active: usize = self.clients.len();
        (id, ChannelEvent::Joined { callsign: callsign.to_owned(), active })
    }

    /// A station leaves the channel.
    pub fn deregister(&mut self, id: ClientId) -> (r: Option<ChannelEvent>)
        requires
            old(self)@.wf(),
        ensures
            final(self)@.wf(),
            final(self)@.next_id == old(self)@.next_id,
            final(self)@.same_settings(old(self)@),
            final(self)@.same_access(old(self)@),
            final(self)@.airwaves == old(self)@.airwaves,
            match old(self)@.place(id, 0) {
                Some(i) => {
                    &&& final(self)@.clients == old(self)@.clients.remove(i)
                    &&& r matches Some(ChannelEvent::Left { callsign, active }) && callsign@
                        == old(self)@.clients[i].1 && active == final(self)@.clients.len()
                },
                None => r is None && final(self)@.clients == old(self)@.clients,
            },
    {
        match self.find(id) {
            Some(i) => {
                let ghost before = self.clients@;
                let gone = self.clients.remove(i);
                assert(callsigns(self.clients@) =~= callsigns(before).remove(i as int));
                Some(ChannelEvent::Left { callsign: gone.callsign, active: self.clients.len() })
            },
            None => None,
        }
    }

    pub fn set_config(&mut self, cfg: ChannelConfig)
        ensures
            final(self)@ == (ChannelView {
                snr_mdb: cfg.snr_mdb,
                multipath_delay: cfg.multipath_delay,
                multipath_gain: cfg.multipath_gain,
                corrupt: cfg.corrupt_burst_nums@,
                ..old(self)@
            }),
    {
        self.cfg = cfg;
    }

    pub fn config(&self) -> (r: ChannelConfig)
        ensures
            r.snr_mdb == self@.snr_mdb,
            r.multipath_delay == self@.multipath_delay,
            r.multipath_gain == self@.multipath_gain,
            r.corrupt_burst_nums@ == self@.corrupt,
    {
        self.cfg.clone()
    }

    /// The channel as it is now.
    pub fn snapshot(&self, now: u64) -> (r: ChannelSnapshot)
        ensures
            r.busy == (now < self@.busy_until),
            r.busy_remaining == if now < self@.busy_until {
                self@.busy_until - now
            } else {
                0
            },
            match self@.busy_src {
                Some(s) => if now < self@.busy_until {
                    r.current_tx matches Some(t) && t@ == s
                } else {
                    r.current_tx is None
                },
                None => r.current_tx is None,
            },
            r.active_clients == self@.clients.len(),
            r.cfg.snr_mdb == self@.snr_mdb,
            r.cfg.multipath_delay == self@.multipath_delay,
            r.cfg.multipath_gain == self@.multipath_gain,
            r.cfg.corrupt_burst_nums@ == self@.corrupt,
    {
        let busy: bool = now < self.busy_until;
        let current_tx: Option<String> = if busy {
            match &self.busy_src {
                Some(s) => Some(s.as_str().to_owned()),
                None => None,
            }
        } else {
            None
        };
        ChannelSnapshot {
            busy,
            busy_remaining: if busy { self.busy_until - now } else { 0 },
            current_tx,
            active_clients: self.clients.len(),
            cfg: self.cfg.clone(),
        }
    }

    /// A station asks to transmit `n_samples`.
    pub fn transmit(&mut self, id: ClientId, n_samples: usize, now: u64) -> (r: Answer)
        requires
            old(self)@.wf(),
            now + n_samples * SAMPLE_TIME <= u64::MAX,
            old(self)@.bursts < u64::MAX,
        ensures
            final(self)@.wf(),
            final(self)@ == old(self)@.asked(id, n_samples as int, now as int).1,
            r.is(old(self)@.asked(id, n_samples as int, now as int).0, n_samples as int),
    {
        let at: usize = match self.find(id) {
            Some(i) => i,
            None => {
                return Answer::Stranger;
            },
        };
        let src: String = self.clients[at].callsign.as_str().to_owned();
        if now < self.busy_until {
            return Answer::Busy { src, retry_after: self.busy_until - now };
        }
        let duration: u64 = n_samples as u64 * SAMPLE_TIME;
        self.busy_until = now + duration;
        self.busy_src = Some(src.as_str().to_owned());
        self.burst_count = self.burst_count + 1;
        let silenced: bool = self.cfg.corrupts(self.burst_count);
        Answer::Granted { src, n_samples, duration, silenced }
    }

    /// What goes on the air of a disturbed burst: the listener hears it from now
    /// on, and the stations get it when its time is over.
    pub fn put_on_air(&mut self, disturbed: Vec<i16>, silenced: bool) -> (r: Vec<i16>)
        ensures
            r@.len() == disturbed@.len(),
            forall|i: int|
                0 <= i < r@.len() ==> r@[i] == if silenced {
                    0
                } else {
                    disturbed@[i]
                },
            final(self)@ == (ChannelView { airwaves: old(self)@.airwaves + r@, ..old(self)@ }),
    {
        let mut out: Vec<i16> = Vec::new();
        let ghost before = self.airwaves@;
        let ghost start = self@;
        let mut i: usize = 0;
        while i < disturbed.len()
            invariant
                i <= disturbed@.len(),
                out@.len() == i,
                forall|k: int|
                    0 <= k < i ==> out@[k] == if silenced {
                        0
                    } else {
                        disturbed@[k]
                    },
                before == start.airwaves,
                self.airwaves@ == before + out@,
                self@ == (ChannelView { airwaves: self.airwaves@, ..start }),
            decreases disturbed@.len() - i,
        {
            let s: i16 = if silenced { 0 } else { disturbed[i] };
            out.push(s);
            self.airwaves.push_back(s);
            i += 1;
            assert(self.airwaves@ =~= before + out@);
        }
        out
    }

    /// The next 20 ms for a listener: what is on the air, then silence.
    pub fn monitor_chunk(&mut self) -> (r: Vec<i16>)
        ensures
            r@.len() == MONITOR_CHUNK,
            forall|i: int|
                0 <= i < MONITOR_CHUNK ==> r@[i] == if i < old(self)@.airwaves.len() {
                    old(self)@.airwaves[i]
                } else {
                    0
                },
            final(self)@ == (ChannelView {
                airwaves: if old(self)@.airwaves.len() <= MONITOR_CHUNK {
                    Seq::empty()
                } else {
                    old(self)@.airwaves.skip(MONITOR_CHUNK as int)
                },
                ..old(self)@
            }),
    {
        let ghost start = self@;
        let mut chunk: Vec<i16> = Vec::new();
        while chunk.len() < MONITOR_CHUNK
            invariant
                chunk@.len() <= MONITOR_CHUNK,
                forall|i: int|
                    0 <= i < chunk@.len() ==> chunk@[i] == if i < start.airwaves.len() {
                        start.airwaves[i]
                    } else {
                        0
                    },
                self.airwaves@ == if start.airwaves.len() <= chunk@.len() {
                    Seq::empty()
                } else {
                    start.airwaves.skip(chunk@.len() as int)
                },
                self@ == (ChannelView { airwaves: self.airwaves@, ..start }),
            decreases MONITOR_CHUNK - chunk.len(),
        {
            let s: i16 = match self.airwaves.pop_front() {
                Some(v) => v,
                None => 0,
            };
            chunk.push(s);
            assert(self.airwaves@ =~= if start.airwaves.len() <= chunk@.len() {
                Seq::empty()
            } else {
                start.airwaves.skip(chunk@.len() as int)
            });
        }
        chunk
    }

    /// Who gets a burst when its time is over: everybody on the channel, its
    /// sender among them.
    pub fn audience(&self) -> (r: Vec<ClientId>)
        ensures
            r@.len() == self@.clients.len(),
            forall|i: int| 0 <= i < r@.len() ==> r@[i] == (#[trigger] self@.clients[i]).0,
    {
        let mut out: Vec<ClientId> = Vec::new();
        let mut i: usize = 0;
        while i < self.clients.len()
            invariant
                i <= self.clients@.len(),
                out@.len() == i,
                forall|k: int| 0 <= k < i ==> out@[k] == (#[trigger] self@.clients[k]).0,
            decreases self.clients@.len() - i,
        {
            out.push(self.clients[i].id);
            i += 1;
        }
        out
    }
}

/// What the stations get of a burst: it reads back as the same samples.
pub fn delivery(samples: &Vec<i16>) -> (r: ServerMsg)
    ensures
        r matches ServerMsg::RxAudio { audio_b64 } && link::text_samples(audio_b64@) == Some(
            samples@,
        ),
{
    ServerMsg::RxAudio { audio_b64: link::samples_to_b64(samples.as_slice()) }
}

/// The fields of a message from a station, as far as it has them.
#[derive(Debug, Clone)]
pub struct Fields {
    pub cmd: Option<String>,
    pub callsign: Option<String>,
    pub audio_b64: Option<String>,
}

/// Why a connection is refused.
#[derive(Debug, Clone, Copy, PartialEq, Eq, Structural)]
pub enum HelloError {
    /// It ended before it said hello.
    Eof,
    /// Its first line is not JSON.
    NotJson,
    /// The first message is not a hello.
    NotHello,
    /// The hello has no callsign.
    NoCallsign,
}

/// Whether a field is there and holds some text.
pub open spec fn says(field: Option<String>, text: Seq<char>) -> bool {
    field matches Some(s) && s@ == text
}

/// A connection's first message: a hello with the callsign to register.
pub fn first_message(first: Option<Fields>) -> (r: Result<String, HelloError>)
    ensures
        match first {
            None => r == Err::<String, HelloError>(HelloError::Eof),
            Some(f) => if !says(f.cmd, "HELLO"@) {
                r == Err::<String, HelloError>(HelloError::NotHello)
            } else {
                match f.callsign {
                    None => r == Err::<String, HelloError>(HelloError::NoCallsign),
                    Some(c) => r == Ok::<String, HelloError>(c),
                }
            },
        },
{
    match first {
        None => Err(HelloError::Eof),
        Some(f) => {
            let hello: bool = match &f.cmd {
                Some(c) => text::same(c.as_str(), "HELLO"),
                None => false,
            };
            if !hello {
                return Err(HelloError::NotHello);
            }
            match f.callsign {
                Some(c) => Ok(c),
                None => Err(HelloError::NoCallsign),
            }
        },
    }
}

/// A later message: the samples to transmit, nothing where it asks for nothing
/// that is known, an error where its audio is not base64.
pub fn later_message(f: &Fields) -> (r: Result<Option<Vec<i16>>, NotBase64>)
    ensures
        match f.audio_b64 {
            Some(b) => if says(f.cmd, "TRANSMIT_AUDIO"@) {
                match link::text_samples(b@) {
                    Some(s) => r matches Ok(Some(v)) && v@ == s,
                    None => r is Err,
                }
            } else {
                r matches Ok(None)
            },
            None => r matches Ok(None),
        },
{
    let transmit: bool = match &f.cmd {
        Some(c) => text::same(c.as_str(), "TRANSMIT_AUDIO"),
        None => false,
    };
    if !transmit {
        return Ok(None);
    }
    match &f.audio_b64 {
        Some(b) => match link::b64_to_samples(b.as_str()) {
            Ok(v) => Ok(Some(v)),
            Err(e) => Err(e),
        },
        None => Ok(None),
    }
}

/// A message of a station in the same process: a hello asks for nothing more.
pub fn local_message(msg: &ClientMsg) -> (r: Result<Option<Vec<i16>>, NotBase64>)
    ensures
        match *msg {
            ClientMsg::Hello { .. } => r matches Ok(None),
            ClientMsg::TransmitAudio { audio_b64 } => match link::text_samples(audio_b64@) {
                Some(s) => r matches Ok(Some(v)) && v@ == s,
                None => r is Err,
            },
        },
{
    match msg {
        ClientMsg::Hello { .. } => Ok(None),
        ClientMsg::TransmitAudio { audio_b64 } => match link::b64_to_samples(audio_b64.as_str()) {
            Ok(v) => Ok(Some(v)),
            Err(e) => Err(e),
        },
    }
}

} // verus!
