//! The half of a packet station that is not the protocol: what waits to be sent,
//! carrier detect, and when the transmitter may key.
//!
//! Two rules fail silently where they are broken. The station must not hear its
//! own transmission: it would acknowledge itself. And the slot timer runs on the
//! audio clock, by samples, and on no other.
use std::collections::VecDeque;
use vstd::prelude::*;

verus! {

broadcast use vstd::seq::group_seq_axioms;

/// The speed of a channel.
#[derive(Debug, Clone, Copy, PartialEq, Eq, Structural)]
pub enum PacketBaud {
    Hf300,
    Vhf1200,
    Vhf9600,
}

impl PacketBaud {
    pub open spec fn bits(self) -> int {
        match self {
            PacketBaud::Hf300 => 300,
            PacketBaud::Vhf1200 => 1200,
            PacketBaud::Vhf9600 => 9600,
        }
    }

    /// Bits a second.
    pub fn baud(self) -> (r: u32)
        ensures
            r == self.bits(),
    {
        match self {
            PacketBaud::Hf300 => 300,
            PacketBaud::Vhf1200 => 1200,
            PacketBaud::Vhf9600 => 9600,
        }
    }
}

/// The operator's settings.
#[derive(Debug, Clone)]
pub struct DigiConfig {
    pub packet_baud: PacketBaud,
    /// How long a slot is.
    pub packet_slottime_ms: u16,
    /// In how many of 256 slots a frame goes out.
    pub packet_persist: u8,
    /// How long flags are sent before the first frame.
    pub packet_txdelay_ms: u16,
    /// How long flags are sent behind the last.
    pub packet_txtail_ms: u16,
    pub packet_mycall: String,
    pub packet_beacon_text: String,
    /// Minutes from one beacon to the next; none where it is zero.
    pub packet_beacon_minutes: u32,
    pub packet_accept_incoming: bool,
}

/// How many samples a slot has, to the nearest, and one at least.
pub open spec fn slot_len(slottime_ms: u16, rate: u32) -> int {
    let ms: int = if slottime_ms < 1 {
        1
    } else {
        slottime_ms as int
    };
    let n = (ms * rate + 500) / 1000;
    if n < 1 {
        1
    } else if n > u32::MAX {
        u32::MAX as int
    } else {
        n
    }
}

/// How many samples a slot has.
pub fn slot_samples(slottime_ms: u16, rate: u32) -> (r: u32)
    ensures
        r == slot_len(slottime_ms, rate),
        r >= 1,
{
    let ms: u64 = if slottime_ms < 1 { 1 } else { slottime_ms as u64 };
    let hz: u64 = rate as u64;
    assert(ms * hz <= 65535 * 0xffff_ffff) by (nonlinear_arith)
        requires
            1 <= ms <= 65535,
            0 <= hz <= 0xffff_ffff,
    ;
    let n: u64 = (ms * hz + 500) / 1000;
    if n < 1 {
        1
    } else if n > 0xffff_ffff {
        0xffff_ffff
    } else {
        n as u32
    }
}

/// How many flags fill a time, a part of one counted in full, and one at least.
pub open spec fn flag_count(ms: u16, baud: PacketBaud) -> int {
    let n = (ms * baud.bits() + 7999) / 8000;
    if n < 1 {
        1
    } else {
        n
    }
}

fn flags_for(ms: u16, baud: PacketBaud) -> (r: usize)
    ensures
        r == flag_count(ms, baud),
{
    let bits: u32 = baud.baud();
    assert(0 <= ms * bits <= 65535 * 9600) by (nonlinear_arith)
        requires
            0 <= ms <= 65535,
            0 <= bits <= 9600,
    ;
    let n: u32 = (ms as u32 * bits + 7999) / 8000;
    if n < 1 {
        1
    } else {
        n as usize
    }
}

/// `getrandom::fill` on one byte: a byte from the system's source of randomness,
/// none where there is no such source. Nothing is claimed of the byte.
#[verifier::external_body]
fn random_byte() -> (r: Option<u8>) {
    let mut b = [0u8; 1];
    getrandom::fill(&mut b).ok().map(|_| b[0])
}

/// A byte for the persistence test: the random one, or a part of the clock's
/// nanoseconds where there is none. That is weaker, but a collision is all that
/// can come of it.
pub open spec fn rolled(drawn: Option<u8>, nanos: u32) -> u8 {
    match drawn {
        Some(b) => b,
        None => (nanos as int / 128 % 256) as u8,
    }
}

/// The byte for the persistence test, of what was drawn.
pub fn roll_of(drawn: Option<u8>, nanos: u32) -> (r: u8)
    ensures
        r == rolled(drawn, nanos),
{
    match drawn {
        Some(b) => b,
        None => (nanos / 128 % 256) as u8,
    }
}

/// A byte for the persistence test. Which one is chance: any byte can have been
/// drawn, and [`roll_of`] says what becomes of it.
pub fn roll(nanos: u32) -> (r: u8)
    ensures
        exists|drawn: Option<u8>| r == rolled(drawn, nanos),
{
    let drawn: Option<u8> = random_byte();
    let r: u8 = roll_of(drawn, nanos);
    assert(r == rolled(drawn, nanos));
    r
}

/// What the modem and the deframer made of a block of audio.
#[derive(Debug)]
pub struct Heard {
    /// Frames that passed their check, in order.
    pub frames: Vec<Vec<u8>>,
    /// How many failed it.
    pub bad: u32,
    /// A signal is there.
    pub busy: bool,
}

/// What a block of audio came to.
#[derive(Debug)]
pub struct RxResult {
    pub frames: Vec<Vec<u8>>,
    pub bad: u32,
    /// Carrier detect changed.
    pub dcd_changed: bool,
}

/// What goes out in one over: flags, the frames with a flag behind each, flags.
#[derive(Debug)]
pub struct Over {
    pub head_flags: usize,
    pub frames: Vec<Vec<u8>>,
    pub tail_flags: usize,
}

/// One channel.
#[derive(Debug)]
pub struct Ax25Channel {
    pub baud: PacketBaud,
    pub rate: u32,
    /// Our own transmitter is on the air.
    pub keyed: bool,
    /// Frames that wait for the channel, the oldest first.
    pub pending: VecDeque<Vec<u8>>,
    /// The channel is ours to key.
    pub want_tx: bool,
    /// Samples left of the slot.
    pub slot_left: u32,
    pub slot_samples: u32,
    pub dcd: bool,
}

/// The part of a channel that decides when to key.
pub struct Access {
    pub keyed: bool,
    pub waiting: bool,
    pub want_tx: bool,
    pub slot_left: int,
    pub slot: int,
    pub dcd: bool,
}

impl Access {
    /// Whether a slot ends with the next block: there is something to send, the
    /// channel is free, and the slot is no longer than the block.
    pub open spec fn slot_ends(self, n: int) -> bool {
        self.waiting && !self.keyed && !self.want_tx && !self.dcd && self.slot_left <= n
    }

    /// The slot timer after a block of `n` samples: at the end of a slot the
    /// station keys with a probability of `persist` in 256. A channel that is
    /// busy holds the timer at a full slot, so nobody pounces on the first quiet
    /// sample.
    pub open spec fn after(self, n: int, persist: u8, roll: u8) -> Access {
        if !self.waiting || self.keyed || self.want_tx || self.dcd {
            Access { slot_left: self.slot, ..self }
        } else if self.slot_left > n {
            Access { slot_left: self.slot_left - n, ..self }
        } else {
            Access { slot_left: self.slot, want_tx: roll < persist, ..self }
        }
    }

    /// The same with the carrier of that block.
    pub open spec fn heard(self, busy: bool, n: int, persist: u8, roll: u8) -> Access {
        if self.keyed {
            self
        } else {
            (Access { dcd: busy, ..self }).after(n, persist, roll)
        }
    }
}

impl Ax25Channel {
    pub open spec fn access(self) -> Access {
        Access {
            keyed: self.keyed,
            waiting: self.pending@.len() > 0,
            want_tx: self.want_tx,
            slot_left: self.slot_left as int,
            slot: self.slot_samples as int,
            dcd: self.dcd,
        }
    }

    /// A channel with nothing to send. The first slot is a full one: what is
    /// queued before any audio arrived waits for it too.
    pub fn new(baud: PacketBaud, cfg: &DigiConfig, rate: u32) -> (r: Ax25Channel)
        ensures
            r.baud == baud,
            r.rate == rate,
            !r.keyed,
            r.pending@.len() == 0,
            !r.want_tx,
            r.slot_samples == slot_len(cfg.packet_slottime_ms, rate),
            r.slot_left == r.slot_samples,
            !r.dcd,
    {
        let slot: u32 = slot_samples(cfg.packet_slottime_ms, rate);
        Ax25Channel {
            baud,
            rate,
            keyed: false,
            pending: VecDeque::new(),
            want_tx: false,
            slot_left: slot,
            slot_samples: slot,
            dcd: false,
        }
    }

    /// Another speed, or another sample rate. What waits stays.
    pub fn rebuild(&mut self, baud: PacketBaud, cfg: &DigiConfig, rate: u32)
        ensures
            *final(self) == (Ax25Channel {
                baud,
                rate,
                slot_samples: slot_len(cfg.packet_slottime_ms, rate) as u32,
                ..*old(self)
            }),
    {
        self.baud = baud;
        self.rate = rate;
        self.slot_samples = slot_samples(cfg.packet_slottime_ms, rate);
    }

    pub fn baud(&self) -> (r: PacketBaud)
        ensures
            r == self.baud,
    {
        self.baud
    }

    /// How many frames wait.
    pub fn queued(&self) -> (r: usize)
        ensures
            r == self.pending@.len(),
    {
        self.pending.len()
    }

    /// Queues a frame. Nothing goes out from here: who could transmit directly
    /// could key on top of another station.
    pub fn queue(&mut self, frame: Vec<u8>)
        ensures
            final(self).pending@ == old(self).pending@.push(frame),
            final(self).baud == old(self).baud,
            final(self).rate == old(self).rate,
            final(self).keyed == old(self).keyed,
            final(self).want_tx == old(self).want_tx,
            final(self).slot_left == old(self).slot_left,
            final(self).slot_samples == old(self).slot_samples,
            final(self).dcd == old(self).dcd,
    {
        self.pending.push_back(frame);
    }

    /// All but the access is as in another state.
    pub open spec fn same_line(self, other: Ax25Channel) -> bool {
        &&& self.baud == other.baud
        &&& self.rate == other.rate
        &&& self.pending == other.pending
        &&& self.slot_samples == other.slot_samples
    }

    /// Steps the slot timer by a block of so many samples.
    fn csma(&mut self, samples: u32, persist: u8, roll: u8)
        ensures
            final(self).access() == old(self).access().after(samples as int, persist, roll),
            final(self).same_line(*old(self)),
    {
        if self.pending.len() == 0 || self.keyed || self.want_tx || self.dcd {
            self.slot_left = self.slot_samples;
            return;
        }
        if self.slot_left > samples {
            self.slot_left = self.slot_left - samples;
            return;
        }
        self.slot_left = self.slot_samples;
        if roll < persist {
            self.want_tx = true;
        }
    }

    /// A block of audio of so many samples, of which the modem heard this, with
    /// the byte for the persistence test. A station that is keyed hears nothing.
    pub fn on_block(&mut self, samples: u32, heard: Heard, persist: u8, roll: u8) -> (r: RxResult)
        ensures
            final(self).access() == old(self).access().heard(
                heard.busy,
                samples as int,
                persist,
                roll,
            ),
            final(self).same_line(*old(self)),
            if old(self).keyed {
                r.frames@.len() == 0 && r.bad == 0 && !r.dcd_changed
            } else {
                r.frames@ == heard.frames@ && r.bad == heard.bad && r.dcd_changed == (heard.busy
                    != old(self).dcd)
            },
    {
        if self.keyed {
            return RxResult { frames: Vec::new(), bad: 0, dcd_changed: false };
        }
        let dcd_changed: bool = heard.busy != self.dcd;
        self.dcd = heard.busy;
        self.csma(samples, persist, roll);
        RxResult { frames: heard.frames, bad: heard.bad, dcd_changed }
    }

    /// A block of audio. The byte for the persistence test is drawn where a slot
    /// ends.
    pub fn on_rx_audio(&mut self, samples: u32, heard: Heard, cfg: &DigiConfig, nanos: u32) -> (r:
        RxResult)
        ensures
            exists|roll: u8|
                final(self).access() == #[trigger] old(self).access().heard(
                    heard.busy,
                    samples as int,
                    cfg.packet_persist,
                    roll,
                ),
            final(self).same_line(*old(self)),
            if old(self).keyed {
                r.frames@.len() == 0 && r.bad == 0 && !r.dcd_changed
            } else {
                r.frames@ == heard.frames@ && r.bad == heard.bad && r.dcd_changed == (heard.busy
                    != old(self).dcd)
            },
    {
        let ends: bool = self.pending.len() > 0 && !self.keyed && !self.want_tx && !heard.busy
            && self.slot_left <= samples;
        let byte: u8 = if ends { roll(nanos) } else { 255 };
        self.on_block(samples, heard, cfg.packet_persist, byte)
    }

    /// What goes out, where the channel is ours: everything that waits, in one
    /// over.
    pub fn take_over(&mut self, cfg: &DigiConfig) -> (r: Option<Over>)
        ensures
            if old(self).want_tx && !old(self).keyed {
                &&& r matches Some(o)
                &&& o.head_flags == flag_count(cfg.packet_txdelay_ms, old(self).baud)
                &&& o.frames@ == old(self).pending@
                &&& o.tail_flags == flag_count(cfg.packet_txtail_ms, old(self).baud)
                &&& final(self).keyed
                &&& !final(self).want_tx
                &&& final(self).pending@.len() == 0
            } else {
                r is None && *final(self) == *old(self)
            },
            final(self).baud == old(self).baud,
            final(self).rate == old(self).rate,
            final(self).slot_left == old(self).slot_left,
            final(self).slot_samples == old(self).slot_samples,
            final(self).dcd == old(self).dcd,
    {
        if !self.want_tx || self.keyed {
            return None;
        }
        self.want_tx = false;
        self.keyed = true;
        let mut frames: Vec<Vec<u8>> = Vec::new();
        let ghost all = self.pending@;
        let ghost start = *self;
        assert(all.skip(0) =~= all);
        loop
            invariant
                frames@.len() <= all.len(),
                frames@ == all.take(frames@.len() as int),
                self.pending@ == all.skip(frames@.len() as int),
                *self == (Ax25Channel { pending: self.pending, ..start }),
            ensures
                frames@ == all,
                self.pending@.len() == 0,
                *self == (Ax25Channel { pending: self.pending, ..start }),
            decreases all.len() - frames@.len(),
        {
            match self.pending.pop_front() {
                Some(f) => {
                    frames.push(f);
                    assert(frames@ =~= all.take(frames@.len() as int));
                    assert(self.pending@ =~= all.skip(frames@.len() as int));
                },
                None => {
                    assert(frames@ =~= all);
                    break;
                },
            }
        }
        Some(
            Over {
                head_flags: flags_for(cfg.packet_txdelay_ms, self.baud),
                frames,
                tail_flags: flags_for(cfg.packet_txtail_ms, self.baud),
            },
        )
    }

    pub fn on_burst_done(&mut self)
        ensures
            *final(self) == (Ax25Channel { keyed: false, ..*old(self) }),
    {
        self.keyed = false;
    }

    /// The key was refused, or the over was stopped. What waits is left alone: a
    /// refusal is a matter of a moment, and the traffic is not.
    pub fn abort_tx(&mut self)
        ensures
            *final(self) == (Ax25Channel { keyed: false, want_tx: false, ..*old(self) }),
    {
        self.keyed = false;
        self.want_tx = false;
    }

    /// Everything goes, what waits too.
    pub fn abort(&mut self)
        ensures
            final(self).pending@.len() == 0,
            !final(self).keyed,
            !final(self).want_tx,
            final(self).baud == old(self).baud,
            final(self).rate == old(self).rate,
            final(self).slot_left == old(self).slot_left,
            final(self).slot_samples == old(self).slot_samples,
            final(self).dcd == old(self).dcd,
    {
        self.pending.clear();
        self.abort_tx();
    }
}

/// Whether an over is played out, of how many samples of a block the modem
/// filled and whether it has more: a channel is not held with a dead carrier.
pub fn over_ends(filled: usize, block: usize, idle: bool) -> (r: bool)
    ensures
        r == (filled == 0 || (idle && filled < block)),
{
    filled == 0 || (idle && filled < block)
}

/// The total of some blocks.
pub open spec fn total(blocks: Seq<int>) -> int
    decreases blocks.len(),
{
    if blocks.len() == 0 {
        0
    } else {
        total(blocks.drop_last()) + blocks.last()
    }
}

/// The access after some blocks of a channel that is free, whatever the dice
/// say.
pub open spec fn after_blocks(a: Access, blocks: Seq<int>, persist: u8, rolls: Seq<u8>) -> Access
    decreases blocks.len(),
{
    if blocks.len() == 0 {
        a
    } else {
        after_blocks(a, blocks.drop_last(), persist, rolls).heard(
            false,
            blocks.last(),
            persist,
            rolls[blocks.len() - 1],
        )
    }
}

/// A frame waits a whole slot: however the audio is cut into blocks and whatever
/// the dice say, the station does not key before the slot is over.
pub proof fn law_a_frame_waits_a_whole_slot(
    a: Access,
    blocks: Seq<int>,
    persist: u8,
    rolls: Seq<u8>,
)
    requires
        a.waiting,
        !a.keyed,
        !a.want_tx,
        forall|i: int| 0 <= i < blocks.len() ==> #[trigger] blocks[i] >= 0,
        total(blocks) < a.slot_left,
    ensures
        !after_blocks(a, blocks, persist, rolls).want_tx,
        blocks.len() > 0 ==> after_blocks(a, blocks, persist, rolls) == (Access {
            slot_left: a.slot_left - total(blocks),
            dcd: false,
            ..a
        }),
    decreases blocks.len(),
{
    if blocks.len() > 0 {
        let front = blocks.drop_last();
        assert(blocks[blocks.len() - 1] >= 0);
        assert forall|i: int| 0 <= i < front.len() implies #[trigger] front[i] >= 0 by {
            assert(blocks[i] >= 0);
        }
        law_a_frame_waits_a_whole_slot(a, front, persist, rolls);
        if front.len() == 0 {
            assert(total(front) == 0);
        }
    }
}

/// A channel that is busy starts the wait again, and never lets the station key.
pub proof fn law_a_busy_channel_holds_the_slot(a: Access, n: int, persist: u8, roll: u8)
    requires
        !a.keyed,
    ensures
        a.heard(true, n, persist, roll).slot_left == a.slot,
        a.heard(true, n, persist, roll).want_tx == a.want_tx,
{
}

/// A station that is keyed hears nothing: not its own carrier, and the slot timer
/// stands still.
pub proof fn law_a_keyed_station_is_deaf(a: Access, busy: bool, n: int, persist: u8, roll: u8)
    requires
        a.keyed,
    ensures
        a.heard(busy, n, persist, roll) == a,
{
}

/// At the end of a slot the station keys for just as many values of the byte as
/// the persistence says.
pub proof fn law_persistence_is_the_chance_to_key(a: Access, n: int, persist: u8, roll: u8)
    requires
        a.slot_ends(n),
    ensures
        a.heard(false, n, persist, roll).want_tx <==> roll < persist,
        a.heard(false, n, persist, roll).slot_left == a.slot,
{
}

} // verus!
