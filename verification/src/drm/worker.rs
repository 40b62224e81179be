//! The decoder on its own thread: what it was asked for between two blocks, and
//! when a status is taken. Times are microseconds.
use vstd::prelude::*;

verus! {

/// How often a status is taken.
pub const STATUS_INTERVAL: u64 = 200_000;

/// Two seconds of I/Q in and of audio out, as interleaved pairs. A decoder that
/// was just handed a burst should be free to work through it.
pub const RING_SAMPLES: usize = 192_000;

/// A logical channel.
#[derive(Debug, Clone, Copy, PartialEq, Eq, Structural)]
pub enum DrmChannel {
    Fac,
    Sdc,
    Msc,
}

impl DrmChannel {
    pub open spec fn raw(self) -> i32 {
        match self {
            DrmChannel::Fac => 0,
            DrmChannel::Sdc => 1,
            DrmChannel::Msc => 2,
        }
    }

    /// Its number.
    pub fn as_raw(self) -> (r: i32)
        ensures
            r == self.raw(),
    {
        match self {
            DrmChannel::Fac => 0,
            DrmChannel::Sdc => 1,
            DrmChannel::Msc => 2,
        }
    }
}

/// The channel of a number.
pub open spec fn channel_of(v: i32) -> Option<DrmChannel> {
    if v == 0 {
        Some(DrmChannel::Fac)
    } else if v == 1 {
        Some(DrmChannel::Sdc)
    } else if v == 2 {
        Some(DrmChannel::Msc)
    } else {
        None
    }
}

/// The channel of a number, where it has one.
pub fn channel_from_raw(v: i32) -> (r: Option<DrmChannel>)
    ensures
        r == channel_of(v),
{
    match v {
        0 => Some(DrmChannel::Fac),
        1 => Some(DrmChannel::Sdc),
        2 => Some(DrmChannel::Msc),
        _ => None,
    }
}

/// Nothing asked for.
pub const NOTHING: i32 = -1;

/// What the operator asked for and the decoder has not seen.
#[derive(Debug)]
pub struct Requests {
    /// A service, or [`NOTHING`] for the one that it is.
    pub select: i32,
    /// The channel whose constellation is read, or [`NOTHING`].
    pub constellation: i32,
    pub restart: bool,
}

/// What the decoder is to do before its next block.
#[derive(Debug, Clone, Copy, PartialEq, Eq, Structural)]
pub struct Orders {
    pub restart: bool,
    pub select: Option<u8>,
}

impl Requests {
    /// A service is one of those that can be asked for.
    pub open spec fn wf(self) -> bool {
        self.select <= 255
    }

    /// The service that was asked for.
    pub open spec fn service(self) -> Option<u8> {
        if self.select >= 0 {
            Some(self.select as u8)
        } else {
            None
        }
    }

    /// Nothing asked for.
    pub fn new() -> (r: Requests)
        ensures
            r == (Requests { select: NOTHING, constellation: NOTHING, restart: false }),
            r.wf(),
    {
        Requests { select: NOTHING, constellation: NOTHING, restart: false }
    }

    /// Asks to acquire again, after a retune.
    pub fn restart(&mut self)
        ensures
            *final(self) == (Requests { restart: true, ..*old(self) }),
    {
        self.restart = true;
    }

    /// Asks for another service of the multiplex.
    pub fn select_service(&mut self, service: u8)
        ensures
            *final(self) == (Requests { select: service as i32, ..*old(self) }),
            final(self).wf(),
            final(self).service() == Some(service),
    {
        self.select = service as i32;
    }

    /// Starts or stops reading the constellation of a channel.
    pub fn set_constellation(&mut self, channel: Option<DrmChannel>)
        ensures
            *final(self) == (Requests {
                constellation: match channel {
                    Some(c) => c.raw(),
                    None => NOTHING,
                },
                ..*old(self)
            }),
            channel_of(final(self).constellation) == channel,
    {
        self.constellation = match channel {
            Some(c) => c.as_raw(),
            None => NOTHING,
        };
    }

    /// What was asked for since the last time; it is asked for no longer.
    pub fn take(&mut self) -> (r: Orders)
        requires
            old(self).wf(),
        ensures
            final(self).wf(),
            r == (Orders { restart: old(self).restart, select: old(self).service() }),
            *final(self) == (Requests { restart: false, select: NOTHING, ..*old(self) }),
    {
        let select: Option<u8> = if self.select >= 0 { Some(self.select as u8) } else { None };
        let restart: bool = self.restart;
        self.restart = false;
        self.select = NOTHING;
        Orders { restart, select }
    }
}

/// What follows a block.
#[derive(Debug, Clone, Copy, PartialEq, Eq, Structural)]
pub enum After {
    /// The next block.
    Go,
    /// A status, with this channel's constellation, and the next block.
    Status(Option<DrmChannel>),
    /// The receive chain failed: decoding ends.
    Stop,
}

/// What follows a block that was decoded or failed, at this time.
pub open spec fn follows(next_status: u64, ok: bool, now: u64, constellation: i32) -> After {
    if !ok {
        After::Stop
    } else if now >= next_status {
        After::Status(channel_of(constellation))
    } else {
        After::Go
    }
}

/// When the next status is due, after such a block.
pub open spec fn next_due(next_status: u64, ok: bool, now: u64) -> int {
    if ok && now >= next_status {
        now + STATUS_INTERVAL
    } else {
        next_status as int
    }
}

/// A block was decoded, or failed. `next_status` is when a status is due.
pub fn after_block(next_status: &mut u64, ok: bool, now: u64, constellation: i32) -> (r: After)
    requires
        now + STATUS_INTERVAL <= u64::MAX,
    ensures
        r == follows(*old(next_status), ok, now, constellation),
        *final(next_status) == next_due(*old(next_status), ok, now),
{
    if !ok {
        return After::Stop;
    }
    if now >= *next_status {
        *next_status = now + STATUS_INTERVAL;
        return After::Status(channel_from_raw(constellation));
    }
    After::Go
}

/// A channel is found again by its number, and no two have one.
pub proof fn law_a_channel_reads_back(c: DrmChannel, v: i32)
    ensures
        channel_of(c.raw()) == Some(c),
        channel_of(v) == Some(c) <==> v == c.raw(),
{
}

/// Two statuses are an interval apart.
pub proof fn law_statuses_are_an_interval_apart(due: u64, t0: u64, t1: u64, c: i32)
    requires
        follows(due, true, t0, c) is Status,
        t1 < t0 + STATUS_INTERVAL,
        t0 + STATUS_INTERVAL <= u64::MAX,
    ensures
        follows(next_due(due, true, t0) as u64, true, t1, c) == After::Go,
{
}

} // verus!
