//! The decisions of the one thread that owns the receiver: when control changes
//! are applied, how many transfers are kept queued, and what each completion
//! leads to.
//!
//! The thread goes round and round: collapse the control channel and apply it
//! ([`Pump::on_control`]), refill the queue ([`refill`]), then drain every
//! completion that is ready ([`Pump::wait`], [`Pump::on_transfer`]) up to a
//! queue's worth, so that control is served again however fast the receiver is.
use crate::airspyhf::handle;
use crate::airspyhf::handle::{Ctrl, Pending, RxStats};
use crate::airspyhf::ring;
use vstd::prelude::*;

verus! {

broadcast use vstd::seq::group_seq_axioms;

/// How long to wait for a transfer before going back to serve control messages,
/// in microseconds.
pub const COMPLETE_TIMEOUT: u64 = 5_000;

/// Transfers kept in flight.
pub const IN_FLIGHT: usize = 16;

/// How a transfer came back.
#[derive(Clone, Copy, Debug, PartialEq, Eq, Structural)]
pub enum Status {
    Complete,
    Cancelled,
    Disconnected,
    Stall,
    /// Any other error.
    Failed,
}

/// What a pass of the loop starts with.
pub enum Plan {
    /// Stop streaming.
    Stop,
    /// Keep the hardware fed, apply these changes in order, then let the sample
    /// processing take over the receiver's new settings.
    Apply(Vec<Ctrl>),
    /// Nothing to apply.
    Run,
}

/// What to do about a transfer that came back.
#[derive(Clone, Copy, Debug, PartialEq, Eq, Structural)]
pub enum Verdict {
    /// Queue its buffer again.
    Resubmit,
    /// Clear the endpoint and forget the bytes carried from before the stall,
    /// then queue the buffer again.
    ClearHalt,
    /// The receiver was unplugged.
    Unplugged,
}

/// The state of the loop.
pub struct Pump {
    pub stats: RxStats,
    /// How many completions this pass has taken.
    pub drained: usize,
    /// When the last samples were delivered.
    pub last_rx: Option<u64>,
}

/// How many transfers to queue so that [`IN_FLIGHT`] are.
pub fn refill(pending: usize) -> (n: usize)
    ensures
        pending <= IN_FLIGHT ==> n + pending == IN_FLIGHT,
        pending > IN_FLIGHT ==> n == 0,
{
    if pending < IN_FLIGHT {
        IN_FLIGHT - pending
    } else {
        0
    }
}

/// Complex samples as interleaved I and Q.
pub open spec fn interleaved(s: Seq<(u32, u32)>) -> Seq<u32> {
    Seq::new(
        2 * s.len(),
        |i: int|
            if i % 2 == 0 {
                s[i / 2].0
            } else {
                s[i / 2].1
            },
    )
}

/// Complex samples as interleaved I and Q.
pub fn interleave(samples: &[(u32, u32)]) -> (out: Vec<u32>)
    ensures
        out@ == interleaved(samples@),
        handle::paired(out@),
{
    let mut out: Vec<u32> = Vec::new();
    let mut i: usize = 0;
    while i < samples.len()
        invariant
            i <= samples@.len(),
            out@ == interleaved(samples@.take(i as int)),
        decreases samples@.len() - i,
    {
        let (re, im) = samples[i];
        let ghost before = samples@.take(i as int);
        out.push(re);
        out.push(im);
        i += 1;
        proof {
            let now = samples@.take(i as int);
            assert forall|j: int| 0 <= j < 2 * i implies out@[j] == interleaved(now)[j] by {
                if j < 2 * (i - 1) {
                    assert(interleaved(before)[j] == interleaved(now)[j]);
                }
            }
            assert(out@ =~= interleaved(now));
        }
    }
    assert(samples@.take(samples@.len() as int) =~= samples@);
    out
}

/// How long the receiver has gone without delivering samples, measured from the
/// last block or — if none ever arrived — from when it was opened.
pub fn silent_for(since_open: u64, last_rx: u64) -> (r: u64)
    ensures
        r == (if since_open >= last_rx {
            since_open - last_rx
        } else {
            0
        }),
{
    since_open.saturating_sub(last_rx)
}

impl Pump {
    /// A pass never takes more completions than the queue is long.
    pub open spec fn wf(self) -> bool {
        self.drained <= IN_FLIGHT
    }

    pub fn new(nominal_hz: u64, now: u64) -> (r: Pump)
        ensures
            r.wf(),
            r.drained == 0,
            r.last_rx is None,
            r.stats.nominal_hz == nominal_hz,
            r.stats.since == now,
            r.stats.total_samples == 0 && r.stats.total_dropped == 0 && r.stats.total_errors == 0,
    {
        Pump { stats: RxStats::new(nominal_hz, now), drained: 0, last_rx: None }
    }

    /// A pass starts with the whole control channel collapsed: a shutdown ends
    /// the loop, and every setting that changed is applied once.
    pub fn on_control(&mut self, messages: &[Ctrl]) -> (r: Plan)
        ensures
            final(self).wf(),
            final(self).drained == 0,
            final(self).stats == old(self).stats,
            final(self).last_rx == old(self).last_rx,
            ({
                let p = handle::collapsed(messages@);
                match r {
                    Plan::Stop => p.shutdown,
                    Plan::Apply(v) => !p.shutdown && p != handle::nothing() && v@
                        == handle::settings_of(p),
                    Plan::Run => p == handle::nothing(),
                }
            }),
    {
        self.drained = 0;
        let pending = Pending::collect(messages);
        if pending.shutdown {
            return Plan::Stop;
        }
        if pending.is_empty() {
            return Plan::Run;
        }
        Plan::Apply(pending.settings())
    }

    /// How long to wait for the next completion: only the first of a pass is
    /// waited for, the rest are taken as they are ready. `None` ends the pass.
    pub fn wait(&self) -> (r: Option<u64>)
        ensures
            r == (if self.drained == 0 {
                Some(COMPLETE_TIMEOUT)
            } else if self.drained < IN_FLIGHT {
                Some(0u64)
            } else {
                None
            }),
    {
        if self.drained == 0 {
            Some(COMPLETE_TIMEOUT)
        } else if self.drained < IN_FLIGHT {
            Some(0)
        } else {
            None
        }
    }

    /// A transfer came back. `samples` is what its bytes became, interleaved;
    /// a block with samples in it goes to the ring whole or not at all.
    pub fn on_transfer(
        &mut self,
        status: Status,
        samples: &[u32],
        rx: &mut rtrb::Producer<u32>,
        paused: bool,
        now: u64,
    ) -> (r: Verdict)
        requires
            old(self).drained < IN_FLIGHT,
        ensures
            final(self).wf(),
            final(self).drained == old(self).drained + 1,
            r == (match status {
                Status::Disconnected => Verdict::Unplugged,
                Status::Stall => Verdict::ClearHalt,
                _ => Verdict::Resubmit,
            }),
            ring::capacity(*final(rx)) == ring::capacity(*old(rx)),
            // Nothing but a complete transfer with samples reaches the ring.
            !(status is Complete && samples@.len() > 0) ==> ring::written(*final(rx))
                == ring::written(*old(rx)) && final(self).last_rx == old(self).last_rx,
            status is Complete && samples@.len() > 0 ==> final(self).last_rx == Some(now),
            status is Complete && samples@.len() > 0 ==> ring::written(*final(rx))
                == ring::written(*old(rx)) + samples@ || ring::written(*final(rx)) == ring::written(
                *old(rx),
            ),
            // What did not fit is counted, as a fault or as the cost of an over.
            final(self).stats == (match status {
                Status::Complete => if samples@.len() == 0 {
                    old(self).stats
                } else {
                    let pairs = samples@.len() as int / 2;
                    let heard = handle::counted(old(self).stats, pairs, now);
                    if ring::written(*final(rx)) == ring::written(*old(rx)) {
                        handle::lost(heard, pairs, paused)
                    } else {
                        heard
                    }
                },
                Status::Stall => handle::stalled(old(self).stats),
                Status::Failed => handle::erred(old(self).stats),
                _ => old(self).stats,
            }),
            // A ring that was never that full takes the block.
            status is Complete && ring::written(*old(rx)).len() + samples@.len() <= ring::capacity(
                *old(rx),
            ) ==> ring::written(*final(rx)) == ring::written(*old(rx)) + samples@,
    {
        self.drained = self.drained + 1;
        match status {
            Status::Complete => {
                if samples.len() > 0 {
                    let ghost w = ring::written(*rx);
                    self.stats.on_iq(samples.len() / 2, now);
                    handle::push_iq(rx, samples, &mut self.stats, paused);
                    assert((w + samples@).len() > w.len());
                    self.last_rx = Some(now);
                }
                Verdict::Resubmit
            },
            Status::Cancelled => Verdict::Resubmit,
            Status::Disconnected => Verdict::Unplugged,
            Status::Stall => {
                self.stats.on_stall();
                Verdict::ClearHalt
            },
            Status::Failed => {
                self.stats.on_error();
                Verdict::Resubmit
            },
        }
    }
}

} // verus!
