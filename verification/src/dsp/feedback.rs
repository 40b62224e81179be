//! The loop around the table: what was wanted of the transmitter, kept until it
//! comes back, and where a block of feedback belongs in it.
//!
//! The two streams differ by a constant number of samples, which is found by
//! comparing envelopes, held, and checked twice a second. How well two envelopes
//! correlate is computed outside and comes in as millionths.
use super::predistort;
use super::predistort::{
    Cplx, ENV_DECIM, LIMIT, LOCK_THRESHOLD, MIN_BLOCK, ONE, REFINE, WINDOW,
};
use vstd::prelude::*;

verus! {

broadcast use vstd::seq::group_seq_axioms;

/// The most samples that a stream is counted to.
pub const MAX_TOTAL: u64 = 0x1000_0000_0000_0000;

/// The sum of the amplitudes of `n` samples from `at`.
pub open spec fn envelope(s: Seq<Cplx>, at: int, n: nat) -> int
    decreases n,
{
    if n == 0 {
        0
    } else {
        envelope(s, at, (n - 1) as nat) + s[at + n - 1].amplitude()
    }
}

/// What is to be computed of a block of feedback, or done with it.
#[derive(Debug, Clone, Copy, PartialEq, Eq, Structural)]
pub enum Next {
    /// Nothing: the table stays as it is.
    Idle,
    /// How well the envelope of the block, of `len` entries, correlates with that
    /// of the reference from each entry below `count`.
    Coarse { start: u64, len: usize, count: usize },
    /// How well the first `window` samples correlate with the reference from each
    /// sample from `lo` to `hi`. `coarse` is where they stand as far as is known.
    Fine { start: u64, coarse: usize, lo: usize, hi: usize, window: usize },
    /// How well the block correlates with the reference at `at`.
    Score { at: usize },
    /// The block is aligned with the reference at `at`: learn from it.
    Learn { at: usize },
}

/// The predistorter, what it keeps of the wanted signal, and the alignment of the
/// feedback with it.
#[derive(Debug)]
pub struct PureSignal {
    /// The gain by amplitude.
    pub table: Vec<Cplx>,
    pub frozen: bool,
    /// What was wanted lately, the oldest first.
    pub refs: Vec<Cplx>,
    /// Its envelope: sums of amplitudes.
    pub env: Vec<u64>,
    /// The number of the first sample of `refs`, from the start of the over.
    pub base: u64,
    pub ref_total: u64,
    /// How many samples of feedback there were.
    pub fb_total: u64,
    /// How far the reference runs ahead of the feedback.
    pub offset: Option<i64>,
    /// How well the last block was aligned, in millionths.
    pub score: i32,
    /// Feedback since the alignment was checked.
    pub since_check: u64,
    pub check_every: u64,
    /// How much is kept, which bounds the delay that can be found.
    pub keep: usize,
}

pub open spec fn clamped(n: int, lo: int, hi: int) -> int {
    if n < lo {
        lo
    } else if n > hi {
        hi
    } else {
        n
    }
}

/// How many of the oldest samples go when a block comes: whole entries of the
/// envelope, once there is more than twice what is kept.
pub open spec fn dropped(len: int, block: int, keep: int) -> int {
    if len + block > 2 * keep && len > keep {
        (len - keep) / 64 * 64
    } else {
        0
    }
}

/// The first of the highest scores, where one is above nothing.
pub open spec fn best(scores: Seq<i32>, n: nat) -> Option<int>
    decreases n,
{
    if n == 0 {
        None
    } else {
        let front = best(scores, (n - 1) as nat);
        let s = scores[n - 1];
        let top: i32 = match front {
            Some(p) => scores[p],
            None => 0,
        };
        if s > top {
            Some(n - 1)
        } else {
            front
        }
    }
}

/// The score of the best, or nothing.
pub open spec fn best_score(scores: Seq<i32>) -> i32 {
    match best(scores, scores.len()) {
        Some(p) => scores[p],
        None => 0,
    }
}

proof fn lemma_best(scores: Seq<i32>, n: nat)
    requires
        n <= scores.len(),
    ensures
        best(scores, n) matches Some(p) ==> 0 <= p < n && scores[p] > 0 && (forall|i: int|
            0 <= i < n ==> #[trigger] scores[i] <= scores[p]) && (forall|i: int|
            0 <= i < p ==> #[trigger] scores[i] < scores[p]),
        best(scores, n) is None ==> forall|i: int| 0 <= i < n ==> #[trigger] scores[i] <= 0,
    decreases n,
{
    if n > 0 {
        lemma_best(scores, (n - 1) as nat);
    }
}

/// The first of the highest scores; nothing where none is above nothing.
fn best_of(scores: &[i32]) -> (r: (i32, Option<usize>))
    ensures
        r.0 == best_score(scores@),
        match best(scores@, scores@.len()) {
            None => r.1 is None,
            Some(p) => r.1 matches Some(k) && k == p,
        },
        r.1 matches Some(k) ==> k < scores@.len(),
{
    let mut top: i32 = 0;
    let mut at: Option<usize> = None;
    let mut i: usize = 0;
    while i < scores.len()
        invariant
            i <= scores@.len(),
            match best(scores@, i as nat) {
                None => at is None && top == 0,
                Some(p) => at matches Some(k) && k == p && k < i && top == scores@[p],
            },
        decreases scores@.len() - i,
    {
        if scores[i] > top {
            top = scores[i];
            at = Some(i);
        }
        i += 1;
    }
    (top, at)
}

/// A call that changes something.
pub enum Call {
    Predistort,
    FeedBack,
    Coarse,
    Fine,
    Score,
    Freeze,
    Unlock,
    /// A table was learned.
    Learned(Seq<Cplx>),
    Reset,
}

/// A table of unity.
pub open spec fn unities(n: nat) -> Seq<Cplx> {
    Seq::new(n, |i: int| Cplx { re: ONE, im: 0 })
}

/// What a call makes of a table: it stays as it is, but for one that was learned
/// and for a new start.
pub open spec fn table_after(t: Seq<Cplx>, c: Call) -> Seq<Cplx> {
    match c {
        Call::Learned(x) => predistort::normalised(x),
        Call::Reset => unities(t.len()),
        _ => t,
    }
}

/// What some calls make of a table of unity.
pub open spec fn table_over(bins: nat, calls: Seq<Call>) -> Seq<Cplx>
    decreases calls.len(),
{
    if calls.len() == 0 {
        unities(bins)
    } else {
        table_after(table_over(bins, calls.drop_last()), calls.last())
    }
}

/// The predistorter cannot make the transmitter louder, whatever is called in
/// whatever order and whatever was learned: the table keeps its entries, none of
/// them takes the top of its bin above full scale, and none is under a quarter or
/// above four.
pub proof fn law_no_sequence_of_calls_raises_the_drive(bins: nat, calls: Seq<Call>, i: int)
    requires
        4 <= bins <= 256,
        forall|k: int|
            0 <= k < calls.len() ==> ((#[trigger] calls[k]) matches Call::Learned(x) ==> x.len()
                == bins),
        0 <= i < bins,
    ensures
        ({
            let t = table_over(bins, calls);
            &&& t.len() == bins
            &&& predistort::safe(t)
            &&& t[i].sq() * ((i + 1) * (i + 1)) <= (ONE * bins) * (ONE * bins)
            &&& 16 * t[i].sq() >= ONE * ONE
            &&& t[i].sq() <= 16 * (ONE * ONE)
        }),
{
    lemma_table_is_safe(bins, calls);
    predistort::law_a_table_stays_in_range(table_over(bins, calls), i);
}

proof fn lemma_table_is_safe(bins: nat, calls: Seq<Call>)
    requires
        4 <= bins <= 256,
        forall|k: int|
            0 <= k < calls.len() ==> ((#[trigger] calls[k]) matches Call::Learned(x) ==> x.len()
                == bins),
    ensures
        table_over(bins, calls).len() == bins,
        predistort::safe(table_over(bins, calls)),
    decreases calls.len(),
{
    predistort::lemma_flat_is_safe(unities(bins));
    if calls.len() > 0 {
        let before = calls.drop_last();
        assert forall|k: int| 0 <= k < before.len() implies ((#[trigger] before[k]) matches
            Call::Learned(x) ==> x.len() == bins) by {
            assert(before[k] == calls[k]);
        }
        lemma_table_is_safe(bins, before);
        assert(calls.last() == calls[calls.len() - 1]);
        match calls.last() {
            Call::Learned(x) => predistort::lemma_normalised_is_safe(x),
            _ => {},
        }
    }
}

impl PureSignal {
    /// The envelope is in step with the samples, and the counters with both.
    pub open spec fn wf(self) -> bool {
        &&& 4 <= self.table@.len() <= 256
        &&& predistort::safe(self.table@)
        &&& 0x1_0000 <= self.keep <= 0x8_0000
        &&& self.base % 64 == 0
        &&& self.base + self.refs@.len() == self.ref_total
        &&& self.ref_total <= MAX_TOTAL
        &&& self.fb_total <= MAX_TOTAL
        &&& self.since_check <= self.fb_total
        &&& self.env@.len() == self.refs@.len() / 64
        &&& forall|i: int|
            0 <= i < self.refs@.len() ==> (#[trigger] self.refs@[i]).within(LIMIT as int)
        &&& forall|g: int|
            0 <= g < self.env@.len() ==> #[trigger] self.env@[g] == envelope(self.refs@, 64 * g, 64)
        &&& self.offset matches Some(o) ==> -MAX_TOTAL <= o <= MAX_TOTAL
    }

    /// A table of unity and nothing known.
    pub fn new(bins: usize, sample_rate_hz: u32) -> (r: PureSignal)
        ensures
            r.wf(),
            r.table@.len() == clamped(bins as int, 4, 256),
            predistort::flat(r.table@),
            !r.frozen,
            r.refs@.len() == 0,
            r.offset is None,
            r.score == 0,
            r.fb_total == 0 && r.ref_total == 0 && r.since_check == 0,
            r.check_every == sample_rate_hz / 2,
            r.keep == clamped(sample_rate_hz as int / 10, 0x1_0000, 0x8_0000),
    {
        let n: usize = if bins < 4 {
            4
        } else if bins > 256 {
            256
        } else {
            bins
        };
        let tenth: usize = (sample_rate_hz / 10) as usize;
        let keep: usize = if tenth < 0x1_0000 {
            0x1_0000
        } else if tenth > 0x8_0000 {
            0x8_0000
        } else {
            tenth
        };
        let table: Vec<Cplx> = unity(n);
        PureSignal {
            table,
            frozen: false,
            refs: Vec::new(),
            env: Vec::new(),
            base: 0,
            ref_total: 0,
            fb_total: 0,
            offset: None,
            score: 0,
            since_check: 0,
            check_every: (sample_rate_hz / 2) as u64,
            keep,
        }
    }

    pub fn set_frozen(&mut self, frozen: bool)
        ensures
            *final(self) == (PureSignal { frozen, ..*old(self) }),
            final(self).table@ == table_after(old(self).table@, Call::Freeze),
    {
        self.frozen = frozen;
    }

    pub fn frozen(&self) -> (r: bool)
        ensures
            r == self.frozen,
    {
        self.frozen
    }

    pub fn bins(&self) -> (r: usize)
        ensures
            r == self.table@.len(),
    {
        self.table.len()
    }

    pub open spec fn is_locked(self) -> bool {
        self.offset is Some && self.score >= LOCK_THRESHOLD
    }

    /// Whether the feedback is aligned. Until it is, the table is not touched.
    pub fn locked(&self) -> (r: bool)
        ensures
            r == self.is_locked(),
    {
        self.offset.is_some() && self.score >= LOCK_THRESHOLD
    }

    /// How well the last block was aligned, in millionths.
    pub fn score(&self) -> (r: i32)
        ensures
            r == self.score,
    {
        self.score
    }

    pub fn table(&self) -> (r: &Vec<Cplx>)
        ensures
            r == &self.table,
    {
        &self.table
    }

    /// Forgets the alignment and keeps the table: the amplifier is the same, and
    /// where the feedback stands is not.
    pub fn unlock(&mut self)
        requires
            old(self).wf(),
        ensures
            final(self).wf(),
            final(self).table@ == table_after(old(self).table@, Call::Unlock),
            final(self).refs@.len() == 0,
            *final(self) == (PureSignal {
                refs: final(self).refs,
                env: final(self).env,
                base: 0,
                ref_total: 0,
                fb_total: 0,
                offset: None,
                score: 0,
                since_check: 0,
                ..*old(self)
            }),
    {
        self.refs = Vec::new();
        self.env = Vec::new();
        self.base = 0;
        self.ref_total = 0;
        self.fb_total = 0;
        self.offset = None;
        self.score = 0;
        self.since_check = 0;
    }

    /// Forgets the table too.
    pub fn reset(&mut self)
        requires
            old(self).wf(),
        ensures
            final(self).wf(),
            final(self).table@ == table_after(old(self).table@, Call::Reset),
            predistort::flat(final(self).table@),
            final(self).table@.len() == old(self).table@.len(),
            final(self).refs@.len() == 0,
            *final(self) == (PureSignal {
                table: final(self).table,
                refs: final(self).refs,
                env: final(self).env,
                base: 0,
                ref_total: 0,
                fb_total: 0,
                offset: None,
                score: 0,
                since_check: 0,
                ..*old(self)
            }),
    {
        self.table = unity(self.table.len());
        assert(self.table@ =~= unities(old(self).table@.len()));
        self.unlock();
    }

    /// Takes a table that was learned, and holds it inside the safe range.
    pub fn learned(&mut self, table: Vec<Cplx>)
        requires
            old(self).wf(),
            table@.len() == old(self).table@.len(),
            forall|i: int| 0 <= i < table@.len() ==> (#[trigger] table@[i]).within(LIMIT as int),
        ensures
            final(self).wf(),
            final(self).table@ == predistort::normalised(table@),
            final(self).table@ == table_after(old(self).table@, Call::Learned(table@)),
            *final(self) == (PureSignal { table: final(self).table, ..*old(self) }),
    {
        let mut t: Vec<Cplx> = table;
        predistort::normalise(&mut t);
        self.table = t;
    }

    /// Keeps a block of what was wanted.
    #[verifier::rlimit(40)]
    fn push_reference(&mut self, x: &Vec<Cplx>)
        requires
            old(self).wf(),
            old(self).ref_total + x@.len() <= MAX_TOTAL,
            forall|i: int| 0 <= i < x@.len() ==> (#[trigger] x@[i]).within(LIMIT as int),
        ensures
            final(self).wf(),
            ({
                let d = dropped(old(self).refs@.len() as int, x@.len() as int, old(self).keep as int);
                &&& final(self).refs@ == old(self).refs@.skip(d) + x@
                &&& final(self).base == old(self).base + d
            }),
            final(self).ref_total == old(self).ref_total + x@.len(),
            *final(self) == (PureSignal {
                refs: final(self).refs,
                env: final(self).env,
                base: final(self).base,
                ref_total: final(self).ref_total,
                ..*old(self)
            }),
    {
        let ghost start = *self;
        let len: usize = self.refs.len();
        let more: usize = x.len();
        let keep: usize = self.keep;
        let d: usize = if len > keep && (len - keep > keep || more > 2 * keep - len) {
            (len - keep) / 64 * 64
        } else {
            0
        };
        let ghost gd = dropped(len as int, more as int, keep as int);
        assert(d == gd);
        let e: usize = d / 64;
        let ghost mid = start.refs@.skip(gd);
        proof {
            lemma_dropped(start.refs@, start.env@, gd);
        }
        let kept: Vec<Cplx> = skip_refs(&self.refs, d);
        let shorter: Vec<u64> = skip_env(&self.env, e);
        self.refs = kept;
        self.env = shorter;
        self.base = self.base + d as u64;
        let ghost whole = mid + x@;
        let mut i: usize = 0;
        assert(mid + x@.take(0) =~= mid);
        while i < more
            invariant
                i <= more,
                more == x@.len(),
                self.refs@ == mid + x@.take(i as int),
                *self == (PureSignal { refs: self.refs, env: self.env, base: self.base, ..start }),
                self.env@ == start.env@.skip(e as int),
                self.base == start.base + d,
            decreases more - i,
        {
            self.refs.push(x[i]);
            i += 1;
            assert(self.refs@ =~= mid + x@.take(i as int));
        }
        assert(x@.take(more as int) =~= x@);
        assert(self.refs@ == whole);
        proof {
            lemma_env_kept(mid, x@, self.env@);
        }
        let total: usize = self.refs.len();
        while self.env.len() < total / 64
            invariant
                total == whole.len(),
                self.refs@ == whole,
                self.env@.len() <= total / 64,
                *self == (PureSignal { refs: self.refs, env: self.env, base: self.base, ..start }),
                self.base == start.base + d,
                forall|k: int|
                    0 <= k < whole.len() ==> (#[trigger] whole[k]).within(LIMIT as int),
                forall|g: int|
                    0 <= g < self.env@.len() ==> #[trigger] self.env@[g] == envelope(
                        whole,
                        64 * g,
                        64,
                    ),
            decreases total / 64 - self.env@.len(),
        {
            let at: usize = self.env.len() * 64;
            let sum: u64 = group(&self.refs, at);
            self.env.push(sum);
        }
        self.ref_total = self.ref_total + more as u64;
    }

    /// Bends a block on its way to the transmitter, and keeps what was wanted.
    pub fn predistort(&mut self, x: &mut Vec<Cplx>)
        requires
            old(self).wf(),
            old(self).ref_total + old(x)@.len() <= MAX_TOTAL,
            forall|i: int| 0 <= i < old(x)@.len() ==> (#[trigger] old(x)@[i]).within(LIMIT as int),
        ensures
            final(self).wf(),
            ({
                let n = old(x)@.len() as int;
                let d = dropped(old(self).refs@.len() as int, n, old(self).keep as int);
                &&& final(self).refs@ == old(self).refs@.skip(d) + old(x)@
                &&& final(self).base == old(self).base + d
            }),
            final(self).ref_total == old(self).ref_total + old(x)@.len(),
            final(self).table@ == table_after(old(self).table@, Call::Predistort),
            *final(self) == (PureSignal {
                refs: final(self).refs,
                env: final(self).env,
                base: final(self).base,
                ref_total: final(self).ref_total,
                ..*old(self)
            }),
            final(x)@ == Seq::new(
                old(x)@.len(),
                |i: int|
                    predistort::bent(
                        old(x)@[i],
                        predistort::gain(old(self).table@, old(x)@[i].amplitude()),
                    ),
            ),
    {
        let ghost wanted = x@;
        let ghost t = self.table@;
        let ghost all = Seq::new(
            wanted.len(),
            |i: int|
                predistort::bent(wanted[i], predistort::gain(t, wanted[i].amplitude())),
        );
        self.push_reference(x);
        proof {
            predistort::lemma_safe_is_small(t);
        }
        let n: usize = x.len();
        let mut i: usize = 0;
        while i < n
            invariant
                i <= n,
                n == wanted.len(),
                x@.len() == n,
                self.table@ == t,
                4 <= t.len() <= 256,
                forall|k: int| 0 <= k < t.len() ==> (#[trigger] t[k]).within(LIMIT as int),
                forall|k: int| 0 <= k < n ==> (#[trigger] wanted[k]).within(LIMIT as int),
                all == Seq::new(
                    wanted.len(),
                    |k: int|
                        predistort::bent(wanted[k], predistort::gain(t, wanted[k].amplitude())),
                ),
                forall|k: int| i <= k < n ==> #[trigger] x@[k] == wanted[k],
                forall|k: int| 0 <= k < i ==> #[trigger] x@[k] == all[k],
            decreases n - i,
        {
            let s: Cplx = x[i];
            assert(s == wanted[i as int]);
            let g: Cplx = predistort::gain_at(&self.table, s.norm());
            let b: Cplx = predistort::bent_of(s, g);
            x.set(i, b);
            i += 1;
        }
        assert(x@ =~= all);
    }

    /// All but the alignment is as in another state.
    pub open spec fn same_but_alignment(self, other: PureSignal) -> bool {
        self == (PureSignal { offset: self.offset, score: self.score, ..other })
    }

    /// Where a block stands in the reference, with the alignment that is held.
    pub open spec fn position(self, start: u64) -> int {
        start + self.offset->0 - self.base
    }

    /// What comes of a block that starts at `start`, with this alignment: where it
    /// stands is looked up, and an alignment that the reference no longer covers
    /// is given up.
    pub open spec fn placed(self, start: u64, m: usize, after: PureSignal, r: Next) -> bool {
        if self.offset is None {
            r == Next::Idle && after == self
        } else {
            let at = self.position(start);
            if at < 0 || at + m > self.refs@.len() {
                r == Next::Idle && after == (PureSignal { offset: None, score: 0, ..self })
            } else {
                r == (Next::Score { at: at as usize }) && after == self
            }
        }
    }

    fn place(&mut self, start: u64, m: usize) -> (r: Next)
        requires
            old(self).wf(),
            start <= MAX_TOTAL,
        ensures
            final(self).wf(),
            old(self).placed(start, m, *final(self), r),
    {
        let off: i64 = match self.offset {
            Some(o) => o,
            None => return Next::Idle,
        };
        let at: i64 = start as i64 + off - self.base as i64;
        let len: usize = self.refs.len();
        if at < 0 || m > len || at as u64 > (len - m) as u64 {
            self.offset = None;
            self.score = 0;
            return Next::Idle;
        }
        Next::Score { at: at as usize }
    }

    /// A block of `m` samples of feedback: what is to be computed of it first.
    /// Where it stands is searched for while that is not known, and from time to
    /// time.
    pub fn feed_back(&mut self, m: usize) -> (r: Next)
        requires
            old(self).wf(),
            old(self).fb_total + m <= MAX_TOTAL,
        ensures
            final(self).wf(),
            final(self).fb_total == old(self).fb_total + m,
            final(self).table@ == table_after(old(self).table@, Call::FeedBack),
            ({
                let usable = m >= MIN_BLOCK && old(self).refs@.len() >= MIN_BLOCK;
                let since = old(self).since_check + m;
                let search = old(self).offset is None || since >= old(self).check_every;
                let entries = m as int / 64;
                let counted = PureSignal {
                    fb_total: final(self).fb_total,
                    since_check: if !usable {
                        old(self).since_check
                    } else if search {
                        0
                    } else {
                        since as u64
                    },
                    ..*old(self)
                };
                if !usable {
                    r == Next::Idle && *final(self) == counted
                } else if search && old(self).env@.len() > entries {
                    &&& r == (Next::Coarse {
                        start: old(self).fb_total,
                        len: entries as usize,
                        count: (old(self).env@.len() - entries + 1) as usize,
                    })
                    &&& *final(self) == counted
                } else {
                    counted.placed(old(self).fb_total, m, *final(self), r)
                }
            }),
    {
        if m < MIN_BLOCK || self.refs.len() < MIN_BLOCK {
            self.fb_total = self.fb_total + m as u64;
            return Next::Idle;
        }
        let start: u64 = self.fb_total;
        self.fb_total = start + m as u64;
        self.since_check = self.since_check + m as u64;
        if self.offset.is_none() || self.since_check >= self.check_every {
            self.since_check = 0;
            let len: usize = m / 64;
            let have: usize = self.env.len();
            if have > len {
                return Next::Coarse { start, len, count: have - len + 1 };
            }
        }
        self.place(start, m)
    }

    /// How well the envelope of the block correlates with that of the reference
    /// from each entry on.
    pub fn on_coarse(&mut self, start: u64, m: usize, scores: &[i32]) -> (r: Next)
        requires
            old(self).wf(),
            m <= old(self).refs@.len(),
            scores@.len() <= old(self).env@.len(),
        ensures
            final(self).wf(),
            final(self).same_but_alignment(*old(self)),
            final(self).table@ == table_after(old(self).table@, Call::Coarse),
            if best_score(scores@) < LOCK_THRESHOLD {
                &&& r == Next::Idle
                &&& final(self).offset is None
                &&& final(self).score == best_score(scores@)
            } else {
                let coarse = 64 * best(scores@, scores@.len())->0;
                let last = old(self).refs@.len() - m;
                &&& *final(self) == *old(self)
                &&& r == (Next::Fine {
                    start,
                    coarse: coarse as usize,
                    lo: (if coarse < REFINE {
                        0
                    } else {
                        coarse - REFINE
                    }) as usize,
                    hi: (if coarse + REFINE < last {
                        coarse + REFINE
                    } else {
                        last
                    }) as usize,
                    window: if m < WINDOW {
                        m
                    } else {
                        WINDOW
                    },
                })
            },
    {
        let (top, at) = best_of(scores);
        let p: usize = match at {
            Some(p) => p,
            None => 0,
        };
        if top < LOCK_THRESHOLD {
            self.offset = None;
            self.score = top;
            return Next::Idle;
        }
        let len: usize = self.refs.len();
        let coarse: usize = p * 64;
        let lo: usize = if coarse < REFINE { 0 } else { coarse - REFINE };
        let last: usize = len - m;
        let hi: usize = if coarse < last && REFINE < last - coarse { coarse + REFINE } else { last };
        let window: usize = if m < WINDOW { m } else { WINDOW };
        Next::Fine { start, coarse, lo, hi, window }
    }

    /// How well the block correlates with the reference from each sample from `lo`
    /// on.
    pub fn on_fine(&mut self, start: u64, m: usize, lo: usize, scores: &[i32]) -> (r: Next)
        requires
            old(self).wf(),
            start <= MAX_TOTAL,
            lo + scores@.len() <= old(self).refs@.len() + 1,
        ensures
            final(self).wf(),
            final(self).same_but_alignment(*old(self)),
            final(self).table@ == table_after(old(self).table@, Call::Fine),
            if best_score(scores@) < LOCK_THRESHOLD {
                &&& r == Next::Idle
                &&& final(self).offset is None
                &&& final(self).score == best_score(scores@)
            } else {
                let found = PureSignal {
                    offset: Some(
                        (old(self).base + lo + best(scores@, scores@.len())->0 - start) as i64,
                    ),
                    score: best_score(scores@),
                    ..*old(self)
                };
                found.placed(start, m, *final(self), r)
            },
    {
        let (top, at) = best_of(scores);
        self.score = top;
        let p: usize = match at {
            Some(p) => p,
            None => 0,
        };
        if top < LOCK_THRESHOLD {
            self.offset = None;
            return Next::Idle;
        }
        self.offset = Some((self.base + (lo as u64 + p as u64)) as i64 - start as i64);
        self.place(start, m)
    }

    /// How well the block correlates with the reference where it stands. A poor
    /// score gives the alignment up; a good one is learned from, unless the table
    /// is held.
    pub fn on_score(&mut self, at: usize, score: i32) -> (r: Next)
        requires
            old(self).wf(),
        ensures
            final(self).wf(),
            *final(self) == (PureSignal {
                score,
                offset: if score < LOCK_THRESHOLD {
                    None
                } else {
                    old(self).offset
                },
                ..*old(self)
            }),
            final(self).table@ == table_after(old(self).table@, Call::Score),
            r == (if final(self).is_locked() && !final(self).frozen {
                Next::Learn { at }
            } else {
                Next::Idle
            }),
    {
        self.score = score;
        if score < LOCK_THRESHOLD {
            self.offset = None;
            return Next::Idle;
        }
        if self.frozen || self.offset.is_none() {
            return Next::Idle;
        }
        Next::Learn { at }
    }
}

fn unity(n: usize) -> (r: Vec<Cplx>)
    requires
        4 <= n <= 256,
    ensures
        r@.len() == n,
        predistort::flat(r@),
        predistort::safe(r@),
{
    let mut r: Vec<Cplx> = Vec::new();
    while r.len() < n
        invariant
            r@.len() <= n,
            predistort::flat(r@),
        decreases n - r@.len(),
    {
        r.push(Cplx { re: ONE, im: 0 });
    }
    proof {
        predistort::lemma_flat_is_safe(r@);
    }
    r
}

fn skip_refs(v: &Vec<Cplx>, from: usize) -> (r: Vec<Cplx>)
    requires
        from <= v@.len(),
    ensures
        r@ == v@.skip(from as int),
{
    let mut r: Vec<Cplx> = Vec::new();
    let mut i: usize = from;
    while i < v.len()
        invariant
            from <= i <= v@.len(),
            r@ == v@.subrange(from as int, i as int),
        decreases v@.len() - i,
    {
        r.push(v[i]);
        i += 1;
        assert(r@ =~= v@.subrange(from as int, i as int));
    }
    assert(r@ =~= v@.skip(from as int));
    r
}

fn skip_env(v: &Vec<u64>, from: usize) -> (r: Vec<u64>)
    requires
        from <= v@.len(),
    ensures
        r@ == v@.skip(from as int),
{
    let mut r: Vec<u64> = Vec::new();
    let mut i: usize = from;
    while i < v.len()
        invariant
            from <= i <= v@.len(),
            r@ == v@.subrange(from as int, i as int),
        decreases v@.len() - i,
    {
        r.push(v[i]);
        i += 1;
        assert(r@ =~= v@.subrange(from as int, i as int));
    }
    assert(r@ =~= v@.skip(from as int));
    r
}

/// One entry of the envelope.
fn group(v: &Vec<Cplx>, at: usize) -> (r: u64)
    requires
        at + 64 <= v@.len(),
        forall|k: int| 0 <= k < v@.len() ==> (#[trigger] v@[k]).within(LIMIT as int),
    ensures
        r == envelope(v@, at as int, 64),
{
    let mut sum: u64 = 0;
    let mut i: usize = 0;
    let len: usize = v.len();
    while i < ENV_DECIM
        invariant
            i <= 64,
            len == v@.len(),
            at + 64 <= len,
            sum == envelope(v@, at as int, i as nat),
            sum <= i * 0x1_0000_0001,
            forall|k: int| 0 <= k < v@.len() ==> (#[trigger] v@[k]).within(LIMIT as int),
        decreases 64 - i,
    {
        let c: Cplx = v[at + i];
        let a: u64 = c.norm();
        proof {
            predistort::lemma_amplitude_bound(c);
        }
        sum = sum + a;
        i += 1;
    }
    sum
}

proof fn lemma_same_envelope(s: Seq<Cplx>, t: Seq<Cplx>, at: int, to: int, n: nat)
    requires
        forall|k: int| 0 <= k < n ==> s[at + k] == #[trigger] t[to + k],
    ensures
        envelope(s, at, n) == envelope(t, to, n),
    decreases n,
{
    if n > 0 {
        lemma_same_envelope(s, t, at, to, (n - 1) as nat);
        assert(t[to + (n - 1)] == s[at + (n - 1)]);
    }
}

/// Dropping whole entries keeps the envelope in step.
proof fn lemma_dropped(refs: Seq<Cplx>, env: Seq<u64>, d: int)
    requires
        d % 64 == 0,
        0 <= d <= refs.len(),
        env.len() == refs.len() / 64,
        forall|g: int| 0 <= g < env.len() ==> #[trigger] env[g] == envelope(refs, 64 * g, 64),
    ensures
        d / 64 <= env.len(),
        env.skip(d / 64).len() == refs.skip(d).len() / 64,
        forall|g: int|
            0 <= g < env.skip(d / 64).len() ==> #[trigger] env.skip(d / 64)[g] == envelope(
                refs.skip(d),
                64 * g,
                64,
            ),
{
    let e = d / 64;
    let kept = refs.skip(d);
    assert forall|g: int| 0 <= g < env.skip(e).len() implies #[trigger] env.skip(e)[g] == envelope(
        kept,
        64 * g,
        64,
    ) by {
        assert(env.skip(e)[g] == env[e + g]);
        assert forall|k: int| 0 <= k < 64 implies refs[64 * (e + g) + k] == #[trigger] kept[64 * g
            + k] by {}
        lemma_same_envelope(refs, kept, 64 * (e + g), 64 * g, 64);
    }
}

/// What comes behind does not change the entries in front.
proof fn lemma_env_kept(mid: Seq<Cplx>, x: Seq<Cplx>, env: Seq<u64>)
    requires
        env.len() == mid.len() / 64,
        forall|g: int| 0 <= g < env.len() ==> #[trigger] env[g] == envelope(mid, 64 * g, 64),
    ensures
        forall|g: int| 0 <= g < env.len() ==> #[trigger] env[g] == envelope(mid + x, 64 * g, 64),
{
    let whole = mid + x;
    assert forall|g: int| 0 <= g < env.len() implies #[trigger] env[g] == envelope(
        whole,
        64 * g,
        64,
    ) by {
        assert forall|k: int| 0 <= k < 64 implies mid[64 * g + k] == #[trigger] whole[64 * g
            + k] by {}
        lemma_same_envelope(mid, whole, 64 * g, 64 * g, 64);
    }
}

/// The search picks the first of the places that fit best.
pub proof fn law_the_best_place_is_found(scores: Seq<i32>)
    requires
        exists|i: int| 0 <= i < scores.len() && #[trigger] scores[i] > 0,
    ensures
        ({
            let p = best(scores, scores.len())->0;
            &&& best(scores, scores.len()) is Some
            &&& 0 <= p < scores.len()
            &&& forall|i: int| 0 <= i < scores.len() ==> #[trigger] scores[i] <= scores[p]
            &&& forall|i: int| 0 <= i < p ==> #[trigger] scores[i] < scores[p]
        }),
{
    lemma_best(scores, scores.len());
}

/// A sample keeps its number: dropping the oldest moves no other, and as much is
/// kept as was to be.
pub proof fn law_a_sample_keeps_its_number(refs: Seq<Cplx>, base: int, x: Seq<Cplx>, keep: int, k: int)
    requires
        keep > 0,
        base <= k < base + refs.len(),
    ensures
        ({
            let d = dropped(refs.len() as int, x.len() as int, keep);
            let now = refs.skip(d) + x;
            &&& 0 <= d <= refs.len()
            &&& d % 64 == 0
            &&& k >= base + d ==> now[k - (base + d)] == refs[k - base]
            &&& d > 0 ==> refs.len() - d >= keep
        }),
{
}

/// A block stands where the last one did, as many samples on: the alignment is
/// one number, however much of the reference was dropped meanwhile.
pub proof fn law_the_alignment_is_constant(p: PureSignal, q: PureSignal, start: u64, next: u64)
    requires
        p.offset is Some,
        q.offset == p.offset,
    ensures
        q.position(next) + q.base - (p.position(start) + p.base) == next - start,
{
}

} // verus!
