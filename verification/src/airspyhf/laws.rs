//! What becomes of control changes and of counts.
use crate::airspyhf::handle;
use crate::airspyhf::handle::{Ctrl, Pending, RxStats};
use crate::airspyhf::ring;
use crate::airspyhf::stream;
use vstd::prelude::*;

verus! {

broadcast use vstd::seq::group_seq_axioms;

/// Changes that wait are collapsed: the newest of each kind counts, and the others
/// are left alone by it.
pub proof fn law_the_newest_change_counts(v: Seq<Ctrl>, c: Ctrl)
    ensures
        ({
            let p = handle::collapsed(v);
            let q = handle::collapsed(v.push(c));
            &&& q.center == if c is Center {
                Some(c->Center_0)
            } else {
                p.center
            }
            &&& q.agc == if c is Agc {
                Some(c->Agc_0)
            } else {
                p.agc
            }
            &&& q.agc_threshold == if c is AgcThreshold {
                Some(c->AgcThreshold_0)
            } else {
                p.agc_threshold
            }
            &&& q.attenuator == if c is Attenuator {
                Some(c->Attenuator_0)
            } else {
                p.attenuator
            }
            &&& q.lna == if c is Lna {
                Some(c->Lna_0)
            } else {
                p.lna
            }
            &&& q.bias_tee == if c is BiasTee {
                Some(c->BiasTee_0)
            } else {
                p.bias_tee
            }
            &&& q.calibration_ppb == if c is CalibrationPpb {
                Some(c->CalibrationPpb_0)
            } else {
                p.calibration_ppb
            }
            &&& q.lib_dsp == if c is LibDsp {
                Some(c->LibDsp_0)
            } else {
                p.lib_dsp
            }
            &&& q.shutdown == (p.shutdown || c is Shutdown)
        }),
        ({
            let p = handle::collapsed(Seq::empty());
            &&& p.center is None && p.agc is None && p.agc_threshold is None && p.attenuator is None
            &&& p.lna is None && p.bias_tee is None && p.calibration_ppb is None && p.lib_dsp
                is None
            &&& !p.shutdown
        }),
{
    assert(v.push(c).drop_last() =~= v);
}

/// Where a change is in that order: those that the tuning rests on come first.
pub open spec fn turn(c: Ctrl) -> int {
    match c {
        Ctrl::CalibrationPpb(_) => 0,
        Ctrl::LibDsp(_) => 1,
        Ctrl::Center(_) => 2,
        Ctrl::Agc(_) => 3,
        Ctrl::AgcThreshold(_) => 4,
        Ctrl::Attenuator(_) => 5,
        Ctrl::Lna(_) => 6,
        Ctrl::BiasTee(_) => 7,
        Ctrl::Shutdown => 8,
    }
}

/// Whether a change is one of those that wait.
pub open spec fn waits(p: Pending, c: Ctrl) -> bool {
    match c {
        Ctrl::CalibrationPpb(v) => p.calibration_ppb == Some(v),
        Ctrl::LibDsp(v) => p.lib_dsp == Some(v),
        Ctrl::Center(v) => p.center == Some(v),
        Ctrl::Agc(v) => p.agc == Some(v),
        Ctrl::AgcThreshold(v) => p.agc_threshold == Some(v),
        Ctrl::Attenuator(v) => p.attenuator == Some(v),
        Ctrl::Lna(v) => p.lna == Some(v),
        Ctrl::BiasTee(v) => p.bias_tee == Some(v),
        Ctrl::Shutdown => false,
    }
}

pub open spec fn one<T>(x: Option<T>) -> int {
    if x is Some {
        1
    } else {
        0
    }
}

/// Some of what waits, in that order and all before a turn.
#[verifier::opaque]
pub open spec fn in_turn(p: Pending, s: Seq<Ctrl>, end: int) -> bool {
    &&& forall|i: int| 0 <= i < s.len() ==> waits(p, #[trigger] s[i]) && turn(s[i]) < end
    &&& forall|i: int, j: int|
        0 <= i < j < s.len() ==> turn(#[trigger] s[i]) < turn(#[trigger] s[j])
}

proof fn lemma_one_more(p: Pending, s: Seq<Ctrl>, c: Option<Ctrl>, k: int)
    requires
        in_turn(p, s, k),
        c matches Some(x) ==> waits(p, x) && turn(x) == k,
    ensures
        in_turn(p, s + handle::change(c), k + 1),
        (s + handle::change(c)).len() == s.len() + one(c),
{
    reveal(in_turn);
    let t = s + handle::change(c);
    assert forall|i: int| 0 <= i < t.len() implies waits(p, #[trigger] t[i]) && turn(t[i]) < k
        + 1 by {
        if i < s.len() {
            assert(t[i] == s[i]);
        }
    }
    assert forall|i: int, j: int| 0 <= i < j < t.len() implies turn(#[trigger] t[i]) < turn(
        #[trigger] t[j],
    ) by {
        assert(t[i] == s[i]);
        if j < s.len() {
            assert(t[j] == s[j]);
        }
    }
}

/// What waits is applied, all of it, once, and in that order.
pub proof fn law_what_waits_is_applied_in_order(p: Pending)
    ensures
        in_turn(p, handle::settings_of(p), 8),
        handle::settings_of(p).len() == one(p.calibration_ppb) + one(p.lib_dsp) + one(p.center)
            + one(p.agc) + one(p.agc_threshold) + one(p.attenuator) + one(p.lna) + one(p.bias_tee),
{
    let s0 = Seq::<Ctrl>::empty();
    assert(in_turn(p, s0, 0)) by {
        reveal(in_turn);
    }
    let c0 = match p.calibration_ppb {
        Some(v) => Some(Ctrl::CalibrationPpb(v)),
        None => None,
    };
    lemma_one_more(p, s0, c0, 0);
    let s1 = s0 + handle::change(c0);
    let c1 = match p.lib_dsp {
        Some(v) => Some(Ctrl::LibDsp(v)),
        None => None,
    };
    lemma_one_more(p, s1, c1, 1);
    let s2 = s1 + handle::change(c1);
    let c2 = match p.center {
        Some(v) => Some(Ctrl::Center(v)),
        None => None,
    };
    lemma_one_more(p, s2, c2, 2);
    let s3 = s2 + handle::change(c2);
    let c3 = match p.agc {
        Some(v) => Some(Ctrl::Agc(v)),
        None => None,
    };
    lemma_one_more(p, s3, c3, 3);
    let s4 = s3 + handle::change(c3);
    let c4 = match p.agc_threshold {
        Some(v) => Some(Ctrl::AgcThreshold(v)),
        None => None,
    };
    lemma_one_more(p, s4, c4, 4);
    let s5 = s4 + handle::change(c4);
    let c5 = match p.attenuator {
        Some(v) => Some(Ctrl::Attenuator(v)),
        None => None,
    };
    lemma_one_more(p, s5, c5, 5);
    let s6 = s5 + handle::change(c5);
    let c6 = match p.lna {
        Some(v) => Some(Ctrl::Lna(v)),
        None => None,
    };
    lemma_one_more(p, s6, c6, 6);
    let s7 = s6 + handle::change(c6);
    let c7 = match p.bias_tee {
        Some(v) => Some(Ctrl::BiasTee(v)),
        None => None,
    };
    lemma_one_more(p, s7, c7, 7);
    let s8 = s7 + handle::change(c7);
    assert(s1 =~= handle::change(c0));
}

/// Nothing is applied where nothing waits.
pub proof fn law_nothing_is_applied_where_nothing_waits(p: Pending)
    ensures
        handle::settings_of(p).len() == 0 <==> p.calibration_ppb is None && p.lib_dsp is None
            && p.center is None && p.agc is None && p.agc_threshold is None && p.attenuator is None
            && p.lna is None && p.bias_tee is None,
{
}

/// A sum that stops where the counter does.
pub open spec fn capped(x: int) -> int {
    if x > 0xffff_ffff_ffff_ffff {
        0xffff_ffff_ffff_ffff
    } else {
        x
    }
}

/// Samples count in their window, and in all from the second block on: the first one
/// starts the clock.
pub proof fn law_what_a_block_counts(s: RxStats, pairs: int, now: u64)
    requires
        pairs >= 0,
    ensures
        ({
            let t = handle::counted(s, pairs, now);
            &&& t.win_samples == capped(s.win_samples + pairs)
            &&& s.first_iq is None ==> t.first_iq == Some(now) && t.total_samples
                == s.total_samples
            &&& s.first_iq is Some ==> t.first_iq == s.first_iq && t.total_samples == capped(
                s.total_samples + pairs,
            )
            &&& t == (RxStats {
                win_samples: t.win_samples,
                first_iq: t.first_iq,
                total_samples: t.total_samples,
                ..s
            })
        }),
{
}

/// What does not fit counts as lost, or as kept out while the key was down, and never
/// as both.
pub proof fn law_what_a_lost_block_counts(s: RxStats, pairs: int)
    requires
        pairs >= 0,
    ensures
        ({
            let t = handle::lost(s, pairs, false);
            &&& t.win_dropped == capped(s.win_dropped + pairs)
            &&& t.total_dropped == capped(s.total_dropped + pairs)
            &&& t == (RxStats {
                win_dropped: t.win_dropped,
                total_dropped: t.total_dropped,
                ..s
            })
        }),
        ({
            let t = handle::lost(s, pairs, true);
            &&& t.win_keyed == capped(s.win_keyed + pairs)
            &&& t.total_keyed == capped(s.total_keyed + pairs)
            &&& t == (RxStats { win_keyed: t.win_keyed, total_keyed: t.total_keyed, ..s })
        }),
{
}

/// A fault counts in its window and in all, and a stall is a fault.
pub proof fn law_what_a_fault_counts(s: RxStats)
    ensures
        ({
            let t = handle::erred(s);
            let u = handle::stalled(s);
            &&& t.win_errors == capped(s.win_errors + 1)
            &&& t.total_errors == capped(s.total_errors + 1)
            &&& t == (RxStats { win_errors: t.win_errors, total_errors: t.total_errors, ..s })
            &&& u.stalls == capped(s.stalls + 1)
            &&& u == (RxStats { stalls: u.stalls, ..t })
        }),
{
}

proof fn lemma_power(p: int, n: int, k: nat)
    requires
        p > 0,
        p * vstd::arithmetic::power2::pow2(k) >= n,
        k == 0 || p * vstd::arithmetic::power2::pow2((k - 1) as nat) < n,
    ensures
        ring::power_from(p, n) == p * vstd::arithmetic::power2::pow2(k),
    decreases k,
{
    vstd::arithmetic::power2::lemma2_to64();
    if k == 0 {
        assert(p * 1 == p);
    } else {
        let m = (k - 1) as nat;
        vstd::arithmetic::power2::lemma_pow2_pos(m);
        vstd::arithmetic::power2::lemma_pow2_unfold(k);
        let w = vstd::arithmetic::power2::pow2(m) as int;
        assert(p <= p * w) by (nonlinear_arith)
            requires
                p > 0,
                w >= 1,
        ;
        assert(p * (2 * w) == (2 * p) * w) by (nonlinear_arith);
        if m > 0 {
            vstd::arithmetic::power2::lemma_pow2_unfold(m);
            let h = vstd::arithmetic::power2::pow2((m - 1) as nat) as int;
            assert((2 * p) * h == p * (2 * h)) by (nonlinear_arith);
        }
        lemma_power(2 * p, n, m);
    }
}

/// A ring is the least power of two that holds so many, and 65536 at least.
pub proof fn law_how_large_a_ring_is(rate: int, k: nat)
    requires
        65_536 * vstd::arithmetic::power2::pow2(k) >= rate,
        k == 0 || 65_536 * vstd::arithmetic::power2::pow2((k - 1) as nat) < rate,
    ensures
        ring::power_from(65_536, rate) == 65_536 * vstd::arithmetic::power2::pow2(k),
{
    lemma_power(65_536, rate, k);
}

/// As many are read as are there and there is room for, in whole pairs.
pub proof fn law_how_many_are_read(here: int, room: int)
    requires
        here >= 0,
        room >= 0,
    ensures
        ({
            let n = handle::pairs_into(here, room);
            &&& n % 2 == 0
            &&& 0 <= n <= here && n <= room
            &&& n + 2 > here || n + 2 > room
        }),
{
}

/// Pairs lie behind each other, the first of each first.
pub proof fn law_pairs_lie_behind_each_other(s: Seq<(u32, u32)>, i: int)
    requires
        0 <= i < s.len(),
    ensures
        stream::interleaved(s).len() == 2 * s.len(),
        stream::interleaved(s)[2 * i] == s[i].0,
        stream::interleaved(s)[2 * i + 1] == s[i].1,
{
}

/// Counts are told every two seconds, the clock is measured over twenty at least, 16
/// transfers are under way at a time, and the first of them is waited for no longer
/// than five milliseconds.
pub proof fn law_how_long_counting_takes()
    ensures
        handle::STATS_INTERVAL == 2_000_000,
        handle::CLOCK_MIN_TIME == 20_000_000,
        stream::IN_FLIGHT == 16,
        stream::COMPLETE_TIMEOUT == 5_000,
{
}

} // verus!
