//! The stream of a receiver, and its ring.
use sdroxide::airspyhf::handle::{push_iq, rx_read, Balance, Ctrl, Pending, RxStats, STATS_INTERVAL};
use sdroxide::airspyhf::ring::{ring_capacity, ring_for};
use sdroxide::airspyhf::stream::{interleave, refill, silent_for, Plan, Pump, Status, Verdict};

fn bits(v: &[f32]) -> Vec<u32> {
    v.iter().map(|x| x.to_bits()).collect()
}

/// Dragging the dial emits hundreds of messages a second and a retune costs
/// two control transfers. Only the last value can matter.
#[test]
fn pending_keeps_only_the_last_value_of_each_field() {
    let mut p = Pending::default();
    assert!(p.is_empty());
    for hz in [7_000_000_000, 7_050_000_000, 7_074_000_000] {
        p.absorb(Ctrl::Center(hz));
    }
    p.absorb(Ctrl::Agc(true));
    p.absorb(Ctrl::Agc(false));
    p.absorb(Ctrl::Attenuator(-6_000));
    assert_eq!(p.center, Some(7_074_000_000));
    assert_eq!(p.agc, Some(false));
    assert_eq!(p.attenuator, Some(-6_000));
    assert!(!p.is_empty());
    // Fields nobody set stay unset.
    assert_eq!(p.lna, None);
    assert_eq!(p.bias_tee, None);
    assert_eq!(p.lib_dsp, None);
}

/// Shutdown must survive anything that arrives after it in the same batch,
/// or a busy dial could keep the thread alive past a release.
#[test]
fn shutdown_is_sticky() {
    let mut p = Pending::default();
    p.absorb(Ctrl::Shutdown);
    p.absorb(Ctrl::Center(7_074_000_000));
    p.absorb(Ctrl::Lna(true));
    assert!(p.shutdown);
}

/// An odd ring capacity would eventually split an I/Q pair across the wrap.
#[test]
fn the_ring_holds_at_least_half_a_second_and_an_even_number_of_floats() {
    for rate in [192_000u64, 384_000, 768_000, 912_000] {
        let (p, _c) = ring_for(rate);
        let cap = p.buffer().capacity();
        assert_eq!(cap % 2, 0, "{rate}");
        assert!(cap as f64 >= rate as f64 * 2.0 * 0.5, "{rate}: {cap} floats");
        assert_eq!(cap, ring_capacity(rate));
    }
}

/// A partial push would leave the ring one float out of step and swap I
/// with Q for the rest of the session.
#[test]
fn push_iq_drops_whole_blocks_rather_than_splitting_a_pair() {
    let (mut prod, mut cons) = rtrb::RingBuffer::<u32>::new(8);
    let mut stats = RxStats::new(768_000, 0);
    push_iq(&mut prod, &bits(&[1.0, 2.0, 3.0, 4.0]), &mut stats, false);
    assert_eq!(cons.slots(), 4);
    // Six more floats into four free slots: nothing goes in.
    push_iq(&mut prod, &bits(&[0.0; 6]), &mut stats, false);
    assert_eq!(cons.slots(), 4);
    assert_eq!(stats.total_dropped, 3);
    assert_eq!(cons.pop().map(f32::from_bits), Ok(1.0));
}

/// A ring that fills because nobody reads during an over is not the reader
/// falling behind, and must not reach the fault counters.
#[test]
fn a_full_ring_while_paused_is_not_an_overrun() {
    let (mut prod, mut cons) = rtrb::RingBuffer::<u32>::new(4);
    let mut stats = RxStats::new(768_000, 0);

    push_iq(&mut prod, &bits(&[1.0, 2.0, 3.0, 4.0]), &mut stats, true);
    // The over: nobody is draining, so everything after this is discarded.
    push_iq(&mut prod, &bits(&[5.0, 6.0]), &mut stats, true);
    assert_eq!(stats.total_dropped, 0, "a paused receiver reports no overruns");
    assert_eq!(stats.total_keyed, 1, "the discarded pair is accounted for as keyed");

    // Unpaused, the very same full ring is a genuine overrun again.
    push_iq(&mut prod, &bits(&[7.0, 8.0]), &mut stats, false);
    assert_eq!(stats.total_dropped, 1);
    assert_eq!(stats.total_keyed, 1);

    // And nothing was let into the ring out of pair alignment on the way.
    while cons.pop().is_ok() {}
    push_iq(&mut prod, &bits(&[9.0, 10.0]), &mut stats, false);
    assert_eq!(cons.slots() % 2, 0);
}

/// What is read is what was written, in whole pairs.
#[test]
fn whole_pairs_are_read_in_order() {
    let (mut prod, mut cons) = ring_for(192_000);
    let mut stats = RxStats::new(192_000, 0);
    push_iq(&mut prod, &[1, 2, 3, 4, 5, 6], &mut stats, false);
    assert_eq!(rx_read(&mut cons, 3), vec![1, 2]);
    assert_eq!(rx_read(&mut cons, 100), vec![3, 4, 5, 6]);
    assert!(rx_read(&mut cons, 100).is_empty());
}

/// What changes the meaning of a frequency is applied before it.
#[test]
fn the_dial_has_the_last_word() {
    let mut pump = Pump::new(768_000, 0);
    let plan = pump.on_control(&[
        Ctrl::Center(7_074_000_000),
        Ctrl::Attenuator(-6_000),
        Ctrl::LibDsp(true),
        Ctrl::CalibrationPpb(120),
    ]);
    match plan {
        Plan::Apply(v) => assert_eq!(
            v,
            vec![
                Ctrl::CalibrationPpb(120),
                Ctrl::LibDsp(true),
                Ctrl::Center(7_074_000_000),
                Ctrl::Attenuator(-6_000),
            ]
        ),
        _ => panic!("nothing was applied"),
    }
    assert!(matches!(pump.on_control(&[]), Plan::Run));
    assert!(matches!(pump.on_control(&[Ctrl::Shutdown, Ctrl::Lna(true)]), Plan::Stop));
}

#[test]
fn a_transfer_is_counted_by_how_it_came_back() {
    let (mut prod, _cons) = ring_for(192_000);
    let mut pump = Pump::new(192_000, 0);
    assert_eq!(pump.on_transfer(Status::Complete, &[1, 2], &mut prod, false, 5), Verdict::Resubmit);
    assert_eq!(pump.last_rx, Some(5));
    assert_eq!(pump.on_transfer(Status::Stall, &[], &mut prod, false, 6), Verdict::ClearHalt);
    assert_eq!(pump.on_transfer(Status::Failed, &[], &mut prod, false, 7), Verdict::Resubmit);
    assert_eq!(pump.on_transfer(Status::Cancelled, &[], &mut prod, false, 8), Verdict::Resubmit);
    assert_eq!(pump.on_transfer(Status::Disconnected, &[], &mut prod, false, 9), Verdict::Unplugged);
    assert_eq!(pump.stats.total_errors, 2);
    assert_eq!(pump.stats.stalls, 1);
    assert_eq!(pump.stats.win_samples, 1);
    assert_eq!(pump.wait(), Some(0));
    assert_eq!(refill(10), 6);
    assert_eq!(interleave(&[(1, 2), (3, 4)]), vec![1, 2, 3, 4]);
    assert_eq!(silent_for(100, 40), 60);
}

#[test]
fn a_window_ends_after_two_seconds() {
    let mut s = RxStats::new(768_000, 0);
    s.on_iq(10, 1);
    s.on_dropped(3);
    assert_eq!(s.tick(STATS_INTERVAL - 1), None);
    let w = s.tick(STATS_INTERVAL).unwrap();
    assert_eq!((w.samples, w.dropped, w.faulty), (10, 3, true));
    assert_eq!(s.totals(), "0 samples, 3 dropped, 0 transfer errors, 0 endpoint stalls");
    assert_eq!(s.keyed_note(), "");
}

#[test]
fn a_balance_is_there_once_it_was_estimated() {
    let mut b = Balance::new();
    assert_eq!(b.state(), None);
    b.publish(0, 1, 2);
    assert_eq!(b.state(), None);
    b.publish(4, 1, 2);
    assert_eq!(b.state(), Some((1, 2, 4)));
}
