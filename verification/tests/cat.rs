//! Control of a transceiver.
use sdroxide::cat::civ::{Civ, Reply, ScopeFrame, ScopeRequest, CONTROLLER_ADDR, NG, PUSH_CROSSED_WIRES};
use sdroxide::cat::config::{
    commanded_mode, link_label, meter_period, mode_poll_period, poll_period, scope_active,
    signal_max_age, CatConfig, CatFamily, CwKeying, DigiMode, LineState, Mode, ModeControl,
    ModeTraits, PttMethod, METER_FLOOR, MODE_POLL_FLOOR, POLL_CEILING, POLL_FLOOR,
};
use sdroxide::cat::handle::{CatCmd, CatHandle};
use sdroxide::cat::ports::{rank, sort_ports};
use sdroxide::cat::power::{interp, pc_parse, pc_read_frame, pc_set_frame};
use sdroxide::cat::session::{
    dial_to_restore, CatUpdate, Filter, Found, FrameQueue, ModeMemory, Next, Report, Session, Write,
    FREQ_GAP, POWER_GAP, RIG_TX_MAX_AGE,
};

fn config() -> CatConfig {
    CatConfig {
        family: CatFamily::Icom,
        ptt: PttMethod::Cat,
        cw_keying: CwKeying::Audio,
        digi_mode: DigiMode::Radio,
        mode_control: ModeControl::Cat,
        poll_millihz: 2_000,
        scope: false,
        path: "/dev/ttyUSB0".to_string(),
        baud: 19_200,
        force_rts: LineState::Free,
        force_dtr: LineState::Free,
        rigctld_addr: String::new(),
        flrig_addr: String::new(),
    }
}

const VOICE: ModeTraits = ModeTraits { digital: false, sstv: false, carrier_centered: false };
const DIGITAL: ModeTraits = ModeTraits { digital: true, sstv: false, carrier_centered: false };

fn reply(from: u8, cmd: u8) -> Reply {
    Reply {
        from,
        cmd,
        freq: None,
        mode_byte: None,
        mode: None,
        power: None,
        swr: None,
        alc: None,
        po: None,
        dbm: None,
        ptt: None,
        sweep: None,
    }
}

/// The rig telling the bus its dial has moved.
fn broadcast_freq(hz: i64) -> Vec<Reply> {
    vec![Reply { freq: Some(hz * 1000), ..reply(0x94, 0x00) }]
}

/// The rig answering the read this end just sent.
fn polled_freq(hz: i64) -> Vec<Reply> {
    vec![Reply { freq: Some(hz * 1000), ..reply(0x94, 0x03) }]
}

fn icom() -> Civ {
    Civ::new(false, None)
}

fn icom_with_scope(baud: u32) -> Civ {
    let cfg = CatConfig { scope: true, baud, ..config() };
    Civ::new(scope_active(&cfg, 115_200), Some(50_000_000))
}

/// The frame that puts an Icom in a mode: data modes share a byte with voice.
fn mode_frame(m: Mode) -> Vec<u8> {
    let byte = match m {
        Mode::Lsb | Mode::Digl => 0x00,
        Mode::Cw => 0x03,
        _ => 0x01,
    };
    vec![0xFE, 0xFE, 0x94, 0xE0, 0x06, byte, 0xFD]
}

#[test]
fn the_scope_is_asked_for_only_on_a_link_its_sweeps_fit_down() {
    // 115200 carries the sweeps: scope on, output on, centre mode, span.
    let fast = icom_with_scope(115_200);
    let reqs = fast.scope_requests();
    assert_eq!(reqs.len(), 4);
    assert_eq!(reqs[0], ScopeRequest::On);
    assert_eq!(reqs[1], ScopeRequest::Output);
    assert_eq!(reqs[2], ScopeRequest::Center);
    assert_eq!(reqs[3], ScopeRequest::HalfSpan(50_000_000));
    // 19200 cannot: the sweeps would bury every poll and PTT, so the box
    // being ticked must not put them on the wire.
    assert!(icom_with_scope(19_200).scope_requests().is_empty());
    // And a rig that was never asked sends nothing either.
    assert!(icom().scope_requests().is_empty());
}

/// A take is a take: the same sweep must not be drawn twice.
#[test]
fn a_finished_sweep_is_taken_once() {
    let mut p = icom_with_scope(115_200);
    assert!(p.take_scope_sweep().is_none());
    let frame = ScopeFrame { center_hz: 14_074_000_000, span_hz: 100_000_000, bins: vec![10u8; 475] };
    let r = Reply { sweep: Some(frame), ..reply(0x94, 0x27) };
    assert!(p.parse(vec![r], 0).is_empty());
    let sweep = p.take_scope_sweep().expect("a finished sweep");
    assert_eq!(sweep.bins.len(), 475);
    assert!(p.take_scope_sweep().is_none());
}

/// The rig's mode is asserted on every key-down. Writing it every time is
/// what this guards against.
#[test]
fn the_mode_is_only_commanded_when_it_would_change_something() {
    let mut m = ModeMemory::default();
    // Nothing is known about the rig yet, so the mode goes out.
    assert!(m.needs(&mode_frame(Mode::Usb)));
    // Asserting the same mode again does not.
    assert!(!m.needs(&mode_frame(Mode::Usb)));
    // DIGU is USB on the wire for this family, so it is not a change either.
    assert!(!m.needs(&mode_frame(Mode::Digu)));
    // A mode that really is different is written.
    assert!(m.needs(&mode_frame(Mode::Cw)));
}

#[test]
fn what_the_rig_reports_is_where_the_rig_is() {
    let mut m = ModeMemory::default();
    assert!(m.needs(&mode_frame(Mode::Cw)));
    // The operator turns the mode knob on the radio itself.
    m.reported(&mode_frame(Mode::Lsb));
    assert!(!m.needs(&mode_frame(Mode::Lsb)));
    // And a mode the rig is *not* in still goes out.
    assert!(m.needs(&mode_frame(Mode::Usb)));
}

/// A mode change on an Elecraft can shift the dial by the CW pitch, so the
/// frequency is re-asserted behind every mode command.
#[test]
fn the_dial_put_back_after_a_mode_change_is_the_one_that_was_asked_for() {
    // What we last set wins: that is where the operator asked to be.
    assert_eq!(
        dial_to_restore(true, Some(14_050_000_000), Some(14_050_600_000)),
        Some(14_050_000_000)
    );
    // With nothing set this session, the last frequency the rig reported
    // stands in.
    assert_eq!(dial_to_restore(true, None, Some(7_030_000_000)), Some(7_030_000_000));
    // Nothing known at all is nothing to put back.
    assert_eq!(dial_to_restore(true, None, None), None);
    // And a family whose dial does not move is not written to at all.
    assert_eq!(dial_to_restore(false, Some(14_050_000_000), Some(14_050_600_000)), None);
}

/// A rig put in CW keys its own transmitter and ignores its sound card, so CW
/// keyed as audio must ride the digi sideband.
#[test]
fn cw_keyed_as_audio_rides_the_digi_sideband() {
    let cfg = |digi| CatConfig {
        family: CatFamily::Xiegu,
        cw_keying: CwKeying::Audio,
        mode_control: ModeControl::Cat,
        digi_mode: digi,
        ..config()
    };
    assert_eq!(commanded_mode(&cfg(DigiMode::Radio), Mode::Cw, VOICE), None);
    assert_eq!(commanded_mode(&cfg(DigiMode::Usb), Mode::Cw, VOICE), Some(Mode::Usb));
    assert_eq!(commanded_mode(&cfg(DigiMode::Data), Mode::Cw, VOICE), Some(Mode::Digu));
}

/// The rig's own keyer can only send with the rig *in* CW, so that route
/// still commands it.
#[test]
fn cw_keyed_by_the_rig_is_still_commanded_as_cw() {
    let cfg = |mc| CatConfig { cw_keying: CwKeying::Cat, mode_control: mc, ..config() };
    assert_eq!(commanded_mode(&cfg(ModeControl::Cat), Mode::Cw, VOICE), Some(Mode::Cw));
    assert_eq!(commanded_mode(&cfg(ModeControl::Radio), Mode::Cw, VOICE), None);
}

/// DIGU picked at the panel is a rig mode, not a decode layer: it obeys
/// Mode control verbatim rather than the digi sideband mapping.
#[test]
fn an_on_screen_digu_still_obeys_mode_control_not_digi_mode() {
    let cfg = CatConfig { digi_mode: DigiMode::Radio, ..config() };
    assert_eq!(commanded_mode(&cfg, Mode::Digu, VOICE), Some(Mode::Digu));
}

/// The digital modes' sideband choice is not disturbed by how CW is keyed.
#[test]
fn ft8_ignores_the_cw_keying_setting() {
    for k in [CwKeying::Audio, CwKeying::Cat] {
        let cfg = CatConfig { cw_keying: k, digi_mode: DigiMode::Data, ..config() };
        assert_eq!(commanded_mode(&cfg, Mode::Ft8, DIGITAL), Some(Mode::Digu), "{k:?}");
    }
}

/// `PC` is watts, and the families' documented floor is 5 W.
#[test]
fn the_ascii_families_send_power_as_three_digits_of_watts() {
    let sent = |frac: f64| String::from_utf8(pc_set_frame((frac * 1e6) as i64)).unwrap();
    assert_eq!(sent(1.0), "PC100;");
    assert_eq!(sent(0.5), "PC050;");
    assert_eq!(sent(0.05), "PC005;");
    assert_eq!(sent(0.0), "PC005;");
    // A slider cannot ask for more than the assumed full scale.
    assert_eq!(sent(2.0), "PC100;");
    assert_eq!(pc_read_frame(), b"PC;");
}

fn at_rate(hz: f64) -> CatConfig {
    CatConfig { poll_millihz: (hz * 1000.0) as u64, ..config() }
}

/// The control traffic is what the setting is for, so all of it has to be
/// under the setting.
#[test]
fn the_meters_follow_the_poll_rate_the_operator_set() {
    let at = |hz: f64| meter_period(&at_rate(hz)) / 1000;
    // Turning the rate down turns the meter poll down with it.
    assert_eq!(at(1.0), 1000);
    assert_eq!(at(0.5), 2000);
    // ...but never faster than a needle can be read, however high the
    // setting goes.
    assert_eq!(at(5.0), METER_FLOOR / 1000);
    assert_eq!(at(20.0), METER_FLOOR / 1000);
}

/// The dial is read no faster than frames can follow each other, and often enough
/// to be a readout.
#[test]
fn the_poll_rate_is_held_at_both_ends() {
    let at = |hz: f64| poll_period(&at_rate(hz));
    assert_eq!(at(100.0), POLL_FLOOR);
    assert_eq!(at(33.0), 30_303);
    assert_eq!(at(2.0), 500_000);
    assert_eq!(at(0.2), POLL_CEILING);
    assert_eq!(at(0.01), POLL_CEILING);
}

/// A reading has to stand in until the next one can arrive.
#[test]
fn a_meter_reading_outlives_the_gap_to_the_next_one() {
    let at = |hz: f64| signal_max_age(&at_rate(hz));
    for hz in [0.5, 1.0, 2.0, 5.0, 20.0] {
        assert!(at(hz) > meter_period(&at_rate(hz)), "{hz} Hz");
    }
    // And raising the rate cannot make the needle twitchier than it was.
    assert_eq!(at(20.0), 1_500_000);
}

/// A rig with transceive on broadcasts its dial and its mode the moment either
/// moves. Reading those broadcasts is what lets the poll stand down.
#[test]
fn an_icom_that_reports_its_own_dial_is_noticed() {
    let mut p = icom();
    // Nothing is claimed until a broadcast has actually arrived.
    assert!(!p.pushes_updates());
    // An answer to a poll is not a broadcast, however much it looks like one.
    assert_eq!(p.parse(polled_freq(14_074_000), 0), vec![CatUpdate::Freq(14_074_000_000)]);
    assert!(!p.pushes_updates());
    assert_eq!(p.parse(broadcast_freq(7_055_000), 0), vec![CatUpdate::Freq(7_055_000_000)]);
    assert!(p.pushes_updates());
}

/// The mode has its own broadcast, and it counts for the same reason.
#[test]
fn a_broadcast_mode_change_counts_as_the_rig_reporting_itself() {
    let mut p = icom();
    let r = Reply { mode_byte: Some(0x03), mode: Some(Mode::Cw), ..reply(0x94, 0x01) };
    assert_eq!(p.parse(vec![r], 0), vec![CatUpdate::Mode(Mode::Cw)]);
    assert!(p.pushes_updates());
}

/// Our own frames come back on the bus. A rig address of `E0` is this end
/// talking.
#[test]
fn our_own_echo_is_not_the_rig_reporting_itself() {
    let mut p = icom();
    let r = Reply { freq: Some(14_074_000_000), ..reply(CONTROLLER_ADDR, 0x05) };
    assert!(p.parse(vec![r], 0).is_empty());
    assert!(!p.pushes_updates());
}

const LATER: u64 = PUSH_CROSSED_WIRES + 50_000;

/// What withdraws the claim is the rig turning up somewhere nobody sent it and
/// no broadcast announced.
#[test]
fn a_rig_that_moves_without_saying_so_loses_the_stand_down() {
    let mut p = icom();
    assert_eq!(p.parse(broadcast_freq(14_074_000), 0), vec![CatUpdate::Freq(14_074_000_000)]);
    assert!(p.pushes_updates());
    // The operator switches transceive off and turns the knob. Nothing is
    // broadcast; the safety-net poll is what finds out.
    assert_eq!(p.parse(polled_freq(14_080_000), LATER), vec![CatUpdate::Freq(14_080_000_000)]);
    assert!(!p.pushes_updates());
}

/// ...but a polled answer that agrees with what we already believed says
/// nothing either way.
#[test]
fn a_poll_that_confirms_what_we_knew_is_not_evidence_of_anything() {
    let mut p = icom();
    p.parse(broadcast_freq(14_074_000), 0);
    for _ in 0..3 {
        p.parse(polled_freq(14_074_000), LATER);
        assert!(p.pushes_updates());
    }
}

/// Nor is our own tuning.
#[test]
fn our_own_tuning_is_not_the_radio_moving_behind_our_back() {
    let mut p = icom();
    p.parse(broadcast_freq(14_074_000), 0);
    p.set_freq(18_100_000_000);
    p.parse(polled_freq(18_100_000), LATER);
    assert!(p.pushes_updates());
}

/// A knob being turned broadcasts every step, so a read issued in the
/// middle of one comes back describing a dial that has already moved on.
#[test]
fn a_poll_that_crossed_a_broadcast_on_the_wire_is_excused() {
    let mut p = icom();
    p.parse(broadcast_freq(14_074_000), 0);
    p.parse(polled_freq(14_073_500), 0);
    assert!(p.pushes_updates());
}

/// And it re-arms: the rig volunteers a broadcast, and the poll stands down
/// again without a reconnect.
#[test]
fn the_stand_down_comes_back_when_the_rig_starts_reporting_again() {
    let mut p = icom();
    p.parse(broadcast_freq(14_074_000), 0);
    p.parse(polled_freq(14_080_000), LATER);
    assert!(!p.pushes_updates());
    p.parse(broadcast_freq(14_090_000), LATER);
    assert!(p.pushes_updates());
}

/// The mode's own cadence, which is the dial's divided down and then held
/// inside a band at both ends.
#[test]
fn the_mode_is_read_a_fraction_as_often_as_the_dial() {
    let at = |hz: f64| mode_poll_period(&at_rate(hz));
    // The default: the dial twice a second, the mode every two.
    assert_eq!(at(2.0), 2_000_000);
    // A fast dial is no reason to interrogate a setting that has not moved.
    assert_eq!(at(20.0), MODE_POLL_FLOOR);
    // And at the quiet end the two meet rather than the mode running away.
    assert_eq!(at(0.5), 5_000_000);
    for hz in [0.2, 0.5, 1.0, 2.0, 5.0, 20.0] {
        assert!(mode_poll_period(&at_rate(hz)) >= poll_period(&at_rate(hz)), "{hz} Hz");
    }
}

#[test]
fn a_pc_reply_reads_back_as_the_fraction_that_set_it() {
    assert_eq!(pc_parse("100"), Some(1_000_000));
    assert_eq!(pc_parse("050"), Some(500_000));
    assert_eq!(pc_parse("005"), Some(50_000));
    // A rig that puts out more than the assumed full scale reports more
    // watts than we would ever ask for; the slider still tops out at 1.
    assert_eq!(pc_parse("200"), Some(1_000_000));
    // Not a number is not a power.
    assert_eq!(pc_parse(""), None);
    assert_eq!(pc_parse("abc"), None);
}

#[test]
fn a_refusal_is_reported_once() {
    let mut p = icom();
    assert!(!p.refused());
    p.parse(vec![reply(0x94, NG)], 0);
    assert!(p.refused());
    assert!(!p.refused());
}

#[test]
fn meters_of_civ_are_reported() {
    let mut p = icom();
    let out = p.parse(
        vec![
            Reply { power: Some(500_000), ..reply(0x94, 0x14) },
            Reply { swr: Some(1_500_000), ..reply(0x94, 0x15) },
            Reply { dbm: Some(-73_000_000), ..reply(0x94, 0x15) },
            Reply { ptt: Some(true), ..reply(0x94, 0x1C) },
        ],
        0,
    );
    assert_eq!(
        out,
        vec![
            CatUpdate::Power(500_000),
            CatUpdate::Swr(1_500_000),
            CatUpdate::Signal(-73_000_000),
            CatUpdate::Ptt(true),
        ]
    );
}

#[test]
fn a_calibration_is_a_line_between_its_points() {
    let cal = [(0, 1_000_000), (48, 1_500_000), (80, 2_000_000), (120, 3_000_000)];
    assert_eq!(interp(&cal, -5), 1_000_000);
    assert_eq!(interp(&cal, 24), 1_250_000);
    assert_eq!(interp(&cal, 500), 3_000_000);
}

#[test]
fn a_link_is_called_by_its_port_or_host() {
    assert_eq!(link_label(&config()), "/dev/ttyUSB0 at 19200 baud");
    let flrig = CatConfig {
        family: CatFamily::Flrig,
        flrig_addr: " 127.0.0.1:12345 ".to_string(),
        ..config()
    };
    assert_eq!(link_label(&flrig), "flrig at 127.0.0.1:12345");
}

/// A slider being dragged writes at most one frame a gap, and its last value goes
/// out.
#[test]
fn a_dragged_slider_is_rate_limited() {
    let mut s = Session::open(&config(), 0, false, None);
    s.want_power(100_000);
    assert_eq!(s.power_due(POWER_GAP), Some(Write::Power(100_000)));
    s.want_power(200_000);
    s.want_power(300_000);
    assert_eq!(s.power_due(POWER_GAP + 1), None);
    assert_eq!(s.power_due(2 * POWER_GAP), Some(Write::Power(300_000)));
    assert_eq!(s.power_due(9 * POWER_GAP), None);
}

/// The dial lands before the key goes down: no over starts on the old frequency.
#[test]
fn a_key_down_carries_a_dial_that_was_waiting() {
    let mut s = Session::open(&config(), 0, false, None);
    s.want_freq(14_074_000_000);
    let (writes, _) = s.key(true, FREQ_GAP / 2);
    assert_eq!(writes[0], Write::Freq(14_074_000_000));
    assert!(writes.contains(&Write::Ptt(true)));
}

/// Our own key-down is not the rig's: the rig's answer about it is not passed on,
/// and a state it keyed by itself ages out.
#[test]
fn a_rig_that_keyed_itself_is_believed_for_a_while() {
    let mut s = Session::open(&config(), 0, false, None);
    let t = 10_000_000;
    assert_eq!(
        s.on_update(CatUpdate::Ptt(true), &[], t),
        Some(Report::Update(CatUpdate::Ptt(true)))
    );
    assert_eq!(s.tx_age(t + 1), None);
    assert_eq!(
        s.tx_age(t + RIG_TX_MAX_AGE + 1),
        Some(Report::Update(CatUpdate::Ptt(false)))
    );
}

#[test]
fn a_filter_waits_for_the_last_one() {
    let mut s = Session::open(&config(), 0, false, None);
    let f = Filter { mode: Mode::Cw, lo: 300_000, hi: 800_000 };
    s.want_filter(f);
    assert_eq!(s.filter_due(1_000_000), Some(Write::Filter(f)));
    assert_eq!(s.filter_due(2_000_000), None);
}

/// Nothing goes out while an answer is owed.
#[test]
fn a_frame_waits_for_the_answer_before_it() {
    let mut q = FrameQueue::new();
    q.push(vec![1]);
    q.push(vec![2]);
    assert!(matches!(q.next(0, 1_000_000), Next::Write(f) if f == vec![1]));
    assert!(!matches!(q.next(1, 2_000_000), Next::Write(_)));
    assert!(matches!(q.next(0, 3_000_000), Next::Write(f) if f == vec![2]));
}

#[test]
fn a_start_up_query_is_complete_with_dial_and_mode() {
    let mut f = Found::new();
    assert_eq!(f.answer(), None);
    f.note(CatUpdate::Freq(7_030_000_000));
    assert!(!f.complete());
    f.note(CatUpdate::Mode(Mode::Cw));
    assert!(f.complete());
    assert_eq!(f.answer(), Some((Some(7_030_000_000), Some(Mode::Cw))));
}

#[test]
fn a_serial_adapter_comes_before_a_built_in_port() {
    assert!(rank("/dev/ttyUSB0") < rank("/dev/ttyS0"));
    let sorted = sort_ports(vec!["/dev/ttyS0".to_string(), "/dev/ttyUSB0".to_string()]);
    assert_eq!(sorted, vec!["/dev/ttyUSB0".to_string(), "/dev/ttyS0".to_string()]);
}

#[test]
fn a_rig_is_told_only_what_it_can_do() {
    let filter = Filter { mode: Mode::Usb, lo: 100_000, hi: 2_700_000 };
    let keyed = CatConfig { cw_keying: CwKeying::Cat, ..config() };
    let sockets = || vec!["ANT1".to_string(), "ANT2".to_string()];
    let rig = CatHandle::new(&keyed, 30, true, true, sockets());
    assert_eq!(rig.cw_chunk_len(), Some(30));
    assert!(rig.commands_power());
    assert_eq!(rig.antennas().len(), 2);
    assert!(matches!(rig.set_cw_wpm(25), Some(CatCmd::CwWpm(25))));
    assert!(matches!(rig.set_power(500_000), Some(CatCmd::Power(500_000))));
    assert!(matches!(rig.set_filter(filter), Some(CatCmd::Filter(_))));
    assert!(matches!(rig.set_antenna("ANT2"), Some(CatCmd::Antenna(1))));
    assert!(rig.set_antenna("ant2").is_none(), "a name that the rig has never heard of");
    assert!(matches!(rig.set_freq(7_000_000_000), CatCmd::Freq(7_000_000_000)));
    assert!(matches!(rig.set_mode(Mode::Cw, VOICE), CatCmd::Mode(Mode::Cw, _)));
    assert!(matches!(rig.set_ptt(true), CatCmd::Ptt(true)));
    assert!(matches!(rig.send_cw("CQ".to_string()), CatCmd::Cw(t) if t == "CQ"));
    assert!(matches!(rig.abort_cw(), CatCmd::CwAbort));

    // An operator who keys with audio keeps their own speed on the paddle.
    let bare = CatHandle::new(&config(), 30, false, false, Vec::new());
    assert_eq!(bare.cw_chunk_len(), None);
    assert!(!bare.commands_power());
    assert!(bare.set_cw_wpm(25).is_none());
    assert!(bare.set_power(500_000).is_none());
    assert!(bare.set_filter(filter).is_none());
    assert!(bare.set_antenna("ANT1").is_none());
}
