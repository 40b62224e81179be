//! A packet station and its channel.
use sdroxide::ax25::addr::Addr;
use sdroxide::ax25::packet::{Packet, PacketType};
use sdroxide::digi::ax25_channel::{
    over_ends, roll_of, slot_samples, Ax25Channel, DigiConfig, Heard, PacketBaud,
};
use sdroxide::digi::packet_controller::{
    baud_for, describe, Mode, PacketController, PortEvent, STATUS_EVERY,
};

fn config() -> DigiConfig {
    DigiConfig {
        packet_baud: PacketBaud::Vhf1200,
        packet_slottime_ms: 100,
        packet_persist: 63,
        packet_txdelay_ms: 300,
        packet_txtail_ms: 50,
        packet_mycall: String::new(),
        packet_beacon_text: String::new(),
        packet_beacon_minutes: 0,
        packet_accept_incoming: true,
    }
}

fn controller(mode: Mode, cfg: DigiConfig) -> PacketController {
    PacketController::new(mode, cfg, 48_000, 4)
}

fn quiet() -> Heard {
    Heard { frames: Vec::new(), bad: 0, busy: false }
}

fn frame(payload: &[u8]) -> Vec<u8> {
    let p = Packet::ui(Addr::new("OE3JJS").unwrap(), Addr::new("APRS").unwrap(), payload.to_vec());
    p.serialize(false)
}

/// Whichever controller is running, a keyed station must not decode.
#[test]
fn a_keyed_channel_does_not_listen_to_itself() {
    let cfg = config();
    let mut c = Ax25Channel::new(PacketBaud::Vhf1200, &cfg, 48_000);
    c.keyed = true;
    let r = c.on_rx_audio(480, Heard { frames: vec![vec![1]], bad: 1, busy: true }, &cfg, 0);
    assert!(r.frames.is_empty());
    assert_eq!(r.bad, 0);
    assert!(!c.dcd, "a keyed station must not raise its own carrier detect");
}

/// A queued frame does not go out on the first block of audio, because a whole
/// slot has to elapse first.
#[test]
fn a_queued_frame_waits_at_least_one_slot() {
    // Persistence at maximum so the only thing that can hold it is the
    // slot timer.
    let cfg = DigiConfig { packet_persist: 255, packet_slottime_ms: 100, ..config() };
    let mut c = Ax25Channel::new(PacketBaud::Vhf1200, &cfg, 48_000);
    c.queue(vec![0u8; 20]);
    assert!(c.take_over(&cfg).is_none(), "nothing may go out before any audio has arrived");
    // One block well short of a slot: 480 samples is 10 ms of a 100 ms slot.
    c.on_rx_audio(480, quiet(), &cfg, 0);
    assert!(c.take_over(&cfg).is_none());
    // Past the slot, and it may key.
    for _ in 0..12 {
        c.on_rx_audio(480, quiet(), &cfg, 0);
    }
    for _ in 0..50 {
        c.on_rx_audio(4800, quiet(), &cfg, 0);
    }
    assert!(c.take_over(&cfg).is_some(), "a clear channel must eventually let the frame out");
}

/// A refused key-up keeps the queue: contention is temporary and the
/// traffic is not.
#[test]
fn a_refused_key_up_keeps_the_queue() {
    let cfg = DigiConfig { packet_persist: 255, packet_slottime_ms: 1, ..config() };
    let mut c = Ax25Channel::new(PacketBaud::Vhf1200, &cfg, 48_000);
    c.queue(vec![0u8; 20]);
    for _ in 0..50 {
        c.on_rx_audio(480, quiet(), &cfg, 0);
    }
    assert!(c.take_over(&cfg).is_some());
    c.abort_tx();
    assert!(!c.keyed);
    // The frame has left the queue and is in the modem.
    c.queue(vec![1u8; 20]);
    assert_eq!(c.queued(), 1);
    c.abort_tx();
    assert_eq!(c.queued(), 1);
    c.abort();
    assert_eq!(c.queued(), 0);
}

/// The dice decide at the end of a slot, and a busy channel starts it again.
#[test]
fn a_slot_ends_with_a_roll() {
    let cfg = config();
    let mut c = Ax25Channel::new(PacketBaud::Vhf1200, &cfg, 48_000);
    c.queue(vec![1, 2]);
    c.on_block(4_799, quiet(), 63, 0);
    assert_eq!(c.slot_left, 1);
    let busy = Heard { frames: Vec::new(), bad: 0, busy: true };
    assert!(c.on_block(480, busy, 63, 0).dcd_changed);
    assert_eq!(c.slot_left, 4_800);
    c.on_block(4_800, quiet(), 63, 63);
    assert!(!c.want_tx);
    c.on_block(4_800, quiet(), 63, 62);
    assert!(c.want_tx);
    c.queue(vec![3]);
    let o = c.take_over(&cfg).unwrap();
    assert_eq!(o.frames, vec![vec![1, 2], vec![3]]);
    // 300 ms and 50 ms of flags at 1200 baud.
    assert_eq!((o.head_flags, o.tail_flags), (45, 8));
    assert!(c.keyed);
    assert!(c.take_over(&cfg).is_none());
    c.on_burst_done();
    assert!(!c.keyed);
}

#[test]
fn a_slot_is_counted_in_samples() {
    assert_eq!(slot_samples(100, 48_000), 4_800);
    assert_eq!(slot_samples(0, 48_000), 48);
    assert_eq!(slot_samples(1, 11_025), 11);
    assert_eq!(slot_samples(1, 1), 1);
    assert_eq!(roll_of(Some(7), 99), 7);
    assert_eq!(roll_of(None, 128 * 300), 44);
    assert!(over_ends(0, 480, false));
    assert!(over_ends(100, 480, true));
    assert!(!over_ends(480, 480, true));
}

/// Nothing reaches the monitor of a keyed station either.
#[test]
fn a_keyed_station_does_not_listen_to_itself() {
    let mut c = controller(Mode::Packet, config());
    c.ch.keyed = true;
    c.on_rx_audio(480, Heard { frames: vec![frame(b"x")], bad: 3, busy: true }, 0, 0);
    assert!(c.heard.is_empty(), "a keyed station decoded something");
    assert!(!c.ch.dcd, "a keyed station must not read its own signal as a busy channel");
    assert_eq!(c.bad_frames, 0);
}

/// An idle packet station holds the channel for nobody.
#[test]
fn an_empty_over_ends_immediately() {
    // A modem with nothing to send fills nothing of a block.
    assert!(over_ends(0, 480, true), "an over with nothing to send must end");
}

#[test]
fn each_packet_mode_reports_its_own_name() {
    for mode in [Mode::Packet, Mode::PacketHf] {
        let c = controller(mode, config());
        assert_eq!(c.mode(), mode);
        assert_eq!(c.status(None).mode, mode);
    }
}

/// HF runs at one speed. A `Vhf9600` left in the config from a VHF session
/// must not follow the operator to 40 metres.
#[test]
fn hf_ignores_a_vhf_speed_left_in_the_config() {
    let cfg = DigiConfig { packet_baud: PacketBaud::Vhf9600, ..config() };
    let c = controller(Mode::PacketHf, cfg);
    assert_eq!(c.ch.baud(), PacketBaud::Hf300);
    assert_eq!(c.status(None).baud, PacketBaud::Hf300);
    assert_eq!(c.audio_profile(), Some(PacketBaud::Hf300));
}

/// ...and the reverse: HF's speed is meaningless on VHF.
#[test]
fn vhf_falls_back_when_the_config_says_hf() {
    let cfg = DigiConfig { packet_baud: PacketBaud::Hf300, ..config() };
    assert_eq!(baud_for(Mode::Packet, &cfg), PacketBaud::Vhf1200);
    let c = controller(Mode::Packet, cfg);
    assert_eq!(c.ch.baud(), PacketBaud::Vhf1200);
    assert_eq!(c.audio_profile(), None);
}

/// A station with no callsign must not transmit.
#[test]
fn a_station_with_no_callsign_never_beacons() {
    let cfg = DigiConfig {
        packet_beacon_text: "sdroxide test".into(),
        packet_beacon_minutes: 1,
        packet_mycall: String::new(),
        ..config()
    };
    let mut c = controller(Mode::Packet, cfg);
    c.queue_beacon();
    assert_eq!(c.ch.queued(), 0, "beaconed without a callsign");
}

/// ...and with one, the beacon is a real frame addressed from that call.
#[test]
fn a_beacon_carries_the_operators_call_and_text() {
    let cfg = DigiConfig {
        packet_beacon_text: "sdroxide test".into(),
        packet_beacon_minutes: 1,
        packet_mycall: "OE3JJS-10".into(),
        packet_persist: 255,
        packet_slottime_ms: 1,
        ..config()
    };
    let mut c = controller(Mode::Packet, cfg.clone());
    c.queue_beacon();
    // Out through the channel the way it actually goes: a clear channel, some
    // blocks of audio, and the over that is let through.
    for _ in 0..50 {
        c.ch.on_rx_audio(480, quiet(), &cfg, 0);
    }
    let sent = c.ch.take_over(&cfg).expect("no beacon queued").frames;
    let p = Packet::parse(&sent[0], None).expect("beacon does not parse");
    assert_eq!(p.src().call(), "OE3JJS-10");
    assert_eq!(p.dst().call(), "BEACON");
    match p.packet_type() {
        PacketType::Ui(ui) => assert_eq!(ui.payload, b"sdroxide test"),
        other => panic!("a beacon must be a UI frame, got {other:?}"),
    }
}

/// Changing speed rebuilds the modem.
#[test]
fn a_speed_change_rebuilds_the_modem() {
    let mut c = controller(Mode::Packet, config());
    assert_eq!(c.ch.baud(), PacketBaud::Vhf1200);
    c.set_config(DigiConfig { packet_baud: PacketBaud::Vhf9600, ..config() });
    assert_eq!(c.ch.baud(), PacketBaud::Vhf9600);
}

/// The first beacon waits an interval, and so does the next.
#[test]
fn beacons_come_at_their_interval() {
    let cfg = DigiConfig {
        packet_beacon_text: " hello ".into(),
        packet_beacon_minutes: 2,
        packet_mycall: " oe3jjs ".into(),
        ..config()
    };
    let mut c = controller(Mode::Packet, cfg);
    let minute = 60_000_000;
    c.poll(0, 0);
    assert_eq!(c.ch.queued(), 0);
    c.poll(2 * minute - 1, 0);
    assert_eq!(c.ch.queued(), 0);
    c.poll(2 * minute, 0);
    assert_eq!(c.ch.queued(), 1);
    c.poll(4 * minute - 1, 0);
    assert_eq!(c.ch.queued(), 1);
    c.poll(4 * minute, 0);
    assert_eq!(c.ch.queued(), 2);
    c.set_config(config());
    c.poll(5 * minute, 0);
    assert_eq!(c.next_beacon, None);
}

/// The monitor shows both halves of the traffic, newest last, and what cannot be
/// read as well.
#[test]
fn the_monitor_shows_what_was_heard_and_sent() {
    let mut c = controller(Mode::Packet, config());
    let heard = Heard { frames: vec![frame(b"hi\n\n"), vec![1, 2, 3]], bad: 2, busy: true };
    let fed = c.on_rx_audio(480, heard, 0, 77);
    assert!(fed.is_empty());
    assert_eq!(c.bad_frames, 2);
    let h = &c.heard[0];
    assert_eq!((h.from.as_str(), h.to.as_str(), h.kind.as_str()), ("OE3JJS", "APRS", "UI"));
    assert_eq!((h.text.as_str(), h.at, h.sent), ("hi", 77, false));
    assert_eq!((c.heard[1].kind.as_str(), c.heard[1].text.as_str()), ("?", "unparsed, 3 bytes"));
    assert_eq!(c.take_air_frames().len(), 2);
    assert!(c.take_air_frames().is_empty());
    c.send_from_host(frame(b"out"));
    c.ch.want_tx = true;
    let p = c.poll(0, 5_000_000);
    assert!(p.status);
    assert_eq!(p.over.unwrap().frames.len(), 1);
    assert!(c.heard[2].sent);
    assert_eq!(c.heard[2].at, 5);
    for i in 0..4u8 {
        c.note_frame(&frame(&[b'a' + i]), false, 0);
    }
    assert_eq!(c.heard.len(), 4);
    assert_eq!(c.status(None).heard[3].text, "d");
    c.clear_rx();
    assert!(c.heard.is_empty());
    assert_eq!(c.bad_frames, 0);
}

#[test]
fn a_status_is_sent_when_something_changed_or_it_is_due() {
    let mut c = controller(Mode::Packet, config());
    assert!(c.poll(0, 0).status);
    assert!(!c.poll(0, 1).status);
    assert!(!c.poll(0, STATUS_EVERY).status);
    assert!(c.poll(0, STATUS_EVERY + 1).status);
    c.queue_frame(vec![1]);
    assert!(c.poll(0, STATUS_EVERY + 2).status);
}

/// What is addressed to us goes to the link, UI frames not.
#[test]
fn a_link_gets_what_is_addressed_to_it() {
    // A SABM from OE1AAA to OE3JJS, with the poll bit.
    let mut sabm = Addr::new("OE3JJS").unwrap().serialize(false, true, false, false);
    sabm.extend(Addr::new("OE1AAA").unwrap().serialize(true, false, false, false));
    sabm.push(0x3f);
    let mut c = controller(Mode::Packet, config());
    assert!(c.note_frame(&sabm, false, 0).is_none(), "there is no link yet");
    c.attach_port("OE3JJS".into());
    let p = c.note_frame(&sabm, false, 0).expect("the link must hear a SABM");
    assert_eq!(describe(&p), ("SABM".to_string(), String::new()));
    assert!(matches!(p.packet_type(), PacketType::Sabm(s) if s.poll));
    assert!(c.note_frame(&frame(b"x"), false, 0).is_none());
    assert_eq!(c.announce(false), None);
    assert_eq!(c.announce(true), Some(PortEvent::Connected));
    assert_eq!(c.announce(true), None);
    assert_eq!(c.announce(false), Some(PortEvent::Disconnected));
    assert_eq!(c.status(Some("OE1AAA".into())).link.as_deref(), Some("OE1AAA"));
}
