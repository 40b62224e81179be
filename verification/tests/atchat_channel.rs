//! The shared channel, its messages and its links.
use rand::rngs::StdRng;
use rand::SeedableRng;
use rand_distr::{Distribution, Normal};
use sdroxide::atchat::channel::{
    add_echo, delivery, first_message, later_message, local_message, receive, Answer, ChannelConfig,
    ChannelCore, ChannelEvent, Fields, HelloError,
};
use sdroxide::atchat::json::{fields_of, first_line, later_line, summary_of, Asked};
use sdroxide::atchat::link::{
    b64_to_samples, bytes_to_samples, samples_to_b64, samples_to_bytes, TcpConnector,
};
use sdroxide::atchat::netproto::{
    airtime, b64d, b64e, crc32, rate_for, summary, ClientMsg, Frame, Mode, NotBase64, ServerMsg,
};
use sdroxide::atchat::types::{Role, StationConfig, TransferIn};
use std::collections::BTreeMap;

/// What is received through a channel, with its noise.
fn apply_channel(samples: &[i16], cfg: &ChannelConfig, rng: &mut StdRng) -> Vec<i16> {
    let x = add_echo(samples, cfg);
    let noise: Vec<i64> = match cfg.snr_mdb {
        None => Vec::new(),
        Some(mdb) => {
            let mean = x.iter().map(|&v| (v as f64 / 1e6).powi(2)).sum::<f64>() / x.len() as f64;
            let power = if mean == 0.0 { 1.0 } else { mean } / 10f64.powf(mdb as f64 / 10_000.0);
            let normal = Normal::new(0.0, power.sqrt()).unwrap();
            x.iter().map(|_| (normal.sample(rng) * 1e6) as i64).collect()
        }
    };
    receive(&x, &noise)
}

#[test]
fn clean_config_is_identity() {
    let mut rng = StdRng::seed_from_u64(1);
    let x: Vec<i16> = (0..500).map(|i| ((i * 137) % 9001 - 4000) as i16).collect();
    let y = apply_channel(&x, &ChannelConfig::default(), &mut rng);
    assert_eq!(x, y);
}

#[test]
fn awgn_injects_measurable_noise() {
    let mut rng = StdRng::seed_from_u64(2);
    let x: Vec<i16> = (0..4000).map(|i| (8000.0 * (i as f64 * 0.05).sin()) as i16).collect();
    let cfg = ChannelConfig { snr_mdb: Some(15_000), ..Default::default() };
    let y = apply_channel(&x, &cfg, &mut rng);
    let err_power: f64 = x
        .iter()
        .zip(&y)
        .map(|(a, b)| {
            let e = *a as f64 - *b as f64;
            e * e
        })
        .sum::<f64>()
        / x.len() as f64;
    let sig_power: f64 = x.iter().map(|a| (*a as f64).powi(2)).sum::<f64>() / x.len() as f64;
    let measured_snr = 10.0 * (sig_power / err_power).log10();
    assert!((measured_snr - 15.0).abs() < 2.0, "measured {measured_snr:.1} dB");
}

#[test]
fn multipath_changes_signal_within_default_guard() {
    let mut rng = StdRng::seed_from_u64(3);
    let x: Vec<i16> = (0..2000).map(|i| (10000.0 * (i as f64 * 0.1).sin()) as i16).collect();
    let cfg = ChannelConfig { multipath_delay: 3_000, multipath_gain: 300_000, ..Default::default() };
    let y = apply_channel(&x, &cfg, &mut rng);
    assert_ne!(x, y);
    assert_eq!(x.len(), y.len());
}

#[test]
fn an_echo_is_late_and_weak() {
    let cfg = ChannelConfig { multipath_delay: 250, multipath_gain: 500_000, ..Default::default() };
    assert_eq!(cfg.multipath_delay_samples(), 2);
    let x = add_echo(&[1000, 0, 0, -7], &cfg);
    assert_eq!(x, vec![1_000_000_000, 0, 500_000_000, -7_000_000]);
    assert_eq!(receive(&x, &[]), vec![1000, 0, 500, -7]);
    // Noise that takes a sample past its range is clipped.
    assert_eq!(receive(&vec![32_000_000_000, -32_000_000_000], &[9_000_000_000, -9_000_000_000]),
        vec![32767, -32768]);
}

#[test]
fn crc_matches_zlib() {
    assert_eq!(crc32(b"123456789"), 0xCBF4_3926);
    assert_eq!(crc32(b""), 0);
}

#[test]
fn airtime_matches_python() {
    assert!((airtime(250, "QPSK") as f64 / 1e6 - 1.3).abs() < 1e-9);
    assert!((airtime(125, "BPSK") as f64 / 1e6 - 1.3).abs() < 1e-9);
    assert_eq!(rate_for("something else"), rate_for("QPSK"));
}

/// One station is heard at a time, and the other is told how long.
#[test]
fn the_channel_is_half_duplex() {
    let mut c = ChannelCore::new(ChannelConfig::default(), 0);
    let (a, joined) = c.register("TA1ABC");
    assert!(matches!(joined, ChannelEvent::Joined { callsign, active: 1 } if callsign == "TA1ABC"));
    let (b, _) = c.register("TA2DEF");
    assert_ne!(a, b);
    let x = c.transmit(a, 8000, 1_000);
    assert!(matches!(x.reply(), Some(ServerMsg::TxGranted { duration: 1_000_000 })));
    assert!(matches!(x.event(), Some(ChannelEvent::TxGranted { n_samples: 8000, .. })));
    let y = c.transmit(b, 10, 500_000);
    assert!(matches!(y.reply(), Some(ServerMsg::ChannelBusy { retry_after: 501_000 })));
    assert!(matches!(y.event(), Some(ChannelEvent::TxDenied { retry_after: 501_000, .. })));
    let s = c.snapshot(500_000);
    assert!(s.busy);
    assert_eq!(s.busy_remaining, 501_000);
    assert_eq!(s.current_tx.as_deref(), Some("TA1ABC"));
    assert_eq!(s.active_clients, 2);
    // After the wait that it was told the other one is let on.
    assert!(matches!(c.transmit(b, 10, 1_001_000), Answer::Granted { .. }));
    assert!(matches!(c.transmit(99, 10, 9_000_000), Answer::Stranger));
    assert!(Answer::Stranger.reply().is_none());
    assert!(matches!(c.deregister(a), Some(ChannelEvent::Left { active: 1, .. })));
    assert!(c.deregister(a).is_none());
    assert_eq!(c.audience(), vec![b]);
}

#[test]
fn a_chosen_burst_arrives_as_silence() {
    let cfg = ChannelConfig { corrupt_burst_nums: vec![2], ..Default::default() };
    assert!(cfg.corrupts(2));
    let mut c = ChannelCore::new(cfg, 0);
    let (a, _) = c.register("TA1ABC");
    assert!(matches!(c.transmit(a, 1, 0), Answer::Granted { silenced: false, .. }));
    assert!(matches!(c.transmit(a, 1, 1_000), Answer::Granted { silenced: true, .. }));
    assert_eq!(c.put_on_air(vec![5, 6], true), vec![0, 0]);
    assert_eq!(c.put_on_air(vec![5, 6], false), vec![5, 6]);
    let chunk = c.monitor_chunk();
    assert_eq!(&chunk[..5], &[0, 0, 5, 6, 0]);
}

#[test]
fn a_connection_says_hello_first() {
    let fields = |cmd: Option<&str>, call: Option<&str>, audio: Option<&str>| Fields {
        cmd: cmd.map(str::to_string),
        callsign: call.map(str::to_string),
        audio_b64: audio.map(str::to_string),
    };
    assert_eq!(first_message(None), Err(HelloError::Eof));
    assert_eq!(first_message(Some(fields(None, None, None))), Err(HelloError::NotHello));
    assert_eq!(first_message(Some(fields(Some("HELLO"), None, None))), Err(HelloError::NoCallsign));
    assert_eq!(
        first_message(Some(fields(Some("HELLO"), Some("TA1ABC"), None))),
        Ok("TA1ABC".to_string())
    );
    assert_eq!(later_message(&fields(Some("TRANSMIT_AUDIO"), None, Some("AQACAA=="))), Ok(Some(vec![1, 2])));
    assert_eq!(later_message(&fields(Some("TRANSMIT_AUDIO"), None, Some("*"))), Err(NotBase64));
    assert_eq!(later_message(&fields(Some("PING"), None, Some("*"))), Ok(None));
    assert_eq!(local_message(&ClientMsg::Hello { callsign: "X".to_string() }), Ok(None));
    assert_eq!(
        local_message(&ClientMsg::TransmitAudio { audio_b64: "AQACAA==".to_string() }),
        Ok(Some(vec![1, 2]))
    );
}

/// Samples read back from bytes and from text.
#[test]
fn samples_read_back() {
    let s = vec![0i16, 1, -1, i16::MAX, i16::MIN];
    assert_eq!(samples_to_bytes(&s), vec![0, 0, 1, 0, 0xff, 0xff, 0xff, 0x7f, 0, 0x80]);
    assert_eq!(bytes_to_samples(&samples_to_bytes(&s)), s);
    assert_eq!(b64_to_samples(&samples_to_b64(&s)), Ok(s.clone()));
    assert_eq!(b64_to_samples("not base64!"), Err(NotBase64));
    assert!(matches!(delivery(&vec![1, 2]), ServerMsg::RxAudio { audio_b64 } if audio_b64 == "AQACAA=="));
    assert_eq!(b64e(b"foobar"), "Zm9vYmFy");
    assert_eq!(b64e(b""), "");
    assert_eq!(b64e(b"f"), "Zg==");
    assert_eq!(b64e(b"fo"), "Zm8=");
    assert_eq!(b64e(&[0xfb, 0xef, 0xff]), "++//");
    for n in 0..20usize {
        let data: Vec<u8> = (0..n as u8).collect();
        assert_eq!(b64e(&data).len(), (n + 2) / 3 * 4);
        assert_eq!(b64d(&b64e(&data)), Ok(data));
    }
    assert_eq!(b64d("Zm9vYmFy"), Ok(b"foobar".to_vec()));
    let c = TcpConnector::new("host:1".to_string(), "TA1ABC".to_string());
    assert_eq!((c.addr.as_str(), c.callsign.as_str()), ("host:1", "TA1ABC"));
}

#[test]
fn names_of_modes_and_roles() {
    for m in [Mode::Bpsk, Mode::Qpsk] {
        assert_eq!(Mode::parse(m.as_str()), Some(m));
    }
    assert_eq!(Mode::parse("8PSK"), None);
    assert_eq!(Role::Master.as_str(), "MASTER");
    assert_eq!(
        summary(Some("TA1ABC".to_string()), None, Some("CHAT".to_string())),
        "TA1ABC -> ALL | CHAT"
    );
    assert_eq!(summary(None, None, None), "? -> ALL | ?");
    let f = Frame::Chat { src: "A".to_string(), dst: "B".to_string(), text: "hi".to_string() };
    assert_eq!((f.src(), f.dst()), (Some("A"), "B"));
    assert_eq!((Frame::Unknown.src(), Frame::Unknown.dst()), (None, "ALL"));
}

#[test]
fn missing_blocks_are_those_that_did_not_come() {
    let mut received = BTreeMap::new();
    received.insert(1usize, vec![1u8]);
    received.insert(3, vec![3]);
    let t = TransferIn {
        transfer_id: "x".to_string(),
        filename: "f".to_string(),
        total_blocks: 5,
        src: "A".to_string(),
        dst: "B".to_string(),
        received,
        complete: false,
        saved_path: None,
    };
    assert_eq!(t.missing_blocks(), vec![0, 2, 4]);
    let _ = StationConfig::default();
}

/// From the line that a station sent to what is done about it.
#[test]
fn a_line_is_read_as_it_was_sent() {
    assert_eq!(first_line(""), Err(HelloError::Eof));
    assert_eq!(first_line("HELLO TA1ABC\n"), Err(HelloError::NotJson));
    assert_eq!(first_line("\n"), Err(HelloError::NotJson));
    assert_eq!(first_line("[1]\n"), Err(HelloError::NotHello));
    assert_eq!(first_line("{\"cmd\":5,\"callsign\":\"X\"}\n"), Err(HelloError::NotHello));
    assert_eq!(first_line("{\"cmd\":\"HELLO\"}\r\n"), Err(HelloError::NoCallsign));
    assert_eq!(first_line("{\"cmd\":\"HELLO\",\"callsign\":null}"), Err(HelloError::NoCallsign));
    assert_eq!(
        first_line("{\"callsign\": \"TA1\\u0041BC\", \"cmd\": \"HELLO\"} \u{a0}\n"),
        Ok("TA1ABC".to_string())
    );

    assert_eq!(later_line(""), Asked::End);
    assert_eq!(later_line("nonsense\n"), Asked::NotJson);
    assert_eq!(later_line("{\"cmd\":\"PING\",\"audio_b64\":\"*\"}\n"), Asked::Nothing);
    assert_eq!(later_line("{\"cmd\":\"TRANSMIT_AUDIO\"}\n"), Asked::Nothing);
    assert_eq!(
        later_line("{\"cmd\":\"TRANSMIT_AUDIO\",\"audio_b64\":\"*\"}\n"),
        Asked::NotBase64
    );
    assert_eq!(
        later_line("{\"cmd\":\"TRANSMIT_AUDIO\",\"audio_b64\":\"AQACAA==\"}\n"),
        Asked::Transmit(vec![1, 2])
    );

    let f = fields_of("{\"cmd\":\"A\",\"audio_b64\":\"B\"}").expect("it is JSON");
    assert_eq!((f.cmd.as_deref(), f.callsign, f.audio_b64.as_deref()), (Some("A"), None, Some("B")));
    assert!(fields_of("{").is_none());
    // A text that is nested without end is no JSON either.
    assert!(fields_of(&"[".repeat(100_000)).is_none());
}

#[test]
fn a_payload_is_noted_by_its_fields() {
    assert_eq!(
        summary_of(b"{\"type\":\"CHAT\",\"src\":\"TA1ABC\",\"dst\":\"TA2XYZ\",\"text\":\"hi\"}"),
        Some("TA1ABC -> TA2XYZ | CHAT".to_string())
    );
    assert_eq!(summary_of(b"{\"src\":1}"), Some("? -> ALL | ?".to_string()));
    assert_eq!(summary_of(b"7"), Some("? -> ALL | ?".to_string()));
    assert_eq!(summary_of(b"\xff\xfe"), None);
    assert_eq!(summary_of(b""), None);
}

/// Nothing but the text that bytes have is read as those bytes.
#[test]
fn base64_that_is_not_canonical_is_refused() {
    for s in ["Zg", "Zg=", "Zh==", "Zm9=", "Zg==\n", "Z===", "====", "Zm9v!", "Zm9vZg==Zg=="] {
        assert_eq!(b64d(s), Err(NotBase64), "{s:?}");
    }
    assert_eq!(b64d(""), Ok(Vec::new()));
    assert_eq!(b64d("Zm8="), Ok(b"fo".to_vec()));
}
