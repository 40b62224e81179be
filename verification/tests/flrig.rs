//! flrig over XML-RPC.
use sdroxide::cat::config::Mode;
use sdroxide::cat::flrig::{candidates, label, method_of, xml_escape, Flrig, Sent, GIVE_UP_AFTER};
use sdroxide::cat::session::CatUpdate;
use sdroxide::cat::xml::read_xml;

fn flrig() -> Flrig {
    Flrig::new("127.0.0.1:12345".into())
}

/// Wrap `body` in the HTTP response flrig would send it in and feed it to
/// the parser.
fn respond(f: &mut Flrig, body: &str) -> Vec<CatUpdate> {
    respond_status(f, 200, body)
}

fn respond_status(f: &mut Flrig, status: u16, body: &str) -> Vec<CatUpdate> {
    let mut buf = format!(
        "HTTP/1.1 {status} OK\r\nServer: XMLRPC++ 0.8\r\nContent-Type: text/xml\r\n\
         Content-Length: {}\r\n\r\n{body}",
        body.len()
    )
    .into_bytes();
    f.parse(&mut buf)
}

/// An ordinary single-value `methodResponse` around `value`, which
/// includes its own type tag (or none: both are legal).
fn ok(value: &str) -> String {
    format!(
        "<?xml version=\"1.0\"?><methodResponse><params><param><value>{value}</value>\
         </param></params></methodResponse>"
    )
}

fn text(v: Vec<u8>) -> String {
    String::from_utf8(v).unwrap()
}

/// Build a request for `method` and record it as written, the way the
/// driver's `write_frame` would.
fn ask(f: &mut Flrig, method: &str) {
    let frame = f.call(method, &[]);
    f.wrote(&frame);
}

#[test]
fn requests_are_http_posts_that_keep_the_connection_open() {
    let f = flrig();
    let frame = text(f.set_freq(14_074_000_000));
    let (head, body) = frame.split_once("\r\n\r\n").unwrap();
    assert!(head.starts_with("POST /RPC2 HTTP/1.1\r\n"));
    assert!(head.contains("Host: 127.0.0.1:12345"));
    assert!(head.contains(&format!("Content-Length: {}", body.len())));
    // No `Connection: close`: flrig keeps a 1.1 connection open unless
    // told otherwise, and the one long-lived stream depends on that.
    assert!(!head.contains("Connection"));
    assert!(body.contains("<methodName>rig.set_vfo</methodName>"));
    assert!(body.contains("<double>14074000</double>"));
}

#[test]
fn a_reply_is_read_against_the_request_at_the_head_of_the_queue() {
    let mut f = flrig();
    // The poll writes two requests; nothing in either reply names them.
    for req in f.poll_requests() {
        f.wrote(&req);
    }
    assert_eq!(respond(&mut f, &ok("14074000")), vec![CatUpdate::Freq(14_074_000_000)]);
    assert_eq!(respond(&mut f, &ok("<string>USB</string>")), vec![CatUpdate::Mode(Mode::Usb)]);
}

/// The driver computes mode
/// frames purely to compare against what the rig is known to be in and dedups
/// others away entirely: a queue fed at generation time would count those
/// never-written frames and read every later reply one slot off.
#[test]
fn a_generated_but_unwritten_frame_does_not_shift_the_queue() {
    let mut f = flrig();
    // Generated for comparison, never written: so never `wrote`.
    let _ = f.set_mode(Mode::Cw);
    ask(&mut f, "rig.get_vfo");
    assert_eq!(respond(&mut f, &ok("7030000")), vec![CatUpdate::Freq(7_030_000_000)]);
}

#[test]
fn replies_split_across_reads_are_reassembled() {
    let mut f = flrig();
    ask(&mut f, "rig.get_vfo");
    let body = ok("7030000");
    let full = format!("HTTP/1.1 200 OK\r\nContent-Length: {}\r\n\r\n{body}", body.len());
    let bytes = full.as_bytes();
    // In three arbitrary pieces: mid-head, mid-body, the rest.
    let mut part = bytes[..9].to_vec();
    assert!(f.parse(&mut part).is_empty());
    let mut part = bytes[9..60].to_vec();
    assert!(f.parse(&mut part).is_empty());
    let mut part = bytes[60..].to_vec();
    assert_eq!(f.parse(&mut part), vec![CatUpdate::Freq(7_030_000_000)]);
}

#[test]
fn the_mode_goes_out_by_the_name_this_rig_actually_has() {
    let mut f = flrig();
    // Before the list answers, the most specific spelling is the guess.
    assert!(text(f.set_mode(Mode::Digu)).contains("<string>DATA</string>"));
    // A KX3's list arrives (flrig's Elecraft driver's own names).
    ask(&mut f, "rig.get_modes");
    respond(
        &mut f,
        "<?xml version=\"1.0\"?><methodResponse><params><param><value><array><data>\
         <value>LSB</value><value>USB</value><value>CW</value><value>FM</value>\
         <value>AM</value><value>DATA</value><value>CW-R</value><value>DATA-R</value>\
         </data></array></value></param></params></methodResponse>",
    );
    assert!(text(f.set_mode(Mode::Digu)).contains("<string>DATA</string>"));
    assert!(text(f.set_mode(Mode::Digl)).contains("<string>DATA-R</string>"));
    // No WFM on a KX3: an empty frame, which writes nothing: not a guess.
    assert!(f.set_mode(Mode::Wfm).is_empty());
    // An Icom's list instead: the same app mode goes out as its spelling.
    respond_modes(&mut f, &["LSB", "USB", "AM", "CW", "RTTY", "FM", "USB-D", "LSB-D"]);
    assert!(text(f.set_mode(Mode::Digu)).contains("<string>USB-D</string>"));
    assert!(text(f.set_mode(Mode::Digl)).contains("<string>LSB-D</string>"));
}

fn respond_modes(f: &mut Flrig, names: &[&str]) {
    ask(f, "rig.get_modes");
    let values: String = names.iter().map(|n| format!("<value>{n}</value>")).collect();
    respond(
        f,
        &format!(
            "<?xml version=\"1.0\"?><methodResponse><params><param><value><array>\
             <data>{values}</data></array></value></param></params></methodResponse>"
        ),
    );
}

#[test]
fn a_pipe_separated_mode_list_is_taken_too() {
    let mut f = flrig();
    ask(&mut f, "rig.get_modes");
    respond(&mut f, &ok("<string>LSB|USB|CW|DATA</string>"));
    assert_eq!(f.modes, vec!["LSB", "USB", "CW", "DATA"]);
}

#[test]
fn the_power_scale_is_the_rigs_own() {
    let mut f = flrig();
    // Until the rig says otherwise, 100 W is assumed.
    assert!(text(f.set_power(500_000).remove(0)).contains("<i4>50</i4>"));
    // A KX3 answers 15 W.
    ask(&mut f, "rig.get_maxpwr");
    respond(&mut f, &ok("<i4>15</i4>"));
    ask(&mut f, "rig.get_power");
    let up = respond(&mut f, &ok("<i4>10</i4>"));
    match up.as_slice() {
        [CatUpdate::Power(frac)] => assert!((*frac as f64 / 1e6 - 10.0 / 15.0).abs() < 1e-6),
        other => panic!("expected a power adoption, got {other:?}"),
    }
    // And the slider's fraction goes back out in the rig's watts.
    assert!(text(f.set_power(500_000).remove(0)).contains("<i4>8</i4>"));
}

#[test]
fn the_meters_read_on_their_own_scales() {
    let mut f = flrig();
    // The S-meter arrives already in dBm.
    ask(&mut f, "rig.get_DBM");
    assert_eq!(respond(&mut f, &ok("-73")), vec![CatUpdate::Signal(-73_000_000)]);
    // SWR is the 0-100 face; half scale is 2:1 on the assumed marks.
    ask(&mut f, "rig.get_swrmeter");
    assert_eq!(respond(&mut f, &ok("50")), vec![CatUpdate::Swr(2_000_000)]);
    // Zero is a driver with nothing behind the meter, not a reading.
    ask(&mut f, "rig.get_swrmeter");
    assert!(respond(&mut f, &ok("0")).is_empty());
    // Power-out in watts, as a fraction of the maximum.
    ask(&mut f, "rig.get_maxpwr");
    respond(&mut f, &ok("<i4>100</i4>"));
    ask(&mut f, "rig.get_pwrmeter");
    assert_eq!(respond(&mut f, &ok("25")), vec![CatUpdate::Po(250_000)]);
}

#[test]
fn a_fault_is_noted_and_reported_once() {
    let mut f = flrig();
    assert!(!f.refused());
    ask(&mut f, "rig.set_ptt");
    assert!(
        respond(
            &mut f,
            "<?xml version=\"1.0\"?><methodResponse><fault><value><struct>\
             <member><name>faultCode</name><value><i4>-1</i4></value></member>\
             <member><name>faultString</name><value>nope</value></member>\
             </struct></value></fault></methodResponse>",
        )
        .is_empty()
    );
    assert!(f.refused(), "the daemon said the command did not take");
    assert!(!f.refused(), "and it is reported exactly once");
    // An HTTP error is a refusal too.
    ask(&mut f, "rig.set_ptt");
    respond_status(&mut f, 500, &ok("<i4>0</i4>"));
    assert!(f.refused());
}

#[test]
fn only_the_positions_that_round_trip_are_followed() {
    let mut f = flrig();
    // RTTY: ours is its own modem in a data sideband, and would be
    // commanded back as a data position: so it is not followed.
    ask(&mut f, "rig.get_mode");
    assert!(respond(&mut f, &ok("<string>RTTY</string>")).is_empty());
    // Synchronous AM is this side's own detector on the rig's plain AM.
    ask(&mut f, "rig.get_mode");
    assert!(respond(&mut f, &ok("<string>AMS</string>")).is_empty());
    // Every mode this profile commands by default has to read back as
    // itself.
    for m in [
        Mode::Lsb,
        Mode::Usb,
        Mode::Cw,
        Mode::Am,
        Mode::Dsb,
        Mode::Nfm,
        Mode::Wfm,
        Mode::Digl,
        Mode::Digu,
    ] {
        let name = candidates(m)[0];
        ask(&mut f, "rig.get_mode");
        assert_eq!(
            respond(&mut f, &ok(&format!("<string>{name}</string>"))),
            vec![CatUpdate::Mode(m)],
            "{m:?} goes out as {name} and read back as something else"
        );
    }
}

#[test]
fn a_new_connection_starts_with_nothing_in_flight() {
    let mut f = flrig();
    ask(&mut f, "rig.get_vfo");
    ask(&mut f, "rig.get_mode");
    // Half a response arrives, then the link drops.
    let mut part = b"HTTP/1.1 200 OK\r\nContent-Le".to_vec();
    assert!(f.parse(&mut part).is_empty());
    f.link_opened();
    // The fresh connection's first exchange correlates cleanly.
    ask(&mut f, "rig.get_vfo");
    assert_eq!(respond(&mut f, &ok("14074000")), vec![CatUpdate::Freq(14_074_000_000)]);
}

#[test]
fn what_the_rig_is_arrives_with_the_open_sequence() {
    let mut f = flrig();
    assert!(!f.mode_moves_dial(), "nothing is claimed before the rig is known");
    for req in f.open_requests() {
        f.wrote(&req);
    }
    respond(&mut f, &ok("<string>KX3</string>"));
    respond(&mut f, &ok("<i4>15</i4>"));
    respond(
        &mut f,
        "<?xml version=\"1.0\"?><methodResponse><params><param><value><array><data>\
         <value>LSB</value><value>USB</value></data></array></value></param></params>\
         </methodResponse>",
    );
    // An Elecraft shifts its dial with the mode behind flrig exactly as on
    // a direct link.
    assert!(f.mode_moves_dial());
    assert_eq!(f.max_w, 15_000_000);
    assert_eq!(f.modes, vec!["LSB", "USB"]);
}

#[test]
fn cw_goes_out_as_queue_then_start() {
    let f = flrig();
    // `cwio_text` only queues: without the `cwio_send 1` behind it the
    // message would sit in flrig unsent.
    let frames: Vec<String> = f.send_cw("CQ CQ".to_string()).into_iter().map(text).collect();
    assert_eq!(frames.len(), 2);
    assert!(frames[0].contains("<methodName>rig.cwio_text</methodName>"));
    assert!(frames[0].contains("<string>CQ CQ</string>"));
    assert!(frames[1].contains("<methodName>rig.cwio_send</methodName>"));
    assert!(frames[1].contains("<i4>1</i4>"));
    let abort = text(f.abort_cw().remove(0));
    assert!(abort.contains("<methodName>rig.cwio_send</methodName>"));
    assert!(abort.contains("<i4>0</i4>"));
}

#[test]
fn the_filter_goes_out_as_a_width_for_flrig_to_snap() {
    let f = flrig();
    let frame = text(f.set_filter(300_000, 800_000).remove(0));
    assert!(frame.contains("<methodName>rig.set_bandwidth</methodName>"));
    assert!(frame.contains("<i4>500</i4>"));
}

/// flrig's S-meter, SWR and power faces are all
/// 0-100, and one of those numbers read as a dial is a radio apparently
/// tuned to 7 Hz. It cannot be believed, and it cannot be quietly dropped
/// either: an answer in the wrong place means every later one is too.
#[test]
fn a_meter_reading_is_not_a_dial() {
    let mut f = flrig();
    ask(&mut f, "rig.get_vfo");
    assert!(respond(&mut f, &ok("7")).is_empty(), "7 Hz is a meter, not a frequency");
    assert!(f.desynced(), "and being handed one is proof the answers have slipped");
    assert!(!f.desynced(), "reported exactly once");
}

/// The line is drawn where a double draws it, whatever the number is written as.
#[test]
fn a_dial_is_a_thousand_hertz_at_least_and_finite() {
    let big = format!("1{}", "0".repeat(400));
    let top = format!("1797693134862315807{}", "0".repeat(290));
    let over = format!("179769313486231580794{}", "0".repeat(288));
    for (raw, hz) in [
        ("1000", 1_000_000),
        ("1000.4", 1_000_000),
        ("1000.5", 1_001_000),
        ("+14074000.0", 14_074_000_000),
        ("1.4074e7", 14_074_000_000),
        ("999.99999999999999", 1_000_000),
        (top.as_str(), i64::MAX),
        ("1e308", i64::MAX),
    ] {
        let mut f = flrig();
        ask(&mut f, "rig.get_vfo");
        assert_eq!(respond(&mut f, &ok(raw)), vec![CatUpdate::Freq(hz)], "{raw}");
        assert!(!f.desynced(), "{raw}");
    }
    for raw in ["0.0", "-0", "000", "0e999", "1e-400", "-1e-400"] {
        let mut f = flrig();
        ask(&mut f, "rig.get_vfo");
        assert!(respond(&mut f, &ok(raw)).is_empty(), "{raw}");
        assert!(!f.desynced(), "{raw} is a dial that was not read yet");
    }
    for raw in [
        "0.0000001",
        "999.9999999",
        "-73",
        "-1000",
        "1e400",
        big.as_str(),
        over.as_str(),
        "1e-320",
        "inf",
        "Infinity",
        "nan",
        "USB",
    ] {
        let mut f = flrig();
        ask(&mut f, "rig.get_vfo");
        assert!(respond(&mut f, &ok(raw)).is_empty(), "{raw}");
        assert!(f.desynced(), "{raw} is somebody else's answer");
        assert!(!f.desynced(), "{raw} is reported once");
    }
}

/// A meter with nothing behind it reads zero, and the least above it is a reading.
#[test]
fn the_sign_of_a_reading_is_not_rounded_away() {
    let mut f = flrig();
    for (method, raw, seen) in [
        ("rig.get_swrmeter", "0.0000001", Some(CatUpdate::Swr(1_000_000))),
        ("rig.get_swrmeter", "0", None),
        ("rig.get_swrmeter", "inf", Some(CatUpdate::Swr(5_000_000))),
        ("rig.get_DBM", "0.0000001", None),
        ("rig.get_DBM", "-200.000001", Some(CatUpdate::Signal(-200_000_000))),
        ("rig.get_DBM", "-200.1", None),
        ("rig.get_DBM", "-73.5", Some(CatUpdate::Signal(-73_500_000))),
        ("rig.get_pwrmeter", "-0.0000001", None),
        ("rig.get_pwrmeter", "-0", Some(CatUpdate::Po(0))),
        ("rig.get_power", "inf", Some(CatUpdate::Power(1_000_000))),
        ("rig.get_power", "nan", None),
    ] {
        ask(&mut f, method);
        assert_eq!(respond(&mut f, &ok(raw)).first().copied(), seen, "{method} {raw}");
    }
}

/// The other half of the same slip, and the more expensive one: a
/// frequency parses perfectly well as a transmit state, and every non-zero
/// number would be an over. That blanks the S-meter and refuses the
/// operator's own next key-down.
#[test]
fn a_frequency_is_not_a_transmit_state() {
    let mut f = flrig();
    ask(&mut f, "rig.get_ptt");
    assert!(respond(&mut f, &ok("<i4>14074000</i4>")).is_empty());
    assert!(f.desynced());
    // Both of the answers this read really has still read.
    for (raw, on) in [("<i4>0</i4>", false), ("<i4>1</i4>", true)] {
        ask(&mut f, "rig.get_ptt");
        assert_eq!(respond(&mut f, &ok(raw)), vec![CatUpdate::Ptt(on)]);
    }
    assert!(!f.desynced(), "and nothing about those is a slip");
}

/// A driver with its own idea of "keyed" costs one reading, not a link:
/// any small number is a transmit state, and only a number no transmit
/// state could be: a frequency: is a slip.
#[test]
fn an_odd_transmit_state_is_still_a_transmit_state() {
    let mut f = flrig();
    ask(&mut f, "rig.get_ptt");
    assert_eq!(respond(&mut f, &ok("<i4>2</i4>")), vec![CatUpdate::Ptt(true)]);
    assert!(!f.desynced(), "an odd number is odd, not proof of anything");
}

/// Remaking the link cures a slip: one request lost, after which the order
/// is wrong for good. It cannot cure an answer flrig gives every time, and
/// a session spent reconnecting into the same reply is worse than one that
/// simply refuses it: the refusing is what keeps a meter reading off the
/// dial, and it goes on working.
#[test]
fn a_slip_that_survives_every_reconnect_stops_being_reconnected_over() {
    let mut f = flrig();
    for attempt in 1..=GIVE_UP_AFTER {
        ask(&mut f, "rig.get_vfo");
        assert!(respond(&mut f, &ok("7")).is_empty());
        assert!(f.desynced(), "attempt {attempt} is still worth a fresh connection");
        f.link_opened();
    }
    ask(&mut f, "rig.get_vfo");
    assert!(respond(&mut f, &ok("7")).is_empty(), "and the answer is still refused");
    assert!(!f.desynced(), "but the link is left alone now");
}

/// ...and a link that comes back working starts that count again, so a
/// second genuine slip an hour later still gets its reconnect.
#[test]
fn an_answer_in_its_right_place_clears_the_count() {
    let mut f = flrig();
    for _ in 0..GIVE_UP_AFTER {
        ask(&mut f, "rig.get_vfo");
        respond(&mut f, &ok("7"));
        assert!(f.desynced());
        f.link_opened();
    }
    ask(&mut f, "rig.get_vfo");
    assert_eq!(respond(&mut f, &ok("14074000")), vec![CatUpdate::Freq(14_074_000_000)]);
    ask(&mut f, "rig.get_vfo");
    assert!(respond(&mut f, &ok("7")).is_empty());
    assert!(f.desynced(), "a working link earns the next slip its reconnect");
}

/// A VFO flrig has not read yet answers zero, and an flrig with nothing
/// to say answers an empty value. Neither is a slip: reconnecting over an
/// flrig sitting there with no radio attached would be a loop.
#[test]
fn a_dial_flrig_has_not_read_is_not_a_slip() {
    let mut f = flrig();
    for raw in ["0", ""] {
        ask(&mut f, "rig.get_vfo");
        assert!(respond(&mut f, &ok(raw)).is_empty());
        assert!(!f.desynced(), "{raw:?} is flrig having nothing to report");
    }
    ask(&mut f, "rig.get_ptt");
    assert!(respond(&mut f, &ok("")).is_empty());
    assert!(!f.desynced());
}

/// What the driver holds its next frame on: the
/// count is the queue: one per request written, one off per answer read.
#[test]
fn what_is_outstanding_is_what_has_not_been_answered() {
    let mut f = flrig();
    assert_eq!(f.in_flight(), 0);
    for req in f.poll_requests() {
        f.wrote(&req);
    }
    assert_eq!(f.in_flight(), 2);
    respond(&mut f, &ok("14074000"));
    assert_eq!(f.in_flight(), 1);
    respond(&mut f, &ok("USB"));
    assert_eq!(f.in_flight(), 0);
    // An answer with nothing outstanding is a slip of its own: one too
    // many puts every later answer a place ahead of its question.
    respond(&mut f, &ok("14074000"));
    assert!(f.desynced());
}

#[test]
fn text_in_a_cw_message_is_xml_escaped() {
    let f = flrig();
    let frame = text(f.send_cw("R R <K>".to_string()).remove(0));
    assert!(frame.contains("<string>R R &lt;K&gt;</string>"));
}

/// The dial poll is strictly smaller than the full one, and the front of it: the
/// frequency read, with the mode left off the back.
#[test]
fn the_mode_does_not_ride_along_with_every_dial_poll() {
    let f = flrig();
    let (full, dial) = (f.poll_requests(), f.dial_requests());
    assert!(dial.len() < full.len());
    assert_eq!(dial, full[..dial.len()]);
}

#[test]
fn a_request_names_its_method() {
    let f = flrig();
    assert_eq!(method_of(&f.ptt(true)).as_deref(), Some("rig.set_ptt"));
    assert_eq!(method_of(b"nothing"), None);
    assert_eq!(xml_escape("a<b>&c"), "a&lt;b&gt;&amp;c");
    assert_eq!(label(Sent::GetVfo), "frequency read");
}

/// What the rig set is not what it was asked for where a document cannot be read.
#[test]
fn a_reply_that_is_no_document_says_nothing() {
    let mut f = flrig();
    ask(&mut f, "rig.get_vfo");
    assert!(respond(&mut f, "<unclosed>").is_empty());
    assert_eq!(f.in_flight(), 0);
}

/// A document that is nested deeper than any stack holds is read as nothing.
#[test]
fn a_document_that_is_nested_too_deep_is_no_document() {
    let nested = |n: usize| format!("{}1{}", "<a>".repeat(n), "</a>".repeat(n));
    let mut f = flrig();
    for n in [101, 200_000] {
        ask(&mut f, "rig.get_ptt");
        assert!(respond(&mut f, &nested(n)).is_empty());
        assert!(!f.desynced() && !f.refused(), "it says nothing");
    }
    assert!(read_xml(&nested(101)).is_none());
    assert_eq!(read_xml(&nested(100)).map(|v| v.len()), Some(102));
    // End tags in a comment end nothing.
    for veil in ["<!--</a>-->", "<![CDATA[</a>]]>", "<?x </a>?>"] {
        let hidden = |n: usize| {
            format!("{}{}", format!("<a>{veil}").repeat(n), "</a>".repeat(n))
        };
        assert!(read_xml(&hidden(101)).is_none(), "{veil}");
        assert!(read_xml(&hidden(100)).is_some(), "{veil}");
    }
    // A document may be as wide as it likes.
    let wide = format!("<?xml version=\"1.0\"?><r>{}</r>", "<a>1</a><!--<b>-->".repeat(5000));
    assert_eq!(read_xml(&wide).map(|v| v.len()), Some(15_002));
}
