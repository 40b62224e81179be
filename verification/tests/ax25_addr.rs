//! Addresses of AX.25.
use sdroxide::ax25::addr::Addr;
use sdroxide::ax25::Ax25Error;

/// The 7-byte encoding, against bytes taken from a real frame: callsign shifted
/// left one bit, padded with spaces, SSID in bits 1..4 of the last byte.
#[test]
fn a_callsign_round_trips_through_the_wire_form() {
    let a = Addr::new("OE3JJS").unwrap();
    let bytes = a.serialize(true, false, false, false);
    assert_eq!(
        &bytes[..6],
        &[b'O' << 1, b'E' << 1, b'3' << 1, b'J' << 1, b'J' << 1, b'S' << 1]
    );
    assert_eq!(Addr::parse(&bytes).unwrap().call(), "OE3JJS");
}

/// A short callsign is space-padded to six characters, not truncated or
/// left ragged: a receiver trims the padding, so getting this wrong
/// produces a callsign nobody answers to.
#[test]
fn a_short_callsign_is_space_padded() {
    let bytes = Addr::new("W1AW").unwrap().serialize(true, false, false, false);
    assert_eq!(&bytes[4..6], &[b' ' << 1, b' ' << 1]);
    assert_eq!(Addr::parse(&bytes).unwrap().call(), "W1AW");
}

#[test]
fn an_ssid_survives_the_round_trip() {
    for ssid in 0..=15u8 {
        let call = if ssid == 0 { "OE3JJS".to_string() } else { format!("OE3JJS-{ssid}") };
        let a = Addr::new(&call).unwrap();
        assert_eq!(a.ssid(), ssid);
        let bytes = a.serialize(true, false, false, false);
        assert_eq!(Addr::parse(&bytes).unwrap().call(), call);
    }
}

/// What is accepted is `^[A-Z0-9]{3,6}(?:-(?:[0-9]|1[0-5]))?$`.
#[test]
fn validation_matches_the_regex_it_replaced() {
    for good in ["W1AW", "OE3JJS", "OE3JJS-0", "OE3JJS-9", "OE3JJS-15", "N0CALL-1", "abc"] {
        assert!(Addr::new(good).is_ok(), "{good} should be a valid callsign");
    }
    for bad in [
        "",
        "AB",
        "TOOLONGCALL",
        "OE3JJS-16",
        "OE3JJS-",
        "OE3JJS-01",
        "OE3JJS-1x",
        "OE3-JJS",
        "OE3JJS-99",
        "OE/JJS",
        "OE3JJS-1-2",
    ] {
        assert!(Addr::new(bad).is_err(), "{bad} should be rejected");
    }
}

/// Lower case is accepted and normalised: an operator typing their own
/// call in lower case should not be told it is invalid.
#[test]
fn callsigns_are_upper_cased() {
    assert_eq!(Addr::new("oe3jjs-7").unwrap().call(), "OE3JJS-7");
}

#[test]
fn a_callsign_that_is_none_is_named() {
    match Addr::new("oe/jjs") {
        Err(Ax25Error::Callsign(c)) => assert_eq!(c, "OE/JJS"),
        _ => panic!("not refused"),
    }
}

/// A letter outside ASCII whose upper case is an ASCII letter spells the same
/// callsign, and survives the wire form as that.
#[test]
fn any_spelling_survives_the_wire_form() {
    for (s, call) in [("oe\u{17f}tu-9", "OESTU-9"), ("\u{131}k2abc", "IK2ABC"), ("n0call", "N0CALL")] {
        for bits in 0..16u8 {
            let (l, h, e, d) = (bits & 1 != 0, bits & 2 != 0, bits & 4 != 0, bits & 8 != 0);
            let a = Addr::new(s).unwrap();
            assert_eq!(a.call(), call);
            let b = Addr::parse(&a.serialize(l, h, e, d)).unwrap();
            assert_eq!(b, Addr::new_bits(s, l, h, e, d).unwrap());
        }
    }
}
