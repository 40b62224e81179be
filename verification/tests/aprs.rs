//! The APRS information field, both ways.
use sdroxide::aprs::message::{encode_ack, encode_message, encode_rej, encode_status, MessageKind};
use sdroxide::aprs::mice::{dest_char, message_code, DestChar, MicEStatus};
use sdroxide::aprs::path::{hop_count, parse_path, path_advice};
use sdroxide::aprs::position::{
    ambiguity_span_deg, Altitude, AprsPosition, AprsSymbol, Position, Range, Speed, DEGREE,
};
use sdroxide::aprs::report::{
    encode_compressed_position, encode_object, encode_position, encode_position_ts, fmt_lat,
    fmt_lon,
};
use sdroxide::aprs::{parse, position_from_grid, AprsData, AprsError};

fn degrees(angle: i64) -> f64 {
    angle as f64 / DEGREE as f64
}

fn angle(degrees: f64) -> i64 {
    (degrees * DEGREE as f64).round() as i64
}

fn metres(p: &Position) -> Option<f64> {
    p.altitude.map(|a| match a {
        Altitude::Metres(m) => m as f64,
        Altitude::Feet(f) => f as f64 * 0.3048,
        Altitude::PowerFeet(n) => 1.002f64.powi(n as i32) * 0.3048,
    })
}

fn knots(p: &Position) -> Option<f64> {
    p.speed.map(|s| match s {
        Speed::Knots(k) => k as f64 / 1000.0,
        Speed::Power(n) => 1.08f64.powi(n as i32) - 1.0,
    })
}

#[test]
fn an_empty_field_is_an_error_not_a_position() {
    assert_eq!(parse("APRS", b""), Err(AprsError::Empty));
}

/// A data type identifier nobody implements has to come back naming
/// itself. The traffic view prints it, and that is how an operator learns
/// their channel carries something this build does not read.
#[test]
fn an_unknown_type_names_itself() {
    assert_eq!(parse("APRS", b"%something"), Err(AprsError::UnknownType('%')));
}

#[test]
fn a_message_with_an_identifier_splits_into_its_parts() {
    let AprsData::Message(m) = parse("APRS", b":OE3JJS   :Hello there{42").unwrap() else {
        panic!("not a message")
    };
    assert_eq!(m.addressee, "OE3JJS");
    assert_eq!(m.text, "Hello there");
    assert_eq!(m.id, "42");
    assert_eq!(m.kind, MessageKind::Text);
}

/// The addressee is a fixed nine-wide field. Splitting on the first colon
/// instead breaks every message that contains one : which is any message
/// mentioning a time.
#[test]
fn a_colon_in_the_text_does_not_split_the_addressee() {
    let AprsData::Message(m) = parse("APRS", b":OE3JJS   :net at 19:30{7").unwrap() else {
        panic!("not a message")
    };
    assert_eq!(m.addressee, "OE3JJS");
    assert_eq!(m.text, "net at 19:30");
    assert_eq!(m.id, "7");
}

#[test]
fn an_ack_and_a_rej_are_not_messages() {
    let AprsData::Message(a) = parse("APRS", b":OE3JJS   :ack42").unwrap() else {
        panic!()
    };
    assert_eq!(a.kind, MessageKind::Ack);
    assert_eq!(a.id, "42");
    let AprsData::Message(r) = parse("APRS", b":OE3JJS   :rej42").unwrap() else {
        panic!()
    };
    assert_eq!(r.kind, MessageKind::Rej);
}

/// "acknowledged" begins with `ack` and is a message, not an
/// acknowledgement of a station called "nowledged".
#[test]
fn a_message_beginning_with_ack_is_still_a_message() {
    let AprsData::Message(m) = parse("APRS", b":OE3JJS   :acknowledged, thanks").unwrap()
    else {
        panic!()
    };
    assert_eq!(m.kind, MessageKind::Text);
    assert_eq!(m.text, "acknowledged, thanks");
}

/// Reply-ack folds an acknowledgement into the reply and saves a whole
/// transmission on a channel where that is the scarce thing.
#[test]
fn a_reply_ack_carries_both_identifiers() {
    let AprsData::Message(m) = parse("APRS", b":OE3JJS   :on my way{ab}cd").unwrap()
    else {
        panic!()
    };
    assert_eq!(m.text, "on my way");
    assert_eq!(m.id, "ab");
    assert_eq!(m.reply_ack, "cd");
}

#[test]
fn a_bulletin_is_recognised_by_its_addressee() {
    let AprsData::Message(m) = parse("APRS", b":BLN1     :Club net Tuesday").unwrap()
    else {
        panic!()
    };
    assert_eq!(m.kind, MessageKind::Bulletin);
}

/// The encoder pads to nine and round-trips through the parser, which is
/// the pair that actually has to agree.
#[test]
fn an_encoded_message_reads_back_as_itself() {
    let f = encode_message("oe3jjs", "test message", "01");
    assert_eq!(f, ":OE3JJS   :test message{01}".trim_end_matches('}'));
    let AprsData::Message(m) = parse("APRS", f.as_bytes()).unwrap() else { panic!() };
    assert_eq!(m.addressee, "OE3JJS");
    assert_eq!(m.text, "test message");
    assert_eq!(m.id, "01");
}

/// A `{` typed into the message box would look like the start of an
/// identifier and truncate everything after it.
#[test]
fn a_brace_in_the_text_is_dropped_rather_than_truncating_the_message() {
    let f = encode_message("N0CALL", "a{b", "1");
    let AprsData::Message(m) = parse("APRS", f.as_bytes()).unwrap() else { panic!() };
    assert_eq!(m.text, "ab");
    assert_eq!(m.id, "1");
}

/// A nine-character callsign is the longest there is, and it must not be
/// padded past the field.
#[test]
fn a_full_width_addressee_is_not_padded() {
    let f = encode_message("VK2ABC-15", "hi", "");
    assert_eq!(&f[..11], ":VK2ABC-15:");
}

/// A jeep at 33 degrees 25.64'N 112 degrees 07.44'W, doing 20 knots on 251 degrees , En Route,
/// with the symbol `/j`.
///
/// Every one of the format's awkward corners is in this single frame:
///
/// - the longitude's hundred-degree offset lives in the destination
///   address, so `(` is 12 on the wire and 112 on the map;
/// - a longitude minute below ten has 60 added to keep the byte
///   printable, so 7 minutes travels as `_`;
/// - the speed has 800 added for the same reason, so 20 knots travels as
///   an apparent 820;
/// - and the course's hundreds digit has 4 added, so 251 travels as 651.
#[test]
fn a_constructed_mic_e_frame_decodes_through_every_offset() {
    let AprsData::Position(p) = parse("SS2UVT", b"`(_Hn\"Oj/").unwrap() else {
        panic!("not a position")
    };
    assert!((degrees(p.pos.lat) - 33.427_333).abs() < 1e-5, "{}", degrees(p.pos.lat));
    assert!((degrees(p.pos.lon) + 112.124).abs() < 1e-5, "{}", degrees(p.pos.lon));
    assert_eq!(p.course_deg, Some(251));
    assert_eq!(knots(&p), Some(20.0));
    assert_eq!(p.mice, Some(MicEStatus::EnRoute));
    assert_eq!(p.symbol, AprsSymbol::new('/', 'j'));
}

/// The half a decoder given only the information field gets wrong. The
/// same information field under a destination whose flags are all clear
/// has to land in the southern and eastern hemispheres, a hundred degrees
/// away.
#[test]
fn the_destination_address_decides_the_hemisphere() {
    let north = parse("SS2UVT", b"`(_Hn\"Oj/").unwrap();
    // The same latitude digits with every flag character replaced by its
    // plain digit: south, east, and no hundred-degree offset.
    let south = parse("SS2564", b"`(_Hn\"Oj/").unwrap();
    let (n, s) = (north.position().unwrap(), south.position().unwrap());
    assert!(n.pos.lat > 0 && s.pos.lat < 0, "north/south flag");
    assert!(n.pos.lon < 0 && s.pos.lon > 0, "east/west flag");
    // And the 100-degree offset the fifth character carries.
    assert!((degrees(n.pos.lon.abs() - s.pos.lon.abs()) - 100.0).abs() < 1e-6);
}

/// The emergency code is the one worth getting right, and it is the same
/// in both tables.
#[test]
fn all_bits_clear_is_an_emergency_in_either_table() {
    // `LLL` : blanks with every message bit clear.
    let d: Vec<DestChar> = "LLL456".bytes().map(|c| dest_char(c).unwrap()).collect();
    assert_eq!(message_code(&d), MicEStatus::Emergency);
    // `000` : digits, also all bits clear.
    let d: Vec<DestChar> = "000456".bytes().map(|c| dest_char(c).unwrap()).collect();
    assert_eq!(message_code(&d), MicEStatus::Emergency);
}

/// `A`-`K` select the custom table; `P`-`Z` the standard one. Reading the
/// wrong table turns "Committed" into "Custom 4" and back.
#[test]
fn the_alphabet_used_picks_the_message_table() {
    let std: Vec<DestChar> = "PPP456".bytes().map(|c| dest_char(c).unwrap()).collect();
    assert_eq!(message_code(&std), MicEStatus::OffDuty);
    let cus: Vec<DestChar> = "AAA456".bytes().map(|c| dest_char(c).unwrap()).collect();
    assert_eq!(message_code(&cus), MicEStatus::Custom(0));
}

/// A destination whose characters are outside all three alphabets is not
/// a Mic-E frame at all. `APRS` in the destination : which is what every
/// non-Mic-E station sends : must be refused rather than decoded into a
/// position somewhere in the Atlantic.
#[test]
fn a_non_mic_e_destination_is_refused() {
    assert!(parse("APRS", b"`(_Hn\"Oj/").is_err());
}

/// The altitude rides in the status text as three base-91 digits and a
/// brace, and has to come out of the comment as well as into the field.
#[test]
fn the_altitude_is_lifted_out_of_the_status_text() {
    let AprsData::Position(p) = parse("SS2UVT", b"`(_Hn\"Oj/\"4T}hello").unwrap() else {
        panic!()
    };
    // "4T} : (34-33)*8281 + (52-33)*91 + (84-33) = 8281 + 1729 + 51
    assert!(metres(&p).is_some_and(|a| (a - 61.0).abs() < 1.0), "{:?}", metres(&p));
    assert_eq!(p.comment, "hello");
}

/// A comment carrying a byte the sender's character set produced, ahead of
/// the altitude. The altitude is found by counting *characters* back from
/// the brace, so a multi-byte one before it must not slice the string in
/// half : which in Rust is a panic, on a receiver, from one frame off the
/// air.
#[test]
fn a_non_ascii_status_text_does_not_split_a_character() {
    // 0xb0 is a degree sign in latin-1, which is what a lot of weather
    // comments carry; it becomes a three-byte replacement character.
    let mut info: Vec<u8> = b"`(_Hn\"Oj/".to_vec();
    info.extend_from_slice(&[0xb0]);
    info.extend_from_slice(b"\"4T}hi");
    let AprsData::Position(p) = parse("SS2UVT", &info).unwrap() else { panic!() };
    assert!(metres(&p).is_some_and(|a| (a - 61.0).abs() < 1.0), "{:?}", metres(&p));
    assert!(p.comment.ends_with("hi"), "{:?}", p.comment);
}

#[test]
fn a_truncated_mic_e_frame_is_refused() {
    assert!(parse("SS2UVT", b"`(_Hn").is_err());
}

#[test]
fn the_usual_path_parses_and_is_not_complained_about() {
    let p = parse_path("wide1-1, wide2-1");
    assert_eq!(p, vec!["WIDE1-1", "WIDE2-1"]);
    assert_eq!(hop_count(&p), 2);
    assert_eq!(path_advice(&p), None);
}

#[test]
fn a_deprecated_alias_is_called_out() {
    assert!(path_advice(&parse_path("RELAY,WIDE2-2")).is_some());
}

#[test]
fn too_many_hops_is_called_out() {
    assert!(path_advice(&parse_path("WIDE2-2,WIDE3-3")).is_some());
    assert_eq!(hop_count(&parse_path("WIDE2-2,WIDE3-3")), 5);
}

/// A specific digipeater by callsign is one hop, not zero.
#[test]
fn a_named_digipeater_counts_as_a_hop() {
    assert_eq!(hop_count(&parse_path("OE3XLR,WIDE2-1")), 2);
    assert_eq!(path_advice(&parse_path("OE3XLR,WIDE2-1")), None);
}

/// A station in New Jersey, on the primary table's house symbol.
#[test]
fn the_reference_uncompressed_example_decodes() {
    let d = parse("APRS", b"!4903.50N/07201.75W-Test 001234").unwrap();
    let p = d.position().unwrap();
    assert!((degrees(p.pos.lat) - 49.058_333).abs() < 1e-5, "{}", degrees(p.pos.lat));
    assert!((degrees(p.pos.lon) + 72.029_166).abs() < 1e-5, "{}", degrees(p.pos.lon));
    assert_eq!(p.pos.ambiguity, 0);
    assert_eq!(p.symbol, AprsSymbol::new('/', '-'));
    assert_eq!(p.comment, "Test 001234");
    assert!(!p.messaging, "`!` says the station takes no messages");
}

/// Ambiguity is the field that goes wrong silently. Each blanked digit has
/// to widen the square *and* move the point to its centre.
#[test]
fn blanked_digits_widen_the_square_and_centre_the_point() {
    // 4903.5_ : a tenth of a minute of slop, centred half of that up.
    let d = parse("APRS", b"!4903.5 N/07201.75W-").unwrap();
    let p = d.position().unwrap();
    assert_eq!(p.pos.ambiguity, 1);
    assert!((degrees(p.pos.lat) - (49.0 + 3.55 / 60.0)).abs() < 1e-9, "{}", degrees(p.pos.lat));
    // A whole degree of slop: 49xx -> centred on 49 degrees 30'.
    let d = parse("APRS", b"!49  .  N/07201.75W-").unwrap();
    let p = d.position().unwrap();
    assert_eq!(p.pos.ambiguity, 4);
    assert!((degrees(p.pos.lat) - 49.5).abs() < 1e-9, "{}", degrees(p.pos.lat));
}

/// The compressed position built from the format's own arithmetic: four
/// base-91 digits of `(90 - lat) x 380926` and `(180 + lon) x 190463`.
/// `5L!!` is 40.5 degrees down from the north pole exactly : 380926 is
/// four times 95231.5, so half a degree lands on a whole count : and
/// `<*e7` is 107.25 east of the antimeridian to within one count, which
/// is the closest the format can get to a quarter degree. Both come out
/// on those numbers if and only if the two scaling constants are right,
/// which is what makes them worth pinning.
#[test]
fn a_compressed_position_decodes_on_the_format_s_own_arithmetic() {
    let d = parse("APRS", b"!/5L!!<*e7> sT").unwrap();
    let p = d.position().unwrap();
    assert!((degrees(p.pos.lat) - 49.5).abs() < 1e-6, "{}", degrees(p.pos.lat));
    // One count of longitude is 1/190463 of a degree, about 60 cm.
    assert!((degrees(p.pos.lon) + 72.75).abs() < 1e-5, "{}", degrees(p.pos.lon));
    assert_eq!(p.symbol, AprsSymbol::new('/', '>'));
    // A space in the first of the two extension bytes means the sender
    // put nothing there. Reading it as base-91 would give this parked car
    // a course of 340 degrees and a speed of a hundred knots.
    assert_eq!(p.course_deg, None);
    assert_eq!(knots(&p), None);
}

/// The same position with the course/speed bytes filled in: course is the
/// byte times four degrees, speed is 1.08 to the byte's power minus one,
/// and the type byte says which of the three meanings the pair has.
#[test]
fn the_compressed_course_speed_bytes_decode() {
    let d = parse("APRS", b"!/5L!!<*e7>7P[").unwrap();
    let p = d.position().unwrap();
    assert_eq!(p.course_deg, Some(88), "(0x37 - 33) * 4");
    assert!(knots(&p).is_some_and(|s| (s - 36.2).abs() < 0.1), "{:?}", knots(&p));
    assert_eq!(metres(&p), None);
}

/// The type byte's bit 4 changes what the same two bytes mean: with it
/// set they are an altitude in feet, not a course and a speed. A decoder
/// that ignores it puts an airliner on the ground doing 300 knots on a
/// heading it never flew.
#[test]
fn the_type_byte_switches_the_pair_to_an_altitude() {
    // `1` on the type byte is 0x31 - 33 = 16, which is the GGA pattern.
    let d = parse("APRS", b"!/5L!!<*e7>S]1").unwrap();
    let p = d.position().unwrap();
    assert_eq!(p.course_deg, None);
    assert_eq!(knots(&p), None);
    assert!(metres(&p).is_some_and(|a| a > 3000.0), "{:?}", metres(&p));
}

/// Course/speed and altitude, the two extensions that actually appear.
#[test]
fn the_course_speed_extension_and_an_altitude_are_lifted_out_of_the_comment() {
    let d = parse("APRS", b"!4903.50N/07201.75W>088/036/A=001234Rolling").unwrap();
    let p = d.position().unwrap();
    assert_eq!(p.course_deg, Some(88));
    assert_eq!(knots(&p), Some(36.0));
    assert!(metres(&p).is_some_and(|a| (a - 376.1).abs() < 0.5), "{:?}", metres(&p));
    assert_eq!(p.comment, "Rolling", "the extensions must not be left in the comment");
}

/// A course of `000` means "not known", not "due north". Reading it as a
/// heading points every stationary car on the map at the pole.
#[test]
fn a_zero_course_is_no_course() {
    let d = parse("APRS", b"!4903.50N/07201.75W>000/000parked").unwrap();
    let p = d.position().unwrap();
    assert_eq!(p.course_deg, None);
    assert_eq!(knots(&p), Some(0.0));
}

/// Round trip through our own encoder, which is what the beacon sends.
#[test]
fn an_encoded_position_reads_back_as_itself() {
    let pos = AprsPosition { lat: angle(48.208_8), lon: angle(16.372_1), ambiguity: 0 };
    let sym = AprsSymbol::new('/', '-');
    let f = encode_position(pos, sym, "sdroxide", true);
    let d = parse("APRS", f.as_bytes()).unwrap();
    let p = d.position().unwrap();
    assert!(p.messaging);
    assert_eq!(p.symbol, sym);
    assert_eq!(p.comment, "sdroxide");
    // The uncompressed form carries hundredths of a minute, so agreement
    // to about ten metres is all there is to agree to.
    assert!((degrees(p.pos.lat) - degrees(pos.lat)).abs() < 1e-4, "{} vs {}", p.pos.lat, pos.lat);
    assert!((degrees(p.pos.lon) - degrees(pos.lon)).abs() < 1e-4, "{} vs {}", p.pos.lon, pos.lon);
}

/// The compressed encoder is the one a beacon should use: same test, and
/// tighter, because the format is more precise than the one it replaces.
#[test]
fn an_encoded_compressed_position_reads_back_as_itself() {
    let pos = AprsPosition { lat: angle(-33.868_8), lon: angle(151.209_3), ambiguity: 0 };
    let sym = AprsSymbol::new('/', '>');
    let f = encode_compressed_position(pos, sym, "mobile", false);
    assert_eq!(f.len(), 1 + 13 + 6);
    let d = parse("APRS", f.as_bytes()).unwrap();
    let p = d.position().unwrap();
    assert_eq!(p.symbol, sym);
    assert_eq!(p.comment, "mobile");
    assert!((degrees(p.pos.lat) - degrees(pos.lat)).abs() < 1e-5, "{} vs {}", p.pos.lat, pos.lat);
    assert!((degrees(p.pos.lon) - degrees(pos.lon)).abs() < 1e-5, "{} vs {}", p.pos.lon, pos.lon);
}

/// A compressed overlay travels as a letter and has to come back a digit,
/// or every overlaid digipeater on the map is drawn with a stray `f`.
#[test]
fn a_compressed_overlay_round_trips_as_a_digit() {
    let pos = AprsPosition { lat: angle(10.0), lon: angle(20.0), ambiguity: 0 };
    let sym = AprsSymbol::new('7', '#');
    let f = encode_compressed_position(pos, sym, "", false);
    assert_eq!(f.as_bytes()[1], b'h', "overlay 7 travels as 'a'+7");
    let d = parse("APRS", f.as_bytes()).unwrap();
    assert_eq!(d.position().unwrap().symbol, sym);
}

/// An object is a fixed nine-character name; a short one has to be padded
/// or every field behind it shifts.
#[test]
fn an_object_round_trips_with_a_short_name() {
    let pos = AprsPosition { lat: angle(51.5), lon: angle(-0.1), ambiguity: 0 };
    let f = encode_object("NET", true, pos, AprsSymbol::new('/', 'r'), "80m net", (21, 12, 45));
    let d = parse("APRS", f.as_bytes()).unwrap();
    match d {
        AprsData::Object { name, live, pos: p } => {
            assert_eq!(name, "NET");
            assert!(live);
            assert_eq!(p.comment, "80m net");
            assert_eq!(p.timestamp.unwrap().day, Some(21));
        }
        other => panic!("{other:?}"),
    }
}

/// An item's name is terminated, not padded : the one structural
/// difference from an object, and getting it wrong shifts the position.
#[test]
fn an_item_takes_its_name_up_to_the_terminator() {
    let d = parse("APRS", b")AID!4903.50N/07201.75Wa").unwrap();
    match d {
        AprsData::Item { name, live, pos } => {
            assert_eq!(name, "AID");
            assert!(live);
            assert_eq!(pos.symbol.code, 'a');
        }
        other => panic!("{other:?}"),
    }
}

/// `!DAO!` is two more metres of precision hiding in the comment. It has
/// to be applied *and* removed : left in place it is four bytes of noise
/// on every line of the station list.
#[test]
fn the_dao_extension_is_applied_and_stripped() {
    let plain = parse("APRS", b"!4903.50N/07201.75W-hi").unwrap();
    let dao = parse("APRS", b"!4903.50N/07201.75W-hi!W55!").unwrap();
    let (a, b) = (plain.position().unwrap(), dao.position().unwrap());
    assert_eq!(b.comment, "hi");
    // Five thousandths of a minute further from the equator and further
    // from Greenwich: this station is north and *west*, so the longitude
    // moves negative.
    assert!((degrees(b.pos.lat - a.pos.lat) - 0.005 / 60.0).abs() < 1e-12);
    assert!((degrees(b.pos.lon - a.pos.lon) + 0.005 / 60.0).abs() < 1e-12);
}

/// In the southern and western hemispheres the extra precision has to go
/// the other way, or every DAO station in Australia jumps north-east.
#[test]
fn dao_precision_follows_the_hemisphere() {
    let plain = parse("APRS", b"!3352.10S/15112.60E>").unwrap();
    let dao = parse("APRS", b"!3352.10S/15112.60E>!W99!").unwrap();
    let (a, b) = (plain.position().unwrap(), dao.position().unwrap());
    assert!(b.pos.lat < a.pos.lat, "south is more negative");
    assert!(b.pos.lon > a.pos.lon, "east is more positive");
}

/// The same character-boundary trap as Mic-E's altitude: a comment with a
/// non-ASCII byte in it, and a `!DAO!` behind it.
#[test]
fn a_non_ascii_comment_does_not_split_a_character_around_dao() {
    let mut info: Vec<u8> = b"!4903.50N/07201.75W-25".to_vec();
    info.extend_from_slice(&[0xb0]); // a latin-1 degree sign
    info.extend_from_slice(b"C!W55!");
    let d = parse("APRS", &info).unwrap();
    let p = d.position().unwrap();
    assert!(p.comment.ends_with('C'), "{:?}", p.comment);
    assert!(!p.comment.contains("!W55!"), "the extension must be stripped: {:?}", p.comment);
}

/// A truncated frame must be an error, never a position at (0, 0) : the
/// Gulf of Guinea is where every unvalidated APRS map has a cluster.
#[test]
fn a_truncated_position_is_refused() {
    assert!(parse("APRS", b"!4903.50N/072").is_err());
    assert!(parse("APRS", b"!/5L!!<*").is_err());
    assert!(parse("APRS", b"@2107").is_err());
}

#[test]
fn the_reference_telemetry_example_decodes() {
    let AprsData::Telemetry(t) = parse("APRS", b"T#005,199,000,255,073,123,01101001").unwrap()
    else {
        panic!()
    };
    assert_eq!(t.seq, "005");
    assert_eq!(t.analog[0].map(|v| v as f64 / 1e6), Some(199.0));
    assert_eq!(t.analog[4].map(|v| v as f64 / 1e6), Some(123.0));
    assert_eq!(t.digital, [false, true, true, false, true, false, false, true]);
}

/// A station that sends fewer than five channels must leave the rest
/// absent rather than filling them with zeroes.
#[test]
fn missing_channels_stay_missing() {
    let AprsData::Telemetry(t) = parse("APRS", b"T#012,100,200").unwrap() else { panic!() };
    assert_eq!(t.analog[1].map(|v| v as f64 / 1e6), Some(200.0));
    assert_eq!(t.analog[2], None);
}

/// The word for a number without end is held at the end of the range; the one for
/// what is no number is no reading.
#[test]
fn a_number_without_end_is_held() {
    let AprsData::Telemetry(t) = parse("APRS", b"T#012,inf,-Infinity,nan,1e30,+INF").unwrap()
    else {
        panic!()
    };
    assert_eq!(t.analog, [Some(i64::MAX), Some(-i64::MAX), None, Some(i64::MAX), Some(i64::MAX)]);
    let AprsData::Position(p) = parse("APRS", b"!4903.50N/07201.75W>088/inf").unwrap() else {
        panic!()
    };
    assert_eq!(p.speed, Some(Speed::Knots(i64::MAX)));
    let AprsData::Position(p) = parse("APRS", b"!4903.50N/07201.75W>RNG+inf").unwrap() else {
        panic!()
    };
    assert_eq!(p.range, Some(Range::Miles(i64::MAX)));
}

/// A complete weather report.
#[test]
fn a_weather_position_decodes_every_sensor() {
    let f = b"!4903.50N/07201.75W_220/004g005t077r000p000P000h50b09900wRSW";
    let AprsData::Position(p) = parse("APRS", f).unwrap() else { panic!() };
    let w = p.weather.expect("the `_` symbol means this is a weather report");
    assert_eq!(w.wind_dir_deg, Some(220));
    assert!(w.wind_speed.map(|v| v as f64 / 1e5).is_some_and(|v| (v - 1.788).abs() < 0.01), "{:?}", w.wind_speed.map(|v| v as f64 / 1e5));
    assert!(w.wind_gust.map(|v| v as f64 / 1e5).is_some_and(|v| (v - 2.235).abs() < 0.01));
    assert!(w.temp.map(|v| v as f64 / 9.0).is_some_and(|v| (v - 25.0).abs() < 0.01), "{:?}", w.temp.map(|v| v as f64 / 9.0));
    assert_eq!(w.rain_1h.map(|v| v as f64 / 1e3), Some(0.0));
    assert_eq!(w.humidity_pct, Some(50));
    assert!(w.pressure.map(|v| v as f64 / 10.0).is_some_and(|v| (v - 990.0).abs() < 0.01), "{:?}", w.pressure.map(|v| v as f64 / 10.0));
    // What is left is the station's own note, not the weather.
    assert_eq!(p.comment, "wRSW");
}

/// `h00` is 100% relative humidity : the field is sent modulo 100, and
/// reading it literally turns fog into a desert.
#[test]
fn zero_humidity_means_saturated() {
    let f = b"!4903.50N/07201.75W_000/000h00";
    let AprsData::Position(p) = parse("APRS", f).unwrap() else { panic!() };
    assert_eq!(p.weather.unwrap().humidity_pct, Some(100));
}

/// A missing sensor is not a reading of zero. A station with no
/// thermometer sends `t...`, and a map that drew that as 0 degrees F would put a
/// hard frost on it in July.
#[test]
fn a_blank_field_is_absent_rather_than_zero() {
    let f = b"!4903.50N/07201.75W_220/004t...r000";
    let AprsData::Position(p) = parse("APRS", f).unwrap() else { panic!() };
    let w = p.weather.unwrap();
    assert_eq!(w.temp.map(|v| v as f64 / 9.0), None);
    assert_eq!(w.rain_1h.map(|v| v as f64 / 1e3), Some(0.0));
}

/// Below freezing the temperature is negative and still three characters.
#[test]
fn a_negative_temperature_decodes() {
    let f = b"!4903.50N/07201.75W_000/000t-05";
    let AprsData::Position(p) = parse("APRS", f).unwrap() else { panic!() };
    assert!(p.weather.unwrap().temp.map(|v| v as f64 / 9.0).is_some_and(|t| (t + 20.56).abs() < 0.05));
}

/// The positionless form, from a station that has already said where it
/// is.
#[test]
fn a_positionless_report_decodes() {
    let AprsData::Weather(w) = parse("APRS", b"_10090556c220s004g005t077b09900").unwrap()
    else {
        panic!()
    };
    assert_eq!(w.wind_dir_deg, Some(220));
    assert!(w.temp.map(|v| v as f64 / 9.0).is_some_and(|v| (v - 25.0).abs() < 0.01));
}


#[test]
fn a_status_and_a_query_are_read() {
    assert_eq!(parse("APRS", b">on the air \r\n"), Ok(AprsData::Status("on the air".to_string())));
    assert_eq!(parse("APRS", b"?APRS?"), Ok(AprsData::Query("APRS?".to_string())));
    assert_eq!(encode_status("on {the} air"), ">on the} air");
}

#[test]
fn a_grid_report_splits_at_its_bracket() {
    match parse("APRS", b"[JN88ee] hello").unwrap() {
        AprsData::Grid { grid, comment, .. } => {
            assert_eq!(grid, "JN88ee");
            assert_eq!(comment, "hello");
        }
        other => panic!("{other:?}"),
    }
}

#[test]
fn a_byte_that_is_not_utf8_becomes_a_mark() {
    assert_eq!(parse("APRS", b">25\xb0C"), Ok(AprsData::Status("25\u{fffd}C".to_string())));
}

#[test]
fn a_broken_field_says_which() {
    assert_eq!(parse("APRS", b":OE3JJS"), Err(AprsError::Malformed("message addressee")));
    assert_eq!(AprsError::Malformed("latitude").text(), "latitude");
    assert_eq!(AprsError::Empty.text(), "empty information field");
    assert_eq!(AprsError::UnknownType('%').text(), "unhandled data type '%'");
}

#[test]
fn a_word_for_each_kind() {
    assert_eq!(parse("APRS", b"!4903.50N/07201.75W-").unwrap().kind(), "position");
    assert_eq!(parse("APRS", b"!4903.50N/07201.75W_000/000h00").unwrap().kind(), "weather");
    assert_eq!(parse("APRS", b":OE3JJS   :ack42").unwrap().kind(), "ack");
    assert_eq!(parse("APRS", b">x").unwrap().kind(), "status");
}

/// What a station sends reads back at the receiver.
#[test]
fn acknowledgements_and_rejections_read_back() {
    for (f, kind) in
        [(encode_ack("oe3jjs", "42"), MessageKind::Ack), (encode_rej("oe3jjs", "42"), MessageKind::Rej)]
    {
        let AprsData::Message(m) = parse("APRS", f.as_bytes()).unwrap() else { panic!() };
        assert_eq!(m.addressee, "OE3JJS");
        assert_eq!(m.id, "42");
        assert_eq!(m.kind, kind);
    }
}

#[test]
fn a_position_with_a_time_reads_back() {
    let pos = AprsPosition { lat: angle(-10.5), lon: angle(-20.25), ambiguity: 0 };
    let f = encode_position_ts(pos, AprsSymbol::new('/', '>'), "hi", true, (9, 8, 7));
    let d = parse("APRS", f.as_bytes()).unwrap();
    let p = d.position().unwrap();
    let t = p.timestamp.unwrap();
    assert_eq!((t.day, t.hour, t.minute, t.zulu), (Some(9), 8, 7, true));
    assert_eq!(p.pos.lat, pos.lat);
    assert_eq!(p.pos.lon, pos.lon);
    assert!(p.messaging);
}

#[test]
fn angles_are_written_in_hundredths_of_a_minute() {
    assert_eq!(fmt_lat(angle(49.058_333_333)), "4903.50N");
    assert_eq!(fmt_lon(angle(-72.029_166_666)), "07201.75W");
    assert_eq!(degrees(ambiguity_span_deg(4)), 1.0);
    assert!((degrees(ambiguity_span_deg(1)) - 0.1 / 60.0).abs() < 1e-12);
    assert_eq!(ambiguity_span_deg(9), 0);
}

/// A locator is a square, and says so.
#[test]
fn a_locator_is_ambiguous() {
    let middle = Some((angle(48.2), angle(16.4)));
    assert_eq!(position_from_grid("JN88ee", middle).unwrap().ambiguity, 3);
    assert_eq!(position_from_grid(" JN88 ", middle).unwrap().ambiguity, 4);
    assert_eq!(position_from_grid("nonsense", None), None);
}

#[test]
fn an_emergency_is_one() {
    assert!(MicEStatus::Emergency.is_emergency());
    assert!(!MicEStatus::Custom(3).is_emergency());
    assert_eq!(MicEStatus::EnRoute.label(), "En Route");
}

/// The SSID of a callsign is not a number of hops.
#[test]
fn a_digipeater_with_an_ssid_is_one_hop() {
    assert_eq!(hop_count(&parse_path("OE3XLR-11,WIDE2-1")), 2);
    assert_eq!(path_advice(&parse_path("OE3XLR-11,WIDE2-1")), None);
    assert_eq!(hop_count(&parse_path("WIDE3-3")), 3);
    assert_eq!(hop_count(&parse_path("WIDE2-0")), 0);
    assert_eq!(hop_count(&parse_path("WIDE2-X")), 1);
    assert_eq!(hop_count(&parse_path("WIDE-7")), 1);
    assert_eq!(hop_count(&parse_path("WIDER-7,TRACE3-3")), 2);
}

#[test]
fn a_path_reads_back() {
    for s in ["", " , ,", "wide1-1, wide2-1", "a,b,c,d,e,f,g,h,i,j", " OE3XLR-11 ,,Wide2-1 "] {
        let path = parse_path(s);
        assert_eq!(parse_path(&path.join(",")), path, "{s:?}");
    }
}
