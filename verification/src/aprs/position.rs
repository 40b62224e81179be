//! Positions: the ways in which a station says where it is, and the objects and
//! items it says it about something else.
use crate::aprs::mice::MicEStatus;
use crate::aprs::weather;
use crate::aprs::weather::AprsWeather;
use crate::aprs::wire;
use crate::aprs::{AprsError, Fault};
use crate::decimal;
use crate::text;
use vstd::prelude::*;

verus! {

broadcast use vstd::seq::group_seq_axioms;

/// A degree, in the unit of angles. Every notation of an angle is a whole number
/// of these units.
pub const DEGREE: i64 = 1_039_927_980_000;

/// A hundredth of a minute.
pub const HUNDREDTH: i64 = 173_321_330;

/// A thousandth of a minute.
pub const THOUSANDTH: i64 = 17_332_133;

/// A 9100th of a minute.
pub const FINE_STEP: i64 = 1_904_630;

/// One count of a compressed latitude, of which a degree has 380926.
pub const LAT_COUNT: i64 = 2_730_000;

/// One count of a compressed longitude, of which a degree has 190463.
pub const LON_COUNT: i64 = 5_460_000;

/// Degrees, in hundredths, that are beyond any on the map.
pub const FAR: i64 = 100_000_000;

/// Where something is.
#[derive(Debug, Clone, Copy, PartialEq, Eq, Structural)]
pub struct AprsPosition {
    /// Positive in the north.
    pub lat: i64,
    /// Positive in the east.
    pub lon: i64,
    /// How many digits were left blank: the position is anywhere in a square.
    pub ambiguity: u8,
}

/// What a station is drawn as.
#[derive(Debug, Clone, Copy, PartialEq, Eq, Structural)]
pub struct AprsSymbol {
    pub table: char,
    pub code: char,
}

impl AprsSymbol {
    pub fn new(table: char, code: char) -> (r: AprsSymbol)
        ensures
            r == (AprsSymbol { table, code }),
    {
        AprsSymbol { table, code }
    }
}

impl Default for AprsSymbol {
    fn default() -> (r: Self)
        ensures
            r == (AprsSymbol { table: '/', code: '-' }),
    {
        AprsSymbol { table: '/', code: '-' }
    }
}

/// A timestamp as it was sent. Only a receiver that knows the date can say of
/// which month it is.
#[derive(Debug, Clone, Copy, PartialEq, Eq, Structural)]
pub struct Timestamp {
    pub day: Option<u8>,
    pub hour: u8,
    pub minute: u8,
    pub second: Option<u8>,
    /// UTC, and not the sender's local time.
    pub zulu: bool,
}

/// Speed over ground.
#[derive(Debug, Clone, Copy, PartialEq, Eq, Structural)]
pub enum Speed {
    /// In thousandths of a knot.
    Knots(i64),
    /// 1.08 to this power less one, in knots.
    Power(u8),
}

#[derive(Debug, Clone, Copy, PartialEq, Eq, Structural)]
pub enum Altitude {
    Metres(i32),
    Feet(u32),
    /// 1.002 to this power, in feet.
    PowerFeet(u16),
}

/// The range that a station claims.
#[derive(Debug, Clone, Copy, PartialEq, Eq, Structural)]
pub enum Range {
    /// In thousandths of a mile.
    Miles(i64),
    /// Twice 1.08 to this power, in miles.
    Power(u8),
}

/// A position report, however it was written.
#[derive(Debug, Clone, PartialEq)]
pub struct Position {
    pub pos: AprsPosition,
    pub symbol: AprsSymbol,
    /// Course over ground, in degrees.
    pub course_deg: Option<u16>,
    pub speed: Option<Speed>,
    pub altitude: Option<Altitude>,
    pub range: Option<Range>,
    /// What is left behind the position and its extensions.
    pub comment: String,
    /// There where the symbol says that this is a weather station.
    pub weather: Option<AprsWeather>,
    pub timestamp: Option<Timestamp>,
    /// The station accepts messages.
    pub messaging: bool,
    /// The message that the operator chose on a Mic-E radio.
    pub mice: Option<MicEStatus>,
}

/// A report as it is spoken of.
#[verifier::ext_equal]
pub struct PositionView {
    pub pos: AprsPosition,
    pub symbol: AprsSymbol,
    pub course_deg: Option<u16>,
    pub speed: Option<Speed>,
    pub altitude: Option<Altitude>,
    pub range: Option<Range>,
    pub comment: Seq<char>,
    pub weather: Option<AprsWeather>,
    pub timestamp: Option<Timestamp>,
    pub messaging: bool,
    pub mice: Option<MicEStatus>,
}

impl View for Position {
    type V = PositionView;

    open spec fn view(&self) -> PositionView {
        PositionView {
            pos: self.pos,
            symbol: self.symbol,
            course_deg: self.course_deg,
            speed: self.speed,
            altitude: self.altitude,
            range: self.range,
            comment: self.comment@,
            weather: self.weather,
            timestamp: self.timestamp,
            messaging: self.messaging,
            mice: self.mice,
        }
    }
}

/// A report that says no more than where.
pub open spec fn plain_at(pos: AprsPosition, symbol: AprsSymbol) -> PositionView {
    PositionView {
        pos,
        symbol,
        course_deg: None,
        speed: None,
        altitude: None,
        range: None,
        comment: Seq::empty(),
        weather: None,
        timestamp: None,
        messaging: false,
        mice: None,
    }
}

impl Position {
    pub fn at(pos: AprsPosition, symbol: AprsSymbol) -> (r: Position)
        ensures
            r@ == plain_at(pos, symbol),
    {
        let p = Position {
            pos,
            symbol,
            course_deg: None,
            speed: None,
            altitude: None,
            range: None,
            comment: String::new(),
            weather: None,
            timestamp: None,
            messaging: false,
            mice: None,
        };
        assert(p@ =~= plain_at(pos, symbol));
        p
    }
}

/// The width of the square that so many blank digits leave, as hundredths of a
/// minute.
pub open spec fn span(blanks: int) -> int {
    if blanks == 1 {
        10
    } else if blanks == 2 {
        100
    } else if blanks == 3 {
        1000
    } else if blanks == 4 {
        6000
    } else {
        0
    }
}

/// A character of a number of degrees or a word that no number is.
pub open spec fn lower(c: char) -> char {
    if 'A' <= c <= 'Z' {
        (c as u32 + 32) as char
    } else {
        c
    }
}

/// Not a number, or one without end.
pub open spec fn unbounded(s: Seq<char>) -> bool {
    let l = Seq::new(s.len(), |i: int| lower(s[i]));
    l == "inf"@ || l == "nan"@
}

/// Degrees, in hundredths, held at what is beyond any on the map.
pub open spec fn degrees(b: Seq<u8>) -> Option<int> {
    let s = text::ascii(b);
    if unbounded(s) {
        Some(FAR as int)
    } else {
        match decimal::fixed_of(s, 2) {
            Some(n) => Some(weather::held(n, -FAR, FAR as int)),
            None => None,
        }
    }
}

pub open spec fn digit_or_blank(c: u8) -> bool {
    c == 0x20 || 0x30 <= c <= 0x39
}

pub open spec fn digit_value(c: u8) -> int {
    if c == 0x20 {
        0
    } else {
        c - 0x30
    }
}

/// How many of four digits are blank, counted from the right.
pub open spec fn blanks(a: u8, b: u8, c: u8, d: u8) -> int {
    if d != 0x20 {
        0
    } else if c != 0x20 {
        1
    } else if b != 0x20 {
        2
    } else if a != 0x20 {
        3
    } else {
        4
    }
}

/// `MM.hh`: hundredths of a minute, and how many digits are blank. Blank digits
/// say that the position is somewhere in a square, and its middle is given.
pub open spec fn minutes(b: Seq<u8>) -> Option<(int, int)> {
    if b[2] == 0x2e && digit_or_blank(b[0]) && digit_or_blank(b[1]) && digit_or_blank(b[3])
        && digit_or_blank(b[4]) {
        let k = blanks(b[0], b[1], b[3], b[4]);
        let v = 1000 * digit_value(b[0]) + 100 * digit_value(b[1]) + 10 * digit_value(b[3])
            + digit_value(b[4]);
        Some((v + span(k) / 2, k))
    } else {
        None
    }
}

/// Degrees in hundredths and minutes in hundredths as an angle.
pub open spec fn angle(deg: int, min: int) -> int {
    deg * 10_399_279_800 + min * HUNDREDTH
}

/// `DDMM.hhN`.
pub open spec fn latitude(b: Seq<u8>) -> Result<(int, int), Fault> {
    if !vstd::utf8::valid_utf8(b.subrange(0, 7)) {
        Err(Fault::Malformed("latitude"@))
    } else {
        match degrees(b.subrange(0, 2)) {
            None => Err(Fault::Malformed("latitude degrees"@)),
            Some(d) => match minutes(b.subrange(2, 7)) {
                None => Err(Fault::Malformed("minutes"@)),
                Some((m, k)) => {
                    let a = angle(d, m);
                    if b[7] != 0x4e && b[7] != 0x6e && b[7] != 0x53 && b[7] != 0x73 {
                        Err(Fault::Malformed("latitude hemisphere"@))
                    } else {
                        let lat = if b[7] == 0x4e || b[7] == 0x6e {
                            a
                        } else {
                            -a
                        };
                        if -90 * DEGREE <= lat <= 90 * DEGREE {
                            Ok((lat, k))
                        } else {
                            Err(Fault::Malformed("latitude out of range"@))
                        }
                    }
                },
            },
        }
    }
}

/// `DDDMM.hhE`.
pub open spec fn longitude(b: Seq<u8>) -> Result<int, Fault> {
    if !vstd::utf8::valid_utf8(b.subrange(0, 8)) {
        Err(Fault::Malformed("longitude"@))
    } else {
        match degrees(b.subrange(0, 3)) {
            None => Err(Fault::Malformed("longitude degrees"@)),
            Some(d) => match minutes(b.subrange(3, 8)) {
                None => Err(Fault::Malformed("minutes"@)),
                Some((m, k)) => {
                    let a = angle(d, m);
                    if b[8] != 0x45 && b[8] != 0x65 && b[8] != 0x57 && b[8] != 0x77 {
                        Err(Fault::Malformed("longitude hemisphere"@))
                    } else {
                        let lon = if b[8] == 0x45 || b[8] == 0x65 {
                            a
                        } else {
                            -a
                        };
                        if -180 * DEGREE <= lon <= 180 * DEGREE {
                            Ok(lon)
                        } else {
                            Err(Fault::Malformed("longitude out of range"@))
                        }
                    }
                },
            },
        }
    }
}

/// A byte's value as a base-91 digit, none below the first.
pub open spec fn above(c: u8) -> int {
    if c < 33 {
        0
    } else {
        c - 33
    }
}

/// Four base-91 digits as a number.
pub open spec fn base91(b: Seq<u8>) -> Option<int> {
    if forall|i: int| 0 <= i < 4 ==> 33 <= #[trigger] b[i] <= 124 {
        Some(
            753571 * (b[0] - 33) + 8281 * (b[1] - 33) + 91 * (b[2] - 33) + (b[3] - 33),
        )
    } else {
        None
    }
}

/// The table character of a compressed position: an overlay digit travels as a
/// letter.
pub open spec fn overlay(c: u8) -> char {
    if 0x61 <= c <= 0x6a {
        (c - 49) as char
    } else {
        c as char
    }
}

/// What the two bytes behind a compressed position say, as the type byte has it:
/// nothing, a range, an altitude, or course and speed.
pub open spec fn compressed_extra(p: PositionView, c: u8, s: u8, t: u8) -> PositionView {
    if c == 0x20 {
        p
    } else if c == 0x7b {
        PositionView { range: Some(Range::Power(above(s) as u8)), ..p }
    } else if above(t) / 8 % 4 == 2 {
        PositionView {
            altitude: Some(Altitude::PowerFeet((above(c) * 91 + above(s)) as u16)),
            ..p
        }
    } else {
        PositionView {
            course_deg: Some((above(c) * 4 % 360) as u16),
            speed: Some(Speed::Power(above(s) as u8)),
            ..p
        }
    }
}

pub open spec fn three_digits(b: Seq<u8>) -> bool {
    0x30 <= b[0] <= 0x39 && 0x30 <= b[1] <= 0x39 && 0x30 <= b[2] <= 0x39
}

pub open spec fn begins(b: Seq<u8>, x: u8, y: u8, z: u8) -> bool {
    b[0] == x && b[1] == y && b[2] == z
}

/// How long the extension is that a comment starts with: seven, or nothing.
pub open spec fn extension_len(tail: Seq<u8>) -> int {
    if tail.len() >= 7 && ((tail[3] == 0x2f && three_digits(tail)) || begins(
        tail,
        0x50,
        0x48,
        0x47,
    ) || begins(tail, 0x52, 0x4e, 0x47) || begins(tail, 0x44, 0x46, 0x53)) {
        7
    } else {
        0
    }
}

/// The report with its extension: course and speed, or a range. A course of zero
/// is one that is not known.
pub open spec fn with_extension(p: PositionView, tail: Seq<u8>) -> PositionView {
    if extension_len(tail) == 0 {
        p
    } else if tail[3] == 0x2f && three_digits(tail) {
        let course = 100 * (tail[0] - 48) + 10 * (tail[1] - 48) + (tail[2] - 48);
        PositionView {
            course_deg: if course > 0 {
                Some((course % 360) as u16)
            } else {
                p.course_deg
            },
            speed: match decimal::fixed_of(wire::shown(tail.subrange(4, 7)), 3) {
                Some(n) => Some(Speed::Knots(n as i64)),
                None => p.speed,
            },
            ..p
        }
    } else if begins(tail, 0x52, 0x4e, 0x47) {
        PositionView {
            range: match decimal::fixed_of(wire::shown(tail.subrange(3, 7)), 3) {
                Some(n) => Some(Range::Miles(n as i64)),
                None => p.range,
            },
            ..p
        }
    } else {
        p
    }
}

/// Where an altitude stands in a comment: the first `/A=`, if six digits are
/// behind it.
pub open spec fn altitude_at(c: Seq<char>) -> Option<int> {
    match text::find_seq(c, "/A="@, 0) {
        Some(i) => if i + 9 <= c.len() && decimal::all_digits(c.subrange(i + 3, i + 9)) {
            Some(i)
        } else {
            None
        },
        None => None,
    }
}

/// The report with the altitude in its comment.
pub open spec fn with_altitude(p: PositionView, c: Seq<char>) -> PositionView {
    match altitude_at(c) {
        Some(i) => PositionView {
            altitude: Some(Altitude::Feet(decimal::val(c.subrange(i + 3, i + 9)) as u32)),
            comment: c.take(i) + c.skip(i + 9),
            ..p
        },
        None => PositionView { comment: c, ..p },
    }
}

/// Where a precision extension stands in a comment: the first mark with another
/// four behind it.
pub open spec fn dao_at(c: Seq<char>, from: int) -> Option<int>
    decreases c.len() - from,
{
    if from < 0 || from + 4 >= c.len() {
        None
    } else if c[from] == '!' && c[from + 4] == '!' {
        Some(from)
    } else {
        dao_at(c, from + 1)
    }
}

/// How much finer an extension makes a position, away from zero: digits of
/// thousandths of a minute behind a capital, 9100ths behind a small letter.
pub open spec fn dao_shift(d: char, a: char, o: char) -> Option<(int, int)> {
    if 'A' <= d <= 'Z' {
        if text::is_digit(a) && text::is_digit(o) {
            Some(((a as int - 48) * THOUSANDTH, (o as int - 48) * THOUSANDTH))
        } else {
            None
        }
    } else if 'a' <= d <= 'z' {
        if 33 <= a as int <= 126 && 33 <= o as int <= 126 {
            Some(((a as int - 33) * FINE_STEP, (o as int - 33) * FINE_STEP))
        } else {
            None
        }
    } else {
        None
    }
}

pub open spec fn outward(x: i64, by: int) -> i64 {
    if x < 0 {
        (x - by) as i64
    } else {
        (x + by) as i64
    }
}

/// The report with the precision extension of its comment applied and cut out.
pub open spec fn with_dao(p: PositionView) -> PositionView {
    match dao_at(p.comment, 0) {
        None => p,
        Some(i) => match dao_shift(p.comment[i + 1], p.comment[i + 2], p.comment[i + 3]) {
            None => p,
            Some((dlat, dlon)) => PositionView {
                pos: AprsPosition {
                    lat: outward(p.pos.lat, dlat),
                    lon: outward(p.pos.lon, dlon),
                    ambiguity: p.pos.ambiguity,
                },
                comment: p.comment.take(i) + p.comment.skip(i + 5),
                ..p
            },
        },
    }
}

/// The report with what stands behind the position: weather where the symbol is
/// a weather station, else an extension, an altitude, a finer position, and what
/// is left is the comment.
pub open spec fn finished(p: PositionView, tail: Seq<u8>) -> PositionView {
    if p.symbol.code == '_' {
        let (w, n) = weather::in_comment(tail);
        PositionView {
            weather: Some(w),
            comment: text::trim(wire::shown(tail.skip(n))),
            ..p
        }
    } else {
        let n = extension_len(tail);
        let q = with_dao(with_altitude(with_extension(p, tail), wire::shown(tail.skip(n))));
        PositionView { comment: text::trim(q.comment), ..q }
    }
}

/// A position written out: `DDMM.hhN/DDDMM.hhW$`.
pub open spec fn uncompressed(rest: Seq<u8>) -> Result<PositionView, Fault> {
    if rest.len() < 19 {
        Err(Fault::Malformed("truncated uncompressed position"@))
    } else {
        match latitude(rest.subrange(0, 8)) {
            Err(f) => Err(f),
            Ok((lat, k)) => match longitude(rest.subrange(9, 18)) {
                Err(f) => Err(f),
                Ok(lon) => Ok(
                    finished(
                        plain_at(
                            AprsPosition { lat: lat as i64, lon: lon as i64, ambiguity: k as u8 },
                            AprsSymbol { table: rest[8] as char, code: rest[18] as char },
                        ),
                        rest.skip(19),
                    ),
                ),
            },
        }
    }
}

/// A compressed position: thirteen bytes.
pub open spec fn compressed(rest: Seq<u8>) -> Result<PositionView, Fault> {
    if rest.len() < 13 {
        Err(Fault::Malformed("truncated compressed position"@))
    } else {
        match base91(rest.subrange(1, 5)) {
            None => Err(Fault::Malformed("compressed latitude"@)),
            Some(y) => match base91(rest.subrange(5, 9)) {
                None => Err(Fault::Malformed("compressed longitude"@)),
                Some(x) => {
                    let lat = 90 * DEGREE - y * LAT_COUNT;
                    let lon = x * LON_COUNT - 180 * DEGREE;
                    if lat < -90 * DEGREE || lon > 180 * DEGREE {
                        Err(Fault::Malformed("compressed position out of range"@))
                    } else {
                        let p = plain_at(
                            AprsPosition { lat: lat as i64, lon: lon as i64, ambiguity: 0 },
                            AprsSymbol { table: overlay(rest[0]), code: rest[9] as char },
                        );
                        Ok(
                            finished(
                                compressed_extra(p, rest[10], rest[11], rest[12]),
                                rest.skip(13),
                            ),
                        )
                    }
                },
            },
        }
    }
}

/// A position in either form. One that is written out starts with a digit, and a
/// compressed one never does.
pub open spec fn body(rest: Seq<u8>) -> Result<PositionView, Fault> {
    if rest.len() == 0 {
        Err(Fault::Malformed("no position"@))
    } else if 0x30 <= rest[0] <= 0x39 {
        uncompressed(rest)
    } else {
        compressed(rest)
    }
}

/// Two digits of a timestamp.
pub open spec fn two(b: Seq<u8>, at: int) -> Option<u8> {
    match decimal::uint_of(text::ascii(b.subrange(at, at + 2))) {
        Some(n) => if n <= 255 {
            Some(n as u8)
        } else {
            None
        },
        None => None,
    }
}

/// `DDHHMMz`, `DDHHMM/` or `HHMMSSh`.
pub open spec fn stamp(b: Seq<u8>) -> Option<Timestamp> {
    if !vstd::utf8::valid_utf8(b) {
        None
    } else if b[6] == 0x7a || b[6] == 0x5a || b[6] == 0x2f {
        match (two(b, 2), two(b, 4)) {
            (Some(hour), Some(minute)) => Some(
                Timestamp { day: two(b, 0), hour, minute, second: None, zulu: b[6] != 0x2f },
            ),
            _ => None,
        }
    } else if b[6] == 0x68 || b[6] == 0x48 {
        match (two(b, 0), two(b, 2)) {
            (Some(hour), Some(minute)) => Some(
                Timestamp { day: None, hour, minute, second: two(b, 4), zulu: true },
            ),
            _ => None,
        }
    } else {
        None
    }
}

/// A position report without its first byte.
pub open spec fn reading(rest: Seq<u8>, timestamped: bool) -> Result<PositionView, Fault> {
    if !timestamped {
        body(rest)
    } else if rest.len() < 7 {
        Err(Fault::Malformed("truncated timestamp"@))
    } else {
        match body(rest.skip(7)) {
            Ok(p) => Ok(PositionView { timestamp: stamp(rest.subrange(0, 7)), ..p }),
            Err(f) => Err(f),
        }
    }
}

/// The name of something else, whether it is still there, and where it is.
pub type Named = (Seq<char>, bool, PositionView);

/// An object without its first byte: a name nine wide, a flag, a timestamp and a
/// position.
pub open spec fn object_reading(rest: Seq<u8>) -> Result<Named, Fault> {
    if rest.len() < 17 {
        Err(Fault::Malformed("truncated object"@))
    } else if rest[9] != 0x2a && rest[9] != 0x5f {
        Err(Fault::Malformed("object live/killed flag"@))
    } else {
        match body(rest.skip(17)) {
            Ok(p) => Ok(
                (
                    text::trim(wire::shown(rest.subrange(0, 9))),
                    rest[9] == 0x2a,
                    PositionView { timestamp: stamp(rest.subrange(10, 17)), ..p },
                ),
            ),
            Err(f) => Err(f),
        }
    }
}

/// Where the name of an item ends: the first flag among the first ten bytes.
pub open spec fn item_end(rest: Seq<u8>, from: int) -> Option<int>
    decreases 10 - from,
{
    if from >= 10 || from >= rest.len() {
        None
    } else if rest[from] == 0x21 || rest[from] == 0x5f {
        Some(from)
    } else {
        item_end(rest, from + 1)
    }
}

/// An item without its first byte: a name of three to nine, ended by its flag,
/// and a position.
pub open spec fn item_reading(rest: Seq<u8>) -> Result<Named, Fault> {
    match item_end(rest, 0) {
        None => Err(Fault::Malformed("item name has no terminator"@)),
        Some(end) => if end < 3 || end > 9 {
            Err(Fault::Malformed("item name length"@))
        } else {
            match body(rest.skip(end + 1)) {
                Ok(p) => Ok((text::trim(wire::shown(rest.take(end))), rest[end] == 0x21, p)),
                Err(f) => Err(f),
            }
        },
    }
}

/// The width of the square that so many blank digits leave, as an angle of
/// latitude.
pub fn ambiguity_span_deg(ambiguity: u8) -> (r: i64)
    ensures
        r == span(ambiguity as int) * HUNDREDTH,
{
    match ambiguity {
        1 => 10 * HUNDREDTH,
        2 => 100 * HUNDREDTH,
        3 => 1000 * HUNDREDTH,
        4 => 6000 * HUNDREDTH,
        _ => 0,
    }
}

/// ASCII bytes as characters.
fn ascii_chars(b: &[u8]) -> (r: Vec<char>)
    ensures
        r@ == text::ascii(b@),
{
    let mut out: Vec<char> = Vec::new();
    let mut i: usize = 0;
    while i < b.len()
        invariant
            i <= b@.len(),
            out@.len() == i,
            forall|k: int| 0 <= k < i ==> out@[k] == b@[k] as char,
        decreases b@.len() - i,
    {
        out.push(b[i] as char);
        i += 1;
    }
    assert(out@ =~= text::ascii(b@));
    out
}

fn is_unbounded(v: &Vec<char>) -> (r: bool)
    ensures
        r == unbounded(v@),
{
    let mut l: Vec<char> = Vec::new();
    let mut i: usize = 0;
    while i < v.len()
        invariant
            i <= v@.len(),
            l@.len() == i,
            forall|k: int| 0 <= k < i ==> l@[k] == lower(v@[k]),
        decreases v@.len() - i,
    {
        let c: char = v[i];
        if 'A' <= c && c <= 'Z' {
            l.push((c as u8 + 32) as char);
        } else {
            l.push(c);
        }
        i += 1;
    }
    assert(l@ =~= Seq::new(v@.len(), |i: int| lower(v@[i])));
    let s: String = text::string_of(l.as_slice());
    text::same(s.as_str(), "inf") || text::same(s.as_str(), "nan")
}

fn read_degrees(b: &[u8]) -> (r: Option<i64>)
    ensures
        match degrees(b@) {
            Some(n) => r matches Some(x) && x == n && -FAR <= n <= FAR,
            None => r is None,
        },
{
    let v: Vec<char> = ascii_chars(b);
    if is_unbounded(&v) {
        return Some(FAR);
    }
    match decimal::parse_fixed(v.as_slice(), 2) {
        Some(n) => if n < -FAR {
            Some(-FAR)
        } else if n > FAR {
            Some(FAR)
        } else {
            Some(n)
        },
        None => None,
    }
}

fn fits(c: u8) -> (r: bool)
    ensures
        r == digit_or_blank(c),
{
    c == 0x20 || (0x30 <= c && c <= 0x39)
}

fn value_of(c: u8) -> (r: i64)
    requires
        digit_or_blank(c),
    ensures
        r == digit_value(c),
        0 <= r <= 9,
{
    if c == 0x20 {
        0
    } else {
        (c - 0x30) as i64
    }
}

/// Hundredths of a minute, and how many digits are blank.
fn parse_minutes(b: &[u8]) -> (r: Option<(i64, u8)>)
    requires
        b@.len() == 5,
    ensures
        match minutes(b@) {
            Some((m, k)) => r matches Some(x) && x.0 == m && x.1 == k && 0 <= m <= 13000,
            None => r is None,
        },
{
    if b[2] != 0x2e || !fits(b[0]) || !fits(b[1]) || !fits(b[3]) || !fits(b[4]) {
        return None;
    }
    let k: u8 = if b[4] != 0x20 {
        0
    } else if b[3] != 0x20 {
        1
    } else if b[1] != 0x20 {
        2
    } else if b[0] != 0x20 {
        3
    } else {
        4
    };
    let v: i64 = 1000 * value_of(b[0]) + 100 * value_of(b[1]) + 10 * value_of(b[3]) + value_of(
        b[4],
    );
    let half: i64 = match k {
        1 => 5,
        2 => 50,
        3 => 500,
        4 => 3000,
        _ => 0,
    };
    Some((v + half, k))
}

fn parse_lat(b: &[u8]) -> (r: Result<(i64, u8), AprsError>)
    requires
        b@.len() == 8,
    ensures
        match latitude(b@) {
            Ok((lat, k)) => r matches Ok(x) && x.0 == lat && x.1 == k && -90 * DEGREE <= lat <= 90
                * DEGREE,
            Err(f) => r matches Err(e) && e@ == f,
        },
{
    let head: Vec<u8> = text::copy_bytes(b, 0, 7);
    if text::from_utf8(head.as_slice()).is_none() {
        return Err(AprsError::Malformed("latitude"));
    }
    let db: Vec<u8> = text::copy_bytes(b, 0, 2);
    let deg: i64 = match read_degrees(db.as_slice()) {
        Some(d) => d,
        None => {
            return Err(AprsError::Malformed("latitude degrees"));
        },
    };
    let mb: Vec<u8> = text::copy_bytes(b, 2, 7);
    let (min, k) = match parse_minutes(mb.as_slice()) {
        Some(m) => m,
        None => {
            return Err(AprsError::Malformed("minutes"));
        },
    };
    let a: i64 = deg * 10_399_279_800 + min * HUNDREDTH;
    let lat: i64 = if b[7] == 0x4e || b[7] == 0x6e {
        a
    } else if b[7] == 0x53 || b[7] == 0x73 {
        -a
    } else {
        return Err(AprsError::Malformed("latitude hemisphere"));
    };
    if lat < -90 * DEGREE || lat > 90 * DEGREE {
        return Err(AprsError::Malformed("latitude out of range"));
    }
    Ok((lat, k))
}

fn parse_lon(b: &[u8]) -> (r: Result<i64, AprsError>)
    requires
        b@.len() == 9,
    ensures
        match longitude(b@) {
            Ok(lon) => r matches Ok(x) && x == lon && -180 * DEGREE <= lon <= 180 * DEGREE,
            Err(f) => r matches Err(e) && e@ == f,
        },
{
    let head: Vec<u8> = text::copy_bytes(b, 0, 8);
    if text::from_utf8(head.as_slice()).is_none() {
        return Err(AprsError::Malformed("longitude"));
    }
    let db: Vec<u8> = text::copy_bytes(b, 0, 3);
    let deg: i64 = match read_degrees(db.as_slice()) {
        Some(d) => d,
        None => {
            return Err(AprsError::Malformed("longitude degrees"));
        },
    };
    let mb: Vec<u8> = text::copy_bytes(b, 3, 8);
    let (min, _) = match parse_minutes(mb.as_slice()) {
        Some(m) => m,
        None => {
            return Err(AprsError::Malformed("minutes"));
        },
    };
    let a: i64 = deg * 10_399_279_800 + min * HUNDREDTH;
    let lon: i64 = if b[8] == 0x45 || b[8] == 0x65 {
        a
    } else if b[8] == 0x57 || b[8] == 0x77 {
        -a
    } else {
        return Err(AprsError::Malformed("longitude hemisphere"));
    };
    if lon < -180 * DEGREE || lon > 180 * DEGREE {
        return Err(AprsError::Malformed("longitude out of range"));
    }
    Ok(lon)
}

/// The position is on the map.
pub open spec fn on_map(p: AprsPosition) -> bool {
    &&& -90 * DEGREE <= p.lat <= 90 * DEGREE
    &&& -180 * DEGREE <= p.lon <= 180 * DEGREE
}

fn begins_with(b: &[u8], x: u8, y: u8, z: u8) -> (r: bool)
    requires
        b@.len() >= 3,
    ensures
        r == begins(b@, x, y, z),
{
    b[0] == x && b[1] == y && b[2] == z
}

/// Takes the extension in, and says how long it is.
fn take_extension(p: &mut Position, tail: &[u8]) -> (r: usize)
    ensures
        final(p)@ == with_extension(old(p)@, tail@),
        r == extension_len(tail@),
        r <= tail@.len(),
{
    if tail.len() < 7 {
        return 0;
    }
    let digits: bool = 0x30 <= tail[0] && tail[0] <= 0x39 && 0x30 <= tail[1] && tail[1] <= 0x39
        && 0x30 <= tail[2] && tail[2] <= 0x39;
    if tail[3] == 0x2f && digits {
        let course: u16 = 100 * (tail[0] - 48) as u16 + 10 * (tail[1] - 48) as u16 + (tail[2]
            - 48) as u16;
        if course > 0 {
            p.course_deg = Some(course % 360);
        }
        let sb: Vec<u8> = text::copy_bytes(tail, 4, 7);
        match decimal::parse_fixed(wire::printable(sb.as_slice()).as_slice(), 3) {
            Some(n) => {
                p.speed = Some(Speed::Knots(n));
            },
            None => {},
        }
        7
    } else if begins_with(tail, 0x52, 0x4e, 0x47) {
        let rb: Vec<u8> = text::copy_bytes(tail, 3, 7);
        match decimal::parse_fixed(wire::printable(rb.as_slice()).as_slice(), 3) {
            Some(n) => {
                p.range = Some(Range::Miles(n));
            },
            None => {},
        }
        7
    } else if begins_with(tail, 0x50, 0x48, 0x47) || begins_with(tail, 0x44, 0x46, 0x53) {
        7
    } else {
        0
    }
}

/// The characters without those from `a` up to `b`.
fn cut(v: &Vec<char>, a: usize, b: usize) -> (r: Vec<char>)
    requires
        a <= b <= v@.len(),
    ensures
        r@ == v@.take(a as int) + v@.skip(b as int),
{
    let mut head: Vec<char> = text::copy_chars(v.as_slice(), 0, a);
    let mut tail: Vec<char> = text::copy_chars(v.as_slice(), b, v.len());
    head.append(&mut tail);
    assert(head@ =~= v@.take(a as int) + v@.skip(b as int));
    head
}

/// The value of six digits, if they are digits.
fn six_digits(v: &Vec<char>, at: usize) -> (r: Option<u32>)
    requires
        at + 6 <= v@.len(),
    ensures
        match r {
            Some(n) => decimal::all_digits(v@.subrange(at as int, at + 6)) && n == decimal::val(
                v@.subrange(at as int, at + 6),
            ),
            None => !decimal::all_digits(v@.subrange(at as int, at + 6)),
        },
{
    let total: usize = v.len();
    assert(at + 6 <= total);
    let d: Vec<char> = text::copy_chars(v.as_slice(), at, at + 6);
    let mut n: u32 = 0;
    let mut i: usize = 0;
    assert(d@.take(0) =~= Seq::empty());
    while i < 6
        invariant
            i <= 6,
            d@.len() == 6,
            d@ == v@.subrange(at as int, at + 6),
            forall|k: int| 0 <= k < i ==> text::is_digit(#[trigger] d@[k]),
            n == decimal::val(d@.take(i as int)),
            i == 0 ==> n < 1,
            i == 1 ==> n < 10,
            i == 2 ==> n < 100,
            i == 3 ==> n < 1000,
            i == 4 ==> n < 10000,
            i == 5 ==> n < 100000,
        decreases 6 - i,
    {
        let c: char = d[i];
        if c < '0' || c > '9' {
            assert(!text::is_digit(d@[i as int]));
            return None;
        }
        n = 10 * n + (c as u8 - 48) as u32;
        i += 1;
        assert(d@.take(i as int).drop_last() =~= d@.take(i - 1));
    }
    assert(d@.take(6) =~= d@);
    Some(n)
}

/// Takes the altitude out of the comment.
fn take_altitude(p: &mut Position, c: Vec<char>) -> (r: Vec<char>)
    ensures
        (PositionView { comment: r@, ..final(p)@ }) == with_altitude(old(p)@, c@),
        final(p).pos == old(p).pos,
{
    let mark: Vec<char> = text::chars_of("/A=");
    proof {
        reveal_strlit("/A=");
    }
    match text::find_chars(c.as_slice(), mark.as_slice(), 0) {
        Some(i) => {
            if c.len() - i >= 9 {
                match six_digits(&c, i + 3) {
                    Some(n) => {
                        p.altitude = Some(Altitude::Feet(n));
                        return cut(&c, i, i + 9);
                    },
                    None => {},
                }
            }
            c
        },
        None => c,
    }
}

/// How much finer an extension makes a position.
fn read_dao(d: char, a: char, o: char) -> (r: Option<(i64, i64)>)
    ensures
        match dao_shift(d, a, o) {
            Some((x, y)) => r matches Some(s) && s.0 == x && s.1 == y && 0 <= x <= 1_000_000_000
                && 0 <= y <= 1_000_000_000,
            None => r is None,
        },
{
    if 'A' <= d && d <= 'Z' {
        if '0' <= a && a <= '9' && '0' <= o && o <= '9' {
            Some(((a as u8 - 48) as i64 * THOUSANDTH, (o as u8 - 48) as i64 * THOUSANDTH))
        } else {
            None
        }
    } else if 'a' <= d && d <= 'z' {
        let x: u32 = a as u32;
        let y: u32 = o as u32;
        if 33 <= x && x <= 126 && 33 <= y && y <= 126 {
            Some(((x - 33) as i64 * FINE_STEP, (y - 33) as i64 * FINE_STEP))
        } else {
            None
        }
    } else {
        None
    }
}

fn push_outward(x: i64, by: i64) -> (r: i64)
    requires
        -180 * DEGREE <= x <= 180 * DEGREE,
        0 <= by <= 1_000_000_000,
    ensures
        r == outward(x, by as int),
{
    if x < 0 {
        x - by
    } else {
        x + by
    }
}

fn find_dao(c: &Vec<char>) -> (r: Option<usize>)
    ensures
        match dao_at(c@, 0) {
            Some(i) => r matches Some(k) && k == i && k + 4 < c@.len(),
            None => r is None,
        },
{
    let mut i: usize = 0;
    while c.len() > 4 && i < c.len() - 4
        invariant
            i <= c@.len(),
            dao_at(c@, 0) == dao_at(c@, i as int),
        decreases c@.len() - i,
    {
        if c[i] == '!' && c[i + 4] == '!' {
            return Some(i);
        }
        i += 1;
    }
    None
}

/// Applies the precision extension of a comment, and takes it out.
fn apply_dao(p: &mut Position, c: Vec<char>) -> (r: Vec<char>)
    requires
        on_map(old(p).pos),
    ensures
        (PositionView { comment: r@, ..final(p)@ }) == with_dao(
            PositionView { comment: c@, ..old(p)@ },
        ),
{
    let total: usize = c.len();
    match find_dao(&c) {
        None => c,
        Some(i) => match read_dao(c[i + 1], c[i + 2], c[i + 3]) {
            None => c,
            Some((dlat, dlon)) => {
                p.pos = AprsPosition {
                    lat: push_outward(p.pos.lat, dlat),
                    lon: push_outward(p.pos.lon, dlon),
                    ambiguity: p.pos.ambiguity,
                };
                cut(&c, i, i + 5)
            },
        },
    }
}

/// Takes in what stands behind the position.
fn finish(p: &mut Position, tail: &[u8])
    requires
        on_map(old(p).pos),
    ensures
        final(p)@ == finished(old(p)@, tail@),
{
    if p.symbol.code == '_' {
        let (w, n) = weather::parse_in_comment(tail);
        p.weather = Some(w);
        let rest: Vec<u8> = text::copy_bytes(tail, n, tail.len());
        assert(rest@ =~= tail@.skip(n as int));
        let shown: Vec<char> = wire::printable(rest.as_slice());
        p.comment = text::string_of(text::trim_chars(shown.as_slice()).as_slice());
        return;
    }
    let ghost start = p@;
    let n: usize = take_extension(p, tail);
    let ghost extended = p@;
    let rest: Vec<u8> = text::copy_bytes(tail, n, tail.len());
    assert(rest@ =~= tail@.skip(n as int));
    let c: Vec<char> = wire::printable(rest.as_slice());
    let ghost shown = c@;
    let c: Vec<char> = take_altitude(p, c);
    let ghost lifted = PositionView { comment: c@, ..p@ };
    assert(lifted == with_altitude(extended, shown));
    let c: Vec<char> = apply_dao(p, c);
    let ghost fine = PositionView { comment: c@, ..p@ };
    assert(fine == with_dao(lifted));
    p.comment = text::string_of(text::trim_chars(c.as_slice()).as_slice());
    assert(p@ == (PositionView { comment: text::trim(c@), ..fine }));
}

fn parse_uncompressed(rest: &[u8]) -> (r: Result<Position, AprsError>)
    ensures
        match uncompressed(rest@) {
            Ok(p) => r matches Ok(v) && v@ == p,
            Err(f) => r matches Err(e) && e@ == f,
        },
{
    if rest.len() < 19 {
        return Err(AprsError::Malformed("truncated uncompressed position"));
    }
    let lat_b: Vec<u8> = text::copy_bytes(rest, 0, 8);
    let (lat, ambiguity) = match parse_lat(lat_b.as_slice()) {
        Ok(x) => x,
        Err(e) => {
            return Err(e);
        },
    };
    let lon_b: Vec<u8> = text::copy_bytes(rest, 9, 18);
    let lon: i64 = match parse_lon(lon_b.as_slice()) {
        Ok(x) => x,
        Err(e) => {
            return Err(e);
        },
    };
    let mut p: Position = Position::at(
        AprsPosition { lat, lon, ambiguity },
        AprsSymbol::new(rest[8] as char, rest[18] as char),
    );
    let tail: Vec<u8> = text::copy_bytes(rest, 19, rest.len());
    assert(tail@ =~= rest@.skip(19));
    finish(&mut p, tail.as_slice());
    Ok(p)
}

/// Four base-91 digits as a number.
fn read_base91(b: &[u8]) -> (r: Option<i64>)
    requires
        b@.len() == 4,
    ensures
        match base91(b@) {
            Some(n) => r matches Some(x) && x == n && 0 <= n <= 70_000_000,
            None => r is None,
        },
{
    let mut i: usize = 0;
    while i < 4
        invariant
            i <= 4,
            b@.len() == 4,
            forall|k: int| 0 <= k < i ==> 33 <= #[trigger] b@[k] <= 124,
        decreases 4 - i,
    {
        if b[i] < 33 || b[i] > 124 {
            assert(!(33 <= b@[i as int] <= 124));
            return None;
        }
        i += 1;
    }
    assert(33 <= b@[0] <= 124 && 33 <= b@[1] <= 124 && 33 <= b@[2] <= 124 && 33 <= b@[3] <= 124);
    Some(
        753571 * (b[0] - 33) as i64 + 8281 * (b[1] - 33) as i64 + 91 * (b[2] - 33) as i64 + (b[3]
            - 33) as i64,
    )
}

fn digit91(c: u8) -> (r: u8)
    ensures
        r == above(c),
        r <= 222,
{
    if c < 33 {
        0
    } else {
        c - 33
    }
}

fn parse_compressed(rest: &[u8]) -> (r: Result<Position, AprsError>)
    ensures
        match compressed(rest@) {
            Ok(p) => r matches Ok(v) && v@ == p,
            Err(f) => r matches Err(e) && e@ == f,
        },
{
    if rest.len() < 13 {
        return Err(AprsError::Malformed("truncated compressed position"));
    }
    let yb: Vec<u8> = text::copy_bytes(rest, 1, 5);
    let y: i64 = match read_base91(yb.as_slice()) {
        Some(y) => y,
        None => {
            return Err(AprsError::Malformed("compressed latitude"));
        },
    };
    let xb: Vec<u8> = text::copy_bytes(rest, 5, 9);
    let x: i64 = match read_base91(xb.as_slice()) {
        Some(x) => x,
        None => {
            return Err(AprsError::Malformed("compressed longitude"));
        },
    };
    let lat: i64 = 90 * DEGREE - y * LAT_COUNT;
    let lon: i64 = x * LON_COUNT - 180 * DEGREE;
    if lat < -90 * DEGREE || lon > 180 * DEGREE {
        return Err(AprsError::Malformed("compressed position out of range"));
    }
    let table: char = if 0x61 <= rest[0] && rest[0] <= 0x6a {
        (rest[0] - 49) as char
    } else {
        rest[0] as char
    };
    let mut p: Position = Position::at(
        AprsPosition { lat, lon, ambiguity: 0 },
        AprsSymbol::new(table, rest[9] as char),
    );
    let (c, s, t) = (rest[10], rest[11], rest[12]);
    if c != 0x20 {
        if c == 0x7b {
            p.range = Some(Range::Power(digit91(s)));
        } else if digit91(t) / 8 % 4 == 2 {
            p.altitude = Some(Altitude::PowerFeet(digit91(c) as u16 * 91 + digit91(s) as u16));
        } else {
            p.course_deg = Some(digit91(c) as u16 * 4 % 360);
            p.speed = Some(Speed::Power(digit91(s)));
        }
    }
    let tail: Vec<u8> = text::copy_bytes(rest, 13, rest.len());
    assert(tail@ =~= rest@.skip(13));
    finish(&mut p, tail.as_slice());
    Ok(p)
}

fn parse_body(rest: &[u8]) -> (r: Result<Position, AprsError>)
    ensures
        match body(rest@) {
            Ok(p) => r matches Ok(v) && v@ == p,
            Err(f) => r matches Err(e) && e@ == f,
        },
{
    if rest.len() == 0 {
        Err(AprsError::Malformed("no position"))
    } else if 0x30 <= rest[0] && rest[0] <= 0x39 {
        parse_uncompressed(rest)
    } else {
        parse_compressed(rest)
    }
}

fn read_two(b: &[u8], at: usize) -> (r: Option<u8>)
    requires
        at + 2 <= b@.len(),
        at <= 100,
    ensures
        r == two(b@, at as int),
{
    let d: Vec<u8> = text::copy_bytes(b, at, at + 2);
    match decimal::parse_uint(ascii_chars(d.as_slice()).as_slice(), 255) {
        Some(n) => Some(n as u8),
        None => None,
    }
}

fn parse_timestamp(b: &[u8]) -> (r: Option<Timestamp>)
    requires
        b@.len() == 7,
    ensures
        r == stamp(b@),
{
    if text::from_utf8(b).is_none() {
        return None;
    }
    let (x, y, z) = (read_two(b, 0), read_two(b, 2), read_two(b, 4));
    if b[6] == 0x7a || b[6] == 0x5a || b[6] == 0x2f {
        match (y, z) {
            (Some(hour), Some(minute)) => Some(
                Timestamp { day: x, hour, minute, second: None, zulu: b[6] != 0x2f },
            ),
            _ => None,
        }
    } else if b[6] == 0x68 || b[6] == 0x48 {
        match (x, y) {
            (Some(hour), Some(minute)) => Some(
                Timestamp { day: None, hour, minute, second: z, zulu: true },
            ),
            _ => None,
        }
    } else {
        None
    }
}

/// Reads a position report without its first byte.
pub fn parse_position(rest: &[u8], timestamped: bool) -> (r: Result<Position, AprsError>)
    ensures
        match reading(rest@, timestamped) {
            Ok(p) => r matches Ok(v) && v@ == p,
            Err(f) => r matches Err(e) && e@ == f,
        },
{
    if !timestamped {
        return parse_body(rest);
    }
    if rest.len() < 7 {
        return Err(AprsError::Malformed("truncated timestamp"));
    }
    let tb: Vec<u8> = text::copy_bytes(rest, 0, 7);
    let tail: Vec<u8> = text::copy_bytes(rest, 7, rest.len());
    assert(tail@ =~= rest@.skip(7));
    let ts: Option<Timestamp> = parse_timestamp(tb.as_slice());
    match parse_body(tail.as_slice()) {
        Ok(mut p) => {
            p.timestamp = ts;
            Ok(p)
        },
        Err(e) => Err(e),
    }
}

/// Reads an object without its first byte.
pub fn parse_object(rest: &[u8]) -> (r: Result<(String, bool, Position), AprsError>)
    ensures
        match object_reading(rest@) {
            Ok((name, live, p)) => r matches Ok(v) && v.0@ == name && v.1 == live && v.2@ == p,
            Err(f) => r matches Err(e) && e@ == f,
        },
{
    if rest.len() < 17 {
        return Err(AprsError::Malformed("truncated object"));
    }
    let nb: Vec<u8> = text::copy_bytes(rest, 0, 9);
    let name: Vec<char> = text::trim_chars(wire::printable(nb.as_slice()).as_slice());
    let live: bool = if rest[9] == 0x2a {
        true
    } else if rest[9] == 0x5f {
        false
    } else {
        return Err(AprsError::Malformed("object live/killed flag"));
    };
    let tb: Vec<u8> = text::copy_bytes(rest, 10, 17);
    let ts: Option<Timestamp> = parse_timestamp(tb.as_slice());
    let tail: Vec<u8> = text::copy_bytes(rest, 17, rest.len());
    assert(tail@ =~= rest@.skip(17));
    match parse_body(tail.as_slice()) {
        Ok(mut p) => {
            p.timestamp = ts;
            Ok((text::string_of(name.as_slice()), live, p))
        },
        Err(e) => Err(e),
    }
}

fn find_item_end(rest: &[u8]) -> (r: Option<usize>)
    ensures
        match item_end(rest@, 0) {
            Some(i) => r matches Some(k) && k == i && k < rest@.len() && k < 10,
            None => r is None,
        },
{
    let mut i: usize = 0;
    while i < 10 && i < rest.len()
        invariant
            i <= 10,
            i <= rest@.len(),
            item_end(rest@, 0) == item_end(rest@, i as int),
        decreases 10 - i,
    {
        if rest[i] == 0x21 || rest[i] == 0x5f {
            return Some(i);
        }
        i += 1;
    }
    None
}

/// Reads an item without its first byte.
pub fn parse_item(rest: &[u8]) -> (r: Result<(String, bool, Position), AprsError>)
    ensures
        match item_reading(rest@) {
            Ok((name, live, p)) => r matches Ok(v) && v.0@ == name && v.1 == live && v.2@ == p,
            Err(f) => r matches Err(e) && e@ == f,
        },
{
    let end: usize = match find_item_end(rest) {
        Some(k) => k,
        None => {
            return Err(AprsError::Malformed("item name has no terminator"));
        },
    };
    if end < 3 {
        return Err(AprsError::Malformed("item name length"));
    }
    let nb: Vec<u8> = text::copy_bytes(rest, 0, end);
    assert(nb@ =~= rest@.take(end as int));
    let name: Vec<char> = text::trim_chars(wire::printable(nb.as_slice()).as_slice());
    let tail: Vec<u8> = text::copy_bytes(rest, end + 1, rest.len());
    assert(tail@ =~= rest@.skip(end + 1));
    match parse_body(tail.as_slice()) {
        Ok(p) => Ok((text::string_of(name.as_slice()), rest[end] == 0x21, p)),
        Err(e) => Err(e),
    }
}

} // verus!
