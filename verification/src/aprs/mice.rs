//! Mic-E: the position format that splits a position between the information
//! field and the destination address.
//!
//! The information field holds the longitude, the course, the speed and the
//! symbol. The destination address holds the latitude, the hemispheres, a
//! hundred degrees of longitude and three message bits. The two halves are of no
//! use apart.
use crate::aprs::position;
use crate::aprs::position::{
    Altitude, AprsPosition, AprsSymbol, Position, PositionView, Speed, DEGREE, HUNDREDTH,
};
use crate::aprs::wire;
use crate::aprs::{AprsError, Fault};
use crate::text;
use vstd::prelude::*;

verus! {

broadcast use vstd::seq::group_seq_axioms;

/// The message that an operator chose on the front of the radio.
#[derive(Debug, Clone, Copy, PartialEq, Eq, Structural)]
pub enum MicEStatus {
    OffDuty,
    EnRoute,
    InService,
    Returning,
    Committed,
    Special,
    Priority,
    /// The same in both tables: somebody pressed the emergency button.
    Emergency,
    /// One of the seven whose meaning is agreed upon locally.
    Custom(u8),
}

impl MicEStatus {
    pub open spec fn name(self) -> Seq<char> {
        match self {
            MicEStatus::OffDuty => "Off Duty"@,
            MicEStatus::EnRoute => "En Route"@,
            MicEStatus::InService => "In Service"@,
            MicEStatus::Returning => "Returning"@,
            MicEStatus::Committed => "Committed"@,
            MicEStatus::Special => "Special"@,
            MicEStatus::Priority => "Priority"@,
            MicEStatus::Emergency => "EMERGENCY"@,
            MicEStatus::Custom(n) => if n == 0 {
                "Custom 0"@
            } else if n == 1 {
                "Custom 1"@
            } else if n == 2 {
                "Custom 2"@
            } else if n == 3 {
                "Custom 3"@
            } else if n == 4 {
                "Custom 4"@
            } else if n == 5 {
                "Custom 5"@
            } else {
                "Custom 6"@
            },
        }
    }

    pub fn label(self) -> (r: &'static str)
        ensures
            r@ == self.name(),
    {
        match self {
            MicEStatus::OffDuty => "Off Duty",
            MicEStatus::EnRoute => "En Route",
            MicEStatus::InService => "In Service",
            MicEStatus::Returning => "Returning",
            MicEStatus::Committed => "Committed",
            MicEStatus::Special => "Special",
            MicEStatus::Priority => "Priority",
            MicEStatus::Emergency => "EMERGENCY",
            MicEStatus::Custom(n) => match n {
                0 => "Custom 0",
                1 => "Custom 1",
                2 => "Custom 2",
                3 => "Custom 3",
                4 => "Custom 4",
                5 => "Custom 5",
                _ => "Custom 6",
            },
        }
    }

    /// Whether this is a call for help.
    pub fn is_emergency(self) -> (r: bool)
        ensures
            r == (self == MicEStatus::Emergency),
    {
        self == MicEStatus::Emergency
    }
}

/// One character of the destination address.
#[derive(Debug, Clone, Copy, PartialEq, Eq, Structural)]
pub struct DestChar {
    /// The digit of the latitude, none where it was left blank.
    pub digit: Option<u8>,
    /// The message bit.
    pub bit: bool,
    /// North, west, or a hundred degrees more.
    pub high: bool,
    /// The message is one that was agreed upon locally.
    pub custom: bool,
}

/// What a character of the destination address says. There are three alphabets
/// in it: the digits, the same digits as letters that set the custom bit, and the
/// same digits as letters that set the flag.
pub open spec fn dest_of(c: u8) -> Option<DestChar> {
    if 0x30 <= c <= 0x39 {
        Some(DestChar { digit: Some((c - 0x30) as u8), bit: false, high: false, custom: false })
    } else if 0x41 <= c <= 0x4a {
        Some(DestChar { digit: Some((c - 0x41) as u8), bit: true, high: false, custom: true })
    } else if c == 0x4b {
        Some(DestChar { digit: None, bit: true, high: false, custom: true })
    } else if c == 0x4c {
        Some(DestChar { digit: None, bit: false, high: false, custom: false })
    } else if 0x50 <= c <= 0x59 {
        Some(DestChar { digit: Some((c - 0x50) as u8), bit: true, high: true, custom: false })
    } else if c == 0x5a {
        Some(DestChar { digit: None, bit: true, high: true, custom: false })
    } else {
        None
    }
}

/// The three message bits as a number.
pub open spec fn bits_of(d: Seq<DestChar>) -> int {
    (if d[0].bit {
        4int
    } else {
        0
    }) + (if d[1].bit {
        2int
    } else {
        0
    }) + (if d[2].bit {
        1int
    } else {
        0
    })
}

/// The message that the first three characters select, from the table that they
/// select it from. No bit at all is an emergency in both tables.
pub open spec fn status_of(d: Seq<DestChar>) -> MicEStatus {
    let bits = bits_of(d);
    if bits == 0 {
        MicEStatus::Emergency
    } else if d[0].custom || d[1].custom || d[2].custom {
        MicEStatus::Custom((7 - bits) as u8)
    } else if bits == 7 {
        MicEStatus::OffDuty
    } else if bits == 6 {
        MicEStatus::EnRoute
    } else if bits == 5 {
        MicEStatus::InService
    } else if bits == 4 {
        MicEStatus::Returning
    } else if bits == 3 {
        MicEStatus::Committed
    } else if bits == 2 {
        MicEStatus::Special
    } else {
        MicEStatus::Priority
    }
}

/// The bytes of the callsign of a destination address.
pub open spec fn call_bytes(dest: Seq<char>) -> Seq<u8> {
    vstd::utf8::encode_utf8(dest.take(text::find(dest, '-')))
}

/// Six characters of a destination address, if all of them are of Mic-E.
pub open spec fn dest_chars(b: Seq<u8>) -> Option<Seq<DestChar>> {
    if forall|i: int| 0 <= i < 6 ==> dest_of(#[trigger] b[i]) is Some {
        Some(Seq::new(6, |i: int| dest_of(b[i])->0))
    } else {
        None
    }
}

/// How many of the first `n` characters are blank, counted from the right.
pub open spec fn blank_run(d: Seq<DestChar>, n: int) -> int
    decreases n,
{
    if n > 0 && d[n - 1].digit is None {
        1 + blank_run(d, n - 1)
    } else {
        0
    }
}

pub open spec fn digit(d: DestChar) -> int {
    match d.digit {
        Some(x) => x as int,
        None => 0,
    }
}

/// The latitude without its sign: the middle of the square that the blank digits
/// leave.
pub open spec fn lat_size(d: Seq<DestChar>) -> int {
    position::angle(
        100 * (10 * digit(d[0]) + digit(d[1])),
        1000 * digit(d[2]) + 100 * digit(d[3]) + 10 * digit(d[4]) + digit(d[5]) + position::span(
            blank_run(d, 6),
        ) / 2,
    )
}

/// The degrees of longitude of a byte: two ranges are folded.
pub open spec fn lon_degrees(b: u8, hundred: bool) -> int {
    let d = b - 28 + if hundred {
        100int
    } else {
        0
    };
    if 180 <= d <= 189 {
        d - 80
    } else if 190 <= d <= 199 {
        d - 190
    } else {
        d
    }
}

pub open spec fn lon_minutes(b: u8) -> int {
    if b - 28 >= 60 {
        b - 88
    } else {
        b - 28
    }
}

/// A number divided by ten, the fraction dropped.
pub open spec fn tenth(x: int) -> int {
    if x >= 0 {
        x / 10
    } else {
        -(-x / 10)
    }
}

/// Speed in knots, of two bytes.
pub open spec fn speed_of(sp: u8, dc: u8) -> int {
    let v = (sp - 28) * 10 + tenth(dc - 28);
    if v >= 800 {
        v - 800
    } else {
        v
    }
}

/// Course in degrees, of two bytes.
pub open spec fn course_of(dc: u8, se: u8) -> int {
    let v = (dc - 28 - 10 * tenth(dc - 28)) * 100 + (se - 28);
    if v >= 400 {
        v - 400
    } else {
        v
    }
}

/// Where an altitude ends in the status text: at its first closing brace, if
/// three base-91 digits are before it.
pub open spec fn altitude_end(t: Seq<char>) -> Option<int> {
    let k = text::find(t, '}');
    if 3 <= k < t.len() && 33 <= t[k - 3] as int <= 126 && 33 <= t[k - 2] as int <= 126 && 33 <= t[k
        - 1] as int <= 126 {
        Some(k)
    } else {
        None
    }
}

/// Metres above sea level, sent from ten kilometres below.
pub open spec fn altitude_value(t: Seq<char>, k: int) -> int {
    8281 * (t[k - 3] as int - 33) + 91 * (t[k - 2] as int - 33) + (t[k - 1] as int - 33) - 10000
}

/// A mark by which makers of radios tell theirs.
pub open spec fn is_mark(c: char) -> bool {
    c == '>' || c == ']' || c == '`' || c == '\''
}

pub open spec fn without_marks(s: Seq<char>) -> Seq<char>
    decreases s.len(),
{
    if s.len() > 0 && is_mark(s[0]) {
        without_marks(s.skip(1))
    } else {
        s
    }
}

/// The report with what the status text says.
pub open spec fn with_status(p: PositionView, t: Seq<char>) -> PositionView {
    match altitude_end(t) {
        Some(k) => PositionView {
            altitude: Some(Altitude::Metres(altitude_value(t, k) as i32)),
            comment: text::trim(without_marks(t.take(k - 3) + t.skip(k + 1))),
            ..p
        },
        None => PositionView { comment: text::trim(without_marks(t)), ..p },
    }
}

/// A Mic-E frame without its first byte, under its destination address.
pub open spec fn reading(dest: Seq<char>, rest: Seq<u8>) -> Result<PositionView, Fault> {
    let call = call_bytes(dest);
    if call.len() < 6 {
        Err(Fault::Malformed("Mic-E destination too short"@))
    } else if rest.len() < 8 {
        Err(Fault::Malformed("truncated Mic-E frame"@))
    } else {
        match dest_chars(call) {
            None => Err(Fault::Malformed("Mic-E destination character"@)),
            Some(d) => {
                let lon_deg = lon_degrees(rest[0], d[4].high);
                let lon_min = lon_minutes(rest[1]);
                let lon_hun = rest[2] - 28;
                if blank_run(d, 6) > 4 {
                    Err(Fault::Malformed("Mic-E latitude is entirely blank"@))
                } else if lat_size(d) > 90 * DEGREE {
                    Err(Fault::Malformed("Mic-E latitude out of range"@))
                } else if !(0 <= lon_deg <= 179) {
                    Err(Fault::Malformed("Mic-E longitude degrees out of range"@))
                } else if !(0 <= lon_min <= 59) || !(0 <= lon_hun <= 99) {
                    Err(Fault::Malformed("Mic-E longitude minutes out of range"@))
                } else {
                    let lat = lat_size(d);
                    let lon = position::angle(100 * lon_deg, 100 * lon_min + lon_hun);
                    let speed = speed_of(rest[3], rest[4]);
                    let course = course_of(rest[4], rest[5]);
                    let p = position::plain_at(
                        AprsPosition {
                            lat: (if d[3].high {
                                lat
                            } else {
                                -lat
                            }) as i64,
                            lon: (if d[5].high {
                                -lon
                            } else {
                                lon
                            }) as i64,
                            ambiguity: blank_run(d, 6) as u8,
                        },
                        AprsSymbol { table: rest[7] as char, code: rest[6] as char },
                    );
                    Ok(
                        with_status(
                            PositionView {
                                course_deg: if 0 < course < 360 {
                                    Some(course as u16)
                                } else {
                                    None
                                },
                                speed: if speed >= 0 {
                                    Some(Speed::Knots((1000 * speed) as i64))
                                } else {
                                    None
                                },
                                messaging: true,
                                mice: Some(status_of(d)),
                                ..p
                            },
                            wire::shown(rest.skip(8)),
                        ),
                    )
                }
            },
        }
    }
}

/// Three characters without a message bit are an emergency, whichever alphabet
/// they are of.
pub proof fn law_no_bits_is_an_emergency(d: Seq<DestChar>)
    requires
        d.len() >= 3,
        !d[0].bit,
        !d[1].bit,
        !d[2].bit,
    ensures
        status_of(d) == MicEStatus::Emergency,
{
}

/// Nothing but three characters without a message bit is an emergency.
pub proof fn law_an_emergency_has_no_bits(d: Seq<DestChar>)
    requires
        d.len() >= 3,
        status_of(d) == MicEStatus::Emergency,
    ensures
        !d[0].bit && !d[1].bit && !d[2].bit,
{
}

/// The alphabet picks the table: letters that set the custom bit never give a
/// standard message, and the others never a custom one.
pub proof fn law_the_alphabet_picks_the_table(d: Seq<DestChar>)
    requires
        d.len() >= 3,
        status_of(d) != MicEStatus::Emergency,
    ensures
        status_of(d) is Custom <==> (d[0].custom || d[1].custom || d[2].custom),
{
}

/// The flags of the destination address and nothing else decide the hemispheres:
/// under two addresses with the same digits and the same hundred degrees, a frame
/// is as far from the equator and from Greenwich, on the side that the flags say.
pub proof fn law_the_destination_decides_the_hemisphere(
    a: Seq<char>,
    b: Seq<char>,
    rest: Seq<u8>,
)
    requires
        reading(a, rest) is Ok,
        reading(b, rest) is Ok,
        ({
            let x = dest_chars(call_bytes(a))->0;
            let y = dest_chars(call_bytes(b))->0;
            &&& forall|i: int| 0 <= i < 6 ==> (#[trigger] x[i]).digit == y[i].digit
            &&& x[4].high == y[4].high
        }),
    ensures
        ({
            let x = dest_chars(call_bytes(a))->0;
            let y = dest_chars(call_bytes(b))->0;
            let p = reading(a, rest)->Ok_0.pos;
            let q = reading(b, rest)->Ok_0.pos;
            &&& p.lat == if x[3].high == y[3].high {
                q.lat as int
            } else {
                -q.lat
            }
            &&& p.lon == if x[5].high == y[5].high {
                q.lon as int
            } else {
                -q.lon
            }
            &&& x[3].high ==> p.lat >= 0
            &&& !x[3].high ==> p.lat <= 0
            &&& x[5].high ==> p.lon <= 0
            &&& !x[5].high ==> p.lon >= 0
        }),
{
    let x = dest_chars(call_bytes(a))->0;
    let y = dest_chars(call_bytes(b))->0;
    assert(x[0].digit == y[0].digit && x[1].digit == y[1].digit && x[2].digit == y[2].digit
        && x[3].digit == y[3].digit && x[4].digit == y[4].digit && x[5].digit == y[5].digit);
    reveal_with_fuel(blank_run, 7);
    assert(lat_size(x) == lat_size(y));
    lemma_digits(x);
    assert(0 <= lat_size(x) <= 90 * DEGREE);
}

proof fn lemma_digits(d: Seq<DestChar>)
    ensures
        forall|i: int| 0 <= i < 6 ==> digit(#[trigger] d[i]) >= 0,
        0 <= blank_run(d, 6) <= 6,
{
    reveal_with_fuel(blank_run, 7);
}

/// What a character of the destination address says.
pub fn dest_char(c: u8) -> (r: Option<DestChar>)
    ensures
        r == dest_of(c),
{
    if 0x30 <= c && c <= 0x39 {
        Some(DestChar { digit: Some(c - 0x30), bit: false, high: false, custom: false })
    } else if 0x41 <= c && c <= 0x4a {
        Some(DestChar { digit: Some(c - 0x41), bit: true, high: false, custom: true })
    } else if c == 0x4b {
        Some(DestChar { digit: None, bit: true, high: false, custom: true })
    } else if c == 0x4c {
        Some(DestChar { digit: None, bit: false, high: false, custom: false })
    } else if 0x50 <= c && c <= 0x59 {
        Some(DestChar { digit: Some(c - 0x50), bit: true, high: true, custom: false })
    } else if c == 0x5a {
        Some(DestChar { digit: None, bit: true, high: true, custom: false })
    } else {
        None
    }
}

/// The message that the first three characters select.
pub fn message_code(d: &[DestChar]) -> (r: MicEStatus)
    requires
        d@.len() >= 3,
    ensures
        r == status_of(d@),
{
    let mut bits: u8 = 0;
    if d[0].bit {
        bits = bits + 4;
    }
    if d[1].bit {
        bits = bits + 2;
    }
    if d[2].bit {
        bits = bits + 1;
    }
    if bits == 0 {
        return MicEStatus::Emergency;
    }
    if d[0].custom || d[1].custom || d[2].custom {
        return MicEStatus::Custom(7 - bits);
    }
    match bits {
        7 => MicEStatus::OffDuty,
        6 => MicEStatus::EnRoute,
        5 => MicEStatus::InService,
        4 => MicEStatus::Returning,
        3 => MicEStatus::Committed,
        2 => MicEStatus::Special,
        _ => MicEStatus::Priority,
    }
}

/// The bytes of the callsign of a destination address.
fn callsign_bytes(dest: &str) -> (r: Vec<u8>)
    ensures
        r@ == call_bytes(dest@),
{
    let v: Vec<char> = text::chars_of(dest);
    let k: usize = text::find_char(v.as_slice(), '-');
    let call: Vec<char> = text::copy_chars(v.as_slice(), 0, k);
    assert(call@ =~= dest@.take(k as int));
    text::string_of(call.as_slice()).into_bytes()
}

fn read_dest(call: &Vec<u8>) -> (r: Option<Vec<DestChar>>)
    requires
        call@.len() >= 6,
    ensures
        match dest_chars(call@) {
            Some(d) => r matches Some(v) && v@ == d,
            None => r is None,
        },
{
    let mut out: Vec<DestChar> = Vec::new();
    let mut i: usize = 0;
    while i < 6
        invariant
            i <= 6,
            call@.len() >= 6,
            out@.len() == i,
            forall|k: int| 0 <= k < i ==> dest_of(#[trigger] call@[k]) is Some,
            forall|k: int| 0 <= k < i ==> Some(#[trigger] out@[k]) == dest_of(call@[k]),
        decreases 6 - i,
    {
        match dest_char(call[i]) {
            Some(d) => {
                out.push(d);
            },
            None => {
                assert(dest_of(call@[i as int]) is None);
                return None;
            },
        }
        i += 1;
    }
    assert(out@ =~= Seq::new(6, |i: int| dest_of(call@[i])->0)) by {
        assert forall|i: int| 0 <= i < 6 implies out@[i] == dest_of(call@[i])->0 by {
            assert(Some(out@[i]) == dest_of(call@[i]));
        }
    }
    Some(out)
}

fn count_blanks(d: &Vec<DestChar>) -> (r: u8)
    requires
        d@.len() == 6,
    ensures
        r == blank_run(d@, 6),
        r <= 6,
{
    let mut n: usize = 6;
    let mut k: u8 = 0;
    while n > 0 && d[n - 1].digit.is_none()
        invariant
            n <= 6,
            d@.len() == 6,
            k == 6 - n,
            blank_run(d@, 6) == k + blank_run(d@, n as int),
        decreases n,
    {
        k = k + 1;
        n = n - 1;
    }
    k
}

fn digit_value(d: &DestChar) -> (r: i64)
    ensures
        r == digit(*d),
        0 <= r <= 255,
{
    match d.digit {
        Some(x) => x as i64,
        None => 0,
    }
}

fn take_tenth(x: i64) -> (r: i64)
    requires
        -1000 <= x <= 1000,
    ensures
        r == tenth(x as int),
        -100 <= r <= 100,
{
    if x >= 0 {
        x / 10
    } else {
        -((-x) / 10)
    }
}

fn mark(c: char) -> (r: bool)
    ensures
        r == is_mark(c),
{
    c == '>' || c == ']' || c == '`' || c == '\''
}

fn strip_marks(v: &Vec<char>) -> (r: Vec<char>)
    ensures
        r@ == without_marks(v@),
{
    let mut i: usize = 0;
    assert(v@.skip(0) =~= v@);
    while i < v.len() && mark(v[i])
        invariant
            i <= v@.len(),
            without_marks(v@.skip(i as int)) == without_marks(v@),
        decreases v@.len() - i,
    {
        assert(v@.skip(i as int).skip(1) =~= v@.skip(i + 1));
        i += 1;
    }
    let r: Vec<char> = text::copy_chars(v.as_slice(), i, v.len());
    assert(r@ =~= v@.skip(i as int));
    r
}

fn is_digit91(c: char) -> (r: bool)
    ensures
        r == (33 <= c as int <= 126),
{
    33 <= c as u32 && c as u32 <= 126
}

/// Takes in the status text: an altitude, the maker's mark, and the comment.
fn take_status(p: &mut Position, t: Vec<char>)
    ensures
        final(p)@ == with_status(old(p)@, t@),
{
    let mut tail: Vec<char> = Vec::new();
    let k: usize = text::find_char(t.as_slice(), '}');
    if 3 <= k && k < t.len() && is_digit91(t[k - 3]) && is_digit91(t[k - 2]) && is_digit91(
        t[k - 1],
    ) {
        let v: i32 = 8281 * (t[k - 3] as u8 - 33) as i32 + 91 * (t[k - 2] as u8 - 33) as i32 + (t[k
            - 1] as u8 - 33) as i32 - 10000;
        p.altitude = Some(Altitude::Metres(v));
        let mut head: Vec<char> = text::copy_chars(t.as_slice(), 0, k - 3);
        let mut rest: Vec<char> = text::copy_chars(t.as_slice(), k + 1, t.len());
        head.append(&mut rest);
        assert(head@ =~= t@.take(k - 3) + t@.skip(k + 1));
        tail = head;
    } else {
        tail = text::copy_chars(t.as_slice(), 0, t.len());
        assert(tail@ =~= t@);
    }
    let plain: Vec<char> = strip_marks(&tail);
    p.comment = text::string_of(text::trim_chars(plain.as_slice()).as_slice());
}

/// The size of the latitude.
fn latitude(d: &Vec<DestChar>, blanks: u8) -> (r: i64)
    requires
        d@.len() == 6,
        blanks == blank_run(d@, 6),
    ensures
        r == lat_size(d@),
        0 <= r,
{
    let half: i64 = match blanks {
        1 => 5,
        2 => 50,
        3 => 500,
        4 => 3000,
        _ => 0,
    };
    let deg: i64 = 100 * (10 * digit_value(&d[0]) + digit_value(&d[1]));
    let min: i64 = 1000 * digit_value(&d[2]) + 100 * digit_value(&d[3]) + 10 * digit_value(&d[4])
        + digit_value(&d[5]) + half;
    deg * 10_399_279_800 + min * HUNDREDTH
}

/// Reads a Mic-E frame without its first byte, under its destination address.
pub fn parse(dest: &str, rest: &[u8]) -> (r: Result<Position, AprsError>)
    ensures
        match reading(dest@, rest@) {
            Ok(p) => r matches Ok(v) && v@ == p,
            Err(f) => r matches Err(e) && e@ == f,
        },
{
    let call: Vec<u8> = callsign_bytes(dest);
    if call.len() < 6 {
        return Err(AprsError::Malformed("Mic-E destination too short"));
    }
    if rest.len() < 8 {
        return Err(AprsError::Malformed("truncated Mic-E frame"));
    }
    let d: Vec<DestChar> = match read_dest(&call) {
        Some(d) => d,
        None => {
            return Err(AprsError::Malformed("Mic-E destination character"));
        },
    };
    let ambiguity: u8 = count_blanks(&d);
    if ambiguity > 4 {
        return Err(AprsError::Malformed("Mic-E latitude is entirely blank"));
    }
    let size: i64 = latitude(&d, ambiguity);
    if size > 90 * DEGREE {
        return Err(AprsError::Malformed("Mic-E latitude out of range"));
    }
    let lat: i64 = if d[3].high { size } else { -size };
    let mut lon_deg: i64 = rest[0] as i64 - 28;
    if d[4].high {
        lon_deg = lon_deg + 100;
    }
    if 180 <= lon_deg && lon_deg <= 189 {
        lon_deg = lon_deg - 80;
    } else if 190 <= lon_deg && lon_deg <= 199 {
        lon_deg = lon_deg - 190;
    }
    if lon_deg < 0 || lon_deg > 179 {
        return Err(AprsError::Malformed("Mic-E longitude degrees out of range"));
    }
    let mut lon_min: i64 = rest[1] as i64 - 28;
    if lon_min >= 60 {
        lon_min = lon_min - 60;
    }
    let lon_hun: i64 = rest[2] as i64 - 28;
    if lon_min < 0 || lon_min > 59 || lon_hun < 0 || lon_hun > 99 {
        return Err(AprsError::Malformed("Mic-E longitude minutes out of range"));
    }
    let away: i64 = 100 * lon_deg * 10_399_279_800 + (100 * lon_min + lon_hun) * HUNDREDTH;
    let lon: i64 = if d[5].high { -away } else { away };
    let dc: i64 = rest[4] as i64 - 28;
    let dc10: i64 = take_tenth(dc);
    let mut speed: i64 = (rest[3] as i64 - 28) * 10 + dc10;
    let mut course: i64 = (dc - 10 * dc10) * 100 + (rest[5] as i64 - 28);
    if speed >= 800 {
        speed = speed - 800;
    }
    if course >= 400 {
        course = course - 400;
    }
    let mut p: Position = Position::at(
        AprsPosition { lat, lon, ambiguity },
        AprsSymbol::new(rest[7] as char, rest[6] as char),
    );
    if 0 < course && course < 360 {
        p.course_deg = Some(course as u16);
    }
    if speed >= 0 {
        p.speed = Some(Speed::Knots(1000 * speed));
    }
    p.messaging = true;
    p.mice = Some(message_code(d.as_slice()));
    let tail: Vec<u8> = text::copy_bytes(rest, 8, rest.len());
    assert(tail@ =~= rest@.skip(8));
    let t: Vec<char> = wire::printable(tail.as_slice());
    take_status(&mut p, t);
    Ok(p)
}

} // verus!
