//! What a Mic-E frame says, by what its encoder put into it.
use crate::aprs::mice;
use crate::aprs::mice::MicEStatus;
use crate::aprs::position::{Altitude, PositionView, Speed};
use crate::aprs::wire;
use crate::aprs::Fault;
use crate::text;
use vstd::prelude::*;

verus! {

broadcast use vstd::seq::group_seq_axioms;

/// The byte that a whole number of degrees of longitude travels as, and whether
/// the hundred is flagged in the destination.
pub open spec fn degree_byte(g: int) -> (int, bool) {
    if g <= 9 {
        (g + 118, true)
    } else if g <= 99 {
        (g + 28, false)
    } else if g <= 109 {
        (g + 8, true)
    } else {
        (g - 72, true)
    }
}

/// The byte that a whole number of minutes travels as.
pub open spec fn minute_byte(m: int) -> int {
    if m < 10 {
        m + 88
    } else {
        m + 28
    }
}

/// The byte that a digit of the latitude travels as, with its flag or without.
pub open spec fn digit_byte(x: int, flag: bool) -> int {
    if flag {
        x + 0x50
    } else {
        x + 0x30
    }
}

/// Every whole number of degrees of longitude is read back from the byte and the
/// flag that it is written as.
pub proof fn law_every_degree_of_longitude_reads_back(b: u8, hundred: bool, g: int)
    requires
        0 <= g <= 179,
        (b as int, hundred) == degree_byte(g),
    ensures
        mice::lon_degrees(b, hundred) == g,
{
}

/// So is every number of minutes, in both ways in which one below ten is written.
pub proof fn law_every_minute_of_longitude_reads_back(b: u8, m: int)
    requires
        0 <= m <= 59,
        b == minute_byte(m) || b == m + 28,
    ensures
        mice::lon_minutes(b) == m,
{
}

/// Two numbers of degrees never travel as the same byte and flag.
pub proof fn law_a_longitude_is_written_one_way(g: int, h: int)
    requires
        0 <= g <= 179,
        0 <= h <= 179,
        degree_byte(g) == degree_byte(h),
    ensures
        g == h,
{
}

/// Every speed below 800 knots and every course reads back, whichever of the ways
/// of writing them the sender chose.
pub proof fn law_speed_and_course_read_back(sp: u8, dc: u8, se: u8, knots: int, course: int)
    requires
        0 <= knots < 800,
        0 <= course < 400,
        sp == knots / 10 + 28 || sp == knots / 10 + 108,
        dc == 10 * (knots % 10) + course / 100 + 28 || dc == 10 * (knots % 10) + course / 100 + 32,
        se == course % 100 + 28,
    ensures
        mice::speed_of(sp, dc) == knots,
        mice::course_of(dc, se) == course,
{
}

/// A frame that was encoded from a latitude of six digits, a longitude in degrees,
/// minutes and hundredths, a speed and a course says just these. Angles are whole
/// numbers of hundredths of a minute.
pub proof fn law_a_frame_reads_back(
    dest: Seq<char>,
    rest: Seq<u8>,
    x: Seq<int>,
    flag: Seq<bool>,
    g: int,
    m: int,
    h: int,
    knots: int,
    course: int,
)
    requires
        x.len() == 6,
        flag.len() == 6,
        mice::call_bytes(dest).len() >= 6,
        forall|i: int|
            0 <= i < 6 ==> 0 <= #[trigger] x[i] <= 9 && mice::call_bytes(dest)[i] == digit_byte(
                x[i],
                flag[i],
            ),
        10 * x[0] + x[1] <= 89,
        x[2] <= 5,
        rest.len() >= 8,
        0 <= g <= 179,
        0 <= m <= 59,
        0 <= h <= 99,
        (rest[0] as int, flag[4]) == degree_byte(g),
        rest[1] == minute_byte(m),
        rest[2] == h + 28,
        0 <= knots < 800,
        0 <= course < 360,
        rest[3] == knots / 10 + 28 || rest[3] == knots / 10 + 108,
        rest[4] == 10 * (knots % 10) + course / 100 + 28 || rest[4] == 10 * (knots % 10) + course
            / 100 + 32,
        rest[5] == course % 100 + 28,
    ensures
        mice::reading(dest, rest) is Ok,
        ({
            let p = mice::reading(dest, rest)->Ok_0;
            let lat = 6000 * (10 * x[0] + x[1]) + 1000 * x[2] + 100 * x[3] + 10 * x[4] + x[5];
            let lon = 6000 * g + 100 * m + h;
            &&& p.pos.lat == if flag[3] {
                lat * 173_321_330
            } else {
                -lat * 173_321_330
            }
            &&& p.pos.lon == if flag[5] {
                -lon * 173_321_330
            } else {
                lon * 173_321_330
            }
            &&& p.pos.ambiguity == 0
            &&& p.symbol.code == rest[6] as char
            &&& p.symbol.table == rest[7] as char
            &&& p.speed == Some(Speed::Knots((1000 * knots) as i64))
            &&& p.course_deg == if course == 0 {
                None
            } else {
                Some(course as u16)
            }
            &&& p.range is None
            &&& p.weather is None
            &&& p.timestamp is None
            &&& p.messaging
        }),
{
    let call = mice::call_bytes(dest);
    assert forall|i: int| 0 <= i < 6 implies mice::dest_of(#[trigger] call[i]) is Some
        && mice::dest_of(call[i])->0.digit == Some(x[i] as u8) && mice::dest_of(call[i])->0.high
        == flag[i] by {
        assert(0 <= x[i] <= 9);
    }
    let d = mice::dest_chars(call)->0;
    assert(mice::dest_chars(call) is Some);
    assert forall|i: int| 0 <= i < 6 implies (#[trigger] d[i]).digit == Some(x[i] as u8)
        && d[i].high == flag[i] by {
        assert(mice::dest_of(call[i]) is Some);
    }
    assert(d[0].digit == Some(x[0] as u8) && d[1].digit == Some(x[1] as u8) && d[2].digit == Some(
        x[2] as u8,
    ) && d[3].digit == Some(x[3] as u8) && d[4].digit == Some(x[4] as u8) && d[5].digit == Some(
        x[5] as u8,
    ));
    assert(mice::blank_run(d, 6) == 0);
    assert(d[3].high == flag[3] && d[4].high == flag[4] && d[5].high == flag[5]);
    law_every_degree_of_longitude_reads_back(rest[0], flag[4], g);
    law_every_minute_of_longitude_reads_back(rest[1], m);
    law_speed_and_course_read_back(rest[3], rest[4], rest[5], knots, course);
    let lat = 6000 * (10 * x[0] + x[1]) + 1000 * x[2] + 100 * x[3] + 10 * x[4] + x[5];
    assert(0 <= x[0] <= 9 && 0 <= x[1] <= 9 && 0 <= x[2] && 0 <= x[3] <= 9 && 0 <= x[4] <= 9 && 0
        <= x[5] <= 9);
    assert(mice::lat_size(d) == lat * 173_321_330);
}

/// Whether a byte can stand in the destination of a frame.
pub open spec fn lettered(c: u8) -> bool {
    0x30 <= c <= 0x39 || 0x41 <= c <= 0x4c || 0x50 <= c <= 0x5a
}

/// Whether it leaves its digit blank.
pub open spec fn blank(c: u8) -> bool {
    c == 0x4b || c == 0x4c || c == 0x5a
}

/// Its digit, and zero where that is blank.
pub open spec fn worth(c: u8) -> int {
    if blank(c) {
        0
    } else if c >= 0x50 {
        c - 0x50
    } else if c >= 0x41 {
        c - 0x41
    } else {
        c - 0x30
    }
}

/// How many of its last digits are blank.
pub open spec fn blank_tail(b: Seq<u8>) -> int {
    if !blank(b[5]) {
        0
    } else if !blank(b[4]) {
        1
    } else if !blank(b[3]) {
        2
    } else if !blank(b[2]) {
        3
    } else if !blank(b[1]) {
        4
    } else if !blank(b[0]) {
        5
    } else {
        6
    }
}

/// The latitude of six such bytes in hundredths of a minute: in the middle of what
/// its blank digits leave open.
pub open spec fn sent_latitude(b: Seq<u8>) -> int {
    let t = blank_tail(b);
    60_000 * worth(b[0]) + 6000 * worth(b[1]) + 1000 * worth(b[2]) + 100 * worth(b[3]) + 10 * worth(
        b[4],
    ) + worth(b[5]) + if t == 1 {
        5int
    } else if t == 2 {
        50
    } else if t == 3 {
        500
    } else if t == 4 {
        3000
    } else {
        0
    }
}

/// Whether a byte can be the degrees of a longitude, with the hundred or without.
pub open spec fn degree_fits(b: u8, hundred: bool) -> bool {
    if hundred {
        b <= 127
    } else {
        28 <= b <= 227
    }
}

proof fn lemma_letters(b: Seq<u8>)
    requires
        b.len() >= 6,
    ensures
        mice::dest_chars(b) is Some <==> forall|i: int| 0 <= i < 6 ==> lettered(#[trigger] b[i]),
        mice::dest_chars(b) is Some ==> {
            let d = mice::dest_chars(b)->0;
            &&& mice::blank_run(d, 6) == blank_tail(b)
            &&& mice::lat_size(d) == sent_latitude(b) * 173_321_330
            &&& d.len() == 6
            &&& forall|i: int|
                0 <= i < 6 ==> {
                    &&& (#[trigger] d[i]).high == (b[i] >= 0x50)
                    &&& d[i].custom == (0x41 <= b[i] <= 0x4b)
                    &&& d[i].bit == (0x41 <= b[i] <= 0x4b || b[i] >= 0x50)
                }
        },
{
    assert forall|i: int| 0 <= i < 6 implies lettered(#[trigger] b[i]) == (mice::dest_of(b[i])
        is Some) by {}
    if mice::dest_chars(b) is Some {
        let d = mice::dest_chars(b)->0;
        assert forall|i: int| 0 <= i < 6 implies {
            &&& (#[trigger] d[i]).high == (b[i] >= 0x50)
            &&& d[i].custom == (0x41 <= b[i] <= 0x4b)
            &&& d[i].bit == (0x41 <= b[i] <= 0x4b || b[i] >= 0x50)
            &&& d[i].digit is None <==> blank(b[i])
            &&& mice::digit(d[i]) == worth(b[i])
        } by {
            assert(mice::dest_of(b[i]) is Some);
        }
        reveal_with_fuel(mice::blank_run, 8);
        assert(mice::digit(d[0]) == worth(b[0]) && mice::digit(d[1]) == worth(b[1]) && mice::digit(
            d[2],
        ) == worth(b[2]) && mice::digit(d[3]) == worth(b[3]) && mice::digit(d[4]) == worth(b[4])
            && mice::digit(d[5]) == worth(b[5]));
        assert((d[0].digit is None <==> blank(b[0])) && (d[1].digit is None <==> blank(b[1])) && (
        d[2].digit is None <==> blank(b[2])) && (d[3].digit is None <==> blank(b[3])) && (
        d[4].digit is None <==> blank(b[4])) && (d[5].digit is None <==> blank(b[5])));
    }
}

/// A frame is read where everything in it can be read, and refused by the first
/// thing that cannot.
pub proof fn law_when_a_frame_is_read(dest: Seq<char>, rest: Seq<u8>)
    ensures
        ({
            let call = mice::call_bytes(dest);
            let r = mice::reading(dest, rest);
            if call.len() < 6 {
                r == Err::<PositionView, Fault>(Fault::Malformed("Mic-E destination too short"@))
            } else if rest.len() < 8 {
                r == Err::<PositionView, Fault>(Fault::Malformed("truncated Mic-E frame"@))
            } else if exists|i: int| 0 <= i < 6 && !lettered(#[trigger] call[i]) {
                r == Err::<PositionView, Fault>(Fault::Malformed("Mic-E destination character"@))
            } else if blank_tail(call) >= 5 {
                r == Err::<PositionView, Fault>(
                    Fault::Malformed("Mic-E latitude is entirely blank"@),
                )
            } else if sent_latitude(call) > 540_000 {
                r == Err::<PositionView, Fault>(Fault::Malformed("Mic-E latitude out of range"@))
            } else if !degree_fits(rest[0], call[4] >= 0x50) {
                r == Err::<PositionView, Fault>(
                    Fault::Malformed("Mic-E longitude degrees out of range"@),
                )
            } else if !(28 <= rest[1] <= 147) || !(28 <= rest[2] <= 127) {
                r == Err::<PositionView, Fault>(
                    Fault::Malformed("Mic-E longitude minutes out of range"@),
                )
            } else {
                r is Ok
            }
        }),
{
    let call = mice::call_bytes(dest);
    if call.len() >= 6 {
        lemma_letters(call);
    }
}

/// The latitude is that of the destination, north where its fourth byte is flagged,
/// with as many digits left open as are blank. What its sixth byte flags is west.
pub proof fn law_where_a_frame_is(dest: Seq<char>, rest: Seq<u8>)
    requires
        mice::reading(dest, rest) is Ok,
    ensures
        ({
            let call = mice::call_bytes(dest);
            let pos = mice::reading(dest, rest)->Ok_0.pos;
            &&& pos.ambiguity == blank_tail(call)
            &&& pos.lat == if call[3] >= 0x50 {
                sent_latitude(call) * 173_321_330
            } else {
                -sent_latitude(call) * 173_321_330
            }
            &&& call[5] >= 0x50 ==> pos.lon <= 0
            &&& call[5] < 0x50 ==> pos.lon >= 0
        }),
{
    lemma_letters(mice::call_bytes(dest));
}

/// The message bit of a destination byte.
pub open spec fn message_bit(c: u8) -> bool {
    0x41 <= c <= 0x4b || 0x50 <= c <= 0x5a
}

/// The first three bytes of the destination are the operator's message: one of
/// seven, or of as many that a club has agreed on where a byte is of its alphabet,
/// and the emergency where none has its bit.
pub proof fn law_what_the_operator_says(dest: Seq<char>, rest: Seq<u8>)
    requires
        mice::reading(dest, rest) is Ok,
    ensures
        ({
            let call = mice::call_bytes(dest);
            let a = message_bit(call[0]);
            let b = message_bit(call[1]);
            let c = message_bit(call[2]);
            let own = (0x41 <= call[0] <= 0x4b) || (0x41 <= call[1] <= 0x4b) || (0x41 <= call[2]
                <= 0x4b);
            mice::reading(dest, rest)->Ok_0.mice == Some(
                match (a, b, c) {
                    (false, false, false) => MicEStatus::Emergency,
                    (true, true, true) => if own {
                        MicEStatus::Custom(0)
                    } else {
                        MicEStatus::OffDuty
                    },
                    (true, true, false) => if own {
                        MicEStatus::Custom(1)
                    } else {
                        MicEStatus::EnRoute
                    },
                    (true, false, true) => if own {
                        MicEStatus::Custom(2)
                    } else {
                        MicEStatus::InService
                    },
                    (true, false, false) => if own {
                        MicEStatus::Custom(3)
                    } else {
                        MicEStatus::Returning
                    },
                    (false, true, true) => if own {
                        MicEStatus::Custom(4)
                    } else {
                        MicEStatus::Committed
                    },
                    (false, true, false) => if own {
                        MicEStatus::Custom(5)
                    } else {
                        MicEStatus::Special
                    },
                    (false, false, true) => if own {
                        MicEStatus::Custom(6)
                    } else {
                        MicEStatus::Priority
                    },
                },
            )
        }),
{
    let call = mice::call_bytes(dest);
    lemma_letters(call);
    let d = mice::dest_chars(call)->0;
    assert(d[0].bit == message_bit(call[0]));
    assert(d[1].bit == message_bit(call[1]));
    assert(d[2].bit == message_bit(call[2]));
    assert(d[0].custom == (0x41 <= call[0] <= 0x4b));
    assert(d[1].custom == (0x41 <= call[1] <= 0x4b));
    assert(d[2].custom == (0x41 <= call[2] <= 0x4b));
}

/// The address counts up to its SSID.
pub proof fn law_an_ssid_says_nothing(call: Seq<char>, ssid: Seq<char>)
    requires
        forall|i: int| 0 <= i < call.len() ==> #[trigger] call[i] != '-',
    ensures
        mice::call_bytes(call) == vstd::utf8::encode_utf8(call),
        mice::call_bytes(call.push('-') + ssid) == vstd::utf8::encode_utf8(call),
{
    let s = call.push('-') + ssid;
    text::lemma_find_from(call, '-', 0, call.len() as int);
    assert(call.take(call.len() as int) =~= call);
    assert(s[call.len() as int] == '-');
    assert forall|j: int| 0 <= j < call.len() implies s[j] != '-' by {
        assert(s[j] == call[j]);
    }
    text::lemma_find_from(s, '-', 0, call.len() as int);
    assert(s.take(call.len() as int) =~= call);
}

/// The three base-91 digits of an altitude, in metres above ten thousand below the
/// sea, and the mark behind them.
pub open spec fn altitude_text(metres: int) -> Seq<char> {
    let v = metres + 10_000;
    seq![(v / 8281 + 33) as char, (v / 91 % 91 + 33) as char, (v % 91 + 33) as char, '}']
}

/// Every altitude reads back from the text behind the position, and what stands
/// around it is the comment.
pub proof fn law_an_altitude_reads_back(
    dest: Seq<char>,
    rest: Seq<u8>,
    metres: int,
    before: Seq<char>,
    behind: Seq<char>,
)
    requires
        mice::reading(dest, rest) is Ok,
        -10_000 <= metres < 743_571,
        forall|i: int| 0 <= i < before.len() ==> #[trigger] before[i] != '}',
        wire::shown(rest.skip(8)) == before + altitude_text(metres) + behind,
    ensures
        mice::reading(dest, rest)->Ok_0.altitude == Some(Altitude::Metres(metres as i32)),
        mice::reading(dest, rest)->Ok_0.comment == text::trim(
            mice::without_marks(before + behind),
        ),
{
    let t = before + altitude_text(metres) + behind;
    let k = before.len() as int + 3;
    let v = metres + 10_000;
    assert(0 <= v / 8281 <= 90 && 0 <= v / 91 % 91 <= 90 && 0 <= v % 91 <= 90);
    assert(v == 8281 * (v / 8281) + 91 * (v / 91 % 91) + v % 91);
    assert(t[k] == '}');
    assert(t[k - 3] == altitude_text(metres)[0]);
    assert(t[k - 2] == altitude_text(metres)[1]);
    assert(t[k - 1] == altitude_text(metres)[2]);
    assert forall|j: int| 0 <= j < k implies t[j] != '}' by {
        if j < before.len() {
            assert(t[j] == before[j]);
        }
    }
    text::lemma_find_from(t, '}', 0, k);
    assert(mice::altitude_value(t, k) == metres);
    assert(t.take(k - 3) =~= before);
    assert(t.skip(k + 1) =~= behind);
}

/// Without the mark there is no altitude, and all of the text is the comment.
pub proof fn law_no_mark_is_no_altitude(dest: Seq<char>, rest: Seq<u8>)
    requires
        mice::reading(dest, rest) is Ok,
        forall|i: int|
            0 <= i < wire::shown(rest.skip(8)).len() ==> #[trigger] wire::shown(rest.skip(8))[i]
                != '}',
    ensures
        mice::reading(dest, rest)->Ok_0.altitude is None,
        mice::reading(dest, rest)->Ok_0.comment == text::trim(
            mice::without_marks(wire::shown(rest.skip(8))),
        ),
{
    let t = wire::shown(rest.skip(8));
    text::lemma_find_from(t, '}', 0, t.len() as int);
}

/// The marks of a radio's kind at the start of a comment are dropped, and nothing
/// else.
pub proof fn law_only_the_marks_of_a_radio_are_dropped(marks: Seq<char>, t: Seq<char>)
    requires
        forall|i: int|
            0 <= i < marks.len() ==> (#[trigger] marks[i] == '>' || marks[i] == ']' || marks[i]
                == '`' || marks[i] == '\''),
        t.len() > 0 ==> t[0] != '>' && t[0] != ']' && t[0] != '`' && t[0] != '\'',
    ensures
        mice::without_marks(marks + t) == t,
    decreases marks.len(),
{
    if marks.len() > 0 {
        law_only_the_marks_of_a_radio_are_dropped(marks.skip(1), t);
        assert((marks + t).skip(1) =~= marks.skip(1) + t);
        assert((marks + t)[0] == marks[0]);
    } else {
        assert(marks + t =~= t);
    }
}

} // verus!
