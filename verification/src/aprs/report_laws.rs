//! What a report is on the air, character by character.
use crate::aprs::message::MessageKind;
use crate::aprs::mice::MicEStatus;
use crate::aprs::position::{AprsPosition, AprsSymbol};
use crate::aprs::report;
use crate::aprs::wire;
use crate::aprs::wire::Class;
use crate::aprs::DataView;
use crate::text;
use vstd::prelude::*;

verus! {

broadcast use vstd::seq::group_seq_axioms;

/// The number that a digit stands for.
pub open spec fn worth(c: char) -> int {
    c as int - 48
}

/// How far from zero, at most so far.
pub open spec fn within(x: int, cap: int) -> int {
    if x > cap || x < -cap {
        cap
    } else if x < 0 {
        -x
    } else {
        x
    }
}

/// A number of hundredths of a minute that is nearest to an angle, the even one of
/// two that are as near. A hundredth is 173321330.
pub open spec fn is_nearest(h: int, a: int) -> bool {
    &&& -173_321_330 <= 2 * (h * 173_321_330 - a) <= 173_321_330
    &&& (2 * (h * 173_321_330 - a) == 173_321_330 || 2 * (h * 173_321_330 - a) == -173_321_330)
        ==> h % 2 == 0
}

proof fn lemma_nearest(a: int)
    requires
        a >= 0,
    ensures
        is_nearest(report::nearest(a), a),
        report::nearest(a) >= 0,
{
}

proof fn lemma_digits(m: int)
    requires
        0 <= m <= 6000,
    ensures
        ({
            let s = report::minutes_text(m);
            &&& s.len() == 5
            &&& s[2] == '.'
            &&& '0' <= s[0] <= '9' && '0' <= s[1] <= '9' && '0' <= s[3] <= '9' && '0' <= s[4] <= '9'
            &&& 1000 * worth(s[0]) + 100 * worth(s[1]) + 10 * worth(s[3]) + worth(s[4]) == m
        }),
{
    let s = report::minutes_text(m);
    assert(s[0] == text::digit(m / 100 / 10 % 10) && s[1] == text::digit(m / 100 % 10));
    assert(s[3] == text::digit(m % 100 / 10 % 10) && s[4] == text::digit(m % 100 % 10));
    assert(m == 1000 * (m / 100 / 10 % 10) + 100 * (m / 100 % 10) + 10 * (m % 100 / 10 % 10) + (m
        % 100 % 10));
}

/// A latitude is two digits of degrees, two of minutes, a point and two of hundredths,
/// and the side of the equator; it is held a hair short of the pole.
pub proof fn law_a_latitude_on_the_air(lat: int)
    ensures
        ({
            let s = report::lat_text(lat);
            let h = 60_000 * worth(s[0]) + 6000 * worth(s[1]) + 1000 * worth(s[2]) + 100 * worth(
                s[3],
            ) + 10 * worth(s[5]) + worth(s[6]);
            &&& s.len() == 8
            &&& s[4] == '.'
            &&& s[7] == if lat < 0 {
                'S'
            } else {
                'N'
            }
            &&& '0' <= s[0] <= '9' && '0' <= s[1] <= '9' && '0' <= s[2] <= '6' && '0' <= s[3] <= '9'
                && '0' <= s[5] <= '9' && '0' <= s[6] <= '9'
            &&& is_nearest(h, within(lat, 93_593_507_800_720))
        }),
{
    let a = report::size(lat, 93_593_507_800_720);
    let d = a / 1_039_927_980_000;
    let f = a % 1_039_927_980_000;
    assert(a == 1_039_927_980_000 * d + f);
    lemma_nearest(f);
    let m = report::nearest(f);
    assert(0 <= m <= 6000);
    lemma_digits(m);
    let t = report::minutes_text(m);
    let s = report::lat_text(lat);
    let two = report::two_digits(d);
    assert(0 <= d <= 89);
    assert(s[0] == two[0] && s[1] == two[1]);
    assert(s[2] == t[0] && s[3] == t[1] && s[4] == t[2] && s[5] == t[3] && s[6] == t[4]);
    assert(worth(two[0]) == d / 10 && worth(two[1]) == d % 10);
    assert(m == 1000 * worth(t[0]) + 100 * worth(t[1]) + 10 * worth(t[3]) + worth(t[4]));
    assert(worth(t[0]) <= 6);
}

/// A longitude is three digits of degrees, and the side of Greenwich.
pub proof fn law_a_longitude_on_the_air(lon: int)
    ensures
        ({
            let s = report::lon_text(lon);
            let h = 600_000 * worth(s[0]) + 60_000 * worth(s[1]) + 6000 * worth(s[2]) + 1000
                * worth(s[3]) + 100 * worth(s[4]) + 10 * worth(s[6]) + worth(s[7]);
            &&& s.len() == 9
            &&& s[5] == '.'
            &&& s[8] == if lon < 0 {
                'W'
            } else {
                'E'
            }
            &&& '0' <= s[0] <= '1' && '0' <= s[1] <= '9' && '0' <= s[2] <= '9' && '0' <= s[3] <= '6'
                && '0' <= s[4] <= '9' && '0' <= s[6] <= '9' && '0' <= s[7] <= '9'
            &&& is_nearest(h, within(lon, 187_187_026_000_720))
        }),
{
    let a = report::size(lon, 187_187_026_000_720);
    let d = a / 1_039_927_980_000;
    let f = a % 1_039_927_980_000;
    assert(a == 1_039_927_980_000 * d + f);
    lemma_nearest(f);
    let m = report::nearest(f);
    assert(0 <= m <= 6000);
    lemma_digits(m);
    let t = report::minutes_text(m);
    let s = report::lon_text(lon);
    let three = report::three_digits(d);
    assert(0 <= d <= 179);
    assert(s[0] == three[0] && s[1] == three[1] && s[2] == three[2]);
    assert(s[3] == t[0] && s[4] == t[1] && s[5] == t[2] && s[6] == t[3] && s[7] == t[4]);
    assert(worth(three[0]) == d / 100 && worth(three[1]) == d / 10 % 10 && worth(three[2]) == d
        % 10);
    assert(m == 1000 * worth(t[0]) + 100 * worth(t[1]) + 10 * worth(t[3]) + worth(t[4]));
    assert(worth(t[0]) <= 6);
}

/// Four base-91 digits are a number, the highest first.
pub proof fn law_a_number_in_base_91(v: int)
    requires
        0 <= v < 68_574_961,
    ensures
        ({
            let s = report::base91_text(v);
            &&& s.len() == 4
            &&& forall|i: int| 0 <= i < 4 ==> '!' <= #[trigger] s[i] <= '{'
            &&& v == 753_571 * (s[0] as int - 33) + 8281 * (s[1] as int - 33) + 91 * (s[2] as int
                - 33) + (s[3] as int - 33)
        }),
{
    reveal(report::base91_text);
    let a = v / 91;
    let b = v / 8281;
    let c = v / 753_571;
    assert(b == a / 91 && c == b / 91);
    assert(0 <= c < 91);
}

/// An angle is as many counts as are nearest to it, none below nothing and no more
/// than four digits hold.
pub proof fn law_an_angle_in_counts(a: int, count: int)
    requires
        count == 2_730_000 || count == 5_460_000,
    ensures
        a <= 0 ==> report::counts(a, count) == 0,
        0 < a < 68_574_960 * count ==> -count < 2 * (report::counts(a, count) * count - a)
            <= count,
        a >= 68_574_960 * count ==> report::counts(a, count) == 68_574_960,
{
    reveal(report::counts);
    let n = (2 * a + count) / (2 * count);
    if count == 2_730_000 {
        assert(n == (2 * a + 2_730_000) / 5_460_000);
    } else {
        assert(n == (2 * a + 5_460_000) / 10_920_000);
    }
    assert(n * count == count * n) by (nonlinear_arith);
}

/// A compressed report is the table, latitude and longitude in base 91, the symbol,
/// three bytes that say nothing, and the comment.
pub proof fn law_a_compressed_report_on_the_air(
    pos: AprsPosition,
    symbol: AprsSymbol,
    comment: Seq<char>,
)
    ensures
        ({
            let s = report::compressed_text(pos, symbol, comment);
            let y = report::counts(90 * 1_039_927_980_000 - pos.lat, 2_730_000);
            let x = report::counts(180 * 1_039_927_980_000 + pos.lon, 5_460_000);
            &&& s[0] as int == if '0' <= symbol.table <= '9' {
                symbol.table as int + 49
            } else {
                symbol.table as int
            }
            &&& s.subrange(1, 5) == report::base91_text(y)
            &&& s.subrange(5, 9) == report::base91_text(x)
            &&& s[9] == symbol.code
            &&& s[10] == ' ' && s[11] == ' ' && s[12] == '!'
            &&& s.skip(13) == report::comment_text(comment)
        }),
{
    reveal(report::base91_text);
    let s = report::compressed_text(pos, symbol, comment);
    let y = report::counts(90 * 1_039_927_980_000 - pos.lat, 2_730_000);
    let x = report::counts(180 * 1_039_927_980_000 + pos.lon, 5_460_000);
    assert(s.subrange(1, 5) =~= report::base91_text(y));
    assert(s.subrange(5, 9) =~= report::base91_text(x));
    assert(s.skip(13) =~= report::comment_text(comment));
}

/// A report that is written out is latitude, table, longitude, symbol and comment.
pub proof fn law_a_written_report_on_the_air(
    pos: AprsPosition,
    symbol: AprsSymbol,
    comment: Seq<char>,
)
    ensures
        ({
            let s = report::body_text(pos, symbol, comment);
            &&& s.subrange(0, 8) == report::lat_text(pos.lat as int)
            &&& s[8] == symbol.table
            &&& s.subrange(9, 18) == report::lon_text(pos.lon as int)
            &&& s[18] == symbol.code
            &&& s.skip(19) == report::comment_text(comment)
        }),
{
    law_a_latitude_on_the_air(pos.lat as int);
    law_a_longitude_on_the_air(pos.lon as int);
    let s = report::body_text(pos, symbol, comment);
    assert(s.subrange(0, 8) =~= report::lat_text(pos.lat as int));
    assert(s.subrange(9, 18) =~= report::lon_text(pos.lon as int));
    assert(s.skip(19) =~= report::comment_text(comment));
}

/// Of a comment the first 43 characters that may travel do.
pub proof fn law_a_comment_on_the_air(c: Seq<char>, i: int)
    ensures
        ({
            let all = wire::keep(c, Class::Comment);
            let s = report::comment_text(c);
            &&& all.len() <= 43 ==> s == all
            &&& all.len() > 43 ==> s.len() == 43
            &&& 0 <= i < s.len() ==> s[i] == all[i]
        }),
{
}

/// The name of an object is its first nine characters, filled up with blanks.
pub proof fn law_a_name_on_the_air(name: Seq<char>, i: int)
    requires
        0 <= i < 9,
    ensures
        report::name_text(name).len() == 9,
        report::name_text(name)[i] == if i < wire::keep(name, Class::Name).len() {
            wire::keep(name, Class::Name)[i]
        } else {
            ' '
        },
{
}

/// A timestamp is two digits each of day, hour and minute, in UTC.
pub proof fn law_a_timestamp_on_the_air(day: u8, hour: u8, minute: u8)
    requires
        day < 100,
        hour < 100,
        minute < 100,
    ensures
        ({
            let s = report::stamp_text(day, hour, minute);
            &&& s.len() == 7
            &&& 10 * worth(s[0]) + worth(s[1]) == day
            &&& 10 * worth(s[2]) + worth(s[3]) == hour
            &&& 10 * worth(s[4]) + worth(s[5]) == minute
            &&& forall|i: int| 0 <= i < 6 ==> '0' <= #[trigger] s[i] <= '9'
            &&& s[6] == 'z'
        }),
{
    lemma_pad(day as nat);
    lemma_pad(hour as nat);
    lemma_pad(minute as nat);
}

proof fn lemma_pad(n: nat)
    requires
        n < 100,
    ensures
        ({
            let s = report::pad2(n);
            &&& s.len() == 2
            &&& '0' <= s[0] <= '9' && '0' <= s[1] <= '9'
            &&& 10 * worth(s[0]) + worth(s[1]) == n
        }),
{
    reveal_with_fuel(text::dec, 3);
}

/// What the messages of a Mic-E operator are called.
pub proof fn law_what_a_status_is_called()
    ensures
        MicEStatus::OffDuty.name() == "Off Duty"@,
        MicEStatus::EnRoute.name() == "En Route"@,
        MicEStatus::InService.name() == "In Service"@,
        MicEStatus::Returning.name() == "Returning"@,
        MicEStatus::Committed.name() == "Committed"@,
        MicEStatus::Special.name() == "Special"@,
        MicEStatus::Priority.name() == "Priority"@,
        MicEStatus::Emergency.name() == "EMERGENCY"@,
        MicEStatus::Custom(0).name() == "Custom 0"@,
        MicEStatus::Custom(1).name() == "Custom 1"@,
        MicEStatus::Custom(2).name() == "Custom 2"@,
        MicEStatus::Custom(3).name() == "Custom 3"@,
        MicEStatus::Custom(4).name() == "Custom 4"@,
        MicEStatus::Custom(5).name() == "Custom 5"@,
        MicEStatus::Custom(6).name() == "Custom 6"@,
{
}

/// What a field is called: a report with weather in it is weather, and a message goes
/// by its kind.
pub proof fn law_what_a_field_is_called(d: DataView)
    ensures
        d is Position && d->Position_0.weather is Some ==> d.word() == "weather"@,
        d is Position && d->Position_0.weather is None ==> d.word() == "position"@,
        d is Object ==> d.word() == "object"@,
        d is Item ==> d.word() == "item"@,
        d is Status ==> d.word() == "status"@,
        d is Weather ==> d.word() == "weather"@,
        d is Telemetry ==> d.word() == "telemetry"@,
        d is Query ==> d.word() == "query"@,
        d is Grid ==> d.word() == "grid"@,
        d is Message && d->Message_0.kind == MessageKind::Text ==> d.word() == "message"@,
        d is Message && d->Message_0.kind == MessageKind::Ack ==> d.word() == "ack"@,
        d is Message && d->Message_0.kind == MessageKind::Rej ==> d.word() == "reject"@,
        d is Message && d->Message_0.kind == MessageKind::Bulletin ==> d.word() == "bulletin"@,
        d is Message && d->Message_0.kind == MessageKind::TelemetryDef ==> d.word()
            == "telemetry def"@,
{
}

} // verus!
