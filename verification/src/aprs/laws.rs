//! What the other fields of APRS say: weather, telemetry, messages and paths, and
//! which field is which.
use crate::aprs;
use crate::aprs::message;
use crate::aprs::message::{MessageKind, MessageView};
use crate::aprs::mice;
use crate::aprs::path;
use crate::aprs::path::Advice;
use crate::aprs::position;
use crate::aprs::position::PositionView;
use crate::aprs::telemetry;
use crate::aprs::weather;
use crate::aprs::weather::AprsWeather;
use crate::aprs::wire;
use crate::aprs::wire::Class;
use crate::aprs::{DataView, Fault};
use crate::decimal;
use crate::text;
use vstd::prelude::*;

verus! {

broadcast use vstd::seq::group_seq_axioms;

/// The first byte says what a field is.
pub proof fn law_the_first_byte_says_what_a_field_is(dest: Seq<char>, c: u8, rest: Seq<u8>)
    ensures
        ({
            let r = aprs::reading(dest, seq![c] + rest);
            let placed = position::reading(rest, c == 0x2f || c == 0x40);
            &&& c == 0x21 || c == 0x3d || c == 0x2f || c == 0x40 ==> match placed {
                Ok(p) => r == Ok::<DataView, Fault>(
                    DataView::Position(
                        PositionView { messaging: c == 0x3d || c == 0x40, ..p },
                    ),
                ),
                Err(f) => r == Err::<DataView, Fault>(f),
            }
            &&& c == 0x1c || c == 0x1d || c == 0x27 || c == 0x60 ==> match mice::reading(
                dest,
                rest,
            ) {
                Ok(p) => r == Ok::<DataView, Fault>(DataView::Position(p)),
                Err(f) => r == Err::<DataView, Fault>(f),
            }
            &&& c == 0x3b ==> match position::object_reading(rest) {
                Ok(o) => r == Ok::<DataView, Fault>(
                    DataView::Object { name: o.0, live: o.1, pos: o.2 },
                ),
                Err(f) => r == Err::<DataView, Fault>(f),
            }
            &&& c == 0x29 ==> match position::item_reading(rest) {
                Ok(o) => r == Ok::<DataView, Fault>(
                    DataView::Item { name: o.0, live: o.1, pos: o.2 },
                ),
                Err(f) => r == Err::<DataView, Fault>(f),
            }
            &&& c == 0x3a ==> match message::reading(rest) {
                Ok(m) => r == Ok::<DataView, Fault>(DataView::Message(m)),
                Err(f) => r == Err::<DataView, Fault>(f),
            }
            &&& c == 0x5f ==> match weather::reading(rest) {
                Ok(w) => r == Ok::<DataView, Fault>(DataView::Weather(w)),
                Err(f) => r == Err::<DataView, Fault>(f),
            }
            &&& c == 0x54 ==> match telemetry::reading(rest) {
                Ok(t) => r == Ok::<DataView, Fault>(DataView::Telemetry(t)),
                Err(f) => r == Err::<DataView, Fault>(f),
            }
            &&& c == 0x3e ==> r == Ok::<DataView, Fault>(
                DataView::Status(text::trim_back(wire::shown(rest))),
            )
            &&& c == 0x3f ==> r == Ok::<DataView, Fault>(
                DataView::Query(text::trim_back(wire::shown(rest))),
            )
            &&& c == 0x5b ==> r is Ok && r->Ok_0 is Grid
            &&& r == Err::<DataView, Fault>(Fault::UnknownType(c as char)) || c == 0x21 || c == 0x3d
                || c == 0x2f || c == 0x40 || c == 0x1c || c == 0x1d || c == 0x27 || c == 0x60 || c
                == 0x3b || c == 0x29 || c == 0x3a || c == 0x5f || c == 0x54 || c == 0x3e || c
                == 0x3f || c == 0x5b
        }),
{
    let info = seq![c] + rest;
    assert(info.skip(1) =~= rest);
    assert(info[0] == c);
}

/// A locator stands in front of the first bracket, and its comment behind.
pub proof fn law_a_locator_ends_at_its_bracket(
    rest: Seq<u8>,
    grid: Seq<char>,
    comment: Seq<char>,
)
    requires
        forall|i: int| 0 <= i < grid.len() ==> #[trigger] grid[i] != ']',
    ensures
        wire::shown(rest) == grid.push(']') + comment ==> {
            let d = aprs::grid_reading(rest);
            d is Grid && d->grid == grid && d->Grid_comment == text::trim(comment)
        },
        wire::shown(rest) == grid ==> {
            let d = aprs::grid_reading(rest);
            d is Grid && d->grid == text::trim(grid) && d->Grid_comment.len() == 0
        },
{
    let t = grid.push(']') + comment;
    let n = grid.len() as int;
    assert forall|j: int| 0 <= j < n implies t[j] != ']' by {
        assert(t[j] == grid[j]);
    }
    assert(t[n] == ']');
    text::lemma_find_from(t, ']', 0, n);
    text::lemma_find_from(grid, ']', 0, n);
    assert(t.take(n) =~= grid);
    assert(t.skip(n + 1) =~= comment);
}

/// The marks of weather and how wide their fields are; a field that is cut off or
/// holds something else than a number ends the weather.
pub proof fn law_where_a_weather_field_ends(b: Seq<u8>, i: int)
    requires
        0 <= i < b.len(),
    ensures
        ({
            let key = b[i];
            let three = key == 0x63 || key == 0x73 || key == 0x67 || key == 0x74 || key == 0x72
                || key == 0x70 || key == 0x50 || key == 0x4c || key == 0x6c || key == 0x23;
            let n = if three {
                4int
            } else if key == 0x68 {
                3
            } else if key == 0x62 {
                6
            } else {
                0
            };
            let good = n > 0 && i + n <= b.len() && forall|j: int|
                i < j < i + n ==> (0x30 <= #[trigger] b[j] <= 0x39 || b[j] == 0x2e || b[j] == 0x20
                    || b[j] == 0x2d);
            weather::field_at(b, i) == if good {
                Some(n)
            } else {
                None
            }
        }),
{
    match weather::field_width(b[i]) {
        Some(w) => {
            if i + 1 + w <= b.len() {
                let s = b.subrange(i + 1, i + 1 + w);
                if weather::numeric(s) {
                    assert forall|j: int| i < j < i + 1 + w implies (0x30 <= #[trigger] b[j] <= 0x39
                        || b[j] == 0x2e || b[j] == 0x20 || b[j] == 0x2d) by {
                        assert(s[j - i - 1] == b[j]);
                    }
                } else {
                    let k = choose|k: int|
                        0 <= k < s.len() && !({
                            let c = #[trigger] s[k];
                            (0x30 <= c <= 0x39) || c == 0x2e || c == 0x20 || c == 0x2d
                        });
                    assert(b[i + 1 + k] == s[k]);
                }
            }
        },
        None => {},
    }
}

/// What each field says, in the units of the library: winds are miles an hour, rains
/// hundredths of an inch, a temperature is Fahrenheit in ninths of a degree Celsius,
/// a humidity of none is all of it, and of two wind speeds the first counts.
pub proof fn law_what_a_weather_field_says(w: AprsWeather, seen: bool, n: int)
    requires
        -1_000_000_000_000 <= n <= 1_000_000_000_000,
    ensures
        ({
            let dir = weather::with_field(w, seen, 0x63, Some(n));
            &&& 0 <= n <= 65_535 ==> dir.0.wind_dir_deg == Some((n % 360) as u16)
            &&& n < 0 ==> dir.0.wind_dir_deg == Some(0u16)
            &&& dir.1 == seen
            &&& dir.0 == (AprsWeather { wind_dir_deg: dir.0.wind_dir_deg, ..w })
        }),
        weather::with_field(w, false, 0x73, Some(n)) == (
            (AprsWeather { wind_speed: Some((44_704 * n) as i64), ..w }),
            true,
        ),
        weather::with_field(w, true, 0x73, Some(n)) == (w, true),
        weather::with_field(w, seen, 0x67, Some(n)) == (
            (AprsWeather { wind_gust: Some((44_704 * n) as i64), ..w }),
            seen,
        ),
        weather::with_field(w, seen, 0x74, Some(n)) == (
            (AprsWeather { temp: Some((5 * n - 160) as i64), ..w }),
            seen,
        ),
        weather::with_field(w, seen, 0x72, Some(n)) == (
            (AprsWeather { rain_1h: Some((254 * n) as i64), ..w }),
            seen,
        ),
        weather::with_field(w, seen, 0x70, Some(n)) == (
            (AprsWeather { rain_24h: Some((254 * n) as i64), ..w }),
            seen,
        ),
        weather::with_field(w, seen, 0x50, Some(n)) == (
            (AprsWeather { rain_midnight: Some((254 * n) as i64), ..w }),
            seen,
        ),
        n == 0 ==> weather::with_field(w, seen, 0x68, Some(n)) == (
            (AprsWeather { humidity_pct: Some(100), ..w }),
            seen,
        ),
        0 < n <= 255 ==> weather::with_field(w, seen, 0x68, Some(n)) == (
            (AprsWeather { humidity_pct: Some(n as u8), ..w }),
            seen,
        ),
        weather::with_field(w, seen, 0x62, Some(n)) == (
            (AprsWeather { pressure: Some(n as i64), ..w }),
            seen,
        ),
{
}

/// A field without a number forgets what was said of it, and a field of light or of
/// a rain counter says nothing here.
pub proof fn law_a_field_without_a_number(w: AprsWeather, seen: bool, v: Option<int>)
    ensures
        weather::with_field(w, seen, 0x63, None).0.wind_dir_deg is None,
        weather::with_field(w, false, 0x73, None).0.wind_speed is None,
        weather::with_field(w, seen, 0x67, None).0.wind_gust is None,
        weather::with_field(w, seen, 0x74, None).0.temp is None,
        weather::with_field(w, seen, 0x72, None).0.rain_1h is None,
        weather::with_field(w, seen, 0x70, None).0.rain_24h is None,
        weather::with_field(w, seen, 0x50, None).0.rain_midnight is None,
        weather::with_field(w, seen, 0x68, None).0.humidity_pct is None,
        weather::with_field(w, seen, 0x62, None).0.pressure is None,
        weather::with_field(w, seen, 0x4c, v) == (w, seen),
        weather::with_field(w, seen, 0x6c, v) == (w, seen),
        weather::with_field(w, seen, 0x23, v) == (w, seen),
{
}

/// Fields are read one behind the other up to the first that is none.
pub proof fn law_weather_is_read_field_by_field(b: Seq<u8>, i: int, w: AprsWeather, seen: bool)
    requires
        0 <= i,
    ensures
        weather::field_at(b, i) is None ==> weather::scan(b, i, w, seen) == (w, i),
        weather::field_at(b, i) is Some ==> {
            let n = weather::field_at(b, i)->0;
            let next = weather::with_field(
                w,
                seen,
                b[i],
                weather::number(b.subrange(i + 1, i + n)),
            );
            weather::scan(b, i, w, seen) == weather::scan(b, i + n, next.0, next.1)
        },
{
}

/// Weather behind a position starts with direction and speed of the wind where a
/// slash parts them; a report without a position has eight bytes of time in front,
/// and says at least one thing.
pub proof fn law_where_weather_starts(tail: Seq<u8>)
    ensures
        tail.len() >= 7 && tail[3] == 0x2f ==> {
            let w = AprsWeather {
                wind_dir_deg: weather::direction(weather::number(tail.subrange(0, 3))),
                wind_speed: weather::scaled(weather::number(tail.subrange(4, 7)), 44_704),
                wind_gust: None,
                temp: None,
                rain_1h: None,
                rain_24h: None,
                rain_midnight: None,
                humidity_pct: None,
                pressure: None,
            };
            let all = weather::scan(tail.skip(7), 0, w, w.wind_speed is Some);
            weather::in_comment(tail) == (all.0, 7 + all.1)
        },
        tail.len() < 7 || tail[3] != 0x2f ==> weather::in_comment(tail) == weather::scan(
            tail,
            0,
            weather::nothing(),
            false,
        ),
        tail.len() < 8 ==> weather::reading(tail) is Err,
        tail.len() >= 8 ==> {
            let w = weather::scan(tail.skip(8), 0, weather::nothing(), false).0;
            &&& weather::reading(tail) is Ok <==> w != weather::nothing()
            &&& weather::reading(tail) is Ok ==> weather::reading(tail)->Ok_0 == w
        },
        ({
            let w = weather::nothing();
            &&& w.wind_dir_deg is None && w.wind_speed is None && w.wind_gust is None && w.temp
                is None
            &&& w.rain_1h is None && w.rain_24h is None && w.rain_midnight is None
            &&& w.humidity_pct is None && w.pressure is None
        }),
{
    assert(tail.skip(0) =~= tail);
}

/// Three digits of a field are their number.
pub proof fn law_a_weather_number(b: Seq<u8>)
    requires
        b.len() == 3,
        0x30 <= b[0] <= 0x39,
        0x30 <= b[1] <= 0x39,
        0x30 <= b[2] <= 0x39,
    ensures
        weather::number(b) == Some(100 * (b[0] - 48) + 10 * (b[1] - 48) + (b[2] - 48)),
{
    text::lemma_ascii_reads_as_it_is(b);
    let s = text::ascii(b);
    assert(s.len() == 3 && s[0] == b[0] as char && s[1] == b[1] as char && s[2] == b[2] as char);
    assert(s =~= seq![s[0], s[1], s[2]]);
    crate::aprs::report::lemma_val_three(s[0], s[1], s[2]);
    reveal_with_fuel(vstd::arithmetic::power::pow, 1);
    assert(vstd::arithmetic::power::pow(10, 0) == 1);
    decimal::lemma_fixed_of_digits(s, 0);
    assert(!text::is_white(s[0]) && !text::is_white(s.last()));
    assert(text::trim_front(s) == s);
    assert(text::trim(s) == s);
    reveal_strlit("-");
    assert("-"@.len() == 1);
    assert(!s.contains('.'));
}

/// Telemetry is a sequence, five readings and eight bits, parted by commas, behind
/// an optional mark.
pub proof fn law_what_telemetry_says(rest: Seq<u8>, parts: Seq<Seq<char>>, i: int)
    requires
        ({
            let s = wire::shown(rest);
            parts == text::pieces(
                if s.len() > 0 && s[0] == '#' {
                    s.skip(1)
                } else {
                    s
                },
                ',',
            )
        }),
        text::trim(parts[0]).len() > 0,
    ensures
        telemetry::reading(rest) is Ok,
        ({
            let t = telemetry::reading(rest)->Ok_0;
            &&& t.seq == text::trim(parts[0])
            &&& t.analog.len() == 5
            &&& t.digital.len() == 8
            &&& 0 <= i < 5 && i + 1 < parts.len() ==> t.analog[i] == (match decimal::fixed_of(
                text::trim(parts[i + 1]),
                6,
            ) {
                Some(n) => Some(n as i64),
                None => None,
            })
            &&& 0 <= i < 5 && i + 1 >= parts.len() ==> t.analog[i] is None
            &&& parts.len() <= 6 && 0 <= i < 8 ==> !t.digital[i]
            &&& parts.len() > 6 && parts[6].len() >= 8 && (forall|j: int|
                0 <= j < 8 ==> (#[trigger] parts[6][j] == '0' || parts[6][j] == '1')) && 0 <= i < 8
                ==> t.digital[i] == (parts[6][i] == '1')
        }),
{
    if parts.len() > 6 && parts[6].len() >= 8 && (forall|j: int|
        0 <= j < 8 ==> (#[trigger] parts[6][j] == '0' || parts[6][j] == '1')) {
        lemma_bits(parts[6], 0);
    }
}

proof fn lemma_bits(s: Seq<char>, i: int)
    requires
        0 <= i <= 8,
        s.len() >= 8,
        forall|j: int| 0 <= j < 8 ==> (#[trigger] s[j] == '0' || s[j] == '1'),
    ensures
        telemetry::bit_count(s, i) == 8,
    decreases 8 - i,
{
    if i < 8 {
        assert(s[i] == '0' || s[i] == '1');
        lemma_bits(s, i + 1);
    }
}

/// A sequence of nothing is no telemetry.
pub proof fn law_telemetry_has_a_sequence(rest: Seq<u8>)
    ensures
        telemetry::reading(rest) is Err ==> {
            let s = wire::shown(rest);
            text::trim(
                text::pieces(
                    if s.len() > 0 && s[0] == '#' {
                        s.skip(1)
                    } else {
                        s
                    },
                    ',',
                )[0],
            ).len() == 0
        },
{
}

/// A message is to the nine characters in front of its colon, and what it says is
/// behind it.
pub proof fn law_whom_a_message_is_to(rest: Seq<u8>)
    ensures
        message::reading(rest) is Ok <==> rest.len() >= 10 && rest[9] == 0x3a,
        message::reading(rest) is Ok ==> message::reading(rest)->Ok_0 == message::message_of(
            text::trim_back(wire::shown(rest.subrange(0, 9))),
            wire::shown(rest.subrange(10, rest.len() as int)),
        ),
{
}

proof fn lemma_last_of(s: Seq<char>, c: char, k: int)
    requires
        0 <= k < s.len(),
        s[k] == c,
        forall|j: int| k < j < s.len() ==> #[trigger] s[j] != c,
    ensures
        message::last_of(s, c) == k,
    decreases s.len(),
{
    if k < s.len() - 1 {
        assert(s[s.len() - 1] != c);
        lemma_last_of(s.drop_last(), c, k);
    }
}

/// A number behind a brace is a message's own, and one behind a second brace the
/// answer to another, where the two are short enough to be numbers.
pub proof fn law_the_numbers_of_a_message(t: Seq<char>, id: Seq<char>, ack: Seq<char>)
    requires
        forall|i: int| 0 <= i < id.len() ==> #[trigger] id[i] != '{' && id[i] != '}',
        forall|i: int| 0 <= i < ack.len() ==> #[trigger] ack[i] != '{',
        text::utf8_len(seq!['{'] + id + seq!['}'] + ack) <= 12,
    ensures
        message::parts_of(t + (seq!['{'] + id + seq!['}'] + ack)) == (t, id, ack),
{
    let tail = seq!['{'] + id + seq!['}'] + ack;
    let body = t + tail;
    let n = t.len() as int;
    assert(body[n] == '{');
    assert forall|j: int| n < j < body.len() implies #[trigger] body[j] != '{' by {
        assert(body[j] == tail[j - n]);
        if j - n <= id.len() {
            assert(tail[j - n] == id[j - n - 1]);
        } else if j - n > id.len() + 1 {
            assert(tail[j - n] == ack[j - n - id.len() - 2]);
        }
    }
    lemma_last_of(body, '{', n);
    assert(body.skip(n) =~= tail);
    let rest = body.skip(n + 1);
    assert(rest =~= id + seq!['}'] + ack);
    assert(rest[id.len() as int] == '}');
    assert forall|j: int| 0 <= j < id.len() implies rest[j] != '}' by {
        assert(rest[j] == id[j]);
    }
    text::lemma_find_from(rest, '}', 0, id.len() as int);
    assert(body.take(n) =~= t);
    assert(rest.take(id.len() as int) =~= id);
    assert(rest.skip(id.len() as int + 1) =~= ack);
}

/// The same with no answer in it.
pub proof fn law_the_number_of_a_message(t: Seq<char>, id: Seq<char>)
    requires
        forall|i: int| 0 <= i < id.len() ==> #[trigger] id[i] != '{' && id[i] != '}',
    ensures
        text::utf8_len(seq!['{'] + id) <= 12 ==> message::parts_of(t + (seq!['{'] + id)) == (
            t,
            id,
            Seq::<char>::empty(),
        ),
        text::utf8_len(seq!['{'] + id) > 12 ==> message::parts_of(t + (seq!['{'] + id)) == (
            t + (seq!['{'] + id),
            Seq::<char>::empty(),
            Seq::<char>::empty(),
        ),
{
    let tail = seq!['{'] + id;
    let body = t + tail;
    let n = t.len() as int;
    assert(body[n] == '{');
    assert forall|j: int| n < j < body.len() implies #[trigger] body[j] != '{' by {
        assert(body[j] == id[j - n - 1]);
    }
    lemma_last_of(body, '{', n);
    assert(body.skip(n) =~= tail);
    let rest = body.skip(n + 1);
    assert(rest =~= id);
    text::lemma_find_from(rest, '}', 0, id.len() as int);
    assert(body.take(n) =~= t);
}

/// `ack` or `rej` in front of a number of one to five letters and digits is an
/// answer, and nothing else of that message is said.
pub proof fn law_an_answer_is_its_number(to: Seq<char>, id: Seq<char>)
    requires
        0 < id.len() <= 5,
        forall|i: int|
            0 <= i < id.len() ==> ('0' <= #[trigger] id[i] <= '9' || 'A' <= id[i] <= 'Z' || 'a'
                <= id[i] <= 'z'),
    ensures
        message::message_of(to, "ack"@ + id) == (MessageView {
            addressee: to,
            text: Seq::empty(),
            id,
            reply_ack: Seq::empty(),
            kind: MessageKind::Ack,
        }),
        message::message_of(to, "rej"@ + id) == (MessageView {
            addressee: to,
            text: Seq::empty(),
            id,
            reply_ack: Seq::empty(),
            kind: MessageKind::Rej,
        }),
{
    reveal_strlit("ack");
    reveal_strlit("rej");
    assert("ack"@.len() == 3 && "rej"@.len() == 3 && "ack"@[0] == 'a' && "rej"@[0] == 'r');
    assert(!text::is_white(id.last()));
    let a = "ack"@ + id;
    let r = "rej"@ + id;
    assert(a.skip(3) =~= id);
    assert(r.skip(3) =~= id);
    assert(a.take(3) =~= "ack"@);
    assert(r.take(3) =~= "rej"@);
    assert(r.take(3)[0] == 'r');
    assert(text::trim_back(id) == id);
}

/// Any other message is a text: a bulletin where it is to one, a definition where it
/// starts as one.
pub proof fn law_the_kinds_of_messages(to: Seq<char>, body: Seq<char>)
    requires
        message::tagged(body, "ack"@) is None,
        message::tagged(body, "rej"@) is None,
    ensures
        ({
            let m = message::message_of(to, body);
            let t = message::parts_of(body).0;
            let bulletin = text::has_prefix(to, "BLN"@);
            let def = text::has_prefix(t, "PARM."@) || text::has_prefix(t, "UNIT."@)
                || text::has_prefix(t, "EQNS."@) || text::has_prefix(t, "BITS."@);
            &&& m.addressee == to
            &&& m.text == text::trim_back(t)
            &&& m.id == message::parts_of(body).1
            &&& m.reply_ack == message::parts_of(body).2
            &&& bulletin ==> m.kind == MessageKind::Bulletin
            &&& !bulletin && def ==> m.kind == MessageKind::TelemetryDef
            &&& !bulletin && !def ==> m.kind == MessageKind::Text
        }),
{
}

/// What is kept of a text for the air is its characters of a class, in their order.
pub proof fn law_what_is_kept_of_a_text(s: Seq<char>, c: char)
    ensures
        wire::keep(Seq::empty(), Class::Text).len() == 0,
        ({
            let shows = '!' <= c <= '~';
            let k = |class: Class, yes: bool|
                wire::keep(s.push(c), class) == if yes {
                    wire::keep(s, class).push(c)
                } else {
                    wire::keep(s, class)
                };
            &&& k(Class::Printable, c != '\r' && c != '\n' && c != '\0')
            &&& k(Class::Name, shows || c == ' ')
            &&& k(Class::Graphic, shows)
            &&& k(
                Class::Alnum,
                ('0' <= c <= '9') || ('A' <= c <= 'Z') || ('a' <= c <= 'z'),
            )
            &&& k(Class::Comment, (shows || c == ' ') && c != '|' && c != '~')
            &&& k(Class::Text, (shows || c == ' ') && c != '|' && c != '~' && c != '{')
        }),
{
    assert(s.push(c).drop_last() =~= s);
}

/// A message on the air is a colon, whom it is to nine wide and in capitals, a colon,
/// at most 67 characters of text and at most five of number.
pub proof fn law_a_message_on_the_air(to: Seq<char>, t: Seq<char>, id: Seq<char>)
    ensures
        ({
            let name = text::uppers(wire::keep(to, Class::Graphic));
            let body = wire::keep(t, Class::Text);
            let tag = wire::keep(id, Class::Alnum);
            let m = message::message_text(to, t, id);
            let used = if body.len() <= 67 {
                body.len() as int
            } else {
                67
            };
            let tail = if tag.len() <= 5 {
                tag.len() as int
            } else {
                5
            };
            &&& m[0] == ':'
            &&& m[10] == ':'
            &&& forall|i: int|
                #![trigger m[i]]
                1 <= i <= 9 ==> m[i] == if i - 1 < name.len() {
                    name[i - 1]
                } else {
                    ' '
                }
            &&& forall|i: int| #![trigger body[i]] 0 <= i < used ==> m[11 + i] == body[i]
            &&& id.len() == 0 ==> m.len() == 11 + used
            &&& id.len() > 0 ==> m.len() == 12 + used + tail && m[11 + used] == '{'
            &&& id.len() > 0 ==> forall|i: int|
                #![trigger tag[i]]
                0 <= i < tail ==> m[12 + used + i] == tag[i]
        }),
{
}

/// A path is its names in capitals, without the space around them and without those
/// that are empty, and no more than eight of them.
pub proof fn law_a_path_is_its_names(name: Seq<char>, parts: Seq<Seq<char>>, n: int)
    requires
        n > 0,
    ensures
        ({
            let up = text::uppers(text::trim(name));
            &&& up.len() == 0 ==> path::names(seq![name] + parts, n) == path::names(parts, n)
            &&& up.len() > 0 ==> path::names(seq![name] + parts, n) == seq![up] + path::names(
                parts,
                n - 1,
            )
            &&& path::names(parts, 0).len() == 0
            &&& path::names(Seq::empty(), n).len() == 0
        }),
        forall|s: Seq<char>| #[trigger]
            path::path_of(s) == path::names(text::pieces(s, ','), 8),
{
    let all = seq![name] + parts;
    assert(all.skip(1) =~= parts);
    assert(all[0] == name);
}

/// A path has a hop for every name, and as many as it says for one of `WIDE`.
pub proof fn law_the_hops_of_a_path(
    p: Seq<Seq<char>>,
    name: Seq<char>,
    d: char,
    count: Seq<char>,
)
    requires
        '0' <= d <= '9',
        count.len() > 0,
        decimal::all_digits(count),
        decimal::val(count) <= u32::MAX,
    ensures
        path::total_hops(Seq::empty()) == 0,
        path::total_hops(p.push(name)) == path::total_hops(p) + path::hops(name),
        !text::has_prefix(name, "WIDE"@) ==> path::hops(name) == 1,
        path::hops("WIDE"@ + seq![d, '-'] + count) == decimal::val(count),
{
    assert(p.push(name).drop_last() =~= p);
    reveal_strlit("WIDE");
    assert("WIDE"@.len() == 4);
    let w = "WIDE"@ + seq![d, '-'] + count;
    assert(w.take(4) =~= "WIDE"@);
    assert(w[4] == d && w[5] == '-');
    assert(w.skip(6) =~= count);
    assert(text::is_digit(count[0]));
}

/// A path is advised against where a name in it is dead, then where it has more than
/// three hops, then where its first of several hops skips the fill-ins, and nowhere
/// else.
pub proof fn law_what_is_advised(p: Seq<Seq<char>>)
    ensures
        ({
            let dead = exists|i: int|
                0 <= i < p.len() && (#[trigger] p[i] == "RELAY"@ || p[i] == "TRACE"@ || p[i]
                    == "WIDE"@ || p[i] == "ECHO"@ || p[i] == "GATE"@);
            let skips = p.len() > 1 && text::has_prefix(p[0], "WIDE"@) && p[0] != "WIDE1-1"@;
            &&& dead ==> path::advice_on(p) == Some(Advice::DeadAlias)
            &&& !dead && path::total_hops(p) > 3 ==> path::advice_on(p) == Some(Advice::TooManyHops)
            &&& !dead && path::total_hops(p) <= 3 && skips ==> path::advice_on(p) == Some(
                Advice::SkipsFillIn,
            )
            &&& !dead && path::total_hops(p) <= 3 && !skips ==> path::advice_on(p) is None
        }),
{
    if exists|i: int|
        0 <= i < p.len() && (#[trigger] p[i] == "RELAY"@ || p[i] == "TRACE"@ || p[i] == "WIDE"@
            || p[i] == "ECHO"@ || p[i] == "GATE"@) {
        let i = choose|i: int|
            0 <= i < p.len() && (#[trigger] p[i] == "RELAY"@ || p[i] == "TRACE"@ || p[i] == "WIDE"@
                || p[i] == "ECHO"@ || p[i] == "GATE"@);
        assert(path::dead(p[i]));
    }
}

/// A comment behind telemetry is what follows the bits, in their piece and in those
/// behind it.
pub proof fn law_the_comment_of_telemetry(parts: Seq<Seq<char>>)
    ensures
        parts.len() <= 6 ==> telemetry::comment_of(parts) == text::trim(Seq::empty()),
        parts.len() > 6 ==> {
            let k = telemetry::bit_count(parts[6], 0);
            let near = if k < parts[6].len() {
                text::trim(parts[6].skip(k))
            } else {
                Seq::empty()
            };
            &&& parts.len() == 7 ==> telemetry::comment_of(parts) == text::trim(near)
            &&& parts.len() > 7 && near.len() == 0 ==> telemetry::comment_of(parts) == text::trim(
                near + telemetry::joined(parts.skip(7)),
            )
            &&& parts.len() > 7 && near.len() > 0 ==> telemetry::comment_of(parts) == text::trim(
                near + seq![','] + telemetry::joined(parts.skip(7)),
            )
        },
{
}

/// Pieces are joined by commas.
pub proof fn law_pieces_are_joined_by_commas(parts: Seq<Seq<char>>, p: Seq<char>)
    ensures
        telemetry::joined(Seq::empty()).len() == 0,
        telemetry::joined(seq![p]) == p,
        parts.len() > 0 ==> telemetry::joined(parts.push(p)) == telemetry::joined(parts) + seq![',']
            + p,
{
    assert(parts.push(p).drop_last() =~= parts);
}

/// Bits are counted up to the first that is none, and to eight.
pub proof fn law_how_many_bits_there_are(s: Seq<char>, i: int)
    requires
        0 <= i,
    ensures
        i < 8 && i < s.len() && (s[i] == '0' || s[i] == '1') ==> telemetry::bit_count(s, i)
            == telemetry::bit_count(s, i + 1),
        i >= 8 || i >= s.len() || (s[i] != '0' && s[i] != '1') ==> telemetry::bit_count(s, i) == i,
{
}

} // verus!
