//! What a position report says, byte by byte. Angles are whole numbers of a unit of
//! which a hundredth of a minute has 173321330.
use crate::aprs::position;
use crate::aprs::position::{
    Altitude, AprsPosition, AprsSymbol, PositionView, Range, Speed, Timestamp,
};
use crate::aprs::report;
use crate::aprs::wire;
use crate::aprs::Fault;
use crate::decimal;
use crate::text;
use vstd::prelude::*;

verus! {

broadcast use vstd::seq::group_seq_axioms;

/// A digit.
pub open spec fn digit(c: u8) -> bool {
    0x30 <= c <= 0x39
}

/// A digit, or a blank that stands for one.
pub open spec fn slot(c: u8) -> bool {
    c == 0x20 || 0x30 <= c <= 0x39
}

pub open spec fn worth(c: u8) -> int {
    if c == 0x20 {
        0
    } else {
        c - 0x30
    }
}

/// How far the middle of what blanks leave open is behind its start, in hundredths
/// of a minute.
pub open spec fn middle(blanks: int) -> int {
    if blanks == 1 {
        5
    } else if blanks == 2 {
        50
    } else if blanks == 3 {
        500
    } else if blanks == 4 {
        3000
    } else {
        0
    }
}

/// How many of four slots are blank from the last on.
pub open spec fn open_slots(a: u8, b: u8, c: u8, d: u8) -> int {
    if d != 0x20 {
        0
    } else if c != 0x20 {
        1
    } else if b != 0x20 {
        2
    } else if a != 0x20 {
        3
    } else {
        4
    }
}

proof fn lemma_valid(b: Seq<u8>)
    requires
        forall|i: int| 0 <= i < b.len() ==> #[trigger] b[i] < 128,
    ensures
        vstd::utf8::valid_utf8(b),
{
    text::lemma_ascii_reads_as_it_is(b);
}

/// `DDMM.hhN`: degrees, minutes and hundredths of them, north or south. Blank slots
/// leave the position open, and its middle is given.
pub proof fn law_a_latitude_in_digits(b: Seq<u8>)
    requires
        b.len() == 8,
        digit(b[0]) && digit(b[1]),
        slot(b[2]) && slot(b[3]) && slot(b[5]) && slot(b[6]),
        b[4] == 0x2e,
        b[7] == 0x4e || b[7] == 0x6e || b[7] == 0x53 || b[7] == 0x73,
    ensures
        ({
            let k = open_slots(b[2], b[3], b[5], b[6]);
            let m = 6000 * (10 * worth(b[0]) + worth(b[1])) + 1000 * worth(b[2]) + 100 * worth(b[3])
                + 10 * worth(b[5]) + worth(b[6]) + middle(k);
            if m > 540_000 {
                position::latitude(b) == Err::<(int, int), Fault>(
                    Fault::Malformed("latitude out of range"@),
                )
            } else if b[7] == 0x4e || b[7] == 0x6e {
                position::latitude(b) == Ok::<(int, int), Fault>((m * 173_321_330, k))
            } else {
                position::latitude(b) == Ok::<(int, int), Fault>((-m * 173_321_330, k))
            }
        }),
{
    let n = 10 * worth(b[0]) + worth(b[1]);
    lemma_valid(b.subrange(0, 7));
    assert(b.subrange(0, 2) =~= wire::bytes_of(report::two_digits(n)));
    report::lemma_two_degrees(n);
    let t = b.subrange(2, 7);
    assert(t[0] == b[2] && t[1] == b[3] && t[2] == b[4] && t[3] == b[5] && t[4] == b[6]);
}

/// `DDDMM.hhE`, east or west.
pub proof fn law_a_longitude_in_digits(b: Seq<u8>)
    requires
        b.len() == 9,
        digit(b[0]) && digit(b[1]) && digit(b[2]),
        slot(b[3]) && slot(b[4]) && slot(b[6]) && slot(b[7]),
        b[5] == 0x2e,
        b[8] == 0x45 || b[8] == 0x65 || b[8] == 0x57 || b[8] == 0x77,
    ensures
        ({
            let k = open_slots(b[3], b[4], b[6], b[7]);
            let m = 6000 * (100 * worth(b[0]) + 10 * worth(b[1]) + worth(b[2])) + 1000 * worth(b[3])
                + 100 * worth(b[4]) + 10 * worth(b[6]) + worth(b[7]) + middle(k);
            if m > 1_080_000 {
                position::longitude(b) == Err::<int, Fault>(
                    Fault::Malformed("longitude out of range"@),
                )
            } else if b[8] == 0x45 || b[8] == 0x65 {
                position::longitude(b) == Ok::<int, Fault>(m * 173_321_330)
            } else {
                position::longitude(b) == Ok::<int, Fault>(-m * 173_321_330)
            }
        }),
{
    let n = 100 * worth(b[0]) + 10 * worth(b[1]) + worth(b[2]);
    lemma_valid(b.subrange(0, 8));
    assert(b.subrange(0, 3) =~= wire::bytes_of(report::three_digits(n)));
    report::lemma_three_degrees(n);
    let t = b.subrange(3, 8);
    assert(t[0] == b[3] && t[1] == b[4] && t[2] == b[5] && t[3] == b[6] && t[4] == b[7]);
}

/// What is no minutes, and what is no hemisphere, is refused.
pub proof fn law_other_latitudes_are_refused(b: Seq<u8>)
    requires
        b.len() == 8,
        digit(b[0]) && digit(b[1]),
        forall|i: int| 0 <= i < 8 ==> #[trigger] b[i] < 128,
    ensures
        !(slot(b[2]) && slot(b[3]) && slot(b[5]) && slot(b[6]) && b[4] == 0x2e)
            ==> position::latitude(b) == Err::<(int, int), Fault>(Fault::Malformed("minutes"@)),
        slot(b[2]) && slot(b[3]) && slot(b[5]) && slot(b[6]) && b[4] == 0x2e && b[7] != 0x4e && b[7]
            != 0x6e && b[7] != 0x53 && b[7] != 0x73 ==> position::latitude(b) == Err::<
            (int, int),
            Fault,
        >(Fault::Malformed("latitude hemisphere"@)),
{
    let n = 10 * worth(b[0]) + worth(b[1]);
    lemma_valid(b.subrange(0, 7));
    assert(b.subrange(0, 2) =~= wire::bytes_of(report::two_digits(n)));
    report::lemma_two_degrees(n);
    let t = b.subrange(2, 7);
    assert(t[0] == b[2] && t[1] == b[3] && t[2] == b[4] && t[3] == b[5] && t[4] == b[6]);
}

/// A report that starts with a digit is written out: a latitude, the table of its
/// symbol, a longitude and the symbol, and behind these what its tail adds.
pub proof fn law_a_written_report(rest: Seq<u8>, lat: int, k: int, lon: int)
    requires
        rest.len() >= 19,
        digit(rest[0]),
        position::latitude(rest.subrange(0, 8)) == Ok::<(int, int), Fault>((lat, k)),
        position::longitude(rest.subrange(9, 18)) == Ok::<int, Fault>(lon),
    ensures
        position::reading(rest, false) == Ok::<PositionView, Fault>(
            position::finished(
                PositionView {
                    pos: AprsPosition { lat: lat as i64, lon: lon as i64, ambiguity: k as u8 },
                    symbol: AprsSymbol { table: rest[8] as char, code: rest[18] as char },
                    course_deg: None,
                    speed: None,
                    altitude: None,
                    range: None,
                    comment: Seq::empty(),
                    weather: None,
                    timestamp: None,
                    messaging: false,
                    mice: None,
                },
                rest.skip(19),
            ),
        ),
{
}

/// A report that does not start with a digit is compressed: of each of its two
/// numbers of four base-91 digits a degree of latitude has 380926, counted from the
/// pole south, and a degree of longitude 190463, counted from the date line east.
pub proof fn law_a_compressed_report(rest: Seq<u8>)
    requires
        rest.len() >= 13,
        !digit(rest[0]),
        forall|i: int| 1 <= i < 9 ==> 33 <= #[trigger] rest[i] <= 124,
    ensures
        ({
            let y = 91 * (91 * (91 * (rest[1] - 33) + (rest[2] - 33)) + (rest[3] - 33)) + (rest[4]
                - 33);
            let x = 91 * (91 * (91 * (rest[5] - 33) + (rest[6] - 33)) + (rest[7] - 33)) + (rest[8]
                - 33);
            if y > 180 * 380_926 || x > 360 * 190_463 {
                position::reading(rest, false) == Err::<PositionView, Fault>(
                    Fault::Malformed("compressed position out of range"@),
                )
            } else {
                position::reading(rest, false) == Ok::<PositionView, Fault>(
                    position::finished(
                        position::compressed_extra(
                            PositionView {
                                pos: AprsPosition {
                                    lat: ((90 * 380_926 - y) * 2_730_000) as i64,
                                    lon: ((x - 180 * 190_463) * 5_460_000) as i64,
                                    ambiguity: 0,
                                },
                                symbol: AprsSymbol {
                                    table: if 0x61 <= rest[0] <= 0x6a {
                                        (rest[0] - 0x31) as char
                                    } else {
                                        rest[0] as char
                                    },
                                    code: rest[9] as char,
                                },
                                course_deg: None,
                                speed: None,
                                altitude: None,
                                range: None,
                                comment: Seq::empty(),
                                weather: None,
                                timestamp: None,
                                messaging: false,
                                mice: None,
                            },
                            rest[10],
                            rest[11],
                            rest[12],
                        ),
                        rest.skip(13),
                    ),
                )
            }
        }),
{
    let a = rest.subrange(1, 5);
    let b = rest.subrange(5, 9);
    assert(a[0] == rest[1] && a[1] == rest[2] && a[2] == rest[3] && a[3] == rest[4]);
    assert(b[0] == rest[5] && b[1] == rest[6] && b[2] == rest[7] && b[3] == rest[8]);
    assert(position::base91(a) is Some);
    assert(position::base91(b) is Some);
}

/// A degree is the same in either notation: as many hundredths of a minute as it
/// has, or as many counts.
pub proof fn law_a_degree_is_a_degree()
    ensures
        6000 * 173_321_330 == position::DEGREE,
        60_000 * 17_332_133 == position::DEGREE,
        60 * 9100 * 1_904_630 == position::DEGREE,
        380_926 * 2_730_000 == position::DEGREE,
        190_463 * 5_460_000 == position::DEGREE,
        position::HUNDREDTH == 173_321_330,
        position::THOUSANDTH == 17_332_133,
        position::FINE_STEP == 1_904_630,
        position::LAT_COUNT == 2_730_000,
        position::LON_COUNT == 5_460_000,
{
}

/// What stands behind a compressed position: nothing behind a blank, a range behind
/// a brace, else an altitude where the type byte says that it comes of a GGA
/// sentence, and course and speed where it does not.
pub proof fn law_what_a_compressed_report_adds(p: PositionView, c: u8, s: u8, t: u8)
    requires
        33 <= c <= 123 || c == 0x20,
        33 <= s <= 123,
        33 <= t <= 123,
    ensures
        ({
            let q = position::compressed_extra(p, c, s, t);
            let gga = (t - 33) / 8 % 4 == 2;
            &&& c == 0x20 ==> q == p
            &&& c == 0x7b ==> q == (PositionView { range: Some(Range::Power((s - 33) as u8)), ..p })
            &&& 33 <= c < 0x7b && gga ==> q == (PositionView {
                altitude: Some(Altitude::PowerFeet((91 * (c - 33) + (s - 33)) as u16)),
                ..p
            })
            &&& 33 <= c < 0x7b && !gga ==> q.speed == Some(Speed::Power((s - 33) as u8))
                && q.course_deg is Some && 0 <= q.course_deg->0 < 360 && (4 * (c - 33)
                - q.course_deg->0) % 360 == 0 && q == (PositionView {
                course_deg: q.course_deg,
                speed: q.speed,
                ..p
            })
        }),
{
}

/// Seven bytes behind a position are course and speed where three digits and a slash
/// start them, a range where `RNG` does, and are passed over where `PHG` or `DFS`
/// does.
pub proof fn law_the_extension_behind_a_position(p: PositionView, tail: Seq<u8>)
    requires
        tail.len() >= 7,
    ensures
        ({
            let course = tail[3] == 0x2f && digit(tail[0]) && digit(tail[1]) && digit(tail[2]);
            let rng = tail[0] == 0x52 && tail[1] == 0x4e && tail[2] == 0x47;
            let phg = tail[0] == 0x50 && tail[1] == 0x48 && tail[2] == 0x47;
            let dfs = tail[0] == 0x44 && tail[1] == 0x46 && tail[2] == 0x53;
            let q = position::with_extension(p, tail);
            &&& position::extension_len(tail) == if course || rng || phg || dfs {
                7int
            } else {
                0
            }
            &&& course ==> {
                let deg = 100 * (tail[0] - 48) + 10 * (tail[1] - 48) + (tail[2] - 48);
                let knots = decimal::fixed_of(wire::shown(tail.subrange(4, 7)), 3);
                &&& deg == 0 ==> q.course_deg == p.course_deg
                &&& 0 < deg ==> q.course_deg is Some && 0 <= q.course_deg->0 < 360 && (deg
                    - q.course_deg->0) % 360 == 0
                &&& knots is Some ==> q.speed == Some(Speed::Knots(knots->0 as i64))
                &&& knots is None ==> q.speed == p.speed
                &&& q == (PositionView { course_deg: q.course_deg, speed: q.speed, ..p })
            }
            &&& rng ==> {
                let miles = decimal::fixed_of(wire::shown(tail.subrange(3, 7)), 3);
                &&& miles is Some ==> q == (PositionView {
                    range: Some(Range::Miles(miles->0 as i64)),
                    ..p
                })
                &&& miles is None ==> q == p
            }
            &&& !course && !rng ==> q == p
        }),
{
}

/// A report that is no weather station's has an extension, and in the text behind it
/// an altitude and a finer position, and the rest of that text is its comment.
pub proof fn law_what_the_tail_of_a_report_adds(p: PositionView, tail: Seq<u8>)
    ensures
        p.symbol.code != '_' ==> {
            let n = position::extension_len(tail);
            let a = position::with_altitude(
                position::with_extension(p, tail),
                wire::shown(tail.skip(n)),
            );
            let d = position::with_dao(a);
            position::finished(p, tail) == (PositionView { comment: text::trim(d.comment), ..d })
        },
        p.symbol.code == '_' ==> {
            let w = crate::aprs::weather::in_comment(tail);
            position::finished(p, tail) == (PositionView {
                weather: Some(w.0),
                comment: text::trim(wire::shown(tail.skip(w.1))),
                ..p
            })
        },
{
}

/// An altitude is six digits of feet behind the first `/A=` of a comment, and is cut
/// out of it.
pub proof fn law_an_altitude_in_a_comment(
    p: PositionView,
    before: Seq<char>,
    feet: Seq<char>,
    behind: Seq<char>,
)
    requires
        text::find_seq(before + "/A="@ + feet + behind, "/A="@, 0) == Some(before.len() as int),
        feet.len() == 6,
        forall|i: int| 0 <= i < 6 ==> '0' <= #[trigger] feet[i] <= '9',
    ensures
        position::with_altitude(p, before + "/A="@ + feet + behind) == (PositionView {
            altitude: Some(Altitude::Feet(decimal::val(feet) as u32)),
            comment: before + behind,
            ..p
        }),
{
    reveal_strlit("/A=");
    let c = before + "/A="@ + feet + behind;
    let i = before.len() as int;
    assert(c.subrange(i + 3, i + 9) =~= feet);
    assert(c.take(i) =~= before);
    assert(c.skip(i + 9) =~= behind);
}

proof fn lemma_dao_at(c: Seq<char>, from: int, i: int)
    requires
        0 <= from <= i,
        i + 4 < c.len(),
        c[i] == '!',
        c[i + 4] == '!',
        forall|j: int| from <= j < i ==> !(#[trigger] c[j] == '!' && c[j + 4] == '!'),
    ensures
        position::dao_at(c, from) == Some(i),
    decreases i - from,
{
    if from < i {
        assert(!(c[from] == '!' && c[from + 4] == '!'));
        lemma_dao_at(c, from + 1, i);
    }
}

/// Three characters between two marks make a position finer, away from the equator
/// and from Greenwich: by thousandths of a minute where the datum is a capital, by
/// 9100ths where it is a small letter. They are cut out of the comment.
pub proof fn law_a_position_is_made_finer(p: PositionView, i: int)
    requires
        0 <= i,
        i + 4 < p.comment.len(),
        p.comment[i] == '!',
        p.comment[i + 4] == '!',
        forall|j: int|
            0 <= j < i ==> !(#[trigger] p.comment[j] == '!' && p.comment[j + 4] == '!'),
        -200_000_000_000_000 <= p.pos.lat <= 200_000_000_000_000,
        -200_000_000_000_000 <= p.pos.lon <= 200_000_000_000_000,
    ensures
        ({
            let d = p.comment[i + 1];
            let a = p.comment[i + 2];
            let o = p.comment[i + 3];
            let q = position::with_dao(p);
            let capital = 'A' <= d <= 'Z' && '0' <= a <= '9' && '0' <= o <= '9';
            let small = 'a' <= d <= 'z' && '!' <= a <= '~' && '!' <= o <= '~';
            &&& !capital && !small ==> q == p
            &&& capital || small ==> {
                let dlat = if capital {
                    (a as int - 48) * 17_332_133
                } else {
                    (a as int - 33) * 1_904_630
                };
                let dlon = if capital {
                    (o as int - 48) * 17_332_133
                } else {
                    (o as int - 33) * 1_904_630
                };
                &&& q.pos.lat == if p.pos.lat < 0 {
                    p.pos.lat - dlat
                } else {
                    p.pos.lat + dlat
                }
                &&& q.pos.lon == if p.pos.lon < 0 {
                    p.pos.lon - dlon
                } else {
                    p.pos.lon + dlon
                }
                &&& q.pos.ambiguity == p.pos.ambiguity
                &&& q.comment == p.comment.take(i) + p.comment.skip(i + 5)
                &&& q == (PositionView { pos: q.pos, comment: q.comment, ..p })
            }
        }),
{
    lemma_dao_at(p.comment, 0, i);
}

/// A timestamp is day, hour and minute, in UTC or local, or hour, minute and second.
pub proof fn law_a_timestamp(b: Seq<u8>, x: int, y: int, z: int)
    requires
        b.len() == 7,
        0 <= x < 100,
        0 <= y < 100,
        0 <= z < 100,
        b[0] == 48 + x / 10 && b[1] == 48 + x % 10,
        b[2] == 48 + y / 10 && b[3] == 48 + y % 10,
        b[4] == 48 + z / 10 && b[5] == 48 + z % 10,
        b[6] < 128,
    ensures
        b[6] == 0x7a || b[6] == 0x5a ==> position::stamp(b) == Some(
            Timestamp {
                day: Some(x as u8),
                hour: y as u8,
                minute: z as u8,
                second: None,
                zulu: true,
            },
        ),
        b[6] == 0x2f ==> position::stamp(b) == Some(
            Timestamp {
                day: Some(x as u8),
                hour: y as u8,
                minute: z as u8,
                second: None,
                zulu: false,
            },
        ),
        b[6] == 0x68 || b[6] == 0x48 ==> position::stamp(b) == Some(
            Timestamp {
                day: None,
                hour: x as u8,
                minute: y as u8,
                second: Some(z as u8),
                zulu: true,
            },
        ),
        b[6] != 0x7a && b[6] != 0x5a && b[6] != 0x2f && b[6] != 0x68 && b[6] != 0x48
            ==> position::stamp(b) is None,
{
    lemma_valid(b);
    assert(b.subrange(0, 2) =~= wire::bytes_of(report::two_digits(x)));
    assert(b.subrange(2, 4) =~= wire::bytes_of(report::two_digits(y)));
    assert(b.subrange(4, 6) =~= wire::bytes_of(report::two_digits(z)));
    report::lemma_two(x, b, 0);
    report::lemma_two(y, b, 2);
    report::lemma_two(z, b, 4);
}

/// A report with a timestamp is the report behind it, and the timestamp; an object is
/// a name nine wide, a mark of whether it is still there, a timestamp and a report.
pub proof fn law_where_the_timestamp_stands(rest: Seq<u8>)
    ensures
        rest.len() < 7 ==> position::reading(rest, true) is Err,
        rest.len() >= 7 ==> match position::reading(rest.skip(7), false) {
            Ok(p) => position::reading(rest, true) == Ok::<PositionView, Fault>(
                PositionView { timestamp: position::stamp(rest.subrange(0, 7)), ..p },
            ),
            Err(f) => position::reading(rest, true) == Err::<PositionView, Fault>(f),
        },
        rest.len() < 17 ==> position::object_reading(rest) is Err,
        rest.len() >= 17 && rest[9] != 0x2a && rest[9] != 0x5f ==> position::object_reading(rest)
            is Err,
        rest.len() >= 17 && (rest[9] == 0x2a || rest[9] == 0x5f) ==> match position::reading(
            rest.skip(17),
            false,
        ) {
            Ok(p) => position::object_reading(rest) == Ok::<(Seq<char>, bool, PositionView), Fault>(
                (
                    text::trim(wire::shown(rest.subrange(0, 9))),
                    rest[9] == 0x2a,
                    PositionView { timestamp: position::stamp(rest.subrange(10, 17)), ..p },
                ),
            ),
            Err(f) => position::object_reading(rest) == Err::<
                (Seq<char>, bool, PositionView),
                Fault,
            >(f),
        },
{
}

proof fn lemma_item_end(rest: Seq<u8>, from: int, k: int)
    requires
        0 <= from <= k < 10,
        k < rest.len(),
        rest[k] == 0x21 || rest[k] == 0x5f,
        forall|j: int| from <= j < k ==> #[trigger] rest[j] != 0x21 && rest[j] != 0x5f,
    ensures
        position::item_end(rest, from) == Some(k),
    decreases k - from,
{
    if from < k {
        assert(rest[from] != 0x21 && rest[from] != 0x5f);
        lemma_item_end(rest, from + 1, k);
    }
}

/// An item is a name of three to nine, ended by the mark of whether it is still
/// there, and a report.
pub proof fn law_an_item(rest: Seq<u8>, k: int)
    requires
        0 <= k < 10,
        k < rest.len(),
        rest[k] == 0x21 || rest[k] == 0x5f,
        forall|j: int| 0 <= j < k ==> #[trigger] rest[j] != 0x21 && rest[j] != 0x5f,
    ensures
        k < 3 ==> position::item_reading(rest) is Err,
        k >= 3 ==> match position::reading(rest.skip(k + 1), false) {
            Ok(p) => position::item_reading(rest) == Ok::<(Seq<char>, bool, PositionView), Fault>(
                (text::trim(wire::shown(rest.take(k))), rest[k] == 0x21, p),
            ),
            Err(f) => position::item_reading(rest) == Err::<(Seq<char>, bool, PositionView), Fault>(
                f,
            ),
        },
{
    lemma_item_end(rest, 0, k);
}

/// A comment without six digits of feet behind its first `/A=` stays as it is.
pub proof fn law_no_altitude_in_a_comment(p: PositionView, c: Seq<char>)
    ensures
        text::find_seq(c, "/A="@, 0) is None ==> position::with_altitude(p, c) == (PositionView {
            comment: c,
            ..p
        }),
        text::find_seq(c, "/A="@, 0) is Some && (text::find_seq(c, "/A="@, 0)->0 + 9 > c.len()
            || !decimal::all_digits(
            c.subrange(
                text::find_seq(c, "/A="@, 0)->0 + 3,
                text::find_seq(c, "/A="@, 0)->0 + 9,
            ),
        )) ==> position::with_altitude(p, c) == (PositionView { comment: c, ..p }),
{
}

proof fn lemma_no_dao(c: Seq<char>, from: int)
    requires
        0 <= from,
        forall|j: int| from <= j && j + 4 < c.len() ==> !(#[trigger] c[j] == '!'
            && c[j + 4] == '!'),
    ensures
        position::dao_at(c, from) is None,
    decreases c.len() - from,
{
    if from + 4 < c.len() {
        assert(!(c[from] == '!' && c[from + 4] == '!'));
        lemma_no_dao(c, from + 1);
    }
}

/// Without the two marks a report stays as it is.
pub proof fn law_no_marks_no_finer_position(p: PositionView)
    requires
        forall|j: int|
            0 <= j && j + 4 < p.comment.len() ==> !(#[trigger] p.comment[j] == '!' && p.comment[j
                + 4] == '!'),
    ensures
        position::with_dao(p) == p,
{
    lemma_no_dao(p.comment, 0);
}

/// A report that is too short in either form is refused, and so is none at all.
pub proof fn law_reports_that_are_cut_off(rest: Seq<u8>)
    ensures
        rest.len() == 0 ==> position::reading(rest, false) == Err::<PositionView, Fault>(
            Fault::Malformed("no position"@),
        ),
        0 < rest.len() < 19 && digit(rest[0]) ==> position::reading(rest, false) == Err::<
            PositionView,
            Fault,
        >(Fault::Malformed("truncated uncompressed position"@)),
        0 < rest.len() < 13 && !digit(rest[0]) ==> position::reading(rest, false) == Err::<
            PositionView,
            Fault,
        >(Fault::Malformed("truncated compressed position"@)),
        rest.len() < 7 ==> position::reading(rest, true) == Err::<PositionView, Fault>(
            Fault::Malformed("truncated timestamp"@),
        ),
{
}

/// A compressed number has no character outside of its digits.
pub proof fn law_other_compressed_reports_are_refused(rest: Seq<u8>, i: int)
    requires
        rest.len() >= 13,
        !digit(rest[0]),
        1 <= i < 9,
        rest[i] < 33 || rest[i] > 124,
        forall|j: int| 1 <= j < i ==> 33 <= #[trigger] rest[j] <= 124,
    ensures
        i < 5 ==> position::reading(rest, false) == Err::<PositionView, Fault>(
            Fault::Malformed("compressed latitude"@),
        ),
        i >= 5 ==> position::reading(rest, false) == Err::<PositionView, Fault>(
            Fault::Malformed("compressed longitude"@),
        ),
{
    let a = rest.subrange(1, 5);
    let b = rest.subrange(5, 9);
    if i < 5 {
        assert(a[i - 1] == rest[i]);
        assert(position::base91(a) is None);
    } else {
        assert forall|k: int| 0 <= k < 4 implies 33 <= #[trigger] a[k] <= 124 by {
            assert(a[k] == rest[k + 1]);
        }
        assert(position::base91(a) is Some);
        assert(b[i - 5] == rest[i]);
        assert(position::base91(b) is None);
    }
}

/// Degrees are any number, in hundredths and held far beyond the map; the words for
/// what is no number or has no end are that far too.
pub proof fn law_degrees_are_any_number(b: Seq<u8>, n: int)
    requires
        decimal::fixed_of(text::ascii(b), 2) == Some(n),
        !position::unbounded(text::ascii(b)),
    ensures
        -100_000_000 <= n <= 100_000_000 ==> position::degrees(b) == Some(n),
        n > 100_000_000 ==> position::degrees(b) == Some(100_000_000int),
        n < -100_000_000 ==> position::degrees(b) == Some(-100_000_000int),
{
}

/// What is neither a number nor such a word is no degrees.
pub proof fn law_other_words_are_no_degrees(b: Seq<u8>)
    ensures
        position::unbounded(text::ascii(b)) ==> position::degrees(b) == Some(100_000_000int),
        !position::unbounded(text::ascii(b)) && decimal::fixed_of(text::ascii(b), 2) is None
            ==> position::degrees(b) is None,
{
}

/// The width of the square that so many blank digits leave, in hundredths of a
/// minute.
pub proof fn law_how_much_blanks_leave_open(blanks: int)
    ensures
        blanks == 0 ==> position::span(blanks) == 0,
        blanks == 1 ==> position::span(blanks) == 10,
        blanks == 2 ==> position::span(blanks) == 100,
        blanks == 3 ==> position::span(blanks) == 1000,
        blanks == 4 ==> position::span(blanks) == 6000,
        1 <= blanks <= 4 ==> position::span(blanks) == 2 * middle(blanks),
{
}

} // verus!
