//! What a station transmits of where it is, and how it reads back.
use crate::aprs;
use crate::aprs::position;
use crate::aprs::position::{
    AprsPosition, AprsSymbol, PositionView, Timestamp, DEGREE, HUNDREDTH, LAT_COUNT, LON_COUNT,
};
use crate::aprs::wire;
use crate::aprs::wire::Class;
use crate::aprs::{DataView, Fault};
use crate::decimal;
use crate::text;
use vstd::prelude::*;

verus! {

broadcast use vstd::seq::group_seq_axioms;

/// The highest latitude that is written out: a hair short of the pole.
pub const LAT_CAP: i64 = 93_593_507_800_720;

/// The highest longitude that is written out.
pub const LON_CAP: i64 = 187_187_026_000_720;

/// How many counts a compressed field has.
pub const COUNTS: i64 = 68_574_961;

/// Two digits.
pub open spec fn two_digits(n: int) -> Seq<char> {
    seq![text::digit(n / 10 % 10), text::digit(n % 10)]
}

/// Three digits.
pub open spec fn three_digits(n: int) -> Seq<char> {
    seq![text::digit(n / 100 % 10), text::digit(n / 10 % 10), text::digit(n % 10)]
}

/// The number of hundredths of a minute that is nearest to an angle; between two
/// that are as near, the even one.
pub open spec fn nearest(a: int) -> int {
    let q = a / (HUNDREDTH as int);
    let r = a % (HUNDREDTH as int);
    if 2 * r > HUNDREDTH {
        q + 1
    } else if 2 * r == HUNDREDTH {
        q + q % 2
    } else {
        q
    }
}

/// How far from zero, at most so far.
pub open spec fn size(x: int, cap: int) -> int {
    let a = if x < 0 {
        -x
    } else {
        x
    };
    if a > cap {
        cap
    } else {
        a
    }
}

pub open spec fn minutes_text(m: int) -> Seq<char> {
    two_digits(m / 100) + seq!['.'] + two_digits(m % 100)
}

/// `DDMM.hhN`.
pub open spec fn lat_text(lat: int) -> Seq<char> {
    let a = size(lat, LAT_CAP as int);
    two_digits(a / (DEGREE as int)) + minutes_text(nearest(a % (DEGREE as int))) + seq![
        if lat < 0 {
            'S'
        } else {
            'N'
        },
    ]
}

/// `DDDMM.hhE`.
pub open spec fn lon_text(lon: int) -> Seq<char> {
    let a = size(lon, LON_CAP as int);
    three_digits(a / (DEGREE as int)) + minutes_text(nearest(a % (DEGREE as int))) + seq![
        if lon < 0 {
            'W'
        } else {
            'E'
        },
    ]
}

/// What a report may carry of a comment.
pub open spec fn comment_text(c: Seq<char>) -> Seq<char> {
    wire::first(wire::keep(c, Class::Comment), 43)
}

/// A position written out, and the comment behind it.
pub open spec fn body_text(pos: AprsPosition, symbol: AprsSymbol, comment: Seq<char>) -> Seq<char> {
    lat_text(pos.lat as int) + seq![symbol.table] + lon_text(pos.lon as int) + seq![symbol.code]
        + comment_text(comment)
}

/// At least two digits.
pub open spec fn pad2(n: nat) -> Seq<char> {
    if n < 10 {
        seq!['0'] + text::dec(n)
    } else {
        text::dec(n)
    }
}

/// `DDHHMMz`.
pub open spec fn stamp_text(day: u8, hour: u8, minute: u8) -> Seq<char> {
    pad2(day as nat) + pad2(hour as nat) + pad2(minute as nat) + seq!['z']
}

/// Four base-91 digits, the highest first.
#[verifier::opaque]
pub open spec fn base91_text(v: int) -> Seq<char> {
    seq![
        (33 + v / 753571 % 91) as char,
        (33 + v / 8281 % 91) as char,
        (33 + v / 91 % 91) as char,
        (33 + v % 91) as char,
    ]
}

/// How many counts are nearest to an angle, within what a field holds.
#[verifier::opaque]
pub open spec fn counts(a: int, count: int) -> int {
    if a <= 0 {
        0
    } else {
        let n = (2 * a + count) / (2 * count);
        if n >= COUNTS {
            COUNTS - 1
        } else {
            n
        }
    }
}

/// An overlay digit as the letter that it travels as.
pub open spec fn overlay_letter(c: char) -> char {
    if '0' <= c <= '9' {
        (c as int + 49) as char
    } else {
        c
    }
}

/// A compressed position, and the comment behind it.
pub open spec fn compressed_text(
    pos: AprsPosition,
    symbol: AprsSymbol,
    comment: Seq<char>,
) -> Seq<char> {
    seq![overlay_letter(symbol.table)] + base91_text(
        counts(90 * DEGREE - pos.lat, LAT_COUNT as int),
    ) + base91_text(counts(180 * DEGREE + pos.lon, LON_COUNT as int)) + seq![
        symbol.code,
        ' ',
        ' ',
        '!',
    ] + comment_text(comment)
}

/// An object's name: nine wide.
pub open spec fn name_text(name: Seq<char>) -> Seq<char> {
    wire::padded(wire::first(wire::keep(name, Class::Name), 9), 9)
}

fn push_all(s: &mut String, v: &Vec<char>)
    ensures
        final(s)@ == old(s)@ + v@,
{
    s.append(text::string_of(v.as_slice()).as_str());
}

fn digit_char(d: u64) -> (r: char)
    requires
        d < 10,
    ensures
        r == text::digit(d as int),
{
    (48 + d as u8) as char
}

fn push_two(s: &mut String, n: u64)
    ensures
        final(s)@ == old(s)@ + two_digits(n as int),
{
    s.push(digit_char(n / 10 % 10));
    s.push(digit_char(n % 10));
    assert(s@ =~= old(s)@ + two_digits(n as int));
}

fn push_three(s: &mut String, n: u64)
    ensures
        final(s)@ == old(s)@ + three_digits(n as int),
{
    s.push(digit_char(n / 100 % 10));
    s.push(digit_char(n / 10 % 10));
    s.push(digit_char(n % 10));
    assert(s@ =~= old(s)@ + three_digits(n as int));
}

fn size_of(x: i64, cap: i64) -> (r: u64)
    requires
        0 <= cap <= LON_CAP,
    ensures
        r == size(x as int, cap as int),
        r <= cap,
{
    if x > cap || x < -cap {
        cap as u64
    } else if x < 0 {
        (-x) as u64
    } else {
        x as u64
    }
}

fn nearest_of(a: u64) -> (r: u64)
    requires
        a < DEGREE,
    ensures
        r == nearest(a as int),
        r <= 6000,
{
    let h: u64 = HUNDREDTH as u64;
    let q: u64 = a / h;
    let r: u64 = a % h;
    if 2 * r > h {
        q + 1
    } else if 2 * r == h {
        q + q % 2
    } else {
        q
    }
}

fn push_minutes(s: &mut String, m: u64)
    ensures
        final(s)@ == old(s)@ + minutes_text(m as int),
{
    push_two(s, m / 100);
    s.push('.');
    push_two(s, m % 100);
    assert(s@ =~= old(s)@ + minutes_text(m as int));
}

/// `DDMM.hhN`.
pub fn fmt_lat(lat: i64) -> (r: String)
    ensures
        r@ == lat_text(lat as int),
{
    let a: u64 = size_of(lat, LAT_CAP);
    let mut s = String::new();
    push_two(&mut s, a / DEGREE as u64);
    push_minutes(&mut s, nearest_of(a % DEGREE as u64));
    s.push(if lat < 0 { 'S' } else { 'N' });
    assert(s@ =~= lat_text(lat as int));
    s
}

/// `DDDMM.hhE`.
pub fn fmt_lon(lon: i64) -> (r: String)
    ensures
        r@ == lon_text(lon as int),
{
    let a: u64 = size_of(lon, LON_CAP);
    let mut s = String::new();
    push_three(&mut s, a / DEGREE as u64);
    push_minutes(&mut s, nearest_of(a % DEGREE as u64));
    s.push(if lon < 0 { 'W' } else { 'E' });
    assert(s@ =~= lon_text(lon as int));
    s
}

fn clean_comment(c: &str) -> (r: Vec<char>)
    ensures
        r@ == comment_text(c@),
{
    wire::first_chars(&wire::keep_chars(text::chars_of(c).as_slice(), Class::Comment), 43)
}

fn push_body(s: &mut String, pos: AprsPosition, symbol: AprsSymbol, comment: &str)
    ensures
        final(s)@ == old(s)@ + body_text(pos, symbol, comment@),
{
    s.append(fmt_lat(pos.lat).as_str());
    s.push(symbol.table);
    s.append(fmt_lon(pos.lon).as_str());
    s.push(symbol.code);
    push_all(s, &clean_comment(comment));
    assert(s@ =~= old(s)@ + body_text(pos, symbol, comment@));
}

fn push_pad2(s: &mut String, n: u8)
    ensures
        final(s)@ == old(s)@ + pad2(n as nat),
{
    if n < 10 {
        s.push('0');
    }
    text::push_dec(s, n as u64);
    assert(s@ =~= old(s)@ + pad2(n as nat));
}

fn push_stamp(s: &mut String, at: (u8, u8, u8))
    ensures
        final(s)@ == old(s)@ + stamp_text(at.0, at.1, at.2),
{
    push_pad2(s, at.0);
    push_pad2(s, at.1);
    push_pad2(s, at.2);
    s.push('z');
    assert(s@ =~= old(s)@ + stamp_text(at.0, at.1, at.2));
}

/// A position report that is written out. Its first byte says whether the station
/// takes messages.
pub fn encode_position(
    pos: AprsPosition,
    symbol: AprsSymbol,
    comment: &str,
    messaging: bool,
) -> (r: String)
    ensures
        r@ == seq![
            if messaging {
                '='
            } else {
                '!'
            },
        ] + body_text(pos, symbol, comment@),
{
    let mut s = String::new();
    s.push(if messaging { '=' } else { '!' });
    let ghost head = s@;
    push_body(&mut s, pos, symbol, comment);
    assert(head =~= seq![
        if messaging {
            '='
        } else {
            '!'
        },
    ]);
    s
}

/// The same with a timestamp: the day, the hour and the minute.
pub fn encode_position_ts(
    pos: AprsPosition,
    symbol: AprsSymbol,
    comment: &str,
    messaging: bool,
    at: (u8, u8, u8),
) -> (r: String)
    ensures
        r@ == seq![
            if messaging {
                '@'
            } else {
                '/'
            },
        ] + stamp_text(at.0, at.1, at.2) + body_text(pos, symbol, comment@),
{
    let mut s = String::new();
    s.push(if messaging { '@' } else { '/' });
    let ghost head = s@;
    push_stamp(&mut s, at);
    push_body(&mut s, pos, symbol, comment);
    assert(head =~= seq![
        if messaging {
            '@'
        } else {
            '/'
        },
    ]);
    s
}

fn count_of(a: i128, count: i64) -> (r: u32)
    requires
        1 <= count <= 10_000_000,
        -0x1_0000_0000_0000_0000_0000 <= a <= 0x1_0000_0000_0000_0000_0000,
    ensures
        r == counts(a as int, count as int),
        r < COUNTS,
{
    proof {
        reveal(counts);
    }
    if a <= 0 {
        return 0;
    }
    let n: i128 = (2 * a + count as i128) / (2 * count as i128);
    assert(n >= 0) by (nonlinear_arith)
        requires
            a > 0,
            count >= 1,
            n == (2 * a + count) / (2 * count),
    ;
    if n >= COUNTS as i128 {
        (COUNTS - 1) as u32
    } else {
        n as u32
    }
}

fn push_base91(s: &mut String, v: u32)
    ensures
        final(s)@ == old(s)@ + base91_text(v as int),
{
    proof {
        reveal(base91_text);
    }
    s.push((33 + (v / 753571 % 91) as u8) as char);
    s.push((33 + (v / 8281 % 91) as u8) as char);
    s.push((33 + (v / 91 % 91) as u8) as char);
    s.push((33 + (v % 91) as u8) as char);
    assert(s@ =~= old(s)@ + base91_text(v as int));
}

/// A compressed position report: shorter and finer than one that is written out.
pub fn encode_compressed_position(
    pos: AprsPosition,
    symbol: AprsSymbol,
    comment: &str,
    messaging: bool,
) -> (r: String)
    ensures
        r@ == seq![
            if messaging {
                '='
            } else {
                '!'
            },
        ] + compressed_text(pos, symbol, comment@),
{
    let mut s = String::new();
    s.push(if messaging { '=' } else { '!' });
    let table: char = if '0' <= symbol.table && symbol.table <= '9' {
        (symbol.table as u8 + 49) as char
    } else {
        symbol.table
    };
    s.push(table);
    push_base91(&mut s, count_of(90 * DEGREE as i128 - pos.lat as i128, LAT_COUNT));
    push_base91(&mut s, count_of(180 * DEGREE as i128 + pos.lon as i128, LON_COUNT));
    s.push(symbol.code);
    s.push(' ');
    s.push(' ');
    s.push('!');
    push_all(&mut s, &clean_comment(comment));
    assert(s@ =~= seq![
        if messaging {
            '='
        } else {
            '!'
        },
    ] + compressed_text(pos, symbol, comment@));
    s
}

/// An object report.
pub fn encode_object(
    name: &str,
    live: bool,
    pos: AprsPosition,
    symbol: AprsSymbol,
    comment: &str,
    at: (u8, u8, u8),
) -> (r: String)
    ensures
        r@ == seq![';'] + name_text(name@) + seq![
            if live {
                '*'
            } else {
                '_'
            },
        ] + stamp_text(at.0, at.1, at.2) + body_text(pos, symbol, comment@),
{
    let kept: Vec<char> = wire::keep_chars(text::chars_of(name).as_slice(), Class::Name);
    let field: Vec<char> = wire::pad(&wire::first_chars(&kept, 9), 9);
    let mut s = String::new();
    s.push(';');
    push_all(&mut s, &field);
    s.push(if live { '*' } else { '_' });
    let ghost head = s@;
    push_stamp(&mut s, at);
    push_body(&mut s, pos, symbol, comment);
    assert(head =~= seq![';'] + name_text(name@) + seq![
        if live {
            '*'
        } else {
            '_'
        },
    ]);
    s
}

/// A comment that holds nothing but itself: no extension, no altitude, and no
/// finer position.
pub open spec fn bare(c: Seq<char>) -> bool {
    &&& position::extension_len(wire::bytes_of(c)) == 0
    &&& position::altitude_at(c) is None
    &&& match position::dao_at(c, 0) {
        Some(i) => position::dao_shift(c[i + 1], c[i + 2], c[i + 3]) is None,
        None => true,
    }
}

/// A symbol that a report can carry.
pub open spec fn sendable(symbol: AprsSymbol) -> bool {
    &&& 0 <= symbol.table as int <= 0x7f
    &&& 0 <= symbol.code as int <= 0x7f
    &&& symbol.code != '_'
}

/// A written angle as it reads back.
pub open spec fn written(x: int, cap: int) -> int {
    let a = size(x, cap);
    let r = a / (DEGREE as int) * DEGREE + nearest(a % (DEGREE as int)) * HUNDREDTH;
    if x < 0 {
        -r
    } else {
        r
    }
}

/// A report as it reads back.
pub open spec fn read_back(pos: AprsPosition, symbol: AprsSymbol, comment: Seq<char>) -> PositionView {
    PositionView {
        comment: text::trim(comment_text(comment)),
        ..position::plain_at(
            AprsPosition {
                lat: written(pos.lat as int, LAT_CAP as int) as i64,
                lon: written(pos.lon as int, LON_CAP as int) as i64,
                ambiguity: 0,
            },
            symbol,
        )
    }
}

proof fn lemma_comment(c: Seq<char>)
    ensures
        forall|i: int|
            0 <= i < comment_text(c).len() ==> Class::Name.has(#[trigger] comment_text(c)[i]),
        comment_text(c).len() <= 43,
{
    wire::lemma_keep_holds(c, Class::Comment);
    assert forall|i: int| 0 <= i < comment_text(c).len() implies Class::Name.has(
        #[trigger] comment_text(c)[i],
    ) by {
        assert(Class::Comment.has(wire::keep(c, Class::Comment)[i]));
    }
}

/// What stands behind a position is its comment and nothing else.
proof fn lemma_finished(p: PositionView, comment: Seq<char>)
    requires
        p.symbol.code != '_',
        bare(comment_text(comment)),
    ensures
        position::finished(p, wire::bytes_of(comment_text(comment))) == (PositionView {
            comment: text::trim(comment_text(comment)),
            ..p
        }),
{
    let c = comment_text(comment);
    lemma_comment(comment);
    wire::lemma_shown(c);
    assert(wire::bytes_of(c).skip(0) =~= wire::bytes_of(c));
}

pub proof fn lemma_val_two(a: char, b: char)
    requires
        text::is_digit(a),
        text::is_digit(b),
    ensures
        decimal::val(seq![a, b]) == 10 * (a as int - 48) + (b as int - 48),
        decimal::all_digits(seq![a, b]),
{
    let s = seq![a, b];
    assert(s.drop_last() =~= seq![a]);
    assert(seq![a].drop_last() =~= Seq::<char>::empty());
    reveal_with_fuel(decimal::val, 3);
}

pub proof fn lemma_val_three(a: char, b: char, c: char)
    requires
        text::is_digit(a),
        text::is_digit(b),
        text::is_digit(c),
    ensures
        decimal::val(seq![a, b, c]) == 100 * (a as int - 48) + 10 * (b as int - 48) + (c as int
            - 48),
        decimal::all_digits(seq![a, b, c]),
{
    let s = seq![a, b, c];
    assert(s.drop_last() =~= seq![a, b]);
    lemma_val_two(a, b);
}

proof fn lemma_pow_100()
    ensures
        vstd::arithmetic::power::pow(10, 2) == 100,
{
    reveal_with_fuel(vstd::arithmetic::power::pow, 3);
}

proof fn lemma_bounded(s: Seq<char>)
    requires
        s.len() > 0,
        text::is_digit(s[0]),
    ensures
        !position::unbounded(s),
{
    reveal_strlit("inf");
    reveal_strlit("nan");
    let l = Seq::new(s.len(), |i: int| position::lower(s[i]));
    assert(l[0] == s[0]);
}

/// The bytes of two digits read as degrees.
pub proof fn lemma_two_degrees(n: int)
    requires
        0 <= n < 100,
    ensures
        position::degrees(wire::bytes_of(two_digits(n))) == Some(100 * n),
{
    let s = two_digits(n);
    assert(text::is_digit(s[0]) && text::is_digit(s[1]));
    wire::lemma_ascii_bytes(s);
    lemma_bounded(s);
    lemma_val_two(s[0], s[1]);
    assert(s =~= seq![s[0], s[1]]);
    lemma_pow_100();
    decimal::lemma_fixed_of_digits(s, 2);
}

/// The bytes of three digits read as degrees.
pub proof fn lemma_three_degrees(n: int)
    requires
        0 <= n < 1000,
    ensures
        position::degrees(wire::bytes_of(three_digits(n))) == Some(100 * n),
{
    let s = three_digits(n);
    assert(text::is_digit(s[0]) && text::is_digit(s[1]) && text::is_digit(s[2]));
    wire::lemma_ascii_bytes(s);
    lemma_bounded(s);
    lemma_val_three(s[0], s[1], s[2]);
    assert(s =~= seq![s[0], s[1], s[2]]);
    lemma_pow_100();
    decimal::lemma_fixed_of_digits(s, 2);
}

/// The bytes of minutes read as the minutes.
proof fn lemma_minutes(m: int)
    requires
        0 <= m <= 6000,
    ensures
        minutes_text(m).len() == 5,
        position::minutes(wire::bytes_of(minutes_text(m))) == Some((m, 0int)),
        wire::ascii_only(minutes_text(m)),
{
    let s = minutes_text(m);
    let b = wire::bytes_of(s);
    assert(s[0] == text::digit(m / 100 / 10 % 10) && s[1] == text::digit(m / 100 % 10));
    assert(s[2] == '.');
    assert(s[3] == text::digit(m % 100 / 10 % 10) && s[4] == text::digit(m % 100 % 10));
    assert(b[0] == 48 + m / 100 / 10 % 10);
    assert(b[1] == 48 + m / 100 % 10);
    assert(b[3] == 48 + m % 100 / 10 % 10);
    assert(b[4] == 48 + m % 100 % 10);
    assert(m == 1000 * (m / 100 / 10 % 10) + 100 * (m / 100 % 10) + 10 * (m % 100 / 10 % 10) + (m
        % 100 % 10));
}

proof fn lemma_nearest(a: int)
    requires
        0 <= a < DEGREE,
    ensures
        0 <= nearest(a) <= 6000,
        -HUNDREDTH <= 2 * (nearest(a) * HUNDREDTH - a) <= HUNDREDTH,
{
}

proof fn lemma_lat(lat: int)
    ensures
        lat_text(lat).len() == 8,
        wire::ascii_only(lat_text(lat)),
        '0' <= lat_text(lat)[0] <= '9',
        position::latitude(wire::bytes_of(lat_text(lat))) == Ok::<(int, int), Fault>(
            (written(lat, LAT_CAP as int), 0int),
        ),
        -90 * DEGREE <= written(lat, LAT_CAP as int) <= 90 * DEGREE,
{
    let a = size(lat, LAT_CAP as int);
    let d = a / (DEGREE as int);
    let f = a % (DEGREE as int);
    let m = nearest(f);
    assert(0 <= d <= 89 && 0 <= f < DEGREE);
    lemma_nearest(f);
    lemma_minutes(m);
    lemma_two_degrees(d);
    let s = lat_text(lat);
    let b = wire::bytes_of(s);
    assert(s[0] == text::digit(d / 10 % 10) && s[1] == text::digit(d % 10));
    assert forall|i: int| 0 <= i < s.len() implies 0 <= (#[trigger] s[i]) as int <= 0x7f by {
        if 2 <= i < 7 {
            assert(s[i] == minutes_text(m)[i - 2]);
        }
    }
    assert(b.subrange(0, 2) =~= wire::bytes_of(two_digits(d)));
    assert(b.subrange(2, 7) =~= wire::bytes_of(minutes_text(m)));
    wire::lemma_ascii_bytes(s);
    let head = b.subrange(0, 7);
    assert forall|i: int| 0 <= i < head.len() implies #[trigger] head[i] < 128 by {
        assert(b[i] < 128);
    }
    text::lemma_ascii_reads_as_it_is(head);
    assert(b[7] == if lat < 0 {
        0x53u8
    } else {
        0x4eu8
    });
}

proof fn lemma_lon(lon: int)
    ensures
        lon_text(lon).len() == 9,
        wire::ascii_only(lon_text(lon)),
        position::longitude(wire::bytes_of(lon_text(lon))) == Ok::<int, Fault>(
            written(lon, LON_CAP as int),
        ),
        -180 * DEGREE <= written(lon, LON_CAP as int) <= 180 * DEGREE,
{
    let a = size(lon, LON_CAP as int);
    let d = a / (DEGREE as int);
    let f = a % (DEGREE as int);
    let m = nearest(f);
    assert(0 <= d <= 179 && 0 <= f < DEGREE);
    lemma_nearest(f);
    lemma_minutes(m);
    lemma_three_degrees(d);
    let s = lon_text(lon);
    let b = wire::bytes_of(s);
    assert(s[0] == text::digit(d / 100 % 10) && s[1] == text::digit(d / 10 % 10) && s[2]
        == text::digit(d % 10));
    assert forall|i: int| 0 <= i < s.len() implies 0 <= (#[trigger] s[i]) as int <= 0x7f by {
        if 3 <= i < 8 {
            assert(s[i] == minutes_text(m)[i - 3]);
        }
    }
    assert(b.subrange(0, 3) =~= wire::bytes_of(three_digits(d)));
    assert(b.subrange(3, 8) =~= wire::bytes_of(minutes_text(m)));
    wire::lemma_ascii_bytes(s);
    let head = b.subrange(0, 8);
    assert forall|i: int| 0 <= i < head.len() implies #[trigger] head[i] < 128 by {
        assert(b[i] < 128);
    }
    text::lemma_ascii_reads_as_it_is(head);
    assert(b[8] == if lon < 0 {
        0x57u8
    } else {
        0x45u8
    });
}

/// A written position and its comment read back.
proof fn lemma_body(pos: AprsPosition, symbol: AprsSymbol, comment: Seq<char>)
    requires
        sendable(symbol),
        bare(comment_text(comment)),
    ensures
        wire::ascii_only(body_text(pos, symbol, comment)),
        position::body(wire::bytes_of(body_text(pos, symbol, comment))) == Ok::<
            PositionView,
            Fault,
        >(read_back(pos, symbol, comment)),
{
    let lat = pos.lat as int;
    let lon = pos.lon as int;
    let c = comment_text(comment);
    lemma_lat(lat);
    lemma_lon(lon);
    lemma_comment(comment);
    let s = body_text(pos, symbol, comment);
    let b = wire::bytes_of(s);
    assert forall|i: int| 0 <= i < s.len() implies 0 <= (#[trigger] s[i]) as int <= 0x7f by {
        if i < 8 {
            assert(s[i] == lat_text(lat)[i]);
        } else if 9 <= i < 18 {
            assert(s[i] == lon_text(lon)[i - 9]);
        } else if i >= 19 {
            assert(s[i] == c[i - 19]);
            assert(Class::Name.has(c[i - 19]));
        }
    }
    assert(b.subrange(0, 8) =~= wire::bytes_of(lat_text(lat)));
    assert(b.subrange(9, 18) =~= wire::bytes_of(lon_text(lon)));
    assert(b.skip(19) =~= wire::bytes_of(c));
    assert(s[0] == lat_text(lat)[0]);
    assert(s[8] == symbol.table && s[18] == symbol.code);
    assert(b[8] as char == symbol.table && b[18] as char == symbol.code);
    let p = position::plain_at(
        AprsPosition {
            lat: written(lat, LAT_CAP as int) as i64,
            lon: written(lon, LON_CAP as int) as i64,
            ambiguity: 0,
        },
        symbol,
    );
    assert(AprsSymbol { table: b[8] as char, code: b[18] as char } == symbol);
    lemma_finished(p, comment);
}

/// A position that is written out reads back: where it was, to the nearest
/// hundredth of a minute, with its symbol, its comment, and whether the station
/// takes messages.
pub proof fn law_position_reads_back(
    dest: Seq<char>,
    pos: AprsPosition,
    symbol: AprsSymbol,
    comment: Seq<char>,
    messaging: bool,
)
    requires
        sendable(symbol),
        bare(comment_text(comment)),
    ensures
        aprs::reading(
            dest,
            vstd::utf8::encode_utf8(
                seq![
                    if messaging {
                        '='
                    } else {
                        '!'
                    },
                ] + body_text(pos, symbol, comment),
            ),
        ) == Ok::<DataView, Fault>(
            DataView::Position(PositionView { messaging, ..read_back(pos, symbol, comment) }),
        ),
{
    lemma_body(pos, symbol, comment);
    lemma_headed(
        dest,
        body_text(pos, symbol, comment),
        messaging,
        read_back(pos, symbol, comment),
    );
}

proof fn lemma_pad2(n: nat)
    requires
        n < 100,
    ensures
        pad2(n) == two_digits(n as int),
{
    reveal_with_fuel(text::dec, 3);
    assert(pad2(n) =~= two_digits(n as int));
}

pub proof fn lemma_two(n: int, b: Seq<u8>, at: int)
    requires
        0 <= n < 100,
        0 <= at,
        at + 2 <= b.len(),
        b.subrange(at, at + 2) == wire::bytes_of(two_digits(n)),
    ensures
        position::two(b, at) == Some(n as u8),
{
    let s = two_digits(n);
    assert(text::is_digit(s[0]) && text::is_digit(s[1]));
    wire::lemma_ascii_bytes(s);
    lemma_val_two(s[0], s[1]);
    assert(s =~= seq![s[0], s[1]]);
}

/// A timestamp reads back.
proof fn lemma_stamp(day: u8, hour: u8, minute: u8)
    requires
        day < 100,
        hour < 100,
        minute < 100,
    ensures
        stamp_text(day, hour, minute).len() == 7,
        wire::ascii_only(stamp_text(day, hour, minute)),
        position::stamp(wire::bytes_of(stamp_text(day, hour, minute))) == Some(
            Timestamp { day: Some(day), hour, minute, second: None, zulu: true },
        ),
{
    lemma_pad2(day as nat);
    lemma_pad2(hour as nat);
    lemma_pad2(minute as nat);
    let s = stamp_text(day, hour, minute);
    let b = wire::bytes_of(s);
    assert(s =~= two_digits(day as int) + two_digits(hour as int) + two_digits(minute as int)
        + seq!['z']);
    assert(b.subrange(0, 2) =~= wire::bytes_of(two_digits(day as int)));
    assert(b.subrange(2, 4) =~= wire::bytes_of(two_digits(hour as int)));
    assert(b.subrange(4, 6) =~= wire::bytes_of(two_digits(minute as int)));
    lemma_two(day as int, b, 0);
    lemma_two(hour as int, b, 2);
    lemma_two(minute as int, b, 4);
    wire::lemma_ascii_bytes(s);
    text::lemma_ascii_reads_as_it_is(b);
    assert(b[6] == 0x7a);
}

/// A position with a timestamp reads back with its timestamp.
#[verifier::rlimit(40)]
pub proof fn law_position_with_timestamp_reads_back(
    dest: Seq<char>,
    pos: AprsPosition,
    symbol: AprsSymbol,
    comment: Seq<char>,
    messaging: bool,
    at: (u8, u8, u8),
)
    requires
        sendable(symbol),
        bare(comment_text(comment)),
        at.0 < 100,
        at.1 < 100,
        at.2 < 100,
    ensures
        aprs::reading(
            dest,
            vstd::utf8::encode_utf8(
                seq![
                    if messaging {
                        '@'
                    } else {
                        '/'
                    },
                ] + stamp_text(at.0, at.1, at.2) + body_text(pos, symbol, comment),
            ),
        ) == Ok::<DataView, Fault>(
            DataView::Position(
                PositionView {
                    messaging,
                    timestamp: Some(
                        Timestamp {
                            day: Some(at.0),
                            hour: at.1,
                            minute: at.2,
                            second: None,
                            zulu: true,
                        },
                    ),
                    ..read_back(pos, symbol, comment)
                },
            ),
        ),
{
    lemma_body(pos, symbol, comment);
    lemma_stamp(at.0, at.1, at.2);
    let body = body_text(pos, symbol, comment);
    let stamp = stamp_text(at.0, at.1, at.2);
    let s = seq![
        if messaging {
            '@'
        } else {
            '/'
        },
    ] + stamp + body;
    assert forall|i: int| 0 <= i < s.len() implies 0 <= (#[trigger] s[i]) as int <= 0x7f by {
        if 1 <= i < 8 {
            assert(s[i] == stamp[i - 1]);
        } else if i >= 8 {
            assert(s[i] == body[i - 8]);
        }
    }
    wire::lemma_ascii_bytes(s);
    let rest = wire::bytes_of(s).skip(1);
    assert(rest.subrange(0, 7) =~= wire::bytes_of(stamp));
    assert(rest.skip(7) =~= wire::bytes_of(body));
}

proof fn lemma_name(name: Seq<char>)
    ensures
        name_text(name).len() == 9,
        forall|i: int| 0 <= i < 9 ==> Class::Name.has(#[trigger] name_text(name)[i]),
{
    wire::lemma_keep_holds(name, Class::Name);
    let f = wire::first(wire::keep(name, Class::Name), 9);
    assert forall|i: int| 0 <= i < f.len() implies Class::Name.has(#[trigger] f[i]) by {
        assert(Class::Name.has(wire::keep(name, Class::Name)[i]));
    }
}

/// An object reads back under its name, however short.
#[verifier::rlimit(40)]
pub proof fn law_object_reads_back(
    dest: Seq<char>,
    name: Seq<char>,
    live: bool,
    pos: AprsPosition,
    symbol: AprsSymbol,
    comment: Seq<char>,
    at: (u8, u8, u8),
)
    requires
        sendable(symbol),
        bare(comment_text(comment)),
        at.0 < 100,
        at.1 < 100,
        at.2 < 100,
    ensures
        aprs::reading(
            dest,
            vstd::utf8::encode_utf8(
                seq![';'] + name_text(name) + seq![
                    if live {
                        '*'
                    } else {
                        '_'
                    },
                ] + stamp_text(at.0, at.1, at.2) + body_text(pos, symbol, comment),
            ),
        ) == Ok::<DataView, Fault>(
            DataView::Object {
                name: text::trim(name_text(name)),
                live,
                pos: PositionView {
                    timestamp: Some(
                        Timestamp {
                            day: Some(at.0),
                            hour: at.1,
                            minute: at.2,
                            second: None,
                            zulu: true,
                        },
                    ),
                    ..read_back(pos, symbol, comment)
                },
            },
        ),
{
    lemma_body(pos, symbol, comment);
    lemma_stamp(at.0, at.1, at.2);
    lemma_name(name);
    let body = body_text(pos, symbol, comment);
    let stamp = stamp_text(at.0, at.1, at.2);
    let n = name_text(name);
    let s = seq![';'] + n + seq![
        if live {
            '*'
        } else {
            '_'
        },
    ] + stamp + body;
    assert forall|i: int| 0 <= i < s.len() implies 0 <= (#[trigger] s[i]) as int <= 0x7f by {
        if 1 <= i < 10 {
            assert(s[i] == n[i - 1]);
            assert(Class::Name.has(n[i - 1]));
        } else if 11 <= i < 18 {
            assert(s[i] == stamp[i - 11]);
        } else if i >= 18 {
            assert(s[i] == body[i - 18]);
        }
    }
    wire::lemma_ascii_bytes(s);
    wire::lemma_shown(n);
    let rest = wire::bytes_of(s).skip(1);
    assert(rest.subrange(0, 9) =~= wire::bytes_of(n));
    assert(rest[9] == if live {
        0x2au8
    } else {
        0x5fu8
    });
    assert(rest.subrange(10, 17) =~= wire::bytes_of(stamp));
    assert(rest.skip(17) =~= wire::bytes_of(body));
}

proof fn lemma_base91(v: int)
    requires
        0 <= v < COUNTS,
    ensures
        position::base91(wire::bytes_of(base91_text(v))) == Some(v),
        wire::ascii_only(base91_text(v)),
        base91_text(v).len() == 4,
{
    reveal(base91_text);
    let s = base91_text(v);
    let b = wire::bytes_of(s);
    assert(b[0] == 33 + v / 753571 % 91);
    assert(b[1] == 33 + v / 8281 % 91);
    assert(b[2] == 33 + v / 91 % 91);
    assert(b[3] == 33 + v % 91);
    assert(v == 753571 * (v / 753571 % 91) + 8281 * (v / 8281 % 91) + 91 * (v / 91 % 91) + v % 91);
}

/// The nearest count is half a count away at most.
proof fn lemma_counts(a: int, count: int)
    requires
        count == LAT_COUNT || count == LON_COUNT,
        0 <= a,
        a <= 68_566_680 * count,
    ensures
        0 <= counts(a, count) <= 68_566_680,
        -count <= 2 * (counts(a, count) * count - a) <= count,
{
    reveal(counts);
    let n = (2 * a + count) / (2 * count);
    if count == LAT_COUNT {
        assert(n == (2 * a + 2_730_000) / 5_460_000);
        assert(counts(a, count) == n);
    } else {
        assert(n == (2 * a + 5_460_000) / 10_920_000);
        assert(counts(a, count) == n);
    }
    assert(n * count == count * n) by (nonlinear_arith);
}

/// The compressed position of two counts.
#[verifier::opaque]
spec fn counted_text(y: int, x: int, symbol: AprsSymbol, comment: Seq<char>) -> Seq<char> {
    seq![overlay_letter(symbol.table)] + base91_text(y) + base91_text(x) + seq![
        symbol.code,
        ' ',
        ' ',
        '!',
    ] + comment_text(comment)
}

proof fn lemma_compressed_chars(y: int, x: int, symbol: AprsSymbol, comment: Seq<char>)
    requires
        0 <= y < COUNTS,
        0 <= x < COUNTS,
        sendable(symbol),
    ensures
        wire::ascii_only(counted_text(y, x, symbol, comment)),
        counted_text(y, x, symbol, comment).len() >= 13,
{
    reveal(counted_text);
    lemma_base91(y);
    lemma_base91(x);
    lemma_comment(comment);
    let c = comment_text(comment);
    let s = counted_text(y, x, symbol, comment);
    let yt = base91_text(y);
    let xt = base91_text(x);
    assert forall|i: int| 0 <= i < s.len() implies 0 <= (#[trigger] s[i]) as int <= 0x7f by {
        if 1 <= i < 5 {
            assert(s[i] == yt[i - 1]);
        } else if 5 <= i < 9 {
            assert(s[i] == xt[i - 5]);
        } else if i >= 13 {
            assert(s[i] == c[i - 13]);
            assert(Class::Name.has(c[i - 13]));
        }
    }
}

/// A compressed position reads as its counts.
proof fn lemma_compressed_body(y: int, x: int, symbol: AprsSymbol, comment: Seq<char>)
    requires
        0 <= y <= 68_566_680,
        0 <= x <= 68_566_680,
        sendable(symbol),
        !('a' <= symbol.table <= 'j'),
        bare(comment_text(comment)),
    ensures
        position::body(wire::bytes_of(counted_text(y, x, symbol, comment))) == Ok::<
            PositionView,
            Fault,
        >(
            PositionView {
                comment: text::trim(comment_text(comment)),
                ..position::plain_at(
                    AprsPosition {
                        lat: (90 * DEGREE - y * LAT_COUNT) as i64,
                        lon: (x * LON_COUNT - 180 * DEGREE) as i64,
                        ambiguity: 0,
                    },
                    symbol,
                )
            },
        ),
{
    let c = comment_text(comment);
    let yt = base91_text(y);
    let xt = base91_text(x);
    let rest = wire::bytes_of(counted_text(y, x, symbol, comment));
    lemma_base91(y);
    lemma_base91(x);
    assert(rest.len() >= 13 && rest[0] == overlay_letter(symbol.table) as u8 && rest.subrange(1, 5)
        =~= wire::bytes_of(yt) && rest.subrange(5, 9) =~= wire::bytes_of(xt) && rest[9]
        == symbol.code as u8 && rest[10] == 0x20 && rest.skip(13) =~= wire::bytes_of(c)) by {
        reveal(counted_text);
    }
    assert(rest[9] as char == symbol.code);
    assert(position::overlay(rest[0]) == symbol.table);
    let p = position::plain_at(
        AprsPosition {
            lat: (90 * DEGREE - y * LAT_COUNT) as i64,
            lon: (x * LON_COUNT - 180 * DEGREE) as i64,
            ambiguity: 0,
        },
        symbol,
    );
    assert(AprsSymbol { table: position::overlay(rest[0]), code: rest[9] as char } == symbol);
    lemma_finished(p, comment);
}

/// The first character of a report says whether the station takes messages.
spec fn headed(body: Seq<char>, messaging: bool) -> Seq<char> {
    seq![
        if messaging {
            '='
        } else {
            '!'
        },
    ] + body
}

/// A position behind that character reads as a report.
proof fn lemma_headed(dest: Seq<char>, body: Seq<char>, messaging: bool, p: PositionView)
    requires
        wire::ascii_only(body),
        position::body(wire::bytes_of(body)) == Ok::<PositionView, Fault>(p),
    ensures
        aprs::reading(dest, vstd::utf8::encode_utf8(headed(body, messaging))) == Ok::<
            DataView,
            Fault,
        >(DataView::Position(PositionView { messaging, ..p })),
{
    let s = headed(body, messaging);
    assert forall|i: int| 0 <= i < s.len() implies 0 <= (#[trigger] s[i]) as int <= 0x7f by {
        if i > 0 {
            assert(s[i] == body[i - 1]);
        }
    }
    wire::lemma_ascii_bytes(s);
    assert(wire::bytes_of(s).skip(1) =~= wire::bytes_of(body));
}

/// Two counts behind that character read as a report.
proof fn lemma_counted(
    dest: Seq<char>,
    y: int,
    x: int,
    symbol: AprsSymbol,
    comment: Seq<char>,
    messaging: bool,
)
    requires
        0 <= y <= 68_566_680,
        0 <= x <= 68_566_680,
        sendable(symbol),
        !('a' <= symbol.table <= 'j'),
        bare(comment_text(comment)),
    ensures
        aprs::reading(
            dest,
            vstd::utf8::encode_utf8(headed(counted_text(y, x, symbol, comment), messaging)),
        ) == Ok::<DataView, Fault>(
            DataView::Position(
                PositionView {
                    messaging,
                    comment: text::trim(comment_text(comment)),
                    ..position::plain_at(
                        AprsPosition {
                            lat: (90 * DEGREE - y * LAT_COUNT) as i64,
                            lon: (x * LON_COUNT - 180 * DEGREE) as i64,
                            ambiguity: 0,
                        },
                        symbol,
                    )
                },
            ),
        ),
{
    lemma_compressed_chars(y, x, symbol, comment);
    lemma_compressed_body(y, x, symbol, comment);
    let p = PositionView {
        comment: text::trim(comment_text(comment)),
        ..position::plain_at(
            AprsPosition {
                lat: (90 * DEGREE - y * LAT_COUNT) as i64,
                lon: (x * LON_COUNT - 180 * DEGREE) as i64,
                ambiguity: 0,
            },
            symbol,
        )
    };
    lemma_headed(dest, counted_text(y, x, symbol, comment), messaging, p);
}

/// What is written of a position is its two counts.
proof fn lemma_compressed_text(pos: AprsPosition, symbol: AprsSymbol, comment: Seq<char>)
    ensures
        compressed_text(pos, symbol, comment) == counted_text(
            counts(90 * DEGREE - pos.lat, LAT_COUNT as int),
            counts(180 * DEGREE + pos.lon, LON_COUNT as int),
            symbol,
            comment,
        ),
{
    reveal(counted_text);
}

/// A compressed position reads back: where it was, to the nearest count, with
/// its symbol, an overlay as the digit that it is, and its comment.
pub proof fn law_compressed_position_reads_back(
    dest: Seq<char>,
    pos: AprsPosition,
    symbol: AprsSymbol,
    comment: Seq<char>,
    messaging: bool,
)
    requires
        position::on_map(pos),
        sendable(symbol),
        !('a' <= symbol.table <= 'j'),
        bare(comment_text(comment)),
    ensures
        ({
            let y = counts(90 * DEGREE - pos.lat, LAT_COUNT as int);
            let x = counts(180 * DEGREE + pos.lon, LON_COUNT as int);
            let lat = 90 * DEGREE - y * LAT_COUNT;
            let lon = x * LON_COUNT - 180 * DEGREE;
            &&& aprs::reading(
                dest,
                vstd::utf8::encode_utf8(
                    seq![
                        if messaging {
                            '='
                        } else {
                            '!'
                        },
                    ] + compressed_text(pos, symbol, comment),
                ),
            ) == Ok::<DataView, Fault>(
                DataView::Position(
                    PositionView {
                        messaging,
                        comment: text::trim(comment_text(comment)),
                        ..position::plain_at(
                            AprsPosition { lat: lat as i64, lon: lon as i64, ambiguity: 0 },
                            symbol,
                        )
                    },
                ),
            )
            &&& -LAT_COUNT <= 2 * (lat - pos.lat) <= LAT_COUNT
            &&& -LON_COUNT <= 2 * (lon - pos.lon) <= LON_COUNT
        }),
{
    let y = counts(90 * DEGREE - pos.lat, LAT_COUNT as int);
    let x = counts(180 * DEGREE + pos.lon, LON_COUNT as int);
    lemma_counts(90 * DEGREE - pos.lat, LAT_COUNT as int);
    lemma_counts(180 * DEGREE + pos.lon, LON_COUNT as int);
    lemma_compressed_text(pos, symbol, comment);
    lemma_counted(dest, y, x, symbol, comment, messaging);
}

/// What is written out is half a hundredth of a minute from where it was at most.
pub proof fn law_writing_keeps_half_a_hundredth(x: int, cap: int)
    requires
        cap == LAT_CAP || cap == LON_CAP,
        -cap <= x <= cap,
    ensures
        -HUNDREDTH <= 2 * (written(x, cap) - x) <= HUNDREDTH,
{
    let a = size(x, cap);
    lemma_nearest(a % (DEGREE as int));
}

} // verus!
