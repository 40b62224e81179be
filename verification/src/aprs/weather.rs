//! Weather reports, in the two places where they appear: inside a position
//! report whose symbol is the weather station, and alone in a frame of a station
//! that has already said where it is.
//!
//! The units on the wire are miles per hour, degrees Fahrenheit, hundredths of
//! an inch and tenths of a hectopascal. They are converted here, exactly.
use crate::aprs::{AprsError, Fault};
use crate::decimal;
use crate::text;
use vstd::prelude::*;

verus! {

broadcast use vstd::seq::group_seq_axioms;

/// What a weather station reads. A sensor that it does not have is no reading.
#[derive(Debug, Clone, Copy, PartialEq, Eq, Structural)]
pub struct AprsWeather {
    pub wind_dir_deg: Option<u16>,
    /// In hundredths of a millimetre a second.
    pub wind_speed: Option<i64>,
    /// In hundredths of a millimetre a second.
    pub wind_gust: Option<i64>,
    /// In ninths of a degree Celsius.
    pub temp: Option<i64>,
    /// In thousandths of a millimetre.
    pub rain_1h: Option<i64>,
    /// In thousandths of a millimetre.
    pub rain_24h: Option<i64>,
    /// In thousandths of a millimetre.
    pub rain_midnight: Option<i64>,
    pub humidity_pct: Option<u8>,
    /// In tenths of a hectopascal.
    pub pressure: Option<i64>,
}

/// No reading at all.
pub open spec fn nothing() -> AprsWeather {
    AprsWeather {
        wind_dir_deg: None,
        wind_speed: None,
        wind_gust: None,
        temp: None,
        rain_1h: None,
        rain_24h: None,
        rain_midnight: None,
        humidity_pct: None,
        pressure: None,
    }
}

impl Default for AprsWeather {
    fn default() -> (r: Self)
        ensures
            r == nothing(),
    {
        AprsWeather {
            wind_dir_deg: None,
            wind_speed: None,
            wind_gust: None,
            temp: None,
            rain_1h: None,
            rain_24h: None,
            rain_midnight: None,
            humidity_pct: None,
            pressure: None,
        }
    }
}

/// A number of a field, blank where the station has no such sensor. No field is
/// wide enough for a number that is held here.
pub open spec fn number(b: Seq<u8>) -> Option<int> {
    if !vstd::utf8::valid_utf8(b) {
        None
    } else {
        let s = text::trim(vstd::utf8::decode_utf8(b));
        if s.len() == 0 || s.contains('.') || s == "-"@ {
            None
        } else {
            match decimal::fixed_of(s, 0) {
                Some(n) => Some(held(n, -1_000_000_000_000, 1_000_000_000_000)),
                None => None,
            }
        }
    }
}

pub open spec fn held(n: int, low: int, high: int) -> int {
    if n < low {
        low
    } else if n > high {
        high
    } else {
        n
    }
}

pub open spec fn scaled(v: Option<int>, by: int) -> Option<i64> {
    match v {
        Some(n) => Some((n * by) as i64),
        None => None,
    }
}

pub open spec fn direction(v: Option<int>) -> Option<u16> {
    match v {
        Some(n) => Some((held(n, 0, 65535) % 360) as u16),
        None => None,
    }
}

/// Degrees Fahrenheit in ninths of a degree Celsius.
pub open spec fn celsius(v: Option<int>) -> Option<i64> {
    match v {
        Some(f) => Some(((f - 32) * 5) as i64),
        None => None,
    }
}

/// Humidity is sent modulo a hundred: zero is a saturated atmosphere.
pub open spec fn humidity(v: Option<int>) -> Option<u8> {
    match v {
        Some(n) => Some(
            if n == 0 {
                100u8
            } else {
                held(n, 0, 255) as u8
            },
        ),
        None => None,
    }
}

/// How many characters a field has behind its key, if it is one.
pub open spec fn field_width(key: u8) -> Option<int> {
    if key == 0x63 || key == 0x73 || key == 0x67 || key == 0x74 || key == 0x72 || key == 0x70
        || key == 0x50 || key == 0x4c || key == 0x6c || key == 0x23 {
        Some(3)
    } else if key == 0x68 {
        Some(2)
    } else if key == 0x62 {
        Some(5)
    } else {
        None
    }
}

/// What a field may hold: digits and a sign, or the dots and spaces of a sensor
/// that is not there.
pub open spec fn numeric(b: Seq<u8>) -> bool {
    forall|i: int|
        0 <= i < b.len() ==> {
            let c = #[trigger] b[i];
            (0x30 <= c <= 0x39) || c == 0x2e || c == 0x20 || c == 0x2d
        }
}

/// The length of the field at `i`, key and all, if there is one.
pub open spec fn field_at(b: Seq<u8>, i: int) -> Option<int> {
    if i >= b.len() {
        None
    } else {
        match field_width(b[i]) {
            None => None,
            Some(w) => if i + 1 + w <= b.len() && numeric(b.subrange(i + 1, i + 1 + w)) {
                Some(1 + w)
            } else {
                None
            },
        }
    }
}

/// The readings with one more field. The first `s` is the wind where that is not
/// known yet; a later one is snow, which is passed over.
pub open spec fn with_field(
    w: AprsWeather,
    wind_seen: bool,
    key: u8,
    v: Option<int>,
) -> (AprsWeather, bool) {
    if key == 0x63 {
        (AprsWeather { wind_dir_deg: direction(v), ..w }, wind_seen)
    } else if key == 0x73 {
        if wind_seen {
            (w, true)
        } else {
            (AprsWeather { wind_speed: scaled(v, 44704), ..w }, true)
        }
    } else if key == 0x67 {
        (AprsWeather { wind_gust: scaled(v, 44704), ..w }, wind_seen)
    } else if key == 0x74 {
        (AprsWeather { temp: celsius(v), ..w }, wind_seen)
    } else if key == 0x72 {
        (AprsWeather { rain_1h: scaled(v, 254), ..w }, wind_seen)
    } else if key == 0x70 {
        (AprsWeather { rain_24h: scaled(v, 254), ..w }, wind_seen)
    } else if key == 0x50 {
        (AprsWeather { rain_midnight: scaled(v, 254), ..w }, wind_seen)
    } else if key == 0x68 {
        (AprsWeather { humidity_pct: humidity(v), ..w }, wind_seen)
    } else if key == 0x62 {
        (AprsWeather { pressure: scaled(v, 1), ..w }, wind_seen)
    } else {
        (w, wind_seen)
    }
}

/// The readings of the fields from `i` on, and where the fields end.
pub open spec fn scan(b: Seq<u8>, i: int, w: AprsWeather, wind_seen: bool) -> (AprsWeather, int)
    decreases b.len() - i,
{
    match field_at(b, i) {
        None => (w, i),
        Some(n) => if n <= 0 {
            (w, i)
        } else {
            let (next, seen) = with_field(
                w,
                wind_seen,
                b[i],
                number(b.subrange(i + 1, i + n)),
            );
            scan(b, i + n, next, seen)
        },
    }
}

/// The wind at the start of a comment, in the place of course and speed, and
/// how long it is.
pub open spec fn wind_first(tail: Seq<u8>) -> (AprsWeather, int) {
    if tail.len() >= 7 && tail[3] == 0x2f {
        (
            AprsWeather {
                wind_dir_deg: direction(number(tail.subrange(0, 3))),
                wind_speed: scaled(number(tail.subrange(4, 7)), 44704),
                ..nothing()
            },
            7,
        )
    } else {
        (nothing(), 0)
    }
}

/// The weather in a comment, and where the comment proper begins.
pub open spec fn in_comment(tail: Seq<u8>) -> (AprsWeather, int) {
    let (w, n) = wind_first(tail);
    let rest = tail.skip(n);
    let (all, used) = scan(rest, 0, w, w.wind_speed is Some);
    (all, n + used)
}

/// A weather frame without its first byte: a timestamp of eight digits, then the
/// fields.
pub open spec fn reading(rest: Seq<u8>) -> Result<AprsWeather, Fault> {
    if rest.len() < 8 {
        Err(Fault::Malformed("truncated weather report"@))
    } else {
        let w = scan(rest.skip(8), 0, nothing(), false).0;
        if w == nothing() {
            Err(Fault::Malformed("weather report carried no readings"@))
        } else {
            Ok(w)
        }
    }
}

fn num(b: &[u8]) -> (r: Option<i64>)
    ensures
        match number(b@) {
            Some(n) => r matches Some(x) && x == n && -1_000_000_000_000 <= n <= 1_000_000_000_000,
            None => r is None,
        },
{
    let s: Vec<char> = match text::from_utf8(b) {
        Some(s) => text::trim_chars(text::chars_of(s.as_str()).as_slice()),
        None => {
            return None;
        },
    };
    if s.len() == 0 {
        return None;
    }
    let dot: usize = text::find_char(s.as_slice(), '.');
    if dot < s.len() {
        assert(s@.contains('.'));
        return None;
    }
    assert(!s@.contains('.'));
    proof {
        reveal_strlit("-");
        if s@.len() == 1 && s@[0] == '-' {
            assert(s@ =~= "-"@);
        }
    }
    if s.len() == 1 && s[0] == '-' {
        return None;
    }
    match decimal::parse_fixed(s.as_slice(), 0) {
        Some(n) => {
            if n < -1_000_000_000_000 {
                Some(-1_000_000_000_000)
            } else if n > 1_000_000_000_000 {
                Some(1_000_000_000_000)
            } else {
                Some(n)
            }
        },
        None => None,
    }
}

/// The number of a field, in another unit.
fn scale(v: Option<i64>, by: i64) -> (r: Option<i64>)
    requires
        v matches Some(n) ==> -1_000_000_000_000 <= n <= 1_000_000_000_000,
        0 < by <= 44704,
    ensures
        r == scaled(
            match v {
                Some(n) => Some(n as int),
                None => None,
            },
            by as int,
        ),
{
    match v {
        Some(n) => {
            assert(-100_000_000_000_000_000 <= n * by <= 100_000_000_000_000_000)
                by (nonlinear_arith)
                requires
                    -1_000_000_000_000 <= n <= 1_000_000_000_000,
                    0 < by <= 44704,
            ;
            Some(n * by)
        },
        None => None,
    }
}

fn wind_direction(v: Option<i64>) -> (r: Option<u16>)
    ensures
        r == direction(
            match v {
                Some(n) => Some(n as int),
                None => None,
            },
        ),
{
    match v {
        Some(n) => {
            let d: i64 = if n < 0 {
                0
            } else if n > 65535 {
                65535
            } else {
                n
            };
            Some((d % 360) as u16)
        },
        None => None,
    }
}

fn width_of(key: u8) -> (r: Option<usize>)
    ensures
        match field_width(key) {
            Some(w) => r matches Some(k) && k == w && 2 <= k <= 5,
            None => r is None,
        },
{
    if key == 0x63 || key == 0x73 || key == 0x67 || key == 0x74 || key == 0x72 || key == 0x70 || key
        == 0x50 || key == 0x4c || key == 0x6c || key == 0x23 {
        Some(3)
    } else if key == 0x68 {
        Some(2)
    } else if key == 0x62 {
        Some(5)
    } else {
        None
    }
}

fn is_numeric(b: &[u8]) -> (r: bool)
    ensures
        r == numeric(b@),
{
    let mut i: usize = 0;
    while i < b.len()
        invariant
            i <= b@.len(),
            forall|k: int|
                0 <= k < i ==> {
                    let c = #[trigger] b@[k];
                    (0x30 <= c <= 0x39) || c == 0x2e || c == 0x20 || c == 0x2d
                },
        decreases b@.len() - i,
    {
        let c: u8 = b[i];
        if !((0x30 <= c && c <= 0x39) || c == 0x2e || c == 0x20 || c == 0x2d) {
            assert(b@[i as int] == c);
            return false;
        }
        i += 1;
    }
    true
}

/// Takes one field into the readings; gives back whether the wind is known.
fn take_field(w: &mut AprsWeather, wind_seen: bool, key: u8, v: Option<i64>) -> (r: bool)
    requires
        v matches Some(n) ==> -1_000_000_000_000 <= n <= 1_000_000_000_000,
    ensures
        (*final(w), r) == with_field(
            *old(w),
            wind_seen,
            key,
            match v {
                Some(n) => Some(n as int),
                None => None,
            },
        ),
{
    if key == 0x63 {
        w.wind_dir_deg = wind_direction(v);
    } else if key == 0x73 {
        if !wind_seen {
            w.wind_speed = scale(v, 44704);
        }
        return true;
    } else if key == 0x67 {
        w.wind_gust = scale(v, 44704);
    } else if key == 0x74 {
        w.temp = match v {
            Some(f) => Some((f - 32) * 5),
            None => None,
        };
    } else if key == 0x72 {
        w.rain_1h = scale(v, 254);
    } else if key == 0x70 {
        w.rain_24h = scale(v, 254);
    } else if key == 0x50 {
        w.rain_midnight = scale(v, 254);
    } else if key == 0x68 {
        w.humidity_pct = match v {
            Some(n) => if n == 0 {
                Some(100)
            } else if n < 0 {
                Some(0)
            } else if n > 255 {
                Some(255)
            } else {
                Some(n as u8)
            },
            None => None,
        };
    } else if key == 0x62 {
        w.pressure = scale(v, 1);
    }
    wind_seen
}

/// Scans the fields, and says how many bytes they took. A letter that no number
/// follows is the start of the comment.
fn fields(b: &[u8], w: &mut AprsWeather) -> (r: usize)
    ensures
        (*final(w), r as int) == scan(b@, 0, *old(w), old(w).wind_speed is Some),
        r <= b@.len(),
{
    let mut wind_seen: bool = w.wind_speed.is_some();
    let ghost start = *w;
    let mut i: usize = 0;
    while i < b.len()
        invariant_except_break
            i <= b@.len(),
            scan(b@, i as int, *w, wind_seen) == scan(b@, 0, start, start.wind_speed is Some),
        ensures
            i <= b@.len(),
            (*w, i as int) == scan(b@, 0, start, start.wind_speed is Some),
        decreases b@.len() - i,
    {
        let key: u8 = b[i];
        let width: usize = match width_of(key) {
            Some(k) => k,
            None => {
                break;
            },
        };
        if b.len() - i < 1 + width {
            break;
        }
        let field: Vec<u8> = text::copy_bytes(b, i + 1, i + 1 + width);
        if !is_numeric(field.as_slice()) {
            break;
        }
        let v: Option<i64> = num(field.as_slice());
        wind_seen = take_field(w, wind_seen, key, v);
        i = i + 1 + width;
    }
    i
}

/// Reads the weather out of a comment: the wind in the place of course and
/// speed, then the fields. The comment proper starts where the second result
/// says.
pub fn parse_in_comment(tail: &[u8]) -> (r: (AprsWeather, usize))
    ensures
        (r.0, r.1 as int) == in_comment(tail@),
        r.1 <= tail@.len(),
{
    let mut w: AprsWeather = AprsWeather::default();
    let mut n: usize = 0;
    if tail.len() >= 7 && tail[3] == 0x2f {
        let dir: Vec<u8> = text::copy_bytes(tail, 0, 3);
        let speed: Vec<u8> = text::copy_bytes(tail, 4, 7);
        w.wind_dir_deg = wind_direction(num(dir.as_slice()));
        w.wind_speed = scale(num(speed.as_slice()), 44704);
        n = 7;
    }
    let rest: Vec<u8> = text::copy_bytes(tail, n, tail.len());
    assert(rest@ =~= tail@.skip(n as int));
    let used: usize = fields(rest.as_slice(), &mut w);
    (w, n + used)
}

/// Reads a weather frame without its first byte.
pub fn parse_positionless(rest: &[u8]) -> (r: Result<AprsWeather, AprsError>)
    ensures
        match reading(rest@) {
            Ok(w) => r matches Ok(v) && v == w,
            Err(f) => r matches Err(e) && e@ == f,
        },
{
    if rest.len() < 8 {
        return Err(AprsError::Malformed("truncated weather report"));
    }
    let mut w: AprsWeather = AprsWeather::default();
    let body: Vec<u8> = text::copy_bytes(rest, 8, rest.len());
    assert(body@ =~= rest@.skip(8));
    let _ = fields(body.as_slice(), &mut w);
    if w == AprsWeather::default() {
        return Err(AprsError::Malformed("weather report carried no readings"));
    }
    Ok(w)
}

/// A field that is blank is no reading, whatever its key: it never becomes a
/// zero.
pub proof fn law_a_blank_field_is_no_reading(b: Seq<u8>)
    requires
        forall|i: int| 0 <= i < b.len() ==> #[trigger] b[i] == 0x2e || b[i] == 0x20,
    ensures
        number(b) is None,
{
    assert forall|i: int| 0 <= i < b.len() implies #[trigger] b[i] < 128 by {
        assert(b[i] == 0x2e || b[i] == 0x20);
    }
    text::lemma_ascii_reads_as_it_is(b);
    let s = text::ascii(b);
    assert forall|i: int| 0 <= i < s.len() implies #[trigger] s[i] == '.' || s[i] == ' ' by {
        assert(b[i] == 0x2e || b[i] == 0x20);
    }
    lemma_trimmed_blank(s);
}

proof fn lemma_trimmed_blank(s: Seq<char>)
    requires
        forall|i: int| 0 <= i < s.len() ==> #[trigger] s[i] == '.' || s[i] == ' ',
    ensures
        text::trim(s).len() == 0 || text::trim(s).contains('.'),
    decreases s.len(),
{
    if s.len() > 0 {
        if s[0] == ' ' {
            assert forall|i: int| 0 <= i < s.drop_first().len() implies #[trigger] s.drop_first()[i]
                == '.' || s.drop_first()[i] == ' ' by {
                assert(s[i + 1] == '.' || s[i + 1] == ' ');
            }
            lemma_trimmed_blank(s.drop_first());
        } else {
            assert(s[0] == '.');
            lemma_trim_back_keeps_first(s);
            assert(text::trim(s)[0] == '.');
        }
    }
}

proof fn lemma_trim_back_keeps_first(s: Seq<char>)
    requires
        s.len() > 0,
        !text::is_white(s[0]),
    ensures
        text::trim_back(s).len() > 0,
        text::trim_back(s)[0] == s[0],
    decreases s.len(),
{
    if text::is_white(s.last()) {
        lemma_trim_back_keeps_first(s.drop_last());
    }
}

} // verus!
