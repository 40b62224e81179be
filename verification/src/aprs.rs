//! APRS, the Automatic Packet Reporting System, as a codec.
//!
//! What travels on the air is an AX.25 UI frame; what is APRS is the information
//! field inside it. This module is that field: bytes in, an `AprsData` out, and
//! the other way round for what a station transmits.
use crate::aprs::message::{Message, MessageView};
use crate::aprs::position::{AprsPosition, AprsSymbol, Position, PositionView};
use crate::aprs::telemetry::{Telemetry, TelemetryView};
use crate::aprs::weather::AprsWeather;
use crate::text;
use vstd::prelude::*;

pub mod laws;
pub mod message;
pub mod mice;
pub mod mice_laws;
pub mod path;
pub mod position;
pub mod position_laws;
pub mod report;
pub mod report_laws;
pub mod telemetry;
pub mod weather;
pub mod wire;

verus! {

broadcast use vstd::seq::group_seq_axioms;

/// Why an information field could not be read.
#[derive(Debug, Clone, Copy, PartialEq, Eq)]
pub enum AprsError {
    Empty,
    /// The first byte is a data type identifier that nothing here reads.
    UnknownType(char),
    Malformed(&'static str),
}

/// An error as it is spoken of.
pub enum Fault {
    Empty,
    UnknownType(char),
    Malformed(Seq<char>),
}

impl View for AprsError {
    type V = Fault;

    open spec fn view(&self) -> Fault {
        match *self {
            AprsError::Empty => Fault::Empty,
            AprsError::UnknownType(c) => Fault::UnknownType(c),
            AprsError::Malformed(s) => Fault::Malformed(s@),
        }
    }
}

impl AprsError {
    /// The error in words.
    pub fn text(&self) -> (r: String)
        ensures
            r@ == match *self {
                AprsError::Empty => "empty information field"@,
                AprsError::UnknownType(c) => "unhandled data type '"@.push(c).push('\''),
                AprsError::Malformed(s) => s@,
            },
    {
        match self {
            AprsError::Empty => "empty information field".to_owned(),
            AprsError::UnknownType(c) => {
                let mut s = "unhandled data type '".to_owned();
                s.push(*c);
                s.push('\'');
                s
            },
            AprsError::Malformed(t) => (*t).to_owned(),
        }
    }
}

/// One decoded information field.
#[derive(Debug, Clone, PartialEq)]
pub enum AprsData {
    /// A station says where it is.
    Position(Box<Position>),
    /// A station says where something else is, under a name of its own.
    Object { name: String, live: bool, pos: Box<Position> },
    /// An object without a timestamp.
    Item { name: String, live: bool, pos: Box<Position> },
    /// A message, an acknowledgement or a rejection.
    Message(Message),
    /// One line of text about the station itself.
    Status(String),
    /// Weather without a position.
    Weather(Box<AprsWeather>),
    /// Five analogue channels and eight bits.
    Telemetry(Box<Telemetry>),
    /// A query.
    Query(String),
    /// A Maidenhead locator.
    Grid { grid: String, symbol: AprsSymbol, comment: String },
}

/// A decoded field as it is spoken of.
pub enum DataView {
    Position(PositionView),
    Object { name: Seq<char>, live: bool, pos: PositionView },
    Item { name: Seq<char>, live: bool, pos: PositionView },
    Message(MessageView),
    Status(Seq<char>),
    Weather(AprsWeather),
    Telemetry(TelemetryView),
    Query(Seq<char>),
    Grid { grid: Seq<char>, symbol: AprsSymbol, comment: Seq<char> },
}

impl View for AprsData {
    type V = DataView;

    open spec fn view(&self) -> DataView {
        match *self {
            AprsData::Position(p) => DataView::Position(p@),
            AprsData::Object { name, live, pos } => DataView::Object {
                name: name@,
                live,
                pos: pos@,
            },
            AprsData::Item { name, live, pos } => DataView::Item { name: name@, live, pos: pos@ },
            AprsData::Message(m) => DataView::Message(m@),
            AprsData::Status(s) => DataView::Status(s@),
            AprsData::Weather(w) => DataView::Weather(*w),
            AprsData::Telemetry(t) => DataView::Telemetry(t@),
            AprsData::Query(s) => DataView::Query(s@),
            AprsData::Grid { grid, symbol, comment } => DataView::Grid {
                grid: grid@,
                symbol,
                comment: comment@,
            },
        }
    }
}

impl DataView {
    /// The word for what a field turned out to be.
    pub open spec fn word(self) -> Seq<char> {
        match self {
            DataView::Position(p) => if p.weather is Some {
                "weather"@
            } else {
                "position"@
            },
            DataView::Object { .. } => "object"@,
            DataView::Item { .. } => "item"@,
            DataView::Message(m) => m.kind.name(),
            DataView::Status(_) => "status"@,
            DataView::Weather(_) => "weather"@,
            DataView::Telemetry(_) => "telemetry"@,
            DataView::Query(_) => "query"@,
            DataView::Grid { .. } => "grid"@,
        }
    }
}

impl AprsData {
    /// A word for what this turned out to be.
    pub fn kind(&self) -> (r: &'static str)
        ensures
            r@ == self@.word(),
    {
        match self {
            AprsData::Position(p) => if p.weather.is_some() {
                "weather"
            } else {
                "position"
            },
            AprsData::Object { .. } => "object",
            AprsData::Item { .. } => "item",
            AprsData::Message(m) => m.kind.label(),
            AprsData::Status(_) => "status",
            AprsData::Weather(_) => "weather",
            AprsData::Telemetry(_) => "telemetry",
            AprsData::Query(_) => "query",
            AprsData::Grid { .. } => "grid",
        }
    }

    /// The position that this carries, if any.
    pub fn position(&self) -> (r: Option<&Position>)
        ensures
            match self@ {
                DataView::Position(p) => r matches Some(q) && q@ == p,
                DataView::Object { pos, .. } => r matches Some(q) && q@ == pos,
                DataView::Item { pos, .. } => r matches Some(q) && q@ == pos,
                _ => r is None,
            },
    {
        match self {
            AprsData::Position(p) => Some(&**p),
            AprsData::Object { pos, .. } => Some(&**pos),
            AprsData::Item { pos, .. } => Some(&**pos),
            _ => None,
        }
    }
}

/// A grid report: the locator up to its bracket, then a comment.
pub open spec fn grid_reading(rest: Seq<u8>) -> DataView {
    let t = wire::shown(rest);
    let k = text::find(t, ']');
    let symbol = AprsSymbol { table: '/', code: '-' };
    if k < t.len() {
        DataView::Grid { grid: t.take(k), symbol, comment: text::trim(t.skip(k + 1)) }
    } else {
        DataView::Grid { grid: text::trim(t), symbol, comment: Seq::empty() }
    }
}

/// A position report as a decoded field.
pub open spec fn as_position(
    r: Result<PositionView, Fault>,
    messaging: bool,
) -> Result<DataView, Fault> {
    match r {
        Ok(p) => Ok(DataView::Position(PositionView { messaging, ..p })),
        Err(f) => Err(f),
    }
}

/// An information field under its destination address. The first byte says of
/// what kind it is.
pub open spec fn reading(dest: Seq<char>, info: Seq<u8>) -> Result<DataView, Fault> {
    if info.len() == 0 {
        Err(Fault::Empty)
    } else {
        let c = info[0];
        let rest = info.skip(1);
        if c == 0x21 || c == 0x3d {
            as_position(position::reading(rest, false), c == 0x3d)
        } else if c == 0x2f || c == 0x40 {
            as_position(position::reading(rest, true), c == 0x40)
        } else if c == 0x3b {
            match position::object_reading(rest) {
                Ok((name, live, pos)) => Ok(DataView::Object { name, live, pos }),
                Err(f) => Err(f),
            }
        } else if c == 0x29 {
            match position::item_reading(rest) {
                Ok((name, live, pos)) => Ok(DataView::Item { name, live, pos }),
                Err(f) => Err(f),
            }
        } else if c == 0x3a {
            match message::reading(rest) {
                Ok(m) => Ok(DataView::Message(m)),
                Err(f) => Err(f),
            }
        } else if c == 0x3e {
            Ok(DataView::Status(text::trim_back(wire::shown(rest))))
        } else if c == 0x5f {
            match weather::reading(rest) {
                Ok(w) => Ok(DataView::Weather(w)),
                Err(f) => Err(f),
            }
        } else if c == 0x54 {
            match telemetry::reading(rest) {
                Ok(t) => Ok(DataView::Telemetry(t)),
                Err(f) => Err(f),
            }
        } else if c == 0x3f {
            Ok(DataView::Query(text::trim_back(wire::shown(rest))))
        } else if c == 0x1c || c == 0x1d || c == 0x27 || c == 0x60 {
            match mice::reading(dest, rest) {
                Ok(p) => Ok(DataView::Position(p)),
                Err(f) => Err(f),
            }
        } else if c == 0x5b {
            Ok(grid_reading(rest))
        } else {
            Err(Fault::UnknownType(c as char))
        }
    }
}

fn grid_report(rest: &[u8]) -> (r: AprsData)
    ensures
        r@ == grid_reading(rest@),
{
    let t: Vec<char> = wire::printable(rest);
    let k: usize = text::find_char(t.as_slice(), ']');
    if k < t.len() {
        let grid: Vec<char> = text::copy_chars(t.as_slice(), 0, k);
        let tail: Vec<char> = text::copy_chars(t.as_slice(), k + 1, t.len());
        assert(grid@ =~= t@.take(k as int));
        assert(tail@ =~= t@.skip(k + 1));
        AprsData::Grid {
            grid: text::string_of(grid.as_slice()),
            symbol: AprsSymbol::default(),
            comment: text::string_of(text::trim_chars(tail.as_slice()).as_slice()),
        }
    } else {
        AprsData::Grid {
            grid: text::string_of(text::trim_chars(t.as_slice()).as_slice()),
            symbol: AprsSymbol::default(),
            comment: String::new(),
        }
    }
}

/// One line of text, without the white space at its end.
fn line(rest: &[u8]) -> (r: String)
    ensures
        r@ == text::trim_back(wire::shown(rest@)),
{
    text::string_of(text::trim_end_chars(wire::printable(rest).as_slice()).as_slice())
}

fn position_data(r: Result<Position, AprsError>, messaging: bool) -> (d: Result<
    AprsData,
    AprsError,
>)
    ensures
        match r {
            Ok(p) => d matches Ok(v) && v@ == DataView::Position(
                PositionView { messaging, ..p@ },
            ),
            Err(e) => d == Err::<AprsData, AprsError>(e),
        },
{
    match r {
        Ok(mut p) => {
            p.messaging = messaging;
            Ok(AprsData::Position(Box::new(p)))
        },
        Err(e) => Err(e),
    }
}

/// Reads one information field.
///
/// `dest` is the destination callsign, which Mic-E needs and every other format
/// passes over. `info` is the field as it was sent, which is not text.
pub fn parse(dest: &str, info: &[u8]) -> (r: Result<AprsData, AprsError>)
    ensures
        match reading(dest@, info@) {
            Ok(d) => r matches Ok(v) && v@ == d,
            Err(f) => r matches Err(e) && e@ == f,
        },
{
    if info.len() == 0 {
        return Err(AprsError::Empty);
    }
    let c: u8 = info[0];
    let tail: Vec<u8> = text::copy_bytes(info, 1, info.len());
    assert(tail@ =~= info@.skip(1));
    let rest: &[u8] = tail.as_slice();
    if c == 0x21 || c == 0x3d {
        position_data(position::parse_position(rest, false), c == 0x3d)
    } else if c == 0x2f || c == 0x40 {
        position_data(position::parse_position(rest, true), c == 0x40)
    } else if c == 0x3b {
        match position::parse_object(rest) {
            Ok((name, live, pos)) => Ok(AprsData::Object { name, live, pos: Box::new(pos) }),
            Err(e) => Err(e),
        }
    } else if c == 0x29 {
        match position::parse_item(rest) {
            Ok((name, live, pos)) => Ok(AprsData::Item { name, live, pos: Box::new(pos) }),
            Err(e) => Err(e),
        }
    } else if c == 0x3a {
        match message::parse(rest) {
            Ok(m) => Ok(AprsData::Message(m)),
            Err(e) => Err(e),
        }
    } else if c == 0x3e {
        Ok(AprsData::Status(line(rest)))
    } else if c == 0x5f {
        match weather::parse_positionless(rest) {
            Ok(w) => Ok(AprsData::Weather(Box::new(w))),
            Err(e) => Err(e),
        }
    } else if c == 0x54 {
        match telemetry::parse(rest) {
            Ok(t) => Ok(AprsData::Telemetry(Box::new(t))),
            Err(e) => Err(e),
        }
    } else if c == 0x3f {
        Ok(AprsData::Query(line(rest)))
    } else if c == 0x1c || c == 0x1d || c == 0x27 || c == 0x60 {
        match mice::parse(dest, rest) {
            Ok(p) => Ok(AprsData::Position(Box::new(p))),
            Err(e) => Err(e),
        }
    } else if c == 0x5b {
        Ok(grid_report(rest))
    } else {
        Err(AprsError::UnknownType(c as char))
    }
}

/// Where a Maidenhead locator puts a station, of the middle of its square: with
/// the ambiguity that a locator has. A locator of four characters is a degree
/// tall, one of six two and a half minutes.
pub fn position_from_grid(grid: &str, middle: Option<(i64, i64)>) -> (r: Option<AprsPosition>)
    ensures
        match middle {
            Some((lat, lon)) => r matches Some(p) && p.lat == lat && p.lon == lon && p.ambiguity
                == if text::utf8_len(text::trim(grid@)) >= 6 {
                3u8
            } else {
                4u8
            },
            None => r is None,
        },
{
    match middle {
        Some((lat, lon)) => {
            let t: Vec<char> = text::trim_chars(text::chars_of(grid).as_slice());
            let ambiguity: u8 = if text::byte_len(t.as_slice()) >= 6 { 3 } else { 4 };
            Some(AprsPosition { lat, lon, ambiguity })
        },
        None => None,
    }
}

/// A message with an identifier, read as a whole field: see
/// [`message::law_message_reads_back`].
pub proof fn law_message_field_reads_back(
    dest: Seq<char>,
    to: Seq<char>,
    t: Seq<char>,
    id: Seq<char>,
)
    requires
        message::id_of(id).len() > 0,
    ensures
        ({
            let addressee = text::trim_back(message::pad9(to));
            reading(dest, vstd::utf8::encode_utf8(message::message_text(to, t, id))) == Ok::<
                DataView,
                Fault,
            >(
                DataView::Message(
                    MessageView {
                        addressee,
                        text: text::trim_back(message::cleaned(t)),
                        id: message::id_of(id),
                        reply_ack: Seq::empty(),
                        kind: message::kind_of(addressee, message::cleaned(t)),
                    },
                ),
            )
        }),
{
    message::law_message_reads_back(to, t, id);
}

} // verus!
