//! flrig over XML-RPC: a program already driving a radio, reached over a
//! socket.
//!
//! An XML-RPC response carries a value and nothing else — nothing on the wire
//! names the request it answers. What is guaranteed is *order*: one response
//! per request, on one connection, in the order the requests went in. So this
//! keeps a queue of the methods actually written and reads each complete HTTP
//! response against the head of that queue. The server answers one request at
//! a time and throws away what arrives meanwhile, so [`Flrig::in_flight`] says
//! what is outstanding and the driver holds the next frame until it is in.
use crate::cat::config::Mode;
use crate::cat::http;
use crate::cat::session::CatUpdate;
use crate::cat::xml;
use crate::cat::xml::{NodeView, XmlNode};
use crate::decimal;
use crate::floats;
use crate::text;
use std::collections::VecDeque;
use vstd::prelude::*;

verus! {

broadcast use vstd::seq::group_seq_axioms;

/// Watts assumed at full scale until the rig has answered, in millionths.
pub const DEFAULT_MAX_W: i64 = 100_000_000;

/// The largest number a transmit-state reply may carry and still be read as
/// one rather than as somebody else's answer.
pub const MAX_PTT_STATE: i64 = 9;

/// How many connections in a row may end in a lost step before the driver
/// stops remaking the link over it.
pub const GIVE_UP_AFTER: u8 = 3;

/// One request written and not yet answered — the kinds whose replies carry a
/// value that is interpreted.
#[derive(Clone, Copy, Debug, PartialEq, Eq, Structural)]
pub enum Sent {
    GetVfo,
    GetMode,
    GetModes,
    GetXcvr,
    GetMaxPwr,
    GetPower,
    GetDbm,
    GetSwr,
    GetPo,
    GetPtt,
    Other,
}

/// A request's name, for the log.
pub fn label(s: Sent) -> (r: &'static str)
    ensures
        r@ == (match s {
            Sent::GetVfo => "frequency read",
            Sent::GetMode => "mode read",
            Sent::GetModes => "mode-list read",
            Sent::GetXcvr => "transceiver read",
            Sent::GetMaxPwr => "power-scale read",
            Sent::GetPower => "power read",
            Sent::GetDbm => "S-meter read",
            Sent::GetSwr => "SWR read",
            Sent::GetPo => "power-out read",
            Sent::GetPtt => "PTT read",
            Sent::Other => "command",
        })@,
{
    match s {
        Sent::GetVfo => "frequency read",
        Sent::GetMode => "mode read",
        Sent::GetModes => "mode-list read",
        Sent::GetXcvr => "transceiver read",
        Sent::GetMaxPwr => "power-scale read",
        Sent::GetPower => "power read",
        Sent::GetDbm => "S-meter read",
        Sent::GetSwr => "SWR read",
        Sent::GetPo => "power-out read",
        Sent::GetPtt => "PTT read",
        Sent::Other => "command",
    }
}

/// One XML-RPC parameter.
#[derive(Debug)]
pub enum Param {
    Int(i64),
    /// A double with a whole value.
    Double(u64),
    Str(String),
}

/// What a parameter holds.
pub enum ParamView {
    Int(int),
    Double(nat),
    Str(Seq<char>),
}

impl View for Param {
    type V = ParamView;

    open spec fn view(&self) -> ParamView {
        match *self {
            Param::Int(v) => ParamView::Int(v as int),
            Param::Double(v) => ParamView::Double(v as nat),
            Param::Str(s) => ParamView::Str(s@),
        }
    }
}

pub open spec fn param_views(v: Seq<Param>) -> Seq<ParamView> {
    Seq::new(v.len(), |i: int| v[i]@)
}

/// What flrig's side of the driver remembers.
pub struct Flrig {
    /// For the HTTP `Host:` header only.
    pub host: String,
    /// Raw bytes of the response stream, framed by HTTP headers.
    pub buf: Vec<u8>,
    /// The methods written and not yet answered, in write order.
    pub pending: VecDeque<Sent>,
    /// The mode names the rig behind flrig actually has, in upper case.
    pub modes: Vec<String>,
    /// Watts at the top of the rig's scale, in millionths.
    pub max_w: i64,
    /// The transceiver flrig says it is driving, once known.
    pub xcvr: Option<String>,
    /// A fault or an HTTP error arrived since last asked.
    pub failed: bool,
    /// An answer arrived that cannot belong to the request it was read against.
    pub lost_step: bool,
    /// How many connections in a row have ended in one.
    pub slips_in_a_row: u8,
}

/// What a [`Flrig`] holds.
pub struct FlrigView {
    pub host: Seq<char>,
    pub buf: Seq<u8>,
    pub pending: Seq<Sent>,
    pub modes: Seq<Seq<char>>,
    pub max_w: int,
    pub xcvr: Option<Seq<char>>,
    pub failed: bool,
    pub lost_step: bool,
    pub slips_in_a_row: int,
}

impl View for Flrig {
    type V = FlrigView;

    open spec fn view(&self) -> FlrigView {
        FlrigView {
            host: self.host@,
            buf: self.buf@,
            pending: self.pending@,
            modes: xml::texts(self.modes@),
            max_w: self.max_w as int,
            xcvr: match self.xcvr {
                Some(x) => Some(x@),
                None => None,
            },
            failed: self.failed,
            lost_step: self.lost_step,
            slips_in_a_row: self.slips_in_a_row as int,
        }
    }
}

/// XML character escaping for the three characters that matter in content.
pub open spec fn escaped(s: Seq<char>) -> Seq<char>
    decreases s.len(),
{
    if s.len() == 0 {
        Seq::empty()
    } else {
        let front = escaped(s.drop_last());
        if s.last() == '&' {
            front + "&amp;"@
        } else if s.last() == '<' {
            front + "&lt;"@
        } else if s.last() == '>' {
            front + "&gt;"@
        } else {
            front.push(s.last())
        }
    }
}

pub open spec fn param_xml(p: ParamView) -> Seq<char> {
    "<param><value>"@ + (match p {
        ParamView::Int(v) => "<i4>"@ + text::signed_dec(v) + "</i4>"@,
        ParamView::Double(v) => "<double>"@ + text::dec(v) + "</double>"@,
        ParamView::Str(s) => "<string>"@ + escaped(s) + "</string>"@,
    }) + "</value></param>"@
}

pub open spec fn params_xml(p: Seq<ParamView>) -> Seq<char>
    decreases p.len(),
{
    if p.len() == 0 {
        Seq::empty()
    } else {
        params_xml(p.drop_last()) + param_xml(p.last())
    }
}

/// The XML of a call.
pub open spec fn call_xml(method: Seq<char>, params: Seq<ParamView>) -> Seq<char> {
    "<?xml version=\"1.0\"?><methodCall><methodName>"@ + method + "</methodName><params>"@
        + params_xml(params) + "</params></methodCall>"@
}

/// A complete HTTP request carrying one call.
pub open spec fn call_text(host: Seq<char>, method: Seq<char>, params: Seq<ParamView>) -> Seq<char> {
    let body = call_xml(method, params);
    "POST /RPC2 HTTP/1.1\r\nHost: "@ + host
        + "\r\nUser-Agent: sdroxide\r\nContent-Type: text/xml\r\nContent-Length: "@ + text::dec(
        vstd::utf8::encode_utf8(body).len(),
    ) + "\r\n\r\n"@ + body
}

/// The bytes of a request.
pub open spec fn call_bytes(host: Seq<char>, method: Seq<char>, params: Seq<ParamView>) -> Seq<u8> {
    vstd::utf8::encode_utf8(call_text(host, method, params))
}

/// XML character escaping for the three characters that matter in content.
pub fn xml_escape(s: &str) -> (r: String)
    ensures
        r@ == escaped(s@),
{
    let v = text::chars_of(s);
    let mut out = String::new();
    let mut i: usize = 0;
    while i < v.len()
        invariant
            i <= v@.len(),
            out@ == escaped(v@.take(i as int)),
        decreases v@.len() - i,
    {
        let c = v[i];
        assert(v@.take(i + 1).drop_last() =~= v@.take(i as int));
        if c == '&' {
            out.append("&amp;");
        } else if c == '<' {
            out.append("&lt;");
        } else if c == '>' {
            out.append("&gt;");
        } else {
            out.push(c);
        }
        i += 1;
    }
    assert(v@.take(v@.len() as int) =~= v@);
    out
}

fn push_param(body: &mut String, p: &Param)
    ensures
        final(body)@ == old(body)@ + param_xml(p@),
{
    body.append("<param><value>");
    match p {
        Param::Int(v) => {
            body.append("<i4>");
            text::push_signed(body, *v);
            body.append("</i4>");
        },
        Param::Double(v) => {
            body.append("<double>");
            text::push_dec(body, *v);
            body.append("</double>");
        },
        Param::Str(s) => {
            body.append("<string>");
            body.append(xml_escape(s.as_str()).as_str());
            body.append("</string>");
        },
    }
    body.append("</value></param>");
    assert(body@ =~= old(body)@ + param_xml(p@));
}

/// The method of a request that was built by [`Flrig::call`]: what stands in
/// its first `methodName`.
pub open spec fn method_in(frame: Seq<u8>) -> Option<Seq<char>> {
    if !vstd::utf8::valid_utf8(frame) {
        None
    } else {
        let s = vstd::utf8::decode_utf8(frame);
        match text::find_seq(s, "<methodName>"@, 0) {
            None => None,
            Some(i) => {
                let start = i + "<methodName>"@.len();
                match text::find_seq(s, "</methodName>"@, start) {
                    None => None,
                    Some(end) => Some(s.subrange(start, end)),
                }
            },
        }
    }
}

/// The method name inside a request — what feeds the queue.
pub fn method_of(frame: &[u8]) -> (r: Option<String>)
    ensures
        match method_in(frame@) {
            Some(m) => r matches Some(s) && s@ == m,
            None => r is None,
        },
{
    let s = match text::from_utf8(frame) {
        Some(s) => s,
        None => return None,
    };
    let v = text::chars_of(s.as_str());
    let open = text::chars_of("<methodName>");
    let close = text::chars_of("</methodName>");
    match text::find_chars(v.as_slice(), open.as_slice(), 0) {
        None => None,
        Some(i) => {
            assert(i + open@.len() <= v.len());
            let start = i + open.len();
            match text::find_chars(v.as_slice(), close.as_slice(), start) {
                None => None,
                Some(end) => {
                    let m = text::copy_chars(v.as_slice(), start, end);
                    Some(text::string_of(m.as_slice()))
                },
            }
        },
    }
}

/// The kind of request that a method is.
pub open spec fn kind_of(method: Seq<char>) -> Sent {
    if method == "rig.get_vfo"@ {
        Sent::GetVfo
    } else if method == "rig.get_mode"@ {
        Sent::GetMode
    } else if method == "rig.get_modes"@ {
        Sent::GetModes
    } else if method == "rig.get_xcvr"@ {
        Sent::GetXcvr
    } else if method == "rig.get_maxpwr"@ {
        Sent::GetMaxPwr
    } else if method == "rig.get_power"@ {
        Sent::GetPower
    } else if method == "rig.get_DBM"@ {
        Sent::GetDbm
    } else if method == "rig.get_swrmeter"@ {
        Sent::GetSwr
    } else if method == "rig.get_pwrmeter"@ {
        Sent::GetPo
    } else if method == "rig.get_ptt"@ {
        Sent::GetPtt
    } else {
        Sent::Other
    }
}

fn kind(method: &str) -> (r: Sent)
    ensures
        r == kind_of(method@),
{
    if text::same(method, "rig.get_vfo") {
        Sent::GetVfo
    } else if text::same(method, "rig.get_mode") {
        Sent::GetMode
    } else if text::same(method, "rig.get_modes") {
        Sent::GetModes
    } else if text::same(method, "rig.get_xcvr") {
        Sent::GetXcvr
    } else if text::same(method, "rig.get_maxpwr") {
        Sent::GetMaxPwr
    } else if text::same(method, "rig.get_power") {
        Sent::GetPower
    } else if text::same(method, "rig.get_DBM") {
        Sent::GetDbm
    } else if text::same(method, "rig.get_swrmeter") {
        Sent::GetSwr
    } else if text::same(method, "rig.get_pwrmeter") {
        Sent::GetPo
    } else if text::same(method, "rig.get_ptt") {
        Sent::GetPtt
    } else {
        Sent::Other
    }
}

/// A mode name that flrig reported, as the application's mode. A rig position
/// that would be commanded back as something *else* is none.
pub open spec fn mode_named(name: Seq<char>) -> Option<Mode> {
    let s = text::uppers(text::trim(name));
    if s == "LSB"@ {
        Some(Mode::Lsb)
    } else if s == "USB"@ {
        Some(Mode::Usb)
    } else if s == "CW"@ || s == "CW-R"@ || s == "CWR"@ || s == "CW-L"@ || s == "CW-U"@ {
        Some(Mode::Cw)
    } else if s == "AM"@ || s == "AM-N"@ || s == "AMN"@ {
        Some(Mode::Am)
    } else if s == "DSB"@ {
        Some(Mode::Dsb)
    } else if s == "FM"@ || s == "FM-N"@ || s == "FMN"@ || s == "NFM"@ {
        Some(Mode::Nfm)
    } else if s == "WFM"@ || s == "FM-W"@ || s == "FMW"@ {
        Some(Mode::Wfm)
    } else if s == "DATA"@ || s == "DATA-U"@ || s == "DIGU"@ || s == "PKT-USB"@ || s == "PKTUSB"@
        || s == "PKT-U"@ || s == "USB-D"@ || s == "DIG"@ || s == "PKT"@ {
        Some(Mode::Digu)
    } else if s == "DATA-R"@ || s == "DATA-L"@ || s == "DIGL"@ || s == "PKT-LSB"@ || s == "PKTLSB"@
        || s == "PKT-L"@ || s == "LSB-D"@ {
        Some(Mode::Digl)
    } else {
        None
    }
}

/// A mode name flrig reported → the app's mode.
pub fn mode_from_name(name: &str) -> (r: Option<Mode>)
    ensures
        r == mode_named(name@),
{
    let v = text::chars_of(name);
    let u = text::string_of(text::upper_chars(text::trim_chars(v.as_slice()).as_slice()).as_slice());
    let s = u.as_str();
    if text::same(s, "LSB") {
        Some(Mode::Lsb)
    } else if text::same(s, "USB") {
        Some(Mode::Usb)
    } else if text::same(s, "CW") || text::same(s, "CW-R") || text::same(s, "CWR") || text::same(
        s,
        "CW-L",
    ) || text::same(s, "CW-U") {
        // CW and its reverse are both CW to the app.
        Some(Mode::Cw)
    } else if text::same(s, "AM") || text::same(s, "AM-N") || text::same(s, "AMN") {
        Some(Mode::Am)
    } else if text::same(s, "DSB") {
        Some(Mode::Dsb)
    } else if text::same(s, "FM") || text::same(s, "FM-N") || text::same(s, "FMN") || text::same(
        s,
        "NFM",
    ) {
        Some(Mode::Nfm)
    } else if text::same(s, "WFM") || text::same(s, "FM-W") || text::same(s, "FMW") {
        Some(Mode::Wfm)
    } else if text::same(s, "DATA") || text::same(s, "DATA-U") || text::same(s, "DIGU")
        || text::same(s, "PKT-USB") || text::same(s, "PKTUSB") || text::same(s, "PKT-U")
        || text::same(s, "USB-D") || text::same(s, "DIG") || text::same(s, "PKT") {
        Some(Mode::Digu)
    } else if text::same(s, "DATA-R") || text::same(s, "DATA-L") || text::same(s, "DIGL")
        || text::same(s, "PKT-LSB") || text::same(s, "PKTLSB") || text::same(s, "PKT-L")
        || text::same(s, "LSB-D") {
        Some(Mode::Digl)
    } else {
        None
    }
}

/// The names a mode may go out as, most specific first. flrig's mode names are
/// the *rig's*, so each app mode carries the spellings seen across flrig's
/// drivers and the first one the rig actually has wins.
pub open spec fn candidates_of(m: Mode) -> Seq<Seq<char>> {
    match m {
        Mode::Lsb => seq!["LSB"@],
        Mode::Usb | Mode::Spec | Mode::Sstv | Mode::Wefax | Mode::RfPaint => seq!["USB"@],
        Mode::Cw => seq!["CW"@],
        Mode::Am | Mode::Sam => seq!["AM"@],
        Mode::Dsb => seq!["DSB"@],
        Mode::Nfm => seq!["FM"@, "FM-N"@, "NFM"@],
        Mode::Wfm => seq!["WFM"@, "FM-W"@],
        Mode::Rifp | Mode::Packet => seq!["PKT-FM"@, "PKTFM"@, "DATA-FM"@, "FM-D"@, "FM"@],
        Mode::Digl => seq![
            "DATA-R"@,
            "DATA-L"@,
            "DIGL"@,
            "PKT-LSB"@,
            "PKTLSB"@,
            "PKT-L"@,
            "LSB-D"@,
            "LSB"@,
        ],
        _ => seq![
            "DATA"@,
            "DATA-U"@,
            "DIGU"@,
            "PKT-USB"@,
            "PKTUSB"@,
            "PKT-U"@,
            "USB-D"@,
            "DIG"@,
            "PKT"@,
            "USB"@,
        ],
    }
}

/// What a list of string slices holds.
pub open spec fn names(v: Seq<&'static str>) -> Seq<Seq<char>> {
    Seq::new(v.len(), |i: int| v[i]@)
}

/// The names a mode may go out as, most specific first.
pub fn candidates(m: Mode) -> (r: Vec<&'static str>)
    ensures
        names(r@) == candidates_of(m),
        r@.len() > 0,
{
    let mut v: Vec<&'static str> = Vec::new();
    match m {
        Mode::Lsb => v.push("LSB"),
        Mode::Usb | Mode::Spec | Mode::Sstv | Mode::Wefax | Mode::RfPaint => v.push("USB"),
        Mode::Cw => v.push("CW"),
        Mode::Am | Mode::Sam => v.push("AM"),
        Mode::Dsb => v.push("DSB"),
        Mode::Nfm => {
            v.push("FM");
            v.push("FM-N");
            v.push("NFM");
        },
        // No plain-FM fallback here: a rig with no WFM position would report
        // `FM` back, which reads as NFM and would bounce the app out of a mode
        // it is demodulating itself.
        Mode::Wfm => {
            v.push("WFM");
            v.push("FM-W");
        },
        // Data over FM rather than over a sideband.
        Mode::Rifp | Mode::Packet => {
            v.push("PKT-FM");
            v.push("PKTFM");
            v.push("DATA-FM");
            v.push("FM-D");
            v.push("FM");
        },
        Mode::Digl => {
            v.push("DATA-R");
            v.push("DATA-L");
            v.push("DIGL");
            v.push("PKT-LSB");
            v.push("PKTLSB");
            v.push("PKT-L");
            v.push("LSB-D");
            v.push("LSB");
        },
        _ => {
            v.push("DATA");
            v.push("DATA-U");
            v.push("DIGU");
            v.push("PKT-USB");
            v.push("PKTUSB");
            v.push("PKT-U");
            v.push("USB-D");
            v.push("DIG");
            v.push("PKT");
            v.push("USB");
        },
    }
    assert(names(v@) =~= candidates_of(m));
    v
}

/// The first of the names from `from` on that the rig has.
pub open spec fn first_had(cands: Seq<Seq<char>>, modes: Seq<Seq<char>>, from: int) -> Option<
    Seq<char>,
>
    decreases cands.len() - from,
{
    if from < 0 || from >= cands.len() {
        None
    } else if modes.contains(cands[from]) {
        Some(cands[from])
    } else {
        first_had(cands, modes, from + 1)
    }
}

/// The name that a mode goes out as on this rig: the most specific one until
/// the rig's list is known.
pub open spec fn name_for(modes: Seq<Seq<char>>, m: Mode) -> Option<Seq<char>> {
    if modes.len() == 0 {
        Some(candidates_of(m)[0])
    } else {
        first_had(candidates_of(m), modes, 0)
    }
}

fn has_mode(modes: &[String], name: &str) -> (r: bool)
    ensures
        r == xml::texts(modes@).contains(name@),
{
    let mut i: usize = 0;
    while i < modes.len()
        invariant
            i <= modes@.len(),
            forall|j: int| 0 <= j < i ==> modes@[j]@ != name@,
        decreases modes@.len() - i,
    {
        if text::same(modes[i].as_str(), name) {
            assert(xml::texts(modes@)[i as int] == name@);
            return true;
        }
        i += 1;
    }
    false
}

/// flrig's SWR face, 0 to 100 in millionths, as a ratio in millionths. The face
/// is drawn with marks at 1, 1.5, 2, 3 and 5, evenly spaced.
pub open spec fn swr_of(raw: int) -> int {
    if raw <= 25_000_000 {
        1_000_000 + raw / 50
    } else if raw <= 50_000_000 {
        1_500_000 + (raw - 25_000_000) / 50
    } else if raw <= 75_000_000 {
        2_000_000 + (raw - 50_000_000) / 25
    } else if raw <= 100_000_000 {
        3_000_000 + 2 * (raw - 75_000_000) / 25
    } else {
        5_000_000
    }
}

fn swr(raw: i64) -> (r: i64)
    requires
        raw >= 0,
    ensures
        r == swr_of(raw as int),
{
    if raw <= 25_000_000 {
        1_000_000 + raw / 50
    } else if raw <= 50_000_000 {
        1_500_000 + (raw - 25_000_000) / 50
    } else if raw <= 75_000_000 {
        2_000_000 + (raw - 50_000_000) / 25
    } else if raw <= 100_000_000 {
        3_000_000 + 2 * (raw - 75_000_000) / 25
    } else {
        5_000_000
    }
}

/// Some watts as a fraction of the maximum, in millionths from 0 to 1.
pub open spec fn fraction_of(w: int, max_w: int) -> int {
    if w <= 0 {
        0
    } else if w >= max_w {
        1_000_000
    } else {
        w * 1_000_000 / max_w
    }
}

fn fraction(w: i64, max_w: i64) -> (r: i64)
    requires
        max_w > 0,
    ensures
        r == fraction_of(w as int, max_w as int),
        0 <= r <= 1_000_000,
{
    if w <= 0 {
        0
    } else if w >= max_w {
        1_000_000
    } else {
        let q: i128 = (w as i128) * 1_000_000 / (max_w as i128);
        proof {
            assert(0 <= (w as int) * 1_000_000 / (max_w as int) <= 1_000_000)
                by (nonlinear_arith)
                requires
                    0 < w < max_w,
            ;
        }
        q as i64
    }
}

/// What is left of the state when an answer cannot belong to its request.
pub open spec fn slipped(f: FlrigView) -> FlrigView {
    FlrigView { lost_step: true, ..f }
}

/// The scalar of a response, or nothing.
pub open spec fn raw_of(nodes: Seq<NodeView>) -> Seq<char> {
    match xml::scalar_of(nodes) {
        Some(t) => t,
        None => Seq::empty(),
    }
}

/// The number that a response carries, with `places` places.
pub open spec fn number_of(nodes: Seq<NodeView>, places: int) -> Option<int> {
    match xml::scalar_of(nodes) {
        Some(t) => decimal::fixed_of(t, places),
        None => None,
    }
}

/// The sign of the number that a response carries: that of a reading, which is no
/// finer than a single.
pub open spec fn sign_of(nodes: Seq<NodeView>) -> Option<int> {
    match xml::scalar_of(nodes) {
        Some(t) => floats::single_sign(t),
        None => None,
    }
}

/// A signal that a receiver can have: no more than a milliwatt, and two hundred
/// decibels less at least. In millionths of a decibel.
pub open spec fn signal_of(nodes: Seq<NodeView>) -> Option<int> {
    match xml::scalar_of(nodes) {
        Some(t) => match decimal::number_in(t) {
            Some(n) => if sign_of(nodes)->0 <= 0 && floats::single_within_two_hundred(n) {
                let dbm = decimal::fixed_of(t, 6)->0;
                Some(
                    if dbm < -200_000_000 {
                        -200_000_000
                    } else {
                        dbm
                    },
                )
            } else {
                None
            },
            None => None,
        },
        None => None,
    }
}

/// A number that a dial can show: a kilohertz at least, and finite. What is
/// below is the line between a frequency and a *meter reading*.
pub open spec fn is_dial(n: decimal::Number) -> bool {
    &&& !n.negative
    &&& floats::double_is_thousand(n)
    &&& !floats::double_is_endless(n)
}

/// The parts of a text between the bars in it.
pub open spec fn split_bars(s: Seq<char>) -> Seq<Seq<char>>
    decreases s.len(),
{
    let k = text::find(s, '|');
    if k < 0 || k >= s.len() {
        seq![s]
    } else {
        seq![s.take(k)] + split_bars(s.skip(k + 1))
    }
}

/// Mode names as they are kept: trimmed, in upper case, none empty.
pub open spec fn tidy(v: Seq<Seq<char>>) -> Seq<Seq<char>>
    decreases v.len(),
{
    if v.len() == 0 {
        Seq::empty()
    } else {
        let s = text::uppers(text::trim(v.last()));
        if s.len() == 0 {
            tidy(v.drop_last())
        } else {
            tidy(v.drop_last()).push(s)
        }
    }
}

/// The mode list that a response carries: an array of strings, or one string
/// with bars in it.
pub open spec fn modes_of(nodes: Seq<NodeView>) -> Seq<Seq<char>> {
    let array = xml::strings_of(nodes, nodes.len() as int);
    tidy(
        if array.len() > 0 {
            array
        } else {
            match xml::scalar_of(nodes) {
                Some(s) => split_bars(s),
                None => Seq::empty(),
            }
        },
    )
}

/// A thousand times `n`, held within an `i64`.
pub open spec fn times_thousand(n: int) -> int {
    if 1000 * n > i64::MAX {
        i64::MAX as int
    } else if 1000 * n < i64::MIN {
        i64::MIN as int
    } else {
        1000 * n
    }
}

/// A frequency read answered with this response. A dial is reported to the nearest
/// hertz of the number that the text is.
pub open spec fn vfo_answer(f: FlrigView, nodes: Seq<NodeView>) -> (FlrigView, Seq<CatUpdate>) {
    let raw = raw_of(nodes);
    match decimal::number_in(raw) {
        Some(n) => if is_dial(n) {
            (
                FlrigView { slips_in_a_row: 0, ..f },
                seq![
                    CatUpdate::Freq(times_thousand(decimal::fixed_of(raw, 0)->0) as i64),
                ],
            )
        } else if floats::double_is_zero(n) {
            // A dial that was not read yet.
            (f, seq![])
        } else {
            (slipped(f), seq![])
        },
        None => if raw.len() == 0 {
            (f, seq![])
        } else {
            (slipped(f), seq![])
        },
    }
}

/// A transmit-state read answered with this response.
pub open spec fn ptt_answer(f: FlrigView, nodes: Seq<NodeView>) -> (FlrigView, Seq<CatUpdate>) {
    let raw = raw_of(nodes);
    match decimal::int_of(raw) {
        Some(n) => if -MAX_PTT_STATE <= n <= MAX_PTT_STATE {
            (f, seq![CatUpdate::Ptt(n != 0)])
        } else {
            (slipped(f), seq![])
        },
        None => if raw.len() == 0 {
            (f, seq![])
        } else {
            (slipped(f), seq![])
        },
    }
}

/// What a response means as the answer to a request: what is remembered, and
/// what is reported.
pub open spec fn answer(f: FlrigView, sent: Sent, doc: Option<Seq<NodeView>>) -> (
    FlrigView,
    Seq<CatUpdate>,
) {
    match doc {
        None => (f, seq![]),
        Some(nodes) => if xml::has_tag(nodes, "fault"@) {
            (FlrigView { failed: true, ..f }, seq![])
        } else {
            match sent {
                Sent::GetVfo => vfo_answer(f, nodes),
                Sent::GetMode => (
                    f,
                    match xml::scalar_of(nodes) {
                        Some(s) => match mode_named(s) {
                            Some(m) => seq![CatUpdate::Mode(m)],
                            None => seq![],
                        },
                        None => seq![],
                    },
                ),
                Sent::GetModes => (FlrigView { modes: modes_of(nodes), ..f }, seq![]),
                Sent::GetXcvr => (
                    if raw_of(nodes).len() > 0 {
                        FlrigView { xcvr: Some(raw_of(nodes)), ..f }
                    } else {
                        f
                    },
                    seq![],
                ),
                Sent::GetMaxPwr => (
                    match number_of(nodes, 6) {
                        Some(w) => if sign_of(nodes)->0 > 0 {
                            FlrigView {
                                max_w: if w > 0 {
                                    w
                                } else {
                                    1
                                },
                                ..f
                            }
                        } else {
                            f
                        },
                        None => f,
                    },
                    seq![],
                ),
                Sent::GetPower => (
                    f,
                    match number_of(nodes, 6) {
                        Some(w) => seq![CatUpdate::Power(fraction_of(w, f.max_w) as i64)],
                        None => seq![],
                    },
                ),
                // Already decibel-milliwatts; the window guards against a
                // driver with no S-meter answering something that is not a
                // signal.
                Sent::GetDbm => (
                    f,
                    match signal_of(nodes) {
                        Some(dbm) => seq![CatUpdate::Signal(dbm as i64)],
                        None => seq![],
                    },
                ),
                // Zero is a driver with nothing behind the meter.
                Sent::GetSwr => (
                    f,
                    match number_of(nodes, 6) {
                        Some(raw) => if sign_of(nodes)->0 > 0 {
                            seq![CatUpdate::Swr(swr_of(raw) as i64)]
                        } else {
                            seq![]
                        },
                        None => seq![],
                    },
                ),
                Sent::GetPo => (
                    f,
                    match number_of(nodes, 6) {
                        Some(w) => if sign_of(nodes)->0 >= 0 {
                            seq![CatUpdate::Po(fraction_of(w, f.max_w) as i64)]
                        } else {
                            seq![]
                        },
                        None => seq![],
                    },
                ),
                Sent::GetPtt => ptt_answer(f, nodes),
                Sent::Other => (f, seq![]),
            }
        },
    }
}

/// One look at the bytes that have arrived.
pub struct Look {
    pub state: FlrigView,
    pub updates: Seq<CatUpdate>,
    /// Whether a complete response was taken, so that there may be another.
    pub more: bool,
}

/// What the first response among the bytes that have arrived leads to, if it is
/// complete: it is read against the request at the head of the queue.
pub open spec fn look(f: FlrigView) -> Look {
    match text::find_seq(f.buf, seq![13u8, 10u8, 13u8, 10u8], 0) {
        None => Look { state: f, updates: seq![], more: false },
        Some(h) => {
            let head = http::lines_of(text::utf8_lossy(f.buf.take(h)));
            match http::length_of(head, head.len() as int) {
                None => Look {
                    state: FlrigView { buf: Seq::empty(), pending: Seq::empty(), ..f },
                    updates: seq![],
                    more: false,
                },
                Some(n) => {
                    let total = h + 4 + n;
                    let rest = FlrigView { buf: f.buf.skip(total), ..f };
                    if f.buf.len() < total {
                        Look { state: f, updates: seq![], more: false }
                    } else if f.pending.len() == 0 {
                        Look { state: slipped(rest), updates: seq![], more: true }
                    } else {
                        let taken = FlrigView { pending: f.pending.skip(1), ..rest };
                        if http::status_of(head) != Some(200int) {
                            Look {
                                state: FlrigView { failed: true, ..taken },
                                updates: seq![],
                                more: true,
                            }
                        } else {
                            let body = text::utf8_lossy(f.buf.subrange(h + 4, total));
                            let a = answer(taken, f.pending[0], xml::nodes_of(body));
                            Look { state: a.0, updates: a.1, more: true }
                        }
                    }
                },
            }
        },
    }
}

/// What is made of the bytes that have arrived: every complete response is
/// read.
pub open spec fn drained(f: FlrigView) -> (FlrigView, Seq<CatUpdate>)
    decreases f.buf.len(),
{
    let l = look(f);
    if l.more && l.state.buf.len() < f.buf.len() {
        let (last, more) = drained(l.state);
        (last, l.updates + more)
    } else {
        (l.state, l.updates)
    }
}

/// The bytes of some requests, in order.
pub open spec fn frames(v: Seq<Vec<u8>>) -> Seq<Seq<u8>> {
    Seq::new(v.len(), |i: int| v[i]@)
}

/// A frequency in thousandths of a hertz, rounded to whole hertz and held at
/// zero.
pub open spec fn whole_hertz(hz: int) -> int {
    if hz <= 0 {
        0
    } else {
        (hz + 500) / 1000
    }
}

/// The width of a passband in whole hertz, never under fifty.
pub open spec fn width_of(lo: int, hi: int) -> int {
    let d = if hi >= lo {
        hi - lo
    } else {
        lo - hi
    };
    if (d + 500) / 1000 < 50 {
        50
    } else {
        (d + 500) / 1000
    }
}

/// A fraction of the rig's power in whole watts, never under one.
pub open spec fn watts_of(level: int, max_w: int) -> int {
    let l = if level < 0 {
        0
    } else if level > 1_000_000 {
        1_000_000
    } else {
        level
    };
    let w = (l * max_w + 500_000_000_000) / 1_000_000_000_000;
    if w < 1 {
        1
    } else {
        w
    }
}

/// Whether a transceiver of this name shifts its dial with the mode.
pub open spec fn shifts_dial(xcvr: Seq<char>) -> bool {
    let x = text::uppers(text::trim(xcvr));
    text::has_prefix(x, "K2"@) || text::has_prefix(x, "K3"@) || text::has_prefix(x, "K4"@)
        || text::has_prefix(x, "KX"@)
}

fn one(frame: Vec<u8>) -> (r: Vec<Vec<u8>>)
    ensures
        frames(r@) == seq![frame@],
{
    let mut v: Vec<Vec<u8>> = Vec::new();
    v.push(frame);
    assert(frames(v@) =~= seq![frame@]);
    v
}

fn int_param(n: i64) -> (r: Vec<Param>)
    ensures
        param_views(r@) == seq![ParamView::Int(n as int)],
{
    let mut v: Vec<Param> = Vec::new();
    v.push(Param::Int(n));
    assert(param_views(v@) =~= seq![ParamView::Int(n as int)]);
    v
}

/// The parts of a text between the bars in it.
fn split_at_bars(v: &[char]) -> (r: Vec<Vec<char>>)
    ensures
        http::rows(r@) == split_bars(v@),
{
    let mut out: Vec<Vec<char>> = Vec::new();
    let mut rest = vstd::slice::slice_to_vec(v);
    assert(http::rows(out@) + split_bars(rest@) =~= split_bars(v@));
    loop
        invariant
            http::rows(out@) + split_bars(rest@) == split_bars(v@),
        decreases rest@.len(),
    {
        let k = text::find_char(rest.as_slice(), '|');
        let ghost before = http::rows(out@);
        let ghost here = split_bars(rest@);
        if k == rest.len() {
            let ghost last = rest@;
            out.push(rest);
            assert(http::rows(out@) =~= before + seq![last]);
            return out;
        }
        let part = text::copy_chars(rest.as_slice(), 0, k);
        assert(part@ =~= rest@.take(k as int));
        let next = text::copy_chars(rest.as_slice(), k + 1, rest.len());
        assert(next@ =~= rest@.skip(k + 1));
        let ghost chars = part@;
        out.push(part);
        assert(http::rows(out@) =~= before + seq![chars]);
        assert(http::rows(out@) + split_bars(next@) =~= before + here);
        rest = next;
    }
}

fn tidied(v: &[Vec<char>]) -> (r: Vec<String>)
    ensures
        xml::texts(r@) == tidy(http::rows(v@)),
{
    let mut out: Vec<String> = Vec::new();
    let mut i: usize = 0;
    assert(http::rows(v@).take(0) =~= Seq::empty());
    assert(xml::texts(out@) =~= Seq::empty());
    while i < v.len()
        invariant
            i <= v@.len(),
            xml::texts(out@) == tidy(http::rows(v@).take(i as int)),
        decreases v@.len() - i,
    {
        let u = text::upper_chars(text::trim_chars(v[i].as_slice()).as_slice());
        let ghost part = http::rows(v@).take(i + 1);
        assert(part.drop_last() =~= http::rows(v@).take(i as int));
        assert(part.last() == v@[i as int]@);
        if u.len() > 0 {
            let ghost before = xml::texts(out@);
            out.push(text::string_of(u.as_slice()));
            assert(xml::texts(out@) =~= before.push(u@));
        }
        i += 1;
    }
    assert(http::rows(v@).take(v@.len() as int) =~= http::rows(v@));
    out
}

fn read_modes(v: &[XmlNode]) -> (r: Vec<String>)
    ensures
        xml::texts(r@) == modes_of(xml::views(v@)),
{
    let array = xml::strings(v);
    let mut rows: Vec<Vec<char>> = Vec::new();
    if array.len() == 0 {
        match xml::scalar(v) {
            Some(s) => {
                rows = split_at_bars(text::chars_of(s.as_str()).as_slice());
            },
            None => {
                assert(http::rows(rows@) =~= Seq::empty());
            },
        }
    } else {
        let mut i: usize = 0;
        while i < array.len()
            invariant
                i <= array@.len(),
                http::rows(rows@) == xml::texts(array@).take(i as int),
            decreases array@.len() - i,
        {
            let ghost before = http::rows(rows@);
            let row = text::chars_of(array[i].as_str());
            let ghost chars = row@;
            rows.push(row);
            assert(http::rows(rows@) =~= before.push(chars));
            assert(xml::texts(array@)[i as int] == chars);
            i += 1;
            assert(xml::texts(array@).take(i as int) =~= xml::texts(array@).take(i - 1).push(
                chars,
            ));
        }
        assert(xml::texts(array@).take(array@.len() as int) =~= xml::texts(array@));
    }
    tidied(rows.as_slice())
}

fn read_number(v: &[XmlNode], places: u8) -> (r: Option<i64>)
    ensures
        match number_of(xml::views(v@), places as int) {
            Some(n) => r matches Some(x) && x == n,
            None => r is None,
        },
        r is Some <==> sign_of(xml::views(v@)) is Some,
        sign_of(xml::views(v@)) matches Some(s) ==> s > 0 ==> r->0 >= 0,
{
    proof {
        match xml::scalar_of(xml::views(v@)) {
            Some(t) => decimal::lemma_fixed_sign(t, places as int),
            None => {},
        }
    }
    match xml::scalar(v) {
        Some(s) => decimal::parse_fixed(text::chars_of(s.as_str()).as_slice(), places),
        None => None,
    }
}

fn read_sign(v: &[XmlNode]) -> (r: Option<i8>)
    ensures
        match sign_of(xml::views(v@)) {
            Some(n) => r matches Some(x) && x == n,
            None => r is None,
        },
{
    match xml::scalar(v) {
        Some(s) => floats::read_single_sign(text::chars_of(s.as_str()).as_slice()),
        None => None,
    }
}

fn read_signal(v: &[XmlNode]) -> (r: Option<i64>)
    ensures
        match signal_of(xml::views(v@)) {
            Some(n) => r matches Some(x) && x == n,
            None => r is None,
        },
{
    let s: String = match xml::scalar(v) {
        Some(s) => s,
        None => {
            return None;
        },
    };
    let t: Vec<char> = text::chars_of(s.as_str());
    let n = match decimal::read_number(t.as_slice()) {
        Some(n) => n,
        None => {
            return None;
        },
    };
    match (floats::read_single_sign(t.as_slice()), decimal::parse_fixed(t.as_slice(), 6)) {
        (Some(sign), Some(dbm)) => {
            if sign > 0 || !floats::is_single_within_two_hundred(&n) {
                None
            } else if dbm < -200_000_000 {
                Some(-200_000_000)
            } else {
                Some(dbm)
            }
        },
        _ => None,
    }
}

fn read_raw(v: &[XmlNode]) -> (r: String)
    ensures
        r@ == raw_of(xml::views(v@)),
{
    match xml::scalar(v) {
        Some(s) => s,
        None => String::new(),
    }
}

impl Flrig {
    /// The power scale is never zero.
    pub open spec fn wf(self) -> bool {
        self.max_w > 0
    }

    pub fn new(host: String) -> (r: Self)
        ensures
            r.wf(),
            r@ == (FlrigView {
                host: host@,
                buf: Seq::empty(),
                pending: Seq::empty(),
                modes: Seq::empty(),
                max_w: DEFAULT_MAX_W as int,
                xcvr: None,
                failed: false,
                lost_step: false,
                slips_in_a_row: 0,
            }),
    {
        let r = Flrig {
            host,
            buf: Vec::new(),
            pending: VecDeque::new(),
            modes: Vec::new(),
            max_w: DEFAULT_MAX_W,
            xcvr: None,
            failed: false,
            lost_step: false,
            slips_in_a_row: 0,
        };
        assert(r@.modes =~= Seq::empty());
        r
    }

    /// One complete HTTP request carrying one XML-RPC call.
    pub fn call(&self, method: &str, params: &[Param]) -> (r: Vec<u8>)
        ensures
            r@ == call_bytes(self@.host, method@, param_views(params@)),
    {
        let mut body = "<?xml version=\"1.0\"?><methodCall><methodName>".to_owned();
        body.append(method);
        body.append("</methodName><params>");
        let ghost front = body@;
        let ghost all = param_views(params@);
        let mut i: usize = 0;
        assert(body@ =~= front + params_xml(all.take(0)));
        while i < params.len()
            invariant
                i <= params@.len(),
                all == param_views(params@),
                body@ == front + params_xml(all.take(i as int)),
            decreases params@.len() - i,
        {
            push_param(&mut body, &params[i]);
            i += 1;
            assert(all.take(i as int).drop_last() =~= all.take(i - 1));
            assert(body@ =~= front + params_xml(all.take(i as int)));
        }
        assert(all.take(all.len() as int) =~= all);
        body.append("</params></methodCall>");
        assert(body@ =~= call_xml(method@, all));
        let mut out = "POST /RPC2 HTTP/1.1\r\nHost: ".to_owned();
        out.append(self.host.as_str());
        out.append("\r\nUser-Agent: sdroxide\r\nContent-Type: text/xml\r\nContent-Length: ");
        let bytes = body.as_str().as_bytes();
        text::push_dec(&mut out, bytes.len() as u64);
        out.append("\r\n\r\n");
        out.append(body.as_str());
        assert(out@ =~= call_text(self@.host, method@, all));
        out.into_bytes()
    }

    fn ask(&self, method: &str) -> (r: Vec<u8>)
        ensures
            r@ == call_bytes(self@.host, method@, Seq::empty()),
    {
        let params: Vec<Param> = Vec::new();
        assert(param_views(params@) =~= Seq::empty());
        self.call(method, params.as_slice())
    }

    /// Notes that an answer cannot belong to the request it was read against.
    fn lose_step(&mut self)
        ensures
            final(self)@ == slipped(old(self)@),
            final(self).max_w == old(self).max_w,
    {
        self.lost_step = true;
    }

    /// Interprets one response against the request at the head of the queue.
    pub fn interpret(&mut self, sent: Sent, doc: Option<Vec<XmlNode>>) -> (r: Vec<CatUpdate>)
        requires
            old(self).wf(),
        ensures
            final(self).wf(),
            (final(self)@, r@) == answer(
                old(self)@,
                sent,
                match doc {
                    Some(v) => Some(xml::views(v@)),
                    None => None,
                },
            ),
    {
        let mut out: Vec<CatUpdate> = Vec::new();
        let ghost before = self@;
        assert(out@ =~= seq![]);
        let nodes = match doc {
            Some(v) => v,
            // flrig emits clean, tiny documents; anything it would not emit is
            // safest read as nothing.
            None => return out,
        };
        let v = nodes.as_slice();
        if xml::find_tag(v, "fault").is_some() {
            self.failed = true;
            return out;
        }
        match sent {
            Sent::GetVfo => {
                let raw = text::chars_of(read_raw(v).as_str());
                match decimal::read_number(raw.as_slice()) {
                    Some(n) => {
                        if !n.negative && floats::is_double_thousand(&n)
                            && !floats::is_double_endless(&n) {
                            self.slips_in_a_row = 0;
                            match decimal::parse_fixed(raw.as_slice(), 0) {
                                Some(n) => {
                                    let t: i128 = n as i128 * 1000;
                                    let whole: i64 = if t > i64::MAX as i128 {
                                        i64::MAX
                                    } else if t < i64::MIN as i128 {
                                        i64::MIN
                                    } else {
                                        t as i64
                                    };
                                    out.push(CatUpdate::Freq(whole));
                                    assert(out@ =~= seq![CatUpdate::Freq(whole)]);
                                },
                                None => {},
                            }
                        } else if !floats::is_double_zero(&n) {
                            self.lose_step();
                        }
                    },
                    None => {
                        if raw.len() > 0 {
                            self.lose_step();
                        }
                    },
                }
            },
            Sent::GetMode => {
                match xml::scalar(v) {
                    Some(s) => match mode_from_name(s.as_str()) {
                        Some(m) => {
                            out.push(CatUpdate::Mode(m));
                            assert(out@ =~= seq![CatUpdate::Mode(m)]);
                        },
                        None => {},
                    },
                    None => {},
                }
            },
            Sent::GetModes => {
                self.modes = read_modes(v);
            },
            Sent::GetXcvr => {
                let name = read_raw(v);
                if !name.as_str().is_empty() {
                    self.xcvr = Some(name);
                }
            },
            Sent::GetMaxPwr => {
                match (read_number(v, 6), read_sign(v)) {
                    (Some(w), Some(sign)) => {
                        if sign > 0 {
                            self.max_w = if w > 0 { w } else { 1 };
                        }
                    },
                    _ => {},
                }
            },
            Sent::GetPower => {
                match read_number(v, 6) {
                    Some(w) => {
                        let p = fraction(w, self.max_w);
                        out.push(CatUpdate::Power(p));
                        assert(out@ =~= seq![CatUpdate::Power(p)]);
                    },
                    None => {},
                }
            },
            Sent::GetDbm => {
                match read_signal(v) {
                    Some(dbm) => {
                        out.push(CatUpdate::Signal(dbm));
                        assert(out@ =~= seq![CatUpdate::Signal(dbm)]);
                    },
                    None => {},
                }
            },
            Sent::GetSwr => {
                match (read_number(v, 6), read_sign(v)) {
                    (Some(raw), Some(sign)) => {
                        if sign > 0 {
                            let r = swr(raw);
                            out.push(CatUpdate::Swr(r));
                            assert(out@ =~= seq![CatUpdate::Swr(r)]);
                        }
                    },
                    _ => {},
                }
            },
            Sent::GetPo => {
                match (read_number(v, 6), read_sign(v)) {
                    (Some(w), Some(sign)) => {
                        if sign >= 0 {
                            let p = fraction(w, self.max_w);
                            out.push(CatUpdate::Po(p));
                            assert(out@ =~= seq![CatUpdate::Po(p)]);
                        }
                    },
                    _ => {},
                }
            },
            Sent::GetPtt => {
                let raw = text::chars_of(read_raw(v).as_str());
                match decimal::parse_int(raw.as_slice()) {
                    Some(n) => {
                        if -MAX_PTT_STATE <= n && n <= MAX_PTT_STATE {
                            out.push(CatUpdate::Ptt(n != 0));
                            assert(out@ =~= seq![CatUpdate::Ptt(n != 0)]);
                        } else {
                            self.lose_step();
                        }
                    },
                    None => {
                        if raw.len() > 0 {
                            self.lose_step();
                        }
                    },
                }
            },
            Sent::Other => {},
        }
        out
    }

    /// Reads whatever arrived: every complete response against the request at
    /// the head of the queue. The bytes are taken over.
    pub fn parse(&mut self, buf: &mut Vec<u8>) -> (r: Vec<CatUpdate>)
        requires
            old(self).wf(),
        ensures
            final(self).wf(),
            final(buf)@ == Seq::<u8>::empty(),
            (final(self)@, r@) == drained(
                FlrigView { buf: old(self)@.buf + old(buf)@, ..old(self)@ },
            ),
    {
        self.buf.append(buf);
        let ghost start = FlrigView { buf: old(self)@.buf + old(buf)@, ..old(self)@ };
        let mut out: Vec<CatUpdate> = Vec::new();
        assert(self@ == start);
        assert(out@ + drained(self@).1 =~= drained(start).1);
        loop
            invariant
                self.wf(),
                start == (FlrigView { buf: old(self)@.buf + old(buf)@, ..old(self)@ }),
                drained(start) == (drained(self@).0, out@ + drained(self@).1),
                final(buf)@ == Seq::<u8>::empty(),
            decreases self.buf@.len(),
        {
            let ghost before = self@;
            let ghost so_far = out@;
            let (mut updates, more) = self.take_response();
            let ghost said = updates@;
            out.append(&mut updates);
            proof {
                let l = look(before);
                if more {
                    assert(so_far + (said + drained(self@).1) =~= out@ + drained(self@).1);
                } else {
                    assert(drained(before) == (l.state, l.updates));
                }
            }
            if !more {
                return out;
            }
        }
    }

    /// Takes the first response among the bytes that have arrived, if it is
    /// complete; says whether there may be another.
    fn take_response(&mut self) -> (r: (Vec<CatUpdate>, bool))
        requires
            old(self).wf(),
        ensures
            final(self).wf(),
            look(old(self)@) == (Look { state: final(self)@, updates: r.0@, more: r.1 }),
            r.1 ==> final(self)@.buf.len() < old(self)@.buf.len(),
    {
        let mut blank: Vec<u8> = Vec::new();
        blank.push(13);
        blank.push(10);
        blank.push(13);
        blank.push(10);
        assert(blank@ =~= seq![13u8, 10u8, 13u8, 10u8]);
        let none: Vec<CatUpdate> = Vec::new();
        assert(none@ =~= seq![]);
        let head_end = match text::find_bytes(self.buf.as_slice(), blank.as_slice()) {
            Some(h) => h,
            None => return (none, false),
        };
        let head_bytes = text::copy_bytes(self.buf.as_slice(), 0, head_end);
        assert(head_bytes@ =~= self.buf@.take(head_end as int));
        let head = text::from_utf8_lossy(head_bytes.as_slice());
        let (status, content_length) = http::parse_head(head.as_str());
        let len = match content_length {
            Some(n) => n,
            None => {
                // A head that cannot be framed by is a stream that cannot be
                // stayed synchronised with.
                self.buf.clear();
                self.pending.clear();
                assert(self@.buf =~= Seq::empty());
                assert(self@.pending =~= Seq::empty());
                return (none, false);
            },
        };
        if self.buf.len() - head_end - 4 < len {
            return (none, false);
        }
        let total = head_end + 4 + len;
        let body_bytes = text::copy_bytes(self.buf.as_slice(), head_end + 4, total);
        let body = text::from_utf8_lossy(body_bytes.as_slice());
        let rest = text::copy_bytes(self.buf.as_slice(), total, self.buf.len());
        assert(rest@ =~= self.buf@.skip(total as int));
        self.buf = rest;
        match self.pending.pop_front() {
            None => {
                self.lose_step();
                (none, true)
            },
            Some(sent) => {
                assert(self@.pending =~= old(self)@.pending.skip(1));
                if status != Some(200) {
                    self.failed = true;
                    return (none, true);
                }
                let updates = self.interpret(sent, xml::read_xml(body.as_str()));
                (updates, true)
            },
        }
    }

    /// A frame was actually written: its method joins the queue.
    pub fn wrote(&mut self, frame: &[u8])
        requires
            old(self).wf(),
        ensures
            final(self).wf(),
            final(self)@ == (match method_in(frame@) {
                Some(m) => FlrigView { pending: old(self)@.pending.push(kind_of(m)), ..old(self)@ },
                None => old(self)@,
            }),
    {
        match method_of(frame) {
            Some(m) => {
                self.pending.push_back(kind(m.as_str()));
            },
            None => {},
        }
    }

    /// The link has (re)opened: the queue and the half-read reply describe a
    /// connection that no longer exists. What the rig *is* stays.
    pub fn link_opened(&mut self)
        requires
            old(self).wf(),
        ensures
            final(self).wf(),
            final(self)@ == (FlrigView {
                buf: Seq::empty(),
                pending: Seq::empty(),
                failed: false,
                lost_step: false,
                ..old(self)@
            }),
    {
        self.buf.clear();
        self.pending.clear();
        self.failed = false;
        self.lost_step = false;
        assert(self@.buf =~= Seq::empty());
        assert(self@.pending =~= Seq::empty());
    }

    /// The requests written and not yet answered.
    pub fn in_flight(&self) -> (r: usize)
        ensures
            r == self@.pending.len(),
    {
        self.pending.len()
    }

    /// Whether a command was refused since last asked.
    pub fn refused(&mut self) -> (r: bool)
        ensures
            r == old(self)@.failed,
            final(self)@ == (FlrigView { failed: false, ..old(self)@ }),
            final(self).max_w == old(self).max_w,
    {
        let r = self.failed;
        self.failed = false;
        r
    }

    /// Whether the link is to be remade because the answers have slipped:
    /// reported once, and not over and over for an answer that is given every
    /// time.
    pub fn desynced(&mut self) -> (r: bool)
        ensures
            final(self).max_w == old(self).max_w,
            !old(self)@.lost_step ==> !r && final(self)@ == old(self)@,
            old(self)@.lost_step ==> ({
                let n = if old(self)@.slips_in_a_row < 255 {
                    old(self)@.slips_in_a_row + 1
                } else {
                    255
                };
                &&& final(self)@ == (FlrigView {
                    lost_step: false,
                    slips_in_a_row: n,
                    ..old(self)@
                })
                &&& r == (n <= GIVE_UP_AFTER)
            }),
    {
        if !self.lost_step {
            return false;
        }
        self.lost_step = false;
        self.slips_in_a_row = self.slips_in_a_row.saturating_add(1);
        self.slips_in_a_row <= GIVE_UP_AFTER
    }

    /// Tunes to a frequency in thousandths of a hertz.
    pub fn set_freq(&self, hz: i64) -> (r: Vec<u8>)
        ensures
            r@ == call_bytes(
                self@.host,
                "rig.set_vfo"@,
                seq![ParamView::Double(whole_hertz(hz as int) as nat)],
            ),
    {
        let n: u64 = if hz <= 0 { 0 } else { ((hz as u64) + 500) / 1000 };
        let mut params: Vec<Param> = Vec::new();
        params.push(Param::Double(n));
        assert(param_views(params@) =~= seq![ParamView::Double(n as nat)]);
        self.call("rig.set_vfo", params.as_slice())
    }

    /// Puts the rig in a mode, by the name that this rig has for it. Where it
    /// has none, the frame is empty and writes nothing.
    pub fn set_mode(&self, m: Mode) -> (r: Vec<u8>)
        ensures
            match name_for(self@.modes, m) {
                Some(n) => r@ == call_bytes(
                    self@.host,
                    "rig.set_mode"@,
                    seq![ParamView::Str(n)],
                ),
                None => r@.len() == 0,
            },
    {
        let cands = candidates(m);
        let mut name: Option<&'static str> = None;
        assert(names(cands@)[0] == cands@[0]@);
        if self.modes.len() == 0 {
            name = Some(cands[0]);
        } else {
            let mut i: usize = 0;
            while i < cands.len() && name.is_none()
                invariant
                    i <= cands@.len(),
                    names(cands@) == candidates_of(m),
                    match name {
                        None => first_had(candidates_of(m), self@.modes, 0) == first_had(
                            candidates_of(m),
                            self@.modes,
                            i as int,
                        ),
                        Some(n) => first_had(candidates_of(m), self@.modes, 0) == Some(n@),
                    },
                decreases cands@.len() - i,
            {
                assert(names(cands@)[i as int] == cands@[i as int]@);
                if has_mode(self.modes.as_slice(), cands[i]) {
                    name = Some(cands[i]);
                }
                i += 1;
            }
        }
        match name {
            Some(n) => {
                let mut params: Vec<Param> = Vec::new();
                params.push(Param::Str(n.to_owned()));
                assert(param_views(params@) =~= seq![ParamView::Str(n@)]);
                self.call("rig.set_mode", params.as_slice())
            },
            None => Vec::new(),
        }
    }

    pub fn ptt(&self, on: bool) -> (r: Vec<u8>)
        ensures
            r@ == call_bytes(
                self@.host,
                "rig.set_ptt"@,
                seq![
                    ParamView::Int(
                        if on {
                            1
                        } else {
                            0
                        },
                    ),
                ],
            ),
    {
        self.call("rig.set_ptt", int_param(if on { 1 } else { 0 }).as_slice())
    }

    /// The whole poll: the dial and the mode.
    pub fn poll_requests(&self) -> (r: Vec<Vec<u8>>)
        ensures
            frames(r@) == seq![
                call_bytes(self@.host, "rig.get_vfo"@, Seq::empty()),
                call_bytes(self@.host, "rig.get_mode"@, Seq::empty()),
            ],
    {
        let mut v: Vec<Vec<u8>> = Vec::new();
        v.push(self.ask("rig.get_vfo"));
        v.push(self.ask("rig.get_mode"));
        assert(frames(v@) =~= seq![
            call_bytes(self@.host, "rig.get_vfo"@, Seq::empty()),
            call_bytes(self@.host, "rig.get_mode"@, Seq::empty()),
        ]);
        v
    }

    /// The dial alone.
    pub fn dial_requests(&self) -> (r: Vec<Vec<u8>>)
        ensures
            frames(r@) == seq![call_bytes(self@.host, "rig.get_vfo"@, Seq::empty())],
    {
        one(self.ask("rig.get_vfo"))
    }

    pub fn tx_telemetry_requests(&self) -> (r: Vec<Vec<u8>>)
        ensures
            frames(r@) == seq![
                call_bytes(self@.host, "rig.get_swrmeter"@, Seq::empty()),
                call_bytes(self@.host, "rig.get_pwrmeter"@, Seq::empty()),
            ],
    {
        let mut v: Vec<Vec<u8>> = Vec::new();
        v.push(self.ask("rig.get_swrmeter"));
        v.push(self.ask("rig.get_pwrmeter"));
        assert(frames(v@) =~= seq![
            call_bytes(self@.host, "rig.get_swrmeter"@, Seq::empty()),
            call_bytes(self@.host, "rig.get_pwrmeter"@, Seq::empty()),
        ]);
        v
    }

    pub fn rx_telemetry_requests(&self) -> (r: Vec<Vec<u8>>)
        ensures
            frames(r@) == seq![call_bytes(self@.host, "rig.get_DBM"@, Seq::empty())],
    {
        one(self.ask("rig.get_DBM"))
    }

    pub fn tx_state_requests(&self) -> (r: Vec<Vec<u8>>)
        ensures
            frames(r@) == seq![call_bytes(self@.host, "rig.get_ptt"@, Seq::empty())],
    {
        one(self.ask("rig.get_ptt"))
    }

    /// What the rig is, what it can do, what its modes are called — the answers
    /// everything after them is interpreted against.
    pub fn open_requests(&self) -> (r: Vec<Vec<u8>>)
        ensures
            frames(r@) == seq![
                call_bytes(self@.host, "rig.get_xcvr"@, Seq::empty()),
                call_bytes(self@.host, "rig.get_maxpwr"@, Seq::empty()),
                call_bytes(self@.host, "rig.get_modes"@, Seq::empty()),
            ],
    {
        let mut v: Vec<Vec<u8>> = Vec::new();
        v.push(self.ask("rig.get_xcvr"));
        v.push(self.ask("rig.get_maxpwr"));
        v.push(self.ask("rig.get_modes"));
        assert(frames(v@) =~= seq![
            call_bytes(self@.host, "rig.get_xcvr"@, Seq::empty()),
            call_bytes(self@.host, "rig.get_maxpwr"@, Seq::empty()),
            call_bytes(self@.host, "rig.get_modes"@, Seq::empty()),
        ]);
        v
    }

    /// Split is the one offset flrig's interface can switch off.
    pub fn clear_offsets(&self) -> (r: Vec<Vec<u8>>)
        ensures
            frames(r@) == seq![call_bytes(self@.host, "rig.set_split"@, seq![ParamView::Int(0)])],
    {
        one(self.call("rig.set_split", int_param(0).as_slice()))
    }

    /// How much text the keyer is handed at a time.
    pub fn cw_chunk_len(&self) -> (r: usize)
        ensures
            r == 24,
    {
        24
    }

    /// Queues text for the keyer, and starts it.
    pub fn send_cw(&self, text: String) -> (r: Vec<Vec<u8>>)
        ensures
            frames(r@) == seq![
                call_bytes(self@.host, "rig.cwio_text"@, seq![ParamView::Str(text@)]),
                call_bytes(self@.host, "rig.cwio_send"@, seq![ParamView::Int(1)]),
            ],
    {
        let ghost t = text@;
        let mut params: Vec<Param> = Vec::new();
        params.push(Param::Str(text));
        assert(param_views(params@) =~= seq![ParamView::Str(t)]);
        let mut v: Vec<Vec<u8>> = Vec::new();
        v.push(self.call("rig.cwio_text", params.as_slice()));
        v.push(self.call("rig.cwio_send", int_param(1).as_slice()));
        assert(frames(v@) =~= seq![
            call_bytes(self@.host, "rig.cwio_text"@, seq![ParamView::Str(t)]),
            call_bytes(self@.host, "rig.cwio_send"@, seq![ParamView::Int(1)]),
        ]);
        v
    }

    pub fn abort_cw(&self) -> (r: Vec<Vec<u8>>)
        ensures
            frames(r@) == seq![call_bytes(self@.host, "rig.cwio_send"@, seq![ParamView::Int(0)])],
    {
        one(self.call("rig.cwio_send", int_param(0).as_slice()))
    }

    /// The keyer's speed in whole words a minute, never under one.
    pub fn set_cw_wpm(&self, wpm: u32) -> (r: Vec<Vec<u8>>)
        ensures
            frames(r@) == seq![
                call_bytes(
                    self@.host,
                    "rig.cwio_set_wpm"@,
                    seq![
                        ParamView::Int(
                            if wpm < 1 {
                                1
                            } else {
                                wpm as int
                            },
                        ),
                    ],
                ),
            ],
    {
        let n: i64 = if wpm < 1 { 1 } else { wpm as i64 };
        one(self.call("rig.cwio_set_wpm", int_param(n).as_slice()))
    }

    /// The receive filter, as a width for flrig to snap to what its driver has.
    pub fn set_filter(&self, lo: i64, hi: i64) -> (r: Vec<Vec<u8>>)
        ensures
            frames(r@) == seq![
                call_bytes(
                    self@.host,
                    "rig.set_bandwidth"@,
                    seq![ParamView::Int(width_of(lo as int, hi as int))],
                ),
            ],
    {
        let a: i128 = lo as i128;
        let b: i128 = hi as i128;
        let d: i128 = if b >= a { b - a } else { a - b };
        let w: i128 = (d + 500) / 1000;
        let n: i64 = if w < 50 { 50 } else { w as i64 };
        assert(n == width_of(lo as int, hi as int));
        one(self.call("rig.set_bandwidth", int_param(n).as_slice()))
    }

    /// The transmit power, in whole watts of what the rig has.
    pub fn set_power(&self, level: i64) -> (r: Vec<Vec<u8>>)
        requires
            self.wf(),
        ensures
            frames(r@) == seq![
                call_bytes(
                    self@.host,
                    "rig.set_power"@,
                    seq![ParamView::Int(watts_of(level as int, self@.max_w))],
                ),
            ],
    {
        let l: i128 = if level < 0 {
            0
        } else if level > 1_000_000 {
            1_000_000
        } else {
            level as i128
        };
        let m: i128 = self.max_w as i128;
        proof {
            assert(0 <= l * m <= 1_000_000 * m) by (nonlinear_arith)
                requires
                    0 <= l <= 1_000_000,
                    m > 0,
            ;
        }
        let w: i128 = (l * m + 500_000_000_000) / 1_000_000_000_000;
        let n: i64 = if w < 1 { 1 } else { w as i64 };
        one(self.call("rig.set_power", int_param(n).as_slice()))
    }

    pub fn read_power(&self) -> (r: Vec<Vec<u8>>)
        ensures
            frames(r@) == seq![call_bytes(self@.host, "rig.get_power"@, Seq::empty())],
    {
        one(self.ask("rig.get_power"))
    }

    /// Whether a mode change can move the dial: an Elecraft shifts its VFO with
    /// the mode behind flrig exactly as on a direct link.
    pub fn mode_moves_dial(&self) -> (r: bool)
        ensures
            r == (self@.xcvr matches Some(x) && shifts_dial(x)),
    {
        match &self.xcvr {
            Some(x) => {
                let v = text::chars_of(x.as_str());
                let u = text::upper_chars(text::trim_chars(v.as_slice()).as_slice());
                text::starts_with(u.as_slice(), "K2") || text::starts_with(u.as_slice(), "K3")
                    || text::starts_with(u.as_slice(), "K4") || text::starts_with(
                    u.as_slice(),
                    "KX",
                )
            },
            None => false,
        }
    }
}

/// A text that is a number with some places is one with any.

/// Every mode that is commanded by its first name reads back as itself.
pub proof fn law_commanded_modes_read_back(m: Mode)
    requires
        m == Mode::Lsb || m == Mode::Usb || m == Mode::Cw || m == Mode::Am || m == Mode::Dsb || m
            == Mode::Nfm || m == Mode::Wfm || m == Mode::Digl || m == Mode::Digu,
    ensures
        mode_named(candidates_of(m)[0]) == Some(m),
{
    reveal_strlit("LSB");
    reveal_strlit("USB");
    reveal_strlit("CW");
    reveal_strlit("CW-R");
    reveal_strlit("CWR");
    reveal_strlit("CW-L");
    reveal_strlit("CW-U");
    reveal_strlit("AM");
    reveal_strlit("AM-N");
    reveal_strlit("AMN");
    reveal_strlit("DSB");
    reveal_strlit("FM");
    reveal_strlit("FM-N");
    reveal_strlit("FMN");
    reveal_strlit("NFM");
    reveal_strlit("WFM");
    reveal_strlit("FM-W");
    reveal_strlit("FMW");
    reveal_strlit("DATA");
    reveal_strlit("DATA-U");
    reveal_strlit("DATA-R");
    reveal_strlit("DIGU");
    reveal_strlit("PKT-USB");
    reveal_strlit("PKTUSB");
    reveal_strlit("PKT-U");
    reveal_strlit("USB-D");
    reveal_strlit("DIG");
    reveal_strlit("PKT");
    let n = candidates_of(m)[0];
    assert(n.len() > 0);
    assert(!text::is_white(n[0]));
    assert(!text::is_white(n[n.len() - 1]));
    assert(text::trim(n) == n);
    assert(text::uppers(n) =~= n);
}

/// A frequency read that is answered with a number no dial could show — a meter
/// reading, or the S-meter's negative dBm — reports nothing, and counts as a
/// slip.
pub proof fn law_a_meter_reading_is_not_a_dial(
    f: FlrigView,
    nodes: Seq<NodeView>,
    n: decimal::Number,
)
    requires
        decimal::number_in(raw_of(nodes)) == Some(n),
        !is_dial(n),
        !floats::double_is_zero(n),
        !xml::has_tag(nodes, "fault"@),
    ensures
        answer(f, Sent::GetVfo, Some(nodes)) == (slipped(f), Seq::<CatUpdate>::empty()),
{
    assert(answer(f, Sent::GetVfo, Some(nodes)).1 =~= Seq::<CatUpdate>::empty());
}

/// A transmit-state read that is answered with a number no transmit state could
/// be reports no over, and counts as a slip.
pub proof fn law_a_frequency_is_not_a_transmit_state(f: FlrigView, nodes: Seq<NodeView>, n: int)
    requires
        decimal::int_of(raw_of(nodes)) == Some(n),
        n > MAX_PTT_STATE || n < -MAX_PTT_STATE,
        !xml::has_tag(nodes, "fault"@),
    ensures
        answer(f, Sent::GetPtt, Some(nodes)) == (slipped(f), Seq::<CatUpdate>::empty()),
{
    assert(answer(f, Sent::GetPtt, Some(nodes)).1 =~= Seq::<CatUpdate>::empty());
}

/// Each response that is taken answers the request at the head of the queue and
/// no other; one that nobody asked for is a slip.
pub proof fn law_one_answer_one_request(f: FlrigView)
    requires
        look(f).more,
    ensures
        f.pending.len() > 0 ==> look(f).state.pending == f.pending.skip(1),
        f.pending.len() == 0 ==> look(f).state.lost_step && look(f).updates.len() == 0,
{
}

/// Whether every head among the bytes that are taken gives a length.
pub open spec fn framed(f: FlrigView) -> bool
    decreases f.buf.len(),
{
    let l = look(f);
    &&& (match text::find_seq(f.buf, seq![13u8, 10u8, 13u8, 10u8], 0) {
        None => true,
        Some(h) => {
            let head = http::lines_of(text::utf8_lossy(f.buf.take(h)));
            match http::length_of(head, head.len() as int) {
                None => false,
                Some(n) => n >= 0,
            }
        },
    })
    &&& l.more && l.state.buf.len() < f.buf.len() ==> framed(l.state)
}

proof fn lemma_find_seq_prefix(a: Seq<u8>, b: Seq<u8>, pat: Seq<u8>, from: int)
    requires
        text::find_seq(a, pat, from) is Some,
        0 <= from,
    ensures
        text::find_seq(a + b, pat, from) == text::find_seq(a, pat, from),
        ({
            let h = text::find_seq(a, pat, from)->0;
            from <= h && h + pat.len() <= a.len()
        }),
    decreases a.len() + 1 - from,
{
    assert((a + b).subrange(from, from + pat.len()) =~= a.subrange(from, from + pat.len()));
    if a.subrange(from, from + pat.len()) != pat {
        lemma_find_seq_prefix(a, b, pat, from + 1);
    }
}

proof fn lemma_answer_keeps_bytes(f: FlrigView, b: Seq<u8>, sent: Sent, doc: Option<Seq<NodeView>>)
    ensures
        ({
            let a = answer(f, sent, doc);
            let c = answer(FlrigView { buf: b, ..f }, sent, doc);
            &&& a.0.buf == f.buf
            &&& c.0 == (FlrigView { buf: b, ..a.0 })
            &&& c.1 == a.1
        }),
{
}

proof fn lemma_look_with_more_bytes(f: FlrigView, b: Seq<u8>)
    requires
        framed(f),
        look(f).more,
    ensures
        ({
            let l = look(f);
            look(FlrigView { buf: f.buf + b, ..f }) == (Look {
                state: FlrigView { buf: l.state.buf + b, ..l.state },
                updates: l.updates,
                more: true,
            })
        }),
        look(f).state.buf.len() < f.buf.len(),
{
    let whole = FlrigView { buf: f.buf + b, ..f };
    let pat = seq![13u8, 10u8, 13u8, 10u8];
    lemma_find_seq_prefix(f.buf, b, pat, 0);
    let h = text::find_seq(f.buf, pat, 0)->0;
    assert(whole.buf.take(h) =~= f.buf.take(h));
    let head = http::lines_of(text::utf8_lossy(f.buf.take(h)));
    let n = http::length_of(head, head.len() as int)->0;
    let total = h + 4 + n;
    assert(whole.buf.skip(total) =~= f.buf.skip(total) + b);
    assert(whole.buf.subrange(h + 4, total) =~= f.buf.subrange(h + 4, total));
    if f.pending.len() > 0 {
        let taken = FlrigView { pending: f.pending.skip(1), buf: f.buf.skip(total), ..f };
        let body = text::utf8_lossy(f.buf.subrange(h + 4, total));
        lemma_answer_keeps_bytes(
            taken,
            f.buf.skip(total) + b,
            f.pending[0],
            xml::nodes_of(body),
        );
    }
}

proof fn lemma_drained_step(f: FlrigView, b: Seq<u8>)
    requires
        framed(f),
    ensures
        ({
            let l = look(f);
            let whole = FlrigView { buf: f.buf + b, ..f };
            if l.more {
                let next = FlrigView { buf: l.state.buf + b, ..l.state };
                &&& framed(l.state)
                &&& l.state.buf.len() < f.buf.len()
                &&& drained(f) == (drained(l.state).0, l.updates + drained(l.state).1)
                &&& drained(whole) == (drained(next).0, l.updates + drained(next).1)
            } else {
                drained(f) == (f, Seq::<CatUpdate>::empty())
            }
        }),
{
    let l = look(f);
    if l.more {
        lemma_look_with_more_bytes(f, b);
    } else {
        assert(l.updates =~= Seq::<CatUpdate>::empty());
    }
}

/// However the bytes of a reply are split across reads, it is read the same:
/// reading some bytes and then some more is reading them all at once, as long
/// as every response gives its length.
pub proof fn law_split_replies_are_reassembled(f: FlrigView, b: Seq<u8>)
    requires
        framed(f),
    ensures
        ({
            let first = drained(f);
            let second = drained(FlrigView { buf: first.0.buf + b, ..first.0 });
            drained(FlrigView { buf: f.buf + b, ..f }) == (second.0, first.1 + second.1)
        }),
    decreases f.buf.len(),
{
    lemma_drained_step(f, b);
    let l = look(f);
    let empty = Seq::<CatUpdate>::empty();
    if l.more {
        let rest = drained(l.state);
        let second = drained(FlrigView { buf: rest.0.buf + b, ..rest.0 });
        law_split_replies_are_reassembled(l.state, b);
        assert(l.updates + (rest.1 + second.1) =~= (l.updates + rest.1) + second.1);
    } else {
        let whole = FlrigView { buf: f.buf + b, ..f };
        assert(empty + drained(whole).1 =~= drained(whole).1);
    }
}

} // verus!
