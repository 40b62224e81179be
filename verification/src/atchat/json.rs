//! The texts in a JSON object, as far as a message is read from them.
use crate::atchat::channel::{self, Fields, HelloError};
use crate::atchat::netproto;
use crate::atchat::netproto::NotBase64;
use crate::text;
use vstd::prelude::*;

verus! {

broadcast use vstd::seq::group_seq_axioms;

/// What `serde_json::from_str` makes of a text, looked up under a name: nothing
/// where the text is not JSON, and no text where there is none under the name.
pub uninterp spec fn json_string(line: Seq<char>, name: Seq<char>) -> Option<Option<Seq<char>>>;

/// What `serde_json::from_slice` makes of some bytes, looked up under a name.
pub uninterp spec fn json_string_in(data: Seq<u8>, name: Seq<char>) -> Option<Option<Seq<char>>>;

/// A text that may be there.
pub open spec fn text_of(s: Option<String>) -> Option<Seq<char>> {
    match s {
        Some(t) => Some(t@),
        None => None,
    }
}

/// `serde_json::from_str` into a `serde_json::Value`, and of that what `get` and
/// `as_str` give for three names.
#[verifier::external_body]
fn json_fields(line: &str, a: &str, b: &str, c: &str) -> (r: Option<
    (Option<String>, Option<String>, Option<String>),
>)
    ensures
        match r {
            Some(f) => {
                &&& json_string(line@, a@) == Some(text_of(f.0))
                &&& json_string(line@, b@) == Some(text_of(f.1))
                &&& json_string(line@, c@) == Some(text_of(f.2))
            },
            None => {
                &&& json_string(line@, a@) is None
                &&& json_string(line@, b@) is None
                &&& json_string(line@, c@) is None
            },
        },
{
    let v: serde_json::Value = serde_json::from_str(line).ok()?;
    let get = |name: &str| v.get(name).and_then(|x| x.as_str()).map(str::to_string);
    Some((get(a), get(b), get(c)))
}

/// `serde_json::from_slice` into a `serde_json::Value`, and of that what `get`
/// and `as_str` give for three names.
#[verifier::external_body]
fn json_fields_in(data: &[u8], a: &str, b: &str, c: &str) -> (r: Option<
    (Option<String>, Option<String>, Option<String>),
>)
    ensures
        match r {
            Some(f) => {
                &&& json_string_in(data@, a@) == Some(text_of(f.0))
                &&& json_string_in(data@, b@) == Some(text_of(f.1))
                &&& json_string_in(data@, c@) == Some(text_of(f.2))
            },
            None => {
                &&& json_string_in(data@, a@) is None
                &&& json_string_in(data@, b@) is None
                &&& json_string_in(data@, c@) is None
            },
        },
{
    let v: serde_json::Value = serde_json::from_slice(data).ok()?;
    let get = |name: &str| v.get(name).and_then(|x| x.as_str()).map(str::to_string);
    Some((get(a), get(b), get(c)))
}

/// What a line says under a name. White space at its end is not part of it.
pub open spec fn said(line: Seq<char>, name: Seq<char>) -> Option<Option<Seq<char>>> {
    json_string(text::trim_back(line), name)
}

/// The fields of a message, as far as it has them; none where the line is not
/// JSON.
pub fn fields_of(line: &str) -> (r: Option<Fields>)
    ensures
        match r {
            Some(f) => {
                &&& said(line@, "cmd"@) == Some(text_of(f.cmd))
                &&& said(line@, "callsign"@) == Some(text_of(f.callsign))
                &&& said(line@, "audio_b64"@) == Some(text_of(f.audio_b64))
            },
            None => {
                &&& said(line@, "cmd"@) is None
                &&& said(line@, "callsign"@) is None
                &&& said(line@, "audio_b64"@) is None
            },
        },
{
    let v: Vec<char> = text::trim_end_chars(text::chars_of(line).as_slice());
    let s: String = text::string_of(v.as_slice());
    match json_fields(s.as_str(), "cmd", "callsign", "audio_b64") {
        Some((cmd, callsign, audio_b64)) => Some(Fields { cmd, callsign, audio_b64 }),
        None => None,
    }
}

/// A connection's first line, empty where the connection ended: a hello with the
/// callsign to register.
pub fn first_line(line: &str) -> (r: Result<String, HelloError>)
    ensures
        if line@.len() == 0 {
            r == Err::<String, HelloError>(HelloError::Eof)
        } else {
            match said(line@, "cmd"@) {
                None => r == Err::<String, HelloError>(HelloError::NotJson),
                Some(cmd) => if cmd != Some("HELLO"@) {
                    r == Err::<String, HelloError>(HelloError::NotHello)
                } else {
                    match said(line@, "callsign"@)->0 {
                        None => r == Err::<String, HelloError>(HelloError::NoCallsign),
                        Some(c) => r matches Ok(s) && s@ == c,
                    }
                },
            }
        },
{
    if text::chars_of(line).len() == 0 {
        return Err(HelloError::Eof);
    }
    match fields_of(line) {
        Some(f) => channel::first_message(Some(f)),
        None => Err(HelloError::NotJson),
    }
}

/// What a later line of a connection asks for.
#[derive(Debug, Clone, PartialEq, Eq)]
pub enum Asked {
    /// The connection ended.
    End,
    /// Nothing that is known.
    Nothing,
    /// These samples are to be transmitted.
    Transmit(Vec<i16>),
    /// The line is not JSON, which ends the connection.
    NotJson,
    /// The audio is not base64, which ends the connection.
    NotBase64,
}

/// A connection's later line, empty where the connection ended.
pub fn later_line(line: &str) -> (r: Asked)
    ensures
        if line@.len() == 0 {
            r is End
        } else {
            match said(line@, "cmd"@) {
                None => r is NotJson,
                Some(cmd) => match said(line@, "audio_b64"@)->0 {
                    Some(b) => if cmd == Some("TRANSMIT_AUDIO"@) {
                        match crate::atchat::link::text_samples(b) {
                            Some(s) => r matches Asked::Transmit(v) && v@ == s,
                            None => r is NotBase64,
                        }
                    } else {
                        r is Nothing
                    },
                    None => r is Nothing,
                },
            }
        },
{
    if text::chars_of(line).len() == 0 {
        return Asked::End;
    }
    match fields_of(line) {
        Some(f) => match channel::later_message(&f) {
            Ok(Some(v)) => Asked::Transmit(v),
            Ok(None) => Asked::Nothing,
            Err(NotBase64) => Asked::NotBase64,
        },
        None => Asked::NotJson,
    }
}

/// A text that may be there, or what stands for it.
pub open spec fn or_else(s: Option<Seq<char>>, d: Seq<char>) -> Seq<char> {
    match s {
        Some(t) => t,
        None => d,
    }
}

/// What a passive listener notes of a payload: who sent it, for whom, and what it
/// is. Nothing where it is not JSON.
pub fn summary_of(payload: &[u8]) -> (r: Option<String>)
    ensures
        match json_string_in(payload@, "src"@) {
            Some(src) => r matches Some(s) && s@ == or_else(src, "?"@) + " -> "@ + or_else(
                json_string_in(payload@, "dst"@)->0,
                "ALL"@,
            ) + " | "@ + or_else(json_string_in(payload@, "type"@)->0, "?"@),
            None => r is None,
        },
{
    match json_fields_in(payload, "src", "dst", "type") {
        Some((src, dst, kind)) => Some(netproto::summary(src, dst, kind)),
        None => None,
    }
}

} // verus!
