//! Messages, acknowledgements, rejections and bulletins, and the status report.
//!
//! The one part of APRS that is a conversation, and the only part with a retry:
//! a message with an identifier is sent again until the addressee acknowledges
//! it or the sender gives up.
use crate::aprs::wire;
use crate::aprs::wire::Class;
use crate::aprs::{AprsError, Fault};
use crate::text;
use vstd::prelude::*;

verus! {

broadcast use vstd::seq::group_seq_axioms;

/// What a message turned out to be.
#[derive(Debug, Clone, Copy, PartialEq, Eq, Structural)]
pub enum MessageKind {
    /// Traffic for one station.
    Text,
    /// An acknowledgement of a message.
    Ack,
    /// A refusal: the addressee will not take it, and it must not be sent again.
    Rej,
    /// A bulletin, addressed to `BLNn`, which nobody acknowledges.
    Bulletin,
    /// What a station says of its own telemetry.
    TelemetryDef,
}

impl MessageKind {
    pub open spec fn name(self) -> Seq<char> {
        match self {
            MessageKind::Text => "message"@,
            MessageKind::Ack => "ack"@,
            MessageKind::Rej => "reject"@,
            MessageKind::Bulletin => "bulletin"@,
            MessageKind::TelemetryDef => "telemetry def"@,
        }
    }

    pub fn label(self) -> (r: &'static str)
        ensures
            r@ == self.name(),
    {
        match self {
            MessageKind::Text => "message",
            MessageKind::Ack => "ack",
            MessageKind::Rej => "reject",
            MessageKind::Bulletin => "bulletin",
            MessageKind::TelemetryDef => "telemetry def",
        }
    }
}

/// One message.
#[derive(Debug, Clone, PartialEq, Eq)]
pub struct Message {
    /// Who it is for, without its padding.
    pub addressee: String,
    pub text: String,
    /// The identifier, empty where there is none: nobody acknowledges such a
    /// message.
    pub id: String,
    /// The identifier that this message acknowledges along the way.
    pub reply_ack: String,
    pub kind: MessageKind,
}

/// A message as it is spoken of.
pub struct MessageView {
    pub addressee: Seq<char>,
    pub text: Seq<char>,
    pub id: Seq<char>,
    pub reply_ack: Seq<char>,
    pub kind: MessageKind,
}

impl View for Message {
    type V = MessageView;

    open spec fn view(&self) -> MessageView {
        MessageView {
            addressee: self.addressee@,
            text: self.text@,
            id: self.id@,
            reply_ack: self.reply_ack@,
            kind: self.kind,
        }
    }
}

pub open spec fn all_alnum(s: Seq<char>) -> bool {
    forall|i: int| 0 <= i < s.len() ==> wire::alnum(#[trigger] s[i])
}

/// The identifier behind a tag: one to five letters and digits and nothing else.
/// Not every text that begins with `ack` is an acknowledgement.
pub open spec fn tagged(body: Seq<char>, tag: Seq<char>) -> Option<Seq<char>> {
    if text::has_prefix(body, tag) {
        let id = text::trim_back(body.skip(3));
        if 0 < id.len() <= 5 && all_alnum(id) {
            Some(id)
        } else {
            None
        }
    } else {
        None
    }
}

/// The last place where `c` stands, or -1.
pub open spec fn last_of(s: Seq<char>, c: char) -> int
    decreases s.len(),
{
    if s.len() == 0 {
        -1
    } else if s.last() == c {
        s.len() - 1
    } else {
        last_of(s.drop_last(), c)
    }
}

/// A body as its text, its identifier and the identifier that it acknowledges:
/// the identifier is what is behind the last brace, if that is near the end.
pub open spec fn parts_of(body: Seq<char>) -> (Seq<char>, Seq<char>, Seq<char>) {
    let i = last_of(body, '{');
    if i >= 0 && text::utf8_len(body.skip(i)) <= 12 {
        let tail = body.skip(i + 1);
        let k = text::find(tail, '}');
        if k < tail.len() {
            (body.take(i), tail.take(k), tail.skip(k + 1))
        } else {
            (body.take(i), tail, Seq::empty())
        }
    } else {
        (body, Seq::empty(), Seq::empty())
    }
}

pub open spec fn kind_of(addressee: Seq<char>, body_text: Seq<char>) -> MessageKind {
    if text::has_prefix(addressee, "BLN"@) {
        MessageKind::Bulletin
    } else if text::has_prefix(body_text, "PARM."@) || text::has_prefix(body_text, "UNIT."@)
        || text::has_prefix(body_text, "EQNS."@) || text::has_prefix(body_text, "BITS."@) {
        MessageKind::TelemetryDef
    } else {
        MessageKind::Text
    }
}

/// The message of an addressee and a body.
pub open spec fn message_of(addressee: Seq<char>, body: Seq<char>) -> MessageView {
    match tagged(body, "ack"@) {
        Some(id) => MessageView {
            addressee,
            text: Seq::empty(),
            id,
            reply_ack: Seq::empty(),
            kind: MessageKind::Ack,
        },
        None => match tagged(body, "rej"@) {
            Some(id) => MessageView {
                addressee,
                text: Seq::empty(),
                id,
                reply_ack: Seq::empty(),
                kind: MessageKind::Rej,
            },
            None => {
                let (t, id, reply_ack) = parts_of(body);
                MessageView {
                    addressee,
                    text: text::trim_back(t),
                    id,
                    reply_ack,
                    kind: kind_of(addressee, t),
                }
            },
        },
    }
}

/// A message frame without its first byte. The addressee is nine wide and has a
/// colon behind it; a colon in the text splits nothing.
pub open spec fn reading(rest: Seq<u8>) -> Result<MessageView, Fault> {
    if rest.len() < 10 || rest[9] != 0x3a {
        Err(Fault::Malformed("message addressee"@))
    } else {
        Ok(
            message_of(
                text::trim_back(wire::shown(rest.subrange(0, 9))),
                wire::shown(rest.subrange(10, rest.len() as int)),
            ),
        )
    }
}

/// The nine-character addressee field.
pub open spec fn pad9(to: Seq<char>) -> Seq<char> {
    wire::padded(wire::first(text::uppers(wire::keep(to, Class::Graphic)), 9), 9)
}

/// What a message may carry of a text.
pub open spec fn cleaned(t: Seq<char>) -> Seq<char> {
    wire::first(wire::keep(t, Class::Text), 67)
}

/// What a frame may carry of an identifier.
pub open spec fn id_of(id: Seq<char>) -> Seq<char> {
    wire::first(wire::keep(id, Class::Alnum), 5)
}

pub open spec fn framed(to: Seq<char>, body: Seq<char>) -> Seq<char> {
    seq![':'] + pad9(to) + seq![':'] + body
}

/// A message on the wire.
pub open spec fn message_text(to: Seq<char>, t: Seq<char>, id: Seq<char>) -> Seq<char> {
    framed(
        to,
        cleaned(t) + if id.len() > 0 {
            seq!['{'] + id_of(id)
        } else {
            Seq::empty()
        },
    )
}

proof fn lemma_pad9(to: Seq<char>)
    ensures
        pad9(to).len() == 9,
        forall|i: int| 0 <= i < 9 ==> Class::Name.has(#[trigger] pad9(to)[i]),
{
    let k = wire::keep(to, Class::Graphic);
    wire::lemma_keep_holds(to, Class::Graphic);
    let u = text::uppers(k);
    assert forall|i: int| 0 <= i < u.len() implies wire::graphic(#[trigger] u[i]) by {
        assert(Class::Graphic.has(k[i]));
    }
    let f = wire::first(u, 9);
    assert forall|i: int| 0 <= i < f.len() implies wire::graphic(#[trigger] f[i]) by {
        assert(wire::graphic(u[i]));
    }
}

proof fn lemma_cleaned(t: Seq<char>)
    ensures
        cleaned(t).len() <= 67,
        forall|i: int| 0 <= i < cleaned(t).len() ==> Class::Text.has(#[trigger] cleaned(t)[i]),
{
    wire::lemma_keep_holds(t, Class::Text);
    assert forall|i: int| 0 <= i < cleaned(t).len() implies Class::Text.has(
        #[trigger] cleaned(t)[i],
    ) by {
        assert(Class::Text.has(wire::keep(t, Class::Text)[i]));
    }
}

proof fn lemma_id(id: Seq<char>)
    ensures
        id_of(id).len() <= 5,
        all_alnum(id_of(id)),
{
    wire::lemma_keep_holds(id, Class::Alnum);
    assert forall|i: int| 0 <= i < id_of(id).len() implies wire::alnum(#[trigger] id_of(id)[i]) by {
        assert(Class::Alnum.has(wire::keep(id, Class::Alnum)[i]));
    }
}

/// A frame of an addressee and a body reads as just those.
proof fn lemma_framed(to: Seq<char>, body: Seq<char>)
    requires
        forall|i: int| 0 <= i < body.len() ==> Class::Name.has(#[trigger] body[i]),
    ensures
        ({
            let b = vstd::utf8::encode_utf8(framed(to, body));
            &&& b.len() == 11 + body.len()
            &&& b[0] == 0x3a
            &&& reading(b.skip(1)) == Ok::<MessageView, Fault>(
                message_of(text::trim_back(pad9(to)), body),
            )
        }),
{
    lemma_pad9(to);
    let s = framed(to, body);
    assert forall|i: int| 0 <= i < s.len() implies Class::Name.has(#[trigger] s[i]) by {
        if 1 <= i < 10 {
            assert(s[i] == pad9(to)[i - 1]);
        } else if i >= 11 {
            assert(s[i] == body[i - 11]);
        }
    }
    wire::lemma_shown(s);
    wire::lemma_ascii_bytes(s);
    wire::lemma_shown(pad9(to));
    wire::lemma_shown(body);
    let rest = wire::bytes_of(s).skip(1);
    assert(rest[9] == s[10] as u8);
    assert(rest.subrange(0, 9) =~= wire::bytes_of(pad9(to)));
    assert(rest.subrange(10, rest.len() as int) =~= wire::bytes_of(body));
}

proof fn lemma_last_of(s: Seq<char>, c: char, k: int)
    requires
        0 <= k < s.len(),
        s[k] == c,
        forall|i: int| k < i < s.len() ==> s[i] != c,
    ensures
        last_of(s, c) == k,
    decreases s.len(),
{
    if k < s.len() - 1 {
        lemma_last_of(s.drop_last(), c, k);
    }
}

proof fn lemma_ascii_len(s: Seq<char>)
    requires
        forall|i: int| 0 <= i < s.len() ==> (#[trigger] s[i]) as u32 <= 0x7f,
    ensures
        text::utf8_len(s) == s.len(),
    decreases s.len(),
{
    if s.len() > 0 {
        assert(s[s.len() - 1] as u32 <= 0x7f);
        lemma_ascii_len(s.drop_last());
    }
}

/// A message with an identifier reads back as it was sent: the addressee in
/// upper case, what a message may carry of the text, and the identifier. No
/// text is taken for an acknowledgement, and no brace in it cuts it short.
pub proof fn law_message_reads_back(to: Seq<char>, t: Seq<char>, id: Seq<char>)
    requires
        id_of(id).len() > 0,
    ensures
        ({
            let b = vstd::utf8::encode_utf8(message_text(to, t, id));
            let addressee = text::trim_back(pad9(to));
            &&& b.len() > 0 && b[0] == 0x3a
            &&& reading(b.skip(1)) == Ok::<MessageView, Fault>(
                MessageView {
                    addressee,
                    text: text::trim_back(cleaned(t)),
                    id: id_of(id),
                    reply_ack: Seq::empty(),
                    kind: kind_of(addressee, cleaned(t)),
                },
            )
        }),
{
    lemma_cleaned(t);
    lemma_id(id);
    wire::lemma_keep_holds(id, Class::Alnum);
    let c = cleaned(t);
    let d = id_of(id);
    let body = c + (seq!['{'] + d);
    let k = c.len() as int;
    assert forall|i: int| 0 <= i < body.len() implies Class::Name.has(#[trigger] body[i]) by {
        if i < k {
            assert(Class::Text.has(c[i]));
        } else if i > k {
            assert(wire::alnum(d[i - k - 1]));
        }
    }
    assert(id.len() > 0);
    lemma_framed(to, body);
    assert forall|i: int| k < i < body.len() implies body[i] != '{' by {
        assert(wire::alnum(d[i - k - 1]));
    }
    lemma_not_tagged(body, k);
    lemma_last_of(body, '{', k);
    assert(body.skip(k + 1) =~= d);
    assert(body.take(k) =~= c);
    assert forall|i: int| 0 <= i < body.skip(k).len() implies (#[trigger] body.skip(k)[i]) as u32
        <= 0x7f by {
        assert(Class::Name.has(body[k + i]));
    }
    lemma_ascii_len(body.skip(k));
    assert forall|i: int| 0 <= i < d.len() implies d[i] != '}' by {
        assert(wire::alnum(d[i]));
    }
    text::lemma_find_from(d, '}', 0, d.len() as int);
}

/// A body with a brace in it and a letter or a digit at its end is no
/// acknowledgement and no rejection.
proof fn lemma_not_tagged(body: Seq<char>, k: int)
    requires
        0 <= k < body.len(),
        body[k] == '{',
        wire::alnum(body.last()),
    ensures
        tagged(body, "ack"@) is None,
        tagged(body, "rej"@) is None,
{
    reveal_strlit("ack");
    reveal_strlit("rej");
    if body.len() >= 3 {
        let rest = body.skip(3);
        if rest.len() > 0 {
            assert(rest.last() == body.last());
            assert(text::trim_back(rest) == rest);
        }
        if k >= 3 {
            assert(rest[k - 3] == '{');
            assert(!wire::alnum(rest[k - 3]));
        } else {
            assert(body.take(3)[k] == '{');
        }
    }
}

proof fn lemma_tagged(tag: Seq<char>, d: Seq<char>)
    requires
        tag.len() == 3,
        0 < d.len() <= 5,
        all_alnum(d),
    ensures
        tagged(tag + d, tag) == Some(d),
{
    let body = tag + d;
    assert(body.take(3) =~= tag);
    assert(body.skip(3) =~= d);
    assert(wire::alnum(d[d.len() - 1]));
    assert(text::trim_back(d) == d);
}

/// An acknowledgement reads back as one of the same identifier.
pub proof fn law_ack_reads_back(to: Seq<char>, id: Seq<char>)
    requires
        id_of(id).len() > 0,
    ensures
        ({
            let b = vstd::utf8::encode_utf8(framed(to, "ack"@ + id_of(id)));
            &&& b.len() > 0 && b[0] == 0x3a
            &&& reading(b.skip(1)) == Ok::<MessageView, Fault>(
                MessageView {
                    addressee: text::trim_back(pad9(to)),
                    text: Seq::empty(),
                    id: id_of(id),
                    reply_ack: Seq::empty(),
                    kind: MessageKind::Ack,
                },
            )
        }),
{
    reveal_strlit("ack");
    lemma_id(id);
    let d = id_of(id);
    let body = "ack"@ + d;
    assert forall|i: int| 0 <= i < body.len() implies Class::Name.has(#[trigger] body[i]) by {
        if i >= 3 {
            assert(wire::alnum(d[i - 3]));
        }
    }
    lemma_framed(to, body);
    lemma_tagged("ack"@, d);
}

/// A rejection reads back as one of the same identifier.
pub proof fn law_rej_reads_back(to: Seq<char>, id: Seq<char>)
    requires
        id_of(id).len() > 0,
    ensures
        ({
            let b = vstd::utf8::encode_utf8(framed(to, "rej"@ + id_of(id)));
            &&& b.len() > 0 && b[0] == 0x3a
            &&& reading(b.skip(1)) == Ok::<MessageView, Fault>(
                MessageView {
                    addressee: text::trim_back(pad9(to)),
                    text: Seq::empty(),
                    id: id_of(id),
                    reply_ack: Seq::empty(),
                    kind: MessageKind::Rej,
                },
            )
        }),
{
    reveal_strlit("ack");
    reveal_strlit("rej");
    lemma_id(id);
    let d = id_of(id);
    let body = "rej"@ + d;
    assert forall|i: int| 0 <= i < body.len() implies Class::Name.has(#[trigger] body[i]) by {
        if i >= 3 {
            assert(wire::alnum(d[i - 3]));
        }
    }
    lemma_framed(to, body);
    lemma_tagged("rej"@, d);
    assert(body.take(3)[0] == 'r');
    assert(tagged(body, "ack"@) is None);
}

fn is_all_alnum(v: &Vec<char>) -> (r: bool)
    ensures
        r == all_alnum(v@),
{
    let mut i: usize = 0;
    while i < v.len()
        invariant
            i <= v@.len(),
            forall|k: int| 0 <= k < i ==> wire::alnum(#[trigger] v@[k]),
        decreases v@.len() - i,
    {
        if !Class::Alnum.holds(v[i]) {
            assert(!wire::alnum(v@[i as int]));
            return false;
        }
        i += 1;
    }
    true
}

fn read_tagged(body: &Vec<char>, tag: &str) -> (r: Option<String>)
    requires
        tag@.len() == 3,
    ensures
        match tagged(body@, tag@) {
            Some(id) => r matches Some(s) && s@ == id,
            None => r is None,
        },
{
    if !text::starts_with(body.as_slice(), tag) {
        return None;
    }
    let tail: Vec<char> = text::copy_chars(body.as_slice(), 3, body.len());
    assert(tail@ =~= body@.skip(3));
    let id: Vec<char> = text::trim_end_chars(tail.as_slice());
    if id.len() > 0 && id.len() <= 5 && is_all_alnum(&id) {
        Some(text::string_of(id.as_slice()))
    } else {
        None
    }
}

fn rfind(v: &Vec<char>, c: char) -> (r: Option<usize>)
    ensures
        match r {
            Some(k) => k == last_of(v@, c) && k < v@.len(),
            None => last_of(v@, c) == -1,
        },
{
    let mut n: usize = v.len();
    assert(v@.take(n as int) =~= v@);
    while n > 0
        invariant
            n <= v@.len(),
            last_of(v@.take(n as int), c) == last_of(v@, c),
        decreases n,
    {
        if v[n - 1] == c {
            assert(v@.take(n as int).last() == c);
            return Some(n - 1);
        }
        assert(v@.take(n as int).drop_last() =~= v@.take(n - 1));
        n -= 1;
    }
    None
}

/// The text, the identifier and the identifier that is acknowledged.
fn split_body(body: &Vec<char>) -> (r: (Vec<char>, Vec<char>, Vec<char>))
    ensures
        (r.0@, r.1@, r.2@) == parts_of(body@),
{
    let i: usize = match rfind(body, '{') {
        Some(i) => i,
        None => {
            let all: Vec<char> = text::copy_chars(body.as_slice(), 0, body.len());
            assert(all@ =~= body@);
            return (all, Vec::new(), Vec::new());
        },
    };
    let from_brace: Vec<char> = text::copy_chars(body.as_slice(), i, body.len());
    assert(from_brace@ =~= body@.skip(i as int));
    if text::byte_len(from_brace.as_slice()) > 12 {
        let all: Vec<char> = text::copy_chars(body.as_slice(), 0, body.len());
        assert(all@ =~= body@);
        return (all, Vec::new(), Vec::new());
    }
    let head: Vec<char> = text::copy_chars(body.as_slice(), 0, i);
    let tail: Vec<char> = text::copy_chars(body.as_slice(), i + 1, body.len());
    assert(head@ =~= body@.take(i as int));
    assert(tail@ =~= body@.skip(i + 1));
    let k: usize = text::find_char(tail.as_slice(), '}');
    if k < tail.len() {
        let mine: Vec<char> = text::copy_chars(tail.as_slice(), 0, k);
        let theirs: Vec<char> = text::copy_chars(tail.as_slice(), k + 1, tail.len());
        assert(mine@ =~= tail@.take(k as int));
        assert(theirs@ =~= tail@.skip(k + 1));
        (head, mine, theirs)
    } else {
        (head, tail, Vec::new())
    }
}

fn find_kind(addressee: &Vec<char>, t: &Vec<char>) -> (r: MessageKind)
    ensures
        r == kind_of(addressee@, t@),
{
    if text::starts_with(addressee.as_slice(), "BLN") {
        MessageKind::Bulletin
    } else if text::starts_with(t.as_slice(), "PARM.") || text::starts_with(t.as_slice(), "UNIT.")
        || text::starts_with(t.as_slice(), "EQNS.") || text::starts_with(t.as_slice(), "BITS.") {
        MessageKind::TelemetryDef
    } else {
        MessageKind::Text
    }
}

/// Reads a message frame without its first byte.
pub fn parse(rest: &[u8]) -> (r: Result<Message, AprsError>)
    ensures
        match reading(rest@) {
            Ok(m) => r matches Ok(v) && v@ == m,
            Err(f) => r matches Err(e) && e@ == f,
        },
{
    if rest.len() < 10 || rest[9] != 0x3a {
        return Err(AprsError::Malformed("message addressee"));
    }
    let who: Vec<u8> = text::copy_bytes(rest, 0, 9);
    let what: Vec<u8> = text::copy_bytes(rest, 10, rest.len());
    let addressee: Vec<char> = text::trim_end_chars(wire::printable(who.as_slice()).as_slice());
    let body: Vec<char> = wire::printable(what.as_slice());
    proof {
        reveal_strlit("ack");
        reveal_strlit("rej");
    }
    match read_tagged(&body, "ack") {
        Some(id) => {
            return Ok(
                Message {
                    addressee: text::string_of(addressee.as_slice()),
                    text: String::new(),
                    id,
                    reply_ack: String::new(),
                    kind: MessageKind::Ack,
                },
            );
        },
        None => {},
    }
    match read_tagged(&body, "rej") {
        Some(id) => {
            return Ok(
                Message {
                    addressee: text::string_of(addressee.as_slice()),
                    text: String::new(),
                    id,
                    reply_ack: String::new(),
                    kind: MessageKind::Rej,
                },
            );
        },
        None => {},
    }
    let (t, id, reply_ack) = split_body(&body);
    let kind: MessageKind = find_kind(&addressee, &t);
    Ok(
        Message {
            addressee: text::string_of(addressee.as_slice()),
            text: text::string_of(text::trim_end_chars(t.as_slice()).as_slice()),
            id: text::string_of(id.as_slice()),
            reply_ack: text::string_of(reply_ack.as_slice()),
            kind,
        },
    )
}

fn push_chars(s: &mut String, v: &Vec<char>)
    ensures
        final(s)@ == old(s)@ + v@,
{
    s.append(text::string_of(v.as_slice()).as_str());
}

fn frame_start(to: &str) -> (r: String)
    ensures
        r@ == seq![':'] + pad9(to@) + seq![':'],
{
    let all: Vec<char> = text::chars_of(to);
    let kept: Vec<char> = wire::keep_chars(all.as_slice(), Class::Graphic);
    let up: Vec<char> = text::upper_chars(kept.as_slice());
    let field: Vec<char> = wire::pad(&wire::first_chars(&up, 9), 9);
    let mut s = String::new();
    s.push(':');
    push_chars(&mut s, &field);
    s.push(':');
    assert(s@ =~= seq![':'] + pad9(to@) + seq![':']);
    s
}

fn clean(t: &str) -> (r: Vec<char>)
    ensures
        r@ == cleaned(t@),
{
    wire::first_chars(&wire::keep_chars(text::chars_of(t).as_slice(), Class::Text), 67)
}

fn clean_id(id: &str) -> (r: Vec<char>)
    ensures
        r@ == id_of(id@),
{
    wire::first_chars(&wire::keep_chars(text::chars_of(id).as_slice(), Class::Alnum), 5)
}

/// A message. Without an identifier no acknowledgement is asked for.
pub fn encode_message(to: &str, text: &str, id: &str) -> (r: String)
    ensures
        r@ == message_text(to@, text@, id@),
{
    let mut s: String = frame_start(to);
    push_chars(&mut s, &clean(text));
    if text::chars_of(id).len() > 0 {
        s.push('{');
        push_chars(&mut s, &clean_id(id));
    }
    assert(s@ =~= message_text(to@, text@, id@));
    s
}

/// An acknowledgement of `id`.
pub fn encode_ack(to: &str, id: &str) -> (r: String)
    ensures
        r@ == framed(to@, "ack"@ + id_of(id@)),
{
    let mut s: String = frame_start(to);
    s.append("ack");
    push_chars(&mut s, &clean_id(id));
    assert(s@ =~= framed(to@, "ack"@ + id_of(id@)));
    s
}

/// A rejection of `id`: it stops the sender where silence would not.
pub fn encode_rej(to: &str, id: &str) -> (r: String)
    ensures
        r@ == framed(to@, "rej"@ + id_of(id@)),
{
    let mut s: String = frame_start(to);
    s.append("rej");
    push_chars(&mut s, &clean_id(id));
    assert(s@ =~= framed(to@, "rej"@ + id_of(id@)));
    s
}

/// A status report: one line about the station itself.
pub fn encode_status(text: &str) -> (r: String)
    ensures
        r@ == seq!['>'] + wire::first(cleaned(text@), 62),
{
    let mut s = String::new();
    s.push('>');
    push_chars(&mut s, &wire::first_chars(&clean(text), 62));
    assert(s@ =~= seq!['>'] + wire::first(cleaned(text@), 62));
    s
}

} // verus!
