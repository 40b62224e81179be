//! A packet station: the monitor that an operator watches, the beacon, and what
//! goes to a connected link, above one channel.
//!
//! VHF packet and HF packet are one link layer over different radios. The
//! difference is in the modem and in the speed, not here.
use super::ax25_channel;
use super::ax25_channel::{Ax25Channel, DigiConfig, Heard, Over, PacketBaud};
use crate::ax25::addr;
use crate::ax25::addr::Addr;
use crate::ax25::packet;
use crate::ax25::packet::{Packet, PacketType};
use crate::text;
use vstd::prelude::*;

verus! {

broadcast use vstd::seq::group_seq_axioms;

/// The radio that packet runs over: FM, or sideband on HF.
#[derive(Debug, Clone, Copy, PartialEq, Eq, Structural)]
pub enum Mode {
    Packet,
    PacketHf,
}

/// The speed of a mode. HF has one speed, and a VHF speed that was left in the
/// settings must not follow the operator there; nor the other way round.
pub open spec fn speed(mode: Mode, chosen: PacketBaud) -> PacketBaud {
    match mode {
        Mode::PacketHf => PacketBaud::Hf300,
        Mode::Packet => if chosen == PacketBaud::Hf300 {
            PacketBaud::Vhf1200
        } else {
            chosen
        },
    }
}

/// The speed of a mode, with what the operator chose.
pub fn baud_for(mode: Mode, cfg: &DigiConfig) -> (r: PacketBaud)
    ensures
        r == speed(mode, cfg.packet_baud),
{
    match mode {
        Mode::PacketHf => PacketBaud::Hf300,
        Mode::Packet => match cfg.packet_baud {
            PacketBaud::Hf300 => PacketBaud::Vhf1200,
            PacketBaud::Vhf1200 => PacketBaud::Vhf1200,
            PacketBaud::Vhf9600 => PacketBaud::Vhf9600,
        },
    }
}

/// A line of the monitor.
#[derive(Debug)]
pub struct PacketHeard {
    /// Seconds since 1970.
    pub at: i64,
    pub from: String,
    pub to: String,
    pub via: Vec<String>,
    pub kind: String,
    pub text: String,
    /// We sent it.
    pub sent: bool,
}

pub struct HeardView {
    pub at: i64,
    pub from: Seq<char>,
    pub to: Seq<char>,
    pub via: Seq<Seq<char>>,
    pub kind: Seq<char>,
    pub text: Seq<char>,
    pub sent: bool,
}

pub open spec fn texts(v: Seq<String>) -> Seq<Seq<char>> {
    Seq::new(v.len(), |i: int| v[i]@)
}

impl View for PacketHeard {
    type V = HeardView;

    open spec fn view(&self) -> HeardView {
        HeardView {
            at: self.at,
            from: self.from@,
            to: self.to@,
            via: texts(self.via@),
            kind: self.kind@,
            text: self.text@,
            sent: self.sent,
        }
    }
}

impl Clone for PacketHeard {
    fn clone(&self) -> (r: Self)
        ensures
            r@ == self@,
    {
        let mut via: Vec<String> = Vec::new();
        let mut i: usize = 0;
        while i < self.via.len()
            invariant
                i <= self.via@.len(),
                texts(via@) == texts(self.via@).take(i as int),
            decreases self.via@.len() - i,
        {
            let ghost got = texts(via@);
            via.push(self.via[i].clone());
            i += 1;
            assert(got.len() == via@.len() - 1);
            assert(texts(via@) =~= got.push(self.via@[i - 1]@));
            assert(texts(via@) =~= texts(self.via@).take(i as int));
        }
        assert(texts(via@) =~= texts(self.via@));
        PacketHeard {
            at: self.at,
            from: self.from.clone(),
            to: self.to.clone(),
            via,
            kind: self.kind.clone(),
            text: self.text.clone(),
            sent: self.sent,
        }
    }
}

/// Some text without the line ends at its end.
pub open spec fn without_line_ends(s: Seq<char>) -> Seq<char>
    decreases s.len(),
{
    if s.len() > 0 && s.last() == '\n' {
        without_line_ends(s.drop_last())
    } else {
        s
    }
}

/// The text that a frame carries, as the monitor shows it.
pub open spec fn shown_text(b: Seq<u8>) -> Seq<char> {
    without_line_ends(text::lossy(b))
}

fn text_of(b: &[u8]) -> (r: String)
    ensures
        r@ == shown_text(b@),
{
    let v: Vec<char> = text::lossy_chars(b);
    let mut n: usize = v.len();
    assert(v@.take(n as int) =~= v@);
    while n > 0 && v[n - 1] == '\n'
        invariant
            n <= v@.len(),
            without_line_ends(v@.take(n as int)) == without_line_ends(v@),
        decreases n,
    {
        n -= 1;
        assert(v@.take(n + 1).drop_last() =~= v@.take(n as int));
    }
    let kept: Vec<char> = text::copy_chars(v.as_slice(), 0, n);
    assert(kept@ =~= v@.take(n as int));
    text::string_of(kept.as_slice())
}

/// The type of a frame, as the monitor prints it.
pub open spec fn kind_of(f: packet::FrameView) -> Seq<char> {
    match f {
        packet::FrameView::Ui { .. } => "UI"@,
        packet::FrameView::Iframe { nr, ns, .. } => "I"@ + text::dec(ns as nat) + text::dec(
            nr as nat,
        ),
        packet::FrameView::Sabm { .. } => "SABM"@,
        packet::FrameView::Sabme { .. } => "SABME"@,
        packet::FrameView::Ua { .. } => "UA"@,
        packet::FrameView::Dm { .. } => "DM"@,
        packet::FrameView::Disc { .. } => "DISC"@,
        packet::FrameView::Rr { nr, .. } => "RR"@ + text::dec(nr as nat),
        packet::FrameView::Rnr { nr, .. } => "RNR"@ + text::dec(nr as nat),
        packet::FrameView::Rej { nr, .. } => "REJ"@ + text::dec(nr as nat),
        packet::FrameView::Srej { nr, .. } => "SREJ"@ + text::dec(nr as nat),
        packet::FrameView::Frmr { .. } => "FRMR"@,
        packet::FrameView::Xid { .. } => "XID"@,
        packet::FrameView::Test { .. } => "TEST"@,
    }
}

/// The text that a frame carries, where it is of a type that carries any.
pub open spec fn carried(f: packet::FrameView) -> Seq<char> {
    match f {
        packet::FrameView::Ui { payload, .. } => shown_text(payload),
        packet::FrameView::Iframe { payload, .. } => shown_text(payload),
        packet::FrameView::Test { payload, .. } => shown_text(payload),
        _ => Seq::empty(),
    }
}

fn numbered(name: &str, n: u8) -> (r: String)
    ensures
        r@ == name@ + text::dec(n as nat),
{
    let mut s: String = name.to_owned();
    text::push_dec(&mut s, n as u64);
    s
}

/// The frame type as the monitor prints it, and the text that it carried.
pub fn describe(p: &Packet) -> (r: (String, String))
    ensures
        r.0@ == kind_of(p@.frame),
        r.1@ == carried(p@.frame),
{
    let none: String = String::new();
    assert(none@ =~= Seq::empty());
    match p.packet_type() {
        PacketType::Ui(f) => ("UI".to_owned(), text_of(f.payload.as_slice())),
        PacketType::Iframe(f) => {
            let mut kind: String = numbered("I", f.ns);
            text::push_dec(&mut kind, f.nr as u64);
            (kind, text_of(f.payload.as_slice()))
        },
        PacketType::Sabm(_) => ("SABM".to_owned(), none),
        PacketType::Sabme(_) => ("SABME".to_owned(), none),
        PacketType::Ua(_) => ("UA".to_owned(), none),
        PacketType::Dm(_) => ("DM".to_owned(), none),
        PacketType::Disc(_) => ("DISC".to_owned(), none),
        PacketType::Rr(f) => (numbered("RR", f.nr), none),
        PacketType::Rnr(f) => (numbered("RNR", f.nr), none),
        PacketType::Rej(f) => (numbered("REJ", f.nr), none),
        PacketType::Srej(f) => (numbered("SREJ", f.nr), none),
        PacketType::Frmr(_) => ("FRMR".to_owned(), none),
        PacketType::Xid(_) => ("XID".to_owned(), none),
        PacketType::Test(f) => ("TEST".to_owned(), text_of(f.payload.as_slice())),
    }
}

/// The line of a frame. One that cannot be read is shown too: it passed its
/// check, so something is being heard and not understood.
pub open spec fn line_of(b: Seq<u8>, sent: bool, at: i64) -> HeardView {
    match packet::reading(b, None) {
        packet::Reading::Packet(p) => HeardView {
            at,
            from: p.src.call,
            to: p.dst.call,
            via: p.digipeater.map_values(|a: addr::AddrView| a.call),
            kind: kind_of(p.frame),
            text: carried(p.frame),
            sent,
        },
        _ => HeardView {
            at,
            from: Seq::empty(),
            to: Seq::empty(),
            via: Seq::empty(),
            kind: "?"@,
            text: "unparsed, "@ + text::dec(b.len()) + " bytes"@,
            sent,
        },
    }
}

/// The packet of a frame, where the link is to have it: it is addressed to us, by
/// callsign, and is no UI frame, which carries no state of a link.
pub open spec fn link_packet(b: Seq<u8>, me: Option<Seq<char>>) -> Option<packet::PacketView> {
    match (packet::reading(b, None), me) {
        (packet::Reading::Packet(p), Some(call)) => if p.dst.call == call && !(p.frame is Ui) {
            Some(p)
        } else {
            None
        },
        _ => None,
    }
}

pub open spec fn frames_of(v: Seq<Vec<u8>>) -> Seq<Seq<u8>> {
    Seq::new(v.len(), |i: int| v[i]@)
}

/// The lines of some frames.
pub open spec fn lines_of(frames: Seq<Seq<u8>>, sent: bool, at: i64) -> Seq<HeardView> {
    Seq::new(frames.len(), |i: int| line_of(frames[i], sent, at))
}

/// What the link is to have of some frames, in order.
pub open spec fn link_packets(frames: Seq<Seq<u8>>, me: Option<Seq<char>>) -> Seq<
    packet::PacketView,
>
    decreases frames.len(),
{
    if frames.len() == 0 {
        Seq::empty()
    } else {
        let front = link_packets(frames.drop_last(), me);
        match link_packet(frames.last(), me) {
            Some(p) => front.push(p),
            None => front,
        }
    }
}

pub open spec fn packets_of(v: Seq<Packet>) -> Seq<packet::PacketView> {
    Seq::new(v.len(), |i: int| v[i]@)
}

/// The last `max` of some lines, all where there are no more.
pub open spec fn newest(s: Seq<HeardView>, max: int) -> Seq<HeardView> {
    if s.len() <= max {
        s
    } else {
        s.skip(s.len() - max)
    }
}

/// The first so many frames.
pub open spec fn oldest(s: Seq<Seq<u8>>, max: int) -> Seq<Seq<u8>> {
    if s.len() <= max {
        s
    } else {
        s.take(max)
    }
}

/// The packet that a beacon is, where there is a callsign to send it from and
/// something to send.
pub open spec fn beacon_packet(mycall: Seq<char>, beacon: Seq<char>) -> Option<packet::PacketView> {
    let call = text::unicode_upper(text::trim(mycall));
    if text::trim(mycall).len() == 0 || !addr::call_ok(call) || text::trim(beacon).len() == 0 {
        None
    } else {
        Some(
            packet::PacketView {
                src: addr::plain(call),
                dst: addr::plain("BEACON"@),
                digipeater: Seq::empty(),
                rr_extseq: false,
                command_response: false,
                command_response_la: true,
                rr_dist1: false,
                frame: packet::FrameView::Ui {
                    pid: packet::NO_L3,
                    push: false,
                    payload: vstd::utf8::encode_utf8(text::trim(beacon)),
                },
            },
        )
    }
}

/// The frames of a beacon: one, or none.
pub open spec fn beacon_frames(cfg: DigiConfig) -> Seq<Seq<u8>> {
    match beacon_packet(cfg.packet_mycall@, cfg.packet_beacon_text@) {
        Some(p) => seq![packet::packet_wire(p, false)],
        None => Seq::empty(),
    }
}

/// Beacons are wanted.
pub open spec fn beacons(cfg: DigiConfig) -> bool {
    cfg.packet_beacon_minutes > 0 && text::trim(cfg.packet_beacon_text@).len() > 0
}

/// Microseconds from one beacon to the next.
pub open spec fn beacon_every(cfg: DigiConfig) -> int {
    cfg.packet_beacon_minutes * 60_000_000
}

/// Whether a beacon is due.
pub open spec fn beacon_due(next: Option<u64>, cfg: DigiConfig, now: u64) -> bool {
    beacons(cfg) && (next matches Some(t) && now >= t)
}

/// When the next beacon is due after a look at the clock. The first comes an
/// interval late: to key the moment a mode is chosen is startling.
pub open spec fn beacon_next(next: Option<u64>, cfg: DigiConfig, now: u64) -> Option<u64> {
    if !beacons(cfg) {
        None
    } else if next is None || beacon_due(next, cfg, now) {
        Some((now + beacon_every(cfg)) as u64)
    } else {
        next
    }
}

/// How often the status is sent where nothing changed, in microseconds.
pub const STATUS_EVERY: u64 = 200_000;

/// The status is due. A clock that went back makes it so.
pub open spec fn status_due(last: Option<u64>, now: u64) -> bool {
    match last {
        None => true,
        Some(t) => now < t || now - t > STATUS_EVERY,
    }
}

/// A link to one station.
#[derive(Debug)]
pub struct Link {
    /// The callsign that it answers to.
    pub me: String,
    /// The session was told that the link is up.
    pub announced: bool,
}

/// What a session is told of its link.
#[derive(Debug, Clone, Copy, PartialEq, Eq, Structural)]
pub enum PortEvent {
    Connected,
    Disconnected,
}

/// What comes of a look at the clock.
#[derive(Debug)]
pub struct Polled {
    /// The over to key up with.
    pub over: Option<Over>,
    /// The status is to be sent.
    pub status: bool,
    /// What the link is to have of our own frames.
    pub for_link: Vec<Packet>,
}

/// What an operator sees of a station.
#[derive(Debug)]
pub struct PacketStatus {
    pub mode: Mode,
    pub baud: PacketBaud,
    pub dcd: bool,
    pub transmitting: bool,
    pub heard: Vec<PacketHeard>,
    pub bad_frames: u32,
    /// The station at the other end of the link.
    pub link: Option<String>,
}

/// A packet station.
#[derive(Debug)]
pub struct PacketController {
    pub mode: Mode,
    pub cfg: DigiConfig,
    pub tap_rate: u32,
    pub ch: Ax25Channel,
    /// When the next beacon is due, in microseconds.
    pub next_beacon: Option<u64>,
    pub link: Option<Link>,
    /// Frames off the air that a host has not collected.
    pub air_frames: Vec<Vec<u8>>,
    pub heard: Vec<PacketHeard>,
    /// How many lines the monitor has, and how many frames wait for a host.
    pub heard_max: usize,
    pub bad_frames: u32,
    pub status_dirty: bool,
    pub last_status: Option<u64>,
}

pub open spec fn lines(v: Seq<PacketHeard>) -> Seq<HeardView> {
    Seq::new(v.len(), |i: int| v[i]@)
}

impl PacketController {
    /// The monitor holds no more than it may.
    pub open spec fn wf(self) -> bool {
        &&& self.heard_max > 0
        &&& self.heard@.len() <= self.heard_max
        &&& self.air_frames@.len() <= self.heard_max
    }

    pub open spec fn monitor(self) -> Seq<HeardView> {
        lines(self.heard@)
    }

    pub open spec fn me(self) -> Option<Seq<char>> {
        match self.link {
            Some(l) => Some(l.me@),
            None => None,
        }
    }

    /// A station with an empty monitor of so many lines.
    pub fn new(mode: Mode, cfg: DigiConfig, tap_rate: u32, heard_max: usize) -> (r:
        PacketController)
        requires
            heard_max > 0,
        ensures
            r.wf(),
            r.mode == mode,
            r.cfg == cfg,
            r.tap_rate == tap_rate,
            r.heard_max == heard_max,
            r.ch.baud == speed(mode, cfg.packet_baud),
            r.ch.rate == tap_rate,
            !r.ch.keyed && !r.ch.want_tx && !r.ch.dcd,
            r.ch.pending@.len() == 0,
            r.ch.slot_samples == ax25_channel::slot_len(cfg.packet_slottime_ms, tap_rate),
            r.ch.slot_left == r.ch.slot_samples,
            r.next_beacon is None && r.link is None && r.last_status is None,
            r.monitor().len() == 0 && r.air_frames@.len() == 0 && r.bad_frames == 0,
            r.status_dirty,
    {
        let baud: PacketBaud = baud_for(mode, &cfg);
        let ch: Ax25Channel = Ax25Channel::new(baud, &cfg, tap_rate);
        PacketController {
            mode,
            cfg,
            tap_rate,
            ch,
            next_beacon: None,
            link: None,
            air_frames: Vec::new(),
            heard: Vec::new(),
            heard_max,
            bad_frames: 0,
            status_dirty: true,
            last_status: None,
        }
    }

    pub fn mode(&self) -> (r: Mode)
        ensures
            r == self.mode,
    {
        self.mode
    }

    /// All but the channel and the mark for the status is as in another state.
    pub open spec fn same_but_channel(self, other: PacketController) -> bool {
        self == (PacketController { ch: self.ch, status_dirty: self.status_dirty, ..other })
    }

    /// Queues a frame for the next clear slot.
    pub fn queue_frame(&mut self, frame: Vec<u8>)
        ensures
            final(self).same_but_channel(*old(self)),
            final(self).status_dirty,
            final(self).ch.pending@ == old(self).ch.pending@.push(frame),
            final(self).ch == (Ax25Channel { pending: final(self).ch.pending, ..old(self).ch }),
    {
        self.ch.queue(frame);
        self.status_dirty = true;
    }

    /// Queues a host's frame, as it is. A host cannot key the radio, only ask.
    pub fn send_from_host(&mut self, frame: Vec<u8>)
        ensures
            final(self).same_but_channel(*old(self)),
            final(self).status_dirty,
            final(self).ch.pending@ == old(self).ch.pending@.push(frame),
            final(self).ch == (Ax25Channel { pending: final(self).ch.pending, ..old(self).ch }),
    {
        self.queue_frame(frame);
    }

    /// Our own address, where the operator set one. A station without a callsign
    /// does not transmit.
    pub fn mycall(&self) -> (r: Option<Addr>)
        ensures
            ({
                let call = text::trim(self.cfg.packet_mycall@);
                let upper = text::unicode_upper(call);
                if call.len() == 0 || !addr::call_ok(upper) {
                    r is None
                } else {
                    r matches Some(a) && a@ == addr::plain(upper)
                }
            }),
    {
        let call: String = text::trimmed(self.cfg.packet_mycall.as_str());
        if text::same(call.as_str(), "") {
            proof {
                reveal_strlit("");
            }
            return None;
        }
        proof {
            reveal_strlit("");
            assert(call@.len() == 0 ==> call@ =~= ""@);
        }
        match Addr::new(call.as_str()) {
            Ok(a) => Some(a),
            Err(_) => None,
        }
    }

    /// Queues a beacon with the operator's text; nothing where there is no
    /// callsign or no text.
    pub fn queue_beacon(&mut self)
        ensures
            final(self).same_but_channel(*old(self)),
            frames_of(final(self).ch.pending@) == frames_of(old(self).ch.pending@) + beacon_frames(
                old(self).cfg,
            ),
            final(self).ch == (Ax25Channel { pending: final(self).ch.pending, ..old(self).ch }),
            final(self).status_dirty == (old(self).status_dirty || beacon_frames(
                old(self).cfg,
            ).len() > 0),
    {
        proof {
            lemma_beacon_call();
            assert(frames_of(self.ch.pending@) + Seq::<Seq<u8>>::empty() =~= frames_of(
                self.ch.pending@,
            ));
        }
        let me: Addr = match self.mycall() {
            Some(a) => a,
            None => return,
        };
        let dest: Addr = match Addr::new("BEACON") {
            Ok(a) => a,
            Err(_) => return,
        };
        let beacon: String = text::trimmed(self.cfg.packet_beacon_text.as_str());
        proof {
            reveal_strlit("");
            assert(beacon@.len() == 0 ==> beacon@ =~= ""@);
        }
        if text::same(beacon.as_str(), "") {
            return;
        }
        let p: Packet = Packet::ui(me, dest, beacon.into_bytes());
        let frame: Vec<u8> = p.serialize(false);
        let ghost before = self.ch.pending@;
        self.queue_frame(frame);
        assert(frames_of(self.ch.pending@) =~= frames_of(before) + beacon_frames(old(self).cfg));
    }

    /// Sends a beacon on the operator's command, by way of the channel.
    pub fn queue_beacon_now(&mut self)
        ensures
            final(self).same_but_channel(*old(self)),
            frames_of(final(self).ch.pending@) == frames_of(old(self).ch.pending@) + beacon_frames(
                old(self).cfg,
            ),
            final(self).ch == (Ax25Channel { pending: final(self).ch.pending, ..old(self).ch }),
            final(self).status_dirty == (old(self).status_dirty || beacon_frames(
                old(self).cfg,
            ).len() > 0),
    {
        self.queue_beacon();
    }

    /// Gives the station a link that answers to a callsign.
    pub fn attach_port(&mut self, me: String)
        ensures
            final(self).link == Some(Link { me, announced: false }),
            *final(self) == (PacketController {
                link: final(self).link,
                status_dirty: true,
                ..*old(self)
            }),
    {
        self.link = Some(Link { me, announced: false });
        self.status_dirty = true;
    }

    /// What the session is told, of whether its link is up: each change, once.
    pub fn announce(&mut self, up: bool) -> (r: Option<PortEvent>)
        ensures
            match old(self).link {
                None => r is None && *final(self) == *old(self),
                Some(l) => {
                    &&& r == told(l.announced, up)
                    &&& *final(self) == (PacketController {
                        link: Some(Link { announced: up, ..l }),
                        ..*old(self)
                    })
                },
            },
    {
        match self.link.take() {
            None => {
                self.link = None;
                None
            },
            Some(l) => {
                let r: Option<PortEvent> = if up && !l.announced {
                    Some(PortEvent::Connected)
                } else if !up && l.announced {
                    Some(PortEvent::Disconnected)
                } else {
                    None
                };
                self.link = Some(Link { me: l.me, announced: up });
                r
            },
        }
    }

    fn note(&mut self, entry: PacketHeard)
        requires
            old(self).wf(),
        ensures
            final(self).wf(),
            final(self).monitor() == newest(
                old(self).monitor().push(entry@),
                old(self).heard_max as int,
            ),
            *final(self) == (PacketController {
                heard: final(self).heard,
                status_dirty: true,
                ..*old(self)
            }),
    {
        if self.heard.len() >= self.heard_max {
            self.heard.remove(0);
        }
        self.heard.push(entry);
        self.status_dirty = true;
        assert(self.monitor() =~= newest(old(self).monitor().push(entry@), self.heard_max as int));
    }

    /// Puts a frame into the monitor, and gives what the link is to have of it.
    pub fn note_frame(&mut self, bytes: &[u8], sent: bool, at: i64) -> (r: Option<Packet>)
        requires
            old(self).wf(),
        ensures
            final(self).wf(),
            final(self).monitor() == newest(
                old(self).monitor().push(line_of(bytes@, sent, at)),
                old(self).heard_max as int,
            ),
            *final(self) == (PacketController {
                heard: final(self).heard,
                status_dirty: true,
                ..*old(self)
            }),
            match link_packet(bytes@, old(self).me()) {
                None => r is None,
                Some(p) => r matches Some(q) && q@ == p,
            },
    {
        let p: Packet = match Packet::parse_checked(bytes, None) {
            Some(Ok(p)) => p,
            _ => {
                let mut said: String = "unparsed, ".to_owned();
                text::push_dec(&mut said, bytes.len() as u64);
                said.append(" bytes");
                let entry = PacketHeard {
                    at,
                    from: String::new(),
                    to: String::new(),
                    via: Vec::new(),
                    kind: "?".to_owned(),
                    text: said,
                    sent,
                };
                assert(entry.via@ =~= Seq::empty());
                assert(texts(entry.via@) =~= Seq::empty());
                assert(entry.from@ =~= Seq::empty());
                assert(entry.to@ =~= Seq::empty());
                assert(entry@ == line_of(bytes@, sent, at));
                self.note(entry);
                return None;
            },
        };
        let (kind, said) = describe(&p);
        let mut via: Vec<String> = Vec::new();
        let path: &[Addr] = p.digipeaters();
        let ghost calls = p@.digipeater.map_values(|a: addr::AddrView| a.call);
        let mut i: usize = 0;
        while i < path.len()
            invariant
                i <= path@.len(),
                packet::hops(path@) == p@.digipeater,
                calls == p@.digipeater.map_values(|a: addr::AddrView| a.call),
                texts(via@) == calls.take(i as int),
            decreases path@.len() - i,
        {
            assert(packet::hops(path@)[i as int] == path@[i as int]@);
            let ghost got = texts(via@);
            via.push(path[i].call().to_owned());
            i += 1;
            assert(got.len() == via@.len() - 1);
            assert(texts(via@) =~= got.push(calls[i - 1]));
            assert(texts(via@) =~= calls.take(i as int));
        }
        assert(packet::hops(path@).len() == path@.len());
        assert(texts(via@) =~= calls);
        let entry = PacketHeard {
            at,
            from: p.src().call().to_owned(),
            to: p.dst().call().to_owned(),
            via,
            kind,
            text: said,
            sent,
        };
        assert(entry@ == line_of(bytes@, sent, at));
        let ui: bool = match p.packet_type() {
            PacketType::Ui(_) => true,
            _ => false,
        };
        let ours: bool = match &self.link {
            Some(l) => text::same(p.dst().call(), l.me.as_str()),
            None => false,
        };
        self.note(entry);
        if ours && !ui {
            Some(p)
        } else {
            None
        }
    }

    /// Puts some frames into the monitor, in order.
    fn note_frames(&mut self, frames: &Vec<Vec<u8>>, sent: bool, at: i64) -> (r: Vec<Packet>)
        requires
            old(self).wf(),
        ensures
            final(self).wf(),
            final(self).monitor() == newest(
                old(self).monitor() + lines_of(frames_of(frames@), sent, at),
                old(self).heard_max as int,
            ),
            *final(self) == (PacketController {
                heard: final(self).heard,
                status_dirty: old(self).status_dirty || frames@.len() > 0,
                ..*old(self)
            }),
            packets_of(r@) == link_packets(frames_of(frames@), old(self).me()),
    {
        let ghost all = frames_of(frames@);
        let ghost before = self.monitor();
        let ghost start = *self;
        let mut r: Vec<Packet> = Vec::new();
        let mut i: usize = 0;
        assert(before + lines_of(all.take(0), sent, at) =~= before);
        assert(packets_of(r@) =~= link_packets(all.take(0), self.me()));
        while i < frames.len()
            invariant
                i <= frames@.len(),
                all == frames_of(frames@),
                self.wf(),
                self.monitor() == newest(
                    before + lines_of(all.take(i as int), sent, at),
                    start.heard_max as int,
                ),
                *self == (PacketController {
                    heard: self.heard,
                    status_dirty: start.status_dirty || i > 0,
                    ..start
                }),
                packets_of(r@) == link_packets(all.take(i as int), start.me()),
            decreases frames@.len() - i,
        {
            let ghost shown = self.monitor();
            let fed: Option<Packet> = self.note_frame(frames[i].as_slice(), sent, at);
            i += 1;
            proof {
                let k = i as int;
                assert(all.take(k).drop_last() =~= all.take(k - 1));
                assert(all.take(k).last() == frames@[k - 1]@);
                let line = line_of(all[k - 1], sent, at);
                assert(lines_of(all.take(k), sent, at) =~= lines_of(all.take(k - 1), sent, at).push(
                    line,
                ));
                let full = before + lines_of(all.take(k - 1), sent, at);
                assert(before + lines_of(all.take(k), sent, at) =~= full.push(line));
                lemma_newest(full, line, start.heard_max as int);
            }
            let ghost got = packets_of(r@);
            match fed {
                Some(p) => {
                    r.push(p);
                    assert(packets_of(r@) =~= got.push(p@));
                },
                None => {},
            }
        }
        assert(all.take(all.len() as int) =~= all);
        r
    }

    /// A block of audio. A station that is keyed hears nothing. A host gets a
    /// copy of each frame, also of those that cannot be read.
    pub fn on_rx_audio(&mut self, samples: u32, heard: Heard, nanos: u32, at: i64) -> (r:
        Vec<Packet>)
        requires
            old(self).wf(),
        ensures
            final(self).wf(),
            exists|roll: u8|
                final(self).ch.access() == #[trigger] old(self).ch.access().heard(
                    heard.busy,
                    samples as int,
                    old(self).cfg.packet_persist,
                    roll,
                ),
            final(self).ch.same_line(old(self).ch),
            ({
                let got = if old(self).ch.keyed {
                    Seq::empty()
                } else {
                    frames_of(heard.frames@)
                };
                let bad: int = if old(self).ch.keyed {
                    0
                } else {
                    heard.bad as int
                };
                let sum = old(self).bad_frames + bad;
                &&& final(self).monitor() == newest(
                    old(self).monitor() + lines_of(got, false, at),
                    old(self).heard_max as int,
                )
                &&& frames_of(final(self).air_frames@) == oldest(
                    frames_of(old(self).air_frames@) + got,
                    old(self).heard_max as int,
                )
                &&& final(self).bad_frames == (if sum > u32::MAX {
                    u32::MAX as int
                } else {
                    sum
                })
                &&& final(self).status_dirty == (old(self).status_dirty || got.len() > 0 || bad > 0
                    || final(self).ch.dcd != old(self).ch.dcd)
                &&& packets_of(r@) == link_packets(got, old(self).me())
            }),
            *final(self) == (PacketController {
                ch: final(self).ch,
                heard: final(self).heard,
                air_frames: final(self).air_frames,
                bad_frames: final(self).bad_frames,
                status_dirty: final(self).status_dirty,
                ..*old(self)
            }),
    {
        let x = self.ch.on_rx_audio(samples, heard, &self.cfg, nanos);
        let ghost got = frames_of(x.frames@);
        assert(old(self).ch.keyed ==> got =~= Seq::empty());
        let ghost air = frames_of(self.air_frames@);
        let ghost start = *self;
        let max: usize = self.heard_max;
        let mut i: usize = 0;
        assert(air + got.take(0) =~= air);
        while i < x.frames.len()
            invariant
                i <= x.frames@.len(),
                got == frames_of(x.frames@),
                max == start.heard_max,
                self.air_frames@.len() <= max,
                air.len() <= max,
                frames_of(self.air_frames@) == oldest(air + got.take(i as int), max as int),
                *self == (PacketController { air_frames: self.air_frames, ..start }),
            decreases x.frames@.len() - i,
        {
            let ghost kept = frames_of(self.air_frames@);
            let n: usize = x.frames[i].len();
            assert(air + got.take(i + 1) =~= (air + got.take(i as int)).push(got[i as int]));
            assert(kept.len() == self.air_frames@.len());
            if self.air_frames.len() < max {
                let copy: Vec<u8> = text::copy_bytes(x.frames[i].as_slice(), 0, n);
                assert(copy@ =~= got[i as int]);
                self.air_frames.push(copy);
                assert(frames_of(self.air_frames@) =~= kept.push(got[i as int]));
            }
            i += 1;
            assert(frames_of(self.air_frames@) =~= oldest(air + got.take(i as int), max as int));
        }
        assert(got.take(got.len() as int) =~= got);
        let r: Vec<Packet> = self.note_frames(&x.frames, false, at);
        if x.bad > 0 {
            self.bad_frames = self.bad_frames.saturating_add(x.bad);
            self.status_dirty = true;
        }
        if x.dcd_changed {
            self.status_dirty = true;
        }
        r
    }

    /// A look at the clock, in microseconds: the beacon, the over that the
    /// channel is clear for, and the status.
    pub fn poll(&mut self, now_in: u64, now: u64) -> (r: Polled)
        requires
            old(self).wf(),
            now_in + beacon_every(old(self).cfg) <= u64::MAX,
        ensures
            final(self).wf(),
            final(self).next_beacon == beacon_next(old(self).next_beacon, old(self).cfg, now_in),
            ({
                let waiting = frames_of(old(self).ch.pending@) + (if beacon_due(
                    old(self).next_beacon,
                    old(self).cfg,
                    now_in,
                ) {
                    beacon_frames(old(self).cfg)
                } else {
                    Seq::empty()
                });
                let keys = old(self).ch.want_tx && !old(self).ch.keyed;
                let dirty = old(self).status_dirty || keys || waiting.len()
                    > old(self).ch.pending@.len() || status_due(old(self).last_status, now);
                &&& (r.over is Some) == keys
                &&& r.over matches Some(o) ==> {
                    &&& frames_of(o.frames@) == waiting
                    &&& o.head_flags == ax25_channel::flag_count(
                        old(self).cfg.packet_txdelay_ms,
                        old(self).ch.baud,
                    )
                    &&& o.tail_flags == ax25_channel::flag_count(
                        old(self).cfg.packet_txtail_ms,
                        old(self).ch.baud,
                    )
                }
                &&& frames_of(final(self).ch.pending@) == (if keys {
                    Seq::empty()
                } else {
                    waiting
                })
                &&& final(self).ch.keyed == (old(self).ch.keyed || keys)
                &&& final(self).ch.want_tx == (old(self).ch.want_tx && !keys)
                &&& final(self).monitor() == (if keys {
                    newest(
                        old(self).monitor() + lines_of(waiting, true, (now / 1_000_000) as i64),
                        old(self).heard_max as int,
                    )
                } else {
                    old(self).monitor()
                })
                &&& packets_of(r.for_link@) == (if keys {
                    link_packets(waiting, old(self).me())
                } else {
                    Seq::empty()
                })
                &&& r.status == dirty
                &&& final(self).last_status == (if dirty {
                    Some(now)
                } else {
                    old(self).last_status
                })
            }),
            !final(self).status_dirty,
            final(self).ch == (Ax25Channel {
                pending: final(self).ch.pending,
                keyed: final(self).ch.keyed,
                want_tx: final(self).ch.want_tx,
                ..old(self).ch
            }),
            *final(self) == (PacketController {
                ch: final(self).ch,
                heard: final(self).heard,
                next_beacon: final(self).next_beacon,
                last_status: final(self).last_status,
                status_dirty: false,
                ..*old(self)
            }),
    {
        let ghost pending = frames_of(self.ch.pending@);
        let blank: String = text::trimmed(self.cfg.packet_beacon_text.as_str());
        proof {
            reveal_strlit("");
            assert(blank@.len() == 0 ==> blank@ =~= ""@);
            assert(pending + Seq::<Seq<u8>>::empty() =~= pending);
        }
        let every: u64 = self.cfg.packet_beacon_minutes as u64 * 60_000_000;
        if every == 0 || text::same(blank.as_str(), "") {
            self.next_beacon = None;
        } else {
            match self.next_beacon {
                None => {
                    self.next_beacon = Some(now_in + every);
                },
                Some(at) => {
                    if now_in >= at {
                        self.queue_beacon();
                        self.next_beacon = Some(now_in + every);
                    }
                },
            }
        }
        let ghost waiting = frames_of(self.ch.pending@);
        let ghost mid = *self;
        let mut for_link: Vec<Packet> = Vec::new();
        assert(packets_of(for_link@) =~= Seq::empty());
        let over: Option<Over> = self.ch.take_over(&self.cfg);
        match &over {
            Some(o) => {
                for_link = self.note_frames(&o.frames, true, (now / 1_000_000) as i64);
                self.status_dirty = true;
                assert(frames_of(self.ch.pending@) =~= Seq::empty());
            },
            None => {},
        }
        let due: bool = match self.last_status {
            None => true,
            Some(t) => now < t || now - t > STATUS_EVERY,
        };
        let status: bool = self.status_dirty || due;
        if status {
            self.status_dirty = false;
            self.last_status = Some(now);
        }
        Polled { over, status, for_link }
    }

    /// Frames heard since the last call, for a host.
    pub fn take_air_frames(&mut self) -> (r: Vec<Vec<u8>>)
        ensures
            r == old(self).air_frames,
            final(self).air_frames@.len() == 0,
            *final(self) == (PacketController {
                air_frames: final(self).air_frames,
                ..*old(self)
            }),
    {
        let mut empty: Vec<Vec<u8>> = Vec::new();
        std::mem::swap(&mut empty, &mut self.air_frames);
        empty
    }

    pub fn tx_burst_active(&self) -> (r: bool)
        ensures
            r == self.ch.keyed,
    {
        self.ch.keyed
    }

    pub fn on_burst_done(&mut self)
        ensures
            *final(self) == (PacketController {
                ch: (Ax25Channel { keyed: false, ..old(self).ch }),
                status_dirty: true,
                ..*old(self)
            }),
    {
        self.ch.on_burst_done();
        self.status_dirty = true;
    }

    /// Stops everything; what waits is dropped too.
    pub fn abort(&mut self)
        ensures
            final(self).same_but_channel(*old(self)),
            final(self).status_dirty,
            final(self).ch.pending@.len() == 0,
            final(self).ch == (Ax25Channel {
                pending: final(self).ch.pending,
                keyed: false,
                want_tx: false,
                ..old(self).ch
            }),
    {
        self.ch.abort();
        self.status_dirty = true;
    }

    /// The key was refused, or the over stopped. What waits stays.
    pub fn abort_tx(&mut self)
        ensures
            *final(self) == (PacketController {
                ch: (Ax25Channel { keyed: false, want_tx: false, ..old(self).ch }),
                status_dirty: true,
                ..*old(self)
            }),
    {
        self.ch.abort_tx();
        self.status_dirty = true;
    }

    /// New settings. Another speed rebuilds the channel.
    pub fn set_config(&mut self, cfg: DigiConfig)
        ensures
            ({
                let baud = speed(old(self).mode, cfg.packet_baud);
                *final(self) == (PacketController {
                    cfg,
                    ch: if baud == old(self).ch.baud {
                        old(self).ch
                    } else {
                        Ax25Channel {
                            baud,
                            rate: old(self).tap_rate,
                            slot_samples: ax25_channel::slot_len(
                                cfg.packet_slottime_ms,
                                old(self).tap_rate,
                            ) as u32,
                            ..old(self).ch
                        }
                    },
                    status_dirty: true,
                    ..*old(self)
                })
            }),
    {
        let was: PacketBaud = self.ch.baud();
        self.cfg = cfg;
        let baud: PacketBaud = baud_for(self.mode, &self.cfg);
        if baud != was {
            self.ch.rebuild(baud, &self.cfg, self.tap_rate);
        }
        self.status_dirty = true;
    }

    /// The tone pair whose middle is the audio frequency; none on FM, where the
    /// signal is centred on the carrier.
    pub fn audio_profile(&self) -> (r: Option<PacketBaud>)
        ensures
            r == (if self.mode == Mode::Packet {
                None
            } else if self.ch.baud == PacketBaud::Hf300 {
                Some(PacketBaud::Hf300)
            } else {
                Some(PacketBaud::Vhf1200)
            }),
    {
        if self.mode == Mode::Packet {
            None
        } else if self.ch.baud == PacketBaud::Hf300 {
            Some(PacketBaud::Hf300)
        } else {
            Some(PacketBaud::Vhf1200)
        }
    }

    /// Empties the monitor, and with it the count of what it could not read.
    pub fn clear_rx(&mut self)
        ensures
            final(self).heard@.len() == 0,
            *final(self) == (PacketController {
                heard: final(self).heard,
                bad_frames: 0,
                status_dirty: true,
                ..*old(self)
            }),
    {
        self.heard.clear();
        self.bad_frames = 0;
        self.status_dirty = true;
    }

    /// What an operator sees. `peer` is the station at the other end of a link
    /// that is up.
    pub fn status(&self, peer: Option<String>) -> (r: PacketStatus)
        ensures
            r.mode == self.mode,
            r.baud == self.ch.baud,
            r.dcd == self.ch.dcd,
            r.transmitting == self.ch.keyed,
            lines(r.heard@) == self.monitor(),
            r.bad_frames == self.bad_frames,
            r.link == (if self.link is Some {
                peer
            } else {
                None
            }),
    {
        let mut heard: Vec<PacketHeard> = Vec::new();
        let mut i: usize = 0;
        while i < self.heard.len()
            invariant
                i <= self.heard@.len(),
                lines(heard@) == self.monitor().take(i as int),
            decreases self.heard@.len() - i,
        {
            let ghost got = lines(heard@);
            heard.push(self.heard[i].clone());
            i += 1;
            assert(got.len() == heard@.len() - 1);
            assert(lines(heard@) =~= got.push(self.heard@[i - 1]@));
            assert(lines(heard@) =~= self.monitor().take(i as int));
        }
        assert(lines(heard@) =~= self.monitor());
        let link: Option<String> = match &self.link {
            Some(_) => peer,
            None => None,
        };
        PacketStatus {
            mode: self.mode,
            baud: self.ch.baud(),
            dcd: self.ch.dcd,
            transmitting: self.ch.keyed,
            heard,
            bad_frames: self.bad_frames,
            link,
        }
    }
}

/// What a session is told when its link is up or down, of whether it was told
/// that it is up.
pub open spec fn told(announced: bool, up: bool) -> Option<PortEvent> {
    if up && !announced {
        Some(PortEvent::Connected)
    } else if !up && announced {
        Some(PortEvent::Disconnected)
    } else {
        None
    }
}

proof fn lemma_newest(s: Seq<HeardView>, e: HeardView, max: int)
    requires
        max > 0,
    ensures
        newest(newest(s, max).push(e), max) == newest(s.push(e), max),
{
    assert(newest(newest(s, max).push(e), max) =~= newest(s.push(e), max));
}

/// `BEACON` is a callsign, as it stands.
proof fn lemma_beacon_call()
    ensures
        vstd::utf8::is_ascii_chars("BEACON"@),
        text::uppers("BEACON"@) == "BEACON"@,
        addr::call_ok("BEACON"@),
        addr::ssid_of("BEACON"@) == 0,
{
    reveal_strlit("BEACON");
    let s = "BEACON"@;
    assert(text::uppers(s) =~= s);
    reveal_with_fuel(text::find_from, 8);
    assert(text::find(s, '-') == 6);
    assert(addr::base_of(s) =~= s);
}

/// A station without a callsign does not beacon, however its text reads.
pub proof fn law_no_callsign_no_beacon(cfg: DigiConfig)
    requires
        text::trim(cfg.packet_mycall@).len() == 0 || !addr::call_ok(
            text::unicode_upper(text::trim(cfg.packet_mycall@)),
        ),
    ensures
        beacon_frames(cfg) == Seq::<Seq<u8>>::empty(),
{
}

/// A beacon reads back as a UI frame to `BEACON` from the operator's call, with
/// the operator's text.
pub proof fn law_a_beacon_reads_back(cfg: DigiConfig)
    requires
        beacon_frames(cfg).len() > 0,
    ensures
        ({
            let call = text::unicode_upper(text::trim(cfg.packet_mycall@));
            packet::reading(beacon_frames(cfg)[0], None) matches packet::Reading::Packet(p) && {
                &&& p.src.call == addr::heard(addr::plain(call), true, true, false, false).call
                &&& p.dst.call == "BEACON"@
                &&& p.digipeater.len() == 0
                &&& p.frame == (packet::FrameView::Ui {
                    pid: packet::NO_L3,
                    push: false,
                    payload: vstd::utf8::encode_utf8(text::trim(cfg.packet_beacon_text@)),
                })
            }
        }),
{
    lemma_beacon_call();
    let p = beacon_packet(cfg.packet_mycall@, cfg.packet_beacon_text@)->0;
    assert(p.valid());
    packet::law_packet_says_its_form(p);
    reveal_strlit("BEACON");
    reveal_with_fuel(text::find_from, 8);
    assert(addr::base_of("BEACON"@) =~= "BEACON"@);
}

/// Two beacons are an interval apart: after the first look at the clock, and
/// after each beacon, none is due before the interval is over.
pub proof fn law_beacons_are_an_interval_apart(
    next: Option<u64>,
    cfg: DigiConfig,
    t0: u64,
    t1: u64,
)
    requires
        next is None || beacon_due(next, cfg, t0),
        t0 + beacon_every(cfg) <= u64::MAX,
        t1 < t0 + beacon_every(cfg),
    ensures
        !beacon_due(beacon_next(next, cfg, t0), cfg, t1),
{
}

/// A session is told of each change of its link, and of it once.
pub proof fn law_a_change_is_announced_once(announced: bool, up: bool)
    ensures
        told(announced, up) is Some <==> announced != up,
        told(up, up) is None,
{
}

/// The monitor never has more lines than it may, and the newest line is in it.
pub proof fn law_the_monitor_keeps_the_newest(s: Seq<HeardView>, e: HeardView, max: int)
    requires
        max > 0,
    ensures
        newest(s.push(e), max).len() <= max,
        newest(s.push(e), max).last() == e,
{
}

} // verus!
