//! The AX.25 packet codec: every frame type, parsed and serialised.
//!
//! The frame check sequence is not here: a frame that reaches this module has
//! passed it and lost it.
use crate::ax25::addr;
use crate::ax25::addr::{Addr, AddrView};
use crate::ax25::Ax25Error;
use crate::text;
use vstd::prelude::*;

verus! {

broadcast use vstd::seq::group_seq_axioms;

/// An AX.25 packet, of any type.
#[derive(Clone, Debug, PartialEq)]
pub struct Packet {
    pub(crate) src: Addr,
    pub(crate) dst: Addr,
    pub(crate) digipeater: Vec<Addr>,
    pub(crate) rr_extseq: bool,
    pub(crate) command_response: bool,
    pub(crate) command_response_la: bool,
    pub(crate) rr_dist1: bool,
    pub(crate) packet_type: PacketType,
}

/// All packet types.
#[derive(Clone, Debug, PartialEq)]
pub enum PacketType {
    Sabm(Sabm),
    Sabme(Sabme),
    Ua(Ua),
    Dm(Dm),
    Disc(Disc),
    Iframe(Iframe),
    Rr(Rr),
    Rnr(Rnr),
    Rej(Rej),
    Srej(Srej),
    Frmr(Frmr),
    Xid(Xid),
    Ui(Ui),
    Test(Test),
}

/// SABM - Set Asynchronous Balanced Mode
#[derive(Clone, Debug, PartialEq)]
pub struct Sabm {
    pub poll: bool,
}

/// SABME - Set Asynchronous Balanced Mode Extended
#[derive(Clone, Debug, PartialEq)]
pub struct Sabme {
    pub poll: bool,
}

/// RR - Receiver Ready. Basically an ACK.
#[derive(Debug, PartialEq, Clone)]
pub struct Rr {
    pub poll: bool,
    pub nr: u8,
}

/// REJ - Reject
#[derive(Debug, PartialEq, Clone)]
pub struct Rej {
    pub poll: bool,
    pub nr: u8,
}

/// SREJ - Selective reject: request retransmission of a single iframe.
#[derive(Debug, PartialEq, Clone)]
pub struct Srej {
    pub poll: bool,
    pub nr: u8,
}

/// FRMR - A deprecated error signaling
#[derive(Debug, PartialEq, Clone)]
pub struct Frmr {
    pub poll: bool,
}

/// Test - Test frame. The payload is mirrored back.
#[derive(Debug, PartialEq, Clone)]
pub struct Test {
    pub poll: bool,
    pub payload: Vec<u8>,
}

/// XID - Exchange Identification. Its parameters are not carried.
#[derive(Debug, PartialEq, Clone)]
pub struct Xid {
    pub poll: bool,
}

/// RNR - Receiver Not Ready
#[derive(Debug, PartialEq, Clone)]
pub struct Rnr {
    pub poll: bool,
    pub nr: u8,
}

/// UA - Unnumbered Ack
#[derive(Debug, PartialEq, Clone)]
pub struct Ua {
    pub poll: bool,
}

/// IFRAME - Information Frame
#[derive(Clone, Debug, PartialEq)]
pub struct Iframe {
    pub nr: u8,
    pub ns: u8,
    pub poll: bool,
    pub pid: u8,
    pub payload: Vec<u8>,
}

/// UI - Unnumbered Information
#[derive(Clone, Debug, PartialEq)]
pub struct Ui {
    pub pid: u8,
    pub push: bool,
    pub payload: Vec<u8>,
}

/// DM - Disconnected Mode
#[derive(Clone, Debug, PartialEq)]
pub struct Dm {
    pub poll: bool,
}

/// DISC - Disconnect
#[derive(Clone, Debug, PartialEq)]
pub struct Disc {
    pub poll: bool,
}

// Unnumbered frames. Ending in 11.
pub const CONTROL_SABM: u8 = 0x2F;
pub const CONTROL_SABME: u8 = 0x6F;
pub const CONTROL_UI: u8 = 0x03;
pub const CONTROL_DISC: u8 = 0x43;
pub const CONTROL_DM: u8 = 0x0F;
pub const CONTROL_UA: u8 = 0x63;
pub const CONTROL_TEST: u8 = 0xE3;
pub const CONTROL_XID: u8 = 0xAF;
pub const CONTROL_FRMR: u8 = 0x87;

// Supervisor frames. Ending in 01.
pub const CONTROL_RR: u8 = 0x01;
pub const CONTROL_RNR: u8 = 0x05;
pub const CONTROL_REJ: u8 = 0x09;
pub const CONTROL_SREJ: u8 = 0x0D;

/// The poll/final bit of a one-byte control field.
pub const CONTROL_POLL: u8 = 0x10;

/// The protocol identifier of a frame with no layer 3.
pub const NO_L3: u8 = 0xF0;

/// What a packet type holds.
pub enum FrameView {
    Sabm { poll: bool },
    Sabme { poll: bool },
    Ua { poll: bool },
    Dm { poll: bool },
    Disc { poll: bool },
    Iframe { nr: u8, ns: u8, poll: bool, pid: u8, payload: Seq<u8> },
    Rr { poll: bool, nr: u8 },
    Rnr { poll: bool, nr: u8 },
    Rej { poll: bool, nr: u8 },
    Srej { poll: bool, nr: u8 },
    Frmr { poll: bool },
    Xid { poll: bool },
    Ui { pid: u8, push: bool, payload: Seq<u8> },
    Test { poll: bool, payload: Seq<u8> },
}

impl View for PacketType {
    type V = FrameView;

    open spec fn view(&self) -> FrameView {
        match *self {
            PacketType::Sabm(s) => FrameView::Sabm { poll: s.poll },
            PacketType::Sabme(s) => FrameView::Sabme { poll: s.poll },
            PacketType::Ua(s) => FrameView::Ua { poll: s.poll },
            PacketType::Dm(s) => FrameView::Dm { poll: s.poll },
            PacketType::Disc(s) => FrameView::Disc { poll: s.poll },
            PacketType::Iframe(s) => FrameView::Iframe {
                nr: s.nr,
                ns: s.ns,
                poll: s.poll,
                pid: s.pid,
                payload: s.payload@,
            },
            PacketType::Rr(s) => FrameView::Rr { poll: s.poll, nr: s.nr },
            PacketType::Rnr(s) => FrameView::Rnr { poll: s.poll, nr: s.nr },
            PacketType::Rej(s) => FrameView::Rej { poll: s.poll, nr: s.nr },
            PacketType::Srej(s) => FrameView::Srej { poll: s.poll, nr: s.nr },
            PacketType::Frmr(s) => FrameView::Frmr { poll: s.poll },
            PacketType::Xid(s) => FrameView::Xid { poll: s.poll },
            PacketType::Ui(s) => FrameView::Ui { pid: s.pid, push: s.push, payload: s.payload@ },
            PacketType::Test(s) => FrameView::Test { poll: s.poll, payload: s.payload@ },
        }
    }
}

/// What a packet holds.
pub struct PacketView {
    pub src: AddrView,
    pub dst: AddrView,
    pub digipeater: Seq<AddrView>,
    pub rr_extseq: bool,
    pub command_response: bool,
    pub command_response_la: bool,
    pub rr_dist1: bool,
    pub frame: FrameView,
}

/// The addresses of a path.
pub open spec fn hops(v: Seq<Addr>) -> Seq<AddrView> {
    Seq::new(v.len(), |i: int| v[i]@)
}

impl View for Packet {
    type V = PacketView;

    closed spec fn view(&self) -> PacketView {
        PacketView {
            src: self.src@,
            dst: self.dst@,
            digipeater: hops(self.digipeater@),
            rr_extseq: self.rr_extseq,
            command_response: self.command_response,
            command_response_la: self.command_response_la,
            rr_dist1: self.rr_dist1,
            frame: self.packet_type@,
        }
    }
}

impl PacketView {
    pub open spec fn valid(self) -> bool {
        &&& self.src.valid()
        &&& self.dst.valid()
        &&& forall|i: int| 0 <= i < self.digipeater.len() ==> (#[trigger] self.digipeater[i]).valid()
    }
}

/// A control field of one byte without sequence numbers.
pub open spec fn control(base: u8, poll: bool) -> Seq<u8> {
    seq![(base + addr::bit(poll, 16)) as u8]
}

/// The control field of a supervisory frame.
pub open spec fn supervisory(base: u8, poll: bool, nr: int, ext: bool) -> Seq<u8> {
    if ext {
        seq![base, (2 * (nr % 128) + addr::bit(poll, 1)) as u8]
    } else {
        seq![(base + addr::bit(poll, 16) + 32 * (nr % 8)) as u8]
    }
}

/// The control field and what follows it.
pub open spec fn frame_wire(f: FrameView, ext: bool) -> Seq<u8> {
    match f {
        FrameView::Sabm { poll } => control(
            if ext {
                CONTROL_SABME
            } else {
                CONTROL_SABM
            },
            poll,
        ),
        FrameView::Sabme { poll } => control(CONTROL_SABME, poll),
        FrameView::Ua { poll } => control(CONTROL_UA, poll),
        FrameView::Dm { poll } => control(CONTROL_DM, poll),
        FrameView::Disc { poll } => control(CONTROL_DISC, poll),
        FrameView::Frmr { poll } => control(CONTROL_FRMR, poll),
        FrameView::Xid { poll } => control(CONTROL_XID, poll),
        FrameView::Ui { pid, push, payload } => control(CONTROL_UI, push).push(pid) + payload,
        FrameView::Test { poll, payload } => control(CONTROL_TEST, poll) + payload,
        FrameView::Rr { poll, nr } => supervisory(CONTROL_RR, poll, nr as int, ext),
        FrameView::Rnr { poll, nr } => supervisory(CONTROL_RNR, poll, nr as int, ext),
        // The two rejects carry their number in the extended form only.
        FrameView::Rej { poll, nr } => supervisory(
            CONTROL_REJ,
            poll,
            if ext {
                nr as int
            } else {
                0
            },
            ext,
        ),
        FrameView::Srej { poll, nr } => supervisory(
            CONTROL_SREJ,
            poll,
            if ext {
                nr as int
            } else {
                0
            },
            ext,
        ),
        FrameView::Iframe { nr, ns, poll, pid, payload } => (if ext {
            seq![
                (2 * (ns as int % 128)) as u8,
                (2 * (nr as int % 128) + addr::bit(poll, 1)) as u8,
            ]
        } else {
            seq![(addr::bit(poll, 16) + 32 * (nr as int % 8) + 2 * (ns as int % 8)) as u8]
        }).push(pid) + payload,
    }
}

/// The first `n` addresses of a digipeater path. The low bit marks the last of
/// the path; none is sent as having been repeated.
pub open spec fn path_wire(path: Seq<AddrView>, n: nat) -> Seq<u8>
    decreases n,
{
    if n == 0 {
        Seq::empty()
    } else {
        path_wire(path, (n - 1) as nat) + addr::addr_wire(
            path[n - 1],
            n == path.len(),
            false,
            false,
            false,
        )
    }
}

/// The bytes of a packet.
pub open spec fn packet_wire(p: PacketView, ext: bool) -> Seq<u8> {
    addr::addr_wire(p.dst, false, p.command_response, p.rr_dist1, false) + addr::addr_wire(
        p.src,
        p.digipeater.len() == 0,
        p.command_response_la,
        p.rr_extseq,
        false,
    ) + path_wire(p.digipeater, p.digipeater.len()) + frame_wire(p.frame, ext)
}

/// What the bytes behind the addresses say.
pub enum FrameReading {
    /// A frame that ends before what its type needs, or of an unknown type.
    Unreadable,
    /// An extended control field of one byte.
    TooShort,
    Frame(FrameView),
}

/// An unnumbered frame with this control field and this body.
pub open spec fn unnumbered(c: u8, body: Seq<u8>) -> FrameReading {
    let poll = (c as int / 16) % 2 == 1;
    let u = c - addr::bit(poll, 16);
    if u == CONTROL_SABME {
        FrameReading::Frame(FrameView::Sabme { poll })
    } else if u == CONTROL_SABM {
        FrameReading::Frame(FrameView::Sabm { poll })
    } else if u == CONTROL_UA {
        FrameReading::Frame(FrameView::Ua { poll })
    } else if u == CONTROL_DISC {
        FrameReading::Frame(FrameView::Disc { poll })
    } else if u == CONTROL_DM {
        FrameReading::Frame(FrameView::Dm { poll })
    } else if u == CONTROL_FRMR {
        FrameReading::Frame(FrameView::Frmr { poll })
    } else if u == CONTROL_UI {
        if body.len() == 0 {
            FrameReading::Unreadable
        } else {
            FrameReading::Frame(FrameView::Ui { pid: body[0], push: poll, payload: body.skip(1) })
        }
    } else if u == CONTROL_XID {
        FrameReading::Frame(FrameView::Xid { poll })
    } else if u == CONTROL_TEST {
        FrameReading::Frame(FrameView::Test { poll, payload: body })
    } else {
        FrameReading::Unreadable
    }
}

/// A frame with sequence numbers.
pub open spec fn numbered(c: u8, poll: bool, nr: u8, ns: u8, body: Seq<u8>) -> FrameReading {
    if c as int % 2 == 0 {
        if body.len() == 0 {
            FrameReading::Unreadable
        } else {
            FrameReading::Frame(
                FrameView::Iframe { nr, ns, poll, pid: NO_L3, payload: body.skip(1) },
            )
        }
    } else {
        let kind = (c as int / 4) % 4;
        FrameReading::Frame(
            if kind == 0 {
                FrameView::Rr { poll, nr }
            } else if kind == 1 {
                FrameView::Rnr { poll, nr }
            } else if kind == 2 {
                FrameView::Rej { poll, nr }
            } else {
                FrameView::Srej { poll, nr }
            },
        )
    }
}

pub open spec fn frame_reading(rest: Seq<u8>, ext: bool) -> FrameReading {
    if rest.len() == 0 {
        FrameReading::Unreadable
    } else {
        let c = rest[0];
        if c as int % 4 == 3 {
            unnumbered(c, rest.skip(1))
        } else if !ext {
            numbered(
                c,
                (c as int / 16) % 2 == 1,
                (c as int / 32) as u8,
                ((c as int / 2) % 8) as u8,
                rest.skip(1),
            )
        } else if rest.len() < 2 {
            FrameReading::TooShort
        } else {
            numbered(
                c,
                rest[1] as int % 2 == 1,
                (rest[1] as int / 2) as u8,
                (c as int / 2) as u8,
                rest.skip(2),
            )
        }
    }
}

/// A digipeater path on the wire.
pub enum PathReading {
    /// The path runs past the end of the bytes.
    Unreadable,
    /// One of its addresses spells this instead of a callsign.
    BadCall(Seq<char>),
    /// The path, and where it ends.
    Path(Seq<AddrView>, int),
}

/// The path that starts at `pos`, up to the first address with its low bit set.
pub open spec fn path_reading(b: Seq<u8>, pos: int) -> PathReading
    decreases b.len() - pos,
{
    if pos < 0 || pos + 7 > b.len() {
        PathReading::Unreadable
    } else {
        let w = b.subrange(pos, pos + 7);
        let a = addr::addr_of_wire(w);
        if !addr::call_ok(a.call) {
            PathReading::BadCall(a.call)
        } else if a.lowbit {
            PathReading::Path(seq![a], pos + 7)
        } else {
            match path_reading(b, pos + 7) {
                PathReading::Path(more, end) => PathReading::Path(seq![a] + more, end),
                other => other,
            }
        }
    }
}

/// What some bytes say as a packet.
pub enum Reading {
    /// Bytes that end before what they announce, or a frame of unknown type.
    Unreadable,
    /// Fewer than fifteen bytes.
    Short,
    /// An address that spells this instead of a callsign.
    BadCall(Seq<char>),
    /// An extended control field of one byte.
    TooShort,
    Packet(PacketView),
}

pub open spec fn reading(b: Seq<u8>, ext: Option<bool>) -> Reading {
    if b.len() < 15 {
        Reading::Short
    } else {
        let dst = addr::addr_of_wire(b.subrange(0, 7));
        let src = addr::addr_of_wire(b.subrange(7, 14));
        let x = match ext {
            Some(v) => v,
            None => src.rbit_ext,
        };
        if !addr::call_ok(dst.call) {
            Reading::BadCall(dst.call)
        } else if !addr::call_ok(src.call) {
            Reading::BadCall(src.call)
        } else {
            let path = if src.lowbit {
                PathReading::Path(Seq::empty(), 14)
            } else {
                path_reading(b, 14)
            };
            match path {
                PathReading::Unreadable => Reading::Unreadable,
                PathReading::BadCall(c) => Reading::BadCall(c),
                PathReading::Path(digipeater, end) => match frame_reading(b.skip(end), x) {
                    FrameReading::Unreadable => Reading::Unreadable,
                    FrameReading::TooShort => Reading::TooShort,
                    FrameReading::Frame(frame) => Reading::Packet(
                        PacketView {
                            src,
                            dst,
                            digipeater,
                            rr_extseq: x,
                            command_response: dst.highbit,
                            command_response_la: src.highbit,
                            rr_dist1: dst.rbit_ext,
                            frame,
                        },
                    ),
                },
            }
        }
    }
}

/// The result that a reading stands for.
pub open spec fn answers(r: Result<Packet, Ax25Error>, b: Seq<u8>, ext: Option<bool>) -> bool {
    match reading(b, ext) {
        Reading::Unreadable => false,
        Reading::Short => r matches Err(Ax25Error::Short(n)) && n == b.len(),
        Reading::BadCall(c) => r matches Err(Ax25Error::Callsign(s)) && s@ == c,
        Reading::TooShort => r matches Err(Ax25Error::Parse(t)) && t@
            == "AX.25 in ext mode, but S/U frame is too short"@,
        Reading::Packet(p) => r matches Ok(q) && q@ == p,
    }
}

fn control_byte(base: u8, poll: bool) -> (c: u8)
    requires
        base <= 0xEF,
    ensures
        c == base + addr::bit(poll, 16),
{
    if poll {
        base + CONTROL_POLL
    } else {
        base
    }
}

fn push_supervisory(ret: &mut Vec<u8>, base: u8, poll: bool, nr: u8, ext: bool)
    requires
        base <= CONTROL_SREJ,
    ensures
        final(ret)@ == old(ret)@ + supervisory(base, poll, nr as int, ext),
{
    if ext {
        ret.push(base);
        let p: u8 = if poll { 1 } else { 0 };
        ret.push(2 * (nr % 128) + p);
    } else {
        ret.push(control_byte(base, poll) + 32 * (nr % 8));
    }
    assert(ret@ =~= old(ret)@ + supervisory(base, poll, nr as int, ext));
}

fn push_all(ret: &mut Vec<u8>, bytes: &[u8])
    ensures
        final(ret)@ == old(ret)@ + bytes@,
{
    let mut i: usize = 0;
    assert(ret@ =~= old(ret)@ + bytes@.take(0));
    while i < bytes.len()
        invariant
            i <= bytes.len(),
            ret@ == old(ret)@ + bytes@.take(i as int),
        decreases bytes.len() - i,
    {
        ret.push(bytes[i]);
        i += 1;
        assert(bytes@.take(i as int) =~= bytes@.take(i - 1).push(bytes@[i - 1]));
        assert(ret@ =~= old(ret)@ + bytes@.take(i as int));
    }
    assert(bytes@.take(bytes@.len() as int) =~= bytes@);
}

impl Packet {
    /// Construct a UI frame.
    pub fn ui(src: Addr, dst: Addr, payload: Vec<u8>) -> (p: Self)
        ensures
            p@ == (PacketView {
                src: src@,
                dst: dst@,
                digipeater: Seq::empty(),
                rr_extseq: false,
                command_response: false,
                command_response_la: true,
                rr_dist1: false,
                frame: FrameView::Ui { pid: 0xf0, push: false, payload: payload@ },
            }),
    {
        let p = Packet {
            src,
            dst,
            digipeater: Vec::new(),
            rr_extseq: false,
            command_response: false,
            command_response_la: true,
            rr_dist1: false,
            packet_type: PacketType::Ui(Ui { pid: 0xf0, push: false, payload }),
        };
        assert(p@.digipeater =~= Seq::empty());
        p
    }

    /// Construct a UI frame with a digipeater path.
    ///
    /// Sent as a command, which is what every APRS station on the channel
    /// sends: destination C bit set, source C bit clear. [`Packet::ui`] builds
    /// the other pairing, a *response*.
    pub fn ui_via(src: Addr, dst: Addr, via: Vec<Addr>, payload: Vec<u8>) -> (p: Self)
        ensures
            p@ == (PacketView {
                src: src@,
                dst: dst@,
                digipeater: hops(via@),
                rr_extseq: false,
                command_response: true,
                command_response_la: false,
                rr_dist1: false,
                frame: FrameView::Ui { pid: 0xf0, push: false, payload: payload@ },
            }),
    {
        let mut p = Self::ui(src, dst, payload);
        p.digipeater = via;
        p.command_response = true;
        p.command_response_la = false;
        p
    }

    /// Get the packet type.
    pub fn packet_type(&self) -> (r: &PacketType)
        ensures
            r@ == self@.frame,
    {
        &self.packet_type
    }

    /// Who sent it.
    pub fn src(&self) -> (r: &Addr)
        ensures
            r@ == self@.src,
    {
        &self.src
    }

    /// Who it was addressed to.
    pub fn dst(&self) -> (r: &Addr)
        ensures
            r@ == self@.dst,
    {
        &self.dst
    }

    /// The digipeater path, in order. Empty for a direct frame.
    pub fn digipeaters(&self) -> (r: &[Addr])
        ensures
            hops(r@) == self@.digipeater,
    {
        self.digipeater.as_slice()
    }

    /// The command/response bit. Several state-machine events need it, and it
    /// is not recoverable from the frame type alone.
    pub fn command_response(&self) -> (r: bool)
        ensures
            r == self@.command_response,
    {
        self.command_response
    }

    /// Serialize a packet, either as standard mod-8, or extended mod-128.
    pub fn serialize(&self, ext: bool) -> (ret: Vec<u8>)
        requires
            self@.command_response != self@.command_response_la,
        ensures
            ret@ == packet_wire(self@, ext),
    {
        let mut ret = self.dst.serialize(false, self.command_response, self.rr_dist1, false);
        let direct = self.digipeater.len() == 0;
        let src = self.src.serialize(direct, self.command_response_la, self.rr_extseq, false);
        push_all(&mut ret, src.as_slice());
        let ghost head = ret@;
        let l = self.digipeater.len();
        let mut n: usize = 0;
        assert(ret@ =~= head + path_wire(self@.digipeater, 0));
        while n < l
            invariant
                n <= l,
                l == self.digipeater@.len(),
                self@.digipeater == hops(self.digipeater@),
                ret@ == head + path_wire(self@.digipeater, n as nat),
            decreases l - n,
        {
            let digi = self.digipeater[n].serialize(n == l - 1, false, false, false);
            push_all(&mut ret, digi.as_slice());
            n += 1;
            assert(ret@ =~= head + path_wire(self@.digipeater, n as nat));
        }
        let ghost addresses = ret@;
        match &self.packet_type {
            // U frames. Control always one byte.
            PacketType::Sabm(s) => {
                if ext {
                    ret.push(control_byte(CONTROL_SABME, s.poll));
                } else {
                    ret.push(control_byte(CONTROL_SABM, s.poll));
                }
            },
            PacketType::Sabme(s) => ret.push(control_byte(CONTROL_SABME, s.poll)),
            PacketType::Ua(s) => ret.push(control_byte(CONTROL_UA, s.poll)),
            PacketType::Disc(s) => ret.push(control_byte(CONTROL_DISC, s.poll)),
            PacketType::Dm(s) => ret.push(control_byte(CONTROL_DM, s.poll)),
            PacketType::Frmr(s) => ret.push(control_byte(CONTROL_FRMR, s.poll)),
            PacketType::Ui(s) => {
                ret.push(control_byte(CONTROL_UI, s.push));
                ret.push(s.pid);
                push_all(&mut ret, s.payload.as_slice());
            },
            PacketType::Xid(s) => ret.push(control_byte(CONTROL_XID, s.poll)),
            PacketType::Test(s) => {
                ret.push(control_byte(CONTROL_TEST, s.poll));
                push_all(&mut ret, s.payload.as_slice());
            },
            // S frames.
            PacketType::Rr(s) => push_supervisory(&mut ret, CONTROL_RR, s.poll, s.nr, ext),
            PacketType::Rnr(s) => push_supervisory(&mut ret, CONTROL_RNR, s.poll, s.nr, ext),
            PacketType::Rej(s) => {
                let nr: u8 = if ext { s.nr } else { 0 };
                push_supervisory(&mut ret, CONTROL_REJ, s.poll, nr, ext);
            },
            PacketType::Srej(s) => {
                let nr: u8 = if ext { s.nr } else { 0 };
                push_supervisory(&mut ret, CONTROL_SREJ, s.poll, nr, ext);
            },
            PacketType::Iframe(s) => {
                if ext {
                    ret.push(2 * (s.ns % 128));
                    let p: u8 = if s.poll { 1 } else { 0 };
                    ret.push(2 * (s.nr % 128) + p);
                } else {
                    ret.push(control_byte(0, s.poll) + 32 * (s.nr % 8) + 2 * (s.ns % 8));
                }
                ret.push(s.pid);
                push_all(&mut ret, s.payload.as_slice());
            },
        }
        assert(ret@ =~= addresses + frame_wire(self@.frame, ext));
        assert(ret@ =~= packet_wire(self@, ext));
        ret
    }

    /// Parse packet from bytes.
    ///
    /// A packet with sequence numbers in it (S and I frames) cannot be parsed
    /// without knowing if it's extended or not, because the control field is
    /// either one or two bytes. With `None` as `ext` the reserved bit in the
    /// source address says which, as the Linux stack uses it.
    ///
    /// Bytes that end before what they announce, and unnumbered frames of
    /// unknown type, have no answer here: [`Packet::parse_checked`] tells them
    /// apart first.
    pub fn parse(bytes: &[u8], ext: Option<bool>) -> (r: Result<Self, Ax25Error>)
        requires
            reading(bytes@, ext) !is Unreadable,
        ensures
            answers(r, bytes@, ext),
    {
        Self::parse_checked(bytes, ext).unwrap()
    }

    /// [`Packet::parse`] for bytes that may be anything: `None` where they end
    /// before what they announce, or hold an unnumbered frame of unknown type.
    pub fn parse_checked(bytes: &[u8], ext: Option<bool>) -> (r: Option<Result<Self, Ax25Error>>)
        ensures
            match r {
                None => reading(bytes@, ext) is Unreadable,
                Some(a) => answers(a, bytes@, ext),
            },
    {
        if bytes.len() < 15 {
            return Some(Err(Ax25Error::Short(bytes.len())));
        }
        let dst = match Addr::parse(&bytes[0..7]) {
            Ok(a) => a,
            Err(e) => return Some(Err(e)),
        };
        let src = match Addr::parse(&bytes[7..14]) {
            Ok(a) => a,
            Err(e) => return Some(Err(e)),
        };
        let ext = match ext {
            Some(v) => v,
            None => src.rbit_ext(),
        };
        let mut digipeater: Vec<Addr> = Vec::new();
        let mut pos: usize = 14;
        assert(hops(digipeater@) =~= Seq::empty());
        if !src.lowbit() {
            match read_path(bytes) {
                None => return None,
                Some(Err(e)) => return Some(Err(e)),
                Some(Ok((path, end))) => {
                    digipeater = path;
                    pos = end;
                },
            }
        }
        let rest = &bytes[pos..bytes.len()];
        assert(rest@ =~= bytes@.skip(pos as int));
        match read_frame(rest, ext) {
            None => None,
            Some(Err(e)) => Some(Err(e)),
            Some(Ok(packet_type)) => {
                let command_response = dst.highbit();
                let command_response_la = src.highbit();
                let rr_dist1 = dst.rbit_ext();
                Some(
                    Ok(
                        Packet {
                            src,
                            dst,
                            digipeater,
                            rr_extseq: ext,
                            command_response,
                            command_response_la,
                            rr_dist1,
                            packet_type,
                        },
                    ),
                )
            },
        }
    }
}

/// A path reading with some addresses in front.
spec fn prepend(front: Seq<AddrView>, r: PathReading) -> PathReading {
    match r {
        PathReading::Path(path, end) => PathReading::Path(front + path, end),
        other => other,
    }
}

proof fn lemma_prepend(a: Seq<AddrView>, b: Seq<AddrView>, r: PathReading)
    ensures
        prepend(a, prepend(b, r)) == prepend(a + b, r),
        prepend(Seq::empty(), r) == r,
{
    if let PathReading::Path(path, end) = r {
        assert(a + (b + path) =~= (a + b) + path);
        assert(Seq::<AddrView>::empty() + path =~= path);
    }
}

/// The digipeater path behind the two addresses, and where it ends.
fn read_path(bytes: &[u8]) -> (r: Option<Result<(Vec<Addr>, usize), Ax25Error>>)
    requires
        bytes@.len() >= 14,
    ensures
        match path_reading(bytes@, 14) {
            PathReading::Unreadable => r is None,
            PathReading::BadCall(c) => r matches Some(Err(Ax25Error::Callsign(s))) && s@ == c,
            PathReading::Path(path, end) => r matches Some(Ok((v, n))) && hops(v@) == path && n
                == end && n <= bytes@.len(),
        },
{
    let mut path: Vec<Addr> = Vec::new();
    let mut pos: usize = 14;
    proof {
        assert(hops(path@) =~= Seq::empty());
        lemma_prepend(Seq::empty(), Seq::empty(), path_reading(bytes@, 14));
    }
    loop
        invariant
            14 <= pos <= bytes@.len(),
            path_reading(bytes@, 14) == prepend(hops(path@), path_reading(bytes@, pos as int)),
        decreases bytes@.len() - pos,
    {
        if bytes.len() - pos < 7 {
            return None;
        }
        let field = &bytes[pos..pos + 7];
        let digi = match Addr::parse(field) {
            Ok(a) => a,
            Err(e) => return Some(Err(e)),
        };
        let last = digi.lowbit();
        let ghost before = hops(path@);
        let ghost after = path_reading(bytes@, pos + 7);
        assert(path_reading(bytes@, pos as int) == if last {
            PathReading::Path(seq![digi@], pos + 7)
        } else {
            prepend(seq![digi@], after)
        });
        proof {
            lemma_prepend(before, seq![digi@], after);
        }
        path.push(digi);
        pos += 7;
        assert(hops(path@) =~= before + seq![digi@]);
        if last {
            return Some(Ok((path, pos)));
        }
    }
}

/// The frame behind the addresses.
fn read_frame(rest: &[u8], ext: bool) -> (r: Option<Result<PacketType, Ax25Error>>)
    ensures
        match frame_reading(rest@, ext) {
            FrameReading::Unreadable => r is None,
            FrameReading::TooShort => r matches Some(Err(Ax25Error::Parse(t))) && t@
                == "AX.25 in ext mode, but S/U frame is too short"@,
            FrameReading::Frame(f) => r matches Some(Ok(p)) && p@ == f,
        },
{
    if rest.len() == 0 {
        return None;
    }
    let c = rest[0];
    if c % 4 == 3 {
        return match read_unnumbered(c, rest) {
            None => None,
            Some(p) => Some(Ok(p)),
        };
    }
    let mut poll = (c / 16) % 2 == 1;
    let mut nr: u8 = c / 32;
    let mut ns: u8 = (c / 2) % 8;
    let mut at: usize = 1;
    if ext {
        if rest.len() < 2 {
            return Some(
                Err(Ax25Error::Parse("AX.25 in ext mode, but S/U frame is too short".to_owned())),
            );
        }
        poll = rest[1] % 2 == 1;
        nr = rest[1] / 2;
        ns = c / 2;
        at = 2;
    }
    let ghost body = rest@.skip(at as int);
    if c % 2 == 0 {
        if rest.len() == at {
            return None;
        }
        let payload = text::copy_bytes(rest, at + 1, rest.len());
        assert(payload@ =~= body.skip(1));
        return Some(Ok(PacketType::Iframe(Iframe { nr, ns, poll, pid: NO_L3, payload })));
    }
    let kind = (c / 4) % 4;
    if kind == 0 {
        Some(Ok(PacketType::Rr(Rr { poll, nr })))
    } else if kind == 1 {
        Some(Ok(PacketType::Rnr(Rnr { poll, nr })))
    } else if kind == 2 {
        Some(Ok(PacketType::Rej(Rej { poll, nr })))
    } else {
        Some(Ok(PacketType::Srej(Srej { poll, nr })))
    }
}

fn read_unnumbered(c: u8, rest: &[u8]) -> (r: Option<PacketType>)
    requires
        rest@.len() > 0,
        c == rest@[0],
    ensures
        match unnumbered(c, rest@.skip(1)) {
            FrameReading::Frame(f) => r matches Some(p) && p@ == f,
            _ => r is None,
        },
{
    let poll = (c / 16) % 2 == 1;
    let u: u8 = if poll { c - CONTROL_POLL } else { c };
    if u == CONTROL_SABME {
        Some(PacketType::Sabme(Sabme { poll }))
    } else if u == CONTROL_SABM {
        Some(PacketType::Sabm(Sabm { poll }))
    } else if u == CONTROL_UA {
        Some(PacketType::Ua(Ua { poll }))
    } else if u == CONTROL_DISC {
        Some(PacketType::Disc(Disc { poll }))
    } else if u == CONTROL_DM {
        Some(PacketType::Dm(Dm { poll }))
    } else if u == CONTROL_FRMR {
        Some(PacketType::Frmr(Frmr { poll }))
    } else if u == CONTROL_UI {
        if rest.len() < 2 {
            return None;
        }
        let payload = text::copy_bytes(rest, 2, rest.len());
        assert(payload@ =~= rest@.skip(1).skip(1));
        Some(PacketType::Ui(Ui { pid: rest[1], push: poll, payload }))
    } else if u == CONTROL_XID {
        Some(PacketType::Xid(Xid { poll }))
    } else if u == CONTROL_TEST {
        let payload = text::copy_bytes(rest, 1, rest.len());
        assert(payload@ =~= rest@.skip(1));
        Some(PacketType::Test(Test { poll, payload }))
    } else {
        None
    }
}

/// What a station hears of a frame: the sequence numbers are cut to three or
/// seven bits, the two rejects lose theirs in the short form, an I frame is
/// read as carrying no layer 3, and an extended SABM is a SABME.
pub open spec fn frame_heard(f: FrameView, ext: bool) -> FrameView {
    let m: int = if ext {
        128
    } else {
        8
    };
    match f {
        FrameView::Sabm { poll } => if ext {
            FrameView::Sabme { poll }
        } else {
            f
        },
        FrameView::Rr { poll, nr } => FrameView::Rr { poll, nr: (nr as int % m) as u8 },
        FrameView::Rnr { poll, nr } => FrameView::Rnr { poll, nr: (nr as int % m) as u8 },
        FrameView::Rej { poll, nr } => FrameView::Rej {
            poll,
            nr: if ext {
                (nr as int % 128) as u8
            } else {
                0
            },
        },
        FrameView::Srej { poll, nr } => FrameView::Srej {
            poll,
            nr: if ext {
                (nr as int % 128) as u8
            } else {
                0
            },
        },
        FrameView::Iframe { nr, ns, poll, pid, payload } => FrameView::Iframe {
            nr: (nr as int % m) as u8,
            ns: (ns as int % m) as u8,
            poll,
            pid: NO_L3,
            payload,
        },
        _ => f,
    }
}

/// What a station hears of a packet that was sent in this form.
pub open spec fn packet_heard(p: PacketView, ext: bool) -> PacketView {
    PacketView {
        src: addr::heard(
            p.src,
            p.digipeater.len() == 0,
            p.command_response_la,
            p.rr_extseq,
            false,
        ),
        dst: addr::heard(p.dst, false, p.command_response, p.rr_dist1, false),
        digipeater: path_heard(p.digipeater, 0),
        rr_extseq: ext,
        frame: frame_heard(p.frame, ext),
        ..p
    }
}

/// What a station hears of a path from its `k`th address on.
pub open spec fn path_heard(path: Seq<AddrView>, k: int) -> Seq<AddrView> {
    Seq::new(
        (path.len() - k) as nat,
        |i: int| addr::heard(path[k + i], k + i == path.len() - 1, false, false, false),
    )
}

proof fn lemma_unnumbered(base: u8, poll: bool)
    requires
        base == CONTROL_SABM || base == CONTROL_SABME || base == CONTROL_UI || base == CONTROL_DISC
            || base == CONTROL_DM || base == CONTROL_UA || base == CONTROL_TEST || base
            == CONTROL_XID || base == CONTROL_FRMR,
    ensures
        ({
            let c = (base + addr::bit(poll, 16)) as u8;
            &&& c == base + addr::bit(poll, 16)
            &&& c as int % 4 == 3
            &&& ((c as int / 16) % 2 == 1) == poll
        }),
{
}

proof fn lemma_supervisory(base: u8, poll: bool, nr: int, ext: bool)
    requires
        base == CONTROL_RR || base == CONTROL_RNR || base == CONTROL_REJ || base == CONTROL_SREJ,
        0 <= nr < 256,
    ensures
        frame_reading(supervisory(base, poll, nr, ext), ext) == numbered(
            base,
            poll,
            (nr % (if ext {
                128
            } else {
                8int
            })) as u8,
            0,
            Seq::empty(),
        ),
{
    let w = supervisory(base, poll, nr, ext);
    if ext {
        assert(w[1] as int == 2 * (nr % 128) + addr::bit(poll, 1));
    } else {
        assert(w[0] as int == base + addr::bit(poll, 16) + 32 * (nr % 8));
        assert((w[0] as int / 4) % 4 == (base as int / 4) % 4);
    }
}

proof fn lemma_iframe(nr: u8, ns: u8, poll: bool, pid: u8, payload: Seq<u8>, ext: bool)
    ensures
        ({
            let f = FrameView::Iframe { nr, ns, poll, pid, payload };
            frame_reading(frame_wire(f, ext), ext) == FrameReading::Frame(frame_heard(f, ext))
        }),
{
    let w = frame_wire(FrameView::Iframe { nr, ns, poll, pid, payload }, ext);
    if ext {
        assert(w[0] as int == 2 * (ns as int % 128));
        assert(w[1] as int == 2 * (nr as int % 128) + addr::bit(poll, 1));
        assert(w.skip(2).skip(1) =~= payload);
    } else {
        assert(w[0] as int == addr::bit(poll, 16) + 32 * (nr as int % 8) + 2 * (ns as int % 8));
        assert(w.skip(1).skip(1) =~= payload);
    }
}

/// A frame of any type reads back from its bytes.
pub proof fn law_frame_round_trip(f: FrameView, ext: bool)
    ensures
        frame_reading(frame_wire(f, ext), ext) == FrameReading::Frame(frame_heard(f, ext)),
{
    let w = frame_wire(f, ext);
    match f {
        FrameView::Iframe { nr, ns, poll, pid, payload } => {
            lemma_iframe(nr, ns, poll, pid, payload, ext);
        },
        FrameView::Ui { pid, push, payload } => {
            lemma_unnumbered(CONTROL_UI, push);
            assert(w.skip(1).skip(1) =~= payload);
        },
        FrameView::Test { poll, payload } => {
            lemma_unnumbered(CONTROL_TEST, poll);
            assert(w.skip(1) =~= payload);
        },
        FrameView::Sabm { poll } => {
            lemma_unnumbered(CONTROL_SABM, poll);
            lemma_unnumbered(CONTROL_SABME, poll);
        },
        FrameView::Sabme { poll } => lemma_unnumbered(CONTROL_SABME, poll),
        FrameView::Ua { poll } => lemma_unnumbered(CONTROL_UA, poll),
        FrameView::Dm { poll } => lemma_unnumbered(CONTROL_DM, poll),
        FrameView::Disc { poll } => lemma_unnumbered(CONTROL_DISC, poll),
        FrameView::Frmr { poll } => lemma_unnumbered(CONTROL_FRMR, poll),
        FrameView::Xid { poll } => lemma_unnumbered(CONTROL_XID, poll),
        FrameView::Rr { poll, nr } => lemma_supervisory(CONTROL_RR, poll, nr as int, ext),
        FrameView::Rnr { poll, nr } => lemma_supervisory(CONTROL_RNR, poll, nr as int, ext),
        FrameView::Rej { poll, nr } => lemma_supervisory(
            CONTROL_REJ,
            poll,
            if ext {
                nr as int
            } else {
                0
            },
            ext,
        ),
        FrameView::Srej { poll, nr } => lemma_supervisory(
            CONTROL_SREJ,
            poll,
            if ext {
                nr as int
            } else {
                0
            },
            ext,
        ),
    }
}

proof fn lemma_path_wire(path: Seq<AddrView>, n: nat, k: int)
    requires
        n <= path.len(),
    ensures
        path_wire(path, n).len() == 7 * n,
        0 <= k < n ==> path_wire(path, n).subrange(7 * k, 7 * k + 7) == addr::addr_wire(
            path[k],
            k + 1 == path.len(),
            false,
            false,
            false,
        ),
    decreases n,
{
    if n > 0 {
        lemma_path_wire(path, (n - 1) as nat, k);
        let w = path_wire(path, n);
        let front = path_wire(path, (n - 1) as nat);
        if 0 <= k < n - 1 {
            assert(w.subrange(7 * k, 7 * k + 7) =~= front.subrange(7 * k, 7 * k + 7));
        } else if k == n - 1 {
            assert(w.subrange(7 * k, 7 * k + 7) =~= addr::addr_wire(
                path[k],
                n == path.len(),
                false,
                false,
                false,
            ));
        }
    }
}

proof fn lemma_path_reading(b: Seq<u8>, path: Seq<AddrView>, k: int)
    requires
        0 <= k < path.len(),
        forall|i: int| 0 <= i < path.len() ==> (#[trigger] path[i]).valid(),
        b.len() >= (14 + 7 * path.len()) as int,
        b.subrange(14, (14 + 7 * path.len()) as int) == path_wire(path, path.len()),
    ensures
        path_reading(b, 14 + 7 * k) == PathReading::Path(
            path_heard(path, k),
            (14 + 7 * path.len()) as int,
        ),
    decreases path.len() - k,
{
    let last = k + 1 == path.len();
    lemma_path_wire(path, path.len(), k);
    let pos = 14 + 7 * k;
    assert(b.subrange(pos, pos + 7) =~= b.subrange(14, (14 + 7 * path.len()) as int).subrange(
        7 * k,
        7 * k + 7,
    ));
    addr::law_address_round_trip(path[k], last, false, false, false);
    let a = addr::heard(path[k], last, false, false, false);
    if last {
        assert(seq![a] =~= path_heard(path, k));
    } else {
        lemma_path_reading(b, path, k + 1);
        assert(seq![a] + path_heard(path, k + 1) =~= path_heard(path, k));
    }
}

/// A packet of any type reads back from its bytes, addresses, path, bits and
/// frame, when the reader knows the form it was sent in.
pub proof fn law_packet_round_trip(p: PacketView, ext: bool)
    requires
        p.valid(),
    ensures
        reading(packet_wire(p, ext), Some(ext)) == Reading::Packet(packet_heard(p, ext)),
{
    let b = packet_wire(p, ext);
    let dst = addr::addr_wire(p.dst, false, p.command_response, p.rr_dist1, false);
    let direct = p.digipeater.len() == 0;
    let src = addr::addr_wire(p.src, direct, p.command_response_la, p.rr_extseq, false);
    let path = path_wire(p.digipeater, p.digipeater.len());
    lemma_path_wire(p.digipeater, p.digipeater.len(), 0);
    law_frame_round_trip(p.frame, ext);
    assert(frame_wire(p.frame, ext).len() >= 1);
    addr::law_address_round_trip(p.dst, false, p.command_response, p.rr_dist1, false);
    addr::law_address_round_trip(p.src, direct, p.command_response_la, p.rr_extseq, false);
    assert(b.subrange(0, 7) =~= dst);
    assert(b.subrange(7, 14) =~= src);
    let end = 14 + 7 * p.digipeater.len();
    assert(b.skip(end as int) =~= frame_wire(p.frame, ext));
    if direct {
        assert(path_heard(p.digipeater, 0) =~= Seq::empty());
    } else {
        assert(b.subrange(14, end as int) =~= path);
        lemma_path_reading(b, p.digipeater, 0);
    }
}

/// A packet that says its own form reads back without being told.
pub proof fn law_packet_says_its_form(p: PacketView)
    requires
        p.valid(),
    ensures
        reading(packet_wire(p, p.rr_extseq), None) == Reading::Packet(
            packet_heard(p, p.rr_extseq),
        ),
{
    law_packet_round_trip(p, p.rr_extseq);
    let b = packet_wire(p, p.rr_extseq);
    let direct = p.digipeater.len() == 0;
    addr::law_address_round_trip(p.src, direct, p.command_response_la, p.rr_extseq, false);
    assert(b.subrange(7, 14) =~= addr::addr_wire(
        p.src,
        direct,
        p.command_response_la,
        p.rr_extseq,
        false,
    ));
}

/// A path reads back: as many digipeaters in the same order, each under the
/// callsign that it was sent with, and none of them marked as having repeated the
/// frame. So there is none exactly where the frame was sent direct.
pub proof fn law_digipeaters_read_back(p: PacketView)
    requires
        p.valid(),
        forall|i: int|
            0 <= i < p.digipeater.len() ==> text::no_lower((#[trigger] p.digipeater[i]).call)
                && p.digipeater[i].spells_no_zero(),
    ensures
        reading(packet_wire(p, p.rr_extseq), None) matches Reading::Packet(q)
            && q.digipeater.len() == p.digipeater.len() && forall|i: int|
            0 <= i < p.digipeater.len() ==> (#[trigger] q.digipeater[i]).call
                == p.digipeater[i].call && q.digipeater[i].ssid == p.digipeater[i].ssid
                && !q.digipeater[i].highbit,
{
    law_packet_says_its_form(p);
    let q = packet_heard(p, p.rr_extseq);
    assert forall|i: int| 0 <= i < p.digipeater.len() implies (#[trigger] q.digipeater[i]).call
        == p.digipeater[i].call && q.digipeater[i].ssid == p.digipeater[i].ssid
        && !q.digipeater[i].highbit by {
        addr::law_callsign_round_trip(
            p.digipeater[i],
            i == p.digipeater.len() - 1,
            false,
            false,
            false,
        );
    }
}

/// A frame that its own bytes keep: an extended SABM is sent as a SABME, and the
/// two rejects lose their number in the short form.
pub open spec fn is_kept(f: FrameView, ext: bool) -> bool {
    match f {
        FrameView::Sabm { .. } => !ext,
        FrameView::Rej { nr, .. } => ext || nr == 0,
        FrameView::Srej { nr, .. } => ext || nr == 0,
        _ => true,
    }
}

/// What a path that was read is made of.
proof fn lemma_path_was_read(b: Seq<u8>, pos: int)
    requires
        path_reading(b, pos) is Path,
    ensures
        ({
            let path = path_reading(b, pos)->Path_0;
            &&& path.len() > 0
            &&& path_reading(b, pos)->Path_1 == pos + 7 * path.len()
            &&& pos + 7 * path.len() <= b.len()
            &&& forall|k: int|
                #![trigger path[k]]
                0 <= k < path.len() ==> {
                    &&& path[k] == addr::addr_of_wire(b.subrange(pos + 7 * k, pos + 7 * k + 7))
                    &&& path[k].valid()
                    &&& text::no_lower(path[k].call)
                }
        }),
    decreases b.len() - pos,
{
    let w = b.subrange(pos, pos + 7);
    let a = addr::addr_of_wire(w);
    addr::lemma_read_address(w);
    if !a.lowbit {
        lemma_path_was_read(b, pos + 7);
        let more = path_reading(b, pos + 7)->Path_0;
        let path = path_reading(b, pos)->Path_0;
        assert forall|k: int| #![trigger path[k]] 0 <= k < path.len() implies path[k]
            == addr::addr_of_wire(b.subrange(pos + 7 * k, pos + 7 * k + 7)) && path[k].valid()
            && text::no_lower(path[k].call) by {
            if k > 0 {
                assert(path[k] == more[k - 1]);
                assert(pos + 7 + 7 * (k - 1) == pos + 7 * k);
            }
        }
    }
}

/// Every packet that was read reads back from its own bytes: the same type of
/// frame with all it carries, the same command bits, and the same callsigns in the
/// same order. Left out are an address that spells an SSID of zero, and the frames
/// that have no such bytes.
pub proof fn law_what_was_read_reads_back(b: Seq<u8>, ext: Option<bool>, p: PacketView)
    requires
        reading(b, ext) == Reading::Packet(p),
        p.src.spells_no_zero(),
        p.dst.spells_no_zero(),
        forall|i: int| 0 <= i < p.digipeater.len() ==> (#[trigger] p.digipeater[i]).spells_no_zero(),
        is_kept(p.frame, p.rr_extseq),
    ensures
        reading(packet_wire(p, p.rr_extseq), Some(p.rr_extseq)) matches Reading::Packet(q) && {
            &&& q.frame == p.frame
            &&& q.command_response == p.command_response
            &&& q.command_response_la == p.command_response_la
            &&& q.rr_extseq == p.rr_extseq
            &&& q.src.call == p.src.call
            &&& q.dst.call == p.dst.call
            &&& q.digipeater.len() == p.digipeater.len()
            &&& forall|i: int|
                0 <= i < p.digipeater.len() ==> (#[trigger] q.digipeater[i]).call
                    == p.digipeater[i].call
        },
{
    let x = p.rr_extseq;
    addr::lemma_read_address(b.subrange(0, 7));
    addr::lemma_read_address(b.subrange(7, 14));
    if !p.src.lowbit {
        lemma_path_was_read(b, 14);
    }
    assert(p.valid());
    law_packet_round_trip(p, x);
    let q = packet_heard(p, x);
    addr::law_callsign_round_trip(
        p.src,
        p.digipeater.len() == 0,
        p.command_response_la,
        p.rr_extseq,
        false,
    );
    addr::law_callsign_round_trip(p.dst, false, p.command_response, p.rr_dist1, false);
    assert forall|i: int| 0 <= i < p.digipeater.len() implies (#[trigger] q.digipeater[i]).call
        == p.digipeater[i].call by {
        addr::law_callsign_round_trip(
            p.digipeater[i],
            i == p.digipeater.len() - 1,
            false,
            false,
            false,
        );
    }
    let end = if p.src.lowbit {
        14int
    } else {
        path_reading(b, 14)->Path_1
    };
    lemma_frame_was_read(b.skip(end), x);
}

/// A frame that was read and is kept is heard as it is.
proof fn lemma_frame_was_read(rest: Seq<u8>, ext: bool)
    requires
        frame_reading(rest, ext) is Frame,
        is_kept(frame_reading(rest, ext)->Frame_0, ext),
    ensures
        frame_heard(frame_reading(rest, ext)->Frame_0, ext) == frame_reading(rest, ext)->Frame_0,
{
    let c = rest[0];
    if c as int % 4 == 3 {
        lemma_unnumbered_was_read(c, rest.skip(1), ext);
    } else if !ext {
        let nr = (c as int / 32) as u8;
        let ns = ((c as int / 2) % 8) as u8;
        assert(nr < 8 && ns < 8);
        lemma_numbered_was_read(c, (c as int / 16) % 2 == 1, nr, ns, rest.skip(1), ext);
    } else {
        let nr = (rest[1] as int / 2) as u8;
        let ns = (c as int / 2) as u8;
        assert(nr < 128 && ns < 128);
        lemma_numbered_was_read(c, rest[1] as int % 2 == 1, nr, ns, rest.skip(2), ext);
    }
}

proof fn lemma_unnumbered_was_read(c: u8, body: Seq<u8>, ext: bool)
    requires
        unnumbered(c, body) is Frame,
        is_kept(unnumbered(c, body)->Frame_0, ext),
    ensures
        frame_heard(unnumbered(c, body)->Frame_0, ext) == unnumbered(c, body)->Frame_0,
{
}

proof fn lemma_numbered_was_read(
    c: u8,
    poll: bool,
    nr: u8,
    ns: u8,
    body: Seq<u8>,
    ext: bool,
)
    requires
        numbered(c, poll, nr, ns, body) is Frame,
        is_kept(numbered(c, poll, nr, ns, body)->Frame_0, ext),
        if ext {
            nr < 128 && ns < 128
        } else {
            nr < 8 && ns < 8
        },
    ensures
        frame_heard(numbered(c, poll, nr, ns, body)->Frame_0, ext) == numbered(
            c,
            poll,
            nr,
            ns,
            body,
        )->Frame_0,
{
    let m: int = if ext {
        128
    } else {
        8
    };
    assert(nr as int % m == nr && ns as int % m == ns);
}

/// The same of bytes in which no character of a callsign is a dash, so that none
/// spells an SSID of zero.
pub proof fn law_bytes_without_a_dash_read_back(b: Seq<u8>, ext: Option<bool>, p: PacketView)
    requires
        reading(b, ext) == Reading::Packet(p),
        forall|i: int|
            0 <= i < 14 + 7 * p.digipeater.len() && i % 7 != 6 ==> #[trigger] b[i] as int / 2 != 45,
        is_kept(p.frame, p.rr_extseq),
    ensures
        reading(packet_wire(p, p.rr_extseq), Some(p.rr_extseq)) matches Reading::Packet(q) && {
            &&& q.frame == p.frame
            &&& q.command_response == p.command_response
            &&& q.src.call == p.src.call
            &&& q.dst.call == p.dst.call
            &&& q.digipeater.len() == p.digipeater.len()
            &&& forall|i: int|
                0 <= i < p.digipeater.len() ==> (#[trigger] q.digipeater[i]).call
                    == p.digipeater[i].call
        },
{
    let n = p.digipeater.len();
    if !p.src.lowbit {
        lemma_path_was_read(b, 14);
    }
    let d = b.subrange(0, 7);
    let s = b.subrange(7, 14);
    assert forall|i: int| 0 <= i < 6 implies #[trigger] d[i] as int / 2 != 45 by {
        assert(b[i] as int / 2 != 45);
    }
    assert forall|i: int| 0 <= i < 6 implies #[trigger] s[i] as int / 2 != 45 by {
        assert(b[7 + i] as int / 2 != 45);
    }
    addr::lemma_without_a_dash(d);
    addr::lemma_without_a_dash(s);
    assert forall|k: int| 0 <= k < n implies (#[trigger] p.digipeater[k]).spells_no_zero() by {
        let at = 14 + 7 * k;
        let w = b.subrange(at, at + 7);
        assert forall|i: int| 0 <= i < 6 implies #[trigger] w[i] as int / 2 != 45 by {
            assert((at + i) % 7 == i);
            assert(b[at + i] as int / 2 != 45);
        }
        assert(p.digipeater[k] == addr::addr_of_wire(w));
        assert(p.digipeater[k].valid());
        addr::lemma_without_a_dash(w);
    }
    law_what_was_read_reads_back(b, ext, p);
}

/// Hub packet serializer/deserializer: reads and writes packets, normally to a
/// serial port.
pub trait Hub {
    /// Send frame. May block.
    ///
    /// The provided frame must be a complete AX.25 frame, without FEND or
    /// escaping.
    fn send(&mut self, frame: &[u8]) -> Result<(), Ax25Error>;

    /// Try receiving a frame for so many milliseconds.
    ///
    /// Ok(None) means timeout.
    fn recv_timeout(&mut self, timeout_ms: u64) -> Result<Option<Vec<u8>>, Ax25Error>;

    /// Clone a hub. All packets get delivered to all clones.
    fn clone(&self) -> Self where Self: Sized;
}

} // verus!
