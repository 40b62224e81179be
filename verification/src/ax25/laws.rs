//! What a packet is on the wire, byte by byte and bit by bit.
use crate::ax25::addr;
use crate::ax25::addr::AddrView;
use crate::ax25::packet;
use crate::ax25::packet::{FrameReading, FrameView, PacketView, PathReading, Reading};
use crate::text;
use vstd::prelude::*;

verus! {

broadcast use vstd::seq::group_seq_axioms;

pub open spec fn one(b: bool) -> int {
    if b {
        1
    } else {
        0
    }
}

/// A callsign is three to six letters and digits, and behind a dash a number from
/// nothing to fifteen without a zero in front.
pub proof fn law_what_a_callsign_is(base: Seq<char>, tail: Seq<char>)
    requires
        forall|i: int| 0 <= i < base.len() ==> #[trigger] base[i] != '-',
    ensures
        ({
            let good = 3 <= base.len() <= 6 && forall|i: int|
                0 <= i < base.len() ==> ('0' <= #[trigger] base[i] <= '9' || 'A' <= base[i] <= 'Z'
                    || 'a' <= base[i] <= 'z');
            let one_digit = tail.len() == 1 && '0' <= tail[0] <= '9';
            let two_digits = tail.len() == 2 && tail[0] == '1' && '0' <= tail[1] <= '5';
            &&& addr::call_ok(base) == good
            &&& addr::ssid_of(base) == 0
            &&& addr::call_ok(base.push('-') + tail) == (good && (one_digit || two_digits))
            &&& one_digit ==> addr::ssid_of(base.push('-') + tail) == tail[0] as int - 48
            &&& two_digits ==> addr::ssid_of(base.push('-') + tail) == 10 + (tail[1] as int - 48)
        }),
{
    let s = base.push('-') + tail;
    let n = base.len() as int;
    assert forall|j: int| 0 <= j < n implies s[j] != '-' by {
        assert(s[j] == base[j]);
    }
    assert(s[n] == '-');
    text::lemma_find_from(s, '-', 0, n);
    text::lemma_find_from(base, '-', 0, n);
    assert(s.take(n) =~= base);
    assert(base.take(n) =~= base);
    assert(s.skip(n + 1) =~= tail);
    assert(addr::base_ok(base) == (3 <= base.len() <= 6 && forall|i: int|
        0 <= i < base.len() ==> ('0' <= #[trigger] base[i] <= '9' || 'A' <= base[i] <= 'Z' || 'a'
            <= base[i] <= 'z'))) by {
        if addr::base_ok(base) {
            assert forall|i: int| 0 <= i < base.len() implies ('0' <= #[trigger] base[i] <= '9'
                || 'A' <= base[i] <= 'Z' || 'a' <= base[i] <= 'z') by {
                assert(addr::alphanumeric(base[i]));
            }
        } else if 3 <= base.len() <= 6 {
            let i = choose|i: int| 0 <= i < base.len() && !addr::alphanumeric(#[trigger] base[i]);
            assert(!addr::alphanumeric(base[i]));
        }
    }
}

/// An address is its callsign shifted by a bit and filled up with blanks, and a byte
/// of the SSID and the flags: the lowest bit ends the addresses, the highest is the
/// command's or the repeater's, and the two reserved ones are set where nothing
/// clears them.
pub proof fn law_an_address_on_the_wire(
    base: Seq<char>,
    a: AddrView,
    low: bool,
    high: bool,
    ext: bool,
    dama: bool,
    i: int,
)
    requires
        forall|i: int| 0 <= i < base.len() ==> #[trigger] base[i] != '-',
        a.call == base || (a.call.len() > base.len() && a.call.take(base.len() as int) == base
            && a.call[base.len() as int] == '-'),
        base.len() <= 6,
        0 <= a.ssid <= 15,
    ensures
        ({
            let w = addr::addr_wire(a, low, high, ext, dama);
            &&& w.len() == 7
            &&& 0 <= i < base.len() && 0 <= base[i] as int <= 127 ==> w[i] == 2 * (base[i] as int)
            &&& base.len() <= i < 6 ==> w[i] == 0x40
            &&& w[6] == 128 * one(high) + 64 * one(!ext) + 32 * one(!dama) + 2 * a.ssid + one(low)
        }),
{
    let n = base.len() as int;
    assert forall|j: int| 0 <= j < n implies a.call[j] != '-' by {
        if a.call != base {
            assert(a.call.take(n)[j] == a.call[j]);
        }
        assert(base[j] != '-');
    }
    text::lemma_find_from(a.call, '-', 0, n);
    assert(addr::base_of(a.call) =~= base) by {
        assert(a.call.take(n) =~= base);
    }
    let w = addr::addr_wire(a, low, high, ext, dama);
    assert(w.len() == 7);
    if 0 <= i < n {
        assert(a.call.take(n)[i] == a.call[i]);
        assert(a.call[i] == base[i]);
        assert(w[i] == (2 * (base[i] as int)) as u8);
    }
    assert(w[6] == 128 * one(high) + 64 * one(!ext) + 32 * one(!dama) + 2 * a.ssid + one(low));
}

/// The flags of an address that was heard are the bits of its last byte.
pub proof fn law_the_flags_of_an_address(b: Seq<u8>, ssid: int, high: bool, s: bool, r: bool, low: bool)
    requires
        b.len() == 7,
        0 <= ssid <= 15,
        b[6] == 128 * one(high) + 64 * one(s) + 32 * one(r) + 2 * ssid + one(low),
    ensures
        ({
            let a = addr::addr_of_wire(b);
            &&& a.highbit == high
            &&& a.rbit_ext == !s
            &&& a.rbit_dama == !r
            &&& a.lowbit == low
            &&& addr::wire_call(b) == addr::call_with(
                addr::trim_end(Seq::new(6, |i: int| (b[i] as int / 2) as char)),
                ssid,
            )
            &&& a.call == text::uppers(addr::wire_call(b))
        }),
{
}

/// A callsign is heard with its SSID behind a dash where that is not zero.
pub proof fn law_a_callsign_with_its_ssid(base: Seq<char>, ssid: int)
    requires
        0 <= ssid <= 15,
    ensures
        ssid == 0 ==> addr::call_with(base, ssid) == base,
        1 <= ssid <= 9 ==> addr::call_with(base, ssid) == base + seq!['-', (48 + ssid) as char],
        ssid >= 10 ==> addr::call_with(base, ssid) == base + seq!['-', '1', (38 + ssid) as char],
{
    reveal_with_fuel(text::dec, 2);
    if 1 <= ssid <= 9 {
        assert(addr::call_with(base, ssid) =~= base + seq!['-', (48 + ssid) as char]);
    } else if ssid >= 10 {
        assert(addr::call_with(base, ssid) =~= base + seq!['-', '1', (38 + ssid) as char]);
    }
}

/// The blanks behind a callsign do not belong to it.
pub proof fn law_blanks_behind_a_callsign(s: Seq<char>, b: Seq<char>)
    requires
        s.len() > 0 ==> s.last() != ' ' && !('\t' <= s.last() <= '\r'),
        forall|i: int| 0 <= i < b.len() ==> (#[trigger] b[i] == ' ' || '\t' <= b[i] <= '\r'),
    ensures
        addr::trim_end(s + b) == s,
    decreases b.len(),
{
    let t = s + b;
    if b.len() > 0 {
        law_blanks_behind_a_callsign(s, b.drop_last());
        assert(t.drop_last() =~= s + b.drop_last());
        assert(t.last() == b[b.len() - 1]);
    } else {
        assert(t =~= s);
    }
}

/// The control bytes of the frames without a number, with the poll bit in them.
pub proof fn law_frames_without_a_number(poll: bool, ext: bool, pid: u8, payload: Seq<u8>)
    ensures
        packet::frame_wire(FrameView::Sabm { poll }, false) == seq![(0x2f + 16 * one(poll)) as u8],
        packet::frame_wire(FrameView::Sabme { poll }, ext) == seq![(0x6f + 16 * one(poll)) as u8],
        packet::frame_wire(FrameView::Ua { poll }, ext) == seq![(0x63 + 16 * one(poll)) as u8],
        packet::frame_wire(FrameView::Dm { poll }, ext) == seq![(0x0f + 16 * one(poll)) as u8],
        packet::frame_wire(FrameView::Disc { poll }, ext) == seq![(0x43 + 16 * one(poll)) as u8],
        packet::frame_wire(FrameView::Frmr { poll }, ext) == seq![(0x87 + 16 * one(poll)) as u8],
        packet::frame_wire(FrameView::Xid { poll }, ext) == seq![(0xaf + 16 * one(poll)) as u8],
        packet::frame_wire(FrameView::Ui { pid, push: poll, payload }, ext) == seq![
            (0x03 + 16 * one(poll)) as u8,
            pid,
        ] + payload,
        packet::frame_wire(FrameView::Test { poll, payload }, ext) == seq![
            (0xe3 + 16 * one(poll)) as u8,
        ] + payload,
{
    assert(packet::frame_wire(FrameView::Ui { pid, push: poll, payload }, ext) =~= seq![
        (0x03 + 16 * one(poll)) as u8,
        pid,
    ] + payload);
}

/// The control bytes of the frames with a number: three bits of it and the poll bit
/// between, or a byte more with seven bits of it and the poll bit below.
pub proof fn law_frames_with_a_number(
    poll: bool,
    nr: u8,
    ns: u8,
    pid: u8,
    payload: Seq<u8>,
)
    ensures
        packet::frame_wire(FrameView::Rr { poll, nr }, false) == seq![
            (0x01 + 16 * one(poll) + 32 * (nr % 8)) as u8,
        ],
        packet::frame_wire(FrameView::Rnr { poll, nr }, false) == seq![
            (0x05 + 16 * one(poll) + 32 * (nr % 8)) as u8,
        ],
        packet::frame_wire(FrameView::Rej { poll, nr }, false) == seq![
            (0x09 + 16 * one(poll)) as u8,
        ],
        packet::frame_wire(FrameView::Srej { poll, nr }, false) == seq![
            (0x0d + 16 * one(poll)) as u8,
        ],
        packet::frame_wire(FrameView::Rr { poll, nr }, true) == seq![
            0x01u8,
            (2 * (nr % 128) + one(poll)) as u8,
        ],
        packet::frame_wire(FrameView::Rnr { poll, nr }, true) == seq![
            0x05u8,
            (2 * (nr % 128) + one(poll)) as u8,
        ],
        packet::frame_wire(FrameView::Rej { poll, nr }, true) == seq![
            0x09u8,
            (2 * (nr % 128) + one(poll)) as u8,
        ],
        packet::frame_wire(FrameView::Srej { poll, nr }, true) == seq![
            0x0du8,
            (2 * (nr % 128) + one(poll)) as u8,
        ],
        packet::frame_wire(FrameView::Iframe { nr, ns, poll, pid, payload }, false) == seq![
            (2 * (ns % 8) + 16 * one(poll) + 32 * (nr % 8)) as u8,
            pid,
        ] + payload,
        packet::frame_wire(FrameView::Iframe { nr, ns, poll, pid, payload }, true) == seq![
            (2 * (ns % 128)) as u8,
            (2 * (nr % 128) + one(poll)) as u8,
            pid,
        ] + payload,
{
    assert(packet::frame_wire(FrameView::Iframe { nr, ns, poll, pid, payload }, false) =~= seq![
        (2 * (ns % 8) + 16 * one(poll) + 32 * (nr % 8)) as u8,
        pid,
    ] + payload);
    assert(packet::frame_wire(FrameView::Iframe { nr, ns, poll, pid, payload }, true) =~= seq![
        (2 * (ns % 128)) as u8,
        (2 * (nr % 128) + one(poll)) as u8,
        pid,
    ] + payload);
}

/// A frame that was heard is the one that its control byte says, and one of no kind
/// is not read.
pub proof fn law_frames_without_a_number_are_heard(b: Seq<u8>, ext: bool, u: int, poll: bool)
    requires
        b.len() > 0,
        b[0] == u + 16 * one(poll),
        u % 4 == 3,
        (u / 16) % 2 == 0,
    ensures
        ({
            let r = packet::frame_reading(b, ext);
            let body = b.skip(1);
            &&& u == 0x2f ==> r == FrameReading::Frame(FrameView::Sabm { poll })
            &&& u == 0x6f ==> r == FrameReading::Frame(FrameView::Sabme { poll })
            &&& u == 0x63 ==> r == FrameReading::Frame(FrameView::Ua { poll })
            &&& u == 0x0f ==> r == FrameReading::Frame(FrameView::Dm { poll })
            &&& u == 0x43 ==> r == FrameReading::Frame(FrameView::Disc { poll })
            &&& u == 0x87 ==> r == FrameReading::Frame(FrameView::Frmr { poll })
            &&& u == 0xaf ==> r == FrameReading::Frame(FrameView::Xid { poll })
            &&& u == 0xe3 ==> r == FrameReading::Frame(FrameView::Test { poll, payload: body })
            &&& u == 0x03 && b.len() == 1 ==> r is Unreadable
            &&& u == 0x03 && b.len() > 1 ==> r == FrameReading::Frame(
                FrameView::Ui { pid: b[1], push: poll, payload: b.skip(2) },
            )
            &&& u != 0x2f && u != 0x6f && u != 0x63 && u != 0x0f && u != 0x43 && u != 0x87 && u
                != 0xaf && u != 0xe3 && u != 0x03 ==> r is Unreadable
        }),
{
    if b.len() > 1 {
        assert(b.skip(1).skip(1) =~= b.skip(2));
        assert(b.skip(1)[0] == b[1]);
    }
}

/// The numbers of a frame that was heard, in the short form and in the long one.
pub proof fn law_frames_with_a_number_are_heard(
    b: Seq<u8>,
    kind: int,
    nr: int,
    ns: int,
    poll: bool,
)
    requires
        0 <= kind <= 3,
        b.len() >= 2,
    ensures
        0 <= nr < 8 && b[0] == 1 + 4 * kind + 16 * one(poll) + 32 * nr ==> {
            let r = packet::frame_reading(b, false);
            &&& kind == 0 ==> r == FrameReading::Frame(FrameView::Rr { poll, nr: nr as u8 })
            &&& kind == 1 ==> r == FrameReading::Frame(FrameView::Rnr { poll, nr: nr as u8 })
            &&& kind == 2 ==> r == FrameReading::Frame(FrameView::Rej { poll, nr: nr as u8 })
            &&& kind == 3 ==> r == FrameReading::Frame(FrameView::Srej { poll, nr: nr as u8 })
        },
        0 <= nr < 128 && b[0] == 1 + 4 * kind && b[1] == 2 * nr + one(poll) ==> {
            let r = packet::frame_reading(b, true);
            &&& kind == 0 ==> r == FrameReading::Frame(FrameView::Rr { poll, nr: nr as u8 })
            &&& kind == 1 ==> r == FrameReading::Frame(FrameView::Rnr { poll, nr: nr as u8 })
            &&& kind == 2 ==> r == FrameReading::Frame(FrameView::Rej { poll, nr: nr as u8 })
            &&& kind == 3 ==> r == FrameReading::Frame(FrameView::Srej { poll, nr: nr as u8 })
        },
        0 <= nr < 8 && 0 <= ns < 8 && b[0] == 2 * ns + 16 * one(poll) + 32 * nr
            ==> packet::frame_reading(b, false) == FrameReading::Frame(
            FrameView::Iframe {
                nr: nr as u8,
                ns: ns as u8,
                poll,
                pid: 0xf0,
                payload: b.skip(2),
            },
        ),
        0 <= nr < 128 && 0 <= ns < 128 && b.len() > 2 && b[0] == 2 * ns && b[1] == 2 * nr + one(
            poll,
        ) ==> packet::frame_reading(b, true) == FrameReading::Frame(
            FrameView::Iframe {
                nr: nr as u8,
                ns: ns as u8,
                poll,
                pid: 0xf0,
                payload: b.skip(3),
            },
        ),
{
    assert(b.skip(1).skip(1) =~= b.skip(2));
    if b.len() > 2 {
        assert(b.skip(2).skip(1) =~= b.skip(3));
    }
}

/// A frame in the long form that has only its first byte is too short, and one of
/// information that has nothing behind its control is not read.
pub proof fn law_frames_that_are_cut_off(b: Seq<u8>, ext: bool)
    ensures
        b.len() == 0 ==> packet::frame_reading(b, ext) is Unreadable,
        b.len() == 1 && b[0] as int % 4 != 3 ==> packet::frame_reading(b, true) is TooShort,
        b.len() == 1 && b[0] as int % 2 == 0 ==> packet::frame_reading(b, false) is Unreadable,
        b.len() == 2 && b[0] as int % 2 == 0 ==> packet::frame_reading(b, true) is Unreadable,
{
}

proof fn lemma_path_wire(path: Seq<AddrView>, n: nat, i: int)
    requires
        0 <= i < n <= path.len(),
    ensures
        packet::path_wire(path, n).len() == 7 * n,
        packet::path_wire(path, n).subrange(7 * i, 7 * i + 7) == addr::addr_wire(
            path[i],
            i == path.len() - 1,
            false,
            false,
            false,
        ),
    decreases n,
{
    let w = addr::addr_wire(path[n - 1], n == path.len(), false, false, false);
    if n == 1 {
        assert(packet::path_wire(path, 0) =~= Seq::empty());
        assert(packet::path_wire(path, 1) =~= w);
        assert(w.subrange(0, 7) =~= w);
    } else {
        let front = packet::path_wire(path, (n - 1) as nat);
        if i < n - 1 {
            lemma_path_wire(path, (n - 1) as nat, i);
            assert((front + w).subrange(7 * i, 7 * i + 7) =~= front.subrange(7 * i, 7 * i + 7));
        } else {
            lemma_path_wire(path, (n - 1) as nat, 0);
            assert((front + w).subrange(7 * i, 7 * i + 7) =~= w);
        }
    }
}

/// A packet is whom it is to, whom it is from, the repeaters in their order and the
/// frame; the last of these addresses says that it is the last.
pub proof fn law_a_packet_on_the_wire(p: PacketView, ext: bool, i: int)
    ensures
        ({
            let w = packet::packet_wire(p, ext);
            let n = p.digipeater.len();
            &&& w.subrange(0, 7) == addr::addr_wire(
                p.dst,
                false,
                p.command_response,
                p.rr_dist1,
                false,
            )
            &&& w.subrange(7, 14) == addr::addr_wire(
                p.src,
                n == 0,
                p.command_response_la,
                p.rr_extseq,
                false,
            )
            &&& 0 <= i < n ==> w.subrange(14 + 7 * i, 21 + 7 * i) == addr::addr_wire(
                p.digipeater[i],
                i == n - 1,
                false,
                false,
                false,
            )
            &&& w.skip(14 + 7 * n as int) == packet::frame_wire(p.frame, ext)
        }),
{
    let n = p.digipeater.len();
    let d = addr::addr_wire(p.dst, false, p.command_response, p.rr_dist1, false);
    let s = addr::addr_wire(p.src, n == 0, p.command_response_la, p.rr_extseq, false);
    let path = packet::path_wire(p.digipeater, n);
    let f = packet::frame_wire(p.frame, ext);
    let w = packet::packet_wire(p, ext);
    if n > 0 {
        lemma_path_wire(p.digipeater, n, 0);
    }
    assert(path.len() == 7 * n);
    assert(w.subrange(0, 7) =~= d);
    assert(w.subrange(7, 14) =~= s);
    if 0 <= i < n {
        lemma_path_wire(p.digipeater, n, i);
        assert(w.subrange(14 + 7 * i, 21 + 7 * i) =~= path.subrange(7 * i, 7 * i + 7));
    }
    assert(w.skip(14 + 7 * n as int) =~= f);
}

/// What a packet that was heard says stands where it was sent, and the two flags of
/// its addresses are the command's.
pub proof fn law_what_a_packet_says(b: Seq<u8>, ext: Option<bool>, p: PacketView)
    requires
        packet::reading(b, ext) == Reading::Packet(p),
    ensures
        b.len() >= 15,
        p.dst == addr::addr_of_wire(b.subrange(0, 7)),
        p.src == addr::addr_of_wire(b.subrange(7, 14)),
        p.command_response == (b[6] >= 128),
        p.command_response_la == (b[13] >= 128),
        p.rr_dist1 == (b[6] as int / 64 % 2 == 0),
        ext is Some ==> p.rr_extseq == ext->0,
        ext is None ==> p.rr_extseq == (b[13] as int / 64 % 2 == 0),
        b[13] as int % 2 == 1 ==> p.digipeater.len() == 0,
        b[13] as int % 2 == 1 ==> packet::frame_reading(b.skip(14), p.rr_extseq)
            == FrameReading::Frame(p.frame),
        b[13] as int % 2 == 0 ==> exists|end: int|
            packet::path_reading(b, 14) == PathReading::Path(p.digipeater, end)
                && packet::frame_reading(b.skip(end), p.rr_extseq) == FrameReading::Frame(p.frame),
        addr::call_ok(p.dst.call),
        addr::call_ok(p.src.call),
{
    assert(b.subrange(0, 7)[6] == b[6]);
    assert(b.subrange(7, 14)[6] == b[13]);
}

/// Repeaters are read one behind the other up to the one that says it is the last,
/// and one that is no callsign stops everything.
pub proof fn law_repeaters_are_read_to_the_last(b: Seq<u8>, pos: int)
    requires
        0 <= pos,
    ensures
        pos + 7 > b.len() ==> packet::path_reading(b, pos) is Unreadable,
        pos + 7 <= b.len() ==> {
            let a = addr::addr_of_wire(b.subrange(pos, pos + 7));
            &&& !addr::call_ok(a.call) ==> packet::path_reading(b, pos) == PathReading::BadCall(
                a.call,
            )
            &&& addr::call_ok(a.call) && b[pos + 6] as int % 2 == 1 ==> packet::path_reading(b, pos)
                == PathReading::Path(seq![a], pos + 7)
            &&& addr::call_ok(a.call) && b[pos + 6] as int % 2 == 0 ==> packet::path_reading(b, pos)
                == (match packet::path_reading(b, pos + 7) {
                PathReading::Path(more, end) => PathReading::Path(seq![a] + more, end),
                other => other,
            })
        },
{
    if pos + 7 <= b.len() {
        assert(b.subrange(pos, pos + 7)[6] == b[pos + 6]);
    }
}

} // verus!
