//! When a station keys, what its monitor shows, and when its beacon goes out.
use crate::ax25::addr;
use crate::ax25::packet;
use crate::ax25::packet::FrameView;
use crate::digi::ax25_channel;
use crate::digi::ax25_channel::{Access, DigiConfig, PacketBaud};
use crate::digi::packet_controller;
use crate::digi::packet_controller::{HeardView, Mode, PortEvent};
use crate::text;
use vstd::prelude::*;

verus! {

broadcast use vstd::seq::group_seq_axioms;

/// The bits a second of each speed; on short wave there is one, and elsewhere that
/// one is not to be had.
pub proof fn law_the_speeds(chosen: PacketBaud)
    ensures
        PacketBaud::Hf300.bits() == 300,
        PacketBaud::Vhf1200.bits() == 1200,
        PacketBaud::Vhf9600.bits() == 9600,
        packet_controller::speed(Mode::PacketHf, chosen) == PacketBaud::Hf300,
        packet_controller::speed(Mode::Packet, PacketBaud::Hf300) == PacketBaud::Vhf1200,
        packet_controller::speed(Mode::Packet, PacketBaud::Vhf1200) == PacketBaud::Vhf1200,
        packet_controller::speed(Mode::Packet, PacketBaud::Vhf9600) == PacketBaud::Vhf9600,
{
}

/// A slot is as many samples as its milliseconds are nearest to, and neither shorter
/// than a millisecond nor than a sample.
pub proof fn law_how_long_a_slot_is(ms: u16, rate: u32)
    ensures
        ax25_channel::slot_len(0, rate) == ax25_channel::slot_len(1, rate),
        ms >= 1 && 500 <= ms * rate && ms * rate <= 4_294_967_295_000 ==> -1000 < 2 * (1000
            * ax25_channel::slot_len(ms, rate) - ms * rate) <= 1000,
        ms >= 1 && ms * rate < 500 ==> ax25_channel::slot_len(ms, rate) == 1,
{
}

/// Flags are sent for as long as is asked for, a part of a flag counted in full, and
/// one at least.
pub proof fn law_how_many_flags_are_sent(ms: u16, baud: PacketBaud)
    ensures
        ms == 0 ==> ax25_channel::flag_count(ms, baud) == 1,
        ms > 0 ==> 8000 * ax25_channel::flag_count(ms, baud) >= ms * baud.bits() > 8000 * (
        ax25_channel::flag_count(ms, baud) - 1),
{
    let x = ms * baud.bits();
    if ms > 0 {
        assert(x > 0) by (nonlinear_arith)
            requires
                ms > 0,
                x == ms * baud.bits(),
                baud.bits() >= 300,
        ;
    } else {
        assert(x == 0) by (nonlinear_arith)
            requires
                ms == 0,
                x == ms * baud.bits(),
        ;
    }
}

/// The number that is drawn is the dice, and where none could be drawn the clock's
/// bits from the seventh on.
pub proof fn law_the_dice(b: u8, nanos: u32)
    ensures
        ax25_channel::rolled(Some(b), nanos) == b,
        ax25_channel::rolled(None, nanos) == nanos as int / 128 % 256,
{
}

/// A station with a frame to send waits for whole slots of silence, and at the end of
/// each keys where the dice are below its persistence. Whenever it has nothing to
/// wait for, or the channel is busy, the slot starts anew.
pub proof fn law_when_a_station_keys(a: Access, busy: bool, n: int, persist: u8, roll: u8)
    requires
        n >= 0,
    ensures
        ({
            let b = a.heard(busy, n, persist, roll);
            let counts = a.waiting && !a.keyed && !a.want_tx && !busy;
            &&& a.keyed ==> b == a
            &&& !a.keyed ==> b.dcd == busy
            &&& !a.keyed && !counts ==> b.slot_left == a.slot && b.want_tx == a.want_tx
            &&& counts && a.slot_left > n ==> b.slot_left == a.slot_left - n && !b.want_tx
            &&& counts && a.slot_left <= n ==> b.slot_left == a.slot && b.want_tx == (roll
                < persist)
            &&& b.keyed == a.keyed && b.waiting == a.waiting && b.slot == a.slot
        }),
{
}

/// What the monitor calls a frame, with its numbers where it has any.
pub proof fn law_what_a_frame_is_called(poll: bool, nr: u8, ns: u8, pid: u8, payload: Seq<u8>)
    ensures
        packet_controller::kind_of(FrameView::Ui { pid, push: poll, payload }) == "UI"@,
        packet_controller::kind_of(FrameView::Iframe { nr, ns, poll, pid, payload }) == "I"@
            + text::dec(ns as nat) + text::dec(nr as nat),
        packet_controller::kind_of(FrameView::Sabm { poll }) == "SABM"@,
        packet_controller::kind_of(FrameView::Sabme { poll }) == "SABME"@,
        packet_controller::kind_of(FrameView::Ua { poll }) == "UA"@,
        packet_controller::kind_of(FrameView::Dm { poll }) == "DM"@,
        packet_controller::kind_of(FrameView::Disc { poll }) == "DISC"@,
        packet_controller::kind_of(FrameView::Rr { poll, nr }) == "RR"@ + text::dec(nr as nat),
        packet_controller::kind_of(FrameView::Rnr { poll, nr }) == "RNR"@ + text::dec(nr as nat),
        packet_controller::kind_of(FrameView::Rej { poll, nr }) == "REJ"@ + text::dec(nr as nat),
        packet_controller::kind_of(FrameView::Srej { poll, nr }) == "SREJ"@ + text::dec(nr as nat),
        packet_controller::kind_of(FrameView::Frmr { poll }) == "FRMR"@,
        packet_controller::kind_of(FrameView::Xid { poll }) == "XID"@,
        packet_controller::kind_of(FrameView::Test { poll, payload }) == "TEST"@,
{
}

/// What a frame carries is shown as text, without the line ends behind it; a frame
/// that carries nothing shows nothing.
pub proof fn law_what_a_frame_shows(f: FrameView)
    ensures
        f is Ui ==> packet_controller::carried(f) == packet_controller::without_line_ends(
            text::lossy(f->Ui_payload),
        ),
        f is Iframe ==> packet_controller::carried(f) == packet_controller::without_line_ends(
            text::lossy(f->Iframe_payload),
        ),
        f is Test ==> packet_controller::carried(f) == packet_controller::without_line_ends(
            text::lossy(f->Test_payload),
        ),
        !(f is Ui) && !(f is Iframe) && !(f is Test) ==> packet_controller::carried(f).len() == 0,
{
}

/// Only line ends are cut, and all of them at the end.
pub proof fn law_only_line_ends_are_cut(s: Seq<char>, n: nat)
    requires
        s.len() > 0 ==> s.last() != '\n',
    ensures
        packet_controller::without_line_ends(s + Seq::new(n, |i: int| '\n')) == s,
    decreases n,
{
    let t = s + Seq::new(n, |i: int| '\n');
    if n > 0 {
        law_only_line_ends_are_cut(s, (n - 1) as nat);
        assert(t.drop_last() =~= s + Seq::new((n - 1) as nat, |i: int| '\n'));
        assert(t.last() == '\n');
    } else {
        assert(t =~= s);
    }
}

/// A line of the monitor says who sent a frame to whom and over which repeaters, what
/// it is and what it carries; of what is no packet it says how long it is.
pub proof fn law_what_a_line_says(b: Seq<u8>, sent: bool, at: i64, i: int)
    ensures
        ({
            let l = packet_controller::line_of(b, sent, at);
            &&& l.at == at
            &&& l.sent == sent
            &&& packet::reading(b, None) is Packet ==> {
                let p = packet::reading(b, None)->Packet_0;
                &&& l.from == p.src.call
                &&& l.to == p.dst.call
                &&& l.via.len() == p.digipeater.len()
                &&& 0 <= i < p.digipeater.len() ==> l.via[i] == p.digipeater[i].call
                &&& l.kind == packet_controller::kind_of(p.frame)
                &&& l.text == packet_controller::carried(p.frame)
            }
            &&& !(packet::reading(b, None) is Packet) ==> {
                &&& l.from.len() == 0 && l.to.len() == 0 && l.via.len() == 0
                &&& l.kind == "?"@
                &&& l.text == "unparsed, "@ + text::dec(b.len()) + " bytes"@
            }
        }),
{
}

/// A packet is the link's where it is to this station and is no UI frame.
pub proof fn law_which_packets_are_the_links(b: Seq<u8>, me: Seq<char>, p: packet::PacketView)
    ensures
        packet_controller::link_packet(b, Some(me)) == Some(p) <==> packet::reading(b, None)
            == packet::Reading::Packet(p) && p.dst.call == me && !(p.frame is Ui),
        packet_controller::link_packet(b, None) is None,
{
}

/// The packets of the link are taken out of the frames in their order.
pub proof fn law_the_links_packets_in_order(frames: Seq<Seq<u8>>, b: Seq<u8>, me: Option<Seq<char>>)
    ensures
        packet_controller::link_packets(Seq::empty(), me).len() == 0,
        packet_controller::link_packet(b, me) is Some ==> packet_controller::link_packets(
            frames.push(b),
            me,
        ) == packet_controller::link_packets(frames, me).push(
            packet_controller::link_packet(b, me)->0,
        ),
        packet_controller::link_packet(b, me) is None ==> packet_controller::link_packets(
            frames.push(b),
            me,
        ) == packet_controller::link_packets(frames, me),
{
    assert(frames.push(b).drop_last() =~= frames);
}

/// The monitor shows the newest lines, all of them where there is room, and the
/// waiting frames that are kept are the oldest.
pub proof fn law_which_lines_are_kept(s: Seq<HeardView>, f: Seq<Seq<u8>>, max: int, i: int)
    requires
        max >= 0,
    ensures
        s.len() <= max ==> packet_controller::newest(s, max) == s,
        s.len() > max ==> packet_controller::newest(s, max).len() == max,
        s.len() > max && 0 <= i < max ==> packet_controller::newest(s, max)[i] == s[s.len() - max
            + i],
        f.len() <= max ==> packet_controller::oldest(f, max) == f,
        f.len() > max ==> packet_controller::oldest(f, max).len() == max,
        f.len() > max && 0 <= i < max ==> packet_controller::oldest(f, max)[i] == f[i],
{
}

/// A beacon is sent where it has a text and an interval, that many minutes behind the
/// last, and the first that long behind the start.
pub proof fn law_when_a_beacon_goes_out(next: Option<u64>, cfg: DigiConfig, now: u64)
    requires
        now + cfg.packet_beacon_minutes * 60_000_000 <= u64::MAX,
    ensures
        ({
            let on = cfg.packet_beacon_minutes > 0 && text::trim(cfg.packet_beacon_text@).len() > 0;
            let due = packet_controller::beacon_due(next, cfg, now);
            let after = packet_controller::beacon_next(next, cfg, now);
            &&& due <==> on && next is Some && now >= next->0
            &&& !on ==> after is None
            &&& on && (next is None || due) ==> after is Some && after->0 == now
                + cfg.packet_beacon_minutes * 60_000_000
            &&& on && next is Some && !due ==> after == next
        }),
{
}

/// The status is told at first, five times a second at most, and where the clock went
/// back.
pub proof fn law_when_the_status_is_due(last: u64, now: u64)
    ensures
        packet_controller::status_due(None, now),
        now >= last ==> packet_controller::status_due(Some(last), now) == (now - last > 200_000),
        now < last ==> packet_controller::status_due(Some(last), now),
{
}

/// A link that comes up is told as such, and one that goes down too.
pub proof fn law_what_is_told_of_a_link()
    ensures
        packet_controller::told(false, true) == Some(PortEvent::Connected),
        packet_controller::told(true, false) == Some(PortEvent::Disconnected),
        packet_controller::told(true, true) is None,
        packet_controller::told(false, false) is None,
{
}

/// A station with a callsign and a text has just one beacon, and one without either
/// has none.
pub proof fn law_who_has_a_beacon(cfg: DigiConfig)
    ensures
        ({
            let me = text::trim(cfg.packet_mycall@);
            let says = text::trim(cfg.packet_beacon_text@);
            let call = text::unicode_upper(me);
            let f = packet_controller::beacon_frames(cfg);
            &&& me.len() > 0 && addr::call_ok(call) && says.len() > 0 ==> f.len() == 1
            &&& me.len() == 0 || !addr::call_ok(call) || says.len() == 0 ==> f.len() == 0
            &&& f.len() > 0 ==> {
                let p = packet_controller::beacon_packet(
                    cfg.packet_mycall@,
                    cfg.packet_beacon_text@,
                )->0;
                &&& f[0] == packet::packet_wire(p, false)
                &&& p.src.call == call
                &&& p.dst.call == "BEACON"@
                &&& p.digipeater.len() == 0
                &&& !p.rr_extseq && !p.rr_dist1 && !p.command_response && p.command_response_la
                &&& p.frame == (FrameView::Ui {
                    pid: 0xf0,
                    push: false,
                    payload: vstd::utf8::encode_utf8(says),
                })
            }
        }),
{
}

} // verus!
