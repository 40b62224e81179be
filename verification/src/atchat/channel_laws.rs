//! What the channel does to a burst and to those who ask for it, and where a burst
//! is found again.
use crate::atchat::channel;
use crate::atchat::channel::{Asked, ChannelView, ClientId};
use crate::atchat::link;
use crate::atchat::netproto;
use crate::atchat::netproto::Frame;
use crate::atchat::preamble;
use crate::atchat::sync;
use crate::atchat::types;
use crate::roots;
use vstd::prelude::*;

verus! {

broadcast use vstd::seq::group_seq_axioms;

/// A sample on the channel is itself and, where there is an echo, a part of the one
/// that much earlier. Gains are in millionths.
pub proof fn law_what_an_echo_adds(s: Seq<i16>, delay: int, gain: int, i: int)
    requires
        0 <= i < s.len(),
        0 <= gain <= 0xffff_ffff,
    ensures
        channel::echoed(s, delay, gain).len() == s.len(),
        gain > 0 && 0 < delay < s.len() && i >= delay ==> channel::echoed(s, delay, gain)[i]
            == 1_000_000 * s[i] + gain * s[i - delay],
        gain == 0 || delay <= 0 || delay >= s.len() || i < delay ==> channel::echoed(
            s,
            delay,
            gain,
        )[i] == 1_000_000 * s[i],
{
    if gain > 0 && 0 < delay < s.len() && i >= delay {
        let x = s[i - delay] as int;
        let g = gain * x;
        assert(-0x8000_0000_0000 <= g <= 0x8000_0000_0000) by (nonlinear_arith)
            requires
                g == gain * x,
                0 <= gain <= 0xffff_ffff,
                -0x8000 <= x <= 0x8000,
        ;
    }
}

/// What is received is cut to whole samples towards zero, and held at the ends of
/// their range.
pub proof fn law_what_is_received_is_held_in_range(v: int)
    ensures
        -32_768 <= channel::clipped(v) <= 32_767,
        0 <= v < 32_768_000_000 ==> 0 <= v - 1_000_000 * channel::clipped(v) < 1_000_000,
        -32_769_000_000 < v <= 0 ==> -1_000_000 < v - 1_000_000 * channel::clipped(v) <= 0,
        v >= 32_767_000_000 ==> channel::clipped(v) == 32_767,
        v <= -32_768_000_000 ==> channel::clipped(v) == -32_768,
{
}

proof fn lemma_place(c: ChannelView, id: ClientId, from: int, i: int)
    requires
        0 <= from <= i < c.clients.len(),
        c.clients[i].0 == id,
        forall|j: int| from <= j < i ==> (#[trigger] c.clients[j]).0 != id,
    ensures
        c.place(id, from) == Some(i),
    decreases i - from,
{
    if from < i {
        assert(c.clients[from].0 != id);
        lemma_place(c, id, from + 1, i);
    }
}

proof fn lemma_no_place(c: ChannelView, id: ClientId, from: int)
    requires
        0 <= from,
        forall|j: int| from <= j < c.clients.len() ==> (#[trigger] c.clients[j]).0 != id,
    ensures
        c.place(id, from) is None,
    decreases c.clients.len() - from,
{
    if from < c.clients.len() {
        assert(c.clients[from].0 != id);
        lemma_no_place(c, id, from + 1);
    }
}

/// Who is not on the channel is a stranger; who is and finds it free has it for as
/// long as his samples last, an eighth of a millisecond each; who finds it busy is
/// told for how long, and nothing changes.
pub proof fn law_who_has_the_channel(c: ChannelView, id: ClientId, i: int, n: int, now: int)
    ensures
        (forall|j: int| 0 <= j < c.clients.len() ==> (#[trigger] c.clients[j]).0 != id) ==> c.asked(
            id,
            n,
            now,
        ) == (Asked::Stranger, c),
        0 <= i < c.clients.len() && c.clients[i].0 == id && (forall|j: int|
            0 <= j < i ==> (#[trigger] c.clients[j]).0 != id) ==> {
            let a = c.asked(id, n, now);
            &&& now < c.busy_until ==> a == (
                (Asked::Busy { src: c.clients[i].1, retry_after: c.busy_until - now }),
                c,
            )
            &&& now >= c.busy_until ==> a == (
                (Asked::Granted {
                    src: c.clients[i].1,
                    duration: 125 * n,
                    silenced: c.corrupt.contains((c.bursts + 1) as u64),
                }),
                (ChannelView {
                    busy_until: now + 125 * n,
                    busy_src: Some(c.clients[i].1),
                    bursts: c.bursts + 1,
                    ..c
                }),
            )
        },
{
    if forall|j: int| 0 <= j < c.clients.len() ==> (#[trigger] c.clients[j]).0 != id {
        lemma_no_place(c, id, 0);
    }
    if 0 <= i < c.clients.len() && c.clients[i].0 == id && (forall|j: int|
        0 <= j < i ==> (#[trigger] c.clients[j]).0 != id) {
        lemma_place(c, id, 0, i);
        assert(n * 125 == 125 * n);
    }
}

/// The sum of the products of two stretches.
pub proof fn law_a_product_of_stretches(s: Seq<i16>, i: int, j: int, n: nat)
    ensures
        sync::dot(s, i, j, 0) == 0,
        sync::dot(s, i, j, n + 1) == sync::dot(s, i, j, n) + s[i + n] * s[j + n],
{
}

/// How alike the two halves of a symbol are: their product over the root of their
/// powers, of which one is 2^26; nothing where a half is silent.
pub proof fn law_how_alike_two_halves_are(s: Seq<i16>, at: int)
    requires
        sync::dot(s, at, at, 128) >= 0,
        sync::dot(s, at + 128, at + 128, 128) >= 0,
    ensures
        ({
            let d = sync::dot(s, at, at + 128, 128);
            let p = sync::dot(s, at, at, 128);
            let q = sync::dot(s, at + 128, at + 128, 128);
            let r = sync::score(s, at);
            &&& p * q == 0 ==> r == 0
            &&& p * q > 0 ==> (r * r) * (p * q) <= d * d * 0x10_0000_0000_0000 < ((r + 1) * (r + 1))
                * (p * q)
        }),
{
    let d = sync::dot(s, at, at + 128, 128);
    let p = sync::dot(s, at, at, 128);
    let q = sync::dot(s, at + 128, at + 128, 128);
    if p * q != 0 {
        let w = p * q;
        assert(w > 0) by (nonlinear_arith)
            requires
                w == p * q,
                p >= 0,
                q >= 0,
                w != 0,
        ;
        let x = d * d * 0x10_0000_0000_0000;
        assert(x >= 0) by (nonlinear_arith)
            requires
                x == d * d * 0x10_0000_0000_0000,
        ;
        let v = x / w;
        assert(0 <= v && v * w <= x < (v + 1) * w) by (nonlinear_arith)
            requires
                w > 0,
                x >= 0,
                v == x / w,
        ;
        roots::lemma_root(v as nat);
        let r = roots::root(v as nat) as int;
        assert(sync::ONE * sync::ONE == 0x10_0000_0000_0000) by (nonlinear_arith)
            requires
                sync::ONE == 0x400_0000,
        ;
        assert(sync::score(s, at) == r);
        assert((r * r) * w <= v * w) by (nonlinear_arith)
            requires
                r * r <= v,
                w > 0,
        ;
        assert((v + 1) * w <= ((r + 1) * (r + 1)) * w) by (nonlinear_arith)
            requires
                v + 1 <= (r + 1) * (r + 1),
                w > 0,
        ;
    }
}

/// Two halves that are the same, or the same turned over, are as alike as can be.
pub proof fn law_the_same_halves_are_alike(s: Seq<i16>, at: int)
    requires
        sync::dot(s, at, at, 128) > 0,
        sync::dot(s, at + 128, at + 128, 128) == sync::dot(s, at, at, 128),
        sync::dot(s, at, at + 128, 128) == sync::dot(s, at, at, 128) || sync::dot(
            s,
            at,
            at + 128,
            128,
        ) == -sync::dot(s, at, at, 128),
    ensures
        sync::score(s, at) == 0x400_0000,
{
    let p = sync::dot(s, at, at, 128);
    let d = sync::dot(s, at, at + 128, 128);
    law_how_alike_two_halves_are(s, at);
    let r = sync::score(s, at) as int;
    assert(d * d == p * p && p * p > 0) by (nonlinear_arith)
        requires
            d == p || d == -p,
            p > 0,
    ;
    let w = p * p;
    assert(r * r <= 0x10_0000_0000_0000 < (r + 1) * (r + 1)) by (nonlinear_arith)
        requires
            w > 0,
            (r * r) * w <= w * 0x10_0000_0000_0000 < ((r + 1) * (r + 1)) * w,
    ;
    assert(r == 0x400_0000) by (nonlinear_arith)
        requires
            r >= 0,
            r * r <= 0x10_0000_0000_0000 < (r + 1) * (r + 1),
    ;
}

/// A burst is looked for at as many places as leave two symbols behind them, at most
/// 400, and needs 64 of them.
pub proof fn law_where_a_burst_is_looked_for(len: nat)
    ensures
        len <= 640 ==> sync::scored(len) == 0,
        640 < len <= 1040 ==> sync::scored(len) == len - 640,
        len >= 1040 ==> sync::scored(len) == 400,
{
}

/// A plateau is the sum of its scores.
pub proof fn law_a_plateau_is_a_sum(scores: Seq<u64>, at: int, n: nat)
    ensures
        sync::plateau(scores, at, 0) == 0,
        sync::plateau(scores, at, n + 1) == sync::plateau(scores, at, n) + scores[at + n],
{
}

/// A burst starts where the plateau of 64 scores is highest, the first of several, if
/// it is a quarter of the most it can be.
pub proof fn law_where_a_burst_starts(s: Seq<i16>, at: int)
    requires
        sync::scored(s.len()) >= 64,
        0 <= at <= sync::scored(s.len()) - 64,
        forall|i: int|
            0 <= i <= sync::scored(s.len()) - 64 ==> #[trigger] sync::plateau(
                sync::scores_of(s),
                i,
                64,
            ) <= sync::plateau(sync::scores_of(s), at, 64),
        forall|i: int|
            0 <= i < at ==> #[trigger] sync::plateau(sync::scores_of(s), i, 64) < sync::plateau(
                sync::scores_of(s),
                at,
                64,
            ),
    ensures
        ({
            let p = sync::plateau(sync::scores_of(s), at, 64);
            &&& p >= 0x4000_0000 ==> sync::synced(s) == (p, Some(at))
            &&& p < 0x4000_0000 ==> sync::synced(s) == (p, None::<int>)
        }),
{
    let n = sync::scored(s.len());
    let m = (n - 64 + 1) as nat;
    let scores = sync::scores_of(s);
    let b = sync::best(scores, m);
    sync::law_best_is_first_of_the_highest(scores, m, at);
    sync::law_best_is_first_of_the_highest(scores, m, b);
    assert(sync::plateau(scores, b, 64) <= sync::plateau(scores, at, 64));
    if b < at {
        assert(sync::plateau(scores, b, 64) < sync::plateau(scores, at, 64));
    }
}

/// Too short a stretch holds no burst.
pub proof fn law_too_short_for_a_burst(s: Seq<i16>)
    requires
        s.len() < 704,
    ensures
        sync::synced(s) == (0int, None::<int>),
{
}

/// A symbol is 256 samples behind its prefix of 64, one every 320.
pub proof fn law_where_a_symbol_is(start: int, index: int, len: int)
    ensures
        start + 320 * index + 320 <= len ==> sync::window(start, index, len) == Some(
            start + 320 * index + 64,
        ),
        start + 320 * index + 320 > len ==> sync::window(start, index, len) is None,
{
}

/// A sample is two bytes, the lower first, and below zero counted from 65536 down.
pub proof fn law_a_sample_is_two_bytes(s: Seq<i16>, i: int)
    requires
        0 <= i < s.len(),
    ensures
        ({
            let b = link::sample_bytes(s);
            &&& b.len() == 2 * s.len()
            &&& s[i] >= 0 ==> b[2 * i] + 256 * b[2 * i + 1] == s[i]
            &&& s[i] < 0 ==> b[2 * i] + 256 * b[2 * i + 1] == s[i] + 65_536
        }),
{
}

/// A byte that is left over is no sample.
pub proof fn law_two_bytes_are_a_sample(b: Seq<u8>, i: int)
    requires
        0 <= i,
        2 * i + 1 < b.len(),
    ensures
        ({
            let s = link::byte_samples(b);
            let u = b[2 * i] + 256 * b[2 * i + 1];
            &&& s.len() == b.len() / 2
            &&& u < 32_768 ==> s[i] == u
            &&& u >= 32_768 ==> s[i] == u - 65_536
        }),
{
}

/// A bit of the check is shifted out, and where it was set the polynomial of the
/// Ethernet comes in.
pub proof fn law_a_step_of_the_check(c: u32)
    ensures
        c % 2 == 0 ==> netproto::crc_bit(c) == c / 2,
        c % 2 == 1 ==> netproto::crc_bit(c) == (c / 2) ^ 0xedb8_8320u32,
{
    assert(c >> 1 == c / 2) by (bit_vector);
}

/// The check takes a byte in with eight steps, starts with all bits set and ends with
/// all of them turned over.
pub proof fn law_how_the_check_goes_on(data: Seq<u8>, b: u8)
    ensures
        netproto::crc32_of(Seq::empty()) == 0,
        netproto::crc32_of(data) == netproto::crc_after(data) ^ 0xffff_ffffu32,
        ({
            let s = |c: u32| netproto::crc_bit(c);
            netproto::crc_after(data.push(b)) == s(
                s(s(s(s(s(s(s(netproto::crc_after(data) ^ (b as u32))))))))
            )
        }),
{
    assert(data.push(b).drop_last() =~= data);
    assert(0xffff_ffffu32 ^ 0xffff_ffffu32 == 0) by (bit_vector);
    reveal(netproto::crc32_of);
}

/// Bytes a second of each way of sending.
pub proof fn law_how_fast_each_way_of_sending_is(mode: Seq<char>)
    ensures
        netproto::rate_of("BPSK"@) == 125,
        netproto::rate_of("QPSK"@) == 250,
        netproto::rate_of("16QAM"@) == 500,
        mode != "BPSK"@ && mode != "16QAM"@ ==> netproto::rate_of(mode) == 250,
        netproto::PREAMBLE_OVERHEAD == 300_000,
{
    reveal_strlit("BPSK");
    reveal_strlit("QPSK");
    reveal_strlit("16QAM");
    assert("BPSK"@[0] == 'B' && "QPSK"@[0] == 'Q' && "16QAM"@[0] == '1');
}

/// A frame of any kind but the unknown says whom it is from and whom it is to.
pub proof fn law_whom_a_frame_is_from(f: Frame)
    ensures
        f is Unknown <==> f.from() is None,
        f is Unknown ==> f.to() == "ALL"@,
        f is Chat ==> f.from() == Some(f->Chat_src@) && f.to() == f->Chat_dst@,
        f is Beacon ==> f.from() == Some(f->Beacon_src@) && f.to() == f->Beacon_dst@,
        f is JoinRequest ==> f.from() == Some(f->JoinRequest_src@) && f.to() == f->JoinRequest_dst@,
        f is BulkMeta ==> f.from() == Some(f->BulkMeta_src@) && f.to() == f->BulkMeta_dst@,
        f is BulkBlock ==> f.from() == Some(f->BulkBlock_src@) && f.to() == f->BulkBlock_dst@,
        f is BulkEnd ==> f.from() == Some(f->BulkEnd_src@) && f.to() == f->BulkEnd_dst@,
        f is BulkStatus ==> f.from() == Some(f->BulkStatus_src@) && f.to() == f->BulkStatus_dst@,
{
}

/// The carriers of the preamble are turned by the bits of this number, the highest of
/// the 63 first.
pub proof fn law_the_preamble(i: int)
    requires
        0 <= i < 63,
    ensures
        preamble::preamble_turned(i) == (0x68f9_0059_28ed_5eb2int
            / vstd::arithmetic::power2::pow2((62 - i) as nat) as int % 2 == 1),
        preamble::PREAMBLE_CARRIERS == 63,
{
}

/// What an over and a silence last.
pub proof fn law_how_long_stations_wait()
    ensures
        netproto::BEACON_INTERVAL == 8_000_000,
        netproto::BEACON_TIMEOUT == 24_000_000,
        netproto::LOST_TIMEOUT == 30_000_000,
        netproto::REMOVE_TIMEOUT == 120_000_000,
        netproto::BLOCK_SIZE == 220,
        netproto::SAMPLE_RATE == 8000,
        channel::MONITOR_CHUNK == 160,
        channel::SAMPLE_TIME == 125,
{
}

/// The blocks that are missing are asked for in their order, and each once.
pub proof fn law_missing_blocks_in_order(received: Set<usize>, n: nat, i: int, j: int)
    requires
        n <= usize::MAX,
        0 <= i < j < types::missing(received, n).len(),
    ensures
        types::missing(received, n)[i] < types::missing(received, n)[j] < n,
    decreases n,
{
    if n > 0 {
        let front = types::missing(received, (n - 1) as nat);
        if j < front.len() {
            law_missing_blocks_in_order(received, (n - 1) as nat, i, j);
        } else {
            assert(front.contains(front[i]));
            types::law_missing_is_what_was_not_received(received, (n - 1) as nat, front[i]);
        }
    }
}

} // verus!
