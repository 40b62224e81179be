//! What each frame of a CI-V rig says, and what is believed of the rig behind it.
use crate::cat::civ;
use crate::cat::civ::{Civ, Reply, ScopeRequest};
use crate::cat::config::Mode;
use crate::cat::session::CatUpdate;
use vstd::prelude::*;

verus! {

broadcast use vstd::seq::group_seq_axioms;

/// The rig's key is reported as it is, down or up, by the rig's own answer to that
/// command and by nothing else.
pub proof fn law_the_key_is_reported_as_it_is(r: Reply, on: bool)
    ensures
        civ::reported(r) == Some(CatUpdate::Ptt(on)) <==> r.from != 0xE0 && r.cmd == 0x1C && r.ptt
            == Some(on),
{
}

/// So is its dial, asked for or not.
pub proof fn law_the_dial_is_reported_as_it_is(r: Reply, hz: i64)
    ensures
        civ::reported(r) == Some(CatUpdate::Freq(hz)) <==> r.from != 0xE0 && (r.cmd == 0x00 || r.cmd
            == 0x03) && r.freq == Some(hz),
{
}

/// So is its mode.
pub proof fn law_the_mode_is_reported_as_it_is(r: Reply, mode: Mode)
    ensures
        civ::reported(r) == Some(CatUpdate::Mode(mode)) <==> r.from != 0xE0 && (r.cmd == 0x01
            || r.cmd == 0x04) && r.mode_byte is Some && r.mode == Some(mode),
{
}

/// So is the power that it is set to.
pub proof fn law_the_power_is_reported_as_it_is(r: Reply, p: i64)
    ensures
        civ::reported(r) == Some(CatUpdate::Power(p)) <==> r.from != 0xE0 && r.cmd == 0x14
            && r.power
            == Some(p),
{
}

/// So is a meter: the first of the four that the frame has a reading of.
pub proof fn law_a_meter_is_reported_as_it_is(r: Reply, v: i64)
    ensures
        civ::reported(r) == Some(CatUpdate::Swr(v)) <==> r.from != 0xE0 && r.cmd == 0x15 && r.swr
            == Some(v),
        civ::reported(r) == Some(CatUpdate::Alc(v)) <==> r.from != 0xE0 && r.cmd == 0x15 && r.swr
            is None && r.alc == Some(v),
        civ::reported(r) == Some(CatUpdate::Po(v)) <==> r.from != 0xE0 && r.cmd == 0x15 && r.swr
            is None && r.alc is None && r.po == Some(v),
        civ::reported(r) == Some(CatUpdate::Signal(v)) <==> r.from != 0xE0 && r.cmd == 0x15 && r.swr
            is None && r.alc is None && r.po is None && r.dbm == Some(v),
{
}

/// What comes from this end of the bus is its own echo: nothing is reported of it
/// and nothing believed.
pub proof fn law_an_echo_says_nothing(c: Civ, r: Reply, now: u64)
    requires
        r.from == 0xE0,
    ensures
        civ::reported(r) is None,
        civ::after_reply(c, r, now) == c,
{
}

/// No frame speaks of an antenna, and the only frames that say anything are those
/// of a dial, a mode, a power, a meter or a key.
pub proof fn law_nothing_else_is_reported(r: Reply)
    ensures
        !(civ::reported(r) matches Some(CatUpdate::Antenna(_))),
        civ::reported(r) is Some ==> {
            ||| r.cmd == 0x00
            ||| r.cmd == 0x01
            ||| r.cmd == 0x03
            ||| r.cmd == 0x04
            ||| r.cmd == 0x14
            ||| r.cmd == 0x15
            ||| r.cmd == 0x1C
        },
{
}

/// Where the rig is believed to be is what it last said, of its dial and of its
/// mode alike.
pub proof fn law_the_rig_is_where_it_says(c: Civ, r: Reply, now: u64)
    requires
        r.from != 0xE0,
    ensures
        civ::after_reply(c, r, now).seen_freq == if (r.cmd == 0x00 || r.cmd == 0x03) && r.freq
            is Some {
            r.freq
        } else {
            c.seen_freq
        },
        civ::after_reply(c, r, now).seen_mode == if (r.cmd == 0x01 || r.cmd == 0x04) && r.mode_byte
            is Some {
            r.mode_byte
        } else {
            c.seen_mode
        },
{
}

/// A refusal is remembered until it is asked for, and nothing but a refusal makes
/// one.
pub proof fn law_a_refusal_is_remembered(c: Civ, r: Reply, now: u64)
    requires
        r.from != 0xE0,
    ensures
        civ::after_reply(c, r, now).nak == (c.nak || r.cmd == 0xFA),
{
}

/// The newest sweep that has any bins stands until it is taken.
pub proof fn law_the_newest_sweep_stands(c: Civ, r: Reply, now: u64)
    requires
        r.from != 0xE0,
    ensures
        r.cmd == 0x27 && r.sweep is Some && r.sweep->0.bins@.len() > 0 ==> civ::after_reply(
            c,
            r,
            now,
        ).scope_finished == r.sweep,
        r.cmd != 0x27 || r.sweep is None || r.sweep->0.bins@.len() == 0 ==> civ::after_reply(
            c,
            r,
            now,
        ).scope_finished == c.scope_finished,
        civ::after_reply(c, r, now).scope == c.scope,
        civ::after_reply(c, r, now).scope_half_span == c.scope_half_span,
{
}

/// A broadcast of the dial or of the mode claims that the rig reports by itself,
/// from that moment on.
pub proof fn law_a_broadcast_claims(c: Civ, r: Reply, now: u64)
    requires
        r.from != 0xE0,
        (r.cmd == 0x00 && r.freq is Some) || (r.cmd == 0x01 && r.mode_byte is Some),
    ensures
        civ::after_reply(c, r, now).pushed,
        civ::after_reply(c, r, now).last_push == Some(now),
{
}

/// An answer that finds the rig elsewhere than it was believed withdraws that claim,
/// where the last broadcast is more than a second ago; it is then as if none had
/// come since.
pub proof fn law_a_silent_move_withdraws(c: Civ, r: Reply, now: u64)
    requires
        r.from != 0xE0,
        (r.cmd == 0x03 && c.seen_freq is Some && r.freq is Some && c.seen_freq != r.freq) || (r.cmd
            == 0x04 && c.seen_mode is Some && r.mode_byte is Some && c.seen_mode != r.mode_byte),
    ensures
        c.last_push is None || now - c.last_push->0 > 1_000_000 ==> !civ::after_reply(
            c,
            r,
            now,
        ).pushed,
        c.last_push is Some && now - c.last_push->0 <= 1_000_000 ==> civ::after_reply(
            c,
            r,
            now,
        ).pushed == c.pushed,
        civ::after_reply(c, r, now).last_push == c.last_push,
{
}

/// Every other frame leaves that claim alone.
pub proof fn law_other_frames_claim_nothing(c: Civ, r: Reply, now: u64)
    requires
        !(r.cmd == 0x00 && r.freq is Some),
        !(r.cmd == 0x01 && r.mode_byte is Some),
        !(r.cmd == 0x03 && c.seen_freq is Some && r.freq is Some && c.seen_freq != r.freq),
        !(r.cmd == 0x04 && c.seen_mode is Some && r.mode_byte is Some && c.seen_mode
            != r.mode_byte),
    ensures
        civ::after_reply(c, r, now).pushed == c.pushed,
        civ::after_reply(c, r, now).last_push == c.last_push,
{
}

proof fn lemma_prefix(v: Seq<Reply>, w: Seq<Reply>, c: Civ, n: int, now: u64)
    requires
        0 <= n <= v.len(),
    ensures
        civ::all_reported(v + w, n) == civ::all_reported(v, n),
        civ::after_replies(c, v + w, n, now) == civ::after_replies(c, v, n, now),
    decreases n,
{
    if n > 0 {
        lemma_prefix(v, w, c, n - 1, now);
        assert((v + w)[n - 1] == v[n - 1]);
    }
}

proof fn lemma_suffix(v: Seq<Reply>, w: Seq<Reply>, c: Civ, n: int, now: u64)
    requires
        0 <= n <= w.len(),
    ensures
        civ::all_reported(v + w, v.len() + n) == civ::all_reported(v, v.len() as int)
            + civ::all_reported(w, n),
        civ::after_replies(c, v + w, v.len() + n, now) == civ::after_replies(
            civ::after_replies(c, v, v.len() as int, now),
            w,
            n,
            now,
        ),
    decreases n,
{
    if n > 0 {
        lemma_suffix(v, w, c, n - 1, now);
        assert((v + w)[v.len() + n - 1] == w[n - 1]);
        match civ::reported(w[n - 1]) {
            Some(u) => {
                assert(civ::all_reported(v, v.len() as int) + civ::all_reported(w, n - 1).push(u)
                    =~= (civ::all_reported(v, v.len() as int) + civ::all_reported(w, n - 1)).push(
                    u,
                ));
            },
            None => {},
        }
    } else {
        lemma_prefix(v, w, c, v.len() as int, now);
        assert(civ::all_reported(v, v.len() as int) + civ::all_reported(w, 0) =~= civ::all_reported(
            v,
            v.len() as int,
        ));
    }
}

/// Frames are heard one behind the other: two batches are one, and a batch of one
/// frame is that frame.
pub proof fn law_batches_add_up(c: Civ, v: Seq<Reply>, w: Seq<Reply>, r: Reply, now: u64)
    ensures
        civ::all_reported(v + w, (v + w).len() as int) == civ::all_reported(v, v.len() as int)
            + civ::all_reported(w, w.len() as int),
        civ::after_replies(c, v + w, (v + w).len() as int, now) == civ::after_replies(
            civ::after_replies(c, v, v.len() as int, now),
            w,
            w.len() as int,
            now,
        ),
        civ::reported(r) is Some ==> civ::all_reported(seq![r], 1) == seq![civ::reported(r)->0],
        civ::reported(r) is None ==> civ::all_reported(seq![r], 1).len() == 0,
        civ::after_replies(c, seq![r], 1, now) == civ::after_reply(c, r, now),
        civ::all_reported(v, 0).len() == 0,
        civ::after_replies(c, v, 0, now) == c,
{
    lemma_suffix(v, w, c, w.len() as int, now);
    reveal_with_fuel(civ::all_reported, 2);
    reveal_with_fuel(civ::after_replies, 2);
    assert(seq![r][0] == r);
    if civ::reported(r) is Some {
        assert(civ::all_reported(seq![r], 1) =~= seq![civ::reported(r)->0]);
    }
}

/// A dial is commanded in whole hertz: the nearest, and the one away from zero
/// where two are as near. Frequencies are in thousandths.
pub proof fn law_a_dial_is_whole_hertz(hz: int)
    ensures
        civ::rounded(hz) % 1000 == 0,
        -500 <= civ::rounded(hz) - hz <= 500,
        hz >= 0 ==> civ::rounded(hz) - hz > -500,
        hz <= 0 ==> civ::rounded(hz) - hz < 500,
{
}

/// A scope is run and streamed, and centred and spanned where a span is chosen, in
/// that order; without a scope nothing is asked.
pub proof fn law_how_a_scope_is_started(half_span: Option<i64>)
    ensures
        civ::scope_requests_of(false, half_span).len() == 0,
        civ::scope_requests_of(true, half_span).len() == if half_span is Some {
            4int
        } else {
            2
        },
        civ::scope_requests_of(true, half_span)[0] == ScopeRequest::On,
        civ::scope_requests_of(true, half_span)[1] == ScopeRequest::Output,
        half_span is Some ==> civ::scope_requests_of(true, half_span)[2] == ScopeRequest::Center,
        half_span is Some ==> civ::scope_requests_of(true, half_span)[3] == ScopeRequest::HalfSpan(
            half_span->0,
        ),
{
}

} // verus!
