//! What the worker does behind a block of samples.
use crate::drm::worker;
use crate::drm::worker::{After, DrmChannel, Requests};
use vstd::prelude::*;

verus! {

/// The channels and the numbers that a decoder knows them by; no other number is one.
pub proof fn law_the_numbers_of_the_channels(v: i32)
    ensures
        DrmChannel::Fac.raw() == 0,
        DrmChannel::Sdc.raw() == 1,
        DrmChannel::Msc.raw() == 2,
        v == 0 ==> worker::channel_of(v) == Some(DrmChannel::Fac),
        v == 1 ==> worker::channel_of(v) == Some(DrmChannel::Sdc),
        v == 2 ==> worker::channel_of(v) == Some(DrmChannel::Msc),
        v < 0 || v > 2 ==> worker::channel_of(v) is None,
        worker::NOTHING == -1,
{
}

/// A block that failed stops the worker; behind any other a status is due once its
/// time has come, and the next one a fifth of a second later.
pub proof fn law_what_follows_a_block(due: u64, ok: bool, now: u64, c: i32)
    ensures
        !ok ==> worker::follows(due, ok, now, c) == After::Stop && worker::next_due(due, ok, now)
            == due,
        ok && now < due ==> worker::follows(due, ok, now, c) == After::Go && worker::next_due(
            due,
            ok,
            now,
        ) == due,
        ok && now >= due ==> worker::follows(due, ok, now, c) == After::Status(
            worker::channel_of(c),
        ) && worker::next_due(due, ok, now) == now + 200_000,
{
}

/// A service is asked for by its number, and none is by a negative one.
pub proof fn law_which_service_is_asked_for(r: Requests, service: u8)
    ensures
        r.select == service ==> r.service() == Some(service),
        r.select < 0 ==> r.service() is None,
{
}

} // verus!
