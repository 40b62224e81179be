//! The ring that carries samples from the stream thread to its reader.
//!
//! A sample is the bit pattern of a single-precision number.
use vstd::prelude::*;

verus! {

#[verifier::external_type_specification]
#[verifier::external_body]
#[verifier::reject_recursive_types(T)]
pub struct ExProducer<T>(rtrb::Producer<T>);

#[verifier::external_type_specification]
#[verifier::external_body]
#[verifier::reject_recursive_types(T)]
pub struct ExConsumer<T>(rtrb::Consumer<T>);

/// Everything that was ever written through this end of a ring, in order.
pub uninterp spec fn written(p: rtrb::Producer<u32>) -> Seq<u32>;

/// How many samples the ring of this end holds when it is full.
pub uninterp spec fn capacity(p: rtrb::Producer<u32>) -> nat;

/// How many samples are known to wait at this end: those that were there when
/// it was last looked at and have not been taken.
pub uninterp spec fn waiting(c: rtrb::Consumer<u32>) -> nat;

/// Everything that was ever read through this end of a ring, in order.
pub uninterp spec fn taken(c: rtrb::Consumer<u32>) -> Seq<u32>;

/// `rtrb::RingBuffer::new`: the two ends of an empty ring that holds `cap`
/// samples. It allocates them all at once, which panics past what an allocation
/// can hold.
#[verifier::external_body]
fn new_ring(cap: usize) -> (r: (rtrb::Producer<u32>, rtrb::Consumer<u32>))
    requires
        cap <= 0x1000_0000,
    ensures
        written(r.0) == Seq::<u32>::empty(),
        capacity(r.0) == cap,
        waiting(r.1) == 0,
        taken(r.1) == Seq::<u32>::empty(),
{
    rtrb::RingBuffer::<u32>::new(cap)
}

/// `rtrb::Producer::push_entire_slice`: writes all of a block or nothing of it,
/// and says which. How much room there is depends on the reader, but what was
/// never filled is free.
#[verifier::external_body]
pub(crate) fn push_entire(p: &mut rtrb::Producer<u32>, block: &[u32]) -> (ok: bool)
    ensures
        ok ==> written(*final(p)) == written(*old(p)) + block@,
        !ok ==> written(*final(p)) == written(*old(p)),
        capacity(*final(p)) == capacity(*old(p)),
        ok ==> block@.len() <= capacity(*old(p)),
        written(*old(p)).len() + block@.len() <= capacity(*old(p)) ==> ok,
{
    p.push_entire_slice(block).is_ok()
}

/// `rtrb::Consumer::slots`: how many samples wait to be read.
#[verifier::external_body]
pub(crate) fn slots(c: &mut rtrb::Consumer<u32>) -> (n: usize)
    ensures
        waiting(*final(c)) == n,
        taken(*final(c)) == taken(*old(c)),
{
    c.slots()
}

/// `rtrb::Consumer::pop`: takes the oldest sample. One is there as long as one
/// is known to wait. That the samples come out in the order in which the other
/// end wrote them is left unsaid: the two ends are separate values.
#[verifier::external_body]
pub(crate) fn pop(c: &mut rtrb::Consumer<u32>) -> (r: Option<u32>)
    ensures
        waiting(*old(c)) > 0 ==> r is Some && waiting(*final(c)) + 1 == waiting(*old(c)),
        taken(*final(c)) == match r {
            Some(v) => taken(*old(c)).push(v),
            None => taken(*old(c)),
        },
{
    c.pop().ok()
}

/// The smallest power of two from `p` on that is at least `n`.
pub open spec fn power_from(p: int, n: int) -> int
    decreases
            if p < n {
                n - p
            } else {
                0
            },
{
    if p <= 0 || p >= n {
        p
    } else {
        power_from(2 * p, n)
    }
}

/// The size of the ring for a sample rate: half a second of interleaved pairs,
/// rounded up to a power of two and never under 65536.
pub fn ring_capacity(rate_hz: u64) -> (cap: usize)
    requires
        rate_hz <= 0x1000_0000,
    ensures
        cap == power_from(65536, rate_hz as int),
        rate_hz <= cap <= 0x1000_0000,
        65536 <= cap,
        cap % 2 == 0,
{
    let mut cap: u64 = 65536;
    let mut k: u64 = 0;
    proof {
        assert(cap == 65536 * pow2(0));
    }
    while cap < rate_hz
        invariant
            k <= 12,
            cap == 65536 * pow2(k as nat),
            65536 <= cap <= 0x1000_0000,
            rate_hz <= 0x1000_0000,
            power_from(65536, rate_hz as int) == power_from(cap as int, rate_hz as int),
        decreases 0x1000_0000 - cap,
    {
        proof {
            if k == 12 {
                assert(pow2(12) == 4096) by {
                    reveal_with_fuel(pow2, 13);
                }
            }
            assert(pow2((k + 1) as nat) == 2 * pow2(k as nat));
            lemma_pow2_small(k as nat);
        }
        cap = cap * 2;
        k = k + 1;
    }
    proof {
        lemma_pow2_positive(k as nat);
    }
    cap as usize
}

spec fn pow2(k: nat) -> int
    decreases k,
{
    if k == 0 {
        1
    } else {
        2 * pow2((k - 1) as nat)
    }
}

proof fn lemma_pow2_positive(k: nat)
    ensures
        pow2(k) >= 1,
    decreases k,
{
    if k > 0 {
        lemma_pow2_positive((k - 1) as nat);
    }
}

proof fn lemma_pow2_small(k: nat)
    requires
        k < 12,
    ensures
        pow2(k) <= 2048,
{
    reveal_with_fuel(pow2, 13);
}

/// The two ends of the ring for a sample rate.
pub fn ring_for(rate_hz: u64) -> (r: (rtrb::Producer<u32>, rtrb::Consumer<u32>))
    requires
        rate_hz <= 0x1000_0000,
    ensures
        written(r.0) == Seq::<u32>::empty(),
        capacity(r.0) == power_from(65536, rate_hz as int),
        waiting(r.1) == 0,
        taken(r.1) == Seq::<u32>::empty(),
{
    new_ring(ring_capacity(rate_hz))
}

} // verus!
