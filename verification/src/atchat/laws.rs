//! What the modem does as a whole: what it puts on the air, and what it finds
//! there.
use crate::atchat::modem;
use crate::atchat::modem::{DemodAttempt, SignsView};
use crate::atchat::netproto;
use crate::atchat::netproto::Mode;
use vstd::arithmetic::power2::{lemma2_to64, lemma_pow2_pos, lemma_pow2_unfold, pow2};
use vstd::prelude::*;

verus! {

broadcast use vstd::seq::group_seq_axioms;

pub open spec fn distance(s: int) -> int {
    if s < 0 {
        -s
    } else {
        s
    }
}

/// Whether a shift comes before another in the search: the smaller one, and of two
/// that are as large the one up.
pub open spec fn nearer(s: int, t: int) -> bool {
    distance(s) < distance(t) || (distance(s) == distance(t) && s >= t)
}

proof fn lemma_search(symbols: Seq<SignsView>, k: int)
    requires
        0 <= k,
    ensures
        match modem::first_heard(symbols, k) {
            Some(s) => {
                &&& modem::heard_at(symbols, s) is Some
                &&& exists|j: int| #![trigger modem::nth_shift(j)] k <= j < 50
                    && modem::nth_shift(j) == s
                &&& forall|j: int|
                    #![trigger modem::nth_shift(j)]
                    k <= j < 50 && modem::heard_at(symbols, modem::nth_shift(j)) is Some ==> nearer(
                        s,
                        modem::nth_shift(j),
                    )
            },
            None => forall|j: int|
                #![trigger modem::nth_shift(j)]
                k <= j < 50 ==> modem::heard_at(symbols, modem::nth_shift(j)) is None,
        },
        match modem::first_header(symbols, k) {
            Some(s) => {
                &&& modem::plausible(symbols, s)
                &&& exists|j: int| #![trigger modem::nth_shift(j)] k <= j < 50
                    && modem::nth_shift(j) == s
                &&& forall|j: int|
                    #![trigger modem::nth_shift(j)]
                    k <= j < 50
                        && modem::plausible(symbols, modem::nth_shift(j)) ==> nearer(s, modem::nth_shift(j))
            },
            None => forall|j: int|
                #![trigger modem::nth_shift(j)]
                k <= j < 50 ==> !modem::plausible(symbols, modem::nth_shift(j)),
        },
    decreases 50 - k,
{
    if k < 50 {
        lemma_search(symbols, k + 1);
        assert(modem::nth_shift(k) == modem::nth_shift(k));
        assert forall|j: int| k <= j < 50 implies nearer(modem::nth_shift(k), #[trigger] modem::nth_shift(j)) by {
        }
    }
}

/// The search misses nothing: a payload is found exactly where one is heard at some
/// shift of nine carriers down to forty up, and what is found is the one that is
/// heard nearest to where it should be.
pub proof fn law_the_nearest_payload_is_found(symbols: Seq<SignsView>, t: int)
    requires
        -9 <= t <= 40,
    ensures
        modem::heard_at(symbols, t) is Some ==> (modem::first_heard(symbols, 0) matches Some(s)
            && nearer(s, t)),
        modem::first_heard(symbols, 0) matches Some(s) ==> -9 <= s <= 40
            && modem::heard_at(symbols, s) is Some,
        modem::plausible(symbols, t) ==> (modem::first_header(symbols, 0) matches Some(s)
            && nearer(s, t)),
        modem::first_header(symbols, 0) matches Some(s) ==> -9 <= s <= 40
            && modem::plausible(symbols, s),
{
    lemma_search(symbols, 0);
    modem::law_every_shift_is_tried_once(t);
    let k = choose|k: int| 0 <= k < modem::SHIFTS && modem::nth_shift(k) == t;
    assert(modem::nth_shift(k) == t);
}

/// A dial that is off does not stop a decode: a transmission that arrives without
/// noise, any number of carriers from nine down to forty up, is found there with
/// its payload, unless another frame with a CRC that agrees is heard nearer. So
/// says the attempt, in all it tells.
pub proof fn law_a_dial_that_is_off_does_not_stop_a_decode(
    symbols: Seq<SignsView>,
    payload: Seq<u8>,
    mode: Mode,
    shift: int,
    a: DemodAttempt,
)
    requires
        payload.len() + 4 <= 20000,
        -9 <= shift <= 40,
        symbols.len() >= modem::sent_len(payload, mode),
        forall|s: int|
            0 <= s < modem::sent_len(payload, mode) ==> modem::clean(
                #[trigger] symbols[s],
                modem::sent_steps(payload, mode, s),
                shift,
            ),
        a.heard(symbols),
    ensures
        a.crc_shift matches Some(s) && a.payload matches Some(p) && -9 <= s <= 40 && nearer(
            s as int,
            shift,
        ) && modem::heard_at(symbols, s as int) == Some(p@),
        (forall|t: int|
            #![trigger modem::heard_at(symbols, t)]
            -9 <= t <= 40 && t != shift && nearer(t, shift) ==> modem::heard_at(symbols, t) is None)
            ==> a.crc_shift == Some(shift as i32) && (a.payload matches Some(p) && p@ == payload),
        a.header_shift matches Some(h) && nearer(h as int, shift),
        a.header_payload_len is Some,
{
    modem::law_payload_is_heard(symbols, payload, mode, shift);
    law_the_nearest_payload_is_found(symbols, shift);
    let s = modem::first_heard(symbols, 0)->0;
    if forall|t: int|
        #![trigger modem::heard_at(symbols, t)]
        -9 <= t <= 40 && t != shift && nearer(t, shift) ==> modem::heard_at(symbols, t) is None {
        assert(modem::heard_at(symbols, s) is Some);
        assert(s == shift);
    }
}

/// An attempt that found nothing says so, and then there was nothing at any shift.
pub proof fn law_nothing_is_thrown_away(symbols: Seq<SignsView>, a: DemodAttempt, t: int)
    requires
        a.heard(symbols),
        -9 <= t <= 40,
    ensures
        a.payload is None <==> a.crc_shift is None,
        a.payload is None ==> modem::heard_at(symbols, t) is None,
        a.header_shift is None <==> a.header_payload_len is None,
        a.header_shift is None ==> !(4 <= modem::heard_len(symbols[0], t) <= 20000),
{
    law_the_nearest_payload_is_found(symbols, t);
}

proof fn lemma_halved_is_division(x: nat, k: nat)
    ensures
        modem::halved(x, k) == x as int / pow2(k) as int,
    decreases k,
{
    lemma2_to64();
    if k == 0 {
        assert(x as int / 1 == x);
    } else {
        lemma_halved_is_division(x, (k - 1) as nat);
        lemma_pow2_unfold(k);
        let p = pow2((k - 1) as nat) as int;
        lemma_pow2_pos((k - 1) as nat);
        vstd::arithmetic::div_mod::lemma_div_denominator(x as int, p, 2);
        assert(p * 2 == pow2(k));
    }
}

/// What goes on the air of a header: the sixteen bits of the length, the highest
/// first, and one that says BPSK, four times over and half a turn for each that is
/// set; nothing on the carriers behind.
pub proof fn law_a_header_on_the_air(len: nat, mode: Mode, i: int)
    requires
        0 <= i < 76,
    ensures
        modem::header_steps(len, mode).len() == 76,
        modem::header_steps(len, mode)[i] == 4 <==> i < 68 && (if i % 17 < 16 {
            len as int / pow2((15 - i % 17) as nat) as int % 2 == 1
        } else {
            mode is Bpsk
        }),
        modem::header_steps(len, mode)[i] == 4 || modem::header_steps(len, mode)[i] == 0,
{
    if i % 17 < 16 {
        lemma_halved_is_division(len, (15 - i % 17) as nat);
    }
}

/// What goes on the air of a symbol: a bit of BPSK is half a turn where it is set;
/// of two bits of QPSK the first decides the sign of the real part and the second
/// that of the imaginary part, on the diagonals. Bits behind the last are zero.
pub proof fn law_a_symbol_on_the_air(bits: Seq<u8>, s: int, i: int)
    requires
        0 <= i < 76,
        0 <= s,
    ensures
        ({
            let b = modem::data_steps(bits, Mode::Bpsk, s)[i];
            let at = 76 * s + i;
            &&& b == 0 || b == 4
            &&& b == 4 <==> at < bits.len() && bits[at] != 0
        }),
        ({
            let q = modem::data_steps(bits, Mode::Qpsk, s)[i];
            let at = 152 * s + 2 * i;
            &&& q == 1 || q == 3 || q == 5 || q == 7
            &&& 3 <= q <= 5 <==> at < bits.len() && bits[at] != 0
            &&& q >= 5 <==> at + 1 < bits.len() && bits[at + 1] != 0
        }),
{
}

/// The carriers of a symbol start without a turn, and each turns on from the one
/// below by its step.
pub proof fn law_carriers_turn_by_their_steps(steps: Seq<u8>, i: int)
    requires
        0 <= i < steps.len(),
        steps[i] < 8,
    ensures
        modem::phases_of(steps).len() == steps.len() + 1,
        modem::phases_of(steps)[0] == 0,
        modem::phases_of(steps)[i] < 8 && modem::phases_of(steps)[i + 1] < 8,
        modem::phases_of(steps)[i + 1] == modem::phases_of(steps)[i] + steps[i]
            || modem::phases_of(steps)[i + 1] + 8
            == modem::phases_of(steps)[i] + steps[i],
{
    modem::lemma_step_of_phases(steps, i);
    modem::lemma_phase_range(steps, i);
    modem::lemma_phase_range(steps, i + 1);
}

/// A frame is its payload with four bytes behind it, which are its CRC as a number,
/// the highest byte first.
pub proof fn law_a_frame_is_its_payload_and_its_check(payload: Seq<u8>)
    ensures
        ({
            let f = modem::frame_of(payload);
            let n = payload.len() as int;
            &&& f.len() == n + 4
            &&& f.take(n) == payload
            &&& f[n] * 0x100_0000 + f[n + 1] * 0x1_0000 + f[n + 2] * 0x100 + f[n + 3]
                == netproto::crc32_of(payload)
        }),
{
    let f = modem::frame_of(payload);
    let n = payload.len() as int;
    assert(f.take(n) =~= payload);
    let x = netproto::crc32_of(payload);
    let b = modem::be_bytes(x);
    assert(f[n] == b[0] && f[n + 1] == b[1] && f[n + 2] == b[2] && f[n + 3] == b[3]);
}

/// The bits of a byte, the highest first, add up to it.
pub proof fn law_a_byte_is_its_bits(data: Seq<u8>, i: int)
    requires
        0 <= i < data.len(),
    ensures
        ({
            let b = modem::bits_of(data);
            &&& b.len() == 8 * data.len()
            &&& data[i] == 128 * b[8 * i] + 64 * b[8 * i + 1] + 32 * b[8 * i + 2] + 16 * b[8 * i
                + 3] + 8 * b[8 * i + 4] + 4 * b[8 * i + 5] + 2 * b[8 * i + 6] + b[8 * i + 7]
            &&& forall|j: int| 0 <= j < 8 ==> #[trigger] b[8 * i + j] <= 1
        }),
{
    let b = modem::bits_of(data);
    let x = data[i] as int;
    assert forall|j: int| 0 <= j < 8 implies #[trigger] b[8 * i + j] == modem::halved(
        x as nat,
        (7 - j) as nat,
    ) % 2 by {
        assert((8 * i + j) / 8 == i && (8 * i + j) % 8 == j);
    }
    lemma_halvings(x as nat);
    assert(b[8 * i + 0] == x / 128 % 2);
    assert(b[8 * i + 1] == x / 64 % 2);
    assert(b[8 * i + 2] == x / 32 % 2);
    assert(b[8 * i + 3] == x / 16 % 2);
    assert(b[8 * i + 4] == x / 8 % 2);
    assert(b[8 * i + 5] == x / 4 % 2);
    assert(b[8 * i + 6] == x / 2 % 2);
    assert(b[8 * i + 7] == x % 2);
    lemma_eight_bits(x);
}

proof fn lemma_halvings(x: nat)
    ensures
        modem::halved(x, 0) == x,
        modem::halved(x, 1) == x / 2,
        modem::halved(x, 2) == x / 4,
        modem::halved(x, 3) == x / 8,
        modem::halved(x, 4) == x / 16,
        modem::halved(x, 5) == x / 32,
        modem::halved(x, 6) == x / 64,
        modem::halved(x, 7) == x / 128,
{
    assert(modem::halved(x, 0) == x);
    assert(modem::halved(x, 1) == x / 2);
    assert(modem::halved(x, 2) == x / 4);
    assert(modem::halved(x, 3) == x / 8);
    assert(modem::halved(x, 4) == x / 16);
    assert(modem::halved(x, 5) == x / 32);
    assert(modem::halved(x, 6) == x / 64);
    assert(modem::halved(x, 7) == x / 128);
}

proof fn lemma_eight_bits(x: int)
    requires
        0 <= x < 256,
    ensures
        x == 128 * (x / 128 % 2) + 64 * (x / 64 % 2) + 32 * (x / 32 % 2) + 16 * (x / 16 % 2) + 8 * (
        x / 8 % 2) + 4 * (x / 4 % 2) + 2 * (x / 2 % 2) + x % 2,
{
    assert(x / 2 == 2 * (x / 4) + x / 2 % 2);
    assert(x / 4 == 2 * (x / 8) + x / 4 % 2);
    assert(x / 8 == 2 * (x / 16) + x / 8 % 2);
    assert(x / 16 == 2 * (x / 32) + x / 16 % 2);
    assert(x / 32 == 2 * (x / 64) + x / 32 % 2);
    assert(x / 64 == 2 * (x / 128) + x / 64 % 2);
}

/// A transmission has its header and as many symbols as its frame fills, 76 bits to
/// one in BPSK and 152 in QPSK: no bit is left over, and no symbol is empty.
pub proof fn law_as_many_symbols_as_are_needed(payload: Seq<u8>, mode: Mode)
    ensures
        ({
            let per: int = if mode is Bpsk {
                76
            } else {
                152
            };
            let n = modem::sent_len(payload, mode) - 1;
            let bits = 8 * (payload.len() + 4);
            &&& n * per >= bits
            &&& (n - 1) * per < bits
        }),
{
}

/// A header bit is set where three of its four repetitions say so at least.
pub proof fn law_a_header_bit_is_a_majority(h: SignsView, shift: int, j: int)
    ensures
        ({
            let at = 10 + shift + j;
            let a = h.re[at];
            let b = h.re[at + 17];
            let c = h.re[at + 34];
            let d = h.re[at + 51];
            modem::voted(h, shift, j) <==> (a && b && c) || (a && b && d) || (a && c && d) || (b
                && c
                && d)
        }),
        modem::heard_mode(h, shift) == if modem::voted(h, shift, 16) {
            Mode::Bpsk
        } else {
            Mode::Qpsk
        },
{
}

/// A payload is heard at a shift just where the header announces its length with the
/// check, from four bytes to 20000, all symbols of it are there, and the bits in them
/// are the payload with its check.
pub proof fn law_when_a_payload_is_heard(symbols: Seq<SignsView>, shift: int, payload: Seq<u8>)
    ensures
        modem::heard_at(symbols, shift) == Some(payload) <==> {
            let len = modem::heard_len(symbols[0], shift);
            let mode = modem::heard_mode(symbols[0], shift);
            &&& 4 <= len <= 20_000
            &&& len == payload.len() + 4
            &&& symbols.len() >= 1 + modem::symbols_for(len, mode)
            &&& modem::bytes_of(modem::heard_bits(symbols, mode, shift, 8 * len))
                == modem::frame_of(payload)
        },
{
    let len = modem::heard_len(symbols[0], shift);
    let mode = modem::heard_mode(symbols[0], shift);
    let frame = modem::bytes_of(modem::heard_bits(symbols, mode, shift, 8 * len));
    assert(frame.len() == len);
    law_a_frame_is_its_payload_and_its_check(payload);
    if len >= 4 {
        law_a_frame_is_its_payload_and_its_check(frame.take(len - 4));
    }
}

/// Where the bits of the data stand: one a carrier and 76 a symbol, or two a carrier
/// and 152 a symbol, from the tenth carrier on.
pub proof fn law_where_a_bit_is_heard(symbols: Seq<SignsView>, shift: int, s: int, k: int)
    requires
        0 <= s,
        0 <= k < 76,
    ensures
        modem::heard_bit(symbols, Mode::Bpsk, shift, 76 * s + k) == symbols[1 + s].re[10 + shift
            + k],
        modem::heard_bit(symbols, Mode::Qpsk, shift, 152 * s + 2 * k) == symbols[1 + s].re[10
            + shift + k],
        modem::heard_bit(symbols, Mode::Qpsk, shift, 152 * s + 2 * k + 1) == symbols[1 + s].im[10
            + shift + k],
{
    assert((76 * s + k) / 76 == s && (76 * s + k) % 76 == k);
    assert((152 * s + 2 * k) / 152 == s && (152 * s + 2 * k) % 152 == 2 * k);
    assert((152 * s + 2 * k + 1) / 152 == s && (152 * s + 2 * k + 1) % 152 == 2 * k + 1);
}

} // verus!
