//! The modem: a frame as the phases of OFDM carriers, and received carriers
//! back into a frame.
//!
//! 77 carriers hold 76 pieces of information: each is coded in the phase step
//! from one carrier to the next, so a dial that is off by some carriers moves a
//! whole symbol sideways and costs nothing once the offset is found. The first
//! symbol holds the length and the modulation, four times over; the others hold
//! the payload and its CRC-32. There is no error correction: a frame whose CRC
//! does not agree was not heard.
//!
//! What a receiver knows of a symbol here is the quadrant of each product of a
//! carrier with the conjugate of the one below it.
use crate::atchat::netproto;
use crate::atchat::netproto::Mode;
use crate::atchat::sync::{Sync, SYMBOL_LEN};
use crate::text;
use vstd::prelude::*;

verus! {

broadcast use vstd::seq::group_seq_axioms;

/// The first of the carriers.
pub const FIRST_CARRIER: usize = 10;

/// How many steps a symbol holds.
pub const N_INFO: usize = 76;

/// Length and modulation.
pub const HEADER_BITS: usize = 17;

pub const HEADER_REPEAT: usize = 4;

/// How far up a dial may be off, in carriers (31.25 Hz).
pub const MAX_SHIFT_UP: i32 = 40;

/// How far down a dial may be off.
pub const MAX_SHIFT_DOWN: i32 = -9;

/// How many shifts are tried.
pub const SHIFTS: usize = 50;

/// How many products of neighbouring carriers a shift can reach.
pub const PRODUCTS: usize = 126;

/// The longest frame that a header may announce.
pub const MAX_FRAME: usize = 20000;

/// `x` halved `k` times.
pub open spec fn halved(x: nat, k: nat) -> nat
    decreases k,
{
    if k == 0 {
        x
    } else {
        halved(x, (k - 1) as nat) / 2
    }
}

/// The number that the first `n` bits stand for, the highest first.
pub open spec fn value(bits: Seq<u8>, n: nat) -> nat
    decreases n,
{
    if n == 0 {
        0
    } else {
        2 * value(bits, (n - 1) as nat) + (bits[n - 1] % 2) as nat
    }
}

/// The bits of some bytes, the highest of each byte first.
pub open spec fn bits_of(data: Seq<u8>) -> Seq<u8> {
    Seq::new(8 * data.len(), |i: int| (halved(data[i / 8] as nat, (7 - i % 8) as nat) % 2) as u8)
}

/// The bytes of some bits; bits that fill no byte are left out.
pub open spec fn bytes_of(bits: Seq<u8>) -> Seq<u8> {
    Seq::new(
        (bits.len() / 8) as nat,
        |i: int| value(bits.subrange(8 * i, 8 * i + 8), 8) as u8,
    )
}

/// A payload with its CRC-32 behind it, high byte first.
pub open spec fn frame_of(payload: Seq<u8>) -> Seq<u8> {
    payload + be_bytes(netproto::crc32_of(payload))
}

/// A number as four bytes, high byte first.
pub open spec fn be_bytes(x: u32) -> Seq<u8> {
    seq![
        (x / 0x100_0000) as u8,
        (x / 0x1_0000 % 0x100) as u8,
        (x / 0x100 % 0x100) as u8,
        (x % 0x100) as u8,
    ]
}

/// How many bits a symbol holds.
pub open spec fn symbol_bits(mode: Mode) -> nat {
    match mode {
        Mode::Bpsk => 76,
        Mode::Qpsk => 152,
    }
}

/// How many symbols hold `len` bytes.
pub open spec fn symbols_for(len: nat, mode: Mode) -> nat {
    ((8 * len + symbol_bits(mode) - 1) / symbol_bits(mode) as int) as nat
}

/// A bit of the header of a frame of `len` bytes.
pub open spec fn header_bit(len: nat, mode: Mode, j: int) -> bool {
    if j < 16 {
        halved(len, (15 - j) as nat) % 2 == 1
    } else {
        mode == Mode::Bpsk
    }
}

/// The phase steps of a header, in eighths of a turn.
pub open spec fn header_steps(len: nat, mode: Mode) -> Seq<u8> {
    Seq::new(
        76,
        |i: int|
            if i < 68 && header_bit(len, mode, i % 17) {
                4u8
            } else {
                0u8
            },
    )
}

/// A bit, or zero behind the last.
pub open spec fn padded(bits: Seq<u8>, i: int) -> u8 {
    if i < bits.len() {
        bits[i]
    } else {
        0
    }
}

/// The phase step of two bits, in eighths of a turn.
pub open spec fn qpsk_step(b0: u8, b1: u8) -> u8 {
    if b0 == 0 {
        if b1 == 0 {
            1
        } else {
            7
        }
    } else if b1 == 0 {
        3
    } else {
        5
    }
}

/// The phase steps of symbol `s` of some bits.
pub open spec fn data_steps(bits: Seq<u8>, mode: Mode, s: int) -> Seq<u8> {
    Seq::new(
        76,
        |i: int|
            match mode {
                Mode::Bpsk => if padded(bits, 76 * s + i) == 0 {
                    0u8
                } else {
                    4u8
                },
                Mode::Qpsk => qpsk_step(
                    padded(bits, 152 * s + 2 * i),
                    padded(bits, 152 * s + 2 * i + 1),
                ),
            },
    )
}

/// The phase of carrier `i`, in eighths of a turn.
pub open spec fn phase_at(steps: Seq<u8>, i: int) -> int
    decreases i,
{
    if i <= 0 {
        0
    } else {
        (phase_at(steps, i - 1) + steps[i - 1]) % 8
    }
}

/// The phases of the carriers of a symbol.
pub open spec fn phases_of(steps: Seq<u8>) -> Seq<u8> {
    Seq::new(steps.len() + 1, |i: int| phase_at(steps, i) as u8)
}

/// The steps of every symbol of a transmission.
pub open spec fn sent_steps(payload: Seq<u8>, mode: Mode, s: int) -> Seq<u8> {
    let frame = frame_of(payload);
    if s == 0 {
        header_steps(frame.len(), mode)
    } else {
        data_steps(bits_of(frame), mode, s - 1)
    }
}

/// How many symbols a transmission has, its preamble left out.
pub open spec fn sent_len(payload: Seq<u8>, mode: Mode) -> nat {
    1 + symbols_for(payload.len() + 4, mode)
}

/// What is known of a received symbol: for carrier `k`, whether its product
/// with the carrier above has a negative real and imaginary part.
pub struct SignsView {
    pub re: Seq<bool>,
    pub im: Seq<bool>,
}

#[derive(Debug, Clone)]
pub struct Signs {
    pub re: Vec<bool>,
    pub im: Vec<bool>,
}

impl View for Signs {
    type V = SignsView;

    open spec fn view(&self) -> SignsView {
        SignsView { re: self.re@, im: self.im@ }
    }
}

/// The signs of some symbols.
pub open spec fn signs(symbols: Seq<Signs>) -> Seq<SignsView> {
    Seq::new(symbols.len(), |i: int| symbols[i]@)
}

/// Every symbol reaches as far as the highest shift needs.
pub open spec fn wide(symbols: Seq<SignsView>) -> bool {
    forall|i: int|
        0 <= i < symbols.len() ==> (#[trigger] symbols[i]).re.len() >= PRODUCTS
            && symbols[i].im.len() >= PRODUCTS
}

pub open spec fn one(b: bool) -> int {
    if b {
        1
    } else {
        0
    }
}

/// Whether most repetitions of header bit `j` are set, read at a shift.
pub open spec fn voted(h: SignsView, shift: int, j: int) -> bool {
    let at = FIRST_CARRIER + shift + j;
    one(h.re[at]) + one(h.re[at + 17]) + one(h.re[at + 34]) + one(h.re[at + 51]) > 2
}

pub open spec fn voted_bits(h: SignsView, shift: int) -> Seq<u8> {
    Seq::new(
        17,
        |j: int|
            if voted(h, shift, j) {
                1u8
            } else {
                0u8
            },
    )
}

/// The length that a header announces.
pub open spec fn heard_len(h: SignsView, shift: int) -> nat {
    value(voted_bits(h, shift), 16)
}

pub open spec fn heard_mode(h: SignsView, shift: int) -> Mode {
    if voted(h, shift, 16) {
        Mode::Bpsk
    } else {
        Mode::Qpsk
    }
}

/// Bit `i` of the data symbols, read at a shift.
pub open spec fn heard_bit(symbols: Seq<SignsView>, mode: Mode, shift: int, i: int) -> bool {
    match mode {
        Mode::Bpsk => symbols[1 + i / 76].re[FIRST_CARRIER + shift + i % 76],
        Mode::Qpsk => {
            let s = symbols[1 + i / 152];
            let at = FIRST_CARRIER + shift + i % 152 / 2;
            if i % 2 == 0 {
                s.re[at]
            } else {
                s.im[at]
            }
        },
    }
}

/// The first `n` bits of the data symbols.
pub open spec fn heard_bits(symbols: Seq<SignsView>, mode: Mode, shift: int, n: nat) -> Seq<u8> {
    Seq::new(
        n,
        |i: int|
            if heard_bit(symbols, mode, shift, i) {
                1u8
            } else {
                0u8
            },
    )
}

/// Whether a header read at a shift announces a length that can be.
pub open spec fn plausible(symbols: Seq<SignsView>, shift: int) -> bool {
    4 <= heard_len(symbols[0], shift) <= MAX_FRAME
}

/// The payload that is heard at a shift: there is a plausible header, all the
/// symbols that it announces are there, and the CRC agrees.
pub open spec fn heard_at(symbols: Seq<SignsView>, shift: int) -> Option<Seq<u8>> {
    let len = heard_len(symbols[0], shift);
    let mode = heard_mode(symbols[0], shift);
    if !plausible(symbols, shift) || symbols.len() < 1 + symbols_for(len, mode) {
        None
    } else {
        let frame = bytes_of(heard_bits(symbols, mode, shift, 8 * len));
        let payload = frame.take(len - 4);
        if frame == frame_of(payload) {
            Some(payload)
        } else {
            None
        }
    }
}

/// The `k`-th shift to try: none at first, then outward, one up and one down.
pub open spec fn nth_shift(k: int) -> int {
    if k <= 18 {
        if k % 2 == 1 {
            (k + 1) / 2
        } else {
            -(k / 2)
        }
    } else {
        k - 9
    }
}

/// The first of the shifts from the `k`-th on whose header is plausible.
pub open spec fn first_header(symbols: Seq<SignsView>, k: int) -> Option<int>
    decreases SHIFTS - k,
{
    if k >= SHIFTS {
        None
    } else if plausible(symbols, nth_shift(k)) {
        Some(nth_shift(k))
    } else {
        first_header(symbols, k + 1)
    }
}

/// The first of the shifts from the `k`-th on at which a payload is heard.
pub open spec fn first_heard(symbols: Seq<SignsView>, k: int) -> Option<int>
    decreases SHIFTS - k,
{
    if k >= SHIFTS {
        None
    } else if heard_at(symbols, nth_shift(k)) is Some {
        Some(nth_shift(k))
    } else {
        first_heard(symbols, k + 1)
    }
}

/// A symbol was received without noise, `shift` carriers up. A step of a half or
/// no turn says nothing of the sign of the imaginary part.
pub open spec fn clean(h: SignsView, steps: Seq<u8>, shift: int) -> bool {
    let p = phases_of(steps);
    forall|i: int|
        #![trigger steps[i]]
        0 <= i < 76 ==> {
            let d = (p[i + 1] - p[i]) % 8;
            let at = FIRST_CARRIER + shift + i;
            &&& h.re[at] == (3 <= d <= 5)
            &&& d % 2 == 1 ==> h.im[at] == (d >= 5)
        }
}

/// The bits of a number stand for what is left of it.
proof fn lemma_value_of_bits(bits: Seq<u8>, x: nat, width: nat, n: nat)
    requires
        n <= width <= bits.len(),
        halved(x, width) == 0,
        forall|i: int|
            0 <= i < width ==> #[trigger] bits[i] as nat == halved(x, (width - 1 - i) as nat) % 2,
    ensures
        value(bits, n) == halved(x, (width - n) as nat),
    decreases n,
{
    if n > 0 {
        lemma_value_of_bits(bits, x, width, (n - 1) as nat);
        let y = halved(x, (width - n) as nat);
        assert(halved(x, (width - (n - 1)) as nat) == y / 2);
        assert(bits[n - 1] as nat == y % 2);
    }
}

proof fn lemma_halved_to_nothing(x: nat)
    ensures
        x < 256 ==> halved(x, 8) == 0,
        x < 65536 ==> halved(x, 16) == 0,
{
    reveal_with_fuel(halved, 17);
}

/// Bytes read back from their bits.
pub proof fn law_bits_read_back(data: Seq<u8>)
    ensures
        bytes_of(bits_of(data)) == data,
{
    let bits = bits_of(data);
    assert forall|i: int| 0 <= i < data.len() implies bytes_of(bits)[i] == data[i] by {
        let b = bits.subrange(8 * i, 8 * i + 8);
        let x = data[i] as nat;
        assert forall|j: int| 0 <= j < 8 implies #[trigger] b[j] as nat == halved(
            x,
            (8 - 1 - j) as nat,
        ) % 2 by {
            assert(b[j] == bits[8 * i + j]);
            assert((8 * i + j) / 8 == i && (8 * i + j) % 8 == j);
        }
        lemma_halved_to_nothing(x);
        lemma_value_of_bits(b, x, 8, 8);
    }
    assert(bytes_of(bits) =~= data);
}

/// The difference of the phases of two neighbours is the step between them.
pub proof fn lemma_step_of_phases(steps: Seq<u8>, i: int)
    requires
        0 <= i < steps.len(),
        steps[i] < 8,
    ensures
        (phases_of(steps)[i + 1] - phases_of(steps)[i]) % 8 == steps[i],
{
    let a = phase_at(steps, i);
    lemma_phase_range(steps, i);
    lemma_phase_range(steps, i + 1);
    assert(phase_at(steps, i + 1) == (a + steps[i]) % 8);
}

pub proof fn lemma_phase_range(steps: Seq<u8>, i: int)
    ensures
        0 <= phase_at(steps, i) < 8,
    decreases i,
{
    if i > 0 {
        lemma_phase_range(steps, i - 1);
    }
}

/// A header survives any noise that leaves three of the four repetitions of
/// each of its bits.
pub proof fn law_header_survives_one_bad_repetition(h: SignsView, len: nat, mode: Mode, shift: int)
    requires
        len < 65536,
        forall|j: int|
            0 <= j < 17 ==> {
                let at = FIRST_CARRIER + shift + j;
                let b = #[trigger] header_bit(len, mode, j);
                one(h.re[at] == b) + one(h.re[at + 17] == b) + one(h.re[at + 34] == b) + one(
                    h.re[at + 51] == b,
                ) >= 3
            },
    ensures
        heard_len(h, shift) == len,
        heard_mode(h, shift) == mode,
{
    let bits = voted_bits(h, shift);
    assert forall|j: int| 0 <= j < 17 implies voted(h, shift, j) == header_bit(len, mode, j) by {
        let b = header_bit(len, mode, j);
    }
    assert forall|j: int| 0 <= j < 16 implies #[trigger] bits[j] as nat == halved(
        len,
        (16 - 1 - j) as nat,
    ) % 2 by {
        assert(voted(h, shift, j) == header_bit(len, mode, j));
    }
    lemma_halved_to_nothing(len);
    lemma_value_of_bits(bits, len, 16, 16);
    assert(voted(h, shift, 16) == header_bit(len, mode, 16));
}

proof fn lemma_clean_header(h: SignsView, len: nat, mode: Mode, shift: int)
    requires
        len < 65536,
        clean(h, header_steps(len, mode), shift),
    ensures
        heard_len(h, shift) == len,
        heard_mode(h, shift) == mode,
{
    let steps = header_steps(len, mode);
    assert forall|j: int| 0 <= j < 17 implies {
        let at = FIRST_CARRIER + shift + j;
        let b = #[trigger] header_bit(len, mode, j);
        one(h.re[at] == b) + one(h.re[at + 17] == b) + one(h.re[at + 34] == b) + one(
            h.re[at + 51] == b,
        ) >= 3
    } by {
        lemma_clean_header_bit(h, len, mode, shift, j);
        lemma_clean_header_bit(h, len, mode, shift, j + 17);
        lemma_clean_header_bit(h, len, mode, shift, j + 34);
        lemma_clean_header_bit(h, len, mode, shift, j + 51);
    }
    law_header_survives_one_bad_repetition(h, len, mode, shift);
}

proof fn lemma_clean_header_bit(h: SignsView, len: nat, mode: Mode, shift: int, i: int)
    requires
        clean(h, header_steps(len, mode), shift),
        0 <= i < 68,
    ensures
        h.re[FIRST_CARRIER + shift + i] == header_bit(len, mode, i % 17),
{
    let steps = header_steps(len, mode);
    assert(steps[i] == 0 || steps[i] == 4);
    lemma_step_of_phases(steps, i);
}

#[verifier::rlimit(40)]
proof fn lemma_clean_bit(symbols: Seq<SignsView>, bits: Seq<u8>, mode: Mode, shift: int, i: int)
    requires
        0 <= i < bits.len(),
        bits[i] == 0 || bits[i] == 1,
        clean(symbols[1 + i / symbol_bits(mode) as int], data_steps(
            bits,
            mode,
            i / symbol_bits(mode) as int,
        ), shift),
    ensures
        heard_bit(symbols, mode, shift, i) == (bits[i] == 1),
{
    let s = i / symbol_bits(mode) as int;
    let steps = data_steps(bits, mode, s);
    match mode {
        Mode::Bpsk => {
            let j = i % 76;
            assert(steps[j] < 8);
            lemma_step_of_phases(steps, j);
            assert(76 * s + j == i);
        },
        Mode::Qpsk => {
            let j = i % 152 / 2;
            assert(steps[j] < 8);
            lemma_step_of_phases(steps, j);
            assert(i == 152 * s + 2 * j + i % 2);
        },
    }
}

/// A payload is heard as it was sent: where every symbol arrives without noise,
/// so many carriers up or down, reading at that shift gives the payload.
pub proof fn law_payload_is_heard(
    symbols: Seq<SignsView>,
    payload: Seq<u8>,
    mode: Mode,
    shift: int,
)
    requires
        payload.len() + 4 <= MAX_FRAME,
        symbols.len() >= sent_len(payload, mode),
        forall|s: int|
            0 <= s < sent_len(payload, mode) ==> clean(
                #[trigger] symbols[s],
                sent_steps(payload, mode, s),
                shift,
            ),
    ensures
        heard_at(symbols, shift) == Some(payload),
{
    let frame = frame_of(payload);
    let bits = bits_of(frame);
    assert(frame.len() == payload.len() + 4);
    assert(clean(symbols[0], sent_steps(payload, mode, 0), shift));
    lemma_clean_header(symbols[0], frame.len(), mode, shift);
    let n = 8 * frame.len();
    let heard = heard_bits(symbols, mode, shift, n);
    let bps = symbol_bits(mode) as int;
    assert forall|i: int| 0 <= i < n implies heard[i] == bits[i] by {
        let s = i / bps;
        assert(s + 1 < sent_len(payload, mode)) by {
            assert(bps == 76 || bps == 152);
        }
        assert(clean(symbols[1 + s], sent_steps(payload, mode, 1 + s), shift));
        lemma_clean_bit(symbols, bits, mode, shift, i);
    }
    assert(heard =~= bits);
    law_bits_read_back(frame);
    assert(frame.take(frame.len() - 4) =~= payload);
}

/// Where no dial is off, what was sent is what is heard, and nothing else is
/// looked at.
pub proof fn law_noiseless_round_trip(symbols: Seq<SignsView>, payload: Seq<u8>, mode: Mode)
    requires
        payload.len() + 4 <= MAX_FRAME,
        symbols.len() >= sent_len(payload, mode),
        forall|s: int|
            0 <= s < sent_len(payload, mode) ==> clean(
                #[trigger] symbols[s],
                sent_steps(payload, mode, s),
                0,
            ),
    ensures
        first_header(symbols, 0) == Some(0int),
        first_heard(symbols, 0) == Some(0int),
        heard_at(symbols, 0) == Some(payload),
{
    law_payload_is_heard(symbols, payload, mode, 0);
}

proof fn lemma_first_heard(symbols: Seq<SignsView>, k: int)
    requires
        0 <= k,
    ensures
        first_heard(symbols, k) matches Some(s) ==> heard_at(symbols, s) is Some && MAX_SHIFT_DOWN
            <= s <= MAX_SHIFT_UP,
        first_header(symbols, k) matches Some(s) ==> plausible(symbols, s),
        first_heard(symbols, k) is Some ==> first_header(symbols, k) is Some,
    decreases SHIFTS - k,
{
    if k < SHIFTS {
        lemma_first_heard(symbols, k + 1);
    }
}

/// Whatever is taken for a payload has its own CRC behind it, comes from a
/// header that announces its length, and was read within the search range.
pub proof fn law_only_a_valid_frame_is_heard(symbols: Seq<SignsView>)
    ensures
        first_heard(symbols, 0) matches Some(s) ==> {
            let payload = heard_at(symbols, s)->0;
            let len = heard_len(symbols[0], s);
            &&& MAX_SHIFT_DOWN <= s <= MAX_SHIFT_UP
            &&& heard_at(symbols, s) is Some
            &&& payload.len() + 4 == len
            &&& bytes_of(heard_bits(symbols, heard_mode(symbols[0], s), s, 8 * len)) == frame_of(
                payload,
            )
        },
{
    lemma_first_heard(symbols, 0);
}

/// Every shift of the search range is tried, and none twice.
pub proof fn law_every_shift_is_tried_once(s: int)
    requires
        MAX_SHIFT_DOWN <= s <= MAX_SHIFT_UP,
    ensures
        exists|k: int| 0 <= k < SHIFTS && nth_shift(k) == s,
        forall|j: int, k: int|
            0 <= j < SHIFTS && 0 <= k < SHIFTS && nth_shift(j) == nth_shift(k) ==> j == k,
{
    let k = if s > 9 {
        s + 9
    } else if s > 0 {
        2 * s - 1
    } else {
        -2 * s
    };
    assert(0 <= k < SHIFTS && nth_shift(k) == s);
}

/// `x` halved `k` times.
fn halve(x: usize, k: usize) -> (r: usize)
    ensures
        r == halved(x as nat, k as nat),
{
    let mut y: usize = x;
    let mut i: usize = 0;
    while i < k
        invariant
            i <= k,
            y == halved(x as nat, i as nat),
        decreases k - i,
    {
        y = y / 2;
        i += 1;
    }
    y
}

/// The bits of some bytes, the highest of each byte first.
pub fn bits_from_bytes(data: &[u8]) -> (r: Vec<u8>)
    ensures
        r@ == bits_of(data@),
{
    let mut bits: Vec<u8> = Vec::new();
    let mut i: usize = 0;
    while i < data.len()
        invariant
            i <= data@.len(),
            bits@ == bits_of(data@.take(i as int)),
        decreases data@.len() - i,
    {
        let ghost before = bits@;
        let mut j: usize = 0;
        while j < 8
            invariant
                j <= 8,
                i < data@.len(),
                before == bits_of(data@.take(i as int)),
                bits@.len() == 8 * i + j,
                bits@.take(8 * i) == before,
                forall|k: int|
                    0 <= k < j ==> #[trigger] bits@[8 * i + k] == (halved(
                        data@[i as int] as nat,
                        (7 - k) as nat,
                    ) % 2) as u8,
            decreases 8 - j,
        {
            let b: usize = halve(data[i] as usize, 7 - j) % 2;
            bits.push(b as u8);
            j += 1;
            assert(bits@.take(8 * i) =~= before);
        }
        i += 1;
        proof {
            let now = bits_of(data@.take(i as int));
            assert forall|k: int| 0 <= k < 8 * i implies bits@[k] == now[k] by {
                if k < 8 * (i - 1) {
                    assert(bits@[k] == bits@.take(8 * (i - 1))[k]);
                } else {
                    let d = k - 8 * (i - 1);
                    assert(k / 8 == i - 1 && k % 8 == d);
                    assert(bits@[8 * (i - 1) + d] == bits@[k]);
                }
            }
            assert(bits@ =~= now);
        }
    }
    assert(data@.take(data@.len() as int) =~= data@);
    bits
}

/// The bytes of some bits; bits that fill no byte are left out.
pub fn bytes_from_bits(bits: &[u8]) -> (r: Vec<u8>)
    ensures
        r@ == bytes_of(bits@),
{
    let total: usize = bits.len();
    let n: usize = total / 8;
    let mut out: Vec<u8> = Vec::new();
    let mut i: usize = 0;
    while i < n
        invariant
            i <= n,
            total == bits@.len(),
            n == total / 8,
            out@.len() == i,
            forall|k: int| 0 <= k < i ==> out@[k] == bytes_of(bits@)[k],
        decreases n - i,
    {
        let ghost b = bits@.subrange(8 * i, 8 * i + 8);
        let mut x: usize = 0;
        let mut j: usize = 0;
        while j < 8
            invariant
                j <= 8,
                i < n,
                total == bits@.len(),
                n == total / 8,
                b == bits@.subrange(8 * i, 8 * i + 8),
                x == value(b, j as nat),
                j == 0 ==> x < 1,
                x < 256,
                j < 8 ==> x < 128,
            decreases 8 - j,
        {
            assert(b[j as int] == bits@[8 * i + j]);
            x = 2 * x + (bits[8 * i + j] % 2) as usize;
            j += 1;
            proof {
                lemma_value_small(b, j as nat);
            }
        }
        out.push(x as u8);
        i += 1;
    }
    assert(out@ =~= bytes_of(bits@));
    out
}

proof fn lemma_value_small(bits: Seq<u8>, n: nat)
    requires
        n <= 8,
    ensures
        value(bits, n) < 256,
        n < 8 ==> value(bits, n) < 128,
{
    reveal_with_fuel(value, 9);
}

/// How many bits a symbol holds.
fn bits_per_symbol(mode: Mode) -> (r: usize)
    ensures
        r == symbol_bits(mode),
        r == 76 || r == 152,
{
    match mode {
        Mode::Bpsk => 76,
        Mode::Qpsk => 152,
    }
}

/// How many symbols hold `len` bytes.
fn symbols_needed(len: usize, mode: Mode) -> (r: usize)
    requires
        8 * len + 152 <= usize::MAX,
    ensures
        r == symbols_for(len as nat, mode),
{
    (8 * len + bits_per_symbol(mode) - 1) / bits_per_symbol(mode)
}

/// How long a payload is on the air, in microseconds: preamble, header and data,
/// without what leads in.
pub fn airtime_micros(payload_len: usize, mode: Mode) -> (r: u64)
    requires
        8 * (payload_len + 4) + 152 <= usize::MAX,
        payload_len <= 0xffff_ffff_ffff,
    ensures
        r == (2 + symbols_for((payload_len + 4) as nat, mode)) * SYMBOL_LEN * 125,
{
    let n: usize = symbols_needed(payload_len + 4, mode);
    assert(n <= 8 * (payload_len + 4) + 152) by {
        assert(symbol_bits(mode) == 76 || symbol_bits(mode) == 152);
    }
    (2 + n as u64) * 320 * 125
}

/// The phase steps of a header.
fn steps_of_header(len: usize, mode: Mode) -> (r: Vec<u8>)
    ensures
        r@ == header_steps(len as nat, mode),
{
    let mut steps: Vec<u8> = Vec::new();
    let mut i: usize = 0;
    while i < N_INFO
        invariant
            i <= N_INFO,
            steps@.len() == i,
            forall|k: int| 0 <= k < i ==> steps@[k] == header_steps(len as nat, mode)[k],
        decreases N_INFO - i,
    {
        let j: usize = i % HEADER_BITS;
        let set: bool = if j < 16 {
            halve(len, 15 - j) % 2 == 1
        } else {
            mode == Mode::Bpsk
        };
        let step: u8 = if i < HEADER_BITS * HEADER_REPEAT && set { 4 } else { 0 };
        steps.push(step);
        i += 1;
    }
    assert(steps@ =~= header_steps(len as nat, mode));
    steps
}

/// A bit, or zero behind the last.
fn bit_or_zero(bits: &Vec<u8>, i: usize) -> (r: u8)
    ensures
        r == padded(bits@, i as int),
{
    if i < bits.len() {
        bits[i]
    } else {
        0
    }
}

/// The phase steps of a data symbol.
fn steps_of_data(bits: &Vec<u8>, mode: Mode, s: usize) -> (r: Vec<u8>)
    requires
        152 * s + 152 <= usize::MAX,
    ensures
        r@ == data_steps(bits@, mode, s as int),
{
    let mut steps: Vec<u8> = Vec::new();
    let mut i: usize = 0;
    while i < N_INFO
        invariant
            i <= N_INFO,
            152 * s + 152 <= usize::MAX,
            steps@.len() == i,
            forall|k: int| 0 <= k < i ==> steps@[k] == data_steps(bits@, mode, s as int)[k],
        decreases N_INFO - i,
    {
        let step: u8 = match mode {
            Mode::Bpsk => {
                if bit_or_zero(bits, 76 * s + i) == 0 {
                    0
                } else {
                    4
                }
            },
            Mode::Qpsk => {
                let b0: u8 = bit_or_zero(bits, 152 * s + 2 * i);
                let b1: u8 = bit_or_zero(bits, 152 * s + 2 * i + 1);
                if b0 == 0 {
                    if b1 == 0 {
                        1
                    } else {
                        7
                    }
                } else if b1 == 0 {
                    3
                } else {
                    5
                }
            },
        };
        steps.push(step);
        i += 1;
    }
    assert(steps@ =~= data_steps(bits@, mode, s as int));
    steps
}

/// The phases of the carriers of a symbol: the first is the reference, and each
/// step leads on from the one below.
pub fn differential_sequence(steps: &Vec<u8>) -> (r: Vec<u8>)
    requires
        forall|i: int| 0 <= i < steps@.len() ==> steps@[i] < 8,
    ensures
        r@ == phases_of(steps@),
{
    let mut phases: Vec<u8> = Vec::new();
    let mut cur: u8 = 0;
    phases.push(cur);
    let mut i: usize = 0;
    while i < steps.len()
        invariant
            i <= steps@.len(),
            cur == phase_at(steps@, i as int),
            cur < 8,
            phases@.len() == i + 1,
            forall|k: int| 0 <= k <= i ==> phases@[k] == phase_at(steps@, k) as u8,
            forall|k: int| 0 <= k < steps@.len() ==> steps@[k] < 8,
        decreases steps@.len() - i,
    {
        cur = (cur + steps[i]) % 8;
        phases.push(cur);
        i += 1;
    }
    assert(phases@ =~= phases_of(steps@));
    phases
}

/// The header's length and modulation, read at a shift.
fn decode_header(h: &Signs, shift: i32) -> (r: (usize, Mode))
    requires
        h.re@.len() >= PRODUCTS,
        MAX_SHIFT_DOWN <= shift <= MAX_SHIFT_UP,
    ensures
        r.0 == heard_len(h@, shift as int),
        r.1 == heard_mode(h@, shift as int),
        r.0 < 65536,
{
    let base: usize = (FIRST_CARRIER as i32 + shift) as usize;
    let mut len: usize = 0;
    let mut j: usize = 0;
    let ghost bits = voted_bits(h@, shift as int);
    while j < 16
        invariant
            j <= 16,
            h.re@.len() >= PRODUCTS,
            MAX_SHIFT_DOWN <= shift <= MAX_SHIFT_UP,
            base == FIRST_CARRIER + shift,
            bits == voted_bits(h@, shift as int),
            len == value(bits, j as nat),
            j < 16 ==> len < 0x8000,
            len < 0x1_0000,
        decreases 16 - j,
    {
        let b: bool = majority(h, base + j);
        assert(bits[j as int] == if b {
            1u8
        } else {
            0u8
        });
        len = 2 * len + if b { 1 } else { 0 };
        j += 1;
        proof {
            lemma_value_of_sixteen(bits, j as nat);
        }
    }
    let mode = if majority(h, base + 16) {
        Mode::Bpsk
    } else {
        Mode::Qpsk
    };
    (len, mode)
}

proof fn lemma_value_of_sixteen(bits: Seq<u8>, n: nat)
    requires
        n <= 16,
    ensures
        value(bits, n) < 0x1_0000,
        n < 16 ==> value(bits, n) < 0x8000,
{
    reveal_with_fuel(value, 17);
}

/// Whether most repetitions of a header bit are set.
fn majority(h: &Signs, at: usize) -> (r: bool)
    requires
        at + 51 < h.re@.len(),
        at + 51 < PRODUCTS,
    ensures
        r == (one(h.re@[at as int]) + one(h.re@[at + 17]) + one(h.re@[at + 34]) + one(
            h.re@[at + 51],
        ) > 2),
{
    let mut votes: u8 = 0;
    if h.re[at] {
        votes = votes + 1;
    }
    if h.re[at + 17] {
        votes = votes + 1;
    }
    if h.re[at + 34] {
        votes = votes + 1;
    }
    if h.re[at + 51] {
        votes = votes + 1;
    }
    votes > 2
}

/// The first `n` bits of the data symbols, read at a shift.
fn decode_bits(symbols: &[Signs], mode: Mode, shift: i32, n: usize) -> (r: Vec<u8>)
    requires
        wide(signs(symbols@)),
        MAX_SHIFT_DOWN <= shift <= MAX_SHIFT_UP,
        n <= 8 * MAX_FRAME,
        1 + (n + symbol_bits(mode) - 1) / symbol_bits(mode) as int <= symbols@.len(),
    ensures
        r@ == heard_bits(signs(symbols@), mode, shift as int, n as nat),
{
    let base: usize = (FIRST_CARRIER as i32 + shift) as usize;
    let ghost all = signs(symbols@);
    let mut bits: Vec<u8> = Vec::new();
    let mut i: usize = 0;
    while i < n
        invariant
            i <= n,
            n <= 8 * MAX_FRAME,
            all == signs(symbols@),
            wide(all),
            MAX_SHIFT_DOWN <= shift <= MAX_SHIFT_UP,
            base == FIRST_CARRIER + shift,
            1 + (n + symbol_bits(mode) - 1) / symbol_bits(mode) as int <= symbols@.len(),
            bits@.len() == i,
            forall|k: int|
                0 <= k < i ==> bits@[k] == heard_bits(all, mode, shift as int, n as nat)[k],
        decreases n - i,
    {
        let b: bool = match mode {
            Mode::Bpsk => {
                let s = &symbols[1 + i / 76];
                assert(s@ == all[1 + i / 76]);
                s.re[base + i % 76]
            },
            Mode::Qpsk => {
                let s = &symbols[1 + i / 152];
                assert(s@ == all[1 + i / 152]);
                if i % 2 == 0 {
                    s.re[base + i % 152 / 2]
                } else {
                    s.im[base + i % 152 / 2]
                }
            },
        };
        bits.push(if b { 1 } else { 0 });
        i += 1;
    }
    assert(bits@ =~= heard_bits(all, mode, shift as int, n as nat));
    bits
}

/// A number as four bytes, high byte first.
fn to_be_bytes(x: u32) -> (r: Vec<u8>)
    ensures
        r@ == be_bytes(x),
{
    let mut v: Vec<u8> = Vec::new();
    v.push((x / 0x100_0000) as u8);
    v.push((x / 0x1_0000 % 0x100) as u8);
    v.push((x / 0x100 % 0x100) as u8);
    v.push((x % 0x100) as u8);
    assert(v@ =~= be_bytes(x));
    v
}

/// A payload with its CRC-32 behind it.
pub fn seal(payload: &[u8]) -> (r: Vec<u8>)
    ensures
        r@ == frame_of(payload@),
{
    let mut full: Vec<u8> = text::copy_bytes(payload, 0, payload.len());
    let mut crc: Vec<u8> = to_be_bytes(netproto::crc32(payload));
    full.append(&mut crc);
    assert(full@ =~= frame_of(payload@));
    full
}

/// The payload of a frame whose CRC agrees.
pub fn unseal(frame: &Vec<u8>) -> (r: Option<Vec<u8>>)
    requires
        frame@.len() >= 4,
    ensures
        match r {
            Some(p) => p@ == frame@.take(frame@.len() - 4) && frame@ == frame_of(p@),
            None => frame@ != frame_of(frame@.take(frame@.len() - 4)),
        },
{
    let n: usize = frame.len() - 4;
    let payload: &[u8] = &frame.as_slice()[0..n];
    assert(payload@ =~= frame@.take(n as int));
    let good: Vec<u8> = seal(payload);
    if text::same_bytes(good.as_slice(), frame.as_slice()) {
        Some(text::copy_bytes(payload, 0, payload.len()))
    } else {
        None
    }
}

/// The payload that is heard at a shift, from a header that announces `len`
/// bytes.
fn read_at(symbols: &[Signs], shift: i32, len: usize, mode: Mode) -> (r: Option<Vec<u8>>)
    requires
        symbols@.len() > 0,
        wide(signs(symbols@)),
        MAX_SHIFT_DOWN <= shift <= MAX_SHIFT_UP,
        len == heard_len(signs(symbols@)[0], shift as int),
        mode == heard_mode(signs(symbols@)[0], shift as int),
        plausible(signs(symbols@), shift as int),
    ensures
        match heard_at(signs(symbols@), shift as int) {
            Some(p) => r matches Some(v) && v@ == p,
            None => r is None,
        },
{
    let n: usize = symbols_needed(len, mode);
    if symbols.len() - 1 < n {
        return None;
    }
    let bits: Vec<u8> = decode_bits(symbols, mode, shift, 8 * len);
    let frame: Vec<u8> = bytes_from_bits(bits.as_slice());
    unseal(&frame)
}

/// The `k`-th shift to try.
fn shift_to_try(k: usize) -> (r: i32)
    requires
        k < SHIFTS,
    ensures
        r == nth_shift(k as int),
        MAX_SHIFT_DOWN <= r <= MAX_SHIFT_UP,
{
    let n: i32 = k as i32;
    if k <= 18 {
        if k % 2 == 1 {
            (n + 1) / 2
        } else {
            -(n / 2)
        }
    } else {
        n - 9
    }
}

/// What came of one attempt to hear a transmission: enough to tell audio with
/// no start in it from one whose header is nowhere in the search range, and
/// from one whose header was read and whose data failed.
#[derive(Debug, Clone)]
pub struct DemodAttempt {
    pub input_samples: usize,
    /// The score of the best start, in units of 2^-32.
    pub sync_score: u64,
    pub synced: bool,
    /// The first shift whose header announces a length that can be.
    pub header_shift: Option<i32>,
    pub header_payload_len: Option<usize>,
    /// The shift at which the payload was heard.
    pub crc_shift: Option<i32>,
    pub payload: Option<Vec<u8>>,
}

impl Default for DemodAttempt {
    fn default() -> (r: Self)
        ensures
            r.input_samples == 0,
            r.sync_score == 0,
            !r.synced,
            r.heard_nothing(),
    {
        DemodAttempt {
            input_samples: 0,
            sync_score: 0,
            synced: false,
            header_shift: None,
            header_payload_len: None,
            crc_shift: None,
            payload: None,
        }
    }
}

impl DemodAttempt {
    pub open spec fn heard_nothing(self) -> bool {
        &&& self.header_shift is None
        &&& self.header_payload_len is None
        &&& self.crc_shift is None
        &&& self.payload is None
    }

    /// What was heard in some symbols.
    pub open spec fn heard(self, symbols: Seq<SignsView>) -> bool {
        &&& match first_header(symbols, 0) {
            Some(s) => {
                &&& self.header_shift matches Some(h) && h == s
                &&& self.header_payload_len matches Some(n) && n == heard_len(symbols[0], s)
            },
            None => self.header_shift is None && self.header_payload_len is None,
        }
        &&& match first_heard(symbols, 0) {
            Some(s) => {
                &&& self.crc_shift matches Some(c) && c == s
                &&& self.payload matches Some(p) && Some(p@) == heard_at(symbols, s)
            },
            None => self.crc_shift is None && self.payload is None,
        }
    }
}

/// `rand::Rng::gen_range` of the thread's generator: a number from `lo` on and
/// below `hi`. Which one is chance.
#[verifier::external_body]
fn random_between(lo: usize, hi: usize) -> (r: usize)
    requires
        lo < hi,
    ensures
        lo <= r < hi,
{
    rand::Rng::gen_range(&mut rand::thread_rng(), lo..hi)
}

/// The shortest silence in front of a transmission, in samples.
pub const LEAD_IN_MIN: usize = 20;

/// No silence in front of a transmission is as long.
pub const LEAD_IN_END: usize = 300;

/// The modulator and demodulator. Every call handles one whole transmission.
#[derive(Debug, Clone, Copy, PartialEq, Eq, Structural)]
pub struct Modem;

impl Default for Modem {
    fn default() -> (r: Self)
        ensures
            r == Modem,
    {
        Modem
    }
}

impl Modem {
    pub fn new() -> (r: Self)
        ensures
            r == Modem,
    {
        Modem
    }

    /// How many samples of silence go in front of a transmission: another number
    /// each time.
    pub fn lead_in(&self) -> (r: usize)
        ensures
            LEAD_IN_MIN <= r < LEAD_IN_END,
    {
        random_between(LEAD_IN_MIN, LEAD_IN_END)
    }

    /// The phases of the carriers of every symbol behind the preamble, in
    /// eighths of a turn: the header, then the data.
    pub fn modulate(&self, payload: &[u8], mode: Mode) -> (r: Vec<Vec<u8>>)
        requires
            152 * (payload@.len() + 8) <= usize::MAX,
        ensures
            r@.len() == sent_len(payload@, mode),
            forall|s: int|
                0 <= s < r@.len() ==> (#[trigger] r@[s])@ == phases_of(
                    sent_steps(payload@, mode, s),
                ),
    {
        let full: Vec<u8> = seal(payload);
        let bits: Vec<u8> = bits_from_bytes(full.as_slice());
        let n: usize = symbols_needed(full.len(), mode);
        assert(n <= payload@.len() + 6) by {
            assert(symbol_bits(mode) == 76 || symbol_bits(mode) == 152);
        }
        let mut out: Vec<Vec<u8>> = Vec::new();
        let header: Vec<u8> = steps_of_header(full.len(), mode);
        out.push(differential_sequence(&header));
        let mut s: usize = 0;
        while s < n
            invariant
                s <= n,
                n <= payload@.len() + 6,
                152 * (payload@.len() + 8) <= usize::MAX,
                bits@ == bits_of(frame_of(payload@)),
                out@.len() == s + 1,
                forall|k: int|
                    0 <= k <= s ==> (#[trigger] out@[k])@ == phases_of(
                        sent_steps(payload@, mode, k),
                    ),
            decreases n - s,
        {
            let steps: Vec<u8> = steps_of_data(&bits, mode, s);
            let phases: Vec<u8> = differential_sequence(&steps);
            out.push(phases);
            s += 1;
        }
        out
    }

    /// The payload of a transmission, from the symbols behind its preamble:
    /// nothing where there was no start, and nothing where no shift gives a
    /// frame whose CRC agrees.
    pub fn demodulate(&self, sync: Sync, symbols: &[Signs]) -> (r: Option<Vec<u8>>)
        requires
            wide(signs(symbols@)),
        ensures
            match first_heard(signs(symbols@), 0) {
                Some(s) => if sync.start is Some && symbols@.len() > 0 {
                    r matches Some(v) && Some(v@) == heard_at(signs(symbols@), s)
                } else {
                    r is None
                },
                None => r is None,
            },
    {
        self.demodulate_verbose(0, sync, symbols).payload
    }

    /// The same, with what was learnt on the way.
    pub fn demodulate_verbose(
        &self,
        input_samples: usize,
        sync: Sync,
        symbols: &[Signs],
    ) -> (r: DemodAttempt)
        requires
            wide(signs(symbols@)),
        ensures
            r.input_samples == input_samples,
            r.sync_score == sync.score,
            r.synced == (sync.start is Some),
            if sync.start is Some && symbols@.len() > 0 {
                r.heard(signs(symbols@))
            } else {
                r.heard_nothing()
            },
    {
        let mut attempt = DemodAttempt {
            input_samples,
            sync_score: sync.score,
            synced: sync.start.is_some(),
            header_shift: None,
            header_payload_len: None,
            crc_shift: None,
            payload: None,
        };
        if sync.start.is_none() || symbols.len() == 0 {
            return attempt;
        }
        let ghost all = signs(symbols@);
        let mut k: usize = 0;
        while k < SHIFTS
            invariant
                k <= SHIFTS,
                all == signs(symbols@),
                wide(all),
                symbols@.len() > 0,
                sync.start is Some,
                attempt.input_samples == input_samples,
                attempt.sync_score == sync.score,
                attempt.synced == (sync.start is Some),
                attempt.crc_shift is None,
                attempt.payload is None,
                first_heard(all, 0) == first_heard(all, k as int),
                match attempt.header_shift {
                    Some(h) => {
                        &&& first_header(all, 0) matches Some(s) && s == h
                        &&& attempt.header_payload_len matches Some(n) && n == heard_len(
                            all[0],
                            h as int,
                        )
                    },
                    None => attempt.header_payload_len is None && first_header(all, 0)
                        == first_header(all, k as int),
                },
            decreases SHIFTS - k,
        {
            let shift: i32 = shift_to_try(k);
            assert(symbols@[0]@ == all[0]);
            let (len, mode) = decode_header(&symbols[0], shift);
            if 4 <= len && len <= MAX_FRAME {
                if attempt.header_shift.is_none() {
                    attempt.header_shift = Some(shift);
                    attempt.header_payload_len = Some(len);
                }
                match read_at(symbols, shift, len, mode) {
                    Some(payload) => {
                        attempt.crc_shift = Some(shift);
                        attempt.payload = Some(payload);
                        return attempt;
                    },
                    None => {},
                }
            }
            k += 1;
        }
        attempt
    }
}

} // verus!
