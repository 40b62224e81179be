//! The constants, messages and frames that the stations and the channel share.
//!
//! There are two layers: the wire messages ([`ClientMsg`], [`ServerMsg`]) that
//! go between a station and the channel, and the protocol frames ([`Frame`])
//! inside the audio payload. Times are microseconds.
use crate::text;
use base64::Engine as _;
use vstd::prelude::*;

verus! {

broadcast use vstd::seq::group_seq_axioms;

pub const SAMPLE_RATE: u32 = 8000;

/// The fixed cost of synchronisation and header of every transmission.
pub const PREAMBLE_OVERHEAD: u64 = 300_000;

pub const BEACON_INTERVAL: u64 = 8_000_000;

pub const BEACON_TIMEOUT: u64 = 24_000_000;

pub const LOST_TIMEOUT: u64 = 30_000_000;

pub const REMOVE_TIMEOUT: u64 = 120_000_000;

pub const BLOCK_SIZE: usize = 220;

/// Effective bytes a second of a modulation.
pub open spec fn rate_of(mode: Seq<char>) -> int {
    if mode == "BPSK"@ {
        125
    } else if mode == "16QAM"@ {
        500
    } else {
        250
    }
}

/// Effective bytes a second of a modulation; one that is not known counts as
/// QPSK.
pub fn rate_for(mode: &str) -> (r: u64)
    ensures
        r == rate_of(mode@),
{
    if text::same(mode, "BPSK") {
        125
    } else if text::same(mode, "16QAM") {
        500
    } else {
        250
    }
}

/// How long a frame is on the air, in microseconds.
pub fn airtime(size_bytes: u32, mode: &str) -> (r: u64)
    ensures
        r == PREAMBLE_OVERHEAD + size_bytes * 1_000_000 / rate_of(mode@),
{
    let bytes: u64 = size_bytes as u64;
    PREAMBLE_OVERHEAD + bytes * 1_000_000 / rate_for(mode)
}

/// One bit of a CRC-32: the reflected polynomial of IEEE 802.3 is taken off where
/// the bit that leaves is set.
pub open spec fn crc_bit(c: u32) -> u32 {
    if c % 2 == 1 {
        (c >> 1) ^ 0xedb8_8320u32
    } else {
        c >> 1
    }
}

/// One byte of a CRC-32, its lowest bit first.
pub open spec fn crc_byte(c: u32, b: u8) -> u32 {
    crc_bit(crc_bit(crc_bit(crc_bit(crc_bit(crc_bit(crc_bit(crc_bit(c ^ (b as u32)))))))))
}

/// The remainder after some bytes.
pub open spec fn crc_after(data: Seq<u8>) -> u32
    decreases data.len(),
{
    if data.len() == 0 {
        0xffff_ffffu32
    } else {
        crc_byte(crc_after(data.drop_last()), data.last())
    }
}

/// The CRC-32 (IEEE) of some bytes.
#[verifier::opaque]
pub open spec fn crc32_of(data: Seq<u8>) -> u32 {
    crc_after(data) ^ 0xffff_ffffu32
}

/// `crc32fast::Hasher`: `new`, one `update` and `finalize`, the CRC-32 (IEEE) of
/// the bytes.
#[verifier::external_body]
fn crc32_call(data: &[u8]) -> (r: u32)
    ensures
        r == crc32_of(data@),
{
    let mut h = crc32fast::Hasher::new();
    h.update(data);
    h.finalize()
}

/// CRC-32 (IEEE).
pub fn crc32(data: &[u8]) -> (r: u32)
    ensures
        r == crc32_of(data@),
{
    crc32_call(data)
}

#[verifier::external_type_specification]
#[verifier::external_body]
pub struct ExDecodeError(base64::DecodeError);

/// The character of the standard alphabet for six bits.
pub open spec fn base64_char(v: int) -> char {
    if v < 26 {
        (65 + v) as char
    } else if v < 52 {
        (97 + v - 26) as char
    } else if v < 62 {
        (48 + v - 52) as char
    } else if v == 62 {
        '+'
    } else {
        '/'
    }
}

/// Byte `i` of some data, and zeroes behind its end.
pub open spec fn byte_or_zero(data: Seq<u8>, i: int) -> int {
    if i < data.len() {
        data[i] as int
    } else {
        0
    }
}

/// Six bits of some data: those at `i`, its highest first.
pub open spec fn six_bits(data: Seq<u8>, i: int) -> int {
    let g = 3 * (i / 4);
    let word = byte_or_zero(data, g) * 0x1_0000 + byte_or_zero(data, g + 1) * 0x100 + byte_or_zero(
        data,
        g + 2,
    );
    if i % 4 == 0 {
        word / 0x4_0000
    } else if i % 4 == 1 {
        word / 0x1000 % 64
    } else if i % 4 == 2 {
        word / 0x40 % 64
    } else {
        word % 64
    }
}

/// The base64 text of some bytes, in the standard alphabet: four characters for
/// each three bytes, the last four filled up with `=`.
#[verifier::opaque]
pub open spec fn base64_of(data: Seq<u8>) -> Seq<char> {
    Seq::new(
        ((data.len() + 2) / 3 * 4) as nat,
        |i: int|
            if 6 * i < 8 * data.len() {
                base64_char(six_bits(data, i))
            } else {
                '='
            },
    )
}

/// The bytes that a base64 text stands for, if it is one: those whose text it is.
pub open spec fn base64_bytes(s: Seq<char>) -> Option<Seq<u8>> {
    if exists|v: Seq<u8>| #[trigger] base64_of(v) == s {
        Some(choose|v: Seq<u8>| #[trigger] base64_of(v) == s)
    } else {
        None
    }
}

proof fn lemma_six_bits(data: Seq<u8>, i: int)
    requires
        0 <= i,
    ensures
        0 <= six_bits(data, i) < 64,
{
    let g = 3 * (i / 4);
    let x = byte_or_zero(data, g);
    let y = byte_or_zero(data, g + 1);
    let z = byte_or_zero(data, g + 2);
    assert(0 <= x < 256 && 0 <= y < 256 && 0 <= z < 256);
}

proof fn lemma_base64_char(v: int, w: int)
    requires
        0 <= v < 64,
        0 <= w < 64,
    ensures
        base64_char(v) != '=',
        base64_char(v) == base64_char(w) ==> v == w,
{
}

/// The three bytes of a group are in its four times six bits.
proof fn lemma_group(data: Seq<u8>, k: int)
    requires
        0 <= k,
    ensures
        byte_or_zero(data, 3 * k) == six_bits(data, 4 * k) * 4 + six_bits(data, 4 * k + 1) / 16,
        byte_or_zero(data, 3 * k + 1) == six_bits(data, 4 * k + 1) % 16 * 16 + six_bits(
            data,
            4 * k + 2,
        ) / 4,
        byte_or_zero(data, 3 * k + 2) == six_bits(data, 4 * k + 2) % 4 * 64 + six_bits(
            data,
            4 * k + 3,
        ),
{
    let x = byte_or_zero(data, 3 * k);
    let y = byte_or_zero(data, 3 * k + 1);
    let z = byte_or_zero(data, 3 * k + 2);
    assert(0 <= x < 256 && 0 <= y < 256 && 0 <= z < 256);
    assert((4 * k) / 4 == k && (4 * k + 1) / 4 == k && (4 * k + 2) / 4 == k && (4 * k + 3) / 4 == k);
    assert((4 * k) % 4 == 0 && (4 * k + 1) % 4 == 1 && (4 * k + 2) % 4 == 2 && (4 * k + 3) % 4
        == 3);
    let word = x * 0x1_0000 + y * 0x100 + z;
    lemma_word(x, y, z, word);
}

proof fn lemma_word(x: int, y: int, z: int, word: int)
    requires
        0 <= x < 256,
        0 <= y < 256,
        0 <= z < 256,
        word == x * 0x1_0000 + y * 0x100 + z,
    ensures
        word / 0x4_0000 == x / 4,
        word / 0x1000 % 64 == x % 4 * 16 + y / 16,
        word / 0x40 % 64 == y % 16 * 4 + z / 64,
        word % 64 == z % 64,
{
    assert(word / 0x4_0000 == x / 4);
    assert(word / 0x1000 == x * 16 + y / 16);
    assert(word / 0x40 == x * 1024 + y * 4 + z / 64);
    assert(x == x / 4 * 4 + x % 4);
    assert(y == y / 16 * 16 + y % 16);
    assert(word / 0x1000 == 64 * (x / 4) + (x % 4 * 16 + y / 16));
    assert(word / 0x40 == 64 * (x * 16 + y / 16) + (y % 16 * 4 + z / 64));
}

/// No two texts are as long and end in as many `=`.
proof fn lemma_as_long(a: Seq<u8>, b: Seq<u8>)
    requires
        base64_of(a) == base64_of(b),
    ensures
        a.len() >= b.len(),
{
    reveal(base64_of);
    let n = a.len() as int;
    let m = b.len() as int;
    if n < m {
        let i = (4 * n + 2) / 3;
        assert(8 * n <= 6 * i < 8 * m);
        assert(i < (m + 2) / 3 * 4);
        assert(base64_of(a).len() == (n + 2) / 3 * 4);
        assert(base64_of(b).len() == (m + 2) / 3 * 4);
        assert(i < (n + 2) / 3 * 4);
        lemma_six_bits(b, i);
        lemma_base64_char(six_bits(b, i), 0);
        assert(base64_of(a)[i] == '=');
        assert(base64_of(b)[i] == base64_char(six_bits(b, i)));
    }
}

/// The same character stands for the same bits.
proof fn lemma_same_bits(a: Seq<u8>, b: Seq<u8>, i: int)
    requires
        base64_of(a) == base64_of(b),
        a.len() == b.len(),
        0 <= i,
        6 * i < 8 * a.len(),
    ensures
        six_bits(a, i) == six_bits(b, i),
{
    reveal(base64_of);
    lemma_six_bits(a, i);
    lemma_six_bits(b, i);
    lemma_base64_char(six_bits(a, i), six_bits(b, i));
    assert(i < (a.len() + 2) / 3 * 4);
    assert(base64_of(a)[i] == base64_char(six_bits(a, i)));
    assert(base64_of(b)[i] == base64_char(six_bits(b, i)));
}

/// No two runs of bytes have the same text.
pub proof fn lemma_base64_is_unique(a: Seq<u8>, b: Seq<u8>)
    requires
        base64_of(a) == base64_of(b),
    ensures
        a == b,
{
    lemma_as_long(a, b);
    lemma_as_long(b, a);
    assert forall|j: int| 0 <= j < a.len() implies a[j] == b[j] by {
        let k = j / 3;
        lemma_group(a, k);
        lemma_group(b, k);
        if j % 3 == 0 {
            lemma_same_bits(a, b, 4 * k);
            lemma_same_bits(a, b, 4 * k + 1);
        } else if j % 3 == 1 {
            lemma_same_bits(a, b, 4 * k + 1);
            lemma_same_bits(a, b, 4 * k + 2);
        } else {
            lemma_same_bits(a, b, 4 * k + 2);
            lemma_same_bits(a, b, 4 * k + 3);
        }
        assert(byte_or_zero(a, j) == byte_or_zero(b, j));
    }
    assert(a =~= b);
}

/// Bytes read back from their base64 text.
pub proof fn law_base64_reads_back(data: Seq<u8>)
    ensures
        base64_bytes(base64_of(data)) == Some(data),
        base64_of(data).len() == (data.len() + 2) / 3 * 4,
{
    reveal(base64_of);
    let s = base64_of(data);
    let v = choose|v: Seq<u8>| #[trigger] base64_of(v) == s;
    assert(base64_of(v) == s);
    lemma_base64_is_unique(v, data);
}

/// `base64::Engine::encode` of `STANDARD`: the standard alphabet with padding.
#[verifier::external_body]
fn base64_encode(data: &[u8]) -> (r: String)
    ensures
        r@ == base64_of(data@),
{
    base64::engine::general_purpose::STANDARD.encode(data)
}

/// `base64::Engine::decode` of `STANDARD`: the bytes whose text it is. Padding has
/// to be there, and no bit behind the last byte may be set, so that nothing but
/// such a text is taken.
#[verifier::external_body]
fn base64_decode(s: &str) -> (r: Result<Vec<u8>, base64::DecodeError>)
    ensures
        match r {
            Ok(v) => s@ == base64_of(v@),
            Err(_) => forall|v: Seq<u8>| #[trigger] base64_of(v) != s@,
        },
{
    base64::engine::general_purpose::STANDARD.decode(s.as_bytes())
}

/// A text that is not base64.
#[derive(Clone, Copy, Debug, PartialEq, Eq, Structural)]
pub struct NotBase64;

/// Bytes as base64 text.
pub fn b64e(data: &[u8]) -> (r: String)
    ensures
        r@ == base64_of(data@),
        r@.len() == (data@.len() + 2) / 3 * 4,
        base64_bytes(r@) == Some(data@),
{
    proof {
        law_base64_reads_back(data@);
    }
    base64_encode(data)
}

/// The bytes of a base64 text.
pub fn b64d(s: &str) -> (r: Result<Vec<u8>, NotBase64>)
    ensures
        match r {
            Ok(v) => base64_bytes(s@) == Some(v@),
            Err(_) => base64_bytes(s@) is None,
        },
{
    match base64_decode(s) {
        Ok(v) => {
            proof {
                law_base64_reads_back(v@);
            }
            Ok(v)
        },
        Err(_) => Err(NotBase64),
    }
}

/// The modulation of a transmission.
#[derive(Debug, Clone, Copy, PartialEq, Eq, Structural)]
pub enum Mode {
    Bpsk,
    Qpsk,
}

impl Mode {
    pub open spec fn name(self) -> Seq<char> {
        match self {
            Mode::Bpsk => "BPSK"@,
            Mode::Qpsk => "QPSK"@,
        }
    }

    pub fn as_str(self) -> (r: &'static str)
        ensures
            r@ == self.name(),
    {
        match self {
            Mode::Bpsk => "BPSK",
            Mode::Qpsk => "QPSK",
        }
    }

    pub fn parse(s: &str) -> (r: Option<Mode>)
        ensures
            r == (if s@ == "BPSK"@ {
                Some(Mode::Bpsk)
            } else if s@ == "QPSK"@ {
                Some(Mode::Qpsk)
            } else {
                None
            }),
    {
        if text::same(s, "BPSK") {
            Some(Mode::Bpsk)
        } else if text::same(s, "QPSK") {
            Some(Mode::Qpsk)
        } else {
            None
        }
    }
}

/// A mode reads back from its name, and no other text names one.
pub proof fn law_mode_names(m: Mode, s: Seq<char>)
    ensures
        "BPSK"@ != "QPSK"@,
        s == m.name() <==> (if s == "BPSK"@ {
            Some(Mode::Bpsk)
        } else if s == "QPSK"@ {
            Some(Mode::Qpsk)
        } else {
            None
        }) == Some(m),
{
    reveal_strlit("BPSK");
    reveal_strlit("QPSK");
    assert("BPSK"@[0] != "QPSK"@[0]);
}

/// What a station sends to the channel.
#[derive(Debug, Clone)]
pub enum ClientMsg {
    Hello { callsign: String },
    TransmitAudio { audio_b64: String },
}

/// What the channel sends to a station. Times are microseconds.
#[derive(Debug, Clone)]
pub enum ServerMsg {
    TxGranted { duration: u64 },
    ChannelBusy { retry_after: u64 },
    RxAudio { audio_b64: String },
}

/// A protocol frame: what is inside the payload of a transmission.
#[derive(Debug, Clone)]
pub enum Frame {
    JoinRequest { src: String, dst: String },
    Beacon { src: String, dst: String, backup: Option<String>, roster: Vec<String> },
    Chat { src: String, dst: String, text: String },
    BulkMeta {
        src: String,
        dst: String,
        transfer_id: String,
        filename: String,
        total_blocks: usize,
        total_size: usize,
    },
    BulkBlock {
        src: String,
        dst: String,
        transfer_id: String,
        seq: usize,
        /// base64
        data: String,
        crc: u32,
    },
    BulkEnd { src: String, dst: String, transfer_id: String },
    BulkStatus { src: String, dst: String, transfer_id: String, missing: Vec<usize> },
    /// A frame of another type, which is passed over in silence.
    Unknown,
}

impl Frame {
    /// Who a frame is from.
    pub open spec fn from(self) -> Option<Seq<char>> {
        match self {
            Frame::JoinRequest { src, .. } => Some(src@),
            Frame::Beacon { src, .. } => Some(src@),
            Frame::Chat { src, .. } => Some(src@),
            Frame::BulkMeta { src, .. } => Some(src@),
            Frame::BulkBlock { src, .. } => Some(src@),
            Frame::BulkEnd { src, .. } => Some(src@),
            Frame::BulkStatus { src, .. } => Some(src@),
            Frame::Unknown => None,
        }
    }

    /// Who a frame is to.
    pub open spec fn to(self) -> Seq<char> {
        match self {
            Frame::JoinRequest { dst, .. } => dst@,
            Frame::Beacon { dst, .. } => dst@,
            Frame::Chat { dst, .. } => dst@,
            Frame::BulkMeta { dst, .. } => dst@,
            Frame::BulkBlock { dst, .. } => dst@,
            Frame::BulkEnd { dst, .. } => dst@,
            Frame::BulkStatus { dst, .. } => dst@,
            Frame::Unknown => "ALL"@,
        }
    }

    /// Who a frame is from, if it says so.
    pub fn src(&self) -> (r: Option<&str>)
        ensures
            match self.from() {
                Some(s) => r matches Some(t) && t@ == s,
                None => r is None,
            },
    {
        match self {
            Frame::JoinRequest { src, .. } => Some(src.as_str()),
            Frame::Beacon { src, .. } => Some(src.as_str()),
            Frame::Chat { src, .. } => Some(src.as_str()),
            Frame::BulkMeta { src, .. } => Some(src.as_str()),
            Frame::BulkBlock { src, .. } => Some(src.as_str()),
            Frame::BulkEnd { src, .. } => Some(src.as_str()),
            Frame::BulkStatus { src, .. } => Some(src.as_str()),
            Frame::Unknown => None,
        }
    }

    /// Who a frame is to; everybody where it does not say.
    pub fn dst(&self) -> (r: &str)
        ensures
            r@ == self.to(),
    {
        match self {
            Frame::JoinRequest { dst, .. } => dst.as_str(),
            Frame::Beacon { dst, .. } => dst.as_str(),
            Frame::Chat { dst, .. } => dst.as_str(),
            Frame::BulkMeta { dst, .. } => dst.as_str(),
            Frame::BulkBlock { dst, .. } => dst.as_str(),
            Frame::BulkEnd { dst, .. } => dst.as_str(),
            Frame::BulkStatus { dst, .. } => dst.as_str(),
            Frame::Unknown => "ALL",
        }
    }
}

/// What a passive listener notes of a decoded frame, from the three fields it
/// finds in it.
pub fn summary(src: Option<String>, dst: Option<String>, kind: Option<String>) -> (r: String)
    ensures
        r@ == or(src, "?"@) + " -> "@ + or(dst, "ALL"@) + " | "@ + or(kind, "?"@),
{
    let mut s = match src {
        Some(t) => t,
        None => "?".to_owned(),
    };
    s.append(" -> ");
    match dst {
        Some(t) => s.append(t.as_str()),
        None => s.append("ALL"),
    }
    s.append(" | ");
    match kind {
        Some(t) => s.append(t.as_str()),
        None => s.append("?"),
    }
    s
}

/// A text, or what stands for it where there is none.
pub open spec fn or(s: Option<String>, d: Seq<char>) -> Seq<char> {
    match s {
        Some(t) => t@,
        None => d,
    }
}

} // verus!
