//! The wire protocol of the Airspy R2 and Mini.
//!
//! Three things are not what they look like. The receiver streams real samples
//! at twice the rate that was asked for. A sample rate goes out as an index or as
//! kilohertz. And the gain tables count down from the most gain.
use crate::text;
use vstd::prelude::*;

verus! {

broadcast use vstd::seq::group_seq_axioms;

/// USB vendor and product, the same for both models, and for the prototypes of
/// another maker: see [`looks_like_hydrasdr`].
pub const VID: u16 = 0x1d50;

pub const PID: u16 = 0x60a1;

/// The configuration, the interface and the alternate setting of the sample
/// endpoint.
pub const CONFIGURATION: u8 = 1;

pub const INTERFACE: u8 = 0;

pub const ALT_SETTING: u8 = 0;

/// The bulk endpoint of the sample stream.
pub const BULK_EP: u8 = 0x81;

/// How long a control transfer may take, in milliseconds.
pub const CTRL_TIMEOUT: u64 = 500;

/// Rates from here on can go out as kilohertz.
pub const MIN_SAMPLERATE_BY_VALUE: u32 = 1_000_000;

/// How many steps the gain curves have.
pub const GAIN_COUNT: u8 = 22;

/// How long one packed group is: three words, eight samples.
pub const PACKED_GROUP_BYTES: usize = 12;

/// The complex rates of a receiver that is too old to be asked.
pub fn fallback_rates() -> (r: Vec<u64>)
    ensures
        r@ == seq![10_000_000u64, 2_500_000u64],
{
    let mut v: Vec<u64> = Vec::new();
    v.push(10_000_000);
    v.push(2_500_000);
    assert(v@ =~= seq![10_000_000u64, 2_500_000u64]);
    v
}

/// An ASCII letter in lower case; every other character as it is.
pub open spec fn lower(c: char) -> char {
    if 'A' <= c <= 'Z' {
        (c as u32 + 32) as char
    } else {
        c
    }
}

pub open spec fn lowers(s: Seq<char>) -> Seq<char> {
    Seq::new(s.len(), |i: int| lower(s[i]))
}

fn lower_chars(v: &Vec<char>) -> (r: Vec<char>)
    ensures
        r@ == lowers(v@),
{
    let mut out: Vec<char> = Vec::new();
    let mut i: usize = 0;
    while i < v.len()
        invariant
            i <= v@.len(),
            out@.len() == i,
            forall|k: int| 0 <= k < i ==> out@[k] == lower(v@[k]),
        decreases v@.len() - i,
    {
        let c: char = v[i];
        if 'A' <= c && c <= 'Z' {
            out.push((c as u8 + 32) as char);
        } else {
            out.push(c);
        }
        i += 1;
    }
    assert(out@ =~= lowers(v@));
    out
}

/// Whether a device on this id says that it is another maker's prototype, which
/// needs another driver: its tuning request is of another size.
pub open spec fn says_hydrasdr(product: Option<Seq<char>>, serial: Option<Seq<char>>) -> bool {
    ||| product matches Some(p) && text::find_seq(lowers(text::trim(p)), "hydrasdr"@, 0) is Some
    ||| serial matches Some(s) && text::has_prefix(text::uppers(text::trim(s)), "HYDRASDR"@)
}

pub open spec fn opt(s: Option<&str>) -> Option<Seq<char>> {
    match s {
        Some(t) => Some(t@),
        None => None,
    }
}

/// Whether a device on this id is a HydraSDR prototype.
pub fn looks_like_hydrasdr(product: Option<&str>, serial: Option<&str>) -> (r: bool)
    ensures
        r == says_hydrasdr(opt(product), opt(serial)),
{
    let by_product: bool = match product {
        Some(p) => {
            let v: Vec<char> = lower_chars(&text::trim_chars(text::chars_of(p).as_slice()));
            let name: Vec<char> = text::chars_of("hydrasdr");
            text::find_chars(v.as_slice(), name.as_slice(), 0).is_some()
        },
        None => false,
    };
    let by_serial: bool = match serial {
        Some(s) => {
            let v: Vec<char> = text::upper_chars(
                text::trim_chars(text::chars_of(s).as_slice()).as_slice(),
            );
            text::starts_with(v.as_slice(), "HYDRASDR")
        },
        None => false,
    };
    by_product || by_serial
}

/// The requests of the receiver.
#[derive(Debug, Clone, Copy, PartialEq, Eq, Structural)]
pub enum Request {
    Invalid,
    ReceiverMode,
    Si5351cWrite,
    Si5351cRead,
    R820tWrite,
    R820tRead,
    SpiFlashErase,
    SpiFlashWrite,
    SpiFlashRead,
    BoardIdRead,
    VersionStringRead,
    BoardPartidSerialnoRead,
    SetSamplerate,
    SetFreq,
    SetLnaGain,
    SetMixerGain,
    SetVgaGain,
    SetLnaAgc,
    SetMixerAgc,
    MsVendorCmd,
    SetRfBias,
    GpioWrite,
    GpioRead,
    GpioDirWrite,
    GpioDirRead,
    GetSamplerates,
    SetPacking,
}

impl Request {
    pub open spec fn number(self) -> u8 {
        match self {
            Request::Invalid => 0,
            Request::ReceiverMode => 1,
            Request::Si5351cWrite => 2,
            Request::Si5351cRead => 3,
            Request::R820tWrite => 4,
            Request::R820tRead => 5,
            Request::SpiFlashErase => 6,
            Request::SpiFlashWrite => 7,
            Request::SpiFlashRead => 8,
            Request::BoardIdRead => 9,
            Request::VersionStringRead => 10,
            Request::BoardPartidSerialnoRead => 11,
            Request::SetSamplerate => 12,
            Request::SetFreq => 13,
            Request::SetLnaGain => 14,
            Request::SetMixerGain => 15,
            Request::SetVgaGain => 16,
            Request::SetLnaAgc => 17,
            Request::SetMixerAgc => 18,
            Request::MsVendorCmd => 19,
            Request::SetRfBias => 20,
            Request::GpioWrite => 21,
            Request::GpioRead => 22,
            Request::GpioDirWrite => 23,
            Request::GpioDirRead => 24,
            Request::GetSamplerates => 25,
            Request::SetPacking => 26,
        }
    }

    /// The number of the request.
    pub fn code(self) -> (r: u8)
        ensures
            r == self.number(),
    {
        match self {
            Request::Invalid => 0,
            Request::ReceiverMode => 1,
            Request::Si5351cWrite => 2,
            Request::Si5351cRead => 3,
            Request::R820tWrite => 4,
            Request::R820tRead => 5,
            Request::SpiFlashErase => 6,
            Request::SpiFlashWrite => 7,
            Request::SpiFlashRead => 8,
            Request::BoardIdRead => 9,
            Request::VersionStringRead => 10,
            Request::BoardPartidSerialnoRead => 11,
            Request::SetSamplerate => 12,
            Request::SetFreq => 13,
            Request::SetLnaGain => 14,
            Request::SetMixerGain => 15,
            Request::SetVgaGain => 16,
            Request::SetLnaAgc => 17,
            Request::SetMixerAgc => 18,
            Request::MsVendorCmd => 19,
            Request::SetRfBias => 20,
            Request::GpioWrite => 21,
            Request::GpioRead => 22,
            Request::GpioDirWrite => 23,
            Request::GpioDirRead => 24,
            Request::GetSamplerates => 25,
            Request::SetPacking => 26,
        }
    }

    /// Whether a receiver may be without this request: both such came after the
    /// first receivers were sold, and one that stalls them goes on with a
    /// fallback.
    pub fn is_optional(self) -> (r: bool)
        ensures
            r == (self == Request::GetSamplerates || self == Request::SetPacking),
    {
        match self {
            Request::GetSamplerates => true,
            Request::SetPacking => true,
            _ => false,
        }
    }
}

/// No two requests have the same number.
pub proof fn law_request_numbers_differ(a: Request, b: Request)
    requires
        a.number() == b.number(),
    ensures
        a == b,
{
}

/// Whether the receiver streams.
#[derive(Debug, Clone, Copy, PartialEq, Eq, Structural)]
pub enum ReceiverMode {
    Off,
    Rx,
}

impl ReceiverMode {
    pub open spec fn number(self) -> u16 {
        match self {
            ReceiverMode::Off => 0,
            ReceiverMode::Rx => 1,
        }
    }

    pub fn code(self) -> (r: u16)
        ensures
            r == self.number(),
    {
        match self {
            ReceiverMode::Off => 0,
            ReceiverMode::Rx => 1,
        }
    }
}

/// The rate to program for a complex rate: the converter is real and runs twice
/// as fast.
pub fn program_rate_hz(complex_rate_hz: u64) -> (r: u64)
    requires
        2 * complex_rate_hz <= u64::MAX,
    ensures
        r == 2 * complex_rate_hz,
{
    2 * complex_rate_hz
}

/// The complex rate of a programmed rate.
pub fn complex_rate_hz(programmed_hz: u64) -> (r: u64)
    ensures
        r == programmed_hz / 2,
{
    programmed_hz / 2
}

/// How a rate travels.
#[derive(Debug, Clone, Copy, PartialEq, Eq, Structural)]
pub enum RateArg {
    /// Its place in the receiver's own list.
    Index(u16),
    Khz(u16),
}

impl RateArg {
    pub open spec fn wire(self) -> u16 {
        match self {
            RateArg::Index(v) => v,
            RateArg::Khz(v) => v,
        }
    }

    pub fn value(self) -> (r: u16)
        ensures
            r == self.wire(),
    {
        match self {
            RateArg::Index(v) => v,
            RateArg::Khz(v) => v,
        }
    }
}

/// A rate as the receiver counts it.
pub open spec fn capped(hz: u64) -> int {
    if hz > u32::MAX {
        u32::MAX as int
    } else {
        hz as int
    }
}

/// The first place from `from` on where a rate is in a list.
pub open spec fn listed(rates: Seq<u64>, hz: int, from: int) -> Option<int>
    decreases rates.len() - from,
{
    if from >= rates.len() || from < 0 {
        None
    } else if capped(rates[from]) == hz {
        Some(from)
    } else {
        listed(rates, hz, from + 1)
    }
}

/// A programmed rate as it travels: one that the receiver listed by its place in
/// the list, another as kilohertz where that can be.
pub open spec fn rate_arg(programmed_hz: u64, rates: Seq<u64>) -> Option<RateArg> {
    let hz = capped(programmed_hz);
    match listed(rates, hz, 0) {
        Some(i) => Some(RateArg::Index(i as u16)),
        None => if hz < MIN_SAMPLERATE_BY_VALUE || hz / 1000 > u16::MAX {
            None
        } else {
            Some(RateArg::Khz((hz / 1000) as u16))
        },
    }
}

/// A programmed rate as it travels, none where it cannot be asked for.
pub fn encode_samplerate(programmed_hz: u64, rates: &[u64]) -> (r: Option<RateArg>)
    requires
        rates@.len() <= 65536,
    ensures
        r == rate_arg(programmed_hz, rates@),
{
    let hz: u64 = if programmed_hz > 0xffff_ffff { 0xffff_ffff } else { programmed_hz };
    let mut i: usize = 0;
    while i < rates.len()
        invariant
            i <= rates@.len(),
            rates@.len() <= 65536,
            hz == capped(programmed_hz),
            listed(rates@, hz as int, 0) == listed(rates@, hz as int, i as int),
        decreases rates@.len() - i,
    {
        let x: u64 = if rates[i] > 0xffff_ffff { 0xffff_ffff } else { rates[i] };
        if x == hz {
            return Some(RateArg::Index(i as u16));
        }
        i += 1;
    }
    if hz < MIN_SAMPLERATE_BY_VALUE as u64 || hz / 1000 > 65535 {
        None
    } else {
        Some(RateArg::Khz((hz / 1000) as u16))
    }
}

/// Four bytes as a number, the low byte first.
pub open spec fn word(b: Seq<u8>, at: int) -> int {
    b[at] + 0x100 * b[at + 1] + 0x1_0000 * b[at + 2] + 0x100_0000 * b[at + 3]
}

fn word_at(b: &[u8], at: usize) -> (r: u32)
    requires
        at + 4 <= b@.len(),
    ensures
        r == word(b@, at as int),
{
    let len: usize = b.len();
    assert(at + 4 <= len);
    b[at] as u32 + 0x100 * b[at + 1] as u32 + 0x1_0000 * b[at + 2] as u32 + 0x100_0000 * b[at
        + 3] as u32
}

/// The rates among the first `n` words: those that are not zero.
pub open spec fn rates_of(b: Seq<u8>, n: nat) -> Seq<u64>
    decreases n,
{
    if n == 0 {
        Seq::empty()
    } else {
        let w = word(b, 4 * (n - 1));
        let front = rates_of(b, (n - 1) as nat);
        if w > 0 {
            front.push(w as u64)
        } else {
            front
        }
    }
}

/// The complex rates that the receiver reports. Bytes that make no word are left
/// out.
pub fn parse_rates(b: &[u8]) -> (r: Vec<u64>)
    ensures
        r@ == rates_of(b@, (b@.len() / 4) as nat),
        r@.len() <= b@.len() / 4,
        forall|i: int| 0 <= i < r@.len() ==> 0 < #[trigger] r@[i] <= u32::MAX,
{
    let total: usize = b.len();
    let n: usize = total / 4;
    let mut out: Vec<u64> = Vec::new();
    let mut i: usize = 0;
    while i < n
        invariant
            i <= n,
            total == b@.len(),
            n == total / 4,
            out@.len() <= i,
            out@ == rates_of(b@, i as nat),
            forall|k: int| 0 <= k < out@.len() ==> 0 < #[trigger] out@[k] <= u32::MAX,
        decreases n - i,
    {
        let w: u32 = word_at(b, 4 * i);
        if w > 0 {
            out.push(w as u64);
        }
        i += 1;
    }
    out
}

/// A count, as the first of two queries returns it.
pub fn parse_count(b: &[u8]) -> (r: Option<u32>)
    ensures
        if b@.len() >= 4 {
            r matches Some(n) && n == word(b@, 0)
        } else {
            r is None
        },
{
    if b.len() >= 4 {
        Some(word_at(b, 0))
    } else {
        None
    }
}

/// What the receiver says of its parts and of its serial number.
#[derive(Debug, Clone, Copy, PartialEq, Eq)]
pub struct PartIdSerial {
    pub part_id: [u32; 2],
    pub serial: [u32; 4],
}

impl Default for PartIdSerial {
    fn default() -> (r: Self)
        ensures
            forall|i: int| 0 <= i < 2 ==> r.part_id[i] == 0,
            forall|i: int| 0 <= i < 4 ==> r.serial[i] == 0,
    {
        PartIdSerial { part_id: [0, 0], serial: [0, 0, 0, 0] }
    }
}

/// A hexadecimal digit.
pub open spec fn hex_digit(d: int) -> char {
    if d < 10 {
        (48 + d) as char
    } else {
        (55 + d) as char
    }
}

/// A word as eight hexadecimal digits.
pub open spec fn hex_word(w: int) -> Seq<char> {
    seq![
        hex_digit(w / 0x1000_0000 % 16),
        hex_digit(w / 0x100_0000 % 16),
        hex_digit(w / 0x10_0000 % 16),
        hex_digit(w / 0x1_0000 % 16),
        hex_digit(w / 0x1000 % 16),
        hex_digit(w / 0x100 % 16),
        hex_digit(w / 0x10 % 16),
        hex_digit(w % 16),
    ]
}

fn push_hex_digit(s: &mut String, d: u32)
    requires
        d < 16,
    ensures
        final(s)@ == old(s)@.push(hex_digit(d as int)),
{
    if d < 10 {
        s.push((48 + d as u8) as char);
    } else {
        s.push((55 + d as u8) as char);
    }
}

fn push_hex_word(s: &mut String, w: u32)
    ensures
        final(s)@ == old(s)@ + hex_word(w as int),
{
    push_hex_digit(s, w / 0x1000_0000 % 16);
    push_hex_digit(s, w / 0x100_0000 % 16);
    push_hex_digit(s, w / 0x10_0000 % 16);
    push_hex_digit(s, w / 0x1_0000 % 16);
    push_hex_digit(s, w / 0x1000 % 16);
    push_hex_digit(s, w / 0x100 % 16);
    push_hex_digit(s, w / 0x10 % 16);
    push_hex_digit(s, w % 16);
    assert(s@ =~= old(s)@ + hex_word(w as int));
}

impl PartIdSerial {
    /// Reads the reply of 24 bytes; a short one is no reply.
    pub fn parse(b: &[u8]) -> (r: Option<PartIdSerial>)
        ensures
            if b@.len() < 24 {
                r is None
            } else {
                &&& r matches Some(p)
                &&& p.part_id[0] == word(b@, 0)
                &&& p.part_id[1] == word(b@, 4)
                &&& p.serial[0] == word(b@, 8)
                &&& p.serial[1] == word(b@, 12)
                &&& p.serial[2] == word(b@, 16)
                &&& p.serial[3] == word(b@, 20)
            },
    {
        if b.len() < 24 {
            return None;
        }
        Some(
            PartIdSerial {
                part_id: [word_at(b, 0), word_at(b, 4)],
                serial: [word_at(b, 8), word_at(b, 12), word_at(b, 16), word_at(b, 20)],
            },
        )
    }

    pub open spec fn hex(self) -> Seq<char> {
        hex_word(self.serial[0] as int) + hex_word(self.serial[1] as int) + hex_word(
            self.serial[2] as int,
        ) + hex_word(self.serial[3] as int)
    }

    /// The serial number in hexadecimal.
    pub fn serial_hex(&self) -> (r: String)
        ensures
            r@ == self.hex(),
            r@.len() == 32,
    {
        let mut s = String::new();
        push_hex_word(&mut s, self.serial[0]);
        push_hex_word(&mut s, self.serial[1]);
        push_hex_word(&mut s, self.serial[2]);
        push_hex_word(&mut s, self.serial[3]);
        assert(s@ =~= self.hex());
        s
    }
}

/// A text that a zero ends.
pub open spec fn ascii_of(b: Seq<u8>) -> Seq<char> {
    text::trim(text::lossy(b.take(text::find(b, 0u8))))
}

/// Reads a reply of text that a zero ends.
pub fn parse_ascii(b: &[u8]) -> (r: String)
    ensures
        r@ == ascii_of(b@),
{
    let mut end: usize = 0;
    while end < b.len() && b[end] != 0
        invariant
            end <= b@.len(),
            forall|k: int| 0 <= k < end ==> b@[k] != 0,
        decreases b@.len() - end,
    {
        end += 1;
    }
    proof {
        text::lemma_find_from(b@, 0u8, 0, end as int);
    }
    let head: Vec<u8> = text::copy_bytes(b, 0, end);
    assert(head@ =~= b@.take(end as int));
    let c: Vec<char> = text::lossy_chars(head.as_slice());
    text::string_of(text::trim_chars(c.as_slice()).as_slice())
}

/// Whether a serial number that somebody typed names a receiver: it is the end of
/// the receiver's own, in either case. No number at all names any receiver.
pub open spec fn names(want: Seq<char>, found: Option<Seq<char>>) -> bool {
    let w = text::trim(want);
    if w.len() == 0 {
        true
    } else {
        match found {
            Some(f) => {
                let t = text::trim(f);
                t.len() >= w.len() && text::uppers(t.skip(t.len() - w.len())) == text::uppers(w)
            },
            None => false,
        }
    }
}

/// Whether a serial number names a receiver.
pub fn serial_matches(want: &str, found: Option<&str>) -> (r: bool)
    ensures
        r == names(want@, opt(found)),
{
    let w: Vec<char> = text::trim_chars(text::chars_of(want).as_slice());
    if w.len() == 0 {
        return true;
    }
    match found {
        Some(f) => {
            let t: Vec<char> = text::trim_chars(text::chars_of(f).as_slice());
            if t.len() < w.len() {
                return false;
            }
            let tail: Vec<char> = text::copy_chars(t.as_slice(), t.len() - w.len(), t.len());
            assert(tail@ =~= t@.skip(t@.len() - w@.len()));
            text::same_chars(
                text::upper_chars(tail.as_slice()).as_slice(),
                text::upper_chars(w.as_slice()).as_slice(),
            )
        },
        None => false,
    }
}

/// The curve by which the three stages are driven.
#[derive(Debug, Clone, Copy, PartialEq, Eq, Structural)]
pub enum GainCurve {
    /// Bears strong signals best.
    Linearity,
    /// Hears weak signals best.
    Sensitivity,
}

impl Default for GainCurve {
    fn default() -> (r: Self)
        ensures
            r == GainCurve::Linearity,
    {
        GainCurve::Linearity
    }
}

/// The gains of a stage of one curve, the most gain first.
pub open spec fn table(curve: GainCurve, stage: int) -> Seq<u8> {
    match curve {
        GainCurve::Linearity => if stage == 0 {
            seq![14u8, 14, 14, 13, 12, 10, 9, 9, 8, 9, 8, 6, 5, 3, 1, 0, 0, 0, 0, 0, 0, 0]
        } else if stage == 1 {
            seq![12u8, 12, 11, 9, 8, 7, 6, 6, 5, 0, 0, 1, 0, 0, 2, 2, 1, 1, 1, 1, 0, 0]
        } else {
            seq![13u8, 12, 11, 11, 11, 11, 11, 10, 10, 10, 10, 10, 10, 10, 10, 10, 9, 8, 7, 6, 5, 4]
        },
        GainCurve::Sensitivity => if stage == 0 {
            seq![14u8, 14, 14, 14, 14, 14, 14, 14, 14, 13, 12, 12, 9, 9, 8, 7, 6, 5, 3, 2, 1, 0]
        } else if stage == 1 {
            seq![12u8, 12, 12, 12, 11, 10, 10, 9, 9, 8, 7, 4, 4, 4, 3, 2, 2, 1, 0, 0, 0, 0]
        } else {
            seq![13u8, 12, 11, 10, 9, 8, 7, 6, 5, 5, 5, 5, 5, 4, 4, 4, 4, 4, 4, 4, 4, 4]
        },
    }
}

/// A step that is beyond the curve is its last.
pub open spec fn held_step(step: int) -> int {
    if step >= GAIN_COUNT {
        GAIN_COUNT - 1
    } else {
        step
    }
}

/// The gains of the three stages at a step, of which zero is the least gain.
pub open spec fn stages_at(curve: GainCurve, step: int) -> (u8, u8, u8) {
    let i = GAIN_COUNT - 1 - held_step(step);
    (table(curve, 0)[i], table(curve, 1)[i], table(curve, 2)[i])
}

pub open spec fn total_gain(curve: GainCurve, step: int) -> int {
    let (l, m, v) = stages_at(curve, step);
    l + m + v
}

/// The tables of a curve.
fn tables(curve: GainCurve) -> (r: (Vec<u8>, Vec<u8>, Vec<u8>))
    ensures
        r.0@ == table(curve, 0),
        r.1@ == table(curve, 1),
        r.2@ == table(curve, 2),
{
    match curve {
        GainCurve::Linearity => (
            vec![14, 14, 14, 13, 12, 10, 9, 9, 8, 9, 8, 6, 5, 3, 1, 0, 0, 0, 0, 0, 0, 0],
            vec![12, 12, 11, 9, 8, 7, 6, 6, 5, 0, 0, 1, 0, 0, 2, 2, 1, 1, 1, 1, 0, 0],
            vec![13, 12, 11, 11, 11, 11, 11, 10, 10, 10, 10, 10, 10, 10, 10, 10, 9, 8, 7, 6, 5, 4],
        ),
        GainCurve::Sensitivity => (
            vec![14, 14, 14, 14, 14, 14, 14, 14, 14, 13, 12, 12, 9, 9, 8, 7, 6, 5, 3, 2, 1, 0],
            vec![12, 12, 12, 12, 11, 10, 10, 9, 9, 8, 7, 4, 4, 4, 3, 2, 2, 1, 0, 0, 0, 0],
            vec![13, 12, 11, 10, 9, 8, 7, 6, 5, 5, 5, 5, 5, 4, 4, 4, 4, 4, 4, 4, 4, 4],
        ),
    }
}

impl GainCurve {
    /// The gains of the three stages, amplifier, mixer and variable gain, at a
    /// step: zero is the least gain.
    pub fn stages(self, step: u8) -> (r: (u8, u8, u8))
        ensures
            r == stages_at(self, step as int),
    {
        let s: u8 = if step >= GAIN_COUNT { GAIN_COUNT - 1 } else { step };
        let i: usize = (GAIN_COUNT - 1 - s) as usize;
        let (l, m, v) = tables(self);
        (l[i], m[i], v[i])
    }

    pub fn name(self) -> (r: &'static str)
        ensures
            r@ == (match self {
                GainCurve::Linearity => "linearity"@,
                GainCurve::Sensitivity => "sensitivity"@,
            }),
    {
        match self {
            GainCurve::Linearity => "linearity",
            GainCurve::Sensitivity => "sensitivity",
        }
    }

    pub fn from_code(code: u8) -> (r: GainCurve)
        ensures
            r == if code == 1 {
                GainCurve::Sensitivity
            } else {
                GainCurve::Linearity
            },
    {
        match code {
            1 => GainCurve::Sensitivity,
            _ => GainCurve::Linearity,
        }
    }

    pub fn code(self) -> (r: u8)
        ensures
            r == match self {
                GainCurve::Linearity => 0u8,
                GainCurve::Sensitivity => 1u8,
            },
    {
        match self {
            GainCurve::Linearity => 0,
            GainCurve::Sensitivity => 1,
        }
    }
}

proof fn lemma_next_step(curve: GainCurve, step: int)
    requires
        0 <= step,
    ensures
        total_gain(curve, step) <= total_gain(curve, step + 1),
{
}

/// More steps never give less gain, and the last gives more than the first.
pub proof fn law_more_steps_give_more_gain(curve: GainCurve, a: int, b: int)
    requires
        0 <= a <= b,
    ensures
        total_gain(curve, a) <= total_gain(curve, b),
        total_gain(curve, 0) < total_gain(curve, GAIN_COUNT - 1),
    decreases b - a,
{
    if a < b {
        law_more_steps_give_more_gain(curve, a, b - 1);
        lemma_next_step(curve, b - 1);
    }
}

/// Every stage is within what it can be set to.
pub proof fn law_every_stage_is_in_range(curve: GainCurve, step: int)
    requires
        0 <= step,
    ensures
        stages_at(curve, step).0 <= 15,
        stages_at(curve, step).1 <= 15,
        stages_at(curve, step).2 <= 15,
{
}

/// The 96 bits of a group.
pub open spec fn group_bits(a: int, b: int, c: int) -> int {
    a * 0x1_0000_0000_0000_0000 + b * 0x1_0000_0000 + c
}

/// The eight samples of three words: twelve bits each, from the top of the first
/// word down.
pub open spec fn group(a: int, b: int, c: int) -> Seq<u16> {
    seq![
        (a / 0x10_0000) as u16,
        (a / 0x100 % 0x1000) as u16,
        (a % 0x100 * 0x10 + b / 0x1000_0000) as u16,
        (b / 0x1_0000 % 0x1000) as u16,
        (b / 0x10 % 0x1000) as u16,
        (b % 0x10 * 0x100 + c / 0x100_0000) as u16,
        (c / 0x1000 % 0x1000) as u16,
        (c % 0x1000) as u16,
    ]
}

/// The samples of the first `n` whole groups of words.
pub open spec fn unpacked(words: Seq<u32>, n: nat) -> Seq<u16>
    decreases n,
{
    if n == 0 {
        Seq::empty()
    } else {
        let i = 3 * (n - 1);
        unpacked(words, (n - 1) as nat) + group(
            words[i] as int,
            words[i + 1] as int,
            words[i + 2] as int,
        )
    }
}

/// The samples of the first `n` whole groups of bytes.
pub open spec fn unpacked_bytes(b: Seq<u8>, n: nat) -> Seq<u16>
    decreases n,
{
    if n == 0 {
        Seq::empty()
    } else {
        let i = 12 * (n - 1);
        unpacked_bytes(b, (n - 1) as nat) + group(word(b, i), word(b, i + 4), word(b, i + 8))
    }
}

/// The samples of a group are its 96 bits: none is lost, none is there twice,
/// and every sample is of twelve bits.
#[verifier::rlimit(40)]
pub proof fn law_a_group_is_its_bits(a: u32, b: u32, c: u32)
    ensures
        ({
            let s = group(a as int, b as int, c as int);
            &&& s.len() == 8
            &&& forall|i: int| 0 <= i < 8 ==> #[trigger] s[i] < 0x1000
            &&& group_bits(a as int, b as int, c as int) == s[0] * 0x10_0000_0000_0000_0000_0000
                + s[1] * 0x100_0000_0000_0000_0000 + s[2] * 0x1000_0000_0000_0000 + s[3]
                * 0x1_0000_0000_0000 + s[4] * 0x10_0000_0000 + s[5] * 0x100_0000 + s[6] * 0x1000
                + s[7]
        }),
{
    let s = group(a as int, b as int, c as int);
    assert(s[0] == a / 0x10_0000);
    assert(s[1] == a / 0x100 % 0x1000);
    assert(s[2] == a % 0x100 * 0x10 + b / 0x1000_0000);
    assert(s[3] == b / 0x1_0000 % 0x1000);
    assert(s[4] == b / 0x10 % 0x1000);
    assert(s[5] == b % 0x10 * 0x100 + c / 0x100_0000);
    assert(s[6] == c / 0x1000 % 0x1000);
    assert(s[7] == c % 0x1000);
    lemma_first_word(a as int);
    lemma_second_word(b as int);
    lemma_third_word(c as int);
}

proof fn lemma_first_word(a: int)
    ensures
        a == a / 0x10_0000 * 0x10_0000 + a / 0x100 % 0x1000 * 0x100 + a % 0x100,
{
    assert(a / 0x10_0000 == a / 0x100 / 0x1000);
}

proof fn lemma_second_word(b: int)
    ensures
        b == b / 0x1000_0000 * 0x1000_0000 + b / 0x1_0000 % 0x1000 * 0x1_0000 + b / 0x10 % 0x1000
            * 0x10 + b % 0x10,
{
    assert(b / 0x1_0000 == b / 0x10 / 0x1000);
    assert(b / 0x1000_0000 == b / 0x1_0000 / 0x1000);
}

proof fn lemma_third_word(c: int)
    ensures
        c == c / 0x100_0000 * 0x100_0000 + c / 0x1000 % 0x1000 * 0x1000 + c % 0x1000,
{
    assert(c / 0x100_0000 == c / 0x1000 / 0x1000);
}

fn unpack_group(a: u32, b: u32, c: u32, out: &mut Vec<u16>)
    ensures
        final(out)@ == old(out)@ + group(a as int, b as int, c as int),
{
    out.push((a / 0x10_0000) as u16);
    out.push((a / 0x100 % 0x1000) as u16);
    out.push((a % 0x100 * 0x10 + b / 0x1000_0000) as u16);
    out.push((b / 0x1_0000 % 0x1000) as u16);
    out.push((b / 0x10 % 0x1000) as u16);
    out.push((b % 0x10 * 0x100 + c / 0x100_0000) as u16);
    out.push((c / 0x1000 % 0x1000) as u16);
    out.push((c % 0x1000) as u16);
    assert(out@ =~= old(out)@ + group(a as int, b as int, c as int));
}

/// Unpacks samples of twelve bits. Words that make no whole group are left to
/// the caller.
pub fn unpack12(words: &[u32], out: &mut Vec<u16>)
    ensures
        final(out)@ == old(out)@ + unpacked(words@, (words@.len() / 3) as nat),
{
    let total: usize = words.len();
    let n: usize = total / 3;
    let ghost start = out@;
    let mut i: usize = 0;
    assert(out@ =~= start + unpacked(words@, 0));
    while i < n
        invariant
            i <= n,
            total == words@.len(),
            n == total / 3,
            out@ == start + unpacked(words@, i as nat),
        decreases n - i,
    {
        unpack_group(words[3 * i], words[3 * i + 1], words[3 * i + 2], out);
        i += 1;
        assert(out@ =~= start + unpacked(words@, i as nat));
    }
}

/// The same from bytes, the low byte of a word first.
pub fn unpack12_bytes(bytes: &[u8], out: &mut Vec<u16>)
    ensures
        final(out)@ == old(out)@ + unpacked_bytes(bytes@, (bytes@.len() / 12) as nat),
{
    let total: usize = bytes.len();
    let n: usize = total / 12;
    let ghost start = out@;
    let mut i: usize = 0;
    assert(out@ =~= start + unpacked_bytes(bytes@, 0));
    while i < n
        invariant
            i <= n,
            total == bytes@.len(),
            n == total / 12,
            out@ == start + unpacked_bytes(bytes@, i as nat),
        decreases n - i,
    {
        let a: u32 = word_at(bytes, 12 * i);
        let b: u32 = word_at(bytes, 12 * i + 4);
        let c: u32 = word_at(bytes, 12 * i + 8);
        unpack_group(a, b, c, out);
        i += 1;
        assert(out@ =~= start + unpacked_bytes(bytes@, i as nat));
    }
}

/// Words and their bytes unpack to the same samples.
pub proof fn law_words_and_bytes_agree(words: Seq<u32>, bytes: Seq<u8>, n: nat)
    requires
        words.len() >= 3 * n,
        bytes.len() >= 12 * n,
        forall|i: int| 0 <= i < 3 * n ==> #[trigger] words[i] == word(bytes, 4 * i),
    ensures
        unpacked(words, n) == unpacked_bytes(bytes, n),
    decreases n,
{
    if n > 0 {
        law_words_and_bytes_agree(words, bytes, (n - 1) as nat);
        let i = 3 * (n - 1);
        assert(words[i] == word(bytes, 4 * i));
        assert(words[i + 1] == word(bytes, 4 * (i + 1)));
        assert(words[i + 2] == word(bytes, 4 * (i + 2)));
    }
}

/// How many words of a packed buffer are of whole groups.
pub fn packed_whole_words(words: usize) -> (r: usize)
    ensures
        r == words / 3 * 3,
{
    words / 3 * 3
}

} // verus!
