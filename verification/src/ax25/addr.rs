//! AX.25 addresses: a callsign, an SSID, and four bits that mean different
//! things depending on where the address sits.
use crate::ax25::Ax25Error;
use crate::text;
use vstd::prelude::*;

verus! {

broadcast use vstd::seq::group_seq_axioms;

/// What an address holds.
pub struct AddrView {
    /// The callsign, with `-` and the SSID behind it where it was written so.
    pub call: Seq<char>,
    pub ssid: int,
    pub lowbit: bool,
    pub highbit: bool,
    pub rbit_ext: bool,
    pub rbit_dama: bool,
}

/// An AX.25 address: callsign, SSID, and the bits that ride with them.
#[derive(Debug, PartialEq, Eq, Hash, PartialOrd, Ord)]
pub struct Addr {
    pub(crate) t: String,
    /// 0..=15. Held rather than read out of `t` on every serialize.
    pub(crate) ssid: u8,
    pub(crate) rbit_ext: bool,
    // Most significant bit of the last byte.
    //
    // * On src/dst this is command/response.
    // * On repeater it's "has been repeated".
    pub(crate) highbit: bool,
    // The least significant bit on the last byte. Used to indicate more
    // repeaters are provided.
    pub(crate) lowbit: bool,
    pub(crate) rbit_dama: bool,
}

pub open spec fn alphanumeric(c: char) -> bool {
    ||| '0' <= c <= '9'
    ||| 'A' <= c <= 'Z'
    ||| 'a' <= c <= 'z'
}

/// Three to six letters and digits.
pub open spec fn base_ok(s: Seq<char>) -> bool {
    &&& 3 <= s.len() <= 6
    &&& forall|i: int| 0 <= i < s.len() ==> alphanumeric(#[trigger] s[i])
}

/// `0` to `9`, or `10` to `15`.
pub open spec fn tail_ok(s: Seq<char>) -> bool {
    ||| s.len() == 1 && text::is_digit(s[0])
    ||| s.len() == 2 && s[0] == '1' && '0' <= s[1] <= '5'
}

/// The characters in front of the first `-`.
pub open spec fn base_of(s: Seq<char>) -> Seq<char> {
    s.take(text::find(s, '-'))
}

/// The characters behind the first `-`.
pub open spec fn tail_of(s: Seq<char>) -> Seq<char> {
    s.skip(text::find(s, '-') + 1)
}

/// `CALL` or `CALL-SSID`.
pub open spec fn call_ok(s: Seq<char>) -> bool {
    &&& base_ok(base_of(s))
    &&& text::find(s, '-') < s.len() ==> tail_ok(tail_of(s))
}

/// The SSID that a valid callsign names: 0 where it names none.
pub open spec fn ssid_of(s: Seq<char>) -> int {
    if text::find(s, '-') >= s.len() {
        0
    } else if tail_of(s).len() == 1 {
        tail_of(s)[0] as int - 48
    } else {
        10 + tail_of(s)[1] as int - 48
    }
}

/// The callsign that an address with this base and this SSID reads back as.
pub open spec fn call_with(base: Seq<char>, ssid: int) -> Seq<char> {
    if ssid > 0 {
        base.push('-') + text::dec(ssid as nat)
    } else {
        base
    }
}

pub open spec fn bit(b: bool, weight: int) -> int {
    if b {
        weight
    } else {
        0
    }
}

/// The seven bytes of an address: six characters shifted left by one, padded
/// with spaces, and the byte of the SSID and the bits. The two reserved bits
/// are sent inverted.
pub open spec fn addr_wire(
    a: AddrView,
    lowbit: bool,
    highbit: bool,
    rbit_ext: bool,
    rbit_dama: bool,
) -> Seq<u8> {
    let n = base_of(a.call).len();
    Seq::new(
        7,
        |i: int|
            if i < n {
                (2 * (a.call[i] as int)) as u8
            } else if i < 6 {
                64u8
            } else {
                (2 * a.ssid + bit(lowbit, 1) + bit(!rbit_dama, 32) + bit(!rbit_ext, 64) + bit(
                    highbit,
                    128,
                )) as u8
            },
    )
}

/// What a station hears of an address that was sent with these bits.
pub open spec fn heard(
    a: AddrView,
    lowbit: bool,
    highbit: bool,
    rbit_ext: bool,
    rbit_dama: bool,
) -> AddrView {
    AddrView {
        call: call_with(text::uppers(base_of(a.call)), a.ssid),
        ssid: a.ssid,
        lowbit,
        highbit,
        rbit_ext,
        rbit_dama,
    }
}

/// White space, as far as seven bits reach.
pub open spec fn is_blank(c: char) -> bool {
    c == ' ' || '\t' <= c <= '\r'
}

/// `s` without the white space at its end.
pub open spec fn trim_end(s: Seq<char>) -> Seq<char>
    decreases s.len(),
{
    if s.len() > 0 && is_blank(s.last()) {
        trim_end(s.drop_last())
    } else {
        s
    }
}

/// The callsign that seven bytes of an address field spell.
pub open spec fn wire_call(b: Seq<u8>) -> Seq<char> {
    call_with(
        trim_end(Seq::new(6, |i: int| (b[i] as int / 2) as char)),
        (b[6] as int / 2) % 16,
    )
}

/// The address that seven bytes hold, whether or not its callsign is one.
pub open spec fn addr_of_wire(b: Seq<u8>) -> AddrView {
    let call = text::uppers(wire_call(b));
    AddrView {
        call,
        ssid: ssid_of(call),
        lowbit: b[6] as int % 2 == 1,
        highbit: b[6] >= 128,
        rbit_ext: (b[6] as int / 64) % 2 == 0,
        rbit_dama: (b[6] as int / 32) % 2 == 0,
    }
}

impl View for Addr {
    type V = AddrView;

    closed spec fn view(&self) -> AddrView {
        AddrView {
            call: self.t@,
            ssid: self.ssid as int,
            lowbit: self.lowbit,
            highbit: self.highbit,
            rbit_ext: self.rbit_ext,
            rbit_dama: self.rbit_dama,
        }
    }
}

impl AddrView {
    /// Every address holds a valid callsign and its SSID.
    pub open spec fn valid(self) -> bool {
        &&& call_ok(self.call)
        &&& self.ssid == ssid_of(self.call)
    }

    /// It is not written with a `-0`, which is not sent.
    pub open spec fn spells_no_zero(self) -> bool {
        self.ssid > 0 || text::find(self.call, '-') == self.call.len()
    }
}

impl Clone for Addr {
    fn clone(&self) -> (r: Self)
        ensures
            r@ == self@,
    {
        proof {
            use_type_invariant(self);
        }
        Addr {
            t: self.t.clone(),
            ssid: self.ssid,
            rbit_ext: self.rbit_ext,
            highbit: self.highbit,
            lowbit: self.lowbit,
            rbit_dama: self.rbit_dama,
        }
    }
}

impl Addr {
    /// Every address that exists is valid, and in upper case.
    #[verifier::type_invariant]
    pub open spec fn inv(self) -> bool {
        self@.valid() && text::no_lower(self@.call)
    }

    /// Create a new Addr from string. The extra bits are all clear.
    ///
    /// Accepts `CALL` or `CALL-SSID`, three to six alphanumerics and an SSID of
    /// 0..=15, in upper or lower case.
    pub fn new(s: &str) -> (r: Result<Self, Ax25Error>)
        ensures
            match r {
                Ok(a) => {
                    &&& call_ok(text::unicode_upper(s@))
                    &&& a@ == plain(text::unicode_upper(s@))
                    &&& a@.valid() && text::no_lower(a@.call)
                },
                Err(e) => !call_ok(text::unicode_upper(s@)) && (e matches Ax25Error::Callsign(c)
                    && c@ == text::unicode_upper(s@)),
            },
            vstd::utf8::is_ascii_chars(s@) ==> text::unicode_upper(s@) == text::uppers(s@),
    {
        Self::from_upper(text::to_uppercase(s))
    }

    /// An address from a callsign that is in upper case already.
    fn from_upper(s: String) -> (r: Result<Self, Ax25Error>)
        requires
            text::no_lower(s@),
        ensures
            match r {
                Ok(a) => call_ok(s@) && a@ == plain(s@),
                Err(e) => !call_ok(s@) && (e matches Ax25Error::Callsign(c) && c@ == s@),
            },
    {
        let v = text::chars_of(s.as_str());
        let k = text::find_char(v.as_slice(), '-');
        let mut ssid: u8 = 0;
        if k < v.len() {
            let n = v.len() - k - 1;
            assert(tail_of(s@).len() == n);
            if n == 1 {
                let c = v[k + 1];
                assert(tail_of(s@)[0] == c);
                if c < '0' || c > '9' {
                    return Err(Ax25Error::Callsign(s));
                }
                ssid = c as u8 - 48;
            } else if n == 2 {
                let c = v[k + 1];
                let d = v[k + 2];
                assert(tail_of(s@)[0] == c && tail_of(s@)[1] == d);
                if c != '1' || d < '0' || d > '5' {
                    return Err(Ax25Error::Callsign(s));
                }
                ssid = 10 + (d as u8 - 48);
            } else {
                return Err(Ax25Error::Callsign(s));
            }
        }
        if k < 3 || k > 6 {
            return Err(Ax25Error::Callsign(s));
        }
        let mut i: usize = 0;
        while i < k
            invariant
                i <= k <= v.len(),
                v@ == s@,
                3 <= k <= 6,
                k == text::find(s@, '-'),
                forall|j: int| 0 <= j < i ==> alphanumeric(#[trigger] s@[j]),
            decreases k - i,
        {
            let c = v[i];
            if !(('0' <= c && c <= '9') || ('A' <= c && c <= 'Z') || ('a' <= c && c <= 'z')) {
                assert(base_of(s@)[i as int] == c);
                return Err(Ax25Error::Callsign(s));
            }
            i += 1;
        }
        assert forall|j: int| 0 <= j < base_of(s@).len() implies alphanumeric(
            #[trigger] base_of(s@)[j],
        ) by {
            assert(base_of(s@)[j] == s@[j]);
        }
        Ok(
            Addr {
                t: s,
                ssid,
                rbit_ext: false,
                highbit: false,
                lowbit: false,
                rbit_dama: false,
            },
        )
    }

    /// The SSID, 0..=15.
    pub fn ssid(&self) -> (r: u8)
        ensures
            r == self@.ssid,
    {
        self.ssid
    }

    /// Set highbit.
    pub fn set_highbit(self, v: bool) -> (r: Self)
        ensures
            r@ == (AddrView { highbit: v, ..self@ }),
    {
        let mut a = self;
        proof {
            use_type_invariant(&a);
        }
        a.highbit = v;
        a
    }

    /// Set lowbit.
    pub fn set_lowbit(self, v: bool) -> (r: Self)
        ensures
            r@ == (AddrView { lowbit: v, ..self@ }),
    {
        let mut a = self;
        proof {
            use_type_invariant(&a);
        }
        a.lowbit = v;
        a
    }

    /// Create a new Addr from string and the extra bits.
    pub fn new_bits(
        s: &str,
        lowbit: bool,
        highbit: bool,
        rbit_ext: bool,
        rbit_dama: bool,
    ) -> (r: Result<Self, Ax25Error>)
        ensures
            match r {
                Ok(a) => {
                    &&& call_ok(text::unicode_upper(s@))
                    &&& a@ == (AddrView {
                        lowbit,
                        highbit,
                        rbit_ext,
                        rbit_dama,
                        ..plain(text::unicode_upper(s@))
                    })
                    &&& a@.valid() && text::no_lower(a@.call)
                },
                Err(e) => !call_ok(text::unicode_upper(s@)) && (e matches Ax25Error::Callsign(c)
                    && c@ == text::unicode_upper(s@)),
            },
            vstd::utf8::is_ascii_chars(s@) ==> text::unicode_upper(s@) == text::uppers(s@),
    {
        match Self::new(s) {
            Ok(plain) => {
                let mut a = plain;
                proof {
                    use_type_invariant(&a);
                }
                a.lowbit = lowbit;
                a.highbit = highbit;
                a.rbit_ext = rbit_ext;
                a.rbit_dama = rbit_dama;
                Ok(a)
            },
            Err(e) => Err(e),
        }
    }

    /// The high bit of the SSID byte.
    ///
    /// It means two different things depending on where the address sits. In
    /// the source and destination it is half of the command/response pair. In
    /// a *digipeater* address it is the "has been repeated" flag.
    pub fn highbit(&self) -> (r: bool)
        ensures
            r == self@.highbit,
    {
        self.highbit
    }

    pub(crate) fn lowbit(&self) -> (r: bool)
        ensures
            r == self@.lowbit,
    {
        self.lowbit
    }

    pub(crate) fn rbit_ext(&self) -> (r: bool)
        ensures
            r == self@.rbit_ext,
    {
        self.rbit_ext
    }

    /// Get just the callsign & SSID as a string, not the extra bits.
    pub fn call(&self) -> (r: &str)
        ensures
            r@ == self@.call,
    {
        self.t.as_str()
    }

    /// Parse the callsign and the extra bits from the packet format.
    pub fn parse(bytes: &[u8]) -> (r: Result<Self, Ax25Error>)
        ensures
            match r {
                Ok(a) => bytes@.len() == 7 && call_ok(text::uppers(wire_call(bytes@))) && a@
                    == addr_of_wire(bytes@),
                Err(Ax25Error::AddrLength(n)) => bytes@.len() != 7 && n == bytes@.len(),
                Err(Ax25Error::Callsign(c)) => bytes@.len() == 7 && !call_ok(
                    text::uppers(wire_call(bytes@)),
                ) && c@ == text::uppers(wire_call(bytes@)),
                Err(_) => false,
            },
    {
        if bytes.len() != 7 {
            return Err(Ax25Error::AddrLength(bytes.len()));
        }
        let mut call = wire_base(bytes);
        let last = bytes[6];
        let ssid: u8 = (last / 2) % 16;
        if ssid > 0 {
            call.push('-');
            text::push_dec(&mut call, ssid as u64);
        }
        proof {
            assert(call@ =~= wire_call(bytes@));
            lemma_wire_call_ascii(bytes@);
        }
        Self::new_bits(
            call.as_str(),
            last % 2 != 0,
            last >= 128,
            (last / 64) % 2 == 0,
            (last / 32) % 2 == 0,
        )
    }

    /// Serialize the callsign and SSID, plus explicit bits.
    pub fn serialize(
        &self,
        lowbit: bool,
        highbit: bool,
        rbit_ext: bool,
        rbit_dama: bool,
    ) -> (ret: Vec<u8>)
        ensures
            ret@ == addr_wire(self@, lowbit, highbit, rbit_ext, rbit_dama),
    {
        proof {
            use_type_invariant(self);
            lemma_ssid_range(self.t@);
        }
        let v = text::chars_of(self.t.as_str());
        let n = text::find_char(v.as_slice(), '-');
        let mut ret: Vec<u8> = Vec::new();
        let mut i: usize = 0;
        while i < 6
            invariant
                i <= 6,
                v@ == self.t@,
                n == text::find(v@, '-'),
                n <= v.len(),
                base_ok(base_of(v@)),
                ret@.len() == i,
                forall|j: int|
                    0 <= j < i ==> ret@[j] == (if j < n {
                        (2 * (v@[j] as int)) as u8
                    } else {
                        64u8
                    }),
            decreases 6 - i,
        {
            if i < n {
                let c = v[i];
                assert(base_of(v@)[i as int] == c);
                ret.push(2 * (c as u8));
            } else {
                ret.push(64);
            }
            i += 1;
        }
        let low: u8 = if lowbit { 1 } else { 0 };
        let dama: u8 = if rbit_dama { 0 } else { 32 };
        let ext: u8 = if rbit_ext { 0 } else { 64 };
        let high: u8 = if highbit { 128 } else { 0 };
        ret.push(2 * self.ssid + low + dama + ext + high);
        assert(ret@ =~= addr_wire(self@, lowbit, highbit, rbit_ext, rbit_dama));
        ret
    }
}

/// An address with this callsign and no bit set.
pub open spec fn plain(call: Seq<char>) -> AddrView {
    AddrView {
        call,
        ssid: ssid_of(call),
        lowbit: false,
        highbit: false,
        rbit_ext: false,
        rbit_dama: false,
    }
}

/// The first six characters of an address field, without the padding.
fn wire_base(bytes: &[u8]) -> (s: String)
    requires
        bytes@.len() == 7,
    ensures
        s@ == trim_end(Seq::new(6, |i: int| (bytes@[i] as int / 2) as char)),
{
    let ghost full = Seq::new(6, |i: int| (bytes@[i] as int / 2) as char);
    let mut n: usize = 6;
    assert(full.take(6) =~= full);
    while n > 0 && (bytes[n - 1] / 2 == 32 || (9 <= bytes[n - 1] / 2 && bytes[n - 1] / 2 <= 13))
        invariant
            n <= 6,
            bytes@.len() == 7,
            full == Seq::new(6, |i: int| (bytes@[i] as int / 2) as char),
            trim_end(full.take(n as int)) == trim_end(full),
        decreases n,
    {
        assert(full.take(n as int).drop_last() =~= full.take(n - 1));
        n -= 1;
    }
    let mut s = String::new();
    let mut i: usize = 0;
    while i < n
        invariant
            i <= n <= 6,
            bytes@.len() == 7,
            full == Seq::new(6, |i: int| (bytes@[i] as int / 2) as char),
            s@ == full.take(i as int),
        decreases n - i,
    {
        s.push((bytes[i] / 2) as char);
        i += 1;
        assert(full.take(i as int) =~= full.take(i - 1).push(full[i - 1]));
    }
    s
}

proof fn lemma_trim_end_prefix(s: Seq<char>)
    ensures
        trim_end(s).len() <= s.len(),
        trim_end(s) == s.take(trim_end(s).len() as int),
    decreases s.len(),
{
    if s.len() > 0 && is_blank(s.last()) {
        lemma_trim_end_prefix(s.drop_last());
        assert(s.drop_last().take(trim_end(s).len() as int) =~= s.take(trim_end(s).len() as int));
    } else {
        assert(s.take(s.len() as int) =~= s);
    }
}

proof fn lemma_wire_call_ascii(b: Seq<u8>)
    ensures
        vstd::utf8::is_ascii_chars(wire_call(b)),
{
    let full = Seq::new(6, |i: int| (b[i] as int / 2) as char);
    lemma_trim_end_prefix(full);
    reveal_with_fuel(text::dec, 3);
}

proof fn lemma_trim_end_padding(base: Seq<char>, s: Seq<char>)
    requires
        base.len() > 0,
        !is_blank(base.last()),
        s.len() >= base.len(),
        s.take(base.len() as int) == base,
        forall|i: int| base.len() <= i < s.len() ==> s[i] == ' ',
    ensures
        trim_end(s) == base,
    decreases s.len(),
{
    if s.len() > base.len() {
        assert(s.drop_last().take(base.len() as int) =~= s.take(base.len() as int));
        lemma_trim_end_padding(base, s.drop_last());
    } else {
        assert(s =~= base);
        assert(s.last() == base.last());
    }
}

proof fn lemma_call_with(base: Seq<char>, ssid: int)
    requires
        base_ok(base),
        0 <= ssid <= 15,
    ensures
        call_ok(call_with(base, ssid)),
        base_of(call_with(base, ssid)) == base,
        ssid_of(call_with(base, ssid)) == ssid,
        text::uppers(call_with(base, ssid)) == call_with(text::uppers(base), ssid),
        base_ok(text::uppers(base)),
{
    reveal_with_fuel(text::dec, 3);
    let call = call_with(base, ssid);
    text::lemma_find_from(call, '-', 0, base.len() as int);
    assert(base_of(call) =~= base);
    assert(text::uppers(call) =~= call_with(text::uppers(base), ssid));
    assert forall|i: int| 0 <= i < base.len() implies alphanumeric(
        #[trigger] text::uppers(base)[i],
    ) by {
        assert(alphanumeric(base[i]));
    }
    if ssid > 0 {
        assert(tail_of(call) =~= text::dec(ssid as nat));
    }
}

/// An address reads back from its seven bytes as itself: the same callsign in
/// upper case, the same SSID, and the bits it was sent with. An SSID of zero
/// that was spelled out is not spelled out any more.
pub proof fn law_address_round_trip(
    a: AddrView,
    lowbit: bool,
    highbit: bool,
    rbit_ext: bool,
    rbit_dama: bool,
)
    requires
        a.valid(),
    ensures
        ({
            let w = addr_wire(a, lowbit, highbit, rbit_ext, rbit_dama);
            &&& call_ok(text::uppers(wire_call(w)))
            &&& addr_of_wire(w) == heard(a, lowbit, highbit, rbit_ext, rbit_dama)
        }),
{
    lemma_ssid_range(a.call);
    text::lemma_find_bounds(a.call, '-', 0);
    let w = addr_wire(a, lowbit, highbit, rbit_ext, rbit_dama);
    let base = base_of(a.call);
    let full = Seq::new(6, |i: int| (w[i] as int / 2) as char);
    assert forall|i: int| 0 <= i < base.len() implies full[i] == base[i] by {
        assert(alphanumeric(base[i]));
    }
    assert(full.take(base.len() as int) =~= base);
    assert(alphanumeric(base[base.len() - 1]));
    lemma_trim_end_padding(base, full);
    assert((w[6] as int / 2) % 16 == a.ssid);
    lemma_call_with(base, a.ssid);
    lemma_call_with(text::uppers(base), a.ssid);
}

/// An address in upper case that spells no SSID of zero reads back exactly as it
/// was, with the bits it was sent with.
pub proof fn law_callsign_round_trip(
    a: AddrView,
    lowbit: bool,
    highbit: bool,
    rbit_ext: bool,
    rbit_dama: bool,
)
    requires
        a.valid(),
        text::no_lower(a.call),
        a.spells_no_zero(),
    ensures
        heard(a, lowbit, highbit, rbit_ext, rbit_dama) == (AddrView {
            lowbit,
            highbit,
            rbit_ext,
            rbit_dama,
            ..a
        }),
        addr_of_wire(addr_wire(a, lowbit, highbit, rbit_ext, rbit_dama)) == (AddrView {
            lowbit,
            highbit,
            rbit_ext,
            rbit_dama,
            ..a
        }),
{
    law_address_round_trip(a, lowbit, highbit, rbit_ext, rbit_dama);
    text::lemma_find_bounds(a.call, '-', 0);
    lemma_ssid_range(a.call);
    reveal_with_fuel(text::dec, 3);
    let base = base_of(a.call);
    assert forall|i: int| 0 <= i < base.len() implies text::upper(base[i]) == base[i] by {
        assert(base[i] == a.call[i]);
    }
    assert(text::uppers(base) =~= base);
    if a.ssid > 0 {
        let t = tail_of(a.call);
        assert(a.call =~= base.push('-') + t);
        assert(t =~= text::dec(a.ssid as nat));
    } else {
        assert(base =~= a.call);
    }
}

/// An address that was read is valid, and in upper case.
pub proof fn lemma_read_address(w: Seq<u8>)
    requires
        call_ok(addr_of_wire(w).call),
    ensures
        addr_of_wire(w).valid(),
        text::no_lower(addr_of_wire(w).call),
{
}

/// An address that was read spells no SSID of zero where no character of its
/// callsign is a dash.
pub proof fn lemma_without_a_dash(w: Seq<u8>)
    requires
        call_ok(addr_of_wire(w).call),
        forall|i: int| 0 <= i < 6 ==> #[trigger] w[i] as int / 2 != 45,
    ensures
        addr_of_wire(w).spells_no_zero(),
{
    let full = Seq::new(6, |i: int| (w[i] as int / 2) as char);
    let base = trim_end(full);
    let ssid = (w[6] as int / 2) % 16;
    let call = addr_of_wire(w).call;
    lemma_trim_end_prefix(full);
    reveal_with_fuel(text::dec, 3);
    assert forall|i: int| 0 <= i < base.len() implies call[i] != '-' by {
        assert(base[i] == full[i]);
        assert(w[i] as int / 2 != 45);
    }
    text::lemma_find_from(call, '-', 0, base.len() as int);
    if ssid > 0 {
        assert(tail_of(call) =~= text::dec(ssid as nat));
    }
}

/// An SSID is 0..=15.
pub proof fn lemma_ssid_range(call: Seq<char>)
    requires
        call_ok(call),
    ensures
        0 <= ssid_of(call) <= 15,
{
    text::lemma_find_bounds(call, '-', 0);
}

} // verus!
