//! What the formats share: which characters a field may hold, fields of a fixed
//! width, and bytes as text.
use crate::text;
use vstd::prelude::*;

verus! {

broadcast use vstd::seq::group_seq_axioms;

/// The characters that a field may hold.
#[derive(Debug, Clone, Copy, PartialEq, Eq, Structural)]
pub enum Class {
    /// Any but the line ends and the zero.
    Printable,
    /// ASCII that shows, and the space.
    Name,
    /// ASCII that shows.
    Graphic,
    /// ASCII letters and digits.
    Alnum,
    /// What may stand in a comment: no `|` and no `~`, which switch the streams
    /// of some controllers.
    Comment,
    /// What may stand in a message: no `{` either, which would look like the
    /// start of an identifier.
    Text,
}

pub open spec fn graphic(c: char) -> bool {
    '!' <= c <= '~'
}

pub open spec fn alnum(c: char) -> bool {
    ||| '0' <= c <= '9'
    ||| 'A' <= c <= 'Z'
    ||| 'a' <= c <= 'z'
}

impl Class {
    pub open spec fn has(self, c: char) -> bool {
        match self {
            Class::Printable => c != '\r' && c != '\n' && c != '\0',
            Class::Name => graphic(c) || c == ' ',
            Class::Graphic => graphic(c),
            Class::Alnum => alnum(c),
            Class::Comment => (graphic(c) && c != '|' && c != '~') || c == ' ',
            Class::Text => (graphic(c) || c == ' ') && c != '{' && c != '|' && c != '~',
        }
    }

    pub fn holds(self, c: char) -> (r: bool)
        ensures
            r == self.has(c),
    {
        let shows: bool = '!' <= c && c <= '~';
        match self {
            Class::Printable => c != '\r' && c != '\n' && c != '\0',
            Class::Name => shows || c == ' ',
            Class::Graphic => shows,
            Class::Alnum => ('0' <= c && c <= '9') || ('A' <= c && c <= 'Z') || ('a' <= c && c
                <= 'z'),
            Class::Comment => (shows && c != '|' && c != '~') || c == ' ',
            Class::Text => (shows || c == ' ') && c != '{' && c != '|' && c != '~',
        }
    }
}

/// The characters of a class, in order.
pub open spec fn keep(s: Seq<char>, class: Class) -> Seq<char>
    decreases s.len(),
{
    if s.len() == 0 {
        s
    } else {
        let front = keep(s.drop_last(), class);
        if class.has(s.last()) {
            front.push(s.last())
        } else {
            front
        }
    }
}

/// The first `n`, or all where there are fewer.
pub open spec fn first(s: Seq<char>, n: int) -> Seq<char> {
    if s.len() <= n {
        s
    } else {
        s.take(n)
    }
}

/// A field padded with spaces to a width.
pub open spec fn padded(s: Seq<char>, n: int) -> Seq<char> {
    if s.len() >= n {
        s
    } else {
        s + Seq::new((n - s.len()) as nat, |i: int| ' ')
    }
}

/// Bytes as text for display: whatever they are, without line ends and zeroes.
pub open spec fn shown(b: Seq<u8>) -> Seq<char> {
    keep(text::lossy(b), Class::Printable)
}

pub proof fn lemma_keep_all(s: Seq<char>, class: Class)
    requires
        forall|i: int| 0 <= i < s.len() ==> class.has(#[trigger] s[i]),
    ensures
        keep(s, class) == s,
    decreases s.len(),
{
    if s.len() > 0 {
        assert forall|i: int| 0 <= i < s.drop_last().len() implies class.has(
            #[trigger] s.drop_last()[i],
        ) by {
            assert(class.has(s[i]));
        }
        lemma_keep_all(s.drop_last(), class);
        assert(class.has(s[s.len() - 1]));
        assert(s.drop_last().push(s.last()) =~= s);
    }
}

pub proof fn lemma_keep_holds(s: Seq<char>, class: Class)
    ensures
        forall|i: int| 0 <= i < keep(s, class).len() ==> class.has(#[trigger] keep(s, class)[i]),
        keep(s, class).len() <= s.len(),
    decreases s.len(),
{
    if s.len() > 0 {
        lemma_keep_holds(s.drop_last(), class);
        let front = keep(s.drop_last(), class);
        assert forall|i: int| 0 <= i < keep(s, class).len() implies class.has(
            #[trigger] keep(s, class)[i],
        ) by {
            if i < front.len() {
                assert(class.has(front[i]));
            }
        }
    }
}

/// ASCII characters as bytes.
pub open spec fn bytes_of(s: Seq<char>) -> Seq<u8> {
    Seq::new(s.len(), |i: int| s[i] as u8)
}

pub open spec fn ascii_only(s: Seq<char>) -> bool {
    forall|i: int| 0 <= i < s.len() ==> 0 <= (#[trigger] s[i]) as int <= 0x7f
}

/// ASCII characters are encoded one byte each.
pub proof fn lemma_ascii_bytes(s: Seq<char>)
    requires
        ascii_only(s),
    ensures
        vstd::utf8::encode_utf8(s) == bytes_of(s),
        text::ascii(bytes_of(s)) == s,
        text::all_ascii(bytes_of(s)),
{
    let bytes = bytes_of(s);
    assert forall|i: int| 0 <= i < bytes.len() implies #[trigger] bytes[i] < 128 by {
        assert(0 <= s[i] as int <= 0x7f);
    }
    text::lemma_ascii_reads_as_it_is(bytes);
    assert forall|i: int| 0 <= i < s.len() implies text::ascii(bytes)[i] == s[i] by {
        assert(0 <= s[i] as int <= 0x7f);
    }
    assert(text::ascii(bytes) =~= s);
}

/// ASCII that shows reads back from its bytes.
pub proof fn lemma_shown(s: Seq<char>)
    requires
        forall|i: int| 0 <= i < s.len() ==> Class::Name.has(#[trigger] s[i]),
    ensures
        shown(bytes_of(s)) == s,
        ascii_only(s),
{
    assert forall|i: int| 0 <= i < s.len() implies 0 <= (#[trigger] s[i]) as int <= 0x7f by {
        assert(Class::Name.has(s[i]));
    }
    lemma_ascii_bytes(s);
    text::lemma_ascii_reads_as_it_is(bytes_of(s));
    assert forall|i: int| 0 <= i < s.len() implies Class::Printable.has(#[trigger] s[i]) by {
        assert(Class::Name.has(s[i]));
    }
    lemma_keep_all(s, Class::Printable);
}

/// Text that is shown holds no line end and no zero.
pub proof fn law_shown_text_is_one_line(b: Seq<u8>, i: int)
    requires
        0 <= i < shown(b).len(),
    ensures
        shown(b)[i] != '\n',
        shown(b)[i] != '\r',
        shown(b)[i] != '\0',
{
    lemma_keep_holds(text::lossy(b), Class::Printable);
    assert(Class::Printable.has(shown(b)[i]));
}

/// The characters of a class, in order.
pub fn keep_chars(v: &[char], class: Class) -> (r: Vec<char>)
    ensures
        r@ == keep(v@, class),
{
    let mut out: Vec<char> = Vec::new();
    let mut i: usize = 0;
    assert(v@.take(0) =~= Seq::empty());
    while i < v.len()
        invariant
            i <= v@.len(),
            out@ == keep(v@.take(i as int), class),
        decreases v@.len() - i,
    {
        if class.holds(v[i]) {
            out.push(v[i]);
        }
        i += 1;
        assert(v@.take(i as int).drop_last() =~= v@.take(i - 1));
    }
    assert(v@.take(v@.len() as int) =~= v@);
    out
}

/// The first `n`, or all where there are fewer.
pub fn first_chars(v: &Vec<char>, n: usize) -> (r: Vec<char>)
    ensures
        r@ == first(v@, n as int),
{
    let end: usize = if v.len() <= n { v.len() } else { n };
    let r: Vec<char> = text::copy_chars(v.as_slice(), 0, end);
    assert(r@ =~= first(v@, n as int));
    r
}

/// A field padded with spaces to a width.
pub fn pad(v: &Vec<char>, n: usize) -> (r: Vec<char>)
    ensures
        r@ == padded(v@, n as int),
{
    let mut r: Vec<char> = text::copy_chars(v.as_slice(), 0, v.len());
    assert(r@ =~= v@);
    while r.len() < n
        invariant
            r@.len() >= v@.len(),
            r@.len() <= n || r@ == v@,
            r@ =~= v@ + Seq::new((r@.len() - v@.len()) as nat, |i: int| ' '),
        decreases n - r.len(),
    {
        r.push(' ');
    }
    assert(r@ =~= padded(v@, n as int));
    r
}

/// Bytes as text for display. Lossy on purpose: a comment carries whatever the
/// sending station's character set was, and one mangled sign is no reason to
/// lose a position.
pub fn printable(b: &[u8]) -> (r: Vec<char>)
    ensures
        r@ == shown(b@),
{
    let c: Vec<char> = text::lossy_chars(b);
    keep_chars(c.as_slice(), Class::Printable)
}

} // verus!
