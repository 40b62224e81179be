//! Characters, decimal numbers and strings, with the models the protocol
//! modules state their contracts over.
use vstd::prelude::*;

verus! {

broadcast use vstd::seq::group_seq_axioms;

/// `String::push` puts the character behind the string.
pub assume_specification[ String::push ](s: &mut String, c: char)
    ensures
        final(s)@ == old(s)@.push(c),
;

/// `String::into_bytes` gives the UTF-8 bytes of the string.
pub assume_specification[ String::into_bytes ](s: String) -> (v: Vec<u8>)
    ensures
        v@ == vstd::utf8::encode_utf8(s@),
;

pub open spec fn is_digit(c: char) -> bool {
    '0' <= c <= '9'
}

/// An ASCII letter in upper case; every other character as it is.
pub open spec fn upper(c: char) -> char {
    if 'a' <= c <= 'z' {
        (c as u32 - 32) as char
    } else {
        c
    }
}

pub open spec fn uppers(s: Seq<char>) -> Seq<char> {
    Seq::new(s.len(), |i: int| upper(s[i]))
}

/// None of the letters `a` to `z` is there.
pub open spec fn no_lower(s: Seq<char>) -> bool {
    forall|i: int| 0 <= i < s.len() ==> !('a' <= #[trigger] s[i] <= 'z')
}

/// The decimal digit `d`, `0 <= d <= 9`, as a character.
pub open spec fn digit(d: int) -> char {
    (48 + d) as char
}

/// The decimal notation of `n`, without leading zeroes.
pub open spec fn dec(n: nat) -> Seq<char>
    decreases n,
{
    if n < 10 {
        seq![digit(n as int)]
    } else {
        dec(n / 10).push(digit((n % 10) as int))
    }
}

/// The characters of a string.
pub fn chars_of(s: &str) -> (v: Vec<char>)
    ensures
        v@ == s@,
{
    let mut v: Vec<char> = Vec::new();
    for c in it: s.chars()
        invariant
            it.seq() == s@,
            v@ == s@.take(it.index() as int),
    {
        v.push(c);
        assert(s@.take(it.index() as int + 1) =~= s@.take(it.index() as int).push(c));
    }
    assert(s@.take(s@.len() as int) =~= s@);
    v
}

/// The string of some characters.
pub fn string_of(v: &[char]) -> (s: String)
    ensures
        s@ == v@,
{
    let mut s = String::new();
    let mut i: usize = 0;
    while i < v.len()
        invariant
            i <= v.len(),
            s@ == v@.take(i as int),
        decreases v.len() - i,
    {
        s.push(v[i]);
        i += 1;
        assert(v@.take(i as int) =~= v@.take(i - 1).push(v@[i - 1]));
    }
    assert(v@.take(v@.len() as int) =~= v@);
    s
}

/// Whether two strings hold the same characters.
pub fn same(a: &str, b: &str) -> (r: bool)
    ensures
        r == (a@ == b@),
{
    let x = chars_of(a);
    let y = chars_of(b);
    same_chars(x.as_slice(), y.as_slice())
}

pub fn same_chars(x: &[char], y: &[char]) -> (r: bool)
    ensures
        r == (x@ == y@),
{
    if x.len() != y.len() {
        return false;
    }
    let mut i: usize = 0;
    while i < x.len()
        invariant
            i <= x.len(),
            x.len() == y.len(),
            forall|j: int| 0 <= j < i ==> x@[j] == y@[j],
        decreases x.len() - i,
    {
        if x[i] != y[i] {
            return false;
        }
        i += 1;
    }
    assert(x@ =~= y@);
    true
}

/// Whether two byte strings are equal.
pub fn same_bytes(x: &[u8], y: &[u8]) -> (r: bool)
    ensures
        r == (x@ == y@),
{
    if x.len() != y.len() {
        return false;
    }
    let mut i: usize = 0;
    while i < x.len()
        invariant
            i <= x.len(),
            x.len() == y.len(),
            forall|j: int| 0 <= j < i ==> x@[j] == y@[j],
        decreases x.len() - i,
    {
        if x[i] != y[i] {
            return false;
        }
        i += 1;
    }
    assert(x@ =~= y@);
    true
}

/// The bytes from `from` up to `to`, as a vector of their own.
pub fn copy_bytes(v: &[u8], from: usize, to: usize) -> (r: Vec<u8>)
    requires
        from <= to <= v.len(),
    ensures
        r@ == v@.subrange(from as int, to as int),
{
    let mut r: Vec<u8> = Vec::new();
    let mut i: usize = from;
    while i < to
        invariant
            from <= i <= to <= v.len(),
            r@ == v@.subrange(from as int, i as int),
        decreases to - i,
    {
        r.push(v[i]);
        i += 1;
        assert(v@.subrange(from as int, i as int) =~= v@.subrange(from as int, i - 1).push(
            v@[i - 1],
        ));
    }
    r
}

/// The characters from `from` up to `to`, as a vector of their own.
pub fn copy_chars(v: &[char], from: usize, to: usize) -> (r: Vec<char>)
    requires
        from <= to <= v.len(),
    ensures
        r@ == v@.subrange(from as int, to as int),
{
    let mut r: Vec<char> = Vec::new();
    let mut i: usize = from;
    while i < to
        invariant
            from <= i <= to <= v.len(),
            r@ == v@.subrange(from as int, i as int),
        decreases to - i,
    {
        r.push(v[i]);
        i += 1;
        assert(v@.subrange(from as int, i as int) =~= v@.subrange(from as int, i - 1).push(
            v@[i - 1],
        ));
    }
    r
}

/// The first place at or behind `from` where `x` stands, or the length.
pub open spec fn find_from<T>(s: Seq<T>, x: T, from: int) -> int
    decreases s.len() - from,
{
    if from >= s.len() || from < 0 {
        s.len() as int
    } else if s[from] == x {
        from
    } else {
        find_from(s, x, from + 1)
    }
}

/// Where `x` first stands in `s`, or the length of `s`.
pub open spec fn find<T>(s: Seq<T>, x: T) -> int {
    find_from(s, x, 0)
}

pub proof fn lemma_find_from<T>(s: Seq<T>, x: T, from: int, k: int)
    requires
        0 <= from <= k <= s.len(),
        forall|j: int| from <= j < k ==> s[j] != x,
        k < s.len() ==> s[k] == x,
    ensures
        find_from(s, x, from) == k,
    decreases k - from,
{
    if from < k {
        lemma_find_from(s, x, from + 1, k);
    }
}

pub proof fn lemma_find_bounds<T>(s: Seq<T>, x: T, from: int)
    requires
        0 <= from <= s.len(),
    ensures
        from <= find_from(s, x, from) <= s.len(),
        find_from(s, x, from) < s.len() ==> s[find_from(s, x, from)] == x,
        forall|j: int| from <= j < find_from(s, x, from) ==> s[j] != x,
    decreases s.len() - from,
{
    if from < s.len() && s[from] != x {
        lemma_find_bounds(s, x, from + 1);
    }
}

pub fn find_char(v: &[char], c: char) -> (k: usize)
    ensures
        k == find(v@, c),
        k <= v.len(),
        k < v.len() ==> v@[k as int] == c,
        forall|j: int| 0 <= j < k ==> v@[j] != c,
{
    let mut k: usize = 0;
    while k < v.len() && v[k] != c
        invariant
            k <= v.len(),
            forall|j: int| 0 <= j < k ==> v@[j] != c,
        decreases v.len() - k,
    {
        k += 1;
    }
    proof {
        lemma_find_from(v@, c, 0, k as int);
    }
    k
}

/// White space, by the Unicode property `White_Space`.
pub open spec fn is_white(c: char) -> bool {
    let u = c as u32;
    ||| 0x9 <= u <= 0xD
    ||| u == 0x20
    ||| u == 0x85
    ||| u == 0xA0
    ||| u == 0x1680
    ||| 0x2000 <= u <= 0x200A
    ||| u == 0x2028
    ||| u == 0x2029
    ||| u == 0x202F
    ||| u == 0x205F
    ||| u == 0x3000
}

/// `s` without the white space at its end.
pub open spec fn trim_back(s: Seq<char>) -> Seq<char>
    decreases s.len(),
{
    if s.len() > 0 && is_white(s.last()) {
        trim_back(s.drop_last())
    } else {
        s
    }
}

/// `s` without the white space at its start.
pub open spec fn trim_front(s: Seq<char>) -> Seq<char>
    decreases s.len(),
{
    if s.len() > 0 && is_white(s.first()) {
        trim_front(s.drop_first())
    } else {
        s
    }
}

/// `s` without the white space at its two ends.
pub open spec fn trim(s: Seq<char>) -> Seq<char> {
    trim_back(trim_front(s))
}

/// A trimmed text neither starts nor ends with white space.
pub proof fn lemma_trim_ends(s: Seq<char>)
    ensures
        trim(s).len() > 0 ==> !is_white(trim(s).first()) && !is_white(trim(s).last()),
{
    lemma_trim_front_ends(s);
    lemma_trim_back_ends(trim_front(s));
}

proof fn lemma_trim_front_ends(s: Seq<char>)
    ensures
        trim_front(s).len() > 0 ==> !is_white(trim_front(s).first()),
        forall|c: char| trim_front(s).contains(c) ==> s.contains(c),
    decreases s.len(),
{
    if s.len() > 0 && is_white(s.first()) {
        lemma_trim_front_ends(s.drop_first());
        assert forall|c: char| trim_front(s).contains(c) implies s.contains(c) by {
            assert(s.drop_first().contains(c));
            let k = choose|k: int| 0 <= k < s.drop_first().len() && s.drop_first()[k] == c;
            assert(s[k + 1] == c);
        }
    }
}

proof fn lemma_trim_back_ends(s: Seq<char>)
    ensures
        trim_back(s).len() > 0 ==> !is_white(trim_back(s).last()) && trim_back(s).first()
            == s.first(),
        forall|c: char| trim_back(s).contains(c) ==> s.contains(c),
    decreases s.len(),
{
    if s.len() > 0 && is_white(s.last()) {
        lemma_trim_back_ends(s.drop_last());
        assert forall|c: char| trim_back(s).contains(c) implies s.contains(c) by {
            assert(s.drop_last().contains(c));
            let k = choose|k: int| 0 <= k < s.drop_last().len() && s.drop_last()[k] == c;
            assert(s[k] == c);
        }
    }
}

/// Trimming brings no character in.
pub proof fn lemma_trim_keeps(s: Seq<char>)
    ensures
        forall|c: char| trim(s).contains(c) ==> s.contains(c),
{
    lemma_trim_front_ends(s);
    lemma_trim_back_ends(trim_front(s));
}

pub fn white(c: char) -> (r: bool)
    ensures
        r == is_white(c),
{
    let u = c as u32;
    (0x9 <= u && u <= 0xD) || u == 0x20 || u == 0x85 || u == 0xA0 || u == 0x1680 || (0x2000 <= u
        && u <= 0x200A) || u == 0x2028 || u == 0x2029 || u == 0x202F || u == 0x205F || u == 0x3000
}

/// The characters between the white space at the two ends.
pub fn trim_chars(v: &[char]) -> (r: Vec<char>)
    ensures
        r@ == trim(v@),
{
    let mut a: usize = 0;
    assert(v@.skip(0) =~= v@);
    while a < v.len() && white(v[a])
        invariant
            a <= v.len(),
            trim_front(v@.skip(a as int)) == trim_front(v@),
        decreases v.len() - a,
    {
        assert(v@.skip(a as int).drop_first() =~= v@.skip(a + 1));
        a += 1;
    }
    let ghost front = v@.skip(a as int);
    assert(trim_front(front) == front);
    let mut b: usize = v.len();
    assert(front =~= v@.subrange(a as int, b as int));
    while b > a && white(v[b - 1])
        invariant
            a <= b <= v.len(),
            trim_back(v@.subrange(a as int, b as int)) == trim(v@),
        decreases b - a,
    {
        assert(v@.subrange(a as int, b as int).drop_last() =~= v@.subrange(a as int, b - 1));
        b -= 1;
    }
    copy_chars(v, a, b)
}

/// A string without the white space at its two ends.
pub fn trimmed(s: &str) -> (r: String)
    ensures
        r@ == trim(s@),
{
    string_of(trim_chars(chars_of(s).as_slice()).as_slice())
}

/// Where `pat` first stands in `s` at or behind `from`, if it does.
pub open spec fn find_seq<T>(s: Seq<T>, pat: Seq<T>, from: int) -> Option<int>
    decreases s.len() + 1 - from,
{
    if from < 0 || from + pat.len() > s.len() {
        None
    } else if s.subrange(from, from + pat.len()) == pat {
        Some(from)
    } else {
        find_seq(s, pat, from + 1)
    }
}

/// Where `pat` first stands in `v` at or behind `from`, if it does.
pub fn find_chars(v: &[char], pat: &[char], from: usize) -> (r: Option<usize>)
    requires
        from <= v@.len(),
    ensures
        match find_seq(v@, pat@, from as int) {
            Some(i) => r matches Some(k) && k == i && from <= i && i + pat@.len() <= v@.len(),
            None => r is None,
        },
{
    let mut i = from;
    while i <= v.len() && pat.len() <= v.len() - i
        invariant
            from <= i <= v@.len() + 1,
            find_seq(v@, pat@, from as int) == find_seq(v@, pat@, i as int),
        decreases v@.len() + 1 - i,
    {
        let piece = copy_chars(v, i, i + pat.len());
        if same_chars(piece.as_slice(), pat) {
            return Some(i);
        }
        if i == v.len() {
            assert(find_seq(v@, pat@, i + 1) is None);
            return None;
        }
        i += 1;
    }
    None
}

/// Where `pat` first stands in `v`, if it does.
pub fn find_bytes(v: &[u8], pat: &[u8]) -> (r: Option<usize>)
    ensures
        match find_seq(v@, pat@, 0) {
            Some(i) => r matches Some(k) && k == i && 0 <= i && i + pat@.len() <= v@.len(),
            None => r is None,
        },
{
    let mut i: usize = 0;
    while i <= v.len() && pat.len() <= v.len() - i
        invariant
            i <= v@.len() + 1,
            find_seq(v@, pat@, 0) == find_seq(v@, pat@, i as int),
        decreases v@.len() + 1 - i,
    {
        let piece = copy_bytes(v, i, i + pat.len());
        if same_bytes(piece.as_slice(), pat) {
            return Some(i);
        }
        if i == v.len() {
            assert(find_seq(v@, pat@, i + 1) is None);
            return None;
        }
        i += 1;
    }
    None
}

/// Whether `s` starts with `pat`.
pub open spec fn has_prefix(s: Seq<char>, pat: Seq<char>) -> bool {
    s.len() >= pat.len() && s.take(pat.len() as int) == pat
}

pub fn starts_with(v: &[char], pat: &str) -> (r: bool)
    ensures
        r == has_prefix(v@, pat@),
{
    let p = chars_of(pat);
    if v.len() < p.len() {
        return false;
    }
    let piece = copy_chars(v, 0, p.len());
    assert(piece@ =~= v@.take(p@.len() as int));
    same_chars(piece.as_slice(), p.as_slice())
}

/// The characters with their ASCII letters in upper case.
pub fn upper_chars(v: &[char]) -> (r: Vec<char>)
    ensures
        r@ == uppers(v@),
{
    let mut r: Vec<char> = Vec::new();
    let mut i: usize = 0;
    while i < v.len()
        invariant
            i <= v.len(),
            r@ == uppers(v@.take(i as int)),
        decreases v.len() - i,
    {
        r.push(to_upper_ascii(v[i]));
        i += 1;
        assert(r@ =~= uppers(v@.take(i as int)));
    }
    assert(v@.take(v@.len() as int) =~= v@);
    r
}

/// ASCII bytes as characters.
pub open spec fn ascii(b: Seq<u8>) -> Seq<char> {
    Seq::new(b.len(), |i: int| b[i] as char)
}

pub open spec fn all_ascii(b: Seq<u8>) -> bool {
    forall|i: int| 0 <= i < b.len() ==> #[trigger] b[i] < 128
}

/// Bytes as text, whatever they are: as they decode where they are UTF-8.
pub open spec fn lossy(b: Seq<u8>) -> Seq<char> {
    if vstd::utf8::valid_utf8(b) {
        vstd::utf8::decode_utf8(b)
    } else {
        utf8_lossy(b)
    }
}

/// ASCII bytes read as the characters that they are.
pub proof fn lemma_ascii_reads_as_it_is(b: Seq<u8>)
    requires
        all_ascii(b),
    ensures
        vstd::utf8::valid_utf8(b),
        lossy(b) == ascii(b),
        vstd::utf8::encode_utf8(ascii(b)) == b,
{
    let c = ascii(b);
    assert forall|i: int| 0 <= i < c.len() implies (#[trigger] c[i]) as u32 <= 127 by {
        assert(b[i] < 128);
    }
    assert(vstd::utf8::is_ascii_chars(c));
    vstd::utf8::is_ascii_chars_encode_utf8(c);
    assert(vstd::utf8::encode_utf8(c) =~= b);
    vstd::utf8::encode_utf8_valid_utf8(c);
    vstd::utf8::encode_utf8_decode_utf8(c);
}

/// The characters of some bytes, whatever they are.
pub fn lossy_chars(b: &[u8]) -> (r: Vec<char>)
    ensures
        r@ == lossy(b@),
{
    chars_of(from_utf8_lossy(b).as_str())
}

/// How many bytes of UTF-8 a character takes.
pub open spec fn width(c: char) -> nat {
    let u = c as u32;
    if u < 0x80 {
        1
    } else if u < 0x800 {
        2
    } else if u < 0x1_0000 {
        3
    } else {
        4
    }
}

/// How many bytes of UTF-8 some characters take.
pub open spec fn utf8_len(s: Seq<char>) -> nat
    decreases s.len(),
{
    if s.len() == 0 {
        0
    } else {
        utf8_len(s.drop_last()) + width(s.last())
    }
}

/// How many bytes of UTF-8 some characters take.
pub fn byte_len(v: &[char]) -> (r: u128)
    ensures
        r == utf8_len(v@),
{
    let mut n: u128 = 0;
    let mut i: usize = 0;
    while i < v.len()
        invariant
            i <= v@.len(),
            n == utf8_len(v@.take(i as int)),
            n <= 4 * i,
        decreases v@.len() - i,
    {
        let u: u32 = v[i] as u32;
        let w: u128 = if u < 0x80 {
            1
        } else if u < 0x800 {
            2
        } else if u < 0x1_0000 {
            3
        } else {
            4
        };
        n = n + w;
        i += 1;
        assert(v@.take(i as int).drop_last() =~= v@.take(i - 1));
    }
    assert(v@.take(v@.len() as int) =~= v@);
    n
}

/// A text cut at every `sep`.
pub open spec fn pieces(s: Seq<char>, sep: char) -> Seq<Seq<char>>
    decreases s.len(),
{
    let k = find(s, sep);
    if 0 <= k < s.len() {
        seq![s.take(k)] + pieces(s.skip(k + 1), sep)
    } else {
        seq![s]
    }
}

/// No piece holds what the text was cut at.
pub proof fn lemma_pieces_are_clean(s: Seq<char>, sep: char)
    ensures
        forall|i: int| 0 <= i < pieces(s, sep).len() ==> !(#[trigger] pieces(s, sep)[i]).contains(
            sep,
        ),
    decreases s.len(),
{
    let k = find(s, sep);
    lemma_find_bounds(s, sep, 0);
    if k < s.len() {
        let rest = s.skip(k + 1);
        lemma_pieces_are_clean(rest, sep);
        assert forall|i: int| 0 <= i < pieces(s, sep).len() implies !(#[trigger] pieces(
            s,
            sep,
        )[i]).contains(sep) by {
            if i == 0 {
                assert(pieces(s, sep)[0] == s.take(k));
            } else {
                assert(pieces(s, sep)[i] == pieces(rest, sep)[i - 1]);
            }
        }
    } else {
        assert(pieces(s, sep) =~= seq![s]);
    }
}

/// The texts of some vectors of characters.
pub open spec fn views(v: Seq<Vec<char>>) -> Seq<Seq<char>> {
    Seq::new(v.len(), |i: int| v[i]@)
}

/// A text cut at every `sep`.
pub fn split(v: &[char], sep: char) -> (r: Vec<Vec<char>>)
    ensures
        views(r@) == pieces(v@, sep),
        r@.len() > 0,
{
    let mut out: Vec<Vec<char>> = Vec::new();
    let mut from: usize = 0;
    assert(v@.skip(0) =~= v@);
    assert(views(out@) + pieces(v@, sep) =~= pieces(v@, sep));
    loop
        invariant
            from <= v@.len(),
            views(out@) + pieces(v@.skip(from as int), sep) == pieces(v@, sep),
        decreases v@.len() - from,
    {
        let rest: Vec<char> = copy_chars(v, from, v.len());
        assert(rest@ =~= v@.skip(from as int));
        let k: usize = find_char(rest.as_slice(), sep);
        let ghost before = views(out@);
        if k == rest.len() {
            out.push(rest);
            assert(views(out@) =~= before + seq![v@.skip(from as int)]);
            return out;
        }
        let piece: Vec<char> = copy_chars(rest.as_slice(), 0, k);
        assert(piece@ =~= rest@.take(k as int));
        out.push(piece);
        from = from + k + 1;
        proof {
            assert(rest@.skip(k + 1) =~= v@.skip(from as int));
            assert(views(out@) =~= before + seq![rest@.take(k as int)]);
            assert(views(out@) + pieces(v@.skip(from as int), sep) =~= before + (seq![
                rest@.take(k as int),
            ] + pieces(rest@.skip(k + 1), sep)));
        }
    }
}

/// The characters without the white space at their end.
pub fn trim_end_chars(v: &[char]) -> (r: Vec<char>)
    ensures
        r@ == trim_back(v@),
{
    let mut b: usize = v.len();
    assert(v@.take(b as int) =~= v@);
    while b > 0 && white(v[b - 1])
        invariant
            b <= v@.len(),
            trim_back(v@.take(b as int)) == trim_back(v@),
        decreases b,
    {
        assert(v@.take(b as int).drop_last() =~= v@.take(b - 1));
        b -= 1;
    }
    let r: Vec<char> = copy_chars(v, 0, b);
    assert(r@ =~= v@.take(b as int));
    r
}

/// What `String::from_utf8_lossy` makes of some bytes.
pub uninterp spec fn utf8_lossy(b: Seq<u8>) -> Seq<char>;

/// `String::from_utf8_lossy`: bytes as text, with the replacement character
/// where they are not UTF-8. Bytes that are UTF-8 come out as they decode.
#[verifier::external_body]
pub(crate) fn from_utf8_lossy(b: &[u8]) -> (r: String)
    ensures
        r@ == utf8_lossy(b@),
        vstd::utf8::valid_utf8(b@) ==> r@ == vstd::utf8::decode_utf8(b@),
{
    String::from_utf8_lossy(b).into_owned()
}

/// `str::from_utf8`: bytes as text, if they are UTF-8.
#[verifier::external_body]
pub(crate) fn from_utf8(b: &[u8]) -> (r: Option<String>)
    ensures
        match r {
            Some(s) => vstd::utf8::valid_utf8(b@) && s@ == vstd::utf8::decode_utf8(b@),
            None => !vstd::utf8::valid_utf8(b@),
        },
{
    std::str::from_utf8(b).ok().map(str::to_string)
}

/// What `str::to_uppercase` returns for a string of these characters.
pub uninterp spec fn unicode_upper(s: Seq<char>) -> Seq<char>;

/// `str::to_uppercase`: the upper case equivalent by the Unicode tables. None of
/// the letters `a` to `z` is left, and an ASCII string has nothing but these
/// changed.
#[verifier::external_body]
pub(crate) fn to_uppercase(s: &str) -> (r: String)
    ensures
        r@ == unicode_upper(s@),
        no_lower(r@),
        vstd::utf8::is_ascii_chars(s@) ==> r@ == uppers(s@),
{
    s.to_uppercase()
}

pub fn to_upper_ascii(c: char) -> (r: char)
    ensures
        r == upper(c),
{
    if 'a' <= c && c <= 'z' {
        let b: u8 = c as u8;
        (b - 32) as char
    } else {
        c
    }
}

/// The decimal notation of a signed number.
pub open spec fn signed_dec(n: int) -> Seq<char> {
    if n < 0 {
        seq!['-'] + dec((-n) as nat)
    } else {
        dec(n as nat)
    }
}

/// Writes a signed `n` in decimal behind `s`.
pub fn push_signed(s: &mut String, n: i64)
    ensures
        final(s)@ == old(s)@ + signed_dec(n as int),
{
    if n < 0 {
        s.push('-');
        let m: u64 = if n == i64::MIN { 9_223_372_036_854_775_808 } else { (-n) as u64 };
        push_dec(s, m);
        assert(s@ =~= old(s)@ + signed_dec(n as int));
    } else {
        push_dec(s, n as u64);
    }
}

/// Writes `n` in decimal behind `s`.
pub fn push_dec(s: &mut String, n: u64)
    ensures
        final(s)@ == old(s)@ + dec(n as nat),
    decreases n,
{
    if n >= 10 {
        push_dec(s, n / 10);
    }
    let d: u8 = (n % 10) as u8;
    s.push((48 + d) as char);
    assert(s@ =~= old(s)@ + dec(n as nat));
}

} // verus!
