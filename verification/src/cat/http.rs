//! The head of an HTTP response.
use crate::decimal;
use crate::text;
use vstd::prelude::*;

verus! {

broadcast use vstd::seq::group_seq_axioms;

/// A line without the carriage return that ends it.
pub open spec fn without_return(s: Seq<char>) -> Seq<char> {
    if s.len() > 0 && s.last() == '\r' {
        s.drop_last()
    } else {
        s
    }
}

/// The lines of a text, each ended by a line feed, or a carriage return and a
/// line feed, or the end of the text.
pub open spec fn lines_of(s: Seq<char>) -> Seq<Seq<char>>
    decreases s.len(),
{
    let k = text::find(s, '\n');
    if s.len() == 0 {
        Seq::empty()
    } else if k < 0 || k >= s.len() {
        seq![s]
    } else {
        seq![without_return(s.take(k))] + lines_of(s.skip(k + 1))
    }
}

/// Where the first white space at or behind `from` stands, or the end.
pub open spec fn white_from(s: Seq<char>, from: int) -> int
    decreases s.len() - from,
{
    if from < 0 || from >= s.len() {
        s.len() as int
    } else if text::is_white(s[from]) {
        from
    } else {
        white_from(s, from + 1)
    }
}

/// What stands in front of the first white space.
pub open spec fn first_word(s: Seq<char>) -> Seq<char> {
    s.take(white_from(s, 0))
}

/// The second of the words of a line, if it has two.
pub open spec fn second_word_of(s: Seq<char>) -> Option<Seq<char>> {
    let a = text::trim_front(s);
    let b = text::trim_front(a.skip(white_from(a, 0)));
    if b.len() == 0 {
        None
    } else {
        Some(first_word(b))
    }
}

/// The status code of a response.
pub open spec fn status_of(lines: Seq<Seq<char>>) -> Option<int> {
    if lines.len() > 0 && text::has_prefix(lines[0], "HTTP/"@) {
        match second_word_of(lines[0]) {
            Some(w) => match decimal::uint_of(w) {
                Some(n) => if n <= u16::MAX {
                    Some(n)
                } else {
                    None
                },
                None => None,
            },
            None => None,
        }
    } else {
        None
    }
}

/// Whether a line is a header of this name, in any case.
pub open spec fn is_header(line: Seq<char>, name: Seq<char>) -> bool {
    let k = text::find(line, ':');
    0 <= k < line.len() && text::uppers(text::trim(line.take(k))) == text::uppers(name)
}

/// The length that a header gives, if it is a number.
pub open spec fn header_length(line: Seq<char>) -> Option<int> {
    match decimal::uint_of(text::trim(line.skip(text::find(line, ':') + 1))) {
        Some(n) => if n <= usize::MAX {
            Some(n)
        } else {
            None
        },
        None => None,
    }
}

/// The length that the last `Content-Length` among the headers in the first `n`
/// lines gives; the status line is not one of them.
pub open spec fn length_of(lines: Seq<Seq<char>>, n: int) -> Option<int>
    decreases n,
{
    if n <= 1 {
        None
    } else if is_header(lines[n - 1], "content-length"@) {
        header_length(lines[n - 1])
    } else {
        length_of(lines, n - 1)
    }
}

/// What a list of character lists holds.
pub open spec fn rows(v: Seq<Vec<char>>) -> Seq<Seq<char>> {
    Seq::new(v.len(), |i: int| v[i]@)
}

proof fn lemma_white_from(s: Seq<char>, from: int, k: int)
    requires
        0 <= from <= k <= s.len(),
        forall|j: int| from <= j < k ==> !text::is_white(#[trigger] s[j]),
        k < s.len() ==> text::is_white(s[k]),
    ensures
        white_from(s, from) == k,
    decreases k - from,
{
    if from < k {
        lemma_white_from(s, from + 1, k);
    }
}

fn word_end(v: &[char]) -> (k: usize)
    ensures
        k == white_from(v@, 0),
        k <= v@.len(),
{
    let mut k: usize = 0;
    while k < v.len() && !text::white(v[k])
        invariant
            k <= v@.len(),
            forall|j: int| 0 <= j < k ==> !text::is_white(#[trigger] v@[j]),
        decreases v@.len() - k,
    {
        k += 1;
    }
    proof {
        lemma_white_from(v@, 0, k as int);
    }
    k
}

fn trim_start(v: &[char]) -> (r: Vec<char>)
    ensures
        r@ == text::trim_front(v@),
{
    let mut a: usize = 0;
    assert(v@.skip(0) =~= v@);
    while a < v.len() && text::white(v[a])
        invariant
            a <= v.len(),
            text::trim_front(v@.skip(a as int)) == text::trim_front(v@),
        decreases v.len() - a,
    {
        assert(v@.skip(a as int).drop_first() =~= v@.skip(a + 1));
        a += 1;
    }
    let r = text::copy_chars(v, a, v.len());
    assert(r@ =~= v@.skip(a as int));
    r
}

fn second_word(v: &[char]) -> (r: Option<Vec<char>>)
    ensures
        match second_word_of(v@) {
            Some(w) => r matches Some(x) && x@ == w,
            None => r is None,
        },
{
    let a = trim_start(v);
    let k = word_end(a.as_slice());
    let rest = text::copy_chars(a.as_slice(), k, a.len());
    assert(rest@ =~= a@.skip(k as int));
    let b = trim_start(rest.as_slice());
    if b.len() == 0 {
        return None;
    }
    let n = word_end(b.as_slice());
    let w = text::copy_chars(b.as_slice(), 0, n);
    assert(w@ =~= first_word(b@));
    Some(w)
}

fn lines(v: &[char]) -> (r: Vec<Vec<char>>)
    ensures
        rows(r@) == lines_of(v@),
{
    let mut out: Vec<Vec<char>> = Vec::new();
    let mut rest = vstd::slice::slice_to_vec(v);
    assert(rows(out@) + lines_of(rest@) =~= lines_of(v@));
    while rest.len() > 0
        invariant
            rows(out@) + lines_of(rest@) == lines_of(v@),
        decreases rest@.len(),
    {
        let k = text::find_char(rest.as_slice(), '\n');
        let ghost before = rows(out@);
        let ghost here = lines_of(rest@);
        if k == rest.len() {
            let ghost last = rest@;
            out.push(rest);
            assert(rows(out@) =~= before + seq![last]);
            return out;
        }
        let end: usize = if k > 0 && rest[k - 1] == '\r' { k - 1 } else { k };
        let line = text::copy_chars(rest.as_slice(), 0, end);
        assert(line@ =~= without_return(rest@.take(k as int)));
        let next = text::copy_chars(rest.as_slice(), k + 1, rest.len());
        assert(next@ =~= rest@.skip(k + 1));
        let ghost text_line = line@;
        out.push(line);
        assert(rows(out@) =~= before + seq![text_line]);
        assert(rows(out@) + lines_of(next@) =~= before + here);
        rest = next;
    }
    assert(rows(out@) =~= rows(out@) + lines_of(rest@));
    out
}

fn header_is_length(line: &[char]) -> (r: Option<Option<usize>>)
    ensures
        match r {
            None => !is_header(line@, "content-length"@),
            Some(n) => is_header(line@, "content-length"@) && match header_length(line@) {
                Some(x) => n matches Some(y) && y == x,
                None => n is None,
            },
        },
{
    let k = text::find_char(line, ':');
    if k == line.len() {
        return None;
    }
    let name = text::copy_chars(line, 0, k);
    assert(name@ =~= line@.take(k as int));
    let upper = text::upper_chars(text::trim_chars(name.as_slice()).as_slice());
    let wanted = text::upper_chars(text::chars_of("content-length").as_slice());
    if !text::same_chars(upper.as_slice(), wanted.as_slice()) {
        return None;
    }
    let value = text::copy_chars(line, k + 1, line.len());
    assert(value@ =~= line@.skip(k + 1));
    match decimal::parse_uint(text::trim_chars(value.as_slice()).as_slice(), usize::MAX as u64) {
        Some(n) => Some(Some(n as usize)),
        None => Some(None),
    }
}

/// The status code and `Content-Length` of an HTTP response head.
pub fn parse_head(head: &str) -> (r: (Option<u16>, Option<usize>))
    ensures
        ({
            let l = lines_of(head@);
            &&& match status_of(l) {
                Some(n) => r.0 matches Some(x) && x == n,
                None => r.0 is None,
            }
            &&& match length_of(l, l.len() as int) {
                Some(n) => r.1 matches Some(x) && x == n,
                None => r.1 is None,
            }
        }),
{
    let v = text::chars_of(head);
    let l = lines(v.as_slice());
    let ghost all = rows(l@);
    let mut status: Option<u16> = None;
    if l.len() > 0 {
        assert(all[0] == l@[0]@);
        if text::starts_with(l[0].as_slice(), "HTTP/") {
            match second_word(l[0].as_slice()) {
                Some(w) => {
                    match decimal::parse_uint(w.as_slice(), 65535) {
                        Some(n) => {
                            status = Some(n as u16);
                        },
                        None => {},
                    }
                },
                None => {},
            }
        }
    }
    let mut length: Option<usize> = None;
    let mut i: usize = 1;
    while i < l.len()
        invariant
            1 <= i,
            i <= l@.len() || (i == 1 && l@.len() == 0),
            all == rows(l@),
            match length_of(all, i as int) {
                Some(n) => length matches Some(x) && x == n,
                None => length is None,
            },
        decreases l@.len() - i,
    {
        assert(all[i as int] == l@[i as int]@);
        match header_is_length(l[i].as_slice()) {
            Some(n) => {
                length = n;
            },
            None => {},
        }
        i += 1;
    }
    (status, length)
}

} // verus!
