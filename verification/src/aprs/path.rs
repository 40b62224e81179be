//! Digipeater paths, and the one rule about them that matters.
//!
//! Everybody in range shares one channel, and what keeps it usable is how far
//! each station asks to be repeated. A path is written `WIDEn-N`: `N` counts
//! down as each digipeater passes the frame on. `WIDE1-1,WIDE2-1` is the right
//! answer almost everywhere.
use crate::decimal;
use crate::text;
use vstd::prelude::*;

verus! {

broadcast use vstd::seq::group_seq_axioms;

/// How many digipeaters a frame can name.
pub const MAX_HOPS: usize = 8;

/// The first `n` names in a list of pieces: trimmed, in upper case, none empty.
pub open spec fn names(parts: Seq<Seq<char>>, n: int) -> Seq<Seq<char>>
    decreases parts.len(),
{
    if parts.len() == 0 || n <= 0 {
        Seq::empty()
    } else {
        let name = text::uppers(text::trim(parts[0]));
        if name.len() == 0 {
            names(parts.skip(1), n)
        } else {
            seq![name] + names(parts.skip(1), n - 1)
        }
    }
}

/// A path as an operator writes it: names with commas between them.
pub open spec fn path_of(s: Seq<char>) -> Seq<Seq<char>> {
    names(text::pieces(s, ','), MAX_HOPS as int)
}

/// The texts of some strings.
pub open spec fn texts(v: Seq<String>) -> Seq<Seq<char>> {
    Seq::new(v.len(), |i: int| v[i]@)
}

/// Splits a path as an operator writes it.
pub fn parse_path(s: &str) -> (r: Vec<String>)
    ensures
        texts(r@) == path_of(s@),
{
    let parts: Vec<Vec<char>> = text::split(text::chars_of(s).as_slice(), ',');
    let ghost all = text::views(parts@);
    let mut out: Vec<String> = Vec::new();
    let mut i: usize = 0;
    assert(all.skip(0) =~= all);
    assert(texts(out@) + names(all, 8) =~= names(all, 8));
    while i < parts.len() && out.len() < MAX_HOPS
        invariant
            i <= parts@.len(),
            all == text::views(parts@),
            out@.len() <= MAX_HOPS,
            texts(out@) + names(all.skip(i as int), MAX_HOPS - out@.len()) == names(
                all,
                MAX_HOPS as int,
            ),
        decreases parts@.len() - i,
    {
        let name: Vec<char> = text::upper_chars(text::trim_chars(parts[i].as_slice()).as_slice());
        let ghost before = texts(out@);
        let ghost left = MAX_HOPS - out@.len();
        assert(all.skip(i as int)[0] == parts@[i as int]@);
        assert(all.skip(i as int).skip(1) =~= all.skip(i + 1));
        if name.len() > 0 {
            out.push(text::string_of(name.as_slice()));
            proof {
                assert(texts(out@) =~= before.push(name@));
                assert(texts(out@) + names(all.skip(i + 1), left - 1) =~= before + (seq![name@]
                    + names(all.skip(i + 1), left - 1)));
            }
        }
        i += 1;
    }
    assert(names(all.skip(i as int), MAX_HOPS - out@.len()) =~= Seq::empty());
    assert(texts(out@) + Seq::<Seq<char>>::empty() =~= texts(out@));
    out
}

/// Whether a name is a `WIDEn-N`, as far as the dash.
pub open spec fn is_wide(p: Seq<char>) -> bool {
    &&& p.len() >= 6
    &&& text::has_prefix(p, "WIDE"@)
    &&& text::is_digit(p[4])
    &&& p[5] == '-'
}

/// The hops that one name asks for: the `N` of a `WIDEn-N`, and one of any other,
/// which is one digipeater whatever its SSID.
pub open spec fn hops(p: Seq<char>) -> int {
    if is_wide(p) {
        match decimal::uint_of(p.skip(6)) {
            Some(n) => if n <= u32::MAX {
                n
            } else {
                1
            },
            None => 1,
        }
    } else {
        1
    }
}

/// The hops that a path asks for.
pub open spec fn total_hops(path: Seq<Seq<char>>) -> int
    decreases path.len(),
{
    if path.len() == 0 {
        0
    } else {
        total_hops(path.drop_last()) + hops(path.last())
    }
}

proof fn lemma_hops_nonneg(p: Seq<char>)
    ensures
        hops(p) >= 0,
{
    if is_wide(p) {
        let t = p.skip(6);
        let d = if t.len() > 0 && t[0] == '+' {
            t.skip(1)
        } else {
            t
        };
        if decimal::all_digits(d) {
            decimal::lemma_val_nonneg(d);
        }
    }
}

pub proof fn lemma_total_grows(path: Seq<Seq<char>>, i: int)
    requires
        0 <= i <= path.len(),
    ensures
        0 <= total_hops(path.take(i)) <= total_hops(path),
    decreases path.len(),
{
    if i == path.len() {
        assert(path.take(i) =~= path);
        if i > 0 {
            lemma_total_grows(path.drop_last(), path.len() - 1);
            assert(path.drop_last().take(path.len() - 1) =~= path.drop_last());
            lemma_hops_nonneg(path.last());
        }
    } else {
        lemma_total_grows(path.drop_last(), i);
        assert(path.drop_last().take(i) =~= path.take(i));
        lemma_hops_nonneg(path.last());
    }
}

fn hops_of(p: &str) -> (r: u32)
    ensures
        r == hops(p@),
{
    let v: Vec<char> = text::chars_of(p);
    if v.len() < 6 || !text::starts_with(v.as_slice(), "WIDE") || v[4] < '0' || v[4] > '9' || v[5]
        != '-' {
        return 1;
    }
    let n: Vec<char> = text::copy_chars(v.as_slice(), 6, v.len());
    assert(n@ =~= v@.skip(6));
    match decimal::parse_uint(n.as_slice(), 0xffff_ffff) {
        Some(x) => x as u32,
        None => 1,
    }
}

/// How many hops a path asks for in all: what each `WIDEn-N` asks for, and one
/// for each digipeater that is named.
pub fn hop_count(path: &[String]) -> (r: u32)
    requires
        total_hops(texts(path@)) <= u32::MAX,
    ensures
        r == total_hops(texts(path@)),
{
    let ghost all = texts(path@);
    let mut n: u32 = 0;
    let mut i: usize = 0;
    assert(all.take(0) =~= Seq::empty());
    while i < path.len()
        invariant
            i <= path@.len(),
            all == texts(path@),
            total_hops(all) <= u32::MAX,
            n == total_hops(all.take(i as int)),
        decreases path@.len() - i,
    {
        proof {
            lemma_total_grows(all, i + 1);
            assert(all.take(i + 1).drop_last() =~= all.take(i as int));
            assert(all.take(i + 1).last() == path@[i as int]@);
        }
        n = n + hops_of(path[i].as_str());
        i += 1;
    }
    assert(all.take(all.len() as int) =~= all);
    n
}

/// Why a path should not be used.
#[derive(Debug, Clone, Copy, PartialEq, Eq, Structural)]
pub enum Advice {
    /// A name that modern digipeaters ignore.
    DeadAlias,
    /// More than three hops.
    TooManyHops,
    /// A wide first hop passes over the digipeaters that are nearest.
    SkipsFillIn,
}

impl Advice {
    pub open spec fn says(self) -> Seq<char> {
        match self {
            Advice::DeadAlias => "RELAY, TRACE and a bare WIDE are the pre-2004 aliases. Modern digipeaters ignore them, so nothing will repeat this. Use WIDE1-1,WIDE2-1."@,
            Advice::TooManyHops => "More than three hops. Every hop multiplies the transmissions the whole network makes on one shared channel; past three it stops other stations being heard without getting you any further out. WIDE1-1,WIDE2-1 reaches almost anywhere."@,
            Advice::SkipsFillIn => "A first hop other than WIDE1-1 skips the fill-in digipeaters, which are the ones nearest you and the reason a low-power station gets out at all."@,
        }
    }

    pub fn text(self) -> (r: &'static str)
        ensures
            r@ == self.says(),
    {
        match self {
            Advice::DeadAlias => "RELAY, TRACE and a bare WIDE are the pre-2004 aliases. Modern digipeaters ignore them, so nothing will repeat this. Use WIDE1-1,WIDE2-1.",
            Advice::TooManyHops => "More than three hops. Every hop multiplies the transmissions the whole network makes on one shared channel; past three it stops other stations being heard without getting you any further out. WIDE1-1,WIDE2-1 reaches almost anywhere.",
            Advice::SkipsFillIn => "A first hop other than WIDE1-1 skips the fill-in digipeaters, which are the ones nearest you and the reason a low-power station gets out at all.",
        }
    }
}

/// An alias that no modern digipeater answers.
pub open spec fn dead(p: Seq<char>) -> bool {
    ||| p == "RELAY"@
    ||| p == "TRACE"@
    ||| p == "WIDE"@
    ||| p == "ECHO"@
    ||| p == "GATE"@
}

/// What there is to say against a path, the gravest first.
pub open spec fn advice_on(path: Seq<Seq<char>>) -> Option<Advice> {
    if exists|i: int| 0 <= i < path.len() && dead(#[trigger] path[i]) {
        Some(Advice::DeadAlias)
    } else if total_hops(path) > 3 {
        Some(Advice::TooManyHops)
    } else if path.len() > 1 && text::has_prefix(path[0], "WIDE"@) && path[0] != "WIDE1-1"@ {
        Some(Advice::SkipsFillIn)
    } else {
        None
    }
}

fn is_dead(p: &str) -> (r: bool)
    ensures
        r == dead(p@),
{
    text::same(p, "RELAY") || text::same(p, "TRACE") || text::same(p, "WIDE") || text::same(
        p,
        "ECHO",
    ) || text::same(p, "GATE")
}

/// Why a path should not be used, if there is a reason. Advice and no more:
/// local practice varies, and nothing here refuses to transmit.
pub fn path_advice(path: &[String]) -> (r: Option<&'static str>)
    requires
        total_hops(texts(path@)) <= u32::MAX,
    ensures
        match advice_on(texts(path@)) {
            Some(a) => r matches Some(t) && t@ == a.says(),
            None => r is None,
        },
{
    let ghost all = texts(path@);
    let mut i: usize = 0;
    while i < path.len()
        invariant
            i <= path@.len(),
            all == texts(path@),
            forall|k: int| 0 <= k < i ==> !dead(#[trigger] all[k]),
        decreases path@.len() - i,
    {
        if is_dead(path[i].as_str()) {
            assert(dead(all[i as int]));
            return Some(Advice::DeadAlias.text());
        }
        i += 1;
    }
    if hop_count(path) > 3 {
        return Some(Advice::TooManyHops.text());
    }
    if path.len() > 1 {
        let c: Vec<char> = text::chars_of(path[0].as_str());
        if text::starts_with(c.as_slice(), "WIDE") && !text::same(path[0].as_str(), "WIDE1-1") {
            return Some(Advice::SkipsFillIn.text());
        }
    }
    None
}

proof fn lemma_names_few(parts: Seq<Seq<char>>, n: int)
    ensures
        names(parts, n).len() <= if n > 0 {
            n
        } else {
            0
        },
        forall|i: int| 0 <= i < names(parts, n).len() ==> (#[trigger] names(parts, n)[i]).len() > 0,
    decreases parts.len(),
{
    if parts.len() > 0 && n > 0 {
        let name = text::uppers(text::trim(parts[0]));
        lemma_names_few(parts.skip(1), n);
        lemma_names_few(parts.skip(1), n - 1);
        if name.len() > 0 {
            let tail = names(parts.skip(1), n - 1);
            assert forall|i: int| 0 <= i < names(parts, n).len() implies (#[trigger] names(
                parts,
                n,
            )[i]).len() > 0 by {
                if i > 0 {
                    assert(names(parts, n)[i] == tail[i - 1]);
                }
            }
        }
    }
}

/// A trimmed text in upper case has nothing left to trim or to raise.
proof fn lemma_name_is_tidy(s: Seq<char>)
    ensures
        ({
            let name = text::uppers(text::trim(s));
            &&& text::trim(name) == name
            &&& text::uppers(name) == name
        }),
{
    let t = text::trim(s);
    let name = text::uppers(t);
    text::lemma_trim_ends(s);
    assert(text::uppers(name) =~= name);
    if t.len() > 0 {
        assert(!text::is_white(name.first()));
        assert(!text::is_white(name.last()));
    }
}

/// Names that are in order: each trimmed, in upper case, not empty and without a
/// comma.
pub open spec fn tidy(path: Seq<Seq<char>>) -> bool {
    forall|i: int|
        #![trigger path[i]]
        0 <= i < path.len() ==> {
            &&& path[i].len() > 0
            &&& text::trim(path[i]) == path[i]
            &&& text::uppers(path[i]) == path[i]
            &&& !path[i].contains(',')
        }
}

/// A path with commas between its names.
pub open spec fn joined(path: Seq<Seq<char>>) -> Seq<char>
    decreases path.len(),
{
    if path.len() == 0 {
        Seq::empty()
    } else if path.len() == 1 {
        path[0]
    } else {
        path[0].push(',') + joined(path.skip(1))
    }
}

proof fn lemma_names_tidy(parts: Seq<Seq<char>>, n: int)
    requires
        forall|i: int| 0 <= i < parts.len() ==> !(#[trigger] parts[i]).contains(','),
    ensures
        tidy(names(parts, n)),
    decreases parts.len(),
{
    if parts.len() > 0 && n > 0 {
        assert(!parts[0].contains(','));
        let rest = parts.skip(1);
        assert forall|i: int| 0 <= i < rest.len() implies !(#[trigger] rest[i]).contains(',') by {
            assert(rest[i] == parts[i + 1]);
        }
        let name = text::uppers(text::trim(parts[0]));
        lemma_name_is_tidy(parts[0]);
        lemma_names_tidy(rest, n);
        lemma_names_tidy(rest, n - 1);
        text::lemma_trim_keeps(parts[0]);
        if name.len() > 0 {
            let tail = names(rest, n - 1);
            let all = names(parts, n);
            assert(!name.contains(',')) by {
                if name.contains(',') {
                    let k = choose|k: int| 0 <= k < name.len() && name[k] == ',';
                    assert(text::trim(parts[0])[k] == ',');
                    assert(text::trim(parts[0]).contains(','));
                }
            }
            assert forall|i: int| #![trigger all[i]] 0 <= i < all.len() implies all[i].len() > 0
                && text::trim(all[i]) == all[i] && text::uppers(all[i]) == all[i]
                && !all[i].contains(',') by {
                if i > 0 {
                    assert(all[i] == tail[i - 1]);
                } else {
                    assert(all[0] == name);
                }
            }
        }
    }
}

proof fn lemma_joined_reads_back(path: Seq<Seq<char>>, n: int)
    requires
        tidy(path),
        path.len() <= n,
    ensures
        names(text::pieces(joined(path), ','), n) == path,
    decreases path.len(),
{
    let s = joined(path);
    if path.len() == 0 {
        assert(text::find(s, ',') == 0);
        let parts = text::pieces(s, ',');
        assert(parts =~= seq![s]);
        assert(text::uppers(text::trim(s)) =~= Seq::empty());
        assert(names(parts.skip(1), n) =~= Seq::empty());
        assert(names(parts, n) =~= path);
    } else {
        let head = path[0];
        let rest = path.skip(1);
        assert forall|i: int| 0 <= i < head.len() implies head[i] != ',' by {
            if head[i] == ',' {
                assert(head.contains(','));
            }
        }
        let k = head.len() as int;
        if path.len() == 1 {
            text::lemma_find_from(s, ',', 0, k);
            let parts = text::pieces(s, ',');
            assert(parts =~= seq![head]);
            assert(names(parts.skip(1), n - 1) =~= Seq::empty());
            assert(names(parts, n) =~= path);
        } else {
            let tail = joined(rest);
            assert(s[k] == ',');
            text::lemma_find_from(s, ',', 0, k);
            assert(s.take(k) =~= head);
            assert(s.skip(k + 1) =~= tail);
            let parts = text::pieces(s, ',');
            assert(parts == seq![head] + text::pieces(tail, ','));
            assert(parts.skip(1) =~= text::pieces(tail, ','));
            assert forall|i: int| #![trigger rest[i]] 0 <= i < rest.len() implies rest[i].len() > 0
                && text::trim(rest[i]) == rest[i] && text::uppers(rest[i]) == rest[i]
                && !rest[i].contains(',') by {
                assert(rest[i] == path[i + 1]);
            }
            lemma_joined_reads_back(rest, n - 1);
            assert(parts[0] == head);
            assert(seq![head] + rest =~= path);
        }
    }
}

/// Parsing a path and writing it with commas between its names changes nothing
/// more: what was read reads back.
pub proof fn law_a_path_reads_back(s: Seq<char>)
    ensures
        tidy(path_of(s)),
        path_of(joined(path_of(s))) == path_of(s),
{
    let parts = text::pieces(s, ',');
    text::lemma_pieces_are_clean(s, ',');
    lemma_names_tidy(parts, MAX_HOPS as int);
    lemma_names_few(parts, MAX_HOPS as int);
    lemma_joined_reads_back(path_of(s), MAX_HOPS as int);
}

/// A path that was read names at most eight digipeaters, and none is empty.
pub proof fn law_path_fits_a_frame(s: Seq<char>)
    ensures
        path_of(s).len() <= MAX_HOPS,
        forall|i: int| 0 <= i < path_of(s).len() ==> (#[trigger] path_of(s)[i]).len() > 0,
{
    lemma_names_few(text::pieces(s, ','), MAX_HOPS as int);
}

} // verus!
