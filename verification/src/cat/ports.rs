//! The order in which serial ports are offered: those where CAT rigs appear
//! first, the legacy ones that may not even be there last.
use crate::cat::xml;
use crate::text;
use vstd::prelude::*;

verus! {

broadcast use vstd::seq::group_seq_axioms;

pub open spec fn contains(s: Seq<char>, pat: Seq<char>) -> bool {
    text::find_seq(s, pat, 0) is Some
}

/// USB-style ports first, legacy ports last.
pub open spec fn rank_of(port: Seq<char>) -> int {
    if contains(port, "ttyACM"@) || contains(port, "ttyUSB"@) {
        0
    } else if contains(port, "ttyS"@) {
        2
    } else {
        1
    }
}

/// Whether `a` is not behind `b` in the order of their characters.
pub open spec fn not_behind(a: Seq<char>, b: Seq<char>) -> bool
    decreases a.len(),
{
    if a.len() == 0 {
        true
    } else if b.len() == 0 {
        false
    } else if a[0] != b[0] {
        a[0] < b[0]
    } else {
        not_behind(a.skip(1), b.skip(1))
    }
}

/// The order of two ports.
pub open spec fn before(a: Seq<char>, b: Seq<char>) -> bool {
    rank_of(a) < rank_of(b) || (rank_of(a) == rank_of(b) && not_behind(a, b))
}

pub open spec fn in_order(v: Seq<Seq<char>>) -> bool {
    forall|i: int, j: int| 0 <= i <= j < v.len() ==> before(#[trigger] v[i], #[trigger] v[j])
}

proof fn lemma_not_behind_transitive(a: Seq<char>, b: Seq<char>, c: Seq<char>)
    requires
        not_behind(a, b),
        not_behind(b, c),
    ensures
        not_behind(a, c),
    decreases a.len(),
{
    if a.len() > 0 && b.len() > 0 && c.len() > 0 && a[0] == b[0] && b[0] == c[0] {
        lemma_not_behind_transitive(a.skip(1), b.skip(1), c.skip(1));
    }
}

proof fn lemma_not_behind_total(a: Seq<char>, b: Seq<char>)
    ensures
        not_behind(a, b) || not_behind(b, a),
        not_behind(a, a),
    decreases a.len(),
{
    if a.len() > 0 {
        if b.len() > 0 {
            lemma_not_behind_total(a.skip(1), b.skip(1));
        } else {
            lemma_not_behind_total(a.skip(1), b);
        }
    }
}

fn chars_not_behind(a: &[char], b: &[char]) -> (r: bool)
    ensures
        r == not_behind(a@, b@),
{
    let mut i: usize = 0;
    assert(a@.skip(0) =~= a@ && b@.skip(0) =~= b@);
    loop
        invariant
            i <= a@.len(),
            i <= b@.len(),
            not_behind(a@, b@) == not_behind(a@.skip(i as int), b@.skip(i as int)),
        decreases a@.len() - i,
    {
        if i == a.len() {
            return true;
        }
        if i == b.len() {
            return false;
        }
        assert(a@.skip(i as int)[0] == a@[i as int] && b@.skip(i as int)[0] == b@[i as int]);
        if a[i] != b[i] {
            return a[i] < b[i];
        }
        assert(a@.skip(i as int).skip(1) =~= a@.skip(i + 1));
        assert(b@.skip(i as int).skip(1) =~= b@.skip(i + 1));
        i += 1;
    }
}

fn has(v: &[char], pat: &str) -> (r: bool)
    ensures
        r == contains(v@, pat@),
{
    text::find_chars(v, text::chars_of(pat).as_slice(), 0).is_some()
}

/// USB-style ports first, legacy ports last.
pub fn rank(port: &str) -> (r: u8)
    ensures
        r == rank_of(port@),
{
    let v = text::chars_of(port);
    if has(v.as_slice(), "ttyACM") || has(v.as_slice(), "ttyUSB") {
        0
    } else if has(v.as_slice(), "ttyS") {
        2
    } else {
        1
    }
}

fn is_before(a: &str, b: &str) -> (r: bool)
    ensures
        r == before(a@, b@),
{
    let x = rank(a);
    let y = rank(b);
    x < y || (x == y && chars_not_behind(
        text::chars_of(a).as_slice(),
        text::chars_of(b).as_slice(),
    ))
}

/// Puts one more port into a list that is in order.
fn insert(v: &mut Vec<String>, port: String)
    requires
        in_order(xml::texts(old(v)@)),
    ensures
        in_order(xml::texts(final(v)@)),
        xml::texts(final(v)@).to_multiset() == xml::texts(old(v)@).to_multiset().insert(port@),
{
    let mut k: usize = 0;
    let ghost was = xml::texts(v@);
    while k < v.len() && is_before(v[k].as_str(), port.as_str())
        invariant
            k <= v@.len(),
            was == xml::texts(v@),
            in_order(was),
            forall|j: int| 0 <= j < k ==> before(#[trigger] was[j], port@),
        decreases v@.len() - k,
    {
        assert(was[k as int] == v@[k as int]@);
        k += 1;
    }
    let ghost p = port@;
    v.insert(k, port);
    let ghost now = xml::texts(v@);
    proof {
        assert(now =~= was.insert(k as int, p));
        vstd::seq_lib::to_multiset_insert(was, k as int, p);
        if k < was.len() {
            lemma_not_behind_total(was[k as int], p);
        }
        assert forall|i: int, j: int| 0 <= i <= j < now.len() implies before(
            #[trigger] now[i],
            #[trigger] now[j],
        ) by {
            lemma_not_behind_total(now[i], now[j]);
            if i < k && j > k {
                assert(before(was[i], was[j - 1]));
            } else if i == k && j > k {
                lemma_not_behind_total(p, was[k as int]);
                assert(before(was[k as int], was[j - 1]));
                if rank_of(p) == rank_of(was[k as int]) && rank_of(was[k as int]) == rank_of(
                    was[j - 1],
                ) {
                    lemma_not_behind_transitive(p, was[k as int], was[j - 1]);
                }
            } else if i < k && j < k {
                assert(before(was[i], was[j]));
            } else if i > k {
                assert(before(was[i - 1], was[j - 1]));
            }
        }
    }
}

/// The ports in the order in which they are offered.
pub fn sort_ports(ports: Vec<String>) -> (r: Vec<String>)
    ensures
        in_order(xml::texts(r@)),
        xml::texts(r@).to_multiset() == xml::texts(ports@).to_multiset(),
{
    let ghost all = xml::texts(ports@);
    let mut rest = ports;
    let mut out: Vec<String> = Vec::new();
    assert(xml::texts(out@) =~= Seq::empty());
    proof {
        all.to_multiset_ensures();
        Seq::<Seq<char>>::empty().to_multiset_ensures();
    }
    assert(xml::texts(out@).to_multiset().add(xml::texts(rest@).to_multiset())
        =~= all.to_multiset());
    while rest.len() > 0
        invariant
            in_order(xml::texts(out@)),
            xml::texts(out@).to_multiset().add(xml::texts(rest@).to_multiset())
                == all.to_multiset(),
        decreases rest@.len(),
    {
        let ghost left = xml::texts(rest@);
        let port = rest.remove(0);
        let ghost p = port@;
        proof {
            assert(left =~= seq![p] + xml::texts(rest@));
            assert(left =~= xml::texts(rest@).insert(0, p));
            vstd::seq_lib::to_multiset_insert(xml::texts(rest@), 0, p);
        }
        let ghost had = xml::texts(out@).to_multiset();
        insert(&mut out, port);
        proof {
            assert(had.insert(p).add(xml::texts(rest@).to_multiset()) =~= had.add(
                left.to_multiset(),
            ));
        }
    }
    proof {
        assert(xml::texts(rest@) =~= Seq::empty());
        Seq::<Seq<char>>::empty().to_multiset_ensures();
        assert(xml::texts(out@).to_multiset() =~= all.to_multiset());
    }
    out
}

} // verus!
