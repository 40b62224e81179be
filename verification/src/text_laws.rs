//! What reading and writing of text and of numbers come to.
use crate::decimal;
use crate::decimal::Number;
use crate::floats;
use crate::floats::Side;
use crate::text;
use vstd::arithmetic::power::{lemma_pow0, lemma_pow1, lemma_pow_adds, lemma_pow_positive, pow};
use vstd::prelude::*;

verus! {

broadcast use vstd::seq::group_seq_axioms;

/// A pattern is found where it first stands, and not found where it stands nowhere.
pub proof fn law_a_pattern_is_found_where_it_first_stands<T>(
    s: Seq<T>,
    pat: Seq<T>,
    from: int,
    i: int,
)
    requires
        0 <= from,
    ensures
        text::find_seq(s, pat, from) == Some(i) <==> {
            &&& from <= i
            &&& i + pat.len() <= s.len()
            &&& s.subrange(i, i + pat.len()) == pat
            &&& forall|j: int|
                from <= j < i ==> #[trigger] s.subrange(j, j + pat.len()) != pat
        },
    decreases s.len() + 1 - from,
{
    if from + pat.len() <= s.len() && s.subrange(from, from + pat.len()) != pat {
        law_a_pattern_is_found_where_it_first_stands(s, pat, from + 1, i);
    }
}

/// A value is found where it first stands, and else behind the last.
pub proof fn law_a_value_is_found_where_it_first_stands<T>(s: Seq<T>, x: T, i: int)
    ensures
        0 <= i < s.len() && s[i] == x && (forall|j: int| 0 <= j < i ==> #[trigger] s[j] != x)
            ==> text::find(s, x) == i,
        (forall|j: int| 0 <= j < s.len() ==> #[trigger] s[j] != x) ==> text::find(s, x) == s.len(),
{
    if 0 <= i < s.len() && s[i] == x && (forall|j: int| 0 <= j < i ==> #[trigger] s[j] != x) {
        text::lemma_find_from(s, x, 0, i);
    }
    if forall|j: int| 0 <= j < s.len() ==> #[trigger] s[j] != x {
        text::lemma_find_from(s, x, 0, s.len() as int);
    }
}

/// What white space is.
pub open spec fn space(c: char) -> bool {
    ||| c == ' ' || c == '\t' || c == '\n' || c == '\r'
    ||| c == '\u{b}' || c == '\u{c}' || c == '\u{85}' || c == '\u{a0}'
    ||| c == '\u{1680}' || '\u{2000}' <= c <= '\u{200a}'
    ||| c == '\u{2028}' || c == '\u{2029}' || c == '\u{202f}'
    ||| c == '\u{205f}' || c == '\u{3000}'
}

/// Nothing but white space is white.
pub proof fn law_what_is_white(c: char)
    ensures
        text::is_white(c) == space(c),
{
}

/// Trimming takes the white space off both ends and leaves the rest.
pub proof fn law_what_trimming_leaves(a: Seq<char>, s: Seq<char>, b: Seq<char>)
    requires
        forall|i: int| 0 <= i < a.len() ==> text::is_white(#[trigger] a[i]),
        forall|i: int| 0 <= i < b.len() ==> text::is_white(#[trigger] b[i]),
        s.len() > 0 ==> !text::is_white(s[0]) && !text::is_white(s[s.len() - 1]),
    ensures
        text::trim(a + s + b) == s,
        s.len() > 0 ==> text::trim_back(s + b) == s,
        s.len() > 0 ==> text::trim_front(a + s) == s,
{
    if s.len() > 0 {
        lemma_front(a, s + b);
        lemma_front(a, s);
        lemma_back(s, b);
        assert(a + s + b =~= a + (s + b));
        assert((s + b)[0] == s[0]);
    } else {
        let t = a + b;
        assert(a + s + b =~= t + Seq::<char>::empty());
        lemma_front(t, Seq::empty());
        assert(s =~= Seq::<char>::empty());
    }
}

proof fn lemma_front(a: Seq<char>, s: Seq<char>)
    requires
        forall|i: int| 0 <= i < a.len() ==> text::is_white(#[trigger] a[i]),
        s.len() > 0 ==> !text::is_white(s[0]),
    ensures
        text::trim_front(a + s) == s,
    decreases a.len(),
{
    if a.len() > 0 {
        assert((a + s).first() == a[0]);
        assert((a + s).drop_first() =~= a.drop_first() + s);
        lemma_front(a.drop_first(), s);
    } else {
        assert(a + s =~= s);
    }
}

proof fn lemma_back(s: Seq<char>, b: Seq<char>)
    requires
        forall|i: int| 0 <= i < b.len() ==> text::is_white(#[trigger] b[i]),
        s.len() > 0,
        !text::is_white(s[s.len() - 1]),
    ensures
        text::trim_back(s + b) == s,
    decreases b.len(),
{
    if b.len() > 0 {
        assert((s + b).last() == b.last());
        assert(text::is_white(b[b.len() - 1]));
        assert((s + b).drop_last() =~= s + b.drop_last());
        lemma_back(s, b.drop_last());
    } else {
        assert(s + b =~= s);
    }
}

/// Capitals are made of the small letters and of nothing else, one for one.
pub proof fn law_what_capitals_are_made_of(s: Seq<char>, i: int)
    requires
        0 <= i < s.len(),
    ensures
        text::uppers(s).len() == s.len(),
        'a' <= s[i] <= 'z' ==> text::uppers(s)[i] as int == s[i] as int - 32,
        !('a' <= s[i] <= 'z') ==> text::uppers(s)[i] == s[i],
{
}

/// A text is parted at each mark: what stands between two is a piece.
pub proof fn law_a_text_is_parted_at_each_mark(a: Seq<char>, rest: Seq<char>, sep: char)
    requires
        forall|i: int| 0 <= i < a.len() ==> #[trigger] a[i] != sep,
    ensures
        text::pieces(a, sep) == seq![a],
        text::pieces(a.push(sep) + rest, sep) == seq![a] + text::pieces(rest, sep),
{
    let n = a.len() as int;
    text::lemma_find_from(a, sep, 0, n);
    let s = a.push(sep) + rest;
    assert forall|j: int| 0 <= j < n implies s[j] != sep by {
        assert(s[j] == a[j]);
    }
    assert(s[n] == sep);
    text::lemma_find_from(s, sep, 0, n);
    assert(s.take(n) =~= a);
    assert(s.skip(n + 1) =~= rest);
}

/// A number is written in digits, without a zero in front of others, and reads back.
pub proof fn law_a_number_reads_back(n: nat)
    ensures
        text::dec(n).len() > 0,
        decimal::all_digits(text::dec(n)),
        decimal::val(text::dec(n)) == n,
        decimal::uint_of(text::dec(n)) == Some(n as int),
        n >= 10 ==> text::dec(n)[0] != '0',
        n == 0 ==> text::dec(n) == seq!['0'],
    decreases n,
{
    if n < 10 {
        let d = text::dec(n);
        assert(d =~= seq![text::digit(n as int)]);
        assert(d.drop_last() =~= Seq::<char>::empty());
        assert(decimal::val(d.drop_last()) == 0);
        assert(text::is_digit(d[0]));
    } else {
        let m = n / 10;
        law_a_number_reads_back(m);
        let d = text::dec(n);
        assert(d.drop_last() =~= text::dec(m));
        assert(text::is_digit(d.last()));
        assert forall|i: int| 0 <= i < d.len() implies text::is_digit(#[trigger] d[i]) by {
            if i < d.len() - 1 {
                assert(d[i] == text::dec(m)[i]);
            }
        }
        assert(d[0] == text::dec(m)[0]);
        if m < 10 {
            assert(text::dec(m) =~= seq![text::digit(m as int)]);
        }
    }
    assert(text::is_digit(text::dec(n)[0]));
}

/// So does one with a sign.
pub proof fn law_a_signed_number_reads_back(n: int)
    ensures
        decimal::int_of(text::signed_dec(n)) == Some(n),
{
    if n < 0 {
        law_a_number_reads_back((-n) as nat);
        let s = text::signed_dec(n);
        assert(s.skip(1) =~= text::dec((-n) as nat));
        assert(s[0] == '-');
    } else {
        law_a_number_reads_back(n as nat);
        assert(text::is_digit(text::dec(n as nat)[0]));
    }
}

/// What is no row of digits behind an optional sign is no whole number.
pub proof fn law_what_is_a_whole_number(s: Seq<char>)
    requires
        s.len() > 0,
        s[0] != '+',
        s[0] != '-',
    ensures
        decimal::uint_of(s) is Some <==> (forall|i: int|
            0 <= i < s.len() ==> '0' <= #[trigger] s[i] <= '9'),
        decimal::uint_of(s) is Some ==> decimal::uint_of(s) == Some(decimal::val(s)),
        decimal::uint_of(seq!['+'] + s) == decimal::uint_of(s),
        decimal::int_of(s) == decimal::uint_of(s),
        decimal::uint_of(s) is Some ==> decimal::int_of(seq!['-'] + s) == Some(-decimal::val(s)),
        decimal::uint_of(s) is None ==> decimal::int_of(seq!['-'] + s) is None,
        decimal::uint_of(seq!['-'] + s) is None,
{
    let p = seq!['+'] + s;
    let m = seq!['-'] + s;
    assert(p.skip(1) =~= s);
    assert(m.skip(1) =~= s);
    assert(m[0] == '-');
    assert(!text::is_digit(m[0]));
    if decimal::all_digits(s) {
        assert forall|i: int| 0 <= i < s.len() implies '0' <= #[trigger] s[i] <= '9' by {
            assert(text::is_digit(s[i]));
        }
    } else {
        let i = choose|i: int| 0 <= i < s.len() && !text::is_digit(#[trigger] s[i]);
        assert(!('0' <= s[i] <= '9'));
    }
}

proof fn lemma_val_split(a: Seq<char>, b: Seq<char>)
    ensures
        decimal::val(a + b) == decimal::val(a) * pow(10, b.len()) + decimal::val(b),
    decreases b.len(),
{
    lemma_pow0(10);
    if b.len() == 0 {
        assert(a + b =~= a);
        assert(decimal::val(a) * 1 == decimal::val(a));
    } else {
        let c = b.drop_last();
        lemma_val_split(a, c);
        assert((a + b).drop_last() =~= a + c);
        lemma_pow_adds(10, 1, c.len());
        lemma_pow1(10);
        let p = pow(10, c.len());
        let v = decimal::val(a);
        assert(10 * (v * p) == v * (10 * p)) by (nonlinear_arith);
        assert(10 * (v * p + decimal::val(c)) == 10 * (v * p) + 10 * decimal::val(c));
    }
}

proof fn lemma_val_below(d: Seq<char>)
    requires
        decimal::all_digits(d),
    ensures
        0 <= decimal::val(d) < pow(10, d.len()),
    decreases d.len(),
{
    lemma_pow0(10);
    if d.len() > 0 {
        let c = d.drop_last();
        assert(text::is_digit(d[d.len() - 1]));
        assert forall|i: int| 0 <= i < c.len() implies text::is_digit(#[trigger] c[i]) by {
            assert(text::is_digit(d[i]));
        }
        lemma_val_below(c);
        lemma_pow_adds(10, 1, c.len());
        lemma_pow1(10);
    }
}

/// A number with a point is taken to so many places, the nearest, and upwards where
/// two are as near.
pub proof fn law_a_number_is_rounded_to_the_nearest(d: Seq<char>, k: nat)
    requires
        decimal::all_digits(d),
        0 < k <= d.len(),
    ensures
        ({
            let r = decimal::shifted(d, -(k as int));
            let p = pow(10, k);
            -p < 2 * (p * r - decimal::val(d)) <= p
        }),
{
    reveal(decimal::shifted);
    let m = d.len() - k;
    let a = d.take(m);
    let b = d.skip(m);
    assert(a + b =~= d);
    lemma_val_split(a, b);
    let c = b.take(1);
    let e = b.skip(1);
    assert(c + e =~= b);
    lemma_val_split(c, e);
    assert(c =~= seq![d[m]]);
    assert(c.drop_last() =~= Seq::<char>::empty());
    assert(decimal::val(c.drop_last()) == 0);
    assert(text::is_digit(d[m]));
    let x = d[m] as int - 48;
    assert(decimal::val(c) == x);
    assert forall|i: int| 0 <= i < e.len() implies text::is_digit(#[trigger] e[i]) by {
        assert(e[i] == d[m + 1 + i]);
    }
    lemma_val_below(e);
    let q = pow(10, e.len());
    let p = pow(10, k);
    lemma_pow_adds(10, 1, e.len());
    lemma_pow1(10);
    assert(p == 10 * q);
    let v = decimal::val(a);
    let w = decimal::val(e);
    assert(v * p == p * v) by (nonlinear_arith);
    if x >= 5 {
        assert(x * q >= 5 * q && x * q <= 9 * q) by (nonlinear_arith)
            requires
                5 <= x <= 9,
                q > 0,
        ;
        assert(p * (v + 1) == p * v + p) by (nonlinear_arith);
    } else {
        assert(0 <= x * q <= 4 * q) by (nonlinear_arith)
            requires
                0 <= x <= 4,
                q > 0,
        ;
    }
}

/// With more places than it has digits behind the point a number is as many times
/// ten, and one that is smaller than a half of the last place is none.
pub proof fn law_a_number_with_room_is_exact(d: Seq<char>, k: nat)
    ensures
        decimal::shifted(d, k as int) == decimal::val(d) * pow(10, k),
        k > d.len() ==> decimal::shifted(d, -(k as int)) == 0,
{
    reveal(decimal::shifted);
}

/// Digits, a point and digits are a number, with a sign in front or without.
pub proof fn law_a_number_with_a_point(a: Seq<char>, b: Seq<char>)
    requires
        decimal::all_digits(a),
        decimal::all_digits(b),
        a.len() > 0,
    ensures
        decimal::number_in(a + seq!['.'] + b) == Some(
            Number { negative: false, digits: a + b, exp: -(b.len() as int) },
        ),
        decimal::number_in(seq!['-'] + (a + seq!['.'] + b)) == Some(
            Number { negative: true, digits: a + b, exp: -(b.len() as int) },
        ),
        decimal::number_in(a) == Some(Number { negative: false, digits: a, exp: 0 }),
{
    let s = a + seq!['.'] + b;
    let n = a.len() as int;
    assert(text::is_digit(a[0]));
    assert forall|i: int| 0 <= i < n implies text::is_digit(#[trigger] s[i]) by {
        assert(s[i] == a[i]);
    }
    assert(s[n] == '.');
    assert forall|i: int| n + 1 <= i < s.len() implies text::is_digit(#[trigger] s[i]) by {
        assert(s[i] == b[i - n - 1]);
    }
    decimal::lemma_run_end_is(s, 0, n);
    decimal::lemma_run_end_is(s, n + 1, s.len() as int);
    assert(s.subrange(0, n) =~= a);
    assert(s.subrange(n + 1, s.len() as int) =~= b);
    let t = seq!['-'] + s;
    assert forall|i: int| 1 <= i < n + 1 implies text::is_digit(#[trigger] t[i]) by {
        assert(t[i] == s[i - 1]);
    }
    assert(t[n + 1] == '.');
    assert forall|i: int| n + 2 <= i < t.len() implies text::is_digit(#[trigger] t[i]) by {
        assert(t[i] == s[i - 1]);
    }
    decimal::lemma_run_end_is(t, 1, n + 1);
    decimal::lemma_run_end_is(t, n + 2, t.len() as int);
    assert(t.subrange(1, n + 1) =~= a);
    assert(t.subrange(n + 2, t.len() as int) =~= b);
    decimal::lemma_run_end_is(a, 0, n);
    assert(a.subrange(0, n) + a.subrange(n, n) =~= a);
}

/// What a number with a point comes to in so many places.
pub proof fn law_a_number_in_places(a: Seq<char>, b: Seq<char>, places: int)
    requires
        decimal::all_digits(a),
        decimal::all_digits(b),
        a.len() > 0,
        decimal::shifted(a + b, places - b.len()) <= i64::MAX,
    ensures
        decimal::fixed_of(a + seq!['.'] + b, places) == Some(
            decimal::shifted(a + b, places - b.len()),
        ),
{
    law_a_number_with_a_point(a, b);
    let s = a + seq!['.'] + b;
    assert(s[0] == a[0]);
    assert(text::is_digit(a[0]));
    decimal::lemma_digits_are_no_word(s);
}

/// How many bytes a text is as UTF-8.
pub proof fn law_how_many_bytes_a_text_is(s: Seq<char>, c: char)
    ensures
        text::utf8_len(Seq::empty()) == 0,
        text::utf8_len(s.push(c)) == text::utf8_len(s) + (if c <= '\u{7f}' {
            1int
        } else if c <= '\u{7ff}' {
            2
        } else if c <= '\u{ffff}' {
            3
        } else {
            4
        }),
{
    assert(s.push(c).drop_last() =~= s);
}

proof fn lemma_ten(k: nat)
    ensures
        pow(10, k) == pow(2, k) * pow(5, k),
        pow(2, k) > 0,
        pow(5, k) > 0,
{
    vstd::arithmetic::power::lemma_pow_distributes(2, 5, k);
    lemma_pow_positive(2, k);
    lemma_pow_positive(5, k);
}

proof fn lemma_whole(n: Number, y: int, k: nat)
    requires
        n.exp == 0,
    ensures
        floats::stands(n, y * pow(5, k), k as int) == floats::side(
            decimal::val(n.digits) * pow(2, k),
            y,
        ),
{
    lemma_ten(k);
    let v = decimal::val(n.digits);
    let a = pow(2, k);
    let b = pow(5, k);
    assert(v * (a * b) == (v * a) * b) by (nonlinear_arith);
    let x = v * a;
    assert(x * b < y * b <==> x < y) by (nonlinear_arith)
        requires
            b > 0,
    ;
    assert(x * b == y * b <==> x == y) by (nonlinear_arith)
        requires
            b > 0,
    ;
}

/// A whole number is nothing where it is zero, a thousand where it is a thousand or
/// more, and within two hundred where it is two hundred or less.
pub proof fn law_whole_numbers_as_floats(n: Number)
    requires
        n.exp == 0,
        decimal::all_digits(n.digits),
    ensures
        floats::double_is_zero(n) <==> decimal::val(n.digits) == 0,
        floats::double_is_thousand(n) <==> decimal::val(n.digits) >= 1000,
        floats::single_within_two_hundred(n) <==> decimal::val(n.digits) <= 200,
{
    let v = decimal::val(n.digits);
    lemma_val_below(n.digits);
    let a = pow(2, 1075);
    lemma_pow_adds(2, 1, 1074);
    lemma_pow1(2);
    lemma_pow_positive(2, 1074);
    assert(1 * pow(5, 1075) == pow(5, 1075));
    lemma_whole(n, 1, 1075);
    assert(v * a <= 1 <==> v == 0) by (nonlinear_arith)
        requires
            a >= 2,
            v >= 0,
    ;
    lemma_pow_44();
    lemma_whole(n, 17_592_186_044_415_999, 44);
    lemma_whole(n, 26_214_401, 17);
    assert(v * 17_592_186_044_416 >= 17_592_186_044_415_999 <==> v >= 1000);
    assert(v * 131_072 <= 26_214_401 <==> v <= 200);
}

proof fn lemma_pow_44()
    ensures
        pow(2, 44) == 17_592_186_044_416,
        pow(2, 17) == 131_072,
{
    lemma_pow1(2);
    lemma_pow_adds(2, 1, 1);
    assert(pow(2, 2) == 2int * 2);
    lemma_pow_adds(2, 2, 2);
    assert(pow(2, 4) == 4int * 4);
    lemma_pow_adds(2, 4, 4);
    assert(pow(2, 8) == 16int * 16);
    lemma_pow_adds(2, 8, 8);
    assert(pow(2, 16) == 256int * 256);
    lemma_pow_adds(2, 16, 1);
    assert(pow(2, 17) == 65536int * 2);
    lemma_pow_adds(2, 16, 16);
    assert(pow(2, 32) == 65536int * 65536);
    lemma_pow_adds(2, 32, 8);
    assert(pow(2, 40) == 4294967296int * 256);
    lemma_pow_adds(2, 40, 4);
    assert(pow(2, 44) == 1099511627776int * 16);
}

/// A zero more behind the point changes nothing.
pub proof fn law_a_zero_behind_the_point(d: Seq<char>, exp: int, y: int, t: int)
    ensures
        floats::stands(Number { negative: false, digits: d.push('0'), exp: exp - 1 }, y, t)
            == floats::stands(Number { negative: false, digits: d, exp }, y, t),
{
    let v = decimal::val(d);
    assert(d.push('0').drop_last() =~= d);
    assert(decimal::val(d.push('0')) == 10 * v);
    let s = exp + t;
    lemma_pow1(10);
    if s >= 1 {
        lemma_pow_adds(10, 1, (s - 1) as nat);
        let p = pow(10, (s - 1) as nat);
        assert((10 * v) * p == v * (10 * p)) by (nonlinear_arith);
    } else {
        let k = (-s) as nat;
        lemma_pow_adds(10, 1, k);
        let p = pow(10, k);
        assert(y * (10 * p) == 10 * (y * p)) by (nonlinear_arith);
        if s == 0 {
            lemma_pow0(10);
            assert(v * 1 == v && y * 1 == y);
        }
    }
}

/// The sign of a number is that in front of it, unless it is as good as nothing.
pub proof fn law_the_sign_of_a_number(s: Seq<char>, n: Number)
    requires
        s.len() > 0,
        decimal::number_in(s) == Some(n),
        !decimal::endless(s),
    ensures
        floats::vanishes(n, 150) ==> floats::single_sign(s) == Some(0int),
        !floats::vanishes(n, 150) && s[0] == '-' ==> floats::single_sign(s) == Some(-1int),
        !floats::vanishes(n, 150) && s[0] != '-' ==> floats::single_sign(s) == Some(1int),
        n.negative == (s[0] == '-'),
        floats::vanishes(n, 150) <==> floats::stands(n, pow(5, 150), 150) != Side::Above,
{
}

/// An exponent behind digits moves the point.
pub proof fn law_a_number_with_an_exponent(a: Seq<char>, e: Seq<char>)
    requires
        decimal::all_digits(a),
        a.len() > 0,
    ensures
        decimal::int_of(e) is Some ==> decimal::number_in(a.push('e') + e) == Some(
            Number { negative: false, digits: a, exp: decimal::int_of(e)->0 },
        ),
        decimal::int_of(e) is Some ==> decimal::number_in(a.push('E') + e) == Some(
            Number { negative: false, digits: a, exp: decimal::int_of(e)->0 },
        ),
        decimal::int_of(e) is None ==> decimal::number_in(a.push('e') + e) is None,
{
    reveal(decimal::exponent_of);
    lemma_exponent(a, 'e', e);
    lemma_exponent(a, 'E', e);
}

proof fn lemma_exponent(a: Seq<char>, mark: char, e: Seq<char>)
    requires
        decimal::all_digits(a),
        a.len() > 0,
        mark == 'e' || mark == 'E',
    ensures
        ({
            let s = a.push(mark) + e;
            let n = a.len() as int;
            &&& decimal::behind_sign(s) == 0
            &&& decimal::run_end(s, 0) == n
            &&& s[n] == mark
            &&& s.subrange(0, n) + s.subrange(n, n) == a
            &&& s.skip(n + 1) == e
            &&& s[0] != '-'
        }),
{
    let s = a.push(mark) + e;
    let n = a.len() as int;
    assert(s[0] == a[0]);
    assert(text::is_digit(a[0]));
    assert forall|i: int| 0 <= i < n implies text::is_digit(#[trigger] s[i]) by {
        assert(s[i] == a[i]);
    }
    assert(s[n] == mark);
    decimal::lemma_run_end_is(s, 0, n);
    assert(s.subrange(0, n) + s.subrange(n, n) =~= a);
    assert(s.skip(n + 1) =~= e);
}

/// Only these two words are without end, in any case and with a sign or without.
pub proof fn law_which_words_are_without_end(w: Seq<char>)
    requires
        w.len() > 0,
        w[0] != '-',
        w[0] != '+',
    ensures
        decimal::endless(w) <==> text::uppers(w) == "INF"@ || text::uppers(w) == "INFINITY"@,
        decimal::endless(seq!['-'] + w) == decimal::endless(w),
        decimal::endless(seq!['+'] + w) == decimal::endless(w),
{
    assert(w.skip(0) =~= w);
    let m = seq!['-'] + w;
    let p = seq!['+'] + w;
    assert(m.skip(1) =~= w);
    assert(p.skip(1) =~= w);
    assert(m[0] == '-' && p[0] == '+');
}

/// A whole number is without end where it is past the middle between the largest
/// float and the next that would be.
pub proof fn law_whole_numbers_without_end(n: Number)
    requires
        n.exp == 0,
    ensures
        floats::double_is_endless(n) <==> decimal::val(n.digits) >= 18_014_398_509_481_983 * pow(
            2,
            970,
        ),
{
    lemma_pow0(10);
    assert(decimal::val(n.digits) * 1 == decimal::val(n.digits));
}

} // verus!
