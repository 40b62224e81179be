//! Where a decimal number stands among the floating-point ones: which of them is
//! nearest decides whether it is zero, or too large to be finite.
//!
//! Numbers are compared exactly, digit by digit, however long they are.
use crate::decimal;
use crate::decimal::Parsed;
use crate::text;
use vstd::arithmetic::power::pow;
use vstd::prelude::*;

verus! {

broadcast use vstd::seq::group_seq_axioms;

/// The value of some decimal digits, the lowest first.
pub open spec fn value(s: Seq<u8>) -> int
    decreases s.len(),
{
    if s.len() == 0 {
        0
    } else {
        s[0] as int + 10 * value(s.drop_first())
    }
}

pub open spec fn digits_only(s: Seq<u8>) -> bool {
    forall|i: int| 0 <= i < s.len() ==> #[trigger] s[i] < 10
}

/// Digits of a number that is not zero, without any zero in front.
pub open spec fn proper(s: Seq<u8>) -> bool {
    digits_only(s) && s.len() > 0 && s.last() > 0
}

proof fn lemma_tens(a: nat)
    ensures
        pow(10, a) >= 1,
        pow(10, a + 1) == 10 * pow(10, a),
        pow(10, 0) == 1,
{
    vstd::arithmetic::power::lemma_pow_positive(10, a);
    vstd::arithmetic::power::lemma_pow_adds(10, 1, a);
    vstd::arithmetic::power::lemma_pow1(10);
    vstd::arithmetic::power::lemma_pow0(10);
}

/// Digits from `i` on count `10` to the `i` times as much.
proof fn lemma_split(s: Seq<u8>, i: int)
    requires
        0 <= i <= s.len(),
    ensures
        value(s) == value(s.take(i)) + pow(10, i as nat) * value(s.skip(i)),
    decreases i,
{
    if i == 0 {
        lemma_tens(0);
        assert(s.skip(0) =~= s);
        assert(pow(10, 0) * value(s) == value(s)) by (nonlinear_arith)
            requires
                pow(10, 0) == 1,
        ;
    } else {
        let rest = s.drop_first();
        lemma_split(rest, i - 1);
        lemma_tens((i - 1) as nat);
        assert(rest.take(i - 1) =~= s.take(i).drop_first());
        assert(rest.skip(i - 1) =~= s.skip(i));
        let p = pow(10, (i - 1) as nat);
        let v = value(s.skip(i));
        assert(10 * (p * v) == (10 * p) * v) by (nonlinear_arith);
    }
}

proof fn lemma_push(s: Seq<u8>, c: u8)
    ensures
        value(s.push(c)) == value(s) + pow(10, s.len()) * c,
{
    let t = s.push(c);
    lemma_split(t, s.len() as int);
    assert(t.take(s.len() as int) =~= s);
    let last = t.skip(s.len() as int);
    assert(last =~= seq![c]);
    assert(last.drop_first() =~= Seq::<u8>::empty());
    assert(value(last.drop_first()) == 0);
    assert(value(last) == c);
}

proof fn lemma_bound(s: Seq<u8>)
    requires
        digits_only(s),
    ensures
        0 <= value(s) < pow(10, s.len()),
    decreases s.len(),
{
    lemma_tens(0);
    if s.len() > 0 {
        let rest = s.drop_first();
        assert forall|i: int| 0 <= i < rest.len() implies #[trigger] rest[i] < 10 by {
            assert(s[i + 1] < 10);
        }
        lemma_bound(rest);
        lemma_tens(rest.len());
        assert(s[0] < 10);
    }
}

proof fn lemma_top(s: Seq<u8>)
    requires
        proper(s),
    ensures
        pow(10, (s.len() - 1) as nat) <= value(s) < pow(10, s.len()),
        value(s) > 0,
{
    let n = s.len() - 1;
    lemma_bound(s);
    lemma_split(s, n);
    let low = s.take(n);
    assert forall|i: int| 0 <= i < low.len() implies #[trigger] low[i] < 10 by {
        assert(s[i] < 10);
    }
    lemma_bound(low);
    lemma_tens(n as nat);
    let high = s.skip(n);
    assert(high =~= seq![s.last()]);
    assert(value(high.drop_first()) == 0);
    let p = pow(10, n as nat);
    let c = value(high);
    assert(p * c >= p) by (nonlinear_arith)
        requires
            p >= 1,
            c >= 1,
    ;
}

/// Zeroes below the lowest digit.
proof fn lemma_padded(s: Seq<u8>, n: nat)
    ensures
        value(Seq::new(n, |i: int| 0u8) + s) == pow(10, n) * value(s),
{
    let zeros = Seq::new(n, |i: int| 0u8);
    let t = zeros + s;
    lemma_split(t, n as int);
    assert(t.take(n as int) =~= zeros);
    assert(t.skip(n as int) =~= s);
    lemma_zeros(n);
}

proof fn lemma_zeros(n: nat)
    ensures
        value(Seq::new(n, |i: int| 0u8)) == 0,
    decreases n,
{
    let z = Seq::new(n, |i: int| 0u8);
    if n > 0 {
        assert(z.drop_first() =~= Seq::new((n - 1) as nat, |i: int| 0u8));
        lemma_zeros((n - 1) as nat);
    }
}

/// The digits of a number times a small one.
fn times(x: &Vec<u8>, k: u8) -> (r: Vec<u8>)
    requires
        proper(x@),
        1 <= k <= 9,
    ensures
        proper(r@),
        value(r@) == k * value(x@),
{
    let mut out: Vec<u8> = Vec::new();
    let mut carry: u8 = 0;
    let mut i: usize = 0;
    proof {
        assert(value(x@.take(0)) == 0);
        lemma_tens(0);
    }
    while i < x.len()
        invariant
            i <= x@.len(),
            proper(x@),
            1 <= k <= 9,
            carry <= 8,
            out@.len() == i,
            digits_only(out@),
            value(out@) + pow(10, i as nat) * carry == k * value(x@.take(i as int)),
            i > 0 && x@[i - 1] > 0 ==> carry > 0 || out@[i - 1] > 0,
        decreases x@.len() - i,
    {
        assert(x@[i as int] < 10);
        let d: u8 = x[i];
        assert(k * d <= 81) by (nonlinear_arith)
            requires
                0 <= k <= 9,
                0 <= d <= 9,
        ;
        let t: u8 = k * d + carry;
        let low: u8 = t % 10;
        let next: u8 = t / 10;
        proof {
            let before = out@;
            let p = pow(10, i as nat);
            lemma_push(before, low);
            lemma_tens(i as nat);
            assert(x@.take(i + 1) =~= x@.take(i as int).push(d));
            lemma_push(x@.take(i as int), d);
            let v = value(x@.take(i as int));
            assert(k * (v + p * d) == k * v + p * (k * d)) by (nonlinear_arith);
            assert(p * low + (10 * p) * next == p * (k * d) + p * carry) by (nonlinear_arith)
                requires
                    low + 10 * next == k * d + carry,
            ;
            if d > 0 {
                assert(k * d > 0) by (nonlinear_arith)
                    requires
                        k >= 1,
                        d > 0,
                ;
            }
        }
        out.push(low);
        carry = next;
        i += 1;
    }
    assert(x@.take(x@.len() as int) =~= x@);
    if carry > 0 {
        proof {
            lemma_push(out@, carry);
        }
        out.push(carry);
    } else {
        assert(pow(10, i as nat) * carry == 0) by (nonlinear_arith)
            requires
                carry == 0,
        ;
    }
    out
}

/// The digits of a number.
fn digits_of(n: u64) -> (r: Vec<u8>)
    requires
        n > 0,
    ensures
        proper(r@),
        value(r@) == n,
{
    let mut out: Vec<u8> = Vec::new();
    let mut rest: u64 = n;
    proof {
        lemma_tens(0);
        assert(pow(10, 0) * n == n) by (nonlinear_arith)
            requires
                pow(10, 0) == 1,
        ;
    }
    while rest > 0
        invariant
            digits_only(out@),
            value(out@) + pow(10, out@.len()) * rest == n,
            rest == 0 ==> out@.len() > 0 && out@.last() > 0,
        decreases rest,
    {
        let low: u8 = (rest % 10) as u8;
        let next: u64 = rest / 10;
        proof {
            let p = pow(10, out@.len());
            lemma_push(out@, low);
            lemma_tens(out@.len());
            assert(p * low + (10 * p) * next == p * rest) by (nonlinear_arith)
                requires
                    low + 10 * next == rest,
            ;
        }
        out.push(low);
        rest = next;
    }
    assert(pow(10, out@.len()) * rest == 0) by (nonlinear_arith)
        requires
            rest == 0,
    ;
    out
}

/// The digits of `n` times `k` to the `e`.
fn power(n: u64, k: u8, e: u32) -> (r: Vec<u8>)
    requires
        n > 0,
        1 <= k <= 9,
    ensures
        proper(r@),
        value(r@) == n * pow(k as int, e as nat),
{
    let mut r: Vec<u8> = digits_of(n);
    let mut i: u32 = 0;
    proof {
        vstd::arithmetic::power::lemma_pow0(k as int);
        assert(n * pow(k as int, 0) == n) by (nonlinear_arith)
            requires
                pow(k as int, 0) == 1,
        ;
    }
    while i < e
        invariant
            i <= e,
            1 <= k <= 9,
            proper(r@),
            value(r@) == n * pow(k as int, i as nat),
        decreases e - i,
    {
        r = times(&r, k);
        proof {
            vstd::arithmetic::power::lemma_pow_adds(k as int, 1, i as nat);
            vstd::arithmetic::power::lemma_pow1(k as int);
            let p = pow(k as int, i as nat);
            assert(k * (n * p) == n * (k * p)) by (nonlinear_arith);
        }
        i += 1;
    }
    r
}

/// A digit in front of others.
proof fn lemma_front(c: char, s: Seq<char>)
    ensures
        decimal::val(seq![c] + s) == (c as int - 48) * pow(10, s.len()) + decimal::val(s),
    decreases s.len(),
{
    let t = seq![c] + s;
    lemma_tens(0);
    if s.len() == 0 {
        assert(t =~= seq![c]);
        assert(t.drop_last() =~= Seq::<char>::empty());
        assert(decimal::val(t.drop_last()) == 0);
        assert((c as int - 48) * pow(10, 0) == c as int - 48) by (nonlinear_arith)
            requires
                pow(10, 0) == 1,
        ;
    } else {
        lemma_front(c, s.drop_last());
        assert(t.drop_last() =~= seq![c] + s.drop_last());
        lemma_tens(s.drop_last().len());
        let p = pow(10, s.drop_last().len());
        let d = c as int - 48;
        assert(10 * (d * p) == d * (10 * p)) by (nonlinear_arith);
    }
}

/// The digits of a text, the lowest first and none where they are all zero.
fn lowest_first(v: &Vec<char>) -> (r: Vec<u8>)
    requires
        decimal::all_digits(v@),
    ensures
        digits_only(r@),
        r@.len() > 0 ==> r@.last() > 0,
        r@.len() <= v@.len(),
        value(r@) == decimal::val(v@),
{
    let mut f: usize = 0;
    assert(v@.skip(0) =~= v@);
    while f < v.len() && v[f] == '0'
        invariant
            f <= v@.len(),
            decimal::val(v@.skip(f as int)) == decimal::val(v@),
        decreases v@.len() - f,
    {
        proof {
            let rest = v@.skip(f + 1);
            lemma_front('0', rest);
            assert(v@.skip(f as int) =~= seq!['0'] + rest);
            assert(0 * pow(10, rest.len()) == 0) by (nonlinear_arith);
        }
        f += 1;
    }
    let mut out: Vec<u8> = Vec::new();
    let mut j: usize = v.len();
    assert(decimal::val(v@.skip(v@.len() as int)) == 0);
    while j > f
        invariant
            f <= j <= v@.len(),
            decimal::all_digits(v@),
            f < v@.len() ==> v@[f as int] != '0',
            out@.len() == v@.len() - j,
            digits_only(out@),
            value(out@) == decimal::val(v@.skip(j as int)),
            j < v@.len() ==> out@.last() == v@[j as int] as int - 48,
        decreases j,
    {
        assert(text::is_digit(v@[j - 1]));
        let c: char = v[j - 1];
        let d: u8 = c as u8 - 48;
        proof {
            lemma_push(out@, d);
            lemma_front(c, v@.skip(j as int));
            assert(v@.skip(j - 1) =~= seq![c] + v@.skip(j as int));
            let p = pow(10, out@.len());
            assert(p * d == d * p) by (nonlinear_arith);
        }
        out.push(d);
        j -= 1;
    }
    out
}

/// On which side of a number another one is.
#[derive(Clone, Copy, Debug, PartialEq, Eq, Structural)]
pub enum Side {
    Below,
    Equal,
    Above,
}

/// On which side of `y` is `x`.
pub open spec fn side(x: int, y: int) -> Side {
    if x < y {
        Side::Below
    } else if x == y {
        Side::Equal
    } else {
        Side::Above
    }
}

/// On which side of `y` are the digits of `x` moved `s` places to the left.
pub open spec fn moved_side(x: int, s: int, y: int) -> Side {
    if s >= 0 {
        side(x * pow(10, s as nat), y)
    } else {
        side(x, y * pow(10, (-s) as nat))
    }
}

/// Numbers of as many digits.
fn compare(x: &Vec<u8>, y: &Vec<u8>) -> (r: Side)
    requires
        digits_only(x@),
        digits_only(y@),
        x@.len() == y@.len(),
    ensures
        r == side(value(x@), value(y@)),
{
    let mut i: usize = x.len();
    while i > 0 && x[i - 1] == y[i - 1]
        invariant
            i <= x@.len(),
            x@.len() == y@.len(),
            x@.skip(i as int) == y@.skip(i as int),
        decreases i,
    {
        i -= 1;
        assert(x@.skip(i as int) =~= seq![x@[i as int]] + x@.skip(i + 1));
        assert(y@.skip(i as int) =~= seq![y@[i as int]] + y@.skip(i + 1));
    }
    if i == 0 {
        assert(x@.skip(0) =~= x@ && y@.skip(0) =~= y@);
        return Side::Equal;
    }
    proof {
        lemma_split(x@, i as int);
        lemma_split(y@, i as int);
        assert(x@[i - 1] < 10 && y@[i - 1] < 10);
        if x@[i - 1] < y@[i - 1] {
            lemma_lower(x@.take(i as int), y@.take(i as int));
        } else {
            lemma_lower(y@.take(i as int), x@.take(i as int));
        }
    }
    if x[i - 1] < y[i - 1] {
        Side::Below
    } else {
        Side::Above
    }
}

/// The highest digit decides.
proof fn lemma_lower(x: Seq<u8>, y: Seq<u8>)
    requires
        forall|i: int| 0 <= i < x.len() ==> #[trigger] x[i] < 10,
        forall|i: int| 0 <= i < y.len() ==> #[trigger] y[i] < 10,
        x.len() == y.len(),
        x.len() > 0,
        x.last() < y.last(),
    ensures
        value(x) < value(y),
{
    let n = x.len() - 1;
    let a = x.drop_last();
    let b = y.drop_last();
    assert(x =~= a.push(x.last()) && y =~= b.push(y.last()));
    lemma_push(a, x.last());
    lemma_push(b, y.last());
    assert forall|i: int| 0 <= i < a.len() implies #[trigger] a[i] < 10 by {
        assert(x[i] < 10);
    }
    assert forall|i: int| 0 <= i < b.len() implies #[trigger] b[i] < 10 by {
        assert(y[i] < 10);
    }
    lemma_bound(a);
    lemma_bound(b);
    let p = pow(10, n as nat);
    let c = x.last() as int;
    let d = y.last() as int;
    assert(p * c + p <= p * d) by (nonlinear_arith)
        requires
            c + 1 <= d,
            p >= 0,
    ;
}

/// A number with more places in front of the point is larger.
proof fn lemma_longer(x: int, n: nat, s: int, y: int, m: nat)
    requires
        n > 0,
        m > 0,
        pow(10, (n - 1) as nat) <= x < pow(10, n),
        pow(10, (m - 1) as nat) <= y < pow(10, m),
        n + s != m,
    ensures
        moved_side(x, s, y) == if n + s > m {
            Side::Above
        } else {
            Side::Below
        },
{
    let k = if s >= 0 {
        s as nat
    } else {
        (-s) as nat
    };
    let p = pow(10, k);
    lemma_tens(k);
    if s >= 0 {
        if n + s > m {
            vstd::arithmetic::power::lemma_pow_adds(10, (n - 1) as nat, k);
            vstd::arithmetic::power::lemma_pow_increases(10, m, (n - 1 + k) as nat);
            let q = pow(10, (n - 1) as nat);
            assert(x * p >= q * p) by (nonlinear_arith)
                requires
                    x >= q,
                    p >= 1,
            ;
        } else {
            vstd::arithmetic::power::lemma_pow_adds(10, n, k);
            vstd::arithmetic::power::lemma_pow_increases(10, (n + k) as nat, (m - 1) as nat);
            let q = pow(10, n);
            assert(x * p < q * p) by (nonlinear_arith)
                requires
                    x < q,
                    p >= 1,
            ;
        }
    } else {
        if n + s > m {
            vstd::arithmetic::power::lemma_pow_adds(10, m, k);
            vstd::arithmetic::power::lemma_pow_increases(10, (m + k) as nat, (n - 1) as nat);
            let q = pow(10, m);
            assert(y * p < q * p) by (nonlinear_arith)
                requires
                    y < q,
                    p >= 1,
            ;
        } else {
            vstd::arithmetic::power::lemma_pow_adds(10, (m - 1) as nat, k);
            vstd::arithmetic::power::lemma_pow_increases(10, n, (m - 1 + k) as nat);
            let q = pow(10, (m - 1) as nat);
            assert(y * p >= q * p) by (nonlinear_arith)
                requires
                    y >= q,
                    p >= 1,
            ;
        }
    }
}

/// A number with zeroes below its lowest digit.
fn padded(x: &Vec<u8>, n: usize) -> (r: Vec<u8>)
    requires
        digits_only(x@),
        n + x@.len() <= usize::MAX,
    ensures
        digits_only(r@),
        r@.len() == n + x@.len(),
        value(r@) == pow(10, n as nat) * value(x@),
{
    let mut r: Vec<u8> = Vec::new();
    let mut i: usize = 0;
    while i < n
        invariant
            i <= n,
            r@ == Seq::new(i as nat, |j: int| 0u8),
        decreases n - i,
    {
        r.push(0);
        i += 1;
        assert(r@ =~= Seq::new(i as nat, |j: int| 0u8));
    }
    let ghost zeros = r@;
    let mut k: usize = 0;
    while k < x.len()
        invariant
            k <= x@.len(),
            r@ == zeros + x@.take(k as int),
        decreases x@.len() - k,
    {
        r.push(x[k]);
        k += 1;
        assert(r@ =~= zeros + x@.take(k as int));
    }
    proof {
        assert(x@.take(x@.len() as int) =~= x@);
        assert(r@ =~= Seq::new(n as nat, |j: int| 0u8) + x@);
        lemma_padded(x@, n as nat);
    }
    r
}

/// On which side of the number with the digits `y`, moved `t` places to the
/// right, the size of a number is.
pub open spec fn stands(n: decimal::Number, y: int, t: int) -> Side {
    moved_side(decimal::val(n.digits), n.exp + t, y)
}

/// On which side of a number another one is.
fn stand(n: &Parsed, y: &Vec<u8>, t: u32) -> (r: Side)
    requires
        n.wf(),
        proper(y@),
    ensures
        r == stands(n.number(), value(y@), t as int),
{
    let x: Vec<u8> = lowest_first(&n.digits);
    proof {
        lemma_top(y@);
    }
    let len: usize = x.len();
    let m: usize = y.len();
    let ghost true_s = n.exact@ + t;
    if len == 0 {
        proof {
            let k = if true_s >= 0 {
                true_s as nat
            } else {
                (-true_s) as nat
            };
            lemma_tens(k);
            let p = pow(10, k);
            let v = value(y@);
            assert(0 * p == 0 && v * p > 0) by (nonlinear_arith)
                requires
                    p >= 1,
                    v > 0,
            ;
        }
        return Side::Below;
    }
    proof {
        lemma_top(x@);
    }
    let s: i128 = n.exp + t as i128;
    let front: i128 = len as i128 + s;
    if front != m as i128 {
        proof {
            lemma_longer(value(x@), x@.len(), true_s, value(y@), y@.len());
        }
        return if front > m as i128 { Side::Above } else { Side::Below };
    }
    if s >= 0 {
        let a: Vec<u8> = padded(&x, s as usize);
        proof {
            let p = pow(10, s as nat);
            let v = value(x@);
            assert(p * v == v * p) by (nonlinear_arith);
        }
        compare(&a, y)
    } else {
        let b: Vec<u8> = padded(y, (-s) as usize);
        proof {
            let p = pow(10, (-s) as nat);
            let v = value(y@);
            assert(p * v == v * p) by (nonlinear_arith);
        }
        compare(&x, &b)
    }
}

/// The size of a number is at most two to the minus `k`.
pub open spec fn vanishes(n: decimal::Number, k: nat) -> bool {
    stands(n, pow(5, k), k as int) != Side::Above
}

fn is_vanishing(n: &Parsed, k: u32) -> (r: bool)
    requires
        n.wf(),
    ensures
        r == vanishes(n.number(), k as nat),
{
    let y: Vec<u8> = power(1, 5, k);
    stand(n, &y, k) != Side::Above
}

/// Half of the smallest double there is, as a power of two: what is no larger is
/// nearest to zero.
pub const DOUBLE_ZERO: u32 = 1075;

/// The same of a single.
pub const SINGLE_ZERO: u32 = 150;

/// The double that is nearest to a number is zero.
pub open spec fn double_is_zero(n: decimal::Number) -> bool {
    vanishes(n, DOUBLE_ZERO as nat)
}

pub fn is_double_zero(n: &Parsed) -> (r: bool)
    requires
        n.wf(),
    ensures
        r == double_is_zero(n.number()),
{
    is_vanishing(n, DOUBLE_ZERO)
}

/// No finite double is nearest to a number: its size is two to the 1024th less
/// two to the 970th at least.
pub open spec fn double_is_endless(n: decimal::Number) -> bool {
    stands(n, 18_014_398_509_481_983 * pow(2, 970), 0) != Side::Below
}

pub fn is_double_endless(n: &Parsed) -> (r: bool)
    requires
        n.wf(),
    ensures
        r == double_is_endless(n.number()),
{
    let y: Vec<u8> = power(18_014_398_509_481_983, 2, 970);
    stand(n, &y, 0) != Side::Below
}

/// The size of the double that is nearest to a number is a thousand at least: the
/// number is less than that by two to the minus 44th at most.
pub open spec fn double_is_thousand(n: decimal::Number) -> bool {
    stands(n, 17_592_186_044_415_999 * pow(5, 44), 44) != Side::Below
}

pub fn is_double_thousand(n: &Parsed) -> (r: bool)
    requires
        n.wf(),
    ensures
        r == double_is_thousand(n.number()),
{
    let y: Vec<u8> = power(17_592_186_044_415_999, 5, 44);
    stand(n, &y, 44) != Side::Below
}

/// The size of the single that is nearest to a number is two hundred at most: the
/// number is more than that by two to the minus 17th at most.
pub open spec fn single_within_two_hundred(n: decimal::Number) -> bool {
    stands(n, 26_214_401 * pow(5, 17), 17) != Side::Above
}

pub fn is_single_within_two_hundred(n: &Parsed) -> (r: bool)
    requires
        n.wf(),
    ensures
        r == single_within_two_hundred(n.number()),
{
    let y: Vec<u8> = power(26_214_401, 5, 17);
    stand(n, &y, 17) != Side::Above
}

/// The sign of the single that is nearest to the number that a text is: one, zero
/// or minus one. None where the text is no number.
pub open spec fn single_sign(s: Seq<char>) -> Option<int> {
    let sign: int = if s[0] == '-' {
        -1
    } else {
        1
    };
    if decimal::endless(s) {
        Some(sign)
    } else {
        match decimal::number_in(s) {
            Some(n) => Some(
                if vanishes(n, SINGLE_ZERO as nat) {
                    0
                } else {
                    sign
                },
            ),
            None => None,
        }
    }
}

pub fn read_single_sign(v: &[char]) -> (r: Option<i8>)
    ensures
        match single_sign(v@) {
            Some(n) => r matches Some(x) && x == n,
            None => r is None,
        },
{
    let minus: i8 = -1;
    if decimal::is_endless(v) {
        proof {
            decimal::lemma_a_word_is_not_empty(v@);
        }
        return Some(if v[0] == '-' { minus } else { 1 });
    }
    match decimal::read_number(v) {
        Some(n) => {
            proof {
                decimal::lemma_a_number_is_not_empty(v@);
            }
            if is_vanishing(&n, SINGLE_ZERO) {
                Some(0)
            } else if v[0] == '-' {
                Some(minus)
            } else {
                Some(1)
            }
        },
        None => None,
    }
}

} // verus!
