//! What the predistorter does to a sample, and how its table is made. One is 2^20.
use crate::dsp::feedback;
use crate::dsp::feedback::{Call, PureSignal};
use crate::dsp::predistort;
use crate::dsp::predistort::Cplx;
use crate::roots;
use vstd::prelude::*;

verus! {

broadcast use vstd::seq::group_seq_axioms;

/// How far from zero.
pub open spec fn far(x: int) -> int {
    if x < 0 {
        -x
    } else {
        x
    }
}

proof fn lemma_part(v: int, n: int, d: int)
    requires
        d > 0,
        n >= 0,
    ensures
        far(d * predistort::part(v, n, d) - v * n) < d,
        v * n >= 0 ==> 0 <= d * predistort::part(v, n, d) <= v * n,
        v * n <= 0 ==> v * n <= d * predistort::part(v, n, d) <= 0,
{
    let x = if v >= 0 {
        v * n
    } else {
        -v * n
    };
    assert(x >= 0 && (v < 0 ==> x == -(v * n))) by (nonlinear_arith)
        requires
            n >= 0,
            x == if v >= 0 {
                v * n
            } else {
                -v * n
            },
    ;
    let q = x / d;
    assert(0 <= d * q <= x < d * q + d) by (nonlinear_arith)
        requires
            d > 0,
            x >= 0,
            q == x / d,
    ;
    if v < 0 {
        assert(d * (-q) == -(d * q)) by (nonlinear_arith);
    }
}

/// The amplitude of a number is the least whole number that is not under its length.
pub proof fn law_an_amplitude_is_a_length(c: Cplx)
    ensures
        c.amplitude() >= 0,
        c.amplitude() * c.amplitude() >= c.re * c.re + c.im * c.im,
        c.amplitude() > 0 ==> (c.amplitude() - 1) * (c.amplitude() - 1) < c.re * c.re + c.im * c.im,
{
    let x = c.re as int;
    let y = c.im as int;
    assert(x * x >= 0 && y * y >= 0) by (nonlinear_arith);
    let n = c.sq() as nat;
    roots::lemma_root(n);
    let r = roots::root(n) as int;
    if r * r == n {
        if r > 0 {
            assert((r - 1) * (r - 1) < r * r) by (nonlinear_arith)
                requires
                    r > 0,
            ;
        }
    } else {
        assert((r + 1 - 1) * (r + 1 - 1) == r * r);
    }
}

/// A bent sample is the product of the sample and its gain, a part of one short of
/// it at most.
pub proof fn law_bending_is_a_product(s: Cplx, g: Cplx)
    requires
        s.within(0x8000_0000),
        g.within(0x8000_0000),
    ensures
        ({
            let b = predistort::bent(s, g);
            &&& far(0x10_0000 * b.re - (s.re * g.re - s.im * g.im)) < 0x10_0000
            &&& far(0x10_0000 * b.im - (s.re * g.im + s.im * g.re)) < 0x10_0000
        }),
{
    let a = s.re as int;
    let b = s.im as int;
    let c = g.re as int;
    let d = g.im as int;
    lemma_small_product(a, c);
    lemma_small_product(b, d);
    lemma_small_product(a, d);
    lemma_small_product(b, c);
    lemma_part(a * c - b * d, 1, 0x10_0000);
    lemma_part(a * d + b * c, 1, 0x10_0000);
}

proof fn lemma_small_product(x: int, y: int)
    requires
        -0x8000_0000 <= x <= 0x8000_0000,
        -0x8000_0000 <= y <= 0x8000_0000,
    ensures
        -0x4000_0000_0000_0000 <= x * y <= 0x4000_0000_0000_0000,
{
    assert(-0x4000_0000_0000_0000 <= x * y <= 0x4000_0000_0000_0000) by (nonlinear_arith)
        requires
            -0x8000_0000 <= x <= 0x8000_0000,
            -0x8000_0000 <= y <= 0x8000_0000,
    ;
}

/// The gain at an amplitude between the middles of two bins lies on the line between
/// their entries, where the amplitude does; before the first middle and behind the
/// last it is the entry of that bin.
pub proof fn law_the_gain_is_a_line_between_the_bins(t: Seq<Cplx>, a: int, i: int)
    requires
        4 <= t.len() <= 256,
        forall|k: int| 0 <= k < t.len() ==> (#[trigger] t[k]).within(0x8000_0000),
        0 <= a,
    ensures
        2 * a * t.len() <= 0x10_0000 ==> predistort::gain(t, a) == t[0],
        2 * a * t.len() >= (2 * t.len() - 1) * 0x10_0000 ==> predistort::gain(t, a)
            == t[t.len() - 1],
        0 <= i && i + 1 < t.len() && (2 * i + 1) * 0x10_0000 <= 2 * a * t.len() < (2 * i + 3)
            * 0x10_0000 ==> {
            let w = 2 * a * t.len() - (2 * i + 1) * 0x10_0000;
            let g = predistort::gain(t, a);
            &&& far(0x20_0000 * g.re - (t[i].re * (0x20_0000 - w) + t[i + 1].re * w)) < 0x20_0000
            &&& far(0x20_0000 * g.im - (t[i].im * (0x20_0000 - w) + t[i + 1].im * w)) < 0x20_0000
        },
{
    let n = t.len() as int;
    let x = 2 * a * n;
    let top = 2 * 0x10_0000 * n;
    assert(2 * 0x10_0000 * n == predistort::place_of(0x10_0000, n) + 0x10_0000) by (nonlinear_arith)
        requires
            predistort::place_of(0x10_0000, n) == 2 * 0x10_0000 * n - 0x10_0000,
    ;
    if a >= 0x10_0000 {
        assert(x >= top) by (nonlinear_arith)
            requires
                a >= 0x10_0000,
                n >= 4,
                x == 2 * a * n,
                top == 2 * 0x10_0000 * n,
        ;
    }
    let at = predistort::place_of(a, n);
    if a < 0x10_0000 {
        assert(at == x - 0x10_0000);
    } else {
        assert(at == top - 0x10_0000);
    }
    if x <= 0x10_0000 {
        assert(predistort::gain(t, a) == t[0]);
    } else if x >= (2 * n - 1) * 0x10_0000 {
        assert((2 * n - 1) * 0x10_0000 == 0x20_0000 * n - 0x10_0000) by (nonlinear_arith);
        assert(at / 0x20_0000 + 1 >= n);
    }
    if 0 <= i && i + 1 < n && (2 * i + 1) * 0x10_0000 <= x < (2 * i + 3) * 0x10_0000 {
        let w = x - (2 * i + 1) * 0x10_0000;
        assert((2 * i + 1) * 0x10_0000 == 0x20_0000 * i + 0x10_0000);
        assert((2 * i + 3) * 0x10_0000 == 0x20_0000 * i + 0x30_0000);
        assert(a < 0x10_0000);
        assert(at == 0x20_0000 * i + w);
        assert(at / 0x20_0000 == i && at % 0x20_0000 == w);
        lemma_mix(t[i].re as int, t[i + 1].re as int, w);
        lemma_mix(t[i].im as int, t[i + 1].im as int, w);
        if at <= 0 {
            assert(w == 0 && i == 0);
            assert(t[0].re * 0x20_0000 == 0x20_0000 * t[0].re) by (nonlinear_arith);
            assert(t[0].im * 0x20_0000 == 0x20_0000 * t[0].im) by (nonlinear_arith);
            assert(t[1].re * 0 == 0 && t[1].im * 0 == 0) by (nonlinear_arith);
        }
    }
}

proof fn lemma_mix(g: int, h: int, w: int)
    requires
        -0x8000_0000 <= g <= 0x8000_0000,
        -0x8000_0000 <= h <= 0x8000_0000,
        0 <= w < 0x20_0000,
    ensures
        ({
            let v = g * (0x20_0000 - w) + h * w;
            let p = predistort::part(v, 1, 0x20_0000);
            &&& far(0x20_0000 * p - v) < 0x20_0000
            &&& i64::MIN <= p <= i64::MAX
        }),
{
    let v = g * (0x20_0000 - w) + h * w;
    assert(-0x100_0000_0000_0000 <= v <= 0x100_0000_0000_0000) by (nonlinear_arith)
        requires
            -0x8000_0000 <= g <= 0x8000_0000,
            -0x8000_0000 <= h <= 0x8000_0000,
            0 <= w < 0x20_0000,
            v == g * (0x20_0000 - w) + h * w,
    ;
    lemma_part(v, 1, 0x20_0000);
}

/// An amplitude falls into the bin of its size, and one of full scale or more into
/// the last.
pub proof fn law_which_bin_an_amplitude_falls_into(a: int, b: int, i: int)
    requires
        0 <= a,
        0 < b,
    ensures
        0 <= i < b && i * 0x10_0000 <= a * b < (i + 1) * 0x10_0000 ==> predistort::bin(a, b) == i,
        a >= 0x10_0000 ==> predistort::bin(a, b) == b - 1,
{
    let x = a * b;
    if 0 <= i < b && i * 0x10_0000 <= x < (i + 1) * 0x10_0000 {
        assert(x / 0x10_0000 == i);
    }
    if a >= 0x10_0000 {
        assert(x >= 0x10_0000 * b) by (nonlinear_arith)
            requires
                a >= 0x10_0000,
                b > 0,
                x == a * b,
        ;
    }
}

/// An entry may be as large as full scale over the top of its bin, and never above
/// four.
pub proof fn law_how_large_an_entry_may_be(i: int, b: int)
    requires
        0 <= i < b,
    ensures
        predistort::ceiling(i, b) <= 0x40_0000,
        b >= 4 * (i + 1) ==> predistort::ceiling(i, b) == 0x40_0000,
        b < 4 * (i + 1) ==> predistort::ceiling(i, b) * (i + 1) <= 0x10_0000 * b < (
        predistort::ceiling(i, b) + 1) * (i + 1),
        predistort::floor() == 0x4_0000,
{
    let x = 0x10_0000 * b;
    let d = i + 1;
    let q = x / d;
    assert(q * d <= x < (q + 1) * d) by (nonlinear_arith)
        requires
            d > 0,
            q == x / d,
    ;
    if b >= 4 * d {
        assert(q >= 0x40_0000) by (nonlinear_arith)
            requires
                x == 0x10_0000 * b,
                b >= 4 * d,
                x < (q + 1) * d,
                d > 0,
        ;
    } else {
        assert(q < 0x40_0000) by (nonlinear_arith)
            requires
                x == 0x10_0000 * b,
                b < 4 * d,
                q * d <= x,
                d > 0,
        ;
    }
}

/// A learned table is taken by its last entry, which is the gain at full scale: each
/// entry is divided by it.
pub proof fn law_a_table_is_taken_by_its_last_entry(g: Cplx, top: Cplx)
    requires
        g.within(0x8000_0000),
        top.within(0x8000_0000),
        top.re != 0 || top.im != 0,
    ensures
        ({
            let q = predistort::over(g, top);
            let sq = top.re * top.re + top.im * top.im;
            &&& far(sq * q.re - 0x10_0000 * (g.re * top.re + g.im * top.im)) < sq
            &&& far(sq * q.im - 0x10_0000 * (g.im * top.re - g.re * top.im)) < sq
        }),
{
    let a = g.re as int;
    let b = g.im as int;
    let c = top.re as int;
    let d = top.im as int;
    let sq = c * c + d * d;
    assert(sq > 0 && far(c) <= sq && far(d) <= sq) by (nonlinear_arith)
        requires
            sq == c * c + d * d,
            c != 0 || d != 0,
    ;
    lemma_dot(a, b, c, d, sq);
    lemma_dot(b, -a, c, d, sq);
    assert((-a) * d == -(a * d)) by (nonlinear_arith);
    lemma_quotient(a * c + b * d, sq);
    lemma_quotient(b * c - a * d, sq);
}

proof fn lemma_dot(a: int, b: int, c: int, d: int, sq: int)
    requires
        far(a) <= 0x8000_0000,
        far(b) <= 0x8000_0000,
        far(c) <= sq,
        far(d) <= sq,
    ensures
        far(a * c + b * d) <= 0x1_0000_0000 * sq,
{
    assert(far(a * c) <= 0x8000_0000 * sq) by (nonlinear_arith)
        requires
            far(a) <= 0x8000_0000,
            far(c) <= sq,
    ;
    assert(far(b * d) <= 0x8000_0000 * sq) by (nonlinear_arith)
        requires
            far(b) <= 0x8000_0000,
            far(d) <= sq,
    ;
}

proof fn lemma_quotient(v: int, sq: int)
    requires
        sq > 0,
        far(v) <= 0x1_0000_0000 * sq,
    ensures
        i64::MIN <= predistort::part(v, 0x10_0000, sq) <= i64::MAX,
        far(sq * predistort::part(v, 0x10_0000, sq) - 0x10_0000 * v) < sq,
{
    lemma_part(v, 0x10_0000, sq);
    let p = predistort::part(v, 0x10_0000, sq);
    assert(far(p) <= 0x10_0001_0000_0000) by (nonlinear_arith)
        requires
            sq > 0,
            far(v) <= 0x1_0000_0000 * sq,
            far(sq * p - v * 0x10_0000) < sq,
    ;
}

/// The last entry of a table that can be divided by is one.
pub proof fn law_full_scale_stays_full_scale(top: Cplx)
    requires
        top.re != 0 || top.im != 0,
    ensures
        predistort::over(top, top) == (Cplx { re: 0x10_0000, im: 0 }),
{
    let c = top.re as int;
    let d = top.im as int;
    let sq = c * c + d * d;
    assert(sq > 0) by (nonlinear_arith)
        requires
            sq == c * c + d * d,
            c != 0 || d != 0,
    ;
    assert(sq * 0x10_0000 / sq == 0x10_0000) by (nonlinear_arith)
        requires
            sq > 0,
    ;
    assert(d * c - c * d == 0) by (nonlinear_arith);
    assert(0int / sq == 0) by (nonlinear_arith)
        requires
            sq > 0,
    ;
}

/// An entry that is in range is left as it is, an empty one is replaced by one, one
/// that is too large keeps its direction at the largest that is allowed, and one
/// that is too small keeps it at no less than a quarter.
pub proof fn law_what_is_done_to_an_entry(g: Cplx, i: int, b: int)
    requires
        g.within(0x2000_0000_0000_0000),
        0 <= i < b,
    ensures
        ({
            let h = predistort::held(g, i, b);
            let m = g.amplitude();
            let c = predistort::ceiling(i, b);
            &&& m == 0 ==> h == (Cplx { re: 0x10_0000, im: 0 })
            &&& 0 < m <= c && g.sq() >= 0x4_0000 * 0x4_0000 ==> h == g
            &&& m > c ==> far(m * h.re - c * g.re) < m && far(m * h.im - c * g.im) < m
        }),
{
    let m = g.amplitude();
    let c = predistort::ceiling(i, b);
    law_how_large_an_entry_may_be(i, b);
    if m > c {
        assert(c >= 0) by (nonlinear_arith)
            requires
                c == 0x40_0000 || 0x10_0000 * b < (c + 1) * (i + 1),
                0 <= i < b,
        ;
        lemma_part(g.re as int, c, m);
        lemma_part(g.im as int, c, m);
        lemma_shorter(g.re as int, c, m);
        lemma_shorter(g.im as int, c, m);
        assert(g.re * c == c * g.re) by (nonlinear_arith);
        assert(g.im * c == c * g.im) by (nonlinear_arith);
    }
}

proof fn lemma_shorter(v: int, c: int, m: int)
    requires
        0 <= c < m,
        i64::MIN <= v <= i64::MAX,
    ensures
        i64::MIN <= predistort::part(v, c, m) <= i64::MAX,
{
    lemma_part(v, c, m);
    let p = predistort::part(v, c, m);
    assert(far(p) <= far(v)) by (nonlinear_arith)
        requires
            0 <= c < m,
            v * c >= 0 ==> 0 <= m * p <= v * c,
            v * c <= 0 ==> v * c <= m * p <= 0,
    ;
}

/// An entry that is too small keeps its direction at a quarter, rounded away from
/// zero. `m` is its length, in parts of one.
pub proof fn law_what_is_done_to_a_small_entry(g: Cplx, i: int, b: int, m: int)
    requires
        0 <= i < b,
        0 < g.sq() < 0x4_0000 * 0x4_0000,
        g.amplitude() <= predistort::ceiling(i, b),
        0 <= m,
        m * m <= 0x100_0000_0000 * g.sq() < (m + 1) * (m + 1),
    ensures
        ({
            let h = predistort::held(g, i, b);
            let re = 0x4_0000 * (0x10_0000 * far(g.re as int));
            let im = 0x4_0000 * (0x10_0000 * far(g.im as int));
            &&& 0 <= m * far(h.re as int) - re < m
            &&& 0 <= m * far(h.im as int) - im < m
            &&& g.re >= 0 ==> h.re >= 0
            &&& g.re <= 0 ==> h.re <= 0
            &&& g.im >= 0 ==> h.im >= 0
            &&& g.im <= 0 ==> h.im <= 0
        }),
{
    law_how_large_an_entry_may_be(i, b);
    law_an_amplitude_is_a_length(g);
    let n = (0x100_0000_0000 * g.sq()) as nat;
    roots::lemma_root(n);
    let r = roots::root(n) as int;
    assert(r == m) by (nonlinear_arith)
        requires
            0 <= m,
            0 <= r,
            m * m <= n < (m + 1) * (m + 1),
            r * r <= n < (r + 1) * (r + 1),
    ;
    let x = g.re as int;
    let y = g.im as int;
    assert(m >= 0x10_0000) by (nonlinear_arith)
        requires
            0 <= m,
            n >= 0x100_0000_0000,
            n < (m + 1) * (m + 1),
    ;
    assert(far(x) < 0x4_0000 && far(y) < 0x4_0000) by (nonlinear_arith)
        requires
            x * x + y * y < 0x4_0000 * 0x4_0000,
    ;
    lemma_beyond(x, m);
    lemma_beyond(y, m);
    assert(g.amplitude() > 0) by (nonlinear_arith)
        requires
            g.amplitude() >= 0,
            g.amplitude() * g.amplitude() >= g.sq(),
            g.sq() > 0,
    ;
    assert(predistort::ONE * predistort::ONE * g.sq() == n);
    let h = predistort::held(g, i, b);
    assert(h == predistort::raised(g, predistort::floor()));
    assert(h.re == predistort::beyond(x * 0x10_0000, 0x4_0000, m));
    assert(h.im == predistort::beyond(y * 0x10_0000, 0x4_0000, m));
}

proof fn lemma_beyond(x: int, m: int)
    requires
        far(x) < 0x4_0000,
        m >= 0x10_0000,
    ensures
        ({
            let p = predistort::beyond(x * 0x10_0000, 0x4_0000, m);
            &&& 0 <= m * far(p) - 0x4_0000 * (0x10_0000 * far(x)) < m
            &&& x >= 0 ==> p >= 0
            &&& x <= 0 ==> p <= 0
            &&& i64::MIN <= p <= i64::MAX
        }),
{
    let v = 0x4_0000 * (0x10_0000 * far(x));
    let q = (v + m - 1) / m;
    assert(0 <= m * q - v < m && 0 <= q <= v + m) by (nonlinear_arith)
        requires
            m > 0,
            v >= 0,
            q == (v + m - 1) / m,
    ;
    assert(q <= 0x1000_0000_0000_0000) by (nonlinear_arith)
        requires
            m >= 0x10_0000,
            0 <= v <= 0x100_0000_0000_0000,
            m * q - v < m,
    ;
    let p = predistort::beyond(x * 0x10_0000, 0x4_0000, m);
    if x >= 0 {
        assert(x * 0x10_0000 * 0x4_0000 == v);
        assert(p == q);
    } else {
        assert(-(x * 0x10_0000) * 0x4_0000 == v);
        assert(p == -q);
    }
    if x == 0 {
        assert(q == 0) by (nonlinear_arith)
            requires
                v == 0,
                m > 0,
                0 <= m * q - v < m,
        ;
    }
    assert(far(p) == q);
    assert(m * far(p) == m * q) by (nonlinear_arith)
        requires
            far(p) == q,
    ;
}

/// A table is normalised entry by entry, each by its own place, divided by the last
/// where that is long enough to divide by.
pub proof fn law_a_table_is_normalised_entry_by_entry(t: Seq<Cplx>, i: int)
    requires
        0 <= i < t.len(),
    ensures
        predistort::normalised(t).len() == t.len(),
        t[t.len() - 1].amplitude() > 1 ==> predistort::normalised(t)[i] == predistort::held(
            predistort::over(t[i], t[t.len() - 1]),
            i,
            t.len() as int,
        ),
        t[t.len() - 1].amplitude() <= 1 ==> predistort::normalised(t)[i] == predistort::held(
            t[i],
            i,
            t.len() as int,
        ),
{
}

/// Only a table that was learned and a reset change the table.
pub proof fn law_what_changes_the_table(t: Seq<Cplx>, x: Seq<Cplx>, i: int)
    ensures
        feedback::table_after(t, Call::Predistort) == t,
        feedback::table_after(t, Call::FeedBack) == t,
        feedback::table_after(t, Call::Coarse) == t,
        feedback::table_after(t, Call::Fine) == t,
        feedback::table_after(t, Call::Score) == t,
        feedback::table_after(t, Call::Freeze) == t,
        feedback::table_after(t, Call::Unlock) == t,
        feedback::table_after(t, Call::Learned(x)) == predistort::normalised(x),
        feedback::table_after(t, Call::Reset).len() == t.len(),
        0 <= i < t.len() ==> feedback::table_after(t, Call::Reset)[i] == (Cplx {
            re: 0x10_0000,
            im: 0,
        }),
{
}

/// References are dropped once there are more than twice as many as are kept, in
/// blocks of 64, down to what is kept and less than a block more.
pub proof fn law_when_references_are_dropped(len: int, block: int, keep: int)
    requires
        len >= 0,
        keep > 0,
    ensures
        len + block <= 2 * keep || len <= keep ==> feedback::dropped(len, block, keep) == 0,
        len + block > 2 * keep && len > keep ==> {
            let d = feedback::dropped(len, block, keep);
            d % 64 == 0 && 0 <= len - d - keep < 64
        },
{
}

/// Where no score is above nothing no place is the best.
pub proof fn law_no_place_is_the_best(scores: Seq<i32>, n: nat)
    requires
        n <= scores.len(),
        forall|i: int| 0 <= i < n ==> #[trigger] scores[i] <= 0,
    ensures
        feedback::best(scores, n) is None,
        n == scores.len() ==> feedback::best_score(scores) == 0,
    decreases n,
{
    if n > 0 {
        law_no_place_is_the_best(scores, (n - 1) as nat);
        assert(scores[n - 1] <= 0);
    }
}

/// The score of a search is that of its best place.
pub proof fn law_the_score_of_a_search(scores: Seq<i32>, i: int)
    requires
        0 <= i < scores.len(),
    ensures
        feedback::best_score(scores) >= scores[i],
        feedback::best_score(scores) >= 0,
        feedback::best_score(scores) > 0 ==> exists|k: int|
            0 <= k < scores.len() && #[trigger] scores[k] == feedback::best_score(scores),
{
    if exists|k: int| 0 <= k < scores.len() && #[trigger] scores[k] > 0 {
        feedback::law_the_best_place_is_found(scores);
        let p = feedback::best(scores, scores.len())->0;
        assert(scores[p] == feedback::best_score(scores));
        let k = choose|k: int| 0 <= k < scores.len() && #[trigger] scores[k] > 0;
        assert(scores[k] <= scores[p]);
    } else {
        law_no_place_is_the_best(scores, scores.len());
    }
}

/// An envelope is the sum of the amplitudes of its samples.
pub proof fn law_an_envelope_is_a_sum(s: Seq<Cplx>, at: int, n: nat)
    ensures
        feedback::envelope(s, at, 0) == 0,
        feedback::envelope(s, at, n + 1) == feedback::envelope(s, at, n) + s[at + n].amplitude(),
{
}

/// Two streams are locked where an offset is known and its score is half of the best
/// there is or more.
pub proof fn law_when_the_streams_are_locked(p: PureSignal)
    ensures
        p.is_locked() <==> p.offset is Some && p.score >= 500_000,
        predistort::MIN_BLOCK == 1024,
        predistort::WINDOW == 4096,
        predistort::REFINE == 64,
        predistort::LOCK_THRESHOLD == 500_000,
{
}

/// A block of feedback is found among the references that are kept by its number and
/// the offset; one that is not there any more ends the alignment.
pub proof fn law_where_a_block_of_feedback_is(
    p: PureSignal,
    start: u64,
    m: usize,
    after: PureSignal,
    r: feedback::Next,
)
    requires
        p.placed(start, m, after, r),
    ensures
        p.offset is None ==> r == feedback::Next::Idle && after == p,
        p.offset is Some ==> {
            let at = start + p.offset->0 - p.base;
            &&& 0 <= at && at + m <= p.refs@.len() ==> r == (feedback::Next::Score {
                at: at as usize,
            }) && after == p
            &&& at < 0 || at + m > p.refs@.len() ==> r == feedback::Next::Idle && after == (
            PureSignal { offset: None, score: 0, ..p })
        },
{
}

/// A number is held between two others.
pub proof fn law_a_number_is_held(n: int, lo: int, hi: int)
    requires
        lo <= hi,
    ensures
        lo <= feedback::clamped(n, lo, hi) <= hi,
        lo <= n <= hi ==> feedback::clamped(n, lo, hi) == n,
        n <= lo ==> feedback::clamped(n, lo, hi) == lo,
        n >= hi ==> feedback::clamped(n, lo, hi) == hi,
{
}

/// An entry of one leaves a sample alone, one of a half turn turns it over, and one
/// of a quarter turns it by that.
pub proof fn law_entries_that_only_turn(s: Cplx)
    requires
        s.within(0x8000_0000),
    ensures
        predistort::bent(s, Cplx { re: 0x10_0000, im: 0 }) == s,
        predistort::bent(s, Cplx { re: -0x10_0000i64, im: 0 }) == (Cplx {
            re: (-s.re) as i64,
            im: (-s.im) as i64,
        }),
        predistort::bent(s, Cplx { re: 0, im: 0x10_0000 }) == (Cplx {
            re: (-s.im) as i64,
            im: s.re,
        }),
{
}

} // verus!
