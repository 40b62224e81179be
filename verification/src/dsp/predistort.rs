//! Adaptive predistortion: a power amplifier is linearised by sending it the
//! inverse of its own distortion, which is measured from a sample of what it
//! emitted.
//!
//! The correction is a complex gain by amplitude. Samples and gains are fixed
//! point, with [`ONE`] for full scale and for unity. What is compared and learned
//! is computed outside; here is what is kept of the wanted signal, where the
//! feedback belongs in it, and the table, which cannot make the transmitter
//! louder whatever the feedback says: it keeps unity at the top, and no entry
//! drives an amplitude past full scale or departs from unity by more than
//! [`MAX_CORRECTION`].
use crate::roots;
use vstd::prelude::*;

verus! {

broadcast use vstd::seq::group_seq_axioms;

/// Full scale, and unity gain.
pub const ONE: i64 = 0x10_0000;

/// How far an entry may depart from unity, as a ratio.
pub const MAX_CORRECTION: i64 = 4;

/// How many samples one entry of the envelope stands for.
pub const ENV_DECIM: usize = 64;

/// The shortest block that is worth aligning.
pub const MIN_BLOCK: usize = 1024;

/// How well two envelopes must correlate to be believed, in millionths.
pub const LOCK_THRESHOLD: i32 = 500_000;

/// How far on either side of the coarse answer is looked, in samples.
pub const REFINE: usize = 64;

/// How many samples the refinement compares.
pub const WINDOW: usize = 4096;

/// A bin needs this many samples before a block may move it.
pub const MIN_BIN_HITS: u32 = 32;

/// The largest component of a sample or of a gain.
pub const LIMIT: i64 = 0x8000_0000;

/// A complex number in fixed point.
#[derive(Debug, Clone, Copy, PartialEq, Eq, Structural)]
pub struct Cplx {
    pub re: i64,
    pub im: i64,
}

impl Cplx {
    pub open spec fn sq(self) -> int {
        self.re * self.re + self.im * self.im
    }

    pub open spec fn within(self, limit: int) -> bool {
        &&& -limit <= self.re <= limit
        &&& -limit <= self.im <= limit
    }

    /// The amplitude, rounded up.
    pub open spec fn amplitude(self) -> int {
        let r = roots::root(self.sq() as nat);
        if r * r == self.sq() {
            r as int
        } else {
            r as int + 1
        }
    }

    /// The amplitude, rounded up.
    pub fn norm(self) -> (r: u64)
        requires
            self.within(0x2000_0000_0000_0000),
        ensures
            r == self.amplitude(),
            self.sq() <= r * r,
            r <= 0x4000_0000_0000_0000,
            r == 0 <==> self == (Cplx { re: 0, im: 0 }),
    {
        proof {
            lemma_square_bound(self.re as int, 0x2000_0000_0000_0000);
            lemma_square_bound(self.im as int, 0x2000_0000_0000_0000);
            roots::lemma_root(self.sq() as nat);
        }
        let re: i128 = self.re as i128;
        let im: i128 = self.im as i128;
        let sq: u128 = (re * re + im * im) as u128;
        let r: u128 = roots::isqrt(sq);
        proof {
            assert(r <= 0x3fff_ffff_ffff_ffff) by (nonlinear_arith)
                requires
                    r * r <= sq,
                    0 <= sq <= 2 * (0x2000_0000_0000_0000 * 0x2000_0000_0000_0000),
            ;
            assert(r * r <= 0x3fff_ffff_ffff_ffff * 0x3fff_ffff_ffff_ffff) by (nonlinear_arith)
                requires
                    0 <= r <= 0x3fff_ffff_ffff_ffff,
            ;
            lemma_nothing(self, r as int);
        }
        if r * r == sq {
            r as u64
        } else {
            (r + 1) as u64
        }
    }
}

proof fn lemma_square_bound(x: int, limit: int)
    requires
        -limit <= x <= limit,
    ensures
        0 <= x * x <= limit * limit,
{
    assert(0 <= x * x <= limit * limit) by (nonlinear_arith)
        requires
            -limit <= x <= limit,
    ;
}

proof fn lemma_nothing(c: Cplx, r: int)
    requires
        r * r <= c.sq() < (r + 1) * (r + 1),
        r >= 0,
    ensures
        c.sq() >= 0,
        c.sq() == 0 <==> c == (Cplx { re: 0, im: 0 }),
        r == 0 && r * r == c.sq() ==> c == (Cplx { re: 0, im: 0 }),
        c.sq() == 0 ==> r == 0,
{
    let x = c.re as int;
    let y = c.im as int;
    assert(x * x >= 0 && (x * x == 0 ==> x == 0)) by (nonlinear_arith);
    assert(y * y >= 0 && (y * y == 0 ==> y == 0)) by (nonlinear_arith);
    if c.sq() == 0 {
        assert(r == 0) by (nonlinear_arith)
            requires
                r * r <= 0,
                r >= 0,
        ;
    }
    if r == 0 {
        assert(r * r == 0);
    }
}

/// `v * n / d` without what is behind the point.
pub open spec fn part(v: int, n: int, d: int) -> int {
    if v >= 0 {
        v * n / d
    } else {
        -(-v * n / d)
    }
}

pub open spec fn magnitude(v: int) -> int {
    if v >= 0 {
        v
    } else {
        -v
    }
}

fn part_of(v: i128, n: i128, d: i128) -> (r: i128)
    requires
        d > 0,
        n >= 0,
        v > i128::MIN,
        magnitude(v as int) * n <= i128::MAX,
    ensures
        r == part(v as int, n as int, d as int),
        magnitude(r as int) * d <= magnitude(v as int) * n,
        -magnitude(v as int) * n <= r <= magnitude(v as int) * n,
{
    let a: i128 = if v >= 0 { v } else { -v };
    proof {
        assert(0 <= a * n) by (nonlinear_arith)
            requires
                a >= 0,
                n >= 0,
        ;
        lemma_part(v as int, n as int, d as int);
    }
    let q: u128 = (a as u128 * n as u128) / (d as u128);
    assert(-magnitude(v as int) * n == -(magnitude(v as int) * n)) by (nonlinear_arith);
    if v >= 0 {
        q as i128
    } else {
        -(q as i128)
    }
}

proof fn lemma_part(v: int, n: int, d: int)
    requires
        d > 0,
        n >= 0,
    ensures
        magnitude(part(v, n, d)) * d <= magnitude(v) * n,
        0 <= magnitude(v) * n / d <= magnitude(v) * n,
        magnitude(part(v, n, d)) == magnitude(v) * n / d,
{
    let x = magnitude(v) * n;
    assert(x >= 0) by (nonlinear_arith)
        requires
            x == magnitude(v) * n,
            magnitude(v) >= 0,
            n >= 0,
    ;
    vstd::arithmetic::div_mod::lemma_fundamental_div_mod(x, d);
    vstd::arithmetic::div_mod::lemma_div_pos_is_pos(x, d);
    let q = x / d;
    assert(q * d <= x && q <= x) by (nonlinear_arith)
        requires
            x == d * q + x % d,
            0 <= x % d,
            d > 0,
            q >= 0,
    ;
}

/// A number shrunk to `c / m` of its length, where `m` is no shorter than it, is
/// no longer than `c`.
proof fn lemma_shrunk(re: int, im: int, c: int, m: int, x: int, y: int)
    requires
        m > 0,
        c >= 0,
        re * re + im * im <= m * m,
        magnitude(x) * m <= magnitude(re) * c,
        magnitude(y) * m <= magnitude(im) * c,
    ensures
        x * x + y * y <= c * c,
{
    lemma_shorter(x, m, re, c);
    lemma_shorter(y, m, im, c);
    assert((x * x + y * y) * (m * m) == (x * x) * (m * m) + (y * y) * (m * m))
        by (nonlinear_arith);
    assert((re * re + im * im) * (c * c) == (re * re) * (c * c) + (im * im) * (c * c))
        by (nonlinear_arith);
    let p = x * x + y * y;
    let q = re * re + im * im;
    let mm = m * m;
    let cc = c * c;
    assert(cc >= 0 && mm > 0) by (nonlinear_arith)
        requires
            cc == c * c,
            mm == m * m,
            m > 0,
    ;
    assert(p <= cc) by (nonlinear_arith)
        requires
            p * mm <= q * cc,
            q <= mm,
            cc >= 0,
            mm > 0,
    ;
}

proof fn lemma_shorter(x: int, m: int, v: int, c: int)
    requires
        m >= 0,
        c >= 0,
        magnitude(x) * m <= magnitude(v) * c,
    ensures
        (x * x) * (m * m) <= (v * v) * (c * c),
{
    let a = magnitude(x);
    let b = magnitude(v);
    assert(a * a == x * x && b * b == v * v) by (nonlinear_arith)
        requires
            a == x || a == -x,
            b == v || b == -v,
    ;
    assert((a * a) * (m * m) == (a * m) * (a * m)) by (nonlinear_arith);
    assert((b * b) * (c * c) == (b * c) * (b * c)) by (nonlinear_arith);
    let s = a * m;
    let t = b * c;
    assert(s >= 0) by (nonlinear_arith)
        requires
            s == a * m,
            a >= 0,
            m >= 0,
    ;
    assert(s * s <= t * t) by (nonlinear_arith)
        requires
            0 <= s <= t,
    ;
}

/// The largest gain of entry `i` of `b`: no more than the correction may be, and
/// no more than takes the top of its bin to full scale.
pub open spec fn ceiling(i: int, b: int) -> int {
    let c = ONE * b / (i + 1);
    if c < MAX_CORRECTION * ONE {
        c
    } else {
        MAX_CORRECTION * ONE
    }
}

/// `g / top`.
pub open spec fn over(g: Cplx, top: Cplx) -> Cplx {
    Cplx {
        re: part(g.re * top.re + g.im * top.im, ONE as int, top.sq()) as i64,
        im: part(g.im * top.re - g.re * top.im, ONE as int, top.sq()) as i64,
    }
}

/// `g` at another length: `c` in place of `m`.
pub open spec fn scaled(g: Cplx, c: int, m: int) -> Cplx {
    Cplx { re: part(g.re as int, c, m) as i64, im: part(g.im as int, c, m) as i64 }
}

/// `v * n / d`, away from zero where it does not come out even.
pub open spec fn beyond(v: int, n: int, d: int) -> int {
    if v >= 0 {
        (v * n + d - 1) / d
    } else {
        -((-v * n + d - 1) / d)
    }
}

/// A short `g` at the length `c`, and not under it.
pub open spec fn raised(g: Cplx, c: int) -> Cplx {
    let m = roots::root((ONE * ONE * g.sq()) as nat) as int;
    Cplx { re: beyond(g.re * ONE, c, m) as i64, im: beyond(g.im * ONE, c, m) as i64 }
}

/// The smallest gain of any entry: the correction may take away no more.
pub open spec fn floor() -> int {
    ONE as int / MAX_CORRECTION as int
}

/// Entry `i` of `b` held inside the safe range. An entry of nothing is unity.
pub open spec fn held(g: Cplx, i: int, b: int) -> Cplx {
    let m = g.amplitude();
    if m == 0 {
        Cplx { re: ONE, im: 0 }
    } else if m > ceiling(i, b) {
        scaled(g, ceiling(i, b), m)
    } else if g.sq() < floor() * floor() {
        raised(g, floor())
    } else {
        g
    }
}

/// A table with the top pinned at unity and everything inside the safe range.
pub open spec fn normalised(t: Seq<Cplx>) -> Seq<Cplx> {
    let top = t.last();
    Seq::new(
        t.len(),
        |i: int|
            held(
                if top.amplitude() > 1 {
                    over(t[i], top)
                } else {
                    t[i]
                },
                i,
                t.len() as int,
            ),
    )
}

/// Entry `i` of `b` is inside the safe range.
#[verifier::opaque]
pub open spec fn in_range(g: Cplx, i: int, b: int) -> bool {
    floor() * floor() <= g.sq() <= ceiling(i, b) * ceiling(i, b)
}

/// Every entry is inside the safe range.
pub open spec fn safe(t: Seq<Cplx>) -> bool {
    forall|i: int| 0 <= i < t.len() ==> in_range(#[trigger] t[i], i, t.len() as int)
}

fn over_of(g: Cplx, top: Cplx) -> (r: Cplx)
    requires
        g.within(LIMIT as int),
        top.within(LIMIT as int),
        top.sq() > 0,
    ensures
        r == over(g, top),
        r.within(0x2000_0000_0000_0000),
{
    proof {
        lemma_square_bound(top.re as int, LIMIT as int);
        lemma_square_bound(top.im as int, LIMIT as int);
        lemma_product_bound(g.re as int, top.re as int, LIMIT as int);
        lemma_product_bound(g.im as int, top.im as int, LIMIT as int);
        lemma_product_bound(g.im as int, top.re as int, LIMIT as int);
        lemma_product_bound(g.re as int, top.im as int, LIMIT as int);
    }
    let a: i128 = g.re as i128;
    let b: i128 = g.im as i128;
    let c: i128 = top.re as i128;
    let d: i128 = top.im as i128;
    let sq: i128 = c * c + d * d;
    let re: i128 = part_of(a * c + b * d, ONE as i128, sq);
    let im: i128 = part_of(b * c - a * d, ONE as i128, sq);
    proof {
        lemma_over_bound(a as int, b as int, c as int, d as int, re as int, im as int);
    }
    Cplx { re: re as i64, im: im as i64 }
}

proof fn lemma_product_bound(x: int, y: int, limit: int)
    requires
        -limit <= x <= limit,
        -limit <= y <= limit,
    ensures
        -(limit * limit) <= x * y <= limit * limit,
{
    assert(-(limit * limit) <= x * y <= limit * limit) by (nonlinear_arith)
        requires
            -limit <= x <= limit,
            -limit <= y <= limit,
    ;
}

/// A quotient is no longer than its numerator, times one.
proof fn lemma_over_bound(a: int, b: int, c: int, d: int, re: int, im: int)
    requires
        -LIMIT <= a <= LIMIT,
        -LIMIT <= b <= LIMIT,
        c * c + d * d > 0,
        magnitude(re) * (c * c + d * d) <= magnitude(a * c + b * d) * ONE,
        magnitude(im) * (c * c + d * d) <= magnitude(b * c - a * d) * ONE,
    ensures
        -0x2000_0000_0000_0000 <= re <= 0x2000_0000_0000_0000,
        -0x2000_0000_0000_0000 <= im <= 0x2000_0000_0000_0000,
{
    let sq = c * c + d * d;
    let x = magnitude(c);
    let y = magnitude(d);
    assert(x <= c * c && y <= d * d) by (nonlinear_arith)
        requires
            x == c || x == -c,
            y == d || y == -d,
            x >= 0,
            y >= 0,
    ;
    assert(magnitude(a * c + b * d) <= LIMIT * (x + y)) by {
        assert(-(LIMIT * x) <= a * c <= LIMIT * x) by (nonlinear_arith)
            requires
                -LIMIT <= a <= LIMIT,
                x == c || x == -c,
                x >= 0,
        ;
        assert(-(LIMIT * y) <= b * d <= LIMIT * y) by (nonlinear_arith)
            requires
                -LIMIT <= b <= LIMIT,
                y == d || y == -d,
                y >= 0,
        ;
    }
    assert(magnitude(b * c - a * d) <= LIMIT * (x + y)) by {
        assert(-(LIMIT * x) <= b * c <= LIMIT * x) by (nonlinear_arith)
            requires
                -LIMIT <= b <= LIMIT,
                x == c || x == -c,
                x >= 0,
        ;
        assert(-(LIMIT * y) <= a * d <= LIMIT * y) by (nonlinear_arith)
            requires
                -LIMIT <= a <= LIMIT,
                y == d || y == -d,
                y >= 0,
        ;
    }
    lemma_quotient_bound(magnitude(re), sq);
    lemma_quotient_bound(magnitude(im), sq);
}

proof fn lemma_quotient_bound(q: int, sq: int)
    requires
        q >= 0,
        sq > 0,
        q * sq <= LIMIT * sq * ONE,
    ensures
        q <= LIMIT * ONE,
{
    assert(q <= LIMIT * ONE) by (nonlinear_arith)
        requires
            q * sq <= LIMIT * sq * ONE,
            sq > 0,
    ;
}

fn ceiling_of(i: usize, b: usize) -> (r: i64)
    requires
        i < b <= 256,
    ensures
        r == ceiling(i as int, b as int),
        ONE <= r <= MAX_CORRECTION * ONE,
{
    proof {
        lemma_ceiling(i as int, b as int);
    }
    let c: i64 = ONE * (b as i64) / (i as i64 + 1);
    if c < MAX_CORRECTION * ONE {
        c
    } else {
        MAX_CORRECTION * ONE
    }
}

proof fn lemma_ceiling(i: int, b: int)
    requires
        0 <= i < b,
    ensures
        ONE <= ceiling(i, b) <= MAX_CORRECTION * ONE,
        ceiling(i, b) * (i + 1) <= ONE * b,
{
    let d = i + 1;
    let q = ONE * b / d;
    vstd::arithmetic::div_mod::lemma_fundamental_div_mod(ONE * b, d);
    assert(q * d <= ONE * b && q >= ONE) by (nonlinear_arith)
        requires
            ONE * b == d * q + (ONE * b) % d,
            0 <= (ONE * b) % d < d,
            d <= b,
            d > 0,
    ;
    let c = ceiling(i, b);
    assert(c * d <= ONE * b) by (nonlinear_arith)
        requires
            c <= q,
            q * d <= ONE * b,
            d > 0,
    ;
}

fn scaled_of(g: Cplx, c: i64, m: u64) -> (r: Cplx)
    requires
        0 <= c <= MAX_CORRECTION * ONE,
        0 < m,
        g.within(0x2000_0000_0000_0000),
        g.sq() <= m * m,
    ensures
        r == scaled(g, c as int, m as int),
        r.sq() <= c * c,
        magnitude(r.re as int) == magnitude(g.re as int) * c / m as int,
        magnitude(r.im as int) == magnitude(g.im as int) * c / m as int,
{
    proof {
        lemma_product_bound(magnitude(g.re as int), c as int, 0x2000_0000_0000_0000);
        lemma_product_bound(magnitude(g.im as int), c as int, 0x2000_0000_0000_0000);
    }
    let re: i128 = part_of(g.re as i128, c as i128, m as i128);
    let im: i128 = part_of(g.im as i128, c as i128, m as i128);
    proof {
        lemma_shrunk(g.re as int, g.im as int, c as int, m as int, re as int, im as int);
        lemma_side(re as int, im as int, c as int);
        lemma_side(im as int, re as int, c as int);
        lemma_part(g.re as int, c as int, m as int);
        lemma_part(g.im as int, c as int, m as int);
    }
    Cplx { re: re as i64, im: im as i64 }
}

/// A side is no longer than the hypotenuse.
proof fn lemma_side(x: int, y: int, c: int)
    requires
        x * x + y * y <= c * c,
        c >= 0,
    ensures
        -c <= x <= c,
{
    assert(-c <= x <= c) by (nonlinear_arith)
        requires
            x * x + y * y <= c * c,
            c >= 0,
    ;
}

/// What was shrunk to `c` of `m` is at least a quarter as long as `c`.
proof fn lemma_not_too_short(re: int, im: int, c: int, m: int, x: int, y: int)
    requires
        c >= ONE,
        m > c,
        (m - 1) * (m - 1) < re * re + im * im,
        x == magnitude(re) * c / m,
        y == magnitude(im) * c / m,
    ensures
        floor() * floor() <= x * x + y * y,
{
    let a = magnitude(re);
    let b = magnitude(im);
    assert(a * a == re * re && b * b == im * im) by (nonlinear_arith)
        requires
            a == re || a == -re,
            b == im || b == -im,
    ;
    lemma_over_next(a, c, m, x);
    lemma_over_next(b, c, m, y);
    let u = x + 1;
    let v = y + 1;
    let h = m - 1;
    // With a half of the length already: twice `h` is no less than `m`.
    assert(m * m <= 4 * (h * h)) by (nonlinear_arith)
        requires
            m == h + 1,
            h >= 1,
    ;
    lemma_square_order(a * c, u * m);
    lemma_square_order(b * c, v * m);
    assert((a * c) * (a * c) == (a * a) * (c * c)) by (nonlinear_arith);
    assert((b * c) * (b * c) == (b * b) * (c * c)) by (nonlinear_arith);
    assert((u * m) * (u * m) == (u * u) * (m * m)) by (nonlinear_arith);
    assert((v * m) * (v * m) == (v * v) * (m * m)) by (nonlinear_arith);
    let s = a * a + b * b;
    let w = u * u + v * v;
    let cc = c * c;
    let mm = m * m;
    assert(s * cc == (a * a) * cc + (b * b) * cc) by (nonlinear_arith)
        requires
            s == a * a + b * b,
    ;
    assert(w * mm == (u * u) * mm + (v * v) * mm) by (nonlinear_arith)
        requires
            w == u * u + v * v,
    ;
    assert(cc >= ONE * ONE) by (nonlinear_arith)
        requires
            cc == c * c,
            c >= ONE,
    ;
    assert(mm > 0) by (nonlinear_arith)
        requires
            mm == m * m,
            m > 0,
    ;
    assert(4 * w >= cc) by (nonlinear_arith)
        requires
            s * cc <= w * mm,
            mm <= 4 * s,
            mm > 0,
            cc > 0,
    ;
    let q = x * x + y * y;
    assert(w == q + 2 * (x + y) + 2) by (nonlinear_arith)
        requires
            u == x + 1,
            v == y + 1,
            w == u * u + v * v,
            q == x * x + y * y,
    ;
    let f = floor();
    assert(f == 0x4_0000);
    assert(f * f == 0x10_0000_0000) by (nonlinear_arith)
        requires
            f == 0x4_0000,
    ;
    assert(ONE * ONE == 0x100_0000_0000) by (nonlinear_arith);
    if q < f * f {
        lemma_side(x, y, f);
        lemma_swap_sum(x, y);
        lemma_side(y, x, f);
    }
}

proof fn lemma_swap_sum(x: int, y: int)
    ensures
        x * x + y * y == y * y + x * x,
{
}

/// A quotient is less than one short.
proof fn lemma_over_next(a: int, c: int, m: int, x: int)
    requires
        a >= 0,
        c >= 0,
        m > 0,
        x == a * c / m,
    ensures
        0 <= a * c <= (x + 1) * m,
        x >= 0,
{
    let n = a * c;
    assert(n >= 0) by (nonlinear_arith)
        requires
            n == a * c,
            a >= 0,
            c >= 0,
    ;
    vstd::arithmetic::div_mod::lemma_fundamental_div_mod(n, m);
    vstd::arithmetic::div_mod::lemma_div_pos_is_pos(n, m);
    assert((x + 1) * m == m * x + m) by (nonlinear_arith);
}

/// What was raised to `c` is no shorter than `c`, and neither side is longer.
proof fn lemma_raised(a: int, b: int, c: int, m: int, x: int, y: int)
    requires
        a >= 0,
        b >= 0,
        c >= 0,
        m > 0,
        m * m <= a * a + b * b < (m + 1) * (m + 1),
        x == (a * c + m - 1) / m,
        y == (b * c + m - 1) / m,
    ensures
        c * c <= x * x + y * y,
        0 <= x <= c,
        0 <= y <= c,
{
    lemma_raised_side(a, b, c, m, x);
    lemma_swap_sum(a, b);
    lemma_raised_side(b, a, c, m, y);
    lemma_square_order(a * c, x * m);
    lemma_square_order(b * c, y * m);
    assert((a * c) * (a * c) == (a * a) * (c * c)) by (nonlinear_arith);
    assert((b * c) * (b * c) == (b * b) * (c * c)) by (nonlinear_arith);
    assert((x * m) * (x * m) == (x * x) * (m * m)) by (nonlinear_arith);
    assert((y * m) * (y * m) == (y * y) * (m * m)) by (nonlinear_arith);
    let s = a * a + b * b;
    let q = x * x + y * y;
    let cc = c * c;
    let mm = m * m;
    assert(s * cc == (a * a) * cc + (b * b) * cc) by (nonlinear_arith)
        requires
            s == a * a + b * b,
    ;
    assert(q * mm == (x * x) * mm + (y * y) * mm) by (nonlinear_arith)
        requires
            q == x * x + y * y,
    ;
    assert(cc >= 0 && mm > 0) by (nonlinear_arith)
        requires
            cc == c * c,
            mm == m * m,
            m > 0,
    ;
    assert(cc <= q) by (nonlinear_arith)
        requires
            s * cc <= q * mm,
            mm <= s,
            cc >= 0,
            mm > 0,
    ;
}

proof fn lemma_raised_side(a: int, b: int, c: int, m: int, x: int)
    requires
        a >= 0,
        c >= 0,
        m > 0,
        a * a + b * b < (m + 1) * (m + 1),
        x == (a * c + m - 1) / m,
    ensures
        0 <= a * c <= x * m,
        0 <= x <= c,
{
    let n = a * c;
    assert(b * b >= 0) by (nonlinear_arith);
    assert(a <= m) by (nonlinear_arith)
        requires
            a * a < (m + 1) * (m + 1),
            a >= 0,
            m > 0,
    ;
    assert(0 <= n <= m * c) by (nonlinear_arith)
        requires
            n == a * c,
            0 <= a <= m,
            c >= 0,
    ;
    vstd::arithmetic::div_mod::lemma_fundamental_div_mod(n + m - 1, m);
    vstd::arithmetic::div_mod::lemma_div_pos_is_pos(n + m - 1, m);
    assert(x * m == m * x) by (nonlinear_arith);
    assert(x <= c) by (nonlinear_arith)
        requires
            m * x <= n + m - 1,
            n <= m * c,
            m > 0,
    ;
}

fn raised_of(g: Cplx) -> (r: Cplx)
    requires
        0 < g.sq() < floor() * floor(),
    ensures
        r == raised(g, floor()),
        floor() * floor() <= r.sq() <= ONE * ONE,
{
    let low: i128 = (ONE / MAX_CORRECTION) as i128;
    proof {
        lemma_side(g.re as int, g.im as int, floor());
        lemma_swapped(g);
        lemma_side(g.im as int, g.re as int, floor());
    }
    let re: i128 = if g.re < 0 { -(g.re as i128) } else { g.re as i128 };
    let im: i128 = if g.im < 0 { -(g.im as i128) } else { g.im as i128 };
    let a: i128 = re * ONE as i128;
    let b: i128 = im * ONE as i128;
    let ghost k = ONE as int * ONE as int;
    proof {
        let one = ONE as int;
        lemma_square_bound(a as int, 0x40_0000_0000);
        lemma_square_bound(b as int, 0x40_0000_0000);
        assert(a * a == k * (g.re * g.re)) by (nonlinear_arith)
            requires
                a == re * one,
                re == g.re || re == -g.re,
                k == one * one,
        ;
        assert(b * b == k * (g.im * g.im)) by (nonlinear_arith)
            requires
                b == im * one,
                im == g.im || im == -g.im,
                k == one * one,
        ;
        assert(k * g.sq() == k * (g.re * g.re) + k * (g.im * g.im)) by (nonlinear_arith)
            requires
                g.sq() == g.re * g.re + g.im * g.im,
        ;
        assert(k * g.sq() > 0) by (nonlinear_arith)
            requires
                k > 0,
                g.sq() > 0,
        ;
    }
    let sq: u128 = (a * a + b * b) as u128;
    let whole: u128 = roots::isqrt(sq);
    proof {
        roots::lemma_root(sq as nat);
        assert(0 < whole < 0x100_0000_0000) by (nonlinear_arith)
            requires
                whole >= 0,
                whole * whole <= sq < (whole + 1) * (whole + 1),
                0 < sq <= 2 * (0x40_0000_0000 * 0x40_0000_0000),
        ;
    }
    let m: i128 = whole as i128;
    proof {
        lemma_product_bound(a as int, low as int, 0x40_0000_0000);
        lemma_product_bound(b as int, low as int, 0x40_0000_0000);
    }
    let x: i128 = (a * low + m - 1) / m;
    let y: i128 = (b * low + m - 1) / m;
    proof {
        lemma_raised(a as int, b as int, low as int, m as int, x as int, y as int);
        lemma_square_order(x as int, low as int);
        lemma_square_order(y as int, low as int);
        assert(-(g.re * ONE) == (-g.re) * ONE) by (nonlinear_arith);
        assert(-(g.im * ONE) == (-g.im) * ONE) by (nonlinear_arith);
    }
    let r: Cplx = Cplx {
        re: if g.re < 0 { -(x as i64) } else { x as i64 },
        im: if g.im < 0 { -(y as i64) } else { y as i64 },
    };
    proof {
        assert(r.re * r.re == x * x) by (nonlinear_arith)
            requires
                r.re == x || r.re == -x,
        ;
        assert(r.im * r.im == y * y) by (nonlinear_arith)
            requires
                r.im == y || r.im == -y,
        ;
        let f = low as int;
        assert(f * f == 0x10_0000_0000) by (nonlinear_arith)
            requires
                f == 0x4_0000,
        ;
        assert(ONE * ONE == 0x100_0000_0000) by (nonlinear_arith);
    }
    r
}

fn held_of(g: Cplx, i: usize, b: usize) -> (r: Cplx)
    requires
        i < b <= 256,
        g.within(0x2000_0000_0000_0000),
    ensures
        r == held(g, i as int, b as int),
        in_range(r, i as int, b as int),
{
    proof {
        reveal(in_range);
    }
    let m: u64 = g.norm();
    let c: i64 = ceiling_of(i, b);
    let low: i64 = ONE / MAX_CORRECTION;
    if m == 0 {
        proof {
            let one = Cplx { re: ONE, im: 0 };
            assert(one.sq() == ONE * ONE);
            lemma_square_order(ONE as int, c as int);
            lemma_square_order(floor(), ONE as int);
        }
        Cplx { re: ONE, im: 0 }
    } else if m > c as u64 {
        let r: Cplx = scaled_of(g, c, m);
        proof {
            let x = magnitude(r.re as int);
            let y = magnitude(r.im as int);
            lemma_just_under(g, m as int);
            lemma_not_too_short(g.re as int, g.im as int, c as int, m as int, x, y);
            assert(x * x == r.re * r.re && y * y == r.im * r.im) by (nonlinear_arith)
                requires
                    x == r.re || x == -r.re,
                    y == r.im || y == -r.im,
            ;
        }
        r
    } else {
        proof {
            lemma_square_order(m as int, c as int);
            lemma_square_order(ONE as int, c as int);
            lemma_square_bound(g.re as int, 0x2000_0000_0000_0000);
            lemma_square_bound(g.im as int, 0x2000_0000_0000_0000);
            lemma_positive(g);
            assert(low == 0x4_0000);
        }
        let re: i128 = g.re as i128;
        let im: i128 = g.im as i128;
        let least: i128 = low as i128 * low as i128;
        if re * re + im * im < least {
            raised_of(g)
        } else {
            g
        }
    }
}

/// Something is longer than nothing.
proof fn lemma_positive(g: Cplx)
    requires
        g != (Cplx { re: 0, im: 0 }),
    ensures
        g.sq() > 0,
{
    let x = g.re as int;
    let y = g.im as int;
    assert(x * x >= 0 && (x != 0 ==> x * x > 0)) by (nonlinear_arith);
    assert(y * y >= 0 && (y != 0 ==> y * y > 0)) by (nonlinear_arith);
}

/// A number is less than one shorter than its amplitude.
proof fn lemma_just_under(g: Cplx, m: int)
    requires
        m == g.amplitude(),
        m > 1,
    ensures
        (m - 1) * (m - 1) < g.re * g.re + g.im * g.im,
{
    lemma_amplitude_root(g);
    let r = roots::root(g.sq() as nat) as int;
    if r == m {
        assert((m - 1) * (m - 1) < m * m) by (nonlinear_arith)
            requires
                m > 1,
        ;
    }
}

proof fn lemma_amplitude_root(g: Cplx)
    ensures
        ({
            let r = roots::root(g.sq() as nat) as int;
            &&& r * r <= g.sq()
            &&& g.amplitude() == r ==> r * r == g.sq()
            &&& g.amplitude() == r + 1 ==> r * r < g.sq()
            &&& g.amplitude() == r || g.amplitude() == r + 1
        }),
{
    let x = g.re as int;
    let y = g.im as int;
    assert(x * x >= 0 && y * y >= 0) by (nonlinear_arith);
    roots::lemma_root(g.sq() as nat);
}

proof fn lemma_square_order(x: int, y: int)
    requires
        0 <= x <= y,
    ensures
        x * x <= y * y,
{
    assert(x * x <= y * y) by (nonlinear_arith)
        requires
            0 <= x <= y,
    ;
}

/// Pins the top of a table at unity and holds everything inside the safe range.
pub fn normalise(table: &mut Vec<Cplx>)
    requires
        4 <= old(table)@.len() <= 256,
        forall|i: int|
            0 <= i < old(table)@.len() ==> (#[trigger] old(table)@[i]).within(LIMIT as int),
    ensures
        final(table)@ == normalised(old(table)@),
        safe(final(table)@),
{
    let ghost start = table@;
    let b: usize = table.len();
    let top: Cplx = table[b - 1];
    let n: u64 = top.norm();
    proof {
        if n > 1 {
            lemma_long(top, n as int);
        }
    }
    let mut i: usize = 0;
    while i < b
        invariant
            i <= b <= 256,
            4 <= b,
            table@.len() == b,
            start.len() == b,
            top == start.last(),
            top.within(LIMIT as int),
            n == top.amplitude(),
            n > 1 ==> top.sq() > 0,
            forall|k: int| 0 <= k < b ==> (#[trigger] start[k]).within(LIMIT as int),
            forall|k: int| i <= k < b ==> #[trigger] table@[k] == start[k],
            forall|k: int| 0 <= k < i ==> #[trigger] table@[k] == normalised(start)[k],
            forall|k: int| 0 <= k < i ==> in_range(#[trigger] table@[k], k, b as int),
        decreases b - i,
    {
        let g: Cplx = table[i];
        assert(g == start[i as int]);
        let turned: Cplx = if n > 1 { over_of(g, top) } else { g };
        let h: Cplx = held_of(turned, i, b);
        table.set(i, h);
        i += 1;
    }
    assert(table@ =~= normalised(start));
}

proof fn lemma_long(c: Cplx, n: int)
    requires
        n == c.amplitude(),
        n > 1,
    ensures
        c.sq() > 0,
{
    let x = c.re as int;
    let y = c.im as int;
    assert(x * x >= 0 && y * y >= 0) by (nonlinear_arith);
    if c.sq() == 0 {
        roots::lemma_root(0);
        assert(roots::root(0) == 0);
    }
}

/// Two gains mixed, `w` parts of the second in `2 * ONE`.
pub open spec fn mixed(g: Cplx, h: Cplx, w: int) -> Cplx {
    Cplx {
        re: part(g.re * (2 * ONE - w) + h.re * w, 1, 2 * ONE) as i64,
        im: part(g.im * (2 * ONE - w) + h.im * w, 1, 2 * ONE) as i64,
    }
}

/// Where an amplitude stands between the middles of the bins, in `2 * ONE`ths of
/// a bin: the middle of the first is nothing.
pub open spec fn place_of(a: int, b: int) -> int {
    2 * (if a < ONE {
        a
    } else {
        ONE as int
    }) * b - ONE
}

/// The gain at an amplitude: between the middles of the bins, and held at the
/// ends.
pub open spec fn gain(t: Seq<Cplx>, a: int) -> Cplx {
    let at = place_of(a, t.len() as int);
    let i = at / (2 * ONE);
    if at <= 0 {
        t[0]
    } else if i + 1 >= t.len() {
        t.last()
    } else {
        mixed(t[i], t[i + 1], at % (2 * ONE))
    }
}

/// `s * g`.
pub open spec fn bent(s: Cplx, g: Cplx) -> Cplx {
    Cplx {
        re: part(s.re * g.re - s.im * g.im, 1, ONE as int) as i64,
        im: part(s.re * g.im + s.im * g.re, 1, ONE as int) as i64,
    }
}

fn mixed_of(g: Cplx, h: Cplx, w: i64) -> (r: Cplx)
    requires
        g.within(LIMIT as int),
        h.within(LIMIT as int),
        0 <= w < 2 * ONE,
    ensures
        r == mixed(g, h, w as int),
        r.within(LIMIT as int),
{
    let u: i128 = 2 * ONE as i128 - w as i128;
    let v: i128 = w as i128;
    proof {
        lemma_mix_bound(g.re as int, h.re as int, w as int);
        lemma_mix_bound(g.im as int, h.im as int, w as int);
        lemma_product_bound(g.re as int, u as int, LIMIT as int);
        lemma_product_bound(h.re as int, v as int, LIMIT as int);
        lemma_product_bound(g.im as int, u as int, LIMIT as int);
        lemma_product_bound(h.im as int, v as int, LIMIT as int);
    }
    let re: i128 = part_of(g.re as i128 * u + h.re as i128 * v, 1, 2 * ONE as i128);
    let im: i128 = part_of(g.im as i128 * u + h.im as i128 * v, 1, 2 * ONE as i128);
    proof {
        lemma_halved(magnitude(re as int));
        lemma_halved(magnitude(im as int));
    }
    Cplx { re: re as i64, im: im as i64 }
}

proof fn lemma_halved(q: int)
    ensures
        q * (2 * ONE) <= LIMIT * (2 * ONE) ==> q <= LIMIT,
{
    let d = 2 * ONE;
    if q * d <= LIMIT * d {
        assert(q <= LIMIT) by (nonlinear_arith)
            requires
                q * d <= LIMIT * d,
                d > 0,
        ;
    }
}

proof fn lemma_mix_bound(x: int, y: int, w: int)
    requires
        -LIMIT <= x <= LIMIT,
        -LIMIT <= y <= LIMIT,
        0 <= w < 2 * ONE,
    ensures
        magnitude(x * (2 * ONE - w) + y * w) <= LIMIT * (2 * ONE),
{
    let u = 2 * ONE - w;
    assert(-(LIMIT * u) <= x * u <= LIMIT * u) by (nonlinear_arith)
        requires
            -LIMIT <= x <= LIMIT,
            u >= 0,
    ;
    assert(-(LIMIT * w) <= y * w <= LIMIT * w) by (nonlinear_arith)
        requires
            -LIMIT <= y <= LIMIT,
            w >= 0,
    ;
}

/// The gain of a table at an amplitude.
pub fn gain_at(table: &Vec<Cplx>, a: u64) -> (r: Cplx)
    requires
        4 <= table@.len() <= 256,
        forall|i: int| 0 <= i < table@.len() ==> (#[trigger] table@[i]).within(LIMIT as int),
    ensures
        r == gain(table@, a as int),
        r.within(LIMIT as int),
{
    let b: usize = table.len();
    let clamped: i64 = if a < ONE as u64 { a as i64 } else { ONE };
    assert(0 <= 2 * clamped * b <= 2 * ONE * 256) by (nonlinear_arith)
        requires
            0 <= clamped <= ONE,
            0 <= b <= 256,
    ;
    let at: i64 = 2 * clamped * (b as i64) - ONE;
    if at <= 0 {
        return table[0];
    }
    let i: i64 = at / (2 * ONE);
    if i + 1 >= b as i64 {
        return table[b - 1];
    }
    let k: usize = i as usize;
    mixed_of(table[k], table[k + 1], at % (2 * ONE))
}

/// The bin of an amplitude, of `b`.
pub open spec fn bin(a: int, b: int) -> int {
    let i = a * b / (ONE as int);
    if i < b {
        i
    } else {
        b - 1
    }
}

/// The bin that a sample of this amplitude is counted in.
pub fn bin_of(a: u64, b: usize) -> (r: usize)
    requires
        0 < b <= 256,
        a <= 0x1_0000_0000,
    ensures
        r == bin(a as int, b as int),
        r < b,
{
    assert(0 <= a * b <= 0x1_0000_0000 * 256) by (nonlinear_arith)
        requires
            0 <= a <= 0x1_0000_0000,
            0 <= b <= 256,
    ;
    let i: u64 = a * (b as u64) / (ONE as u64);
    if i < b as u64 {
        i as usize
    } else {
        b - 1
    }
}

pub(crate) fn bent_of(s: Cplx, g: Cplx) -> (r: Cplx)
    requires
        s.within(LIMIT as int),
        g.within(LIMIT as int),
    ensures
        r == bent(s, g),
{
    proof {
        lemma_product_bound(s.re as int, g.re as int, LIMIT as int);
        lemma_product_bound(s.im as int, g.im as int, LIMIT as int);
        lemma_product_bound(s.re as int, g.im as int, LIMIT as int);
        lemma_product_bound(s.im as int, g.re as int, LIMIT as int);
    }
    let a: i128 = s.re as i128;
    let b: i128 = s.im as i128;
    let c: i128 = g.re as i128;
    let d: i128 = g.im as i128;
    let re: i128 = part_of(a * c - b * d, 1, ONE as i128);
    let im: i128 = part_of(a * d + b * c, 1, ONE as i128);
    Cplx { re: re as i64, im: im as i64 }
}

/// The length of a product is the product of the lengths.
proof fn lemma_product_length(a: int, b: int, c: int, d: int)
    ensures
        (a * c - b * d) * (a * c - b * d) + (a * d + b * c) * (a * d + b * c) == (a * a + b * b) * (c
            * c + d * d),
{
    let p = a * c;
    let q = b * d;
    let u = a * d;
    let v = b * c;
    assert((p - q) * (p - q) == p * p - 2 * (p * q) + q * q) by (nonlinear_arith);
    assert((u + v) * (u + v) == u * u + 2 * (u * v) + v * v) by (nonlinear_arith);
    assert(p * q == u * v) by (nonlinear_arith)
        requires
            p == a * c,
            q == b * d,
            u == a * d,
            v == b * c,
    ;
    assert(p * p == (a * a) * (c * c)) by (nonlinear_arith)
        requires
            p == a * c,
    ;
    assert(q * q == (b * b) * (d * d)) by (nonlinear_arith)
        requires
            q == b * d,
    ;
    assert(u * u == (a * a) * (d * d)) by (nonlinear_arith)
        requires
            u == a * d,
    ;
    assert(v * v == (b * b) * (c * c)) by (nonlinear_arith)
        requires
            v == b * c,
    ;
    let aa = a * a;
    let bb = b * b;
    let cc = c * c;
    let dd = d * d;
    assert((aa + bb) * (cc + dd) == aa * cc + bb * dd + aa * dd + bb * cc) by (nonlinear_arith);
}

/// Two numbers no longer than `c` and `d` have a product of no more than `c * d`.
proof fn lemma_inner(x: int, y: int, u: int, v: int, c: int, d: int)
    requires
        x * x + y * y <= c * c,
        u * u + v * v <= d * d,
        c >= 0,
        d >= 0,
    ensures
        x * u + y * v <= c * d,
{
    let p = x * u + y * v;
    let q = x * v - y * u;
    lemma_product_length(x, y, u, -v);
    let s = x * x + y * y;
    let t = u * u + v * v;
    assert(x * (-v) == -(x * v) && y * (-v) == -(y * v) && (-v) * (-v) == v * v)
        by (nonlinear_arith);
    assert(p * p + q * q == s * t) by (nonlinear_arith)
        requires
            (x * u - y * (-v)) * (x * u - y * (-v)) + (x * (-v) + y * u) * (x * (-v) + y * u) == s
                * t,
            y * (-v) == -(y * v),
            x * (-v) == -(x * v),
            p == x * u + y * v,
            q == x * v - y * u,
    ;
    assert(q * q >= 0) by (nonlinear_arith);
    assert(s >= 0 && t >= 0) by (nonlinear_arith)
        requires
            s == x * x + y * y,
            t == u * u + v * v,
    ;
    assert(s * t <= (c * c) * (d * d)) by (nonlinear_arith)
        requires
            0 <= s <= c * c,
            0 <= t <= d * d,
    ;
    let w = c * d;
    assert((c * c) * (d * d) == w * w) by (nonlinear_arith)
        requires
            w == c * d,
    ;
    assert(w >= 0) by (nonlinear_arith)
        requires
            w == c * d,
            c >= 0,
            d >= 0,
    ;
    assert(p <= w) by (nonlinear_arith)
        requires
            p * p <= w * w,
            w >= 0,
    ;
}

/// A mixture is no longer than the mixture of the lengths.
proof fn lemma_mixture(x: int, y: int, u: int, v: int, c: int, d: int, m: int, n: int)
    requires
        x * x + y * y <= c * c,
        u * u + v * v <= d * d,
        c >= 0,
        d >= 0,
        m >= 0,
        n >= 0,
    ensures
        (x * m + u * n) * (x * m + u * n) + (y * m + v * n) * (y * m + v * n) <= (m * c + n * d)
            * (m * c + n * d),
{
    lemma_inner(x, y, u, v, c, d);
    let i = x * u + y * v;
    let s = x * x + y * y;
    let t = u * u + v * v;
    let mm = m * m;
    let nn = n * n;
    let mn = m * n;
    lemma_square_of_sum(x * m, u * n);
    lemma_square_of_sum(y * m, v * n);
    lemma_square_of_sum(m * c, n * d);
    assert((x * m) * (x * m) == (x * x) * mm && (u * n) * (u * n) == (u * u) * nn && (x * m) * (u
        * n) == (x * u) * mn) by (nonlinear_arith)
        requires
            mm == m * m,
            nn == n * n,
            mn == m * n,
    ;
    assert((y * m) * (y * m) == (y * y) * mm && (v * n) * (v * n) == (v * v) * nn && (y * m) * (v
        * n) == (y * v) * mn) by (nonlinear_arith)
        requires
            mm == m * m,
            nn == n * n,
            mn == m * n,
    ;
    assert((m * c) * (m * c) == (c * c) * mm && (n * d) * (n * d) == (d * d) * nn && (m * c) * (n
        * d) == (c * d) * mn) by (nonlinear_arith)
        requires
            mm == m * m,
            nn == n * n,
            mn == m * n,
    ;
    assert(mm >= 0 && nn >= 0 && mn >= 0) by (nonlinear_arith)
        requires
            mm == m * m,
            nn == n * n,
            mn == m * n,
            m >= 0,
            n >= 0,
    ;
    assert(s * mm == (x * x) * mm + (y * y) * mm) by (nonlinear_arith)
        requires
            s == x * x + y * y,
    ;
    assert(t * nn == (u * u) * nn + (v * v) * nn) by (nonlinear_arith)
        requires
            t == u * u + v * v,
    ;
    assert(i * mn == (x * u) * mn + (y * v) * mn) by (nonlinear_arith)
        requires
            i == x * u + y * v,
    ;
    let cc = c * c;
    let dd = d * d;
    let cd = c * d;
    assert(s * mm <= cc * mm) by (nonlinear_arith)
        requires
            s <= cc,
            mm >= 0,
    ;
    assert(t * nn <= dd * nn) by (nonlinear_arith)
        requires
            t <= dd,
            nn >= 0,
    ;
    assert(i * mn <= cd * mn) by (nonlinear_arith)
        requires
            i <= cd,
            mn >= 0,
    ;
}

proof fn lemma_square_of_sum(p: int, q: int)
    ensures
        (p + q) * (p + q) == p * p + 2 * (p * q) + q * q,
{
    assert((p + q) * (p + q) == p * p + 2 * (p * q) + q * q) by (nonlinear_arith);
}

/// Between two bins the product of amplitude and largest gain stays under full
/// scale. `f` is how far on from the middle of bin `i` the amplitude is.
proof fn lemma_between(i: int, b: int, a: int, f: int, c: int, d: int)
    requires
        0 <= i,
        i + 1 < b,
        0 <= f < 2 * ONE,
        2 * (a * b) == 2 * ONE * i + f + ONE,
        c * (i + 1) <= ONE * b,
        d * (i + 2) <= ONE * b,
        c >= 0,
        d >= 0,
        a >= 0,
    ensures
        a * ((2 * ONE - f) * c + f * d) <= 2 * (ONE * (ONE * ONE)),
{
    let j = i + 1;
    let k = i + 2;
    let w = 2 * ONE - f;
    let g = w * c + f * d;
    let one: int = ONE as int;
    let jk = j * k;
    let wc = w * c;
    let fd = f * d;
    assert(g * jk == wc * jk + fd * jk) by (nonlinear_arith)
        requires
            g == wc + fd,
    ;
    assert(wc * jk == (w * k) * (c * j)) by (nonlinear_arith)
        requires
            wc == w * c,
            jk == j * k,
    ;
    assert(fd * jk == (f * j) * (d * k)) by (nonlinear_arith)
        requires
            fd == f * d,
            jk == j * k,
    ;
    let wk = w * k;
    let fj = f * j;
    let top = one * b;
    assert(wk >= 0 && fj >= 0) by (nonlinear_arith)
        requires
            wk == w * k,
            fj == f * j,
            w >= 0,
            f >= 0,
            j >= 0,
            k >= 0,
    ;
    assert(wk * (c * j) <= wk * top) by (nonlinear_arith)
        requires
            c * j <= top,
            wk >= 0,
    ;
    assert(fj * (d * k) <= fj * top) by (nonlinear_arith)
        requires
            d * k <= top,
            fj >= 0,
    ;
    let sum = wk + fj;
    assert(wk * top + fj * top == sum * top) by (nonlinear_arith)
        requires
            sum == wk + fj,
    ;
    assert(g * jk <= sum * top);
    assert(sum == 2 * one * k - f) by (nonlinear_arith)
        requires
            sum == w * k + f * j,
            w == 2 * one - f,
            k == j + 1,
    ;
    let ag = a * g;
    let gj = g * jk;
    let st = sum * top;
    assert(a * gj <= a * st) by (nonlinear_arith)
        requires
            gj <= st,
            a >= 0,
    ;
    assert(ag * jk == a * gj) by (nonlinear_arith)
        requires
            ag == a * g,
            gj == g * jk,
    ;
    let ab = a * b;
    assert(a * st == (ab * sum) * one) by (nonlinear_arith)
        requires
            st == sum * (one * b),
            ab == a * b,
    ;
    let p = 2 * one * i + f + one;
    assert(p == 2 * ab);
    assert(2 * (ab * sum) == p * sum) by (nonlinear_arith)
        requires
            p == 2 * ab,
    ;
    assert(p * sum <= 4 * (one * one) * jk) by {
        lemma_parabola(i, f);
    }
    let oo = one * one;
    assert(2 * (ag * jk) <= (p * sum) * one) by (nonlinear_arith)
        requires
            ag * jk <= (ab * sum) * one,
            2 * (ab * sum) == p * sum,
    ;
    let ps = p * sum;
    assert(ps * one <= (4 * oo * jk) * one) by (nonlinear_arith)
        requires
            ps <= 4 * oo * jk,
            one >= 0,
    ;
    assert((4 * oo * jk) * one == 4 * (one * oo) * jk) by (nonlinear_arith);
    assert(jk > 0) by (nonlinear_arith)
        requires
            jk == j * k,
            j > 0,
            k > 0,
    ;
    let lim = one * oo;
    assert(ag <= 2 * lim) by (nonlinear_arith)
        requires
            2 * (ag * jk) <= 4 * lim * jk,
            jk > 0,
    ;
}

/// `(i + 1/2 + x) (i + 2 - x) <= (i + 1) (i + 2)` where `x` is a part of one.
proof fn lemma_parabola(i: int, f: int)
    requires
        0 <= i,
        0 <= f < 2 * ONE,
    ensures
        (2 * ONE * i + f + ONE) * (2 * ONE * (i + 2) - f) <= 4 * (ONE * ONE) * ((i + 1) * (i + 2)),
{
    let one: int = ONE as int;
    let p = 2 * one * i + f + one;
    let q = 2 * one * (i + 2) - f;
    let t = one * i;
    assert(p == 2 * t + f + one && q == 2 * t + 4 * one - f) by (nonlinear_arith)
        requires
            t == one * i,
            p == 2 * one * i + f + one,
            q == 2 * one * (i + 2) - f,
    ;
    let tt = t * t;
    let to = t * one;
    let tf = t * f;
    let fo = f * one;
    let ff = f * f;
    let oo = one * one;
    assert(p * q == 4 * tt + 10 * to + 3 * fo - ff + 4 * oo) by (nonlinear_arith)
        requires
            p == 2 * t + f + one,
            q == 2 * t + 4 * one - f,
            tt == t * t,
            to == t * one,
            fo == f * one,
            ff == f * f,
            oo == one * one,
    ;
    let r = oo * ((i + 1) * (i + 2));
    assert(r == tt + 3 * to + 2 * oo) by (nonlinear_arith)
        requires
            r == (one * one) * ((i + 1) * (i + 2)),
            t == one * i,
            tt == t * t,
            to == t * one,
            oo == one * one,
    ;
    assert(4 * oo * ((i + 1) * (i + 2)) == 4 * r) by (nonlinear_arith)
        requires
            r == oo * ((i + 1) * (i + 2)),
    ;
    assert(to >= 0) by (nonlinear_arith)
        requires
            to == (one * i) * one,
            one >= 0,
            i >= 0,
    ;
    assert(4 * oo - 3 * fo + ff >= 0) by (nonlinear_arith)
        requires
            oo == one * one,
            fo == f * one,
            ff == f * f,
    ;
}

/// The gain of a safe table does not take an amplitude past full scale.
proof fn lemma_gain_is_safe(t: Seq<Cplx>, a: int)
    requires
        4 <= t.len() <= 256,
        safe(t),
        0 <= a,
    ensures
        a <= ONE ==> (a * a) * gain(t, a).sq() <= (ONE * ONE) * (ONE * ONE),
        a >= ONE ==> gain(t, a).sq() <= ONE * ONE,
{
    reveal(in_range);
    let b = t.len() as int;
    let at = place_of(a, b);
    let one: int = ONE as int;
    let x = if a < one {
        a
    } else {
        one
    };
    assert(2 * x * b == 2 * (x * b)) by (nonlinear_arith);
    let i = at / (2 * one);
    let f = at % (2 * one);
    let g = gain(t, a);
    lemma_ceiling(b - 1, b);
    assert(ceiling(b - 1, b) == one) by {
        assert(one * b / b == one) by (nonlinear_arith)
            requires
                b > 0,
        ;
    }
    assert(t.last().sq() <= one * one);
    if a >= one {
        assert(x == one);
        assert(at == 2 * (one * b) - one);
        assert(i == b - 1) by {
            assert(at == (b - 1) * (2 * one) + one) by (nonlinear_arith)
                requires
                    at == 2 * (one * b) - one,
            ;
            vstd::arithmetic::div_mod::lemma_fundamental_div_mod_converse(
                at,
                2 * one,
                b - 1,
                one,
            );
        }
        assert(g == t.last());
    }
    if a <= one {
        if at <= 0 {
            let c = ceiling(0, b);
            lemma_ceiling(0, b);
            assert(t[0].sq() <= c * c);
            assert(a * b <= one) by {
                assert(2 * (a * b) <= one);
            }
            assert(4 * a <= one) by (nonlinear_arith)
                requires
                    a * b <= one,
                    b >= 4,
                    a >= 0,
            ;
            lemma_lengths(a, c, t[0].sq(), one * one);
        } else if i + 1 >= b {
            assert(a * one <= one * one) by (nonlinear_arith)
                requires
                    a <= one,
                    one >= 0,
            ;
            lemma_lengths(a, one, t.last().sq(), one * one);
        } else {
            let c = ceiling(i, b);
            let d = ceiling(i + 1, b);
            lemma_ceiling(i, b);
            lemma_ceiling(i + 1, b);
            vstd::arithmetic::div_mod::lemma_fundamental_div_mod(at, 2 * one);
            vstd::arithmetic::div_mod::lemma_div_pos_is_pos(at, 2 * one);
            assert(0 <= f < 2 * one);
            assert((2 * one) * i == 2 * one * i);
            lemma_square_order(c, MAX_CORRECTION * ONE);
            lemma_square_order(d, MAX_CORRECTION * ONE);
            lemma_between(i, b, a, f, c, d);
            let p = t[i];
            let q = t[i + 1];
            assert(p.sq() <= c * c && q.sq() <= d * d);
            let w = 2 * one - f;
            lemma_mixture(
                p.re as int,
                p.im as int,
                q.re as int,
                q.im as int,
                c,
                d,
                w,
                f,
            );
            let top = w * c + f * d;
            assert(top >= 0) by (nonlinear_arith)
                requires
                    top == w * c + f * d,
                    w >= 0,
                    c >= 0,
                    f >= 0,
                    d >= 0,
            ;
            let re = p.re * w + q.re * f;
            let im = p.im * w + q.im * f;
            lemma_part(re, 1, 2 * one);
            lemma_part(im, 1, 2 * one);
            let u = part(re, 1, 2 * one);
            let v = part(im, 1, 2 * one);
            lemma_fits(p, q, f);
            assert(g.re == u && g.im == v);
            lemma_shorter(u, 2 * one, re, 1);
            lemma_shorter(v, 2 * one, im, 1);
            let four = (2 * one) * (2 * one);
            assert(four > 0) by (nonlinear_arith)
                requires
                    four == (2 * one) * (2 * one),
                    one > 0,
            ;
            assert(g.sq() * four <= top * top) by {
                assert((u * u + v * v) * four == (u * u) * four + (v * v) * four)
                    by (nonlinear_arith);
                assert((re * re) * (1 * 1) == re * re && (im * im) * (1 * 1) == im * im)
                    by (nonlinear_arith);
            }
            lemma_lengths(a, top, g.sq() * four, 2 * (one * (one * one)));
            let lim = 2 * (one * (one * one));
            let aa = a * a;
            let gs = g.sq();
            assert(lim * lim == four * ((one * one) * (one * one))) by (nonlinear_arith)
                requires
                    lim == 2 * (one * (one * one)),
                    four == (2 * one) * (2 * one),
            ;
            assert(aa * (gs * four) == (aa * gs) * four) by (nonlinear_arith);
            let m = aa * gs;
            let n = (one * one) * (one * one);
            assert(m <= n) by (nonlinear_arith)
                requires
                    m * four <= four * n,
                    four > 0,
            ;
        }
    }
}

/// A mixture of gains fits where they do.
proof fn lemma_fits(p: Cplx, q: Cplx, f: int)
    requires
        0 <= f < 2 * ONE,
        p.sq() <= (MAX_CORRECTION * ONE) * (MAX_CORRECTION * ONE),
        q.sq() <= (MAX_CORRECTION * ONE) * (MAX_CORRECTION * ONE),
    ensures
        ({
            let re = p.re * (2 * ONE - f) + q.re * f;
            let im = p.im * (2 * ONE - f) + q.im * f;
            &&& i64::MIN <= part(re, 1, 2 * ONE) <= i64::MAX
            &&& i64::MIN <= part(im, 1, 2 * ONE) <= i64::MAX
        }),
{
    let c = MAX_CORRECTION * ONE;
    lemma_side(p.re as int, p.im as int, c);
    lemma_side(q.re as int, q.im as int, c);
    lemma_swapped(p);
    lemma_swapped(q);
    lemma_side(p.im as int, p.re as int, c);
    lemma_side(q.im as int, q.re as int, c);
    lemma_mix_bound(p.re as int, q.re as int, f);
    lemma_mix_bound(p.im as int, q.im as int, f);
    lemma_part(p.re * (2 * ONE - f) + q.re * f, 1, 2 * ONE);
    lemma_part(p.im * (2 * ONE - f) + q.im * f, 1, 2 * ONE);
}

proof fn lemma_swapped(c: Cplx)
    ensures
        c.sq() == c.im * c.im + c.re * c.re,
{
}

/// Two lengths by their squares.
proof fn lemma_lengths(a: int, c: int, s: int, limit: int)
    requires
        a >= 0,
        c >= 0,
        s <= c * c,
        a * c <= limit,
    ensures
        (a * a) * s <= limit * limit,
{
    let aa = a * a;
    let cc = c * c;
    assert(aa >= 0) by (nonlinear_arith)
        requires
            aa == a * a,
    ;
    assert(aa * s <= aa * cc) by (nonlinear_arith)
        requires
            s <= cc,
            aa >= 0,
    ;
    let ac = a * c;
    assert(aa * cc == ac * ac) by (nonlinear_arith)
        requires
            aa == a * a,
            cc == c * c,
            ac == a * c,
    ;
    assert(ac >= 0) by (nonlinear_arith)
        requires
            ac == a * c,
            a >= 0,
            c >= 0,
    ;
    lemma_square_order(ac, limit);
}

/// However a table was learned, it cannot raise the peak: an amplitude up to full
/// scale stays there, and one above it is not raised.
pub proof fn law_a_safe_table_cannot_raise_the_peak(t: Seq<Cplx>, s: Cplx)
    requires
        4 <= t.len() <= 256,
        safe(t),
        s.within(LIMIT as int),
    ensures
        s.amplitude() <= ONE ==> bent(s, gain(t, s.amplitude())).sq() <= ONE * ONE,
        s.amplitude() >= ONE ==> bent(s, gain(t, s.amplitude())).sq() <= s.sq(),
{
    reveal(in_range);
    let a = s.amplitude();
    let one: int = ONE as int;
    let oo = one * one;
    lemma_amplitude(s);
    lemma_gain_is_safe(t, a);
    lemma_gain_is_small(t, a);
    let g = gain(t, a);
    let b = bent(s, g);
    lemma_product_length(s.re as int, s.im as int, g.re as int, g.im as int);
    let re = s.re * g.re - s.im * g.im;
    let im = s.re * g.im + s.im * g.re;
    lemma_product_bound(s.re as int, g.re as int, LIMIT as int);
    lemma_product_bound(s.im as int, g.im as int, LIMIT as int);
    lemma_product_bound(s.re as int, g.im as int, LIMIT as int);
    lemma_product_bound(s.im as int, g.re as int, LIMIT as int);
    lemma_part(re, 1, one);
    lemma_part(im, 1, one);
    let u = part(re, 1, one);
    let v = part(im, 1, one);
    assert(b.re == u && b.im == v);
    lemma_shorter(u, one, re, 1);
    lemma_shorter(v, one, im, 1);
    assert((u * u + v * v) * oo == (u * u) * oo + (v * v) * oo) by (nonlinear_arith);
    assert((re * re) * (1 * 1) == re * re && (im * im) * (1 * 1) == im * im) by (nonlinear_arith);
    let bs = b.sq();
    let ss = s.sq();
    let gs = g.sq();
    assert(bs * oo <= ss * gs);
    assert(gs >= 0) by {
        lemma_square_bound(g.re as int, LIMIT as int);
        lemma_square_bound(g.im as int, LIMIT as int);
    }
    assert(ss >= 0) by {
        lemma_square_bound(s.re as int, LIMIT as int);
        lemma_square_bound(s.im as int, LIMIT as int);
    }
    let aa = a * a;
    assert(ss * gs <= aa * gs) by (nonlinear_arith)
        requires
            ss <= aa,
            gs >= 0,
    ;
    assert(oo > 0) by (nonlinear_arith)
        requires
            oo == one * one,
            one > 0,
    ;
    if a <= one {
        assert(bs <= oo) by (nonlinear_arith)
            requires
                bs * oo <= oo * oo,
                oo > 0,
        ;
    }
    if a >= one {
        assert(ss * gs <= ss * oo) by (nonlinear_arith)
            requires
                gs <= oo,
                ss >= 0,
        ;
        assert(bs <= ss) by (nonlinear_arith)
            requires
                bs * oo <= ss * oo,
                oo > 0,
        ;
    }
}

proof fn lemma_amplitude(c: Cplx)
    requires
        c.within(LIMIT as int),
    ensures
        0 <= c.amplitude(),
        c.sq() <= c.amplitude() * c.amplitude(),
{
    lemma_square_bound(c.re as int, LIMIT as int);
    lemma_square_bound(c.im as int, LIMIT as int);
    roots::lemma_root(c.sq() as nat);
}

/// A gain of a safe table is no larger than its entries may be.
proof fn lemma_gain_is_small(t: Seq<Cplx>, a: int)
    requires
        4 <= t.len() <= 256,
        safe(t),
        0 <= a,
    ensures
        gain(t, a).within(LIMIT as int),
{
    reveal(in_range);
    let b = t.len() as int;
    assert forall|i: int| 0 <= i < b implies (#[trigger] t[i]).within(
        MAX_CORRECTION * ONE,
    ) by {
        let c = ceiling(i, b);
        lemma_ceiling(i, b);
        assert(t[i].sq() <= c * c);
        lemma_side(t[i].re as int, t[i].im as int, c);
        lemma_swapped(t[i]);
        lemma_side(t[i].im as int, t[i].re as int, c);
    }
    let at = place_of(a, b);
    let i = at / (2 * ONE);
    if at > 0 && i + 1 < b {
        vstd::arithmetic::div_mod::lemma_div_pos_is_pos(at, 2 * ONE);
        let f = at % (2 * ONE);
        let p = t[i];
        let q = t[i + 1];
        lemma_mix_bound(p.re as int, q.re as int, f);
        lemma_mix_bound(p.im as int, q.im as int, f);
        lemma_part(p.re * (2 * ONE - f) + q.re * f, 1, 2 * ONE);
        lemma_part(p.im * (2 * ONE - f) + q.im * f, 1, 2 * ONE);
        lemma_halved(magnitude(part(p.re * (2 * ONE - f) + q.re * f, 1, 2 * ONE)));
        lemma_halved(magnitude(part(p.im * (2 * ONE - f) + q.im * f, 1, 2 * ONE)));
    }
}

/// Unity everywhere.
pub open spec fn flat(t: Seq<Cplx>) -> bool {
    forall|i: int| 0 <= i < t.len() ==> #[trigger] t[i] == (Cplx { re: ONE, im: 0 })
}

/// A table of unity, which is what there is before anything was learned, leaves
/// the transmitter as it was.
pub proof fn law_a_flat_table_changes_nothing(t: Seq<Cplx>, s: Cplx)
    requires
        4 <= t.len() <= 256,
        flat(t),
        s.within(LIMIT as int),
    ensures
        bent(s, gain(t, s.amplitude())) == s,
{
    let one: int = ONE as int;
    let unity = Cplx { re: ONE, im: 0 };
    lemma_amplitude(s);
    let at = place_of(s.amplitude(), t.len() as int);
    let i = at / (2 * one);
    let f = at % (2 * one);
    if at > 0 && i + 1 < t.len() {
        vstd::arithmetic::div_mod::lemma_div_pos_is_pos(at, 2 * one);
        assert(t[i] == unity && t[i + 1] == unity);
        let v = one * (2 * one - f) + one * f;
        assert(v == one * (2 * one)) by (nonlinear_arith)
            requires
                v == one * (2 * one - f) + one * f,
        ;
        assert(v * 1 / (2 * one) == one);
        assert(gain(t, s.amplitude()) == unity);
    }
    let g = gain(t, s.amplitude());
    assert(g == unity);
    lemma_unity(s.re as int);
    lemma_unity(s.im as int);
    let none = g.im as int;
    assert(s.im * none == 0 && s.re * none == 0) by (nonlinear_arith)
        requires
            none == 0,
    ;
    assert(s.re * g.re - s.im * g.im == s.re * ONE);
    assert(s.re * g.im + s.im * g.re == s.im * ONE);
}

proof fn lemma_unity(x: int)
    ensures
        part(x * ONE, 1, ONE as int) == x,
{
    let one: int = ONE as int;
    let m = magnitude(x);
    assert((m * one) * 1 / one == m) by {
        vstd::arithmetic::div_mod::lemma_div_by_multiple(m, one);
    }
    assert(-(x * one) == (-x) * one) by (nonlinear_arith);
}

/// What is longer than it may be is shrunk into the range.
proof fn lemma_shrunk_in_range(g: Cplx, i: int, b: int)
    requires
        0 <= i < b,
        g.amplitude() > ceiling(i, b),
    ensures
        in_range(scaled(g, ceiling(i, b), g.amplitude()), i, b),
{
    reveal(in_range);
    let m = g.amplitude();
    let c = ceiling(i, b);
    lemma_ceiling(i, b);
    lemma_just_under(g, m);
    lemma_covered(g);
    lemma_part(g.re as int, c, m);
    lemma_part(g.im as int, c, m);
    let x = part(g.re as int, c, m);
    let y = part(g.im as int, c, m);
    lemma_shrunk(g.re as int, g.im as int, c, m, x, y);
    lemma_side(x, y, c);
    lemma_swap_sum(x, y);
    lemma_side(y, x, c);
    let p = magnitude(x);
    let q = magnitude(y);
    lemma_not_too_short(g.re as int, g.im as int, c, m, p, q);
    assert(p * p == x * x && q * q == y * y) by (nonlinear_arith)
        requires
            p == x || p == -x,
            q == y || q == -y,
    ;
}

/// A number is no longer than its amplitude.
proof fn lemma_covered(g: Cplx)
    ensures
        g.re * g.re + g.im * g.im <= g.amplitude() * g.amplitude(),
{
    let x = g.re as int;
    let y = g.im as int;
    assert(x * x >= 0 && y * y >= 0) by (nonlinear_arith);
    roots::lemma_root(g.sq() as nat);
}

/// What is shorter than it may be is raised into the range.
proof fn lemma_raised_in_range(g: Cplx, i: int, b: int)
    requires
        0 <= i < b,
        0 < g.sq() < floor() * floor(),
    ensures
        in_range(raised(g, floor()), i, b),
{
    reveal(in_range);
    lemma_ceiling(i, b);
    let f = floor();
    let one = ONE as int;
    let k = one * one;
    let p = magnitude(g.re as int);
    let q = magnitude(g.im as int);
    let a = p * one;
    let d = q * one;
    let whole = k * g.sq();
    assert(a * a == k * (g.re * g.re)) by (nonlinear_arith)
        requires
            a == p * one,
            p == g.re || p == -g.re,
            k == one * one,
    ;
    assert(d * d == k * (g.im * g.im)) by (nonlinear_arith)
        requires
            d == q * one,
            q == g.im || q == -g.im,
            k == one * one,
    ;
    assert(whole == k * (g.re * g.re) + k * (g.im * g.im)) by (nonlinear_arith)
        requires
            whole == k * g.sq(),
            g.sq() == g.re * g.re + g.im * g.im,
    ;
    assert(whole > 0) by (nonlinear_arith)
        requires
            whole == k * g.sq(),
            k > 0,
            g.sq() > 0,
    ;
    let m = roots::root(whole as nat) as int;
    roots::lemma_root(whole as nat);
    assert(m > 0) by (nonlinear_arith)
        requires
            m >= 0,
            whole < (m + 1) * (m + 1),
            whole > 0,
    ;
    let x = (a * f + m - 1) / m;
    let y = (d * f + m - 1) / m;
    lemma_raised(a, d, f, m, x, y);
    lemma_square_order(x, f);
    lemma_square_order(y, f);
    lemma_square_order(one, ceiling(i, b));
    assert(-(g.re * ONE) == (-g.re) * ONE) by (nonlinear_arith);
    assert(-(g.im * ONE) == (-g.im) * ONE) by (nonlinear_arith);
    let r = raised(g, f);
    assert(r.re == x || r.re == -x);
    assert(r.im == y || r.im == -y);
    assert(r.re * r.re == x * x) by (nonlinear_arith)
        requires
            r.re == x || r.re == -x,
    ;
    assert(r.im * r.im == y * y) by (nonlinear_arith)
        requires
            r.im == y || r.im == -y,
    ;
    assert(f * f == 0x10_0000_0000) by (nonlinear_arith)
        requires
            f == 0x4_0000,
    ;
    assert(ONE * ONE == 0x100_0000_0000) by (nonlinear_arith);
}

/// Whatever an entry was, it is held inside the range.
proof fn lemma_held_in_range(g: Cplx, i: int, b: int)
    requires
        0 <= i < b,
    ensures
        in_range(held(g, i, b), i, b),
{
    let m = g.amplitude();
    let c = ceiling(i, b);
    lemma_ceiling(i, b);
    lemma_covered(g);
    if m == 0 {
        reveal(in_range);
        let one = Cplx { re: ONE, im: 0 };
        assert(one.sq() == ONE * ONE);
        lemma_square_order(ONE as int, c);
        lemma_square_order(floor(), ONE as int);
    } else if m > c {
        lemma_shrunk_in_range(g, i, b);
    } else {
        lemma_amplitude_root(g);
        if g == (Cplx { re: 0, im: 0 }) {
            roots::lemma_root(0);
            assert(roots::root(0) == 0);
            assert(m == 0);
        }
        lemma_positive(g);
        if g.sq() < floor() * floor() {
            lemma_raised_in_range(g, i, b);
        } else {
            reveal(in_range);
            lemma_square_order(m, c);
        }
    }
}

/// Whatever a table was, it is safe once it is normalised.
pub proof fn lemma_normalised_is_safe(t: Seq<Cplx>)
    ensures
        normalised(t).len() == t.len(),
        safe(normalised(t)),
{
    let b = t.len() as int;
    let n = normalised(t);
    assert forall|i: int| 0 <= i < n.len() implies in_range(#[trigger] n[i], i, b) by {
        let g = if t.last().amplitude() > 1 {
            over(t[i], t.last())
        } else {
            t[i]
        };
        lemma_held_in_range(g, i, b);
    }
}

/// Every table that there can be stays in range: no entry is under a quarter or
/// above four, and none takes the top of its bin above full scale.
pub proof fn law_a_table_stays_in_range(t: Seq<Cplx>, i: int)
    requires
        safe(t),
        0 <= i < t.len(),
    ensures
        16 * t[i].sq() >= ONE * ONE,
        t[i].sq() <= 16 * (ONE * ONE),
        t[i].sq() * ((i + 1) * (i + 1)) <= (ONE * t.len()) * (ONE * t.len()),
{
    reveal(in_range);
    let b = t.len() as int;
    let c = ceiling(i, b);
    let d = i + 1;
    let s = t[i].sq();
    assert(in_range(t[i], i, b));
    lemma_ceiling(i, b);
    let f = floor();
    assert(f * f == 0x10_0000_0000) by (nonlinear_arith)
        requires
            f == 0x4_0000,
    ;
    assert(ONE * ONE == 0x100_0000_0000) by (nonlinear_arith);
    lemma_square_order(c, 4 * ONE);
    assert((4 * ONE) * (4 * ONE) == 16 * (ONE * ONE)) by (nonlinear_arith);
    assert(0 <= c * d) by (nonlinear_arith)
        requires
            c >= 0,
            d >= 0,
    ;
    lemma_square_order(c * d, ONE * b);
    assert(s * (d * d) <= (c * c) * (d * d)) by (nonlinear_arith)
        requires
            s <= c * c,
    ;
    assert((c * c) * (d * d) == (c * d) * (c * d)) by (nonlinear_arith);
}

/// The entries of a safe table fit.
pub proof fn lemma_safe_is_small(t: Seq<Cplx>)
    requires
        4 <= t.len() <= 256,
        safe(t),
    ensures
        forall|i: int| 0 <= i < t.len() ==> (#[trigger] t[i]).within(LIMIT as int),
{
    reveal(in_range);
    let b = t.len() as int;
    assert forall|i: int| 0 <= i < b implies (#[trigger] t[i]).within(LIMIT as int) by {
        let c = ceiling(i, b);
        lemma_ceiling(i, b);
        assert(t[i].sq() <= c * c);
        lemma_side(t[i].re as int, t[i].im as int, c);
        lemma_swapped(t[i]);
        lemma_side(t[i].im as int, t[i].re as int, c);
    }
}

/// Unity is safe.
pub proof fn lemma_flat_is_safe(t: Seq<Cplx>)
    requires
        4 <= t.len() <= 256,
        flat(t),
    ensures
        safe(t),
{
    reveal(in_range);
    let b = t.len() as int;
    assert forall|i: int| 0 <= i < b implies in_range(#[trigger] t[i], i, b) by {
        lemma_ceiling(i, b);
        lemma_square_order(ONE as int, ceiling(i, b));
        lemma_square_order(floor(), ONE as int);
    }
}

/// The amplitude of a number that fits.
pub proof fn lemma_amplitude_bound(c: Cplx)
    requires
        c.within(LIMIT as int),
    ensures
        0 <= c.amplitude() <= 0x1_0000_0000,
{
    lemma_square_bound(c.re as int, LIMIT as int);
    lemma_square_bound(c.im as int, LIMIT as int);
    roots::lemma_root(c.sq() as nat);
    let r = roots::root(c.sq() as nat) as int;
    assert(r < 0x1_0000_0000) by (nonlinear_arith)
        requires
            r * r <= 2 * (0x8000_0000 * 0x8000_0000),
            r >= 0,
    ;
}

} // verus!
