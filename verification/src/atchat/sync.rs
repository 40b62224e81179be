//! Finding the start of a transmission in received audio.
//!
//! The preamble repeats itself after half a symbol, so the two halves of a
//! window that stands on it correlate. Because the guard interval is a copy of
//! the preamble's end, the correlation is high over a stretch as long as the
//! guard interval; the mean over such a stretch peaks where the preamble starts.
use crate::roots;
use vstd::prelude::*;

verus! {

broadcast use vstd::seq::group_seq_axioms;

/// FFT size.
pub const N: usize = 256;

/// Guard interval (8 ms).
pub const CP_LEN: usize = 64;

pub const SYMBOL_LEN: usize = 320;

/// Half of an FFT window: how far apart the preamble repeats itself.
pub const HALF: usize = 128;

/// How far into the audio a transmission may start.
pub const SEARCH: usize = 400;

/// A score of one, in the units of [`score`].
pub const ONE: u64 = 0x400_0000;

/// The least mean score of a start, as a sum over a guard interval: a quarter.
pub const SYNC_THRESHOLD: u64 = 0x4000_0000;

/// The sum of the products of `n` samples from `i` with those from `j`.
pub open spec fn dot(s: Seq<i16>, i: int, j: int, n: nat) -> int
    decreases n,
{
    if n == 0 {
        0
    } else {
        dot(s, i, j, (n - 1) as nat) + s[i + n - 1] * s[j + n - 1]
    }
}

/// How alike the two halves of the window at `at` are: the absolute value of
/// their correlation coefficient, in units of 2^-26.
pub open spec fn score(s: Seq<i16>, at: int) -> nat {
    let d = dot(s, at, at + HALF, HALF as nat);
    let p = dot(s, at, at, HALF as nat);
    let q = dot(s, at + HALF, at + HALF, HALF as nat);
    if p * q == 0 {
        0
    } else {
        roots::root((d * d * (ONE * ONE) / (p * q)) as nat)
    }
}

/// The sum of the scores over a guard interval from `at`: their mean, in units
/// of 2^-32.
pub open spec fn plateau(scores: Seq<u64>, at: int, n: nat) -> int
    decreases n,
{
    if n == 0 {
        0
    } else {
        plateau(scores, at, (n - 1) as nat) + scores[at + n - 1]
    }
}

/// The first of the starts below `n` with the highest plateau.
pub open spec fn best(scores: Seq<u64>, n: nat) -> int
    decreases n,
{
    if n <= 1 {
        0
    } else {
        let b = best(scores, (n - 1) as nat);
        if plateau(scores, n - 1, CP_LEN as nat) > plateau(scores, b, CP_LEN as nat) {
            n - 1
        } else {
            b
        }
    }
}

/// How many starts are scored in `len` samples.
pub open spec fn scored(len: nat) -> nat {
    if len <= 2 * SYMBOL_LEN {
        0
    } else if len - 2 * SYMBOL_LEN < SEARCH {
        (len - 2 * SYMBOL_LEN) as nat
    } else {
        SEARCH as nat
    }
}

/// The scores of all starts.
pub open spec fn scores_of(s: Seq<i16>) -> Seq<u64> {
    Seq::new(scored(s.len()), |i: int| score(s, i) as u64)
}

/// What the search for a start found.
#[derive(Debug, Clone, Copy, PartialEq, Eq, Structural)]
pub struct Sync {
    /// The mean score of the best start, in units of 2^-32.
    pub score: u64,
    /// Where the guard interval of the preamble starts, if the score is high
    /// enough.
    pub start: Option<usize>,
}

/// What the search finds in some samples.
pub open spec fn synced(s: Seq<i16>) -> (int, Option<int>) {
    let n = scored(s.len());
    if n < CP_LEN {
        (0, None)
    } else {
        let at = best(scores_of(s), (n - CP_LEN + 1) as nat);
        let mean = plateau(scores_of(s), at, CP_LEN as nat);
        if mean < SYNC_THRESHOLD {
            (mean, None)
        } else {
            (mean, Some(at))
        }
    }
}

/// A product of sums is at least the square of the sum of products.
proof fn lemma_step(x: int, p: int, q: int, a: int, b: int)
    requires
        x * x <= p * q,
        p >= 0,
        q >= 0,
    ensures
        (x + a * b) * (x + a * b) <= (p + a * a) * (q + b * b),
{
    let u = p * (b * b) + q * (a * a);
    let v = 2 * x * (a * b);
    assert(u >= 0) by (nonlinear_arith)
        requires
            p >= 0,
            q >= 0,
            u == p * (b * b) + q * (a * a),
    ;
    let g = p * (b * b);
    let h = q * (a * a);
    let w = g - h;
    assert(u * u == w * w + 4 * (g * h)) by (nonlinear_arith)
        requires
            u == g + h,
            w == g - h,
    ;
    assert(g * h == (p * q) * ((a * b) * (a * b))) by (nonlinear_arith)
        requires
            g == p * (b * b),
            h == q * (a * a),
    ;
    assert(v * v == 4 * ((x * x) * ((a * b) * (a * b)))) by (nonlinear_arith)
        requires
            v == 2 * x * (a * b),
    ;
    let c = (a * b) * (a * b);
    assert(c >= 0) by (nonlinear_arith)
        requires
            c == (a * b) * (a * b),
    ;
    assert((x * x) * c <= (p * q) * c) by (nonlinear_arith)
        requires
            x * x <= p * q,
            c >= 0,
    ;
    assert(w * w >= 0) by (nonlinear_arith);
    assert(v * v <= u * u);
    assert(v <= u) by (nonlinear_arith)
        requires
            v * v <= u * u,
            u >= 0,
    ;
    assert((x + a * b) * (x + a * b) == x * x + v + (a * b) * (a * b)) by (nonlinear_arith)
        requires
            v == 2 * x * (a * b),
    ;
    assert((p + a * a) * (q + b * b) == p * q + u + (a * b) * (a * b)) by (nonlinear_arith)
        requires
            u == p * (b * b) + q * (a * a),
    ;
}

/// The correlation of two stretches is at most the root of the product of
/// their powers.
pub proof fn lemma_correlation(s: Seq<i16>, i: int, j: int, n: nat)
    ensures
        dot(s, i, i, n) >= 0,
        dot(s, i, j, n) * dot(s, i, j, n) <= dot(s, i, i, n) * dot(s, j, j, n),
    decreases n,
{
    if n > 0 {
        let m = (n - 1) as nat;
        lemma_correlation(s, i, j, m);
        lemma_correlation(s, j, i, m);
        let a = s[i + n - 1] as int;
        let b = s[j + n - 1] as int;
        lemma_step(dot(s, i, j, m), dot(s, i, i, m), dot(s, j, j, m), a, b);
        assert(a * a >= 0) by (nonlinear_arith);
    }
}

/// No score is above one.
pub proof fn law_scores_are_at_most_one(s: Seq<i16>, at: int)
    ensures
        score(s, at) <= ONE,
{
    let d = dot(s, at, at + HALF, HALF as nat);
    let p = dot(s, at, at, HALF as nat);
    let q = dot(s, at + HALF, at + HALF, HALF as nat);
    lemma_correlation(s, at, at + HALF, HALF as nat);
    lemma_correlation(s, at + HALF, at, HALF as nat);
    if p * q != 0 {
        let k: int = ONE * ONE;
        let x = d * d * k;
        let y = p * q;
        assert(y > 0 && x >= 0 && x <= y * k) by (nonlinear_arith)
            requires
                d * d <= p * q,
                p * q != 0,
                x == d * d * k,
                y == p * q,
                k > 0,
        ;
        assert(0 <= x / y <= k) by (nonlinear_arith)
            requires
                y > 0,
                0 <= x <= y * k,
        ;
        let n = (x / y) as nat;
        roots::lemma_root(n);
        let r = roots::root(n);
        assert(r <= ONE) by (nonlinear_arith)
            requires
                r * r <= n,
                n <= k,
                k == ONE * ONE,
        ;
    }
}

proof fn lemma_best_bound(scores: Seq<u64>, n: nat)
    requires
        n > 0,
    ensures
        0 <= best(scores, n) < n,
    decreases n,
{
    if n > 1 {
        lemma_best_bound(scores, (n - 1) as nat);
    }
}

/// The best start has the highest plateau, and none before it has one as high.
pub proof fn law_best_is_first_of_the_highest(scores: Seq<u64>, n: nat, i: int)
    requires
        0 <= i < n,
    ensures
        0 <= best(scores, n) < n,
        plateau(scores, i, CP_LEN as nat) <= plateau(scores, best(scores, n), CP_LEN as nat),
        i < best(scores, n) ==> plateau(scores, i, CP_LEN as nat) < plateau(
            scores,
            best(scores, n),
            CP_LEN as nat,
        ),
    decreases n,
{
    lemma_best_bound(scores, n);
    if n > 1 {
        lemma_best_bound(scores, (n - 1) as nat);
        if i < n - 1 {
            law_best_is_first_of_the_highest(scores, (n - 1) as nat, i);
        } else {
            law_best_is_first_of_the_highest(scores, (n - 1) as nat, best(scores, (n - 1) as nat));
        }
    }
}

/// The sum of the products of half a window from `i` with that from `j`.
fn correlate(s: &[i16], i: usize, j: usize) -> (r: i64)
    requires
        i + HALF <= s@.len(),
        j + HALF <= s@.len(),
    ensures
        r == dot(s@, i as int, j as int, HALF as nat),
        -0x4000_0000 * HALF <= r <= 0x4000_0000 * HALF,
{
    let len: usize = s.len();
    let mut sum: i64 = 0;
    let mut k: usize = 0;
    while k < HALF
        invariant
            k <= HALF,
            len == s@.len(),
            i + HALF <= len,
            j + HALF <= len,
            sum == dot(s@, i as int, j as int, k as nat),
            -0x4000_0000 * k <= sum <= 0x4000_0000 * k,
        decreases HALF - k,
    {
        let a: i64 = s[i + k] as i64;
        let b: i64 = s[j + k] as i64;
        assert(-0x4000_0000 <= a * b <= 0x4000_0000) by (nonlinear_arith)
            requires
                -0x8000 <= a <= 0x7fff,
                -0x8000 <= b <= 0x7fff,
        ;
        sum = sum + a * b;
        k += 1;
    }
    sum
}

/// The score of the window at `at`.
fn score_at(s: &[i16], at: usize) -> (r: u64)
    requires
        at + N <= s@.len(),
    ensures
        r == score(s@, at as int),
        r <= ONE,
{
    let len: usize = s.len();
    assert(at + N <= len);
    let d: i64 = correlate(s, at, at + HALF);
    let p: i64 = correlate(s, at, at);
    let q: i64 = correlate(s, at + HALF, at + HALF);
    proof {
        law_scores_are_at_most_one(s@, at as int);
        lemma_correlation(s@, at as int, at + HALF, HALF as nat);
        lemma_correlation(s@, at + HALF, at as int, HALF as nat);
    }
    let m: u128 = if d < 0 { (-d) as u128 } else { d as u128 };
    let pu: u128 = p as u128;
    let qu: u128 = q as u128;
    proof {
        assert(m * m == d * d) by (nonlinear_arith)
            requires
                m == d || m == -d,
        ;
        assert(m * m <= 0x0400_0000_0000_0000_0000 && pu * qu <= 0x0400_0000_0000_0000_0000)
            by (nonlinear_arith)
            requires
                0 <= m <= 0x20_0000_0000,
                0 <= pu <= 0x20_0000_0000,
                0 <= qu <= 0x20_0000_0000,
        ;
    }
    let pq: u128 = pu * qu;
    if pq == 0 {
        0
    } else {
        let scaled: u128 = m * m * 0x10_0000_0000_0000;
        let n: u128 = scaled / pq;
        assert(scaled <= 0x4000_0000_0000_0000_0000_0000_0000_0000);
        assert(n <= scaled) by (nonlinear_arith)
            requires
                pq > 0,
                n == scaled / pq,
        ;
        roots::isqrt(n) as u64
    }
}

/// The sum of the scores over a guard interval.
fn plateau_at(scores: &Vec<u64>, at: usize) -> (r: u64)
    requires
        at + CP_LEN <= scores@.len(),
        forall|i: int| 0 <= i < scores@.len() ==> scores@[i] <= ONE,
    ensures
        r == plateau(scores@, at as int, CP_LEN as nat),
{
    let len: usize = scores.len();
    let mut sum: u64 = 0;
    let mut k: usize = 0;
    while k < CP_LEN
        invariant
            k <= CP_LEN,
            len == scores@.len(),
            at + CP_LEN <= len,
            forall|i: int| 0 <= i < scores@.len() ==> scores@[i] <= ONE,
            sum == plateau(scores@, at as int, k as nat),
            sum <= ONE * k,
        decreases CP_LEN - k,
    {
        sum = sum + scores[at + k];
        k += 1;
    }
    sum
}

/// Looks for the start of a transmission.
pub fn find_start(s: &[i16]) -> (r: Sync)
    ensures
        r.score == synced(s@).0,
        match synced(s@).1 {
            Some(at) => r.start matches Some(k) && k == at,
            None => r.start is None,
        },
        r.start matches Some(k) ==> k + 2 * SYMBOL_LEN < s@.len(),
{
    if s.len() <= 2 * SYMBOL_LEN {
        return Sync { score: 0, start: None };
    }
    let room: usize = s.len() - 2 * SYMBOL_LEN;
    let n: usize = if room < SEARCH { room } else { SEARCH };
    if n < CP_LEN {
        return Sync { score: 0, start: None };
    }
    let mut scores: Vec<u64> = Vec::new();
    let mut i: usize = 0;
    while i < n
        invariant
            i <= n,
            n == scored(s@.len()),
            n + 2 * SYMBOL_LEN <= s@.len(),
            scores@ == scores_of(s@).take(i as int),
            forall|k: int| 0 <= k < i ==> scores@[k] <= ONE,
        decreases n - i,
    {
        let v: u64 = score_at(s, i);
        scores.push(v);
        i += 1;
        assert(scores@ =~= scores_of(s@).take(i as int));
    }
    assert(scores@ =~= scores_of(s@));
    let mut at: usize = 0;
    let mut mean: u64 = plateau_at(&scores, 0);
    let mut j: usize = 1;
    while j < n - CP_LEN + 1
        invariant
            1 <= j <= n - CP_LEN + 1,
            CP_LEN <= n,
            n == scores@.len(),
            forall|k: int| 0 <= k < scores@.len() ==> scores@[k] <= ONE,
            at == best(scores@, j as nat),
            at < j,
            mean == plateau(scores@, at as int, CP_LEN as nat),
        decreases n - CP_LEN + 1 - j,
    {
        let m: u64 = plateau_at(&scores, j);
        if m > mean {
            mean = m;
            at = j;
        }
        j += 1;
    }
    if mean < SYNC_THRESHOLD {
        Sync { score: mean, start: None }
    } else {
        Sync { score: mean, start: Some(at) }
    }
}

/// Where the window of symbol `index` of a transmission starts in the audio,
/// past its guard interval, if the audio holds all of it.
pub open spec fn window(start: int, index: int, len: int) -> Option<int> {
    let at = start + index * SYMBOL_LEN + CP_LEN;
    if at + N > len {
        None
    } else {
        Some(at)
    }
}

/// Where the window of a symbol starts, if the audio holds all of it.
pub fn symbol_at(start: usize, index: usize, len: usize) -> (r: Option<usize>)
    ensures
        match window(start as int, index as int, len as int) {
            Some(at) => r matches Some(k) && k == at,
            None => r is None,
        },
{
    let at: u128 = start as u128 + index as u128 * 320 + 64;
    if at + 256 > len as u128 {
        None
    } else {
        Some(at as usize)
    }
}

} // verus!
