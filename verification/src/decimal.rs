//! Numbers as text: integers and decimal fractions, read exactly.
//!
//! A decimal fraction is held as a fixed-point integer with a given number of
//! places behind the point, rounded half away from zero and kept within the
//! range of an `i64`.
use crate::text;
use vstd::arithmetic::power::pow;
use vstd::prelude::*;

verus! {

broadcast use vstd::seq::group_seq_axioms;

/// The value of a run of decimal digits.
pub open spec fn val(d: Seq<char>) -> int
    decreases d.len(),
{
    if d.len() == 0 {
        0
    } else {
        10 * val(d.drop_last()) + (d.last() as int - 48)
    }
}

pub open spec fn all_digits(d: Seq<char>) -> bool {
    forall|i: int| 0 <= i < d.len() ==> text::is_digit(#[trigger] d[i])
}

/// Where the run of digits that starts at `from` ends.
pub open spec fn run_end(s: Seq<char>, from: int) -> int
    decreases s.len() - from,
{
    if 0 <= from < s.len() && text::is_digit(s[from]) {
        run_end(s, from + 1)
    } else {
        from
    }
}

/// The value of an unsigned integer: digits, behind a `+` or nothing.
pub open spec fn uint_of(s: Seq<char>) -> Option<int> {
    let d = if s.len() > 0 && s[0] == '+' {
        s.skip(1)
    } else {
        s
    };
    if d.len() > 0 && all_digits(d) {
        Some(val(d))
    } else {
        None
    }
}

/// The value of a signed integer: digits, behind a sign or nothing.
pub open spec fn int_of(s: Seq<char>) -> Option<int> {
    if s.len() > 0 && s[0] == '-' {
        let d = s.skip(1);
        if d.len() > 0 && all_digits(d) {
            Some(-val(d))
        } else {
            None
        }
    } else {
        uint_of(s)
    }
}

/// The digits `d` moved `shift` places to the left, rounded half up where they
/// move past the point.
#[verifier::opaque]
pub open spec fn shifted(d: Seq<char>, shift: int) -> int {
    if shift >= 0 {
        val(d) * pow(10, shift as nat)
    } else if -shift <= d.len() {
        val(d.take(d.len() + shift)) + (if d[d.len() + shift] >= '5' {
            1int
        } else {
            0
        })
    } else {
        0
    }
}

/// The value of an exponent that starts at `from` and ends the text.
#[verifier::opaque]
pub open spec fn exponent_of(s: Seq<char>, from: int) -> Option<int> {
    int_of(s.skip(from))
}

/// A decimal number as it is written: digits, moved `exp` places to the left.
#[verifier::ext_equal]
pub struct Number {
    pub negative: bool,
    pub digits: Seq<char>,
    pub exp: int,
}

/// Where the digits of a number start: behind its sign, if it has one.
pub open spec fn behind_sign(s: Seq<char>) -> int {
    if s.len() > 0 && (s[0] == '-' || s[0] == '+') {
        1
    } else {
        0
    }
}

/// A decimal number: an optional sign, digits with at most one point among or
/// around them, and an optional exponent.
pub open spec fn number_in(s: Seq<char>) -> Option<Number> {
    let a = behind_sign(s);
    let b = run_end(s, a);
    let point = b < s.len() && s[b] == '.';
    let c = if point {
        b + 1
    } else {
        b
    };
    let d = if point {
        run_end(s, c)
    } else {
        b
    };
    let digits = s.subrange(a, b) + s.subrange(c, d);
    if digits.len() == 0 {
        None
    } else {
        let exponent = if d == s.len() {
            Some(0int)
        } else if s[d] == 'e' || s[d] == 'E' {
            exponent_of(s, d + 1)
        } else {
            None
        };
        match exponent {
            None => None,
            Some(e) => Some(
                Number { negative: s.len() > 0 && s[0] == '-', digits, exp: e - (d - c) },
            ),
        }
    }
}

/// The word for a number without end, in any case, with or without a sign.
pub open spec fn endless(s: Seq<char>) -> bool {
    let word = text::uppers(s.skip(behind_sign(s)));
    word == "INF"@ || word == "INFINITY"@
}

/// A decimal number in fixed point with `places` places. What is beyond an `i64`
/// is held at its end, and so is the word for a number without end; the word for
/// what is no number is none.
pub open spec fn fixed_of(s: Seq<char>, places: int) -> Option<int> {
    let size = if endless(s) {
        Some(i64::MAX as int)
    } else {
        match number_in(s) {
            None => None,
            Some(n) => {
                let m = shifted(n.digits, n.exp + places);
                Some(
                    if m > i64::MAX {
                        i64::MAX as int
                    } else {
                        m
                    },
                )
            },
        }
    };
    match size {
        None => None,
        Some(m) => Some(
            if s[0] == '-' {
                -m
            } else {
                m
            },
        ),
    }
}

pub proof fn lemma_val_nonneg(d: Seq<char>)
    requires
        all_digits(d),
    ensures
        val(d) >= 0,
    decreases d.len(),
{
    if d.len() > 0 {
        assert(text::is_digit(d[d.len() - 1]));
        assert forall|i: int| 0 <= i < d.drop_last().len() implies text::is_digit(
            #[trigger] d.drop_last()[i],
        ) by {
            assert(text::is_digit(d[i]));
        }
        lemma_val_nonneg(d.drop_last());
    }
}

pub proof fn lemma_run_end_is(s: Seq<char>, from: int, k: int)
    requires
        0 <= from <= k <= s.len(),
        forall|i: int| from <= i < k ==> text::is_digit(#[trigger] s[i]),
        k < s.len() ==> !text::is_digit(s[k]),
    ensures
        run_end(s, from) == k,
    decreases k - from,
{
    if from < k {
        assert(text::is_digit(s[from]));
        lemma_run_end_is(s, from + 1, k);
    }
}

fn find_run_end(v: &[char], from: usize) -> (k: usize)
    requires
        from <= v@.len(),
    ensures
        k == run_end(v@, from as int),
        from <= k <= v@.len(),
        forall|i: int| from <= i < k ==> text::is_digit(#[trigger] v@[i]),
{
    let mut k = from;
    while k < v.len() && '0' <= v[k] && v[k] <= '9'
        invariant
            from <= k <= v@.len(),
            forall|i: int| from <= i < k ==> text::is_digit(#[trigger] v@[i]),
        decreases v@.len() - k,
    {
        k += 1;
    }
    proof {
        lemma_run_end_is(v@, from as int, k as int);
    }
    k
}

/// A word has letters.
pub proof fn lemma_a_word_is_not_empty(s: Seq<char>)
    requires
        endless(s),
    ensures
        s.len() > 0,
{
    reveal_strlit("INF");
    reveal_strlit("INFINITY");
    let word = text::uppers(s.skip(behind_sign(s)));
    assert("INF"@.len() == 3 && "INFINITY"@.len() == 8);
    assert(word.len() == s.len() - behind_sign(s));
}

/// A number has digits.
pub proof fn lemma_a_number_is_not_empty(s: Seq<char>)
    requires
        number_in(s) is Some,
    ensures
        s.len() > 0,
{
    if s.len() == 0 {
        assert(s.subrange(0, 0) + s.subrange(0, 0) =~= Seq::<char>::empty());
    }
}

/// A number without a minus in front is not negative in fixed point.
pub proof fn lemma_fixed_sign(s: Seq<char>, places: int)
    ensures
        fixed_of(s, places) is Some <==> endless(s) || number_in(s) is Some,
        fixed_of(s, places) is Some && s[0] != '-' ==> fixed_of(s, places)->0 >= 0,
{
    match number_in(s) {
        Some(n) => {
            lemma_number_digits(s);
            lemma_shifted_nonneg(n.digits, n.exp + places);
        },
        None => {},
    }
}

/// The digits of a number are digits.
proof fn lemma_number_digits(s: Seq<char>)
    requires
        number_in(s) is Some,
    ensures
        all_digits(number_in(s)->0.digits),
{
    let a = behind_sign(s);
    let b = run_end(s, a);
    lemma_run(s, a);
    let point = b < s.len() && s[b] == '.';
    let c = if point {
        b + 1
    } else {
        b
    };
    let d = if point {
        run_end(s, c)
    } else {
        b
    };
    lemma_run(s, c);
    lemma_subrange_digits(s, a, b);
    lemma_subrange_digits(s, c, d);
}

proof fn lemma_run(s: Seq<char>, from: int)
    requires
        0 <= from <= s.len(),
    ensures
        from <= run_end(s, from) <= s.len(),
        forall|i: int| from <= i < run_end(s, from) ==> text::is_digit(#[trigger] s[i]),
    decreases s.len() - from,
{
    if from < s.len() && text::is_digit(s[from]) {
        lemma_run(s, from + 1);
    }
}

proof fn lemma_shifted_nonneg(d: Seq<char>, shift: int)
    requires
        all_digits(d),
    ensures
        shifted(d, shift) >= 0,
{
    reveal(shifted);
    lemma_val_nonneg(d);
    if shift >= 0 {
        lemma_pow10_grows(shift as nat);
        let v = val(d);
        let p = pow(10, shift as nat);
        assert(v * p >= 0) by (nonlinear_arith)
            requires
                v >= 0,
                p >= 1,
        ;
    } else if -shift <= d.len() {
        let t = d.take(d.len() + shift);
        assert forall|i: int| 0 <= i < t.len() implies text::is_digit(#[trigger] t[i]) by {
            assert(text::is_digit(d[i]));
        }
        lemma_val_nonneg(t);
    }
}

/// What starts with a digit is not a word.
pub proof fn lemma_digits_are_no_word(d: Seq<char>)
    requires
        d.len() > 0,
        text::is_digit(d[0]),
    ensures
        !endless(d),
{
    reveal_strlit("INF");
    reveal_strlit("INFINITY");
    let word = text::uppers(d.skip(0));
    assert(word[0] == d[0]);
    assert("INF"@[0] == 'I' && "INFINITY"@[0] == 'I');
}

/// Plain digits read as the number they stand for.
pub proof fn lemma_fixed_of_digits(d: Seq<char>, places: nat)
    requires
        d.len() > 0,
        all_digits(d),
        val(d) * pow(10, places) <= i64::MAX,
    ensures
        fixed_of(d, places as int) == Some(val(d) * pow(10, places)),
{
    assert(text::is_digit(d[0]));
    lemma_digits_are_no_word(d);
    lemma_run_end_is(d, 0, d.len() as int);
    let n = d.len() as int;
    assert(d.subrange(0, n) + d.subrange(n, n) =~= d);
    reveal(shifted);
}

/// The bound that long digit runs are held at while they are read.
const CEILING: u128 = 1_000_000_000_000_000_000_000_000_000_000;

/// The value of the digits from `from` up to `to` behind those of `start`, held
/// at [`CEILING`].
fn read_digits(v: &[char], from: usize, to: usize, start: u128, Ghost(before): Ghost<Seq<char>>) -> (r:
    u128)
    requires
        from <= to <= v@.len(),
        forall|i: int| from <= i < to ==> text::is_digit(#[trigger] v@[i]),
        all_digits(before),
        start == held(val(before)),
    ensures
        r == held(val(before + v@.subrange(from as int, to as int))),
{
    let mut r = start;
    let mut i = from;
    assert(before + v@.subrange(from as int, from as int) =~= before);
    while i < to
        invariant
            from <= i <= to <= v@.len(),
            forall|j: int| from <= j < to ==> text::is_digit(#[trigger] v@[j]),
            all_digits(before),
            r == held(val(before + v@.subrange(from as int, i as int))),
        decreases to - i,
    {
        let c = v[i];
        assert(text::is_digit(v@[i as int]));
        let ghost so_far = before + v@.subrange(from as int, i as int);
        let ghost next = before + v@.subrange(from as int, i + 1);
        proof {
            assert(next.drop_last() =~= so_far);
            assert(next.last() == c);
            assert forall|j: int| 0 <= j < so_far.len() implies text::is_digit(
                #[trigger] so_far[j],
            ) by {
                if j < before.len() {
                    assert(text::is_digit(before[j]));
                } else {
                    assert(text::is_digit(v@[from + j - before.len()]));
                }
            }
            lemma_val_nonneg(so_far);
        }
        let x = r * 10 + (c as u8 - 48) as u128;
        r = if x > CEILING { CEILING } else { x };
        i += 1;
    }
    r
}

/// A value held at [`CEILING`].
spec fn held(x: int) -> int {
    if x > CEILING {
        CEILING as int
    } else {
        x
    }
}

proof fn lemma_subrange_digits(s: Seq<char>, a: int, b: int)
    requires
        0 <= a <= b <= s.len(),
        forall|i: int| a <= i < b ==> text::is_digit(#[trigger] s[i]),
    ensures
        all_digits(s.subrange(a, b)),
{
    assert forall|i: int| 0 <= i < b - a implies text::is_digit(
        #[trigger] s.subrange(a, b)[i],
    ) by {
        assert(text::is_digit(s[a + i]));
    }
}

/// Reads the digits from `from` to the end: their value held at [`CEILING`], or
/// nothing if there are none or other characters among them.
fn read_rest(v: &[char], from: usize) -> (r: Option<u128>)
    requires
        from <= v@.len(),
    ensures
        ({
            let d = v@.skip(from as int);
            if d.len() > 0 && all_digits(d) {
                r == Some(held(val(d)) as u128)
            } else {
                r is None
            }
        }),
{
    let k = find_run_end(v, from);
    let ghost d = v@.skip(from as int);
    if k < v.len() || k == from {
        proof {
            if k < v@.len() {
                lemma_run_end_stops(v@, from as int);
                assert(d[k - from] == v@[k as int]);
            }
        }
        return None;
    }
    let r = read_digits(v, from, k, 0, Ghost(Seq::empty()));
    proof {
        assert(Seq::<char>::empty() + v@.subrange(from as int, k as int) =~= d);
        assert(v@.subrange(from as int, k as int) =~= d);
        lemma_subrange_digits(v@, from as int, k as int);
        lemma_val_nonneg(d);
    }
    Some(r)
}

proof fn lemma_run_end_stops(s: Seq<char>, from: int)
    requires
        0 <= from <= s.len(),
        run_end(s, from) < s.len(),
    ensures
        !text::is_digit(s[run_end(s, from)]),
    decreases s.len() - from,
{
    if text::is_digit(s[from]) {
        lemma_run_end_stops(s, from + 1);
    }
}

/// An unsigned integer that is at most `max`.
pub fn parse_uint(v: &[char], max: u64) -> (r: Option<u64>)
    ensures
        match uint_of(v@) {
            Some(n) => if n <= max {
                r matches Some(x) && x == n && n >= 0
            } else {
                r is None
            },
            None => r is None,
        },
{
    let from: usize = if v.len() > 0 && v[0] == '+' { 1 } else { 0 };
    assert(v@.skip(0) =~= v@);
    match read_rest(v, from) {
        Some(n) => {
            proof {
                lemma_val_nonneg(v@.skip(from as int));
            }
            if n <= max as u128 {
                Some(n as u64)
            } else {
                None
            }
        },
        None => None,
    }
}

/// A signed integer in the range of an `i64`.
pub fn parse_int(v: &[char]) -> (r: Option<i64>)
    ensures
        match int_of(v@) {
            Some(n) => if i64::MIN <= n <= i64::MAX {
                r matches Some(x) && x == n
            } else {
                r is None
            },
            None => r is None,
        },
{
    match read_int(v) {
        Some(n) => if i64::MIN as i128 <= n && n <= i64::MAX as i128 {
            Some(n as i64)
        } else {
            None
        },
        None => None,
    }
}

/// A signed integer, held at plus and minus [`CEILING`].
fn read_int(v: &[char]) -> (r: Option<i128>)
    ensures
        match int_of(v@) {
            Some(n) => r == Some(
                (if n < 0 {
                    -held(-n)
                } else {
                    held(n)
                }) as i128,
            ),
            None => r is None,
        },
{
    let negative = v.len() > 0 && v[0] == '-';
    let from: usize = if v.len() > 0 && (v[0] == '-' || v[0] == '+') { 1 } else { 0 };
    assert(v@.skip(0) =~= v@);
    match read_rest(v, from) {
        Some(n) => {
            proof {
                lemma_val_nonneg(v@.skip(from as int));
            }
            if negative {
                Some(-(n as i128))
            } else {
                Some(n as i128)
            }
        },
        None => None,
    }
}

proof fn lemma_pow10_grows(a: nat)
    ensures
        pow(10, a) >= 1,
        pow(10, a + 1) == 10 * pow(10, a),
        a >= 20 ==> pow(10, a) > i64::MAX,
{
    vstd::arithmetic::power::lemma_pow_positive(10, a);
    vstd::arithmetic::power::lemma_pow_adds(10, 1, a);
    vstd::arithmetic::power::lemma_pow1(10);
    if a >= 20 {
        vstd::arithmetic::power::lemma_pow_increases(10, 20, a);
        assert(pow(10, 20) == 100_000_000_000_000_000_000) by {
            reveal_with_fuel(pow, 21);
        }
    }
}

/// `n` times ten to the `k`, held at the end of an `i64`.
fn times_ten(n: u128, k: u128) -> (r: u128)
    requires
        n <= CEILING,
    ensures
        n * pow(10, k as nat) > i64::MAX ==> r == i64::MAX,
        n * pow(10, k as nat) <= i64::MAX ==> r == n * pow(10, k as nat),
{
    let limit: u128 = i64::MAX as u128;
    if n == 0 {
        assert(0 * pow(10, k as nat) == 0) by (nonlinear_arith);
        return 0;
    }
    let mut x = n;
    let mut i: u128 = 0;
    proof {
        vstd::arithmetic::power::lemma_pow0(10);
        assert(n * pow(10, 0) == n) by (nonlinear_arith)
            requires
                pow(10, 0) == 1,
        ;
    }
    while i < k
        invariant
            i <= k,
            n > 0,
            x == n * pow(10, i as nat),
            limit == i64::MAX,
            x <= CEILING,
        decreases k - i,
    {
        proof {
            lemma_pow10_grows(i as nat);
            assert(n * (10 * pow(10, i as nat)) == 10 * (n * pow(10, i as nat)))
                by (nonlinear_arith);
        }
        if x > limit {
            proof {
                vstd::arithmetic::power::lemma_pow_increases(10, i as nat, k as nat);
                vstd::arithmetic::mul::lemma_mul_inequality(
                    pow(10, i as nat),
                    pow(10, k as nat),
                    n as int,
                );
                vstd::arithmetic::mul::lemma_mul_is_commutative(n as int, pow(10, i as nat));
                vstd::arithmetic::mul::lemma_mul_is_commutative(n as int, pow(10, k as nat));
            }
            return limit;
        }
        x = x * 10;
        i += 1;
    }
    if x > limit {
        limit
    } else {
        x
    }
}

/// The exponent that starts at `d`, held at plus and minus [`CEILING`]: zero
/// where the text ends there.
fn read_exponent(v: &[char], d: usize) -> (r: Option<i128>)
    requires
        d <= v@.len(),
    ensures
        ({
            let exact = if d == v@.len() {
                Some(0int)
            } else if v@[d as int] == 'e' || v@[d as int] == 'E' {
                exponent_of(v@, d + 1)
            } else {
                None
            };
            match exact {
                None => r is None,
                Some(n) => r == Some(
                    (if n < 0 {
                        -held(-n)
                    } else {
                        held(n)
                    }) as i128,
                ),
            }
        }),
{
    proof {
        reveal(exponent_of);
    }
    if d == v.len() {
        return Some(0);
    }
    if v[d] != 'e' && v[d] != 'E' {
        return None;
    }
    let tail = text::copy_chars(v, d + 1, v.len());
    assert(tail@ =~= v@.skip(d + 1));
    read_int(tail.as_slice())
}

/// The digits of two runs moved by `shift` places, held at the end of an `i64`.
fn read_shifted(
    v: &[char],
    a: usize,
    b: usize,
    c: usize,
    d: usize,
    shift: i128,
    Ghost(true_shift): Ghost<int>,
) -> (r: i64)
    requires
        a <= b <= c <= d <= v@.len(),
        forall|i: int| a <= i < b ==> text::is_digit(#[trigger] v@[i]),
        forall|i: int| c <= i < d ==> text::is_digit(#[trigger] v@[i]),
        true_shift == shift || (true_shift < -(v@.len()) && shift < -(v@.len())) || (true_shift
            >= 20 && shift >= 20),
    ensures
        ({
            let m = shifted(v@.subrange(a as int, b as int) + v@.subrange(c as int, d as int), true_shift);
            r == if m > i64::MAX {
                i64::MAX as int
            } else {
                m
            }
        }),
        r >= 0,
{
    let ghost digits = v@.subrange(a as int, b as int) + v@.subrange(c as int, d as int);
    let magnitude: u128 = if shift >= 0 {
        proof {
            lemma_subrange_digits(v@, a as int, b as int);
            lemma_subrange_digits(v@, c as int, d as int);
        }
        let whole = read_digits(v, a, b, 0, Ghost(Seq::empty()));
        proof {
            assert(Seq::<char>::empty() + v@.subrange(a as int, b as int) =~= v@.subrange(
                a as int,
                b as int,
            ));
        }
        let n = read_digits(v, c, d, whole, Ghost(v@.subrange(a as int, b as int)));
        proof {
            lemma_shift_up(digits, shift as int, true_shift, n as int);
        }
        times_ten(n, shift as u128)
    } else {
        read_shifted_down(v, a, b, c, d, shift, Ghost(true_shift))
    };
    magnitude as i64
}

/// Whether a text is the word for a number without end.
pub fn is_endless(v: &[char]) -> (r: bool)
    ensures
        r == endless(v@),
{
    let a: usize = if v.len() > 0 && (v[0] == '-' || v[0] == '+') { 1 } else { 0 };
    let rest: Vec<char> = text::copy_chars(v, a, v.len());
    assert(rest@ =~= v@.skip(a as int));
    let word: Vec<char> = text::upper_chars(rest.as_slice());
    let short: Vec<char> = text::chars_of("INF");
    let long: Vec<char> = text::chars_of("INFINITY");
    text::same_chars(word.as_slice(), short.as_slice()) || text::same_chars(
        word.as_slice(),
        long.as_slice(),
    )
}

/// A decimal number in fixed point with `places` places.
pub fn parse_fixed(v: &[char], places: u8) -> (r: Option<i64>)
    ensures
        match fixed_of(v@, places as int) {
            Some(n) => r matches Some(x) && x == n && -i64::MAX <= n <= i64::MAX,
            None => r is None,
        },
{
    let negative = v.len() > 0 && v[0] == '-';
    if is_endless(v) {
        proof {
            lemma_a_word_is_not_empty(v@);
        }
        return Some(if negative { -i64::MAX } else { i64::MAX });
    }
    let a: usize = if v.len() > 0 && (v[0] == '-' || v[0] == '+') { 1 } else { 0 };
    let b = find_run_end(v, a);
    let point = b < v.len() && v[b] == '.';
    let c: usize = if point { b + 1 } else { b };
    let d: usize = if point { find_run_end(v, c) } else { b };
    if b == a && d == c {
        return None;
    }
    let e: i128 = match read_exponent(v, d) {
        Some(n) => n,
        None => return None,
    };
    let ghost exact: int = if d == v@.len() {
        0
    } else {
        exponent_of(v@, d + 1)->0
    };
    let shift: i128 = e + places as i128 - (d - c) as i128;
    let ghost true_shift = exact + places - (d - c);
    let magnitude = read_shifted(v, a, b, c, d, shift, Ghost(true_shift));
    if negative {
        Some(-magnitude)
    } else {
        Some(magnitude)
    }
}

/// How far an exponent is kept exactly.
pub const FAR_OUT: i128 = 100_000_000_000_000_000_000_000_000_000;

/// A decimal number as it was written.
pub struct Parsed {
    pub negative: bool,
    pub digits: Vec<char>,
    /// The exponent, as far as it is kept exactly.
    pub exp: i128,
    pub exact: Ghost<int>,
}

impl Parsed {
    pub open spec fn wf(self) -> bool {
        let exp = self.exp;
        let exact = self.exact@;
        &&& self.digits@.len() > 0
        &&& all_digits(self.digits@)
        &&& -20 * FAR_OUT <= exp <= 20 * FAR_OUT
        &&& exact == exp || (exact > FAR_OUT && exp > FAR_OUT) || (exact < -FAR_OUT && exp
            < -FAR_OUT)
    }

    pub open spec fn number(self) -> Number {
        Number { negative: self.negative, digits: self.digits@, exp: self.exact@ }
    }
}

/// Reads a decimal number.
pub fn read_number(v: &[char]) -> (r: Option<Parsed>)
    ensures
        match number_in(v@) {
            Some(n) => r matches Some(p) && p.wf() && p.number() == n,
            None => r is None,
        },
{
    let negative = v.len() > 0 && v[0] == '-';
    let a: usize = if v.len() > 0 && (v[0] == '-' || v[0] == '+') { 1 } else { 0 };
    let b = find_run_end(v, a);
    let point = b < v.len() && v[b] == '.';
    let c: usize = if point { b + 1 } else { b };
    let d: usize = if point { find_run_end(v, c) } else { b };
    if b == a && d == c {
        return None;
    }
    let e: i128 = match read_exponent(v, d) {
        Some(n) => n,
        None => return None,
    };
    let ghost exact: int = if d == v@.len() {
        0
    } else {
        exponent_of(v@, d + 1)->0
    };
    let mut digits: Vec<char> = text::copy_chars(v, a, b);
    let mut rest: Vec<char> = text::copy_chars(v, c, d);
    digits.append(&mut rest);
    proof {
        let all = v@.subrange(a as int, b as int) + v@.subrange(c as int, d as int);
        assert(digits@ =~= all);
        assert forall|i: int| 0 <= i < all.len() implies text::is_digit(#[trigger] all[i]) by {
            if i < b - a {
                assert(text::is_digit(v@[a + i]));
            } else {
                assert(text::is_digit(v@[c + i - (b - a)]));
            }
        }
    }
    let exp: i128 = e - (d - c) as i128;
    Some(Parsed { negative, digits, exp, exact: Ghost(exact - (d - c)) })
}

proof fn lemma_shift_up(digits: Seq<char>, shift: int, true_shift: int, n: int)
    requires
        all_digits(digits),
        shift >= 0,
        n == held(val(digits)),
        true_shift == shift || (shift >= 20 && true_shift >= 20),
    ensures
        ({
            let m = shifted(digits, true_shift);
            let p = n * pow(10, shift as nat);
            (m > i64::MAX <==> p > i64::MAX) && (m <= i64::MAX ==> m == p)
        }),
{
    reveal(shifted);
    lemma_val_nonneg(digits);
    let x = val(digits);
    let y = pow(10, shift as nat);
    let z = pow(10, true_shift as nat);
    lemma_pow10_grows(shift as nat);
    lemma_pow10_grows(true_shift as nat);
    assert(x * z >= x) by (nonlinear_arith)
        requires
            x >= 0,
            z >= 1,
    ;
    assert(n * y >= n) by (nonlinear_arith)
        requires
            n >= 0,
            y >= 1,
    ;
    if x == 0 {
        assert(x * z == 0 && n * y == 0) by (nonlinear_arith)
            requires
                x == 0,
                n == 0,
        ;
    } else if true_shift != shift {
        assert(x * z >= z) by (nonlinear_arith)
            requires
                x >= 1,
                z >= 1,
        ;
        assert(n * y >= y) by (nonlinear_arith)
            requires
                n >= 1,
                y >= 1,
        ;
    }
}

/// The digits of two runs moved to the right past the point.
fn read_shifted_down(
    v: &[char],
    a: usize,
    b: usize,
    c: usize,
    d: usize,
    shift: i128,
    Ghost(true_shift): Ghost<int>,
) -> (r: u128)
    requires
        a <= b <= c <= d <= v@.len(),
        forall|i: int| a <= i < b ==> text::is_digit(#[trigger] v@[i]),
        forall|i: int| c <= i < d ==> text::is_digit(#[trigger] v@[i]),
        shift < 0,
        true_shift == shift || (true_shift < -(v@.len()) && shift < -(v@.len())),
    ensures
        ({
            let m = shifted(v@.subrange(a as int, b as int) + v@.subrange(c as int, d as int), true_shift);
            r == if m > i64::MAX {
                i64::MAX as int
            } else {
                m
            }
        }),
{
    let ghost digits = v@.subrange(a as int, b as int) + v@.subrange(c as int, d as int);
    let len: usize = (b - a) + (d - c);
    proof {
        reveal(shifted);
    }
    if -(len as i128) > shift {
        return 0;
    }
    let keep: usize = (len as i128 + shift) as usize;
    proof {
        lemma_subrange_digits(v@, a as int, b as int);
        lemma_subrange_digits(v@, c as int, d as int);
        assert(Seq::<char>::empty() + v@.subrange(a as int, b as int) =~= v@.subrange(
            a as int,
            b as int,
        ));
    }
    let mut n: u128;
    let next: char;
    if keep < b - a {
        n = read_digits(v, a, a + keep, 0, Ghost(Seq::empty()));
        next = v[a + keep];
        proof {
            assert(Seq::<char>::empty() + v@.subrange(a as int, a + keep) =~= digits.take(
                keep as int,
            ));
        }
    } else {
        let whole = read_digits(v, a, b, 0, Ghost(Seq::empty()));
        let end: usize = c + (keep - (b - a));
        n = read_digits(v, c, end, whole, Ghost(v@.subrange(a as int, b as int)));
        next = v[end];
        proof {
            assert(v@.subrange(a as int, b as int) + v@.subrange(c as int, end as int)
                =~= digits.take(keep as int));
        }
    }
    proof {
        assert forall|i: int| 0 <= i < keep implies text::is_digit(
            #[trigger] digits.take(keep as int)[i],
        ) by {
            assert(text::is_digit(digits[i]));
        }
        lemma_val_nonneg(digits.take(keep as int));
        assert(digits[keep as int] == next);
    }
    if next >= '5' {
        n = n + 1;
    }
    if n > i64::MAX as u128 {
        i64::MAX as u128
    } else {
        n
    }
}

} // verus!
