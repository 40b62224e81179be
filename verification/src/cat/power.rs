//! The output power of the families that speak ASCII, and calibration tables.
use crate::decimal;
use crate::text;
use vstd::prelude::*;

verus! {

broadcast use vstd::seq::group_seq_axioms;

/// Output power the ASCII families are assumed to have at full scale, in watts.
pub const ASCII_FULL_POWER_W: i64 = 100;

/// Fraction of full power in millionths, as whole watts: the families' documented
/// minimum is 5 W.
pub open spec fn pc_watts(level: int) -> int {
    let l = if level < 0 {
        0
    } else if level > 1_000_000 {
        1_000_000
    } else {
        level
    };
    let w = (l * 100 + 500_000) / 1_000_000;
    if w < 5 {
        5
    } else {
        w
    }
}

/// A number under a thousand in three digits.
pub open spec fn three_digits(n: int) -> Seq<u8> {
    seq![(48 + n / 100) as u8, (48 + (n / 10) % 10) as u8, (48 + n % 10) as u8]
}

/// `PC` — set output power, from a fraction of full scale in millionths. The
/// three-digit field is in watts.
pub fn pc_set_frame(level: i64) -> (r: Vec<u8>)
    ensures
        r@ == seq![80u8, 67u8] + three_digits(pc_watts(level as int)) + seq![59u8],
{
    let l: i64 = if level < 0 {
        0
    } else if level > 1_000_000 {
        1_000_000
    } else {
        level
    };
    let mut w: i64 = (l * ASCII_FULL_POWER_W + 500_000) / 1_000_000;
    if w < 5 {
        w = 5;
    }
    let mut r: Vec<u8> = Vec::new();
    r.push(80);
    r.push(67);
    r.push((48 + w / 100) as u8);
    r.push((48 + (w / 10) % 10) as u8);
    r.push((48 + w % 10) as u8);
    r.push(59);
    assert(r@ =~= seq![80u8, 67u8] + three_digits(pc_watts(level as int)) + seq![59u8]);
    r
}

/// `PC;` — ask what the power is set to.
pub fn pc_read_frame() -> (r: Vec<u8>)
    ensures
        r@ == seq![80u8, 67u8, 59u8],
{
    let mut r: Vec<u8> = Vec::new();
    r.push(80);
    r.push(67);
    r.push(59);
    assert(r@ =~= seq![80u8, 67u8, 59u8]);
    r
}

/// The payload of a `PC` reply (the digits after `PC`) as a fraction of full
/// scale in millionths, or `None` when it isn't a number.
pub fn pc_parse(rest: &str) -> (r: Option<i64>)
    ensures
        match decimal::uint_of(text::trim(rest@)) {
            Some(w) => if w <= u32::MAX {
                r == Some(
                    (if w >= 100 {
                        1_000_000
                    } else {
                        w * 10_000
                    }) as i64,
                )
            } else {
                r is None
            },
            None => r is None,
        },
{
    let v = text::chars_of(rest);
    match decimal::parse_uint(text::trim_chars(v.as_slice()).as_slice(), u32::MAX as u64) {
        Some(w) => if w >= 100 {
            Some(1_000_000)
        } else {
            Some(w as i64 * 10_000)
        },
        None => None,
    }
}

/// What is set is what reads back, to the watt and from five watts up.
pub proof fn law_power_reads_back(level: int)
    requires
        0 <= level <= 1_000_000,
    ensures
        ({
            let d = three_digits(pc_watts(level));
            let s = seq![d[0] as char, d[1] as char, d[2] as char];
            &&& decimal::uint_of(s) == Some(pc_watts(level))
            &&& 5 <= pc_watts(level) <= 100
            &&& level >= 50_000 ==> -5000 <= pc_watts(level) * 10_000 - level <= 5000
        }),
{
    let w = pc_watts(level);
    let d = three_digits(w);
    let s = seq![d[0] as char, d[1] as char, d[2] as char];
    assert(s.drop_last() =~= seq![d[0] as char, d[1] as char]);
    assert(s.drop_last().drop_last() =~= seq![d[0] as char]);
    assert(s.drop_last().drop_last().drop_last() =~= Seq::empty());
    reveal_with_fuel(decimal::val, 4);
}

/// A calibration table: rising in its first column, with room to interpolate.
pub open spec fn rising(cal: Seq<(i64, i64)>) -> bool {
    &&& cal.len() > 0
    &&& forall|i: int, j: int| 0 <= i < j < cal.len() ==> cal[i].0 < cal[j].0
    &&& forall|i: int| 0 <= i < cal.len() ==> in_scale((#[trigger] cal[i]).0) && in_scale(cal[i].1)
}

/// A value small enough that differences of two multiply without overflow.
pub open spec fn in_scale(v: i64) -> bool {
    -0x4000_0000_0000_0000 <= v <= 0x4000_0000_0000_0000
}

/// The straight line through two points.
pub open spec fn between(a: (i64, i64), b: (i64, i64), x: int) -> int {
    a.1 + (b.1 - a.1) * (x - a.0) / (b.0 - a.0)
}

/// Piecewise-linear interpolation over a rising table, clamped to its ends;
/// `from` is the first segment that is looked at.
pub open spec fn interpolated(cal: Seq<(i64, i64)>, x: int, from: int) -> int
    decreases cal.len() - from,
{
    if from < 0 || from + 1 >= cal.len() {
        cal.last().1 as int
    } else if x <= cal[from + 1].0 {
        between(cal[from], cal[from + 1], x)
    } else {
        interpolated(cal, x, from + 1)
    }
}

/// Piecewise-linear interpolation over a rising calibration table, clamped to
/// its ends: past either the curve is not just unknown but often not monotonic.
pub fn interp(cal: &[(i64, i64)], x: i64) -> (r: i64)
    requires
        rising(cal@),
        in_scale(x),
    ensures
        x <= cal@[0].0 ==> r == cal@[0].1,
        x > cal@[0].0 ==> r == interpolated(cal@, x as int, 0),
{
    if x <= cal[0].0 {
        return cal[0].1;
    }
    let mut i: usize = 0;
    while i < cal.len() - 1
        invariant
            i < cal@.len(),
            rising(cal@),
            in_scale(x),
            x > cal@[i as int].0,
            interpolated(cal@, x as int, 0) == interpolated(cal@, x as int, i as int),
        decreases cal@.len() - i,
    {
        let (x0, y0) = cal[i];
        let (x1, y1) = cal[i + 1];
        if x <= x1 {
            let rise: i128 = y1 as i128 - y0 as i128;
            let run: i128 = x1 as i128 - x0 as i128;
            let at: i128 = x as i128 - x0 as i128;
            proof {
                assert(cal@[i as int].0 < cal@[i + 1].0);
                lemma_product_fits(rise as int, at as int);
                lemma_between_in_range(rise as int, at as int, run as int);
            }
            let product: i128 = rise * at;
            let step: i128 = if product >= 0 {
                product / run
            } else {
                -((-product + (run - 1)) / run)
            };
            proof {
                if product < 0 {
                    lemma_floor_of_negative(product as int, run as int);
                }
            }
            return (y0 as i128 + step) as i64;
        }
        i += 1;
    }
    cal[cal.len() - 1].1
}

proof fn lemma_product_fits(a: int, b: int)
    by (nonlinear_arith)
    requires
        -0x8000_0000_0000_0000 <= a <= 0x8000_0000_0000_0000,
        0 <= b <= 0x8000_0000_0000_0000,
    ensures
        -0x4000_0000_0000_0000_0000_0000_0000_0000 <= a * b
            <= 0x4000_0000_0000_0000_0000_0000_0000_0000,
{
}

/// Rounding a negative quotient down, by way of a positive one.
proof fn lemma_floor_of_negative(p: int, r: int)
    requires
        p < 0,
        r > 0,
    ensures
        p / r == -((-p + (r - 1)) / r),
{
    let q = (-p + (r - 1)) / r;
    let m = (-p + (r - 1)) % r;
    vstd::arithmetic::div_mod::lemma_fundamental_div_mod(-p + (r - 1), r);
    assert(p == r * (-q) + (r - 1 - m)) by (nonlinear_arith)
        requires
            -p + (r - 1) == r * q + m,
    ;
    vstd::arithmetic::div_mod::lemma_fundamental_div_mod_converse(p, r, -q, r - 1 - m);
}

/// The straight line stays between its two ends.
proof fn lemma_between_in_range(rise: int, at: int, run: int)
    requires
        0 <= at <= run,
        run > 0,
    ensures
        rise >= 0 ==> 0 <= rise * at / run <= rise,
        rise <= 0 ==> rise <= rise * at / run <= 0,
{
    let p = rise * at;
    let q = p / run;
    vstd::arithmetic::div_mod::lemma_fundamental_div_mod(p, run);
    let m = p % run;
    if rise >= 0 {
        assert(0 <= p <= rise * run) by (nonlinear_arith)
            requires
                p == rise * at,
                0 <= at <= run,
                rise >= 0,
        ;
        assert(0 <= q <= rise) by (nonlinear_arith)
            requires
                p == run * q + m,
                0 <= m < run,
                0 <= p <= rise * run,
                run > 0,
        ;
    } else {
        assert(rise * run <= p <= 0) by (nonlinear_arith)
            requires
                p == rise * at,
                0 <= at <= run,
                rise <= 0,
        ;
        assert(rise <= q <= 0) by (nonlinear_arith)
            requires
                p == run * q + m,
                0 <= m < run,
                rise * run <= p <= 0,
                run > 0,
        ;
    }
}

} // verus!
