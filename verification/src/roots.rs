//! Square roots of whole numbers.
use vstd::prelude::*;

verus! {

/// The largest number whose square is at most `n`.
pub open spec fn root(n: nat) -> nat
    decreases n,
{
    if n == 0 {
        0
    } else {
        let r = root(n / 4) * 2;
        if (r + 1) * (r + 1) <= n {
            r + 1
        } else {
            r
        }
    }
}

pub proof fn lemma_root(n: nat)
    ensures
        root(n) * root(n) <= n < (root(n) + 1) * (root(n) + 1),
    decreases n,
{
    if n > 0 {
        let m = n / 4;
        lemma_root(m);
        let h = root(m);
        let r = h * 2;
        assert(r * r == 4 * (h * h)) by (nonlinear_arith)
            requires
                r == h * 2,
        ;
        assert((r + 2) * (r + 2) == 4 * ((h + 1) * (h + 1))) by (nonlinear_arith)
            requires
                r == h * 2,
        ;
        let t = root(n);
        if (r + 1) * (r + 1) <= n {
            assert(t == r + 1);
            assert(t * t == (r + 1) * (r + 1) && (t + 1) * (t + 1) == (r + 2) * (r + 2));
        } else {
            assert(t == r);
        }
    } else {
        let t = root(n);
        assert(t * t == 0 && (t + 1) * (t + 1) == 1) by (nonlinear_arith)
            requires
                t == 0,
        ;
    }
}

/// The largest number whose square is at most `n`.
pub fn isqrt(n: u128) -> (r: u128)
    requires
        n <= 0x4000_0000_0000_0000_0000_0000_0000_0000,
    ensures
        r == root(n as nat),
    decreases n,
{
    if n == 0 {
        0
    } else {
        let h = isqrt(n / 4);
        proof {
            lemma_root((n / 4) as nat);
            assert(h <= 0x4000_0000_0000_0000) by (nonlinear_arith)
                requires
                    h * h <= n / 4,
                    n <= 0x4000_0000_0000_0000_0000_0000_0000_0000,
            ;
        }
        let r = h * 2;
        proof {
            assert((r + 1) * (r + 1) <= 0x8000_0000_0000_0001 * 0x8000_0000_0000_0001)
                by (nonlinear_arith)
                requires
                    0 <= r <= 0x8000_0000_0000_0000,
            ;
        }
        if (r + 1) * (r + 1) <= n {
            r + 1
        } else {
            r
        }
    }
}

} // verus!
