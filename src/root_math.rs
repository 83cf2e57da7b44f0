//! Integer square root, as a spec function and as a binary search.
use vstd::prelude::*;

verus! {

/// The floor of the square root of `n`.
pub open spec fn isqrt(n: nat) -> nat
    decreases n,
{
    if n == 0 {
        0
    } else {
        let r = isqrt((n - 1) as nat);
        if (r + 1) * (r + 1) <= n {
            r + 1
        } else {
            r
        }
    }
}

/// Squaring is monotone on naturals.
pub proof fn lemma_square_monotone(a: nat, b: nat)
    requires
        a <= b,
    ensures
        a * a <= b * b,
{
    assert(a * a <= b * b) by (nonlinear_arith)
        requires
            a <= b,
    ;
}

/// `isqrt(n)` is the one `r` with `r * r <= n < (r + 1) * (r + 1)`.
pub proof fn lemma_isqrt_bounds(n: nat)
    ensures
        isqrt(n) * isqrt(n) <= n,
        n < (isqrt(n) + 1) * (isqrt(n) + 1),
    decreases n,
{
    if n > 0 {
        let m = (n - 1) as nat;
        lemma_isqrt_bounds(m);
        let r = isqrt(m);
        assert(isqrt(n) == if (r + 1) * (r + 1) <= n { r + 1 } else { r });
        if (r + 1) * (r + 1) <= n {
            assert(n < (r + 2) * (r + 2)) by (nonlinear_arith)
                requires
                    (r + 1) * (r + 1) <= n,
                    n - 1 < (r + 1) * (r + 1),
            ;
            let s = isqrt(n);
            assert(s + 1 == r + 2);
            assert((s + 1) * (s + 1) == (r + 2) * (r + 2));
        } else {
            let s = isqrt(n);
            assert(s == r);
            assert((s + 1) * (s + 1) == (r + 1) * (r + 1));
        }
    } else {
        assert(isqrt(0) == 0);
        assert((isqrt(n) + 1) * (isqrt(n) + 1) == 1);
    }
}

/// Any `r` with `r * r <= n < (r + 1) * (r + 1)` is `isqrt(n)`.
pub proof fn lemma_isqrt_unique(n: nat, r: nat)
    requires
        r * r <= n,
        n < (r + 1) * (r + 1),
    ensures
        r == isqrt(n),
{
    lemma_isqrt_bounds(n);
    let s = isqrt(n);
    if r < s {
        lemma_square_monotone(r + 1, s);
    } else if s < r {
        lemma_square_monotone(s + 1, r);
    }
}

/// The integer square root is monotone.
pub proof fn lemma_isqrt_monotone(n: nat, m: nat)
    requires
        n <= m,
    ensures
        isqrt(n) <= isqrt(m),
{
    lemma_isqrt_bounds(n);
    lemma_isqrt_bounds(m);
    if isqrt(m) < isqrt(n) {
        lemma_square_monotone(isqrt(m) + 1, isqrt(n));
    }
}

/// `isqrt(n)` reaches `k` exactly when `n` reaches `k * k`.
pub proof fn lemma_isqrt_at_least(n: nat, k: nat)
    requires
        k * k <= n,
    ensures
        k <= isqrt(n),
{
    lemma_isqrt_bounds(n);
    if isqrt(n) < k {
        lemma_square_monotone(isqrt(n) + 1, k);
    }
}

/// Floor of the square root of `n`, by binary search.
pub fn integer_sqrt(n: u64) -> (r: u64)
    ensures
        r == isqrt(n as nat),
        r < 0x1_0000_0000,
{
    let mut lo: u64 = 0;
    let mut hi: u64 = 0x1_0000_0000;
    assert(n < hi * hi) by (nonlinear_arith)
        requires
            hi == 0x1_0000_0000,
            n <= u64::MAX,
    ;
    while hi - lo > 1
        invariant
            lo < hi <= 0x1_0000_0000,
            lo * lo <= n,
            n < hi * hi,
        decreases hi - lo,
    {
        let mid: u64 = lo + (hi - lo) / 2;
        assert(mid * mid < 0x1_0000_0000_0000_0000) by (nonlinear_arith)
            requires
                mid < 0x1_0000_0000,
        ;
        if mid * mid <= n {
            lo = mid;
        } else {
            hi = mid;
        }
    }
    proof {
        lemma_isqrt_unique(n as nat, lo as nat);
    }
    lo
}

} // verus!
