//! Integer square roots for the touch travel measure and the motion
//! residuals, on the same fixed-point footing as the rest of the pipeline.
use vstd::prelude::*;

verus! {

/// `r` is the floor of the square root of `n`.
pub open spec fn is_floor_sqrt(r: int, n: int) -> bool {
    r >= 0 && r * r <= n && n < (r + 1) * (r + 1)
}

/// The floor of the square root of a non-negative `n`.
pub open spec fn floor_sqrt(n: int) -> int {
    choose|r: int| is_floor_sqrt(r, n)
}

/// The floor square root is unique, so any witness is the one `floor_sqrt`
/// names.
pub proof fn lemma_floor_sqrt_unique(r: int, n: int)
    requires
        is_floor_sqrt(r, n),
    ensures
        floor_sqrt(n) == r,
{
    let s = floor_sqrt(n);
    assert(is_floor_sqrt(s, n));
    assert(s <= r) by {
        if s > r {
            assert((r + 1) * (r + 1) <= s * s) by (nonlinear_arith)
                requires
                    s >= r + 1,
                    r >= 0,
            ;
        }
    }
    assert(r <= s) by {
        if r > s {
            assert((s + 1) * (s + 1) <= r * r) by (nonlinear_arith)
                requires
                    r >= s + 1,
                    s >= 0,
            ;
        }
    }
}

/// One Newton step never undershoots the floor square root.
proof fn lemma_newton_step_above(x: int, n: int)
    requires
        x >= 1,
        n >= 0,
    ensures
        ((x + n / x) / 2 + 1) * ((x + n / x) / 2 + 1) > n,
{
    let q = n / x;
    let m = (x + q) / 2;
    assert(n < (q + 1) * x) by (nonlinear_arith)
        requires
            q == n / x,
            x >= 1,
            n >= 0,
    ;
    assert(2 * (m + 1) >= x + q + 1);
    assert(q >= 0) by (nonlinear_arith)
        requires
            q == n / x,
            x >= 1,
            n >= 0,
    ;
    assert(4 * ((m + 1) * (m + 1)) >= (x + q + 1) * (x + q + 1)) by (nonlinear_arith)
        requires
            2 * (m + 1) >= x + q + 1,
            x + q + 1 >= 0,
    ;
    assert((x + q + 1) * (x + q + 1) >= 4 * x * (q + 1)) by (nonlinear_arith);
    assert(4 * x * (q + 1) > 4 * n) by (nonlinear_arith)
        requires
            n < (q + 1) * x,
    ;
}

/// A Newton step that fails to descend leaves `x * x <= n`.
proof fn lemma_newton_settled(x: int, n: int)
    requires
        x >= 1,
        n >= 0,
        (x + n / x) / 2 >= x,
    ensures
        x * x <= n,
{
    let q = n / x;
    assert(q >= x);
    assert(x * x <= q * x) by (nonlinear_arith)
        requires
            q >= x,
            x >= 1,
    ;
    assert(q * x <= n) by (nonlinear_arith)
        requires
            q == n / x,
            x >= 1,
            n >= 0,
    ;
}

/// Floor of the square root of a `u64`, by Newton iteration.
pub fn isqrt_u64(n: u64) -> (r: u64)
    ensures
        is_floor_sqrt(r as int, n as int),
        r == floor_sqrt(n as int),
{
    if n < 2 {
        proof {
            assert(is_floor_sqrt(n as int, n as int)) by (nonlinear_arith)
                requires
                    n < 2,
            ;
            lemma_floor_sqrt_unique(n as int, n as int);
        }
        return n;
    }
    let mut x: u64 = n;
    // (n + n / n) / 2, without the overflow of `n + 1`.
    let mut y: u64 = n / 2 + n % 2;
    assert((n as int + n as int / n as int) / 2 == y) by (nonlinear_arith)
        requires
            n >= 2,
            y == n / 2 + n % 2,
    ;
    proof {
        lemma_newton_step_above(x as int, n as int);
        assert((n as int + 1) * (n as int + 1) > n) by (nonlinear_arith)
            requires
                n >= 2,
        ;
    }
    while y < x
        invariant
            x >= 1,
            n >= 2,
            (x + 1) * (x + 1) > n,
            (y + 1) * (y + 1) > n,
            y == (x + n as int / x as int) / 2,
        decreases x,
    {
        assert(y >= 1) by (nonlinear_arith)
            requires
                (y + 1) * (y + 1) > n,
                n >= 2,
                y >= 0,
        ;
        x = y;
        let q: u64 = n / x;
        y = ((x as u128 + q as u128) / 2) as u64;
        proof {
            lemma_newton_step_above(x as int, n as int);
        }
    }
    proof {
        lemma_newton_settled(x as int, n as int);
        lemma_floor_sqrt_unique(x as int, n as int);
    }
    x
}

/// Floor of the square root of a `u32`.
pub fn isqrt_u32(n: u32) -> (r: u32)
    ensures
        is_floor_sqrt(r as int, n as int),
        r == floor_sqrt(n as int),
{
    let r = isqrt_u64(n as u64);
    assert(r <= 65535) by {
        if r > 65535 {
            assert(r * r >= 65536 * 65536) by (nonlinear_arith)
                requires
                    r >= 65536,
            ;
        }
    }
    r as u32
}

} // verus!
