use vstd::prelude::*;

verus! {

/// A 2D vector in fixed-point units.
#[derive(Clone, Copy, Debug, PartialEq, Eq, Structural)]
pub struct Vec2 {
    pub x: i64,
    pub y: i64,
}

/// A point or vector of the plane over mathematical integers.
pub ghost struct Pt {
    pub x: int,
    pub y: int,
}

impl Vec2 {
    pub open spec fn view(self) -> Pt {
        Pt { x: self.x as int, y: self.y as int }
    }

    pub fn new(x: i64, y: i64) -> (r: Vec2)
        ensures
            r.x == x,
            r.y == y,
    {
        Vec2 { x, y }
    }
}

/// Division rounding toward zero, as integer division does on machine integers.
/// It is odd in its first argument, which keeps pair corrections antisymmetric.
pub open spec fn div_toward_zero(a: int, d: int) -> int {
    if a >= 0 {
        a / d
    } else {
        -((-a) / d)
    }
}

/// `r` is the integer square root of `n`, rounded down.
pub open spec fn is_floor_sqrt(r: int, n: int) -> bool {
    0 <= r && r * r <= n && n < (r + 1) * (r + 1)
}

/// The integer square root of `n`, rounded down.
pub open spec fn sqrt_floor(n: int) -> int {
    choose|r: int| is_floor_sqrt(r, n)
}

proof fn lemma_floor_sqrt_unique(r: int, s: int, n: int)
    requires
        is_floor_sqrt(r, n),
        is_floor_sqrt(s, n),
    ensures
        r == s,
{
    if r < s {
        assert((r + 1) * (r + 1) <= s * s) by (nonlinear_arith)
            requires
                0 <= r + 1 <= s,
        ;
    } else if s < r {
        assert((s + 1) * (s + 1) <= r * r) by (nonlinear_arith)
            requires
                0 <= s + 1 <= r,
        ;
    }
}

proof fn sqrt_witness(n: int) -> (r: int)
    requires
        0 <= n,
    ensures
        is_floor_sqrt(r, n),
    decreases n,
{
    if n == 0 {
        assert(is_floor_sqrt(0, n)) by (nonlinear_arith)
            requires
                n == 0,
        ;
        0
    } else {
        let r = sqrt_witness(n - 1);
        if (r + 1) * (r + 1) <= n {
            assert(n < (r + 2) * (r + 2)) by (nonlinear_arith)
                requires
                    n - 1 < (r + 1) * (r + 1),
                    0 <= r,
            ;
            r + 1
        } else {
            r
        }
    }
}

/// Every non-negative integer has a square root rounded down.
pub proof fn lemma_sqrt_floor_exists(n: int)
    requires
        0 <= n,
    ensures
        is_floor_sqrt(sqrt_floor(n), n),
{
    let r = sqrt_witness(n);
    assert(is_floor_sqrt(r, n));
}

/// Once a square root rounded down is known, `sqrt_floor` names it.
pub proof fn lemma_sqrt_floor_is(r: int, n: int)
    requires
        is_floor_sqrt(r, n),
    ensures
        sqrt_floor(n) == r,
{
    assert(exists|s: int| is_floor_sqrt(s, n));
    lemma_floor_sqrt_unique(sqrt_floor(n), r, n);
}

/// The square root of `n`, rounded down, found by bisection.
pub fn floor_sqrt(n: u128) -> (r: u64)
    requires
        n < 0x4_0000_0000_0000_0000,
    ensures
        r as int == sqrt_floor(n as int),
        is_floor_sqrt(r as int, n as int),
{
    let mut lo: u128 = 0;
    let mut hi: u128 = 0x4_0000_0000;
    assert(n < hi * hi);
    while hi - lo > 1
        invariant
            lo < hi <= 0x4_0000_0000,
            lo * lo <= n,
            n < hi * hi,
        decreases hi - lo,
    {
        let mid: u128 = lo + (hi - lo) / 2;
        assert(mid * mid <= 0x4_0000_0000 * 0x4_0000_0000) by (nonlinear_arith)
            requires
                mid <= 0x4_0000_0000,
        ;
        if mid * mid <= n {
            lo = mid;
        } else {
            hi = mid;
        }
    }
    assert(hi == lo + 1);
    proof {
        lemma_sqrt_floor_is(lo as int, n as int);
    }
    lo as u64
}

} // verus!
