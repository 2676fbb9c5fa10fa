//! Integer square roots and the rescaling of a velocity to a given speed.

use crate::geometry::Vec2;
use vstd::arithmetic::div_mod::{lemma_fundamental_div_mod, lemma_mod_pos_bound};
use vstd::prelude::*;

verus! {

/// Largest speed, and largest magnitude of a velocity component (2^30).
pub const MAX_SPEED: i64 = 0x4000_0000;

/// Largest magnitude of a direction's component that can be rescaled (2^33).
pub const MAX_DIRECTION: i64 = 0x2_0000_0000;

/// Largest radicand that [`ceil_sqrt`] accepts: `(2^64 - 1)^2`.
pub const MAX_RADICAND: u128 = 0xFFFF_FFFF_FFFF_FFFE_0000_0000_0000_0001;

/// `r` is the least non-negative integer whose square is at least `n`.
pub open spec fn is_ceil_sqrt(r: int, n: int) -> bool {
    &&& 0 <= r
    &&& n <= r * r
    &&& (r == 0 || (r - 1) * (r - 1) < n)
}

/// The square root of `n` rounded up.
pub open spec fn ceil_root(n: int) -> int {
    choose|r: int| is_ceil_sqrt(r, n)
}

pub open spec fn abs(v: int) -> int {
    if v < 0 {
        -v
    } else {
        v
    }
}

pub open spec fn min(a: int, b: int) -> int {
    if a < b {
        a
    } else {
        b
    }
}

/// The squared length of the vector `(x, y)`.
pub open spec fn norm2(x: int, y: int) -> int {
    x * x + y * y
}

/// The speed `s` is the length of `(x, y)`, rounded: the vector is no longer
/// than `s` and falls short of it by less than three units.
pub open spec fn speed_matches(x: int, y: int, s: int) -> bool {
    &&& 0 <= s
    &&& norm2(x, y) <= s * s
    &&& (s >= 3 ==> (s - 3) * (s - 3) <= norm2(x, y))
}

/// One component of `(c, other)` rescaled to length `s`: `s * c / |(c, other)|`,
/// rounded towards zero, with the length rounded up. Computed as
/// `s^2 * c / ceil(sqrt(s^2 * |v|^2))` so that the divisor is at least `s`.
pub open spec fn scaled_component(c: int, other: int, s: int) -> int {
    let q = (s * s * abs(c)) / ceil_root(s * s * norm2(c, other));
    if c < 0 {
        -q
    } else {
        q
    }
}

/// The vector `(x, y)` rescaled to length `s`. A zero vector has no direction;
/// it is taken as straight up, the way a serve or a paddle sends the ball.
pub open spec fn scaled(x: int, y: int, s: int) -> (int, int) {
    if s == 0 {
        (0, 0)
    } else if x == 0 && y == 0 {
        (0, s)
    } else {
        (scaled_component(x, y, s), scaled_component(y, x, s))
    }
}

/// A rounded-up square root is unique.
pub proof fn lemma_ceil_sqrt_unique(r1: int, r2: int, n: int)
    requires
        is_ceil_sqrt(r1, n),
        is_ceil_sqrt(r2, n),
    ensures
        r1 == r2,
{
    if r1 < r2 {
        assert(r1 * r1 <= (r2 - 1) * (r2 - 1)) by (nonlinear_arith)
            requires
                0 <= r1 <= r2 - 1,
        ;
    } else if r2 < r1 {
        assert(r2 * r2 <= (r1 - 1) * (r1 - 1)) by (nonlinear_arith)
            requires
                0 <= r2 <= r1 - 1,
        ;
    }
}

/// The square root of `n`, rounded up.
pub fn ceil_sqrt(n: u128) -> (r: u64)
    requires
        n <= MAX_RADICAND,
    ensures
        is_ceil_sqrt(r as int, n as int),
        r as int == ceil_root(n as int),
{
    let mut lo: u128 = 0;
    let mut hi: u128 = 0xFFFF_FFFF_FFFF_FFFF;
    assert(n <= hi * hi);
    while lo < hi
        invariant
            lo <= hi <= 0xFFFF_FFFF_FFFF_FFFFu128,
            n <= hi * hi,
            lo == 0 || (lo - 1) * (lo - 1) < n,
        decreases hi - lo,
    {
        let mid: u128 = lo + (hi - lo) / 2;
        assert(mid * mid <= 0xFFFF_FFFF_FFFF_FFFFu128 * 0xFFFF_FFFF_FFFF_FFFFu128) by (nonlinear_arith)
            requires
                mid <= 0xFFFF_FFFF_FFFF_FFFFu128,
        ;
        if mid * mid >= n {
            hi = mid;
        } else {
            lo = mid + 1;
        }
    }
    proof {
        assert(is_ceil_sqrt(lo as int, n as int));
        let c = ceil_root(n as int);
        assert(is_ceil_sqrt(c, n as int));
        lemma_ceil_sqrt_unique(lo as int, c, n as int);
    }
    lo as u64
}

/// Every non-negative integer has a rounded-up square root.
pub proof fn lemma_ceil_sqrt_exists(n: int)
    requires
        0 <= n,
    ensures
        is_ceil_sqrt(ceil_root(n), n),
    decreases n,
{
    if n == 0 {
        assert(is_ceil_sqrt(0, 0));
    } else {
        lemma_ceil_sqrt_exists(n - 1);
        let r = ceil_root(n - 1);
        if r * r >= n {
            assert(is_ceil_sqrt(r, n));
        } else {
            assert((r + 1) * (r + 1) == r * r + 2 * r + 1) by (nonlinear_arith);
            assert(is_ceil_sqrt(r + 1, n));
        }
    }
}

/// The rescaled magnitudes `p` and `q` of a vector with magnitudes `a` and `b`
/// are no longer than `s` together, and short of it by less than three.
proof fn lemma_rounded_length(a: int, b: int, s: int, l: int, p: int, q: int)
    requires
        0 <= a,
        0 <= b,
        1 <= a * a + b * b,
        1 <= s,
        is_ceil_sqrt(l, s * s * (a * a + b * b)),
        p == (s * s * a) / l,
        q == (s * s * b) / l,
    ensures
        0 <= p,
        0 <= q,
        p * p + q * q <= s * s,
        s >= 3 ==> (s - 3) * (s - 3) <= p * p + q * q,
{
    let n = s * s * (a * a + b * b);
    let big_a = s * s * a;
    let big_b = s * s * b;
    assert(s * s <= n) by (nonlinear_arith)
        requires
            1 <= a * a + b * b,
            n == s * s * (a * a + b * b),
    ;
    assert(s <= l) by (nonlinear_arith)
        requires
            s * s <= n,
            n <= l * l,
            0 <= l,
            1 <= s,
    ;
    assert(0 <= big_a && 0 <= big_b) by (nonlinear_arith)
        requires
            0 <= a,
            0 <= b,
            big_a == s * s * a,
            big_b == s * s * b,
    ;
    lemma_fundamental_div_mod(big_a, l);
    lemma_fundamental_div_mod(big_b, l);
    lemma_mod_pos_bound(big_a, l);
    lemma_mod_pos_bound(big_b, l);
    let pl = p * l;
    let ql = q * l;
    assert(pl <= big_a < pl + l);
    assert(ql <= big_b < ql + l);
    assert(0 <= p && 0 <= q) by (nonlinear_arith)
        requires
            pl == p * l,
            ql == q * l,
            big_a < pl + l,
            big_b < ql + l,
            0 <= big_a,
            0 <= big_b,
            1 <= l,
    ;
    assert(big_a * big_a + big_b * big_b == s * s * n) by (nonlinear_arith)
        requires
            big_a == s * s * a,
            big_b == s * s * b,
            n == s * s * (a * a + b * b),
    ;
    // Upper bound.
    assert(pl * pl + ql * ql <= big_a * big_a + big_b * big_b) by (nonlinear_arith)
        requires
            0 <= pl <= big_a,
            0 <= ql <= big_b,
            pl == p * l,
            ql == q * l,
            0 <= p,
            0 <= q,
            1 <= l,
    ;
    assert(s * s * n <= s * s * (l * l)) by (nonlinear_arith)
        requires
            n <= l * l,
    ;
    assert(p * p + q * q <= s * s) by (nonlinear_arith)
        requires
            pl * pl + ql * ql <= s * s * (l * l),
            pl == p * l,
            ql == q * l,
            1 <= l,
    ;
    // Lower bound.
    if s >= 3 {
        let x = (p + 1) * (p + 1) + (q + 1) * (q + 1);
        assert(big_a * big_a + big_b * big_b < x * (l * l)) by (nonlinear_arith)
            requires
                0 <= big_a < pl + l,
                0 <= big_b < ql + l,
                pl == p * l,
                ql == q * l,
                x == (p + 1) * (p + 1) + (q + 1) * (q + 1),
                0 <= p,
                0 <= q,
                1 <= l,
        ;
        assert(s * s * ((l - 1) * (l - 1)) < s * s * n) by (nonlinear_arith)
            requires
                (l - 1) * (l - 1) < n,
                1 <= s,
        ;
        assert((s - 1) * (s - 1) * (l * l) <= s * s * ((l - 1) * (l - 1))) by (nonlinear_arith)
            requires
                1 <= s <= l,
        ;
        assert((s - 1) * (s - 1) < x) by (nonlinear_arith)
            requires
                (s - 1) * (s - 1) * (l * l) < x * (l * l),
                1 <= l,
        ;
        let r = s - 3;
        if p * p + q * q < r * r {
            assert((p + q) * (p + q) <= 2 * (p * p + q * q)) by (nonlinear_arith);
            assert(2 * (p + q) < 3 * r) by (nonlinear_arith)
                requires
                    (p + q) * (p + q) < 2 * (r * r),
                    0 <= p + q,
                    0 <= r,
            ;
            assert(x == p * p + q * q + 2 * (p + q) + 2) by (nonlinear_arith)
                requires
                    x == (p + 1) * (p + 1) + (q + 1) * (q + 1),
            ;
            assert((s - 1) * (s - 1) == r * r + 4 * r + 4) by (nonlinear_arith)
                requires
                    r == s - 3,
            ;
        }
    }
}

/// A vector rescaled to length `s` has speed `s`, to within rounding.
pub proof fn lemma_scaled_speed(x: int, y: int, s: int)
    requires
        0 <= s,
    ensures
        speed_matches(scaled(x, y, s).0, scaled(x, y, s).1, s),
{
    if s == 0 {
    } else if x == 0 && y == 0 {
        assert(norm2(0, s) == s * s);
        assert(s >= 3 ==> (s - 3) * (s - 3) <= s * s) by (nonlinear_arith);
    } else {
        let a = abs(x);
        let b = abs(y);
        assert(a * a == x * x && b * b == y * y) by (nonlinear_arith)
            requires
                a == abs(x),
                b == abs(y),
        ;
        assert(1 <= a * a + b * b) by (nonlinear_arith)
            requires
                0 <= a,
                0 <= b,
                a != 0 || b != 0,
        ;
        assert(s * s * norm2(x, y) == s * s * (a * a + b * b));
        assert(s * s * norm2(y, x) == s * s * (a * a + b * b));
        assert(0 <= s * s * (a * a + b * b)) by (nonlinear_arith)
            requires
                1 <= a * a + b * b,
        ;
        lemma_ceil_sqrt_exists(s * s * (a * a + b * b));
        let l = ceil_root(s * s * (a * a + b * b));
        let p = (s * s * a) / l;
        let q = (s * s * b) / l;
        lemma_rounded_length(a, b, s, l, p, q);
        assert(scaled_component(x, y, s) == if x < 0 { -p } else { p });
        assert(scaled_component(y, x, s) == if y < 0 { -q } else { q });
        let rx = scaled(x, y, s).0;
        let ry = scaled(x, y, s).1;
        assert(rx == scaled_component(x, y, s));
        assert(ry == scaled_component(y, x, s));
        assert(rx * rx == p * p && ry * ry == q * q) by (nonlinear_arith)
            requires
                rx == p || rx == -p,
                ry == q || ry == -q,
        ;
    }
}

/// Rescales the direction `v` to the length `s` (see [`scaled`]).
pub fn scale_to_speed(v: Vec2, s: i64) -> (r: Vec2)
    requires
        0 <= s <= MAX_SPEED,
        abs(v.x as int) <= MAX_DIRECTION,
        abs(v.y as int) <= MAX_DIRECTION,
    ensures
        r.x == scaled(v.x as int, v.y as int, s as int).0,
        r.y == scaled(v.x as int, v.y as int, s as int).1,
        speed_matches(r.x as int, r.y as int, s as int),
{
    proof {
        lemma_scaled_speed(v.x as int, v.y as int, s as int);
    }
    if s == 0 {
        return Vec2 { x: 0, y: 0 };
    }
    if v.x == 0 && v.y == 0 {
        return Vec2 { x: 0, y: s };
    }
    let a: u128 = if v.x < 0 { (-v.x) as u128 } else { v.x as u128 };
    let b: u128 = if v.y < 0 { (-v.y) as u128 } else { v.y as u128 };
    let su: u128 = s as u128;
    assert(a * a == v.x * v.x && b * b == v.y * v.y) by (nonlinear_arith)
        requires
            a == abs(v.x as int),
            b == abs(v.y as int),
    ;
    assert(su * a <= 0x8000_0000_0000_0000u128 && su * b <= 0x8000_0000_0000_0000u128) by (nonlinear_arith)
        requires
            su <= 0x4000_0000u128,
            a <= 0x2_0000_0000u128,
            b <= 0x2_0000_0000u128,
    ;
    let sa: u128 = su * a;
    let sb: u128 = su * b;
    assert(sa * sa + sb * sb <= 0x8000_0000_0000_0000_0000_0000_0000_0000u128) by (nonlinear_arith)
        requires
            sa <= 0x8000_0000_0000_0000u128,
            sb <= 0x8000_0000_0000_0000u128,
    ;
    let n: u128 = sa * sa + sb * sb;
    assert(n == s * s * norm2(v.x as int, v.y as int)) by (nonlinear_arith)
        requires
            n == sa * sa + sb * sb,
            sa == su * a,
            sb == su * b,
            su == s,
            a * a == v.x * v.x,
            b * b == v.y * v.y,
    ;
    let l: u128 = ceil_sqrt(n) as u128;
    assert(n == s * s * norm2(v.y as int, v.x as int));
    assert(1 <= l) by (nonlinear_arith)
        requires
            is_ceil_sqrt(l as int, n as int),
            1 <= su,
            1 <= a + b,
            sa == su * a,
            sb == su * b,
            n == sa * sa + sb * sb,
    ;
    assert(su * sa == s * s * a && su * sb == s * s * b && su * sa <= 0x4000_0000u128 * 0x8000_0000_0000_0000u128 && su * sb <= 0x4000_0000u128 * 0x8000_0000_0000_0000u128) by (nonlinear_arith)
        requires
            su <= 0x4000_0000u128,
            sa <= 0x8000_0000_0000_0000u128,
            sb <= 0x8000_0000_0000_0000u128,
            sa == su * a,
            sb == su * b,
            su == s,
    ;
    let p: u128 = su * sa / l;
    let q: u128 = su * sb / l;
    proof {
        lemma_rounded_length(a as int, b as int, s as int, l as int, p as int, q as int);
        assert(p <= su && q <= su) by (nonlinear_arith)
            requires
                p * p + q * q <= su * su,
        ;
    }
    let px: i64 = if v.x < 0 { -(p as i64) } else { p as i64 };
    let qy: i64 = if v.y < 0 { -(q as i64) } else { q as i64 };
    Vec2 { x: px, y: qy }
}

} // verus!
