//! Overflow-free 128-bit arithmetic with 256-bit intermediates.
use vstd::arithmetic::div_mod::*;
use vstd::arithmetic::mul::*;
use vstd::prelude::*;

verus! {

/// 2^64 as a mathematical integer.
pub open spec fn pow64() -> int {
    u64::MAX as int + 1
}

/// 2^128 as a mathematical integer.
pub open spec fn pow128() -> int {
    u128::MAX as int + 1
}

/// The 256-bit value held by a `(hi, lo)` pair.
pub open spec fn wide_value(hi: u128, lo: u128) -> int {
    hi as int * pow128() + lo as int
}

/// The `(hi, lo)` split of the exact product `a * b`.
pub open spec fn wide_product(a: u128, b: u128) -> (u128, u128) {
    (((a as int * b as int) / pow128()) as u128, ((a as int * b as int) % pow128()) as u128)
}

/// `r` is the integer square root of `x`: the largest `r` with `r * r <= x`.
pub open spec fn is_floor_sqrt(r: int, x: int) -> bool {
    0 <= r && r * r <= x && x < (r + 1) * (r + 1)
}

/// The integer square root of `x`.
pub open spec fn floor_sqrt(x: int) -> int {
    choose|r: int| is_floor_sqrt(r, x)
}

/// `floor(a * b / c)`, capped at `u128::MAX`.
pub open spec fn mul_div_spec(a: int, b: int, c: int) -> int {
    if (a * b) / c > u128::MAX {
        u128::MAX as int
    } else {
        (a * b) / c
    }
}

/// The value `sqrt_product` returns: the exact root of the product when the
/// product fits in 128 bits, else the product of the two roots, capped.
pub open spec fn sqrt_product_spec(a: int, b: int) -> int {
    if a * b <= u128::MAX {
        floor_sqrt(a * b)
    } else if floor_sqrt(a) * floor_sqrt(b) > u128::MAX {
        u128::MAX as int
    } else {
        floor_sqrt(a) * floor_sqrt(b)
    }
}

/// Three-way comparison of two integers.
pub open spec fn cmp_int(x: int, y: int) -> core::cmp::Ordering {
    if x < y {
        core::cmp::Ordering::Less
    } else if x == y {
        core::cmp::Ordering::Equal
    } else {
        core::cmp::Ordering::Greater
    }
}

proof fn lemma_floor_sqrt_unique(r1: int, r2: int, x: int)
    requires
        is_floor_sqrt(r1, x),
        is_floor_sqrt(r2, x),
    ensures
        r1 == r2,
{
    if r1 < r2 {
        assert((r1 + 1) * (r1 + 1) <= r2 * r2) by (nonlinear_arith)
            requires
                0 <= r1 + 1 <= r2,
        ;
    }
    if r2 < r1 {
        assert((r2 + 1) * (r2 + 1) <= r1 * r1) by (nonlinear_arith)
            requires
                0 <= r2 + 1 <= r1,
        ;
    }
}

/// Any witness of the floor-sqrt relation is `floor_sqrt(x)`.
pub proof fn lemma_floor_sqrt_is(r: int, x: int)
    requires
        is_floor_sqrt(r, x),
    ensures
        floor_sqrt(x) == r,
{
    let s = floor_sqrt(x);
    assert(is_floor_sqrt(s, x));
    lemma_floor_sqrt_unique(r, s, x);
}

/// Newton step bound: if `s * s <= x` then `s <= (x / z + z) / 2`.
proof fn lemma_newton_step_bound(x: int, z: int, s: int)
    requires
        z > 0,
        s >= 0,
        s * s <= x,
    ensures
        s <= (x / z + z) / 2,
{
    // (s - z)^2 >= 0 gives z * (2s - z) <= s * s <= x.
    assert(z * (2 * s - z) <= x) by (nonlinear_arith)
        requires
            s * s <= x,
    ;
    let q = x / z;
    lemma_fundamental_div_mod(x, z);
    assert(x == z * q + x % z);
    assert(x % z < z) by {
        lemma_mod_bound(x, z);
    }
    // z * (2s - z) <= z * q + (z - 1) so 2s - z <= q.
    assert(2 * s - z <= q) by (nonlinear_arith)
        requires
            z > 0,
            z * (2 * s - z) <= x,
            x == z * q + x % z,
            x % z < z,
    ;
}

/// Integer square root by Newton's method: the largest `r` with `r * r <= x`.
pub fn sqrt(x: u128) -> (r: u128)
    ensures
        is_floor_sqrt(r as int, x as int),
        r as int == floor_sqrt(x as int),
{
    if x == 0 {
        proof {
            lemma_floor_sqrt_is(0, 0);
        }
        return 0;
    }
    // (x + 1) / 2, written so that it cannot overflow
    let mut z: u128 = x / 2 + x % 2;
    let mut y: u128 = x;
    proof {
        assert forall|t: int| 0 <= t && #[trigger] (t * t) <= x implies t <= z by {
            lemma_newton_step_bound(x as int, 1, t);
            assert(x as int / 1 == x as int);
        }
        assert forall|t: int| 0 <= t && #[trigger] (t * t) <= x implies t <= y by {
            if t > y {
                assert(t * t > x) by (nonlinear_arith)
                    requires
                        t > y,
                        y == x,
                        x >= 1,
                ;
            }
        }
    }
    while z < y
        invariant
            0 < z <= x / 2 + x % 2,
            0 < y <= x,
            (y == x && z == x / 2 + x % 2) || z as int == (x as int / y as int + y as int) / 2,
            forall|t: int| 0 <= t && #[trigger] (t * t) <= x ==> t <= z && t <= y,
        decreases y,
    {
        y = z;
        proof {
            assert forall|t: int| 0 <= t && #[trigger] (t * t) <= x implies t <= (x as int / y as int
                + y as int) / 2 by {
                lemma_newton_step_bound(x as int, y as int, t);
            }
            lemma_fundamental_div_mod(x as int, 2);
            if y >= 2 {
                lemma_div_is_ordered_by_denominator(x as int, 2, y as int);
                assert(x as int / y as int + y as int <= x as int);
            } else {
                if x >= 4 {
                    assert(2 * 2 <= x);
                    assert(2 <= y);
                }
                assert(x as int / 1 == x as int);
            }
        }
        z = (x / z + z) / 2;
    }
    proof {
        if y as int * y as int > x as int {
            if y == x && z == x / 2 + x % 2 {
                assert(x > 1) by (nonlinear_arith)
                    requires
                        y == x,
                        y as int * y as int > x as int,
                ;
            } else {
                let xi = x as int;
                let yi = y as int;
                lemma_fundamental_div_mod(xi, yi);
                lemma_mod_bound(xi, yi);
                assert(xi / yi < yi) by (nonlinear_arith)
                    requires
                        yi > 0,
                        yi * yi > xi,
                        xi == yi * (xi / yi) + xi % yi,
                        xi % yi >= 0,
                ;
            }
        }
        let ys = y as int + 1;
        if ys * ys <= x as int {
            assert(ys <= y);
        }
        lemma_floor_sqrt_is(y as int, x as int);
    }
    y
}

proof fn lemma_split64(x: u128)
    ensures
        x & 0xffff_ffff_ffff_ffffu128 == x % 0x1_0000_0000_0000_0000u128,
        x >> 64u128 == x / 0x1_0000_0000_0000_0000u128,
{
    assert(x & 0xffff_ffff_ffff_ffffu128 == x % 0x1_0000_0000_0000_0000u128) by (bit_vector);
    assert(x >> 64u128 == x / 0x1_0000_0000_0000_0000u128) by (bit_vector);
}

proof fn lemma_join64(x: u128, y: u128)
    ensures
        (x & 0xffff_ffff_ffff_ffffu128) | ((y & 0xffff_ffff_ffff_ffffu128) << 64u128) == x
            % 0x1_0000_0000_0000_0000u128 + (y % 0x1_0000_0000_0000_0000u128)
            * 0x1_0000_0000_0000_0000u128,
{
    assert((x & 0xffff_ffff_ffff_ffffu128) | ((y & 0xffff_ffff_ffff_ffffu128) << 64u128) == x
        % 0x1_0000_0000_0000_0000u128 + (y % 0x1_0000_0000_0000_0000u128)
        * 0x1_0000_0000_0000_0000u128) by (bit_vector);
}

proof fn lemma_wide_split(a: u128, b: u128, hi: u128, lo: u128)
    requires
        wide_value(hi, lo) == a as int * b as int,
    ensures
        (hi, lo) == wide_product(a, b),
{
    let p = a as int * b as int;
    lemma_fundamental_div_mod_converse(p, pow128(), hi as int, lo as int);
}

/// Full 256-bit product of two 128-bit values, as `(hi, lo)`.
pub fn wide_mul(a: u128, b: u128) -> (r: (u128, u128))
    ensures
        wide_value(r.0, r.1) == a as int * b as int,
        r == wide_product(a, b),
{
    let mask: u128 = u64::MAX as u128;
    let a_lo = a & mask;
    let a_hi = a >> 64;
    let b_lo = b & mask;
    let b_hi = b >> 64;
    let ghost m: int = pow64();
    proof {
        lemma_split64(a);
        lemma_split64(b);
        assert(a_lo < m && a_hi < m && b_lo < m && b_hi < m);
        assert(0xffff_ffff_ffff_ffffint * 0xffff_ffff_ffff_ffffint <= u128::MAX);
        lemma_mul_upper_bound(a_lo as int, m - 1, b_lo as int, m - 1);
        lemma_mul_upper_bound(a_lo as int, m - 1, b_hi as int, m - 1);
        lemma_mul_upper_bound(a_hi as int, m - 1, b_lo as int, m - 1);
        lemma_mul_upper_bound(a_hi as int, m - 1, b_hi as int, m - 1);
    }
    let ll = a_lo * b_lo;
    let lh = a_lo * b_hi;
    let hl = a_hi * b_lo;
    let hh = a_hi * b_hi;
    proof {
        lemma_split64(ll);
        lemma_split64(lh);
        lemma_split64(hl);
    }
    let mid = (ll >> 64) + (lh & mask) + (hl & mask);
    let lo = (ll & mask) | ((mid & mask) << 64);
    proof {
        lemma_split64(mid);
        lemma_join64(ll, mid);
        let ai = a as int;
        let bi = b as int;
        lemma_fundamental_div_mod(ai, m);
        lemma_fundamental_div_mod(bi, m);
        lemma_fundamental_div_mod(ll as int, m);
        lemma_fundamental_div_mod(lh as int, m);
        lemma_fundamental_div_mod(hl as int, m);
        lemma_fundamental_div_mod(mid as int, m);
        let q0 = ll as int / m;
        let r0 = ll as int % m;
        let q1 = lh as int / m;
        let r1 = lh as int % m;
        let q2 = hl as int / m;
        let r2 = hl as int % m;
        let qm = mid as int / m;
        let rm = mid as int % m;
        let mm = m * m;
        let h = hh as int + q1 + q2 + qm;
        assert(mm == pow128());
        assert(ai * bi == hh as int * mm + lh as int * m + hl as int * m + ll as int)
            by (nonlinear_arith)
            requires
                ai == m * (a_hi as int) + a_lo as int,
                bi == m * (b_hi as int) + b_lo as int,
                ll as int == a_lo as int * b_lo as int,
                lh as int == a_lo as int * b_hi as int,
                hl as int == a_hi as int * b_lo as int,
                hh as int == a_hi as int * b_hi as int,
                mm == m * m,
        ;
        assert(lh as int * m == q1 * mm + r1 * m) by (nonlinear_arith)
            requires
                lh as int == m * q1 + r1,
                mm == m * m,
        ;
        assert(hl as int * m == q2 * mm + r2 * m) by (nonlinear_arith)
            requires
                hl as int == m * q2 + r2,
                mm == m * m,
        ;
        assert(mid as int * m == qm * mm + rm * m) by (nonlinear_arith)
            requires
                mid as int == m * qm + rm,
                mm == m * m,
        ;
        assert(mid as int * m == q0 * m + r1 * m + r2 * m) by (nonlinear_arith)
            requires
                mid as int == q0 + r1 + r2,
        ;
        assert(h * mm == hh as int * mm + q1 * mm + q2 * mm + qm * mm) by (nonlinear_arith)
            requires
                h == hh as int + q1 + q2 + qm,
        ;
        assert(ll as int == m * q0 + r0);
        assert(m * q0 == q0 * m) by (nonlinear_arith);
        assert(ai * bi == h * pow128() + rm * m + r0);
        assert(lo as int == rm * m + r0);
        assert(ai * bi <= u128::MAX as int * u128::MAX as int) by (nonlinear_arith)
            requires
                0 <= ai <= u128::MAX,
                0 <= bi <= u128::MAX,
        ;
        assert(h <= u128::MAX) by (nonlinear_arith)
            requires
                ai * bi == h * pow128() + lo as int,
                lo >= 0,
                ai * bi <= u128::MAX as int * u128::MAX as int,
                pow128() == u128::MAX as int + 1,
        ;
    }
    let hi = hh + (lh >> 64) + (hl >> 64) + (mid >> 64);
    proof {
        lemma_wide_split(a, b, hi, lo);
    }
    (hi, lo)
}

proof fn lemma_wide_lt(h1: u128, l1: u128, h2: u128, l2: u128)
    ensures
        wide_value(h1, l1) < wide_value(h2, l2) <==> (h1 < h2 || (h1 == h2 && l1 < l2)),
{
    let p = pow128();
    if h1 < h2 {
        assert(h1 as int * p + p <= h2 as int * p) by (nonlinear_arith)
            requires
                h1 < h2,
                p > 0,
        ;
    } else if h1 > h2 {
        assert(h2 as int * p + p <= h1 as int * p) by (nonlinear_arith)
            requires
                h2 < h1,
                p > 0,
        ;
    }
}

/// Compares `a * b` with `c * d` exactly, as 256-bit values.
pub fn mul_cmp(a: u128, b: u128, c: u128, d: u128) -> (r: core::cmp::Ordering)
    ensures
        r == cmp_int(a as int * b as int, c as int * d as int),
{
    let (hi_ab, lo_ab) = wide_mul(a, b);
    let (hi_cd, lo_cd) = wide_mul(c, d);
    proof {
        lemma_wide_lt(hi_ab, lo_ab, hi_cd, lo_cd);
        lemma_wide_lt(hi_cd, lo_cd, hi_ab, lo_ab);
    }
    if hi_ab < hi_cd {
        core::cmp::Ordering::Less
    } else if hi_ab > hi_cd {
        core::cmp::Ordering::Greater
    } else if lo_ab < lo_cd {
        core::cmp::Ordering::Less
    } else if lo_ab > lo_cd {
        core::cmp::Ordering::Greater
    } else {
        core::cmp::Ordering::Equal
    }
}

/// Square root of `a * b`; falls back to `sqrt(a) * sqrt(b)` (saturating) when
/// the product does not fit in 128 bits.
pub fn sqrt_product(a: u128, b: u128) -> (r: u128)
    ensures
        r as int == sqrt_product_spec(a as int, b as int),
{
    match a.checked_mul(b) {
        Some(product) => sqrt(product),
        None => {
            let sa = sqrt(a);
            let sb = sqrt(b);
            match sa.checked_mul(sb) {
                Some(v) => v,
                None => u128::MAX,
            }
        },
    }
}

/// Quotient of the 256-bit value `(hi, lo)` by `d`, capped at `u128::MAX`.
fn wide_div(hi: u128, lo: u128, d: u128) -> (r: u128)
    requires
        d > 0,
    ensures
        r as int == (if wide_value(hi, lo) / (d as int) > u128::MAX {
            u128::MAX as int
        } else {
            wide_value(hi, lo) / (d as int)
        }),
{
    let ghost n: int = wide_value(hi, lo);
    let ghost q: int = if n / (d as int) > u128::MAX {
        u128::MAX as int
    } else {
        n / (d as int)
    };
    if hi == 0 {
        proof {
            assert(hi as int * pow128() == 0) by (nonlinear_arith)
                requires
                    hi == 0,
            ;
            lemma_div_is_ordered_by_denominator(lo as int, 1, d as int);
        }
        return lo / d;
    }
    proof {
        lemma_div_pos_is_pos(n, d as int);
    }
    let mut low: u128 = 0;
    let mut high: u128 = u128::MAX;
    while low < high
        invariant
            d > 0,
            n == wide_value(hi, lo),
            0 <= q <= u128::MAX,
            q == (if n / (d as int) > u128::MAX {
                u128::MAX as int
            } else {
                n / (d as int)
            }),
            low <= q <= high,
        decreases high - low,
    {
        let diff = high - low;
        let mid = low + diff / 2 + diff % 2;
        let (mh, ml) = wide_mul(mid, d);
        proof {
            lemma_wide_lt(hi, lo, mh, ml);
            lemma_fundamental_div_mod(n, d as int);
            lemma_mod_bound(n, d as int);
        }
        if mh > hi || (mh == hi && ml > lo) {
            proof {
                // mid * d > n, so mid > n / d >= q
                assert(mid as int > q) by (nonlinear_arith)
                    requires
                        mid as int * d as int > n,
                        n == d as int * (n / (d as int)) + n % (d as int),
                        n % (d as int) >= 0,
                        q <= n / (d as int),
                        d > 0,
                ;
            }
            high = mid - 1;
        } else {
            proof {
                // mid * d <= n, so mid <= n / d, and mid <= u128::MAX
                assert(mid as int <= n / (d as int)) by (nonlinear_arith)
                    requires
                        mid as int * d as int <= n,
                        n == d as int * (n / (d as int)) + n % (d as int),
                        n % (d as int) < d,
                        d > 0,
                ;
            }
            low = mid;
        }
    }
    low
}

/// `floor(a * b / c)` with a 256-bit intermediate, capped at `u128::MAX`.
pub fn mul_div(a: u128, b: u128, c: u128) -> (r: u128)
    requires
        c > 0,
    ensures
        r as int == mul_div_spec(a as int, b as int, c as int),
{
    match a.checked_mul(b) {
        Some(product) => {
            proof {
                lemma_div_is_ordered_by_denominator(product as int, 1, c as int);
            }
            product / c
        },
        None => {
            let (hi, lo) = wide_mul(a, b);
            wide_div(hi, lo, c)
        },
    }
}

/// The 256-bit product is the same in either order.
pub proof fn lemma_wide_mul_commutative(a: u128, b: u128)
    ensures
        wide_product(a, b) == wide_product(b, a),
{
    lemma_mul_is_commutative(a as int, b as int);
}

/// Round trips of `mul_div`: `a * c / c == a`, `a * 1 / 1 == a`, and `0 * b / c == 0`.
pub proof fn lemma_mul_div_round_trip(a: u128, b: u128, c: u128)
    requires
        a < 0x8000_0000_0000_0000_0000_0000_0000_0000u128,
        b < 0x1_0000_0000_0000_0000u128,
        0 < c < 0x1_0000_0000_0000_0000u128,
    ensures
        mul_div_spec(a as int, c as int, c as int) == a,
        mul_div_spec(a as int, 1, 1) == a,
        mul_div_spec(0, b as int, c as int) == 0,
{
    lemma_div_multiples_vanish(a as int, c as int);
    lemma_mul_is_commutative(a as int, c as int);
    assert(0 * b as int == 0);
}

} // verus!
