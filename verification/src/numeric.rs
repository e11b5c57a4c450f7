//! Integer square roots, and quotients by square roots.
//!
//! A number is divided by the square root of another without rounding the
//! root first: the quotient is the largest `g` whose square times the second
//! number does not exceed the square of the first. The products are wider
//! than 128 bits, so they are held in three limbs of 64 bits.

use vstd::prelude::*;

verus! {

/// The largest natural number whose square does not exceed `n`.
pub open spec fn sqrt_floor(n: nat) -> nat
    decreases n,
{
    if n == 0 {
        0
    } else {
        let r = sqrt_floor((n - 1) as nat);
        if (r + 1) * (r + 1) <= n {
            r + 1
        } else {
            r
        }
    }
}

/// `sqrt_floor(n)` squared does not exceed `n`, and the next square does.
pub proof fn lemma_sqrt_floor_bounds(n: nat)
    ensures
        sqrt_floor(n) * sqrt_floor(n) <= n,
        n < (sqrt_floor(n) + 1) * (sqrt_floor(n) + 1),
    decreases n,
{
    let s = sqrt_floor(n);
    if n > 0 {
        let r = sqrt_floor((n - 1) as nat);
        lemma_sqrt_floor_bounds((n - 1) as nat);
        if (r + 1) * (r + 1) <= n {
            assert(s == r + 1);
            assert(n < (s + 1) * (s + 1)) by (nonlinear_arith)
                requires
                    n - 1 < (r + 1) * (r + 1),
                    s == r + 1,
            ;
        } else {
            assert(s == r);
        }
    } else {
        assert(s == 0);
        assert(s * s == 0 && (s + 1) * (s + 1) == 1) by (nonlinear_arith)
            requires
                s == 0,
        ;
    }
}

/// Only one number lies between the bounds that `sqrt_floor` meets.
pub proof fn lemma_sqrt_floor_unique(n: nat, r: nat)
    requires
        r * r <= n,
        n < (r + 1) * (r + 1),
    ensures
        r == sqrt_floor(n),
{
    let s = sqrt_floor(n);
    lemma_sqrt_floor_bounds(n);
    if r < s {
        assert((r + 1) * (r + 1) <= s * s) by (nonlinear_arith)
            requires
                r + 1 <= s,
        ;
    } else if s < r {
        assert((s + 1) * (s + 1) <= r * r) by (nonlinear_arith)
            requires
                s + 1 <= r,
        ;
    }
}

/// Computes the integer square root of `n`.
pub fn isqrt(n: u64) -> (r: u64)
    ensures
        r == sqrt_floor(n as nat),
{
    let mut lo: u64 = 0;
    let mut hi: u64 = 0x1_0000_0000;
    assert(lo * lo <= n);
    assert(n < hi * hi) by (nonlinear_arith)
        requires
            hi == 0x1_0000_0000,
            n <= 0xFFFF_FFFF_FFFF_FFFF,
    ;
    while hi - lo > 1
        invariant
            lo < hi <= 0x1_0000_0000,
            lo * lo <= n,
            n < hi * hi,
        decreases hi - lo,
    {
        let mid: u64 = lo + (hi - lo) / 2;
        assert(mid * mid <= 0xFFFF_FFFE_0000_0001) by (nonlinear_arith)
            requires
                mid <= 0xFFFF_FFFF,
        ;
        if mid * mid <= n {
            lo = mid;
        } else {
            hi = mid;
        }
    }
    proof {
        assert(hi == lo + 1);
        lemma_sqrt_floor_unique(n as nat, lo as nat);
    }
    lo
}

/// Two to the power of 64: the base of the limbs.
pub const LIMB: u128 = 0x1_0000_0000_0000_0000;

/// The largest number that can be divided by a square root: two to the
/// power of 88.
pub const MAX_DIVIDEND: u128 = 0x100_0000_0000_0000_0000_0000;

/// The largest number whose square root can be divided by: two to the power
/// of 59, less one.
pub const MAX_RADICAND: u64 = 0x7FF_FFFF_FFFF_FFFF;

/// The square of `g`, times `s`.
pub open spec fn square_times(g: int, s: int) -> int {
    g * g * s
}

/// `n` divided by the square root of `s`, rounded down.
pub open spec fn root_quotient(n: nat, s: nat) -> nat {
    sqrt_floor((n * n) / s)
}

/// The number that three limbs stand for.
pub open spec fn limbs_value(top: int, mid: int, low: int) -> int {
    top * 0x1_0000_0000_0000_0000_0000_0000_0000_0000int + mid * 0x1_0000_0000_0000_0000int + low
}

/// The quotient by a square root is exact to one unit: its square times `s`
/// does not exceed the square of `n`, and that of the next number does. It
/// is no larger than `n`.
pub proof fn lemma_root_quotient_bounds(n: nat, s: nat)
    requires
        s > 0,
    ensures
        square_times(root_quotient(n, s) as int, s as int) <= n * n,
        n * n < square_times(root_quotient(n, s) as int + 1, s as int),
        root_quotient(n, s) <= n,
{
    let m = n * n;
    let q = m / s;
    let g = sqrt_floor(q);
    lemma_sqrt_floor_bounds(q);
    vstd::arithmetic::div_mod::lemma_fundamental_div_mod(m as int, s as int);
    vstd::arithmetic::div_mod::lemma_mod_pos_bound(m as int, s as int);
    let gg = g * g;
    let hh = (g + 1) * (g + 1);
    assert(gg * s <= m) by (nonlinear_arith)
        requires
            gg <= q,
            m == s * q + m % s,
            0 <= m % s,
            s > 0,
    ;
    assert(m < hh * s) by (nonlinear_arith)
        requires
            q + 1 <= hh,
            m == s * q + m % s,
            m % s < s,
            s > 0,
    ;
    assert(g <= n) by (nonlinear_arith)
        requires
            g * g * s <= n * n,
            s >= 1,
            g >= 0,
            n >= 0,
    ;
}

/// Only one number lies between the bounds that the quotient by a square
/// root meets.
pub proof fn lemma_root_quotient_unique(n: nat, s: nat, g: nat)
    requires
        s > 0,
        square_times(g as int, s as int) <= n * n,
        n * n < square_times(g as int + 1, s as int),
    ensures
        g == root_quotient(n, s),
{
    let m = n * n;
    let q = m / s;
    vstd::arithmetic::div_mod::lemma_fundamental_div_mod(m as int, s as int);
    vstd::arithmetic::div_mod::lemma_mod_pos_bound(m as int, s as int);
    let gg = g * g;
    let hh = (g + 1) * (g + 1);
    assert(gg <= q) by (nonlinear_arith)
        requires
            gg * s <= m,
            m == s * q + m % s,
            m % s < s,
            s > 0,
    ;
    assert(q < hh) by (nonlinear_arith)
        requires
            m < hh * s,
            m == s * q + m % s,
            0 <= m % s,
            s > 0,
    ;
    lemma_sqrt_floor_unique(q, g);
}

/// The square of a number of two limbs, limb by limb.
proof fn lemma_square_limbs(g1: int, g0: int, b: int, bb: int)
    by (nonlinear_arith)
    requires
        bb == b * b,
    ensures
        (g1 * b + g0) * (g1 * b + g0) == (g1 * g1) * bb + (2 * g1 * g0) * b + g0 * g0,
{
}

/// A number of three limbs times a factor, limb by limb.
proof fn lemma_scale_limbs(a2: int, a1: int, a0: int, s: int, b: int, bb: int)
    by (nonlinear_arith)
    ensures
        (a2 * bb + a1 * b + a0) * s == (a2 * s) * bb + (a1 * s) * b + a0 * s,
{
}

/// Brings three limbs into their normal form, in which the two lower limbs
/// are below the base.
fn carry(x2: u128, x1: u128, x0: u128) -> (r: (u128, u128, u128))
    requires
        x2 <= 0x4000_0000_0000_0000_0000_0000_0000_0000,
        x1 <= 0x4000_0000_0000_0000_0000_0000_0000_0000,
    ensures
        limbs_value(r.0 as int, r.1 as int, r.2 as int) == limbs_value(
            x2 as int,
            x1 as int,
            x0 as int,
        ),
        r.1 < LIMB,
        r.2 < LIMB,
        r.0 == x2 + (x1 + x0 / LIMB) / (LIMB as int),
{
    let low: u128 = x0 % LIMB;
    let with_carry: u128 = x1 + x0 / LIMB;
    let mid: u128 = with_carry % LIMB;
    let top: u128 = x2 + with_carry / LIMB;
    (top, mid, low)
}

/// The square of `g` times `s`, in three limbs in normal form.
fn scaled_square(g: u128, s: u64) -> (r: (u128, u128, u128))
    requires
        g <= MAX_DIVIDEND,
        s <= MAX_RADICAND,
    ensures
        limbs_value(r.0 as int, r.1 as int, r.2 as int) == square_times(g as int, s as int),
        r.1 < LIMB,
        r.2 < LIMB,
{
    let g1: u128 = g / LIMB;
    let g0: u128 = g % LIMB;
    assert(g1 * g1 <= 0x1_0000_0000_0000) by (nonlinear_arith)
        requires
            g1 <= 0x100_0000,
    ;
    assert(2 * g1 * g0 <= 0x200_0000_0000_0000_0000_0000) by (nonlinear_arith)
        requires
            g1 <= 0x100_0000,
            g0 < 0x1_0000_0000_0000_0000,
    ;
    assert(g0 * g0 <= 0xFFFF_FFFF_FFFF_FFFE_0000_0000_0000_0001) by (nonlinear_arith)
        requires
            g0 <= 0xFFFF_FFFF_FFFF_FFFF,
    ;
    let square = carry(g1 * g1, 2 * g1 * g0, g0 * g0);
    proof {
        lemma_square_limbs(
            g1 as int,
            g0 as int,
            0x1_0000_0000_0000_0000int,
            0x1_0000_0000_0000_0000_0000_0000_0000_0000int,
        );
        assert(g == g1 * 0x1_0000_0000_0000_0000int + g0);
        assert(limbs_value(square.0 as int, square.1 as int, square.2 as int) == g * g);
    }
    let f: u128 = s as u128;
    assert(square.0 * f <= 0x1000_0000_0000_0000_0000_0000_0000) by (nonlinear_arith)
        requires
            square.0 <= 0x2_0000_0000_0000,
            f <= 0x7FF_FFFF_FFFF_FFFF,
    ;
    assert(square.1 * f <= 0x800_0000_0000_0000_0000_0000_0000_0000) by (nonlinear_arith)
        requires
            square.1 < 0x1_0000_0000_0000_0000,
            f <= 0x7FF_FFFF_FFFF_FFFF,
    ;
    assert(square.2 * f <= 0x800_0000_0000_0000_0000_0000_0000_0000) by (nonlinear_arith)
        requires
            square.2 < 0x1_0000_0000_0000_0000,
            f <= 0x7FF_FFFF_FFFF_FFFF,
    ;
    proof {
        lemma_scale_limbs(
            square.0 as int,
            square.1 as int,
            square.2 as int,
            s as int,
            0x1_0000_0000_0000_0000int,
            0x1_0000_0000_0000_0000_0000_0000_0000_0000int,
        );
    }
    carry(square.0 * f, square.1 * f, square.2 * f)
}

/// Tells whether the square of `g` times `s` is at most the square of `n`.
pub fn square_times_at_most(g: u128, s: u64, n: u128) -> (r: bool)
    requires
        g <= MAX_DIVIDEND,
        n <= MAX_DIVIDEND,
        s <= MAX_RADICAND,
    ensures
        r == (square_times(g as int, s as int) <= n * n),
{
    let left = scaled_square(g, s);
    let right = scaled_square(n, 1);
    assert(square_times(n as int, 1) == n * n) by (nonlinear_arith);
    if left.0 != right.0 {
        left.0 < right.0
    } else if left.1 != right.1 {
        left.1 < right.1
    } else {
        left.2 <= right.2
    }
}

/// Divides `n` by the square root of `s` and rounds down.
///
/// The root of `s`, rounded down, and the next number give a first lower and
/// upper bound; the quotient is then found between them by bisection.
pub fn divide_by_root(n: u128, s: u64) -> (g: u128)
    requires
        n < MAX_DIVIDEND,
        1 <= s <= MAX_RADICAND,
    ensures
        g == root_quotient(n as nat, s as nat),
        g <= n,
{
    let root: u64 = isqrt(s);
    proof {
        lemma_sqrt_floor_bounds(s as nat);
        if root == 0 {
            assert((root + 1) * (root + 1) == 1) by (nonlinear_arith)
                requires
                    root == 0,
            ;
        }
        if root >= 0x1_0000_0000 {
            assert(root * root > 0xFFFF_FFFF_FFFF_FFFF) by (nonlinear_arith)
                requires
                    root >= 0x1_0000_0000,
            ;
        }
    }
    let below: u128 = root as u128;
    let above: u128 = below + 1;
    let mut lo: u128 = n / above;
    let mut hi: u128 = n / below + 1;
    proof {
        let nn = n as int;
        let ss = s as int;
        let l = lo as int;
        let h = hi as int;
        let a = above as int;
        let b = below as int;
        vstd::arithmetic::div_mod::lemma_fundamental_div_mod(nn, a);
        vstd::arithmetic::div_mod::lemma_mod_pos_bound(nn, a);
        vstd::arithmetic::div_mod::lemma_fundamental_div_mod(nn, b);
        vstd::arithmetic::div_mod::lemma_mod_pos_bound(nn, b);
        assert(l * a <= nn) by (nonlinear_arith)
            requires
                nn == a * l + nn % a,
                0 <= nn % a,
        ;
        assert(h * b > nn) by (nonlinear_arith)
            requires
                nn == b * (h - 1) + nn % b,
                nn % b < b,
        ;
        assert(square_times(l, ss) <= nn * nn) by (nonlinear_arith)
            requires
                0 <= l,
                0 < a,
                0 <= ss <= a * a,
                l * a <= nn,
        {
            assert(l * l * ss <= l * l * (a * a));
            assert(l * l * (a * a) == (l * a) * (l * a));
            assert((l * a) * (l * a) <= nn * nn);
        }
        assert(nn * nn < square_times(h, ss)) by (nonlinear_arith)
            requires
                0 < h,
                0 < b,
                b * b <= ss,
                h * b > nn,
                0 <= nn,
        {
            assert(h * h * (b * b) <= h * h * ss);
            assert(h * h * (b * b) == (h * b) * (h * b));
            assert(nn * nn < (h * b) * (h * b));
        }
        assert(l <= nn && h <= nn + 1) by (nonlinear_arith)
            requires
                l * a <= nn,
                a >= 1,
                l >= 0,
                nn == b * (h - 1) + nn % b,
                0 <= nn % b,
                b >= 1,
                h >= 1,
        ;
        if l >= h {
            assert(square_times(h, ss) <= square_times(l, ss)) by (nonlinear_arith)
                requires
                    0 < h <= l,
                    0 <= ss,
            ;
        }
    }
    while hi - lo > 1
        invariant
            n < MAX_DIVIDEND,
            1 <= s <= MAX_RADICAND,
            lo < hi <= n + 1,
            square_times(lo as int, s as int) <= n * n,
            n * n < square_times(hi as int, s as int),
        decreases hi - lo,
    {
        let mid: u128 = lo + (hi - lo) / 2;
        if square_times_at_most(mid, s, n) {
            lo = mid;
        } else {
            hi = mid;
        }
    }
    proof {
        assert(hi == lo + 1);
        lemma_root_quotient_unique(n as nat, s as nat, lo as nat);
    }
    lo
}

} // verus!
