//! Fixed-point scalars: a raw `i128` value `x` stands for the number `x / ONE`.
use vstd::arithmetic::div_mod::{lemma_fundamental_div_mod, lemma_mod_bound};
use vstd::prelude::*;

verus! {

/// The raw value of the number one.
pub const ONE: i128 = 4294967296;

/// The raw value of one squared: the scale of a product of two raw values.
pub const ONE_SQ: i128 = 18446744073709551616;

/// Integer quotient of `x` by a positive `d`, rounded toward zero.
pub open spec fn trunc_div(x: int, d: int) -> int {
    if x >= 0 {
        x / d
    } else {
        -((-x) / d)
    }
}

/// Fixed-point product of two raw values, rounded toward zero.
pub open spec fn fmul(a: int, b: int) -> int {
    trunc_div(a * b, ONE as int)
}

/// `r` is the integer square root of `n`, rounded down.
pub open spec fn is_floor_sqrt(r: int, n: int) -> bool {
    0 <= r && r * r <= n && n < (r + 1) * (r + 1)
}

/// The integer square root of `n`, rounded down (for `n >= 0`).
pub open spec fn floor_sqrt(n: int) -> int {
    choose|r: int| is_floor_sqrt(r, n)
}

/// `x` lies in `[-b, b]`.
pub open spec fn within(x: int, b: int) -> bool {
    -b <= x && x <= b
}

pub proof fn lemma_mul_within(a: int, b: int, ba: int, bb: int)
    requires
        within(a, ba),
        within(b, bb),
    ensures
        within(a * b, ba * bb),
{
    assert(within(a * b, ba * bb)) by (nonlinear_arith)
        requires
            within(a, ba),
            within(b, bb),
    ;
}

pub proof fn lemma_scale_down_within(p: int, bp: int)
    requires
        within(p, bp),
        bp >= 0,
    ensures
        within(trunc_div(p, ONE as int), bp / (ONE as int)),
{
}

pub proof fn lemma_trunc_div_within(p: int, d: int, b: int)
    requires
        d > 0,
        b >= 0,
        within(p, b * d),
    ensures
        within(trunc_div(p, d), b),
{
    lemma_div_within(if p >= 0 { p } else { -p }, d, b);
}

/// The rounding error of a fixed-point product is less than one raw unit,
/// and rounding toward zero never increases the magnitude.
pub proof fn lemma_fmul_error(x: int, y: int)
    ensures
        within(fmul(x, y) * (ONE as int) - x * y, ONE as int - 1),
        x * y >= 0 ==> 0 <= fmul(x, y) * (ONE as int) <= x * y,
        x * y <= 0 ==> x * y <= fmul(x, y) * (ONE as int) <= 0,
{
    let p = x * y;
    let one = ONE as int;
    if p >= 0 {
        lemma_fundamental_div_mod(p, one);
        lemma_mod_bound(p, one);
    } else {
        lemma_fundamental_div_mod(-p, one);
        lemma_mod_bound(-p, one);
    }
}

/// Rounding toward zero makes the fixed-point product odd in each argument.
pub proof fn lemma_fmul_odd(a: int, b: int)
    ensures
        fmul(-a, b) == -fmul(a, b),
        fmul(a, -b) == -fmul(a, b),
        fmul(-a, -b) == fmul(a, b),
{
    assert((-a) * b == -(a * b) && a * (-b) == -(a * b) && (-a) * (-b) == a * b) by (nonlinear_arith);
}

pub proof fn lemma_fmul_within(a: int, b: int, ba: int, bb: int)
    requires
        within(a, ba),
        within(b, bb),
    ensures
        within(fmul(a, b), (ba * bb) / (ONE as int)),
        within(fmul(a, b), (ba * bb) / (ONE as int) + 1),
{
    lemma_mul_within(a, b, ba, bb);
    assert(ba * bb >= 0) by (nonlinear_arith)
        requires
            within(a, ba),
            within(b, bb),
    ;
    lemma_scale_down_within(a * b, ba * bb);
}

pub proof fn lemma_div_within(x: int, s: int, b: int)
    requires
        s > 0,
        b >= 0,
        within(x, b * s),
    ensures
        within(x / s, b),
{
    assert(within(x / s, b)) by (nonlinear_arith)
        requires
            s > 0,
            b >= 0,
            -(b * s) <= x <= b * s,
    {
        let q = x / s;
        assert(x == s * q + x % s);
        assert(0 <= x % s < s);
    }
}

/// A witness of the existence of the integer square root.
pub proof fn floor_sqrt_witness(n: int) -> (r: int)
    requires
        0 <= n,
    ensures
        is_floor_sqrt(r, n),
    decreases n,
{
    if n == 0 {
        0
    } else {
        let s = floor_sqrt_witness(n - 1);
        if (s + 1) * (s + 1) <= n {
            assert(is_floor_sqrt(s + 1, n)) by (nonlinear_arith)
                requires
                    n - 1 < (s + 1) * (s + 1),
                    (s + 1) * (s + 1) <= n,
                    0 <= s,
            ;
            s + 1
        } else {
            assert(is_floor_sqrt(s, n)) by (nonlinear_arith)
                requires
                    s * s <= n - 1,
                    n < (s + 1) * (s + 1),
                    0 <= s,
            ;
            s
        }
    }
}

/// The integer square root is unique.
pub proof fn lemma_floor_sqrt_unique(r: int, n: int)
    requires
        is_floor_sqrt(r, n),
    ensures
        floor_sqrt(n) == r,
{
    assert(is_floor_sqrt(r, n));
    let s = floor_sqrt(n);
    assert(is_floor_sqrt(s, n));
    if s < r {
        assert((s + 1) * (s + 1) <= r * r) by (nonlinear_arith)
            requires
                0 <= s < r,
        ;
    } else if s > r {
        assert((r + 1) * (r + 1) <= s * s) by (nonlinear_arith)
            requires
                0 <= r < s,
        ;
    }
}

/// Fixed-point product of two raw values, rounded toward zero.
pub fn product(a: i128, b: i128) -> (r: i128)
    requires
        i128::MIN <= a * b <= i128::MAX,
    ensures
        r == fmul(a as int, b as int),
{
    let p = a * b;
    p / ONE
}

/// Integer quotient rounded toward negative infinity, for a positive divisor.
pub fn div_floor(a: i128, b: i128) -> (r: i128)
    requires
        b > 0,
    ensures
        r == a as int / b as int,
{
    proof {
        let q = (a as int) / (b as int);
        lemma_fundamental_div_mod(a as int, b as int);
        lemma_mod_bound(a as int, b as int);
        if a >= 0 {
            assert(0 <= q <= a) by (nonlinear_arith)
                requires
                    b > 0,
                    a >= 0,
                    a == b * q + (a as int) % (b as int),
                    0 <= (a as int) % (b as int) < b,
            ;
        } else {
            assert(a <= q < 0) by (nonlinear_arith)
                requires
                    b > 0,
                    a < 0,
                    a == b * q + (a as int) % (b as int),
                    0 <= (a as int) % (b as int) < b,
            ;
        }
    }
    match a.checked_div_euclid(b) {
        Some(v) => v,
        None => 0,
    }
}

/// Integer square root, rounded down.
pub fn isqrt(n: i128) -> (r: i128)
    requires
        0 <= n <= ONE_SQ * ONE_SQ / 4,
    ensures
        is_floor_sqrt(r as int, n as int),
        r as int == floor_sqrt(n as int),
        r <= ONE_SQ / 2,
{
    let mut lo: i128 = 0;
    let mut hi: i128 = ONE_SQ / 2 + 1;
    assert(n < hi * hi) by (nonlinear_arith)
        requires
            n <= ONE_SQ * ONE_SQ / 4,
            hi == ONE_SQ / 2 + 1,
    ;
    while lo + 1 < hi
        invariant
            0 <= lo < hi <= ONE_SQ / 2 + 1,
            lo * lo <= n,
            n < hi * hi,
        decreases hi - lo,
    {
        let mid = lo + (hi - lo) / 2;
        assert(mid * mid <= 85070591730234615884290395931651604481) by (nonlinear_arith)
            requires
                0 <= mid <= 9223372036854775809int,
        ;
        if mid * mid <= n {
            lo = mid;
        } else {
            hi = mid;
        }
    }
    proof {
        lemma_floor_sqrt_unique(lo as int, n as int);
    }
    lo
}

} // verus!
