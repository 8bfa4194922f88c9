//! Lorentz factors, mass, acceleration boosts and length contraction.
use vstd::arithmetic::div_mod::{lemma_fundamental_div_mod, lemma_mod_bound};
use vstd::prelude::*;
use crate::fixed::{lemma_fmul_error, lemma_trunc_div_within, trunc_div, lemma_fmul_odd, floor_sqrt_witness, lemma_div_within, lemma_floor_sqrt_unique, div_floor, fmul, floor_sqrt, is_floor_sqrt, isqrt, lemma_fmul_within, lemma_mul_within, product, within, ONE, ONE_SQ};
use crate::vector::{neg_vec, raw_dot, to_vec, vec_within, Vec2};

verus! {

/// Largest magnitude of a force component (raw).
pub const FORCE_MAX: i128 = 281474976710656;

/// Inverse masses carry 64 fractional bits: a raw inverse mass `i` stands for
/// `i / INV_ONE`.
pub const INV_ONE: i128 = 18446744073709551616;

/// A raw mass times its raw inverse: one, at 32 and 64 fractional bits.
pub const MASS_INV_PRODUCT: i128 = 79228162514264337593543950336;

/// Smallest positive mass (raw): `1/256`.
pub const MASS_MIN: i128 = 16777216;

/// Largest mass (raw): `2^40`.
pub const MASS_MAX: i128 = 4722366482869645213696;

/// Smallest positive inverse mass (raw): `2^-40`, the inverse of `MASS_MAX`.
pub const INV_MASS_MIN: i128 = 16777216;

/// Largest inverse mass (raw): `256`, the inverse of `MASS_MIN`.
pub const INV_MASS_MAX: i128 = 4722366482869645213696;

/// Bound on the acceleration (raw) that a force in range gives a body in range.
pub const OWN_ACCEL_MAX: i128 = 4611686018427387904;

/// Largest magnitude of an acceleration component (raw) that `boost` accepts.
pub const ACC_MAX: i128 = 309485009821345068724781056;

/// Bound on the components of a boosted acceleration (raw).
pub const BOOSTED_MAX: i128 = 1237940039285380274899124224;

/// Largest magnitude of a position component (raw).
pub const POS_MAX: i128 = 1152921504606846976;

/// Squared speed, in raw units squared.
pub open spec fn speed_sq(v: Vec2) -> int {
    raw_dot(v, v)
}

/// The speed is strictly below the speed of light.
pub open spec fn subluminal(v: Vec2) -> bool {
    speed_sq(v) < ONE_SQ as int
}

/// The inverse Lorentz factor `sqrt(1 - |v|^2)` (raw, rounded down).
pub open spec fn inv_lorentz(v: Vec2) -> int {
    floor_sqrt(ONE_SQ as int - speed_sq(v))
}

/// The Lorentz factor `1 / sqrt(1 - |v|^2)` (raw, rounded down).
pub open spec fn lorentz(v: Vec2) -> int {
    (ONE_SQ as int) / inv_lorentz(v)
}

pub proof fn lemma_subluminal_components(v: Vec2)
    requires
        subluminal(v),
    ensures
        within(v.x as int, ONE as int - 1),
        within(v.y as int, ONE as int - 1),
{
    assert(within(v.x as int, ONE as int - 1)) by (nonlinear_arith)
        requires
            v.x * v.x + v.y * v.y < 18446744073709551616int,
    ;
    assert(within(v.y as int, ONE as int - 1)) by (nonlinear_arith)
        requires
            v.x * v.x + v.y * v.y < 18446744073709551616int,
    ;
}

pub proof fn lemma_inv_lorentz_range(v: Vec2)
    requires
        subluminal(v),
    ensures
        1 <= inv_lorentz(v) <= ONE as int,
{
    let n = ONE_SQ as int - speed_sq(v);
    assert(speed_sq(v) >= 0) by (nonlinear_arith);
    let r = inv_lorentz(v);
    assert(exists|s: int| is_floor_sqrt(s, n)) by {
        let s = floor_sqrt_witness(n);
    }
    assert(is_floor_sqrt(r, n));
    assert(r <= ONE as int) by (nonlinear_arith)
        requires
            0 <= r,
            r * r <= n,
            n <= 18446744073709551616int,
    ;
}

/// Inverse of the Lorentz factor, `sqrt(1 - |v|^2)`.
pub fn igamma(v: &Vec2) -> (r: i128)
    requires
        subluminal(*v),
    ensures
        r == inv_lorentz(*v),
        1 <= r <= ONE,
{
    proof {
        lemma_subluminal_components(*v);
        assert(v.x * v.x + v.y * v.y >= 0) by (nonlinear_arith);
        lemma_mul_within(v.x as int, v.x as int, ONE as int, ONE as int);
        lemma_mul_within(v.y as int, v.y as int, ONE as int, ONE as int);
        lemma_inv_lorentz_range(*v);
    }
    let rad = ONE_SQ - (v.x * v.x + v.y * v.y);
    isqrt(rad)
}

/// Lorentz factor, `1 / sqrt(1 - |v|^2)`.
pub fn gamma(v: &Vec2) -> (r: i128)
    requires
        subluminal(*v),
    ensures
        r == lorentz(*v),
        ONE <= r <= ONE_SQ,
{
    let ig = igamma(v);
    proof {
        assert(ONE_SQ / ig >= ONE) by (nonlinear_arith)
            requires
                1 <= ig <= 4294967296int,
        ;
        assert(ONE_SQ / ig <= ONE_SQ) by (nonlinear_arith)
            requires
                1 <= ig,
        ;
    }
    ONE_SQ / ig
}

/// The two Lorentz factors are reciprocal: their fixed-point product is one,
/// short of it by less than one raw unit of the inverse factor.
pub proof fn lemma_lorentz_reciprocal(v: Vec2)
    requires
        subluminal(v),
    ensures
        (ONE_SQ as int) - inv_lorentz(v) < inv_lorentz(v) * lorentz(v),
        inv_lorentz(v) * lorentz(v) <= ONE_SQ as int,
{
    lemma_inv_lorentz_range(v);
    let ig = inv_lorentz(v);
    let g = lorentz(v);
    assert((ONE_SQ as int) - ig < ig * g && ig * g <= ONE_SQ as int) by (nonlinear_arith)
        requires
            1 <= ig,
            g == 18446744073709551616int / ig,
    ;
}

/// Inverse mass of a body, with 64 fractional bits: a raw value of zero
/// stands for infinite mass.
#[derive(Clone, Copy, Debug, PartialEq, Eq, Structural)]
pub struct InverseMass(pub i128);

/// The inverse of a raw mass as a raw inverse mass, and back (the same map
/// both ways), rounded down; zero is kept as zero.
pub open spec fn inverse_of(m: int) -> int {
    if m == 0 {
        0
    } else {
        (MASS_INV_PRODUCT as int) / m
    }
}

/// A mass the conversions accept: zero (infinite mass stands for it) or a
/// raw value in `[MASS_MIN, MASS_MAX]`, where the mass and its inverse both
/// keep at least 24 significant bits.
pub open spec fn mass_in_range(m: int) -> bool {
    m == 0 || (MASS_MIN as int <= m && m <= MASS_MAX as int)
}

/// An inverse mass the conversions accept: zero or a raw value in
/// `[INV_MASS_MIN, INV_MASS_MAX]`.
pub open spec fn inverse_mass_in_range(i: int) -> bool {
    i == 0 || (INV_MASS_MIN as int <= i && i <= INV_MASS_MAX as int)
}

impl InverseMass {
    /// The inverse mass of a body of mass `mass`; a zero mass gives zero.
    pub fn from_mass(mass: i128) -> (r: InverseMass)
        requires
            mass_in_range(mass as int),
        ensures
            r.0 == inverse_of(mass as int),
            inverse_mass_in_range(r.0 as int),
            mass > 0 ==> r.0 > 0,
    {
        if mass == 0 {
            return InverseMass(0);
        }
        proof {
            lemma_inverse_range(mass as int);
        }
        InverseMass(MASS_INV_PRODUCT / mass)
    }

    /// The mass of a body with this inverse mass; zero gives zero.
    pub fn to_mass(self) -> (r: i128)
        requires
            inverse_mass_in_range(self.0 as int),
        ensures
            r == inverse_of(self.0 as int),
            mass_in_range(r as int),
            self.0 > 0 ==> r > 0,
    {
        if self.0 == 0 {
            return 0;
        }
        proof {
            lemma_inverse_range(self.0 as int);
        }
        MASS_INV_PRODUCT / self.0
    }
}

/// The conversion maps `[2^24, 2^72]` (raw) onto itself.
proof fn lemma_inverse_range(x: int)
    requires
        16777216 <= x <= 4722366482869645213696,
    ensures
        16777216 <= inverse_of(x) <= 4722366482869645213696,
{
    let n = MASS_INV_PRODUCT as int;
    let q = n / x;
    lemma_fundamental_div_mod(n, x);
    lemma_mod_bound(n, x);
    assert(16777216 <= q <= 4722366482869645213696) by (nonlinear_arith)
        requires
            16777216 <= x <= 4722366482869645213696,
            n == 79228162514264337593543950336int,
            n == x * q + n % x,
            0 <= n % x < x,
    ;
}

/// Converting a mass to its inverse and back, or an inverse mass to its mass
/// and back, returns at least the start and exceeds it by at most one part in
/// `2^24`, for every value the conversions accept (zero returns exactly).
pub proof fn lemma_inverse_round_trip(x: int)
    requires
        mass_in_range(x) || inverse_mass_in_range(x),
    ensures
        x <= inverse_of(inverse_of(x)),
        (inverse_of(inverse_of(x)) - x) * 16777216 <= x,
        x == 0 ==> inverse_of(inverse_of(x)) == 0,
{
    if x == 0 {
        return;
    }
    let n = MASS_INV_PRODUCT as int;
    lemma_inverse_range(x);
    let q = inverse_of(x);
    let r = inverse_of(q);
    lemma_fundamental_div_mod(n, x);
    lemma_mod_bound(n, x);
    lemma_fundamental_div_mod(n, q);
    lemma_mod_bound(n, q);
    assert(x <= r && (r - x) * q < x) by (nonlinear_arith)
        requires
            q >= 1,
            x >= 1,
            q == n / x,
            r == n / q,
            n == x * q + n % x,
            0 <= n % x < x,
            n == q * r + n % q,
            0 <= n % q < q,
    ;
    assert((r - x) * 16777216 <= x) by (nonlinear_arith)
        requires
            x <= r,
            (r - x) * q < x,
            q >= 16777216,
    ;
}

/// The acceleration that force `f` gives a body of inverse mass `inv`,
/// rounded toward zero.
pub open spec fn accel_of(inv: int, f: Vec2) -> (int, int) {
    (trunc_div(f.x * inv, INV_ONE as int), trunc_div(f.y * inv, INV_ONE as int))
}

/// Acceleration of a body under force `f`: the force times the inverse mass.
pub fn from_force(inv: &InverseMass, f: &Vec2) -> (r: Vec2)
    requires
        0 <= inv.0 <= INV_MASS_MAX,
        vec_within(*f, FORCE_MAX as int),
    ensures
        (r.x as int, r.y as int) == accel_of(inv.0 as int, *f),
        vec_within(r, OWN_ACCEL_MAX as int),
{
    proof {
        lemma_mul_within(f.x as int, inv.0 as int, FORCE_MAX as int, INV_MASS_MAX as int);
        lemma_mul_within(f.y as int, inv.0 as int, FORCE_MAX as int, INV_MASS_MAX as int);
        lemma_trunc_div_within(f.x * inv.0, INV_ONE as int, OWN_ACCEL_MAX as int);
        lemma_trunc_div_within(f.y * inv.0, INV_ONE as int, OWN_ACCEL_MAX as int);
    }
    Vec2 { x: f.x * inv.0 / INV_ONE, y: f.y * inv.0 / INV_ONE }
}

/// Fixed-point dot product: each term rounded toward zero.
pub open spec fn fdot(a: Vec2, b: Vec2) -> int {
    fmul(a.x as int, b.x as int) + fmul(a.y as int, b.y as int)
}

/// The length, along `u`, removed from `a` by the boost: `(a . u) (1 - g)`.
pub open spec fn boost_shift(a: Vec2, u: Vec2) -> int {
    fmul(fdot(a, u), ONE as int - inv_lorentz(u))
}

/// One component of `boost(a, u) = g^2 (a - u (a . u) (1 - g))`, `g = sqrt(1 - |u|^2)`,
/// where `ac` and `uc` are that component of `a` and of `u`.
pub open spec fn boost_comp(ac: int, uc: int, a: Vec2, u: Vec2) -> int {
    let g = inv_lorentz(u);
    fmul(fmul(g, g), ac - fmul(uc, boost_shift(a, u)))
}

/// The acceleration `a` boosted by velocity `u`.
pub open spec fn boosted(a: Vec2, u: Vec2) -> (int, int) {
    (boost_comp(a.x as int, u.x as int, a, u), boost_comp(a.y as int, u.y as int, a, u))
}

/// The larger magnitude of the two components.
pub open spec fn norm_inf(a: Vec2) -> int {
    let ax = if a.x >= 0 { a.x as int } else { -(a.x as int) };
    let ay = if a.y >= 0 { a.y as int } else { -(a.y as int) };
    if ax >= ay { ax } else { ay }
}

/// Relativistic transformation of an acceleration under a boost by velocity `u`:
/// `g^2 (a - u (a . u) (1 - g))` with `g = sqrt(1 - |u|^2)`.
pub fn boost(a: &Vec2, u: &Vec2) -> (r: Vec2)
    requires
        vec_within(*a, ACC_MAX as int),
        subluminal(*u),
    ensures
        (r.x as int, r.y as int) == boosted(*a, *u),
        vec_within(r, 3 * norm_inf(*a) + 5),
        vec_within(r, BOOSTED_MAX as int),
{
    let g = igamma(u);
    let ghost m = norm_inf(*a);
    let ghost one = ONE as int;
    proof {
        lemma_subluminal_components(*u);
        lemma_fmul_within(a.x as int, u.x as int, m, one);
        lemma_fmul_within(a.y as int, u.y as int, m, one);
        lemma_mul_within(a.x as int, u.x as int, m, one);
        lemma_mul_within(a.y as int, u.y as int, m, one);
    }
    let d = product(a.x, u.x) + product(a.y, u.y);
    let c = ONE - g;
    proof {
        lemma_mul_within(d as int, c as int, 2 * m + 2, one);
        lemma_fmul_within(d as int, c as int, 2 * m + 2, one);
    }
    let k = product(d, c);
    proof {
        lemma_mul_within(u.x as int, k as int, one, 2 * m + 3);
        lemma_mul_within(u.y as int, k as int, one, 2 * m + 3);
        lemma_fmul_within(u.x as int, k as int, one, 2 * m + 3);
        lemma_fmul_within(u.y as int, k as int, one, 2 * m + 3);
        lemma_mul_within(g as int, g as int, one, one);
        assert(0 <= g * g) by (nonlinear_arith);
    }
    let wx = a.x - product(u.x, k);
    let wy = a.y - product(u.y, k);
    let g2 = product(g, g);
    proof {
        lemma_mul_within(g2 as int, wx as int, one, 3 * m + 4);
        lemma_mul_within(g2 as int, wy as int, one, 3 * m + 4);
        lemma_fmul_within(g2 as int, wx as int, one, 3 * m + 4);
        lemma_fmul_within(g2 as int, wy as int, one, 3 * m + 4);
    }
    Vec2 { x: product(g2, wx), y: product(g2, wy) }
}

/// Component of the projection of `p` onto the axis of `v` (for `v` not zero).
pub open spec fn parallel_comp(vc: int, p: Vec2, v: Vec2) -> int {
    (raw_dot(p, v) * vc) / speed_sq(v)
}

/// One component of `p` with its part along `v` scaled by `f`; the part
/// across `v` is kept. A zero `v` leaves `p` unchanged.
pub open spec fn scaled_along_comp(pc: int, vc: int, p: Vec2, v: Vec2, f: int) -> int {
    if speed_sq(v) == 0 {
        pc
    } else {
        let par = parallel_comp(vc, p, v);
        fmul(par, f) + (pc - par)
    }
}

/// The position `p` length-contracted along velocity `v`:
/// `project(p, v) * sqrt(1 - |v|^2) + reject(p, v)`.
pub open spec fn contracted(p: Vec2, v: Vec2) -> (int, int) {
    let g = inv_lorentz(v);
    (scaled_along_comp(p.x as int, v.x as int, p, v, g), scaled_along_comp(p.y as int, v.y as int, p, v, g))
}

/// The inverse of `contracted`: the part of `p` along `v` is stretched by the
/// Lorentz factor.
pub open spec fn dilated(p: Vec2, v: Vec2) -> (int, int) {
    let g = lorentz(v);
    (scaled_along_comp(p.x as int, v.x as int, p, v, g), scaled_along_comp(p.y as int, v.y as int, p, v, g))
}

proof fn lemma_parallel_bound(p: Vec2, v: Vec2, b: int)
    requires
        vec_within(p, b),
        b >= 0,
        subluminal(v),
        speed_sq(v) > 0,
    ensures
        within(raw_dot(p, v) * v.x, 2 * b * speed_sq(v)),
        within(raw_dot(p, v) * v.y, 2 * b * speed_sq(v)),
        within(parallel_comp(v.x as int, p, v), 2 * b),
        within(parallel_comp(v.y as int, p, v), 2 * b),
{
    let s = speed_sq(v);
    let (px, py, vx, vy) = (p.x as int, p.y as int, v.x as int, v.y as int);
    assert(0 <= vx * vx && 0 <= vy * vy) by (nonlinear_arith);
    assert(within(px * (vx * vx), b * (vx * vx))) by (nonlinear_arith)
        requires
            -b <= px <= b,
            0 <= vx * vx,
    ;
    assert(within(py * (vy * vy), b * (vy * vy))) by (nonlinear_arith)
        requires
            -b <= py <= b,
            0 <= vy * vy,
    ;
    assert((vx - vy) * (vx - vy) >= 0 && (vx + vy) * (vx + vy) >= 0) by (nonlinear_arith);
    assert(within(2 * (vx * vy), vx * vx + vy * vy)) by (nonlinear_arith)
        requires
            (vx - vy) * (vx - vy) >= 0,
            (vx + vy) * (vx + vy) >= 0,
    ;
    assert(within(py * (2 * (vx * vy)), b * s)) by (nonlinear_arith)
        requires
            -b <= py <= b,
            within(2 * (vx * vy), s),
    ;
    assert(within(px * (2 * (vx * vy)), b * s)) by (nonlinear_arith)
        requires
            -b <= px <= b,
            within(2 * (vx * vy), s),
    ;
    assert(raw_dot(p, v) * vx == px * (vx * vx) + py * (vx * vy)) by (nonlinear_arith)
        requires
            raw_dot(p, v) == px * vx + py * vy,
    ;
    assert(raw_dot(p, v) * vy == px * (vx * vy) + py * (vy * vy)) by (nonlinear_arith)
        requires
            raw_dot(p, v) == px * vx + py * vy,
    ;
    assert(b * (vx * vx) <= b * s && b * (vy * vy) <= b * s && 0 <= b * (vx * vx) && 0 <= b * (vy * vy)) by (nonlinear_arith)
        requires
            b >= 0,
            s == vx * vx + vy * vy,
            0 <= vx * vx,
            0 <= vy * vy,
    ;
    assert(within(px * (vx * vy), b * s) && within(py * (vx * vy), b * s)) by (nonlinear_arith)
        requires
            within(px * (2 * (vx * vy)), b * s),
            within(py * (2 * (vx * vy)), b * s),
            b * s >= 0,
    ;
    assert(within(raw_dot(p, v) * vx, 2 * b * s) && within(raw_dot(p, v) * vy, 2 * b * s)) by (nonlinear_arith)
        requires
            raw_dot(p, v) * vx == px * (vx * vx) + py * (vx * vy),
            raw_dot(p, v) * vy == px * (vx * vy) + py * (vy * vy),
            within(px * (vx * vx), b * (vx * vx)),
            within(py * (vy * vy), b * (vy * vy)),
            within(px * (vx * vy), b * s),
            within(py * (vx * vy), b * s),
            b * (vx * vx) <= b * s,
            b * (vy * vy) <= b * s,
            0 <= b * (vx * vx),
            0 <= b * (vy * vy),
    ;
    lemma_div_within(raw_dot(p, v) * v.x, s, 2 * b);
    lemma_div_within(raw_dot(p, v) * v.y, s, 2 * b);
}

/// `p` with its part along `v` scaled by the raw factor `f`.
fn scale_along(p: &Vec2, v: &Vec2, f: i128) -> (r: Vec2)
    requires
        vec_within(*p, POS_MAX as int),
        subluminal(*v),
        0 <= f <= ONE_SQ,
    ensures
        r.x == scaled_along_comp(p.x as int, v.x as int, *p, *v, f as int),
        r.y == scaled_along_comp(p.y as int, v.y as int, *p, *v, f as int),
{
    proof {
        lemma_subluminal_components(*v);
        lemma_mul_within(p.x as int, v.x as int, POS_MAX as int, ONE as int);
        lemma_mul_within(p.y as int, v.y as int, POS_MAX as int, ONE as int);
        lemma_mul_within(v.x as int, v.x as int, ONE as int, ONE as int);
        lemma_mul_within(v.y as int, v.y as int, ONE as int, ONE as int);
        assert(v.x * v.x + v.y * v.y >= 0) by (nonlinear_arith);
    }
    let s = v.x * v.x + v.y * v.y;
    if s == 0 {
        return *p;
    }
    let pd = p.x * v.x + p.y * v.y;
    proof {
        lemma_parallel_bound(*p, *v, POS_MAX as int);
        assert(2 * (POS_MAX as int) * speed_sq(*v) <= 2 * (POS_MAX as int) * (ONE_SQ as int)) by (nonlinear_arith)
            requires
                0 <= speed_sq(*v) < ONE_SQ as int,
                POS_MAX as int == 1152921504606846976int,
        ;
    }
    let par_x = div_floor(pd * v.x, s);
    let par_y = div_floor(pd * v.y, s);
    proof {
        lemma_mul_within(par_x as int, f as int, 2 * (POS_MAX as int), ONE_SQ as int);
        lemma_mul_within(par_y as int, f as int, 2 * (POS_MAX as int), ONE_SQ as int);
        lemma_fmul_within(par_x as int, f as int, 2 * (POS_MAX as int), ONE_SQ as int);
        lemma_fmul_within(par_y as int, f as int, 2 * (POS_MAX as int), ONE_SQ as int);
    }
    Vec2 { x: product(par_x, f) + (p.x - par_x), y: product(par_y, f) + (p.y - par_y) }
}

/// Length contraction of position `p` by velocity `v`: the part along `v`
/// shrinks by `sqrt(1 - |v|^2)`; the part across `v` is kept.
pub fn contract(p: &Vec2, v: &Vec2) -> (r: Vec2)
    requires
        vec_within(*p, POS_MAX as int),
        subluminal(*v),
    ensures
        (r.x as int, r.y as int) == contracted(*p, *v),
{
    let g = igamma(v);
    scale_along(p, v, g)
}

/// The inverse of `contract`: the part of `p` along `v` grows by the Lorentz
/// factor; the part across `v` is kept.
pub fn dilate(p: &Vec2, v: &Vec2) -> (r: Vec2)
    requires
        vec_within(*p, POS_MAX as int),
        subluminal(*v),
    ensures
        (r.x as int, r.y as int) == dilated(*p, *v),
{
    let g = gamma(v);
    scale_along(p, v, g)
}

/// At rest the inverse Lorentz factor is exactly one.
pub proof fn lemma_inv_lorentz_at_rest(v: Vec2)
    requires
        v.x == 0,
        v.y == 0,
    ensures
        inv_lorentz(v) == ONE as int,
        lorentz(v) == ONE as int,
{
    assert(is_floor_sqrt(ONE as int, ONE_SQ as int));
    lemma_floor_sqrt_unique(ONE as int, ONE_SQ as int);
}

/// A body of infinite mass (inverse mass zero) is not accelerated by any force.
pub proof fn lemma_zero_inverse_mass(f: Vec2)
    ensures
        accel_of(0, f) == (0int, 0int),
{
}

/// Boosting an acceleration by a velocity and then by the opposite velocity
/// returns it unchanged at zero velocity, where each boost is the identity.
/// (The boost by `-v` is the same map as the boost by `v`, see
/// `lemma_boost_even`, so for other velocities the two boosts compound.)
pub proof fn lemma_boost_round_trip(a: Vec2, v: Vec2)
    requires
        v.x == 0,
        v.y == 0,
    ensures
        boosted(a, v) == (a.x as int, a.y as int),
        boosted(to_vec(boosted(a, v)), neg_vec(v)) == (a.x as int, a.y as int),
{
    lemma_inv_lorentz_at_rest(v);
    lemma_inv_lorentz_at_rest(neg_vec(v));
    lemma_fmul_one_left(a.x as int);
    lemma_fmul_one_left(a.y as int);
    assert(fmul(ONE as int, ONE as int) == ONE as int);
}

proof fn lemma_fmul_one_left(a: int)
    ensures
        fmul(ONE as int, a) == a,
{
    assert((ONE as int) * a == a * (ONE as int)) by (nonlinear_arith);
}

proof fn lemma_no_parallel(p: Vec2, v: Vec2, f: int)
    requires
        raw_dot(p, v) == 0,
    ensures
        scaled_along_comp(p.x as int, v.x as int, p, v, f) == p.x,
        scaled_along_comp(p.y as int, v.y as int, p, v, f) == p.y,
{
    if speed_sq(v) != 0 {
        assert(parallel_comp(v.x as int, p, v) == 0) by (nonlinear_arith)
            requires
                raw_dot(p, v) == 0,
                speed_sq(v) != 0,
                parallel_comp(v.x as int, p, v) == (raw_dot(p, v) * v.x) / speed_sq(v),
        ;
        assert(parallel_comp(v.y as int, p, v) == 0) by (nonlinear_arith)
            requires
                raw_dot(p, v) == 0,
                speed_sq(v) != 0,
                parallel_comp(v.y as int, p, v) == (raw_dot(p, v) * v.y) / speed_sq(v),
        ;
    }
}

/// Contracting a position by `v` and stretching it back along `-v` returns it.
/// With the rounding of the fixed-point model this holds exactly for positions
/// with no component along `v` (zero `v` included).
pub proof fn lemma_contract_round_trip(p: Vec2, v: Vec2)
    requires
        vec_within(p, POS_MAX as int),
        subluminal(v),
        raw_dot(p, v) == 0,
    ensures
        contracted(p, v) == (p.x as int, p.y as int),
        dilated(to_vec(contracted(p, v)), neg_vec(v)) == (p.x as int, p.y as int),
{
    lemma_subluminal_components(v);
    lemma_no_parallel(p, v, inv_lorentz(v));
    let q = to_vec(contracted(p, v));
    assert(q == p);
    let w = neg_vec(v);
    assert(raw_dot(p, w) == 0) by (nonlinear_arith)
        requires
            p.x * v.x + p.y * v.y == 0,
            w.x == -v.x,
            w.y == -v.y,
    ;
    lemma_no_parallel(p, w, lorentz(w));
}

/// A boost depends on the velocity only through its speed and its axis, so
/// boosting by `-u` is the same map as boosting by `u`.
pub proof fn lemma_boost_even(a: Vec2, u: Vec2)
    requires
        subluminal(u),
    ensures
        boosted(a, neg_vec(u)) == boosted(a, u),
{
    lemma_subluminal_components(u);
    let w = neg_vec(u);
    assert(speed_sq(w) == speed_sq(u)) by (nonlinear_arith)
        requires
            w.x == -u.x,
            w.y == -u.y,
    ;
    lemma_fmul_odd(a.x as int, u.x as int);
    lemma_fmul_odd(a.y as int, u.y as int);
    assert(fdot(a, w) == -fdot(a, u));
    let c = ONE as int - inv_lorentz(u);
    lemma_fmul_odd(fdot(a, u), c);
    assert(boost_shift(a, w) == -boost_shift(a, u));
    lemma_fmul_odd(u.x as int, boost_shift(a, u));
    lemma_fmul_odd(u.y as int, boost_shift(a, u));
}

/// A measure of the squared speed for error bounds: `|v|^2` in raw units,
/// plus room for rounding.
pub open spec fn speed_slack(v: Vec2) -> int {
    speed_sq(v) / (ONE as int) + 4
}

/// How far the inverse Lorentz factor and its square fall short of one, in
/// raw units: at most `speed_slack(v)`.
pub proof fn lemma_lorentz_gaps(v: Vec2)
    requires
        subluminal(v),
    ensures
        (ONE as int - inv_lorentz(v)) * (ONE as int) <= speed_sq(v) + 2 * (ONE as int),
        0 <= ONE as int - inv_lorentz(v) <= speed_slack(v),
        0 <= ONE as int - fmul(inv_lorentz(v), inv_lorentz(v)) <= speed_slack(v),
        4 <= speed_slack(v) <= ONE as int + 4,
{
    lemma_inv_lorentz_range(v);
    let one = ONE as int;
    let sq = speed_sq(v);
    let g = inv_lorentz(v);
    let n = ONE_SQ as int - sq;
    assert(sq >= 0) by (nonlinear_arith)
        requires
            sq == v.x * v.x + v.y * v.y,
    ;
    assert(exists|r: int| is_floor_sqrt(r, n)) by {
        let r = floor_sqrt_witness(n);
    }
    assert(is_floor_sqrt(g, n));
    let c = one - g;
    assert(c * one <= sq + 2 * one) by (nonlinear_arith)
        requires
            1 <= g <= one,
            c == one - g,
            n < (g + 1) * (g + 1),
            n == one * one - sq,
            one == 4294967296int,
    ;
    assert(c <= sq / one + 2) by (nonlinear_arith)
        requires
            c * one <= sq + 2 * one,
            one == 4294967296int,
            sq >= 0,
    ;
    lemma_fmul_error(g, g);
    let g2 = fmul(g, g);
    assert(g * g >= 0 && g * g <= one * one) by (nonlinear_arith)
        requires
            1 <= g <= one,
    ;
    assert((one - g2) * one <= sq + 3 * one && g2 <= one) by (nonlinear_arith)
        requires
            g2 * one <= g * g,
            g2 * one >= g * g - (one - 1),
            g * g <= one * one,
            n < (g + 1) * (g + 1),
            n == one * one - sq,
            1 <= g <= one,
            one == 4294967296int,
    ;
    assert(one - g2 <= sq / one + 3) by (nonlinear_arith)
        requires
            (one - g2) * one <= sq + 3 * one,
            one == 4294967296int,
            sq >= 0,
    ;
    assert(sq / one <= one) by (nonlinear_arith)
        requires
            0 <= sq < one * one,
            one == 4294967296int,
    ;
}

proof fn lemma_fmul_within_scaled(x: int, y: int, b: int)
    requires
        within(x * y, b),
    ensures
        within(fmul(x, y) * (ONE as int), b),
{
    lemma_fmul_error(x, y);
}

proof fn lemma_abs_cross(x: int, y: int, s: int)
    requires
        s == x * x + y * y,
    ensures
        2 * ((if x >= 0 { x } else { -x }) * ((if x >= 0 { x } else { -x }) + (if y >= 0 { y } else { -y })))
            <= 3 * s,
{
    let ax = if x >= 0 { x } else { -x };
    let ay = if y >= 0 { y } else { -y };
    assert(ax * ax == x * x && ay * ay == y * y) by (nonlinear_arith)
        requires
            ax == (if x >= 0 { x } else { -x }),
            ay == (if y >= 0 { y } else { -y }),
    ;
    assert((ax - ay) * (ax - ay) >= 0) by (nonlinear_arith);
    assert(2 * (ax * ay) <= ax * ax + ay * ay) by (nonlinear_arith)
        requires
            (ax - ay) * (ax - ay) >= 0,
    ;
    assert(2 * (ax * (ax + ay)) <= 3 * s) by (nonlinear_arith)
        requires
            2 * (ax * ay) <= ax * ax + ay * ay,
            s == ax * ax + ay * ay,
    ;
}

proof fn lemma_boost_comp_near(ac: int, uc: int, uo: int, a: Vec2, u: Vec2)
    requires
        subluminal(u),
        within(ac, norm_inf(a)),
        (ac == a.x && uc == u.x && uo == u.y) || (ac == a.y && uc == u.y && uo == u.x),
    ensures
        within(2 * (boost_comp(ac, uc, a, u) - ac) * (ONE as int), 5 * norm_inf(a) * speed_slack(u) + 2 * (ONE as int)),
{
    let one = ONE as int;
    let aa = norm_inf(a);
    let e = speed_slack(u);
    let sq = speed_sq(u);
    lemma_subluminal_components(u);
    lemma_lorentz_gaps(u);
    let g = inv_lorentz(u);
    lemma_inv_lorentz_range(u);
    let c = one - g;
    let g2 = fmul(g, g);
    let e2 = one - g2;
    let ux = u.x as int;
    let uy = u.y as int;
    let aux = if ux >= 0 { ux } else { -ux };
    let auy = if uy >= 0 { uy } else { -uy };
    let auc = if uc >= 0 { uc } else { -uc };
    assert(within(a.x as int, aa) && within(a.y as int, aa));
    lemma_fmul_error(a.x as int, ux);
    lemma_fmul_error(a.y as int, uy);
    let fx = fmul(a.x as int, ux);
    let fy = fmul(a.y as int, uy);
    assert(within(fx * one, aa * aux)) by (nonlinear_arith)
        requires
            within(a.x as int, aa),
            aux == (if ux >= 0 { ux } else { -ux }),
            a.x * ux >= 0 ==> 0 <= fx * one <= a.x * ux,
            a.x * ux <= 0 ==> a.x * ux <= fx * one <= 0,
    ;
    assert(within(fy * one, aa * auy)) by (nonlinear_arith)
        requires
            within(a.y as int, aa),
            auy == (if uy >= 0 { uy } else { -uy }),
            a.y * uy >= 0 ==> 0 <= fy * one <= a.y * uy,
            a.y * uy <= 0 ==> a.y * uy <= fy * one <= 0,
    ;
    let d = fdot(a, u);
    assert(d == fx + fy);
    assert(within(d * one, aa * (aux + auy))) by (nonlinear_arith)
        requires
            d == fx + fy,
            within(fx * one, aa * aux),
            within(fy * one, aa * auy),
    ;
    let k = boost_shift(a, u);
    lemma_fmul_error(d, c);
    assert(within(k * one * one, aa * (aux + auy) * c)) by (nonlinear_arith)
        requires
            0 <= c,
            one > 0,
            within(d * one, aa * (aux + auy)),
            d * c >= 0 ==> 0 <= k * one <= d * c,
            d * c <= 0 ==> d * c <= k * one <= 0,
    {
        let bd = aa * (aux + auy);
        assert(within(d * one * c, bd * c)) by (nonlinear_arith)
            requires
                0 <= c,
                within(d * one, bd),
        ;
        assert(d * one * c == d * c * one) by (nonlinear_arith);
        if d * c >= 0 {
            assert(0 <= k * one * one <= d * c * one) by (nonlinear_arith)
                requires
                    one > 0,
                    0 <= k * one <= d * c,
            ;
        } else {
            assert(d * c * one <= k * one * one <= 0) by (nonlinear_arith)
                requires
                    one > 0,
                    d * c <= k * one <= 0,
            ;
        }
    }
    lemma_fmul_error(uc, k);
    let m = fmul(uc, k);
    assert(within(m * one * one * one, auc * (aa * (aux + auy) * c))) by (nonlinear_arith)
        requires
            one > 0,
            auc == (if uc >= 0 { uc } else { -uc }),
            within(k * one * one, aa * (aux + auy) * c),
            uc * k >= 0 ==> 0 <= m * one <= uc * k,
            uc * k <= 0 ==> uc * k <= m * one <= 0,
    {
        let bk = aa * (aux + auy) * c;
        assert(within(uc * (k * one * one), auc * bk)) by (nonlinear_arith)
            requires
                auc == (if uc >= 0 { uc } else { -uc }),
                within(k * one * one, bk),
        ;
        assert(uc * (k * one * one) == uc * k * one * one) by (nonlinear_arith);
        if uc * k >= 0 {
            assert(0 <= m * one * one * one <= uc * k * one * one) by (nonlinear_arith)
                requires
                    one > 0,
                    0 <= m * one <= uc * k,
            ;
        } else {
            assert(uc * k * one * one <= m * one * one * one <= 0) by (nonlinear_arith)
                requires
                    one > 0,
                    uc * k <= m * one <= 0,
            ;
        }
    }
    lemma_abs_cross(uc, uo, sq);
    assert(sq == uc * uc + uo * uo) by (nonlinear_arith)
        requires
            sq == ux * ux + uy * uy,
            (uc == ux && uo == uy) || (uc == uy && uo == ux),
    ;
    assert(auc * (aux + auy) == auc * (auc + (if uo >= 0 { uo } else { -uo }))) by (nonlinear_arith)
        requires
            auc == (if uc >= 0 { uc } else { -uc }),
            aux == (if ux >= 0 { ux } else { -ux }),
            auy == (if uy >= 0 { uy } else { -uy }),
            (uc == ux && uo == uy) || (uc == uy && uo == ux),
    ;
    assert(sq <= one * e) by (nonlinear_arith)
        requires
            e == sq / one + 4,
            sq >= 0,
            one == 4294967296int,
    ;
    assert(2 * (m * one) <= 3 * aa * e && -(3 * aa * e) <= 2 * (m * one)) by (nonlinear_arith)
        requires
            within(m * one * one * one, auc * (aa * (aux + auy) * c)),
            2 * (auc * (aux + auy)) <= 3 * sq,
            sq <= one * e,
            sq >= 0,
            0 <= c <= one,
            aa >= 0,
            one == 4294967296int,
    {
        let pp = auc * (aux + auy);
        assert(2 * (auc * (aa * (aux + auy) * c)) == (aa * c) * (2 * pp)) by (nonlinear_arith)
            requires
                pp == auc * (aux + auy),
        ;
        assert(aa * c >= 0) by (nonlinear_arith)
            requires
                aa >= 0,
                c >= 0,
        ;
        assert((aa * c) * (2 * pp) <= (aa * c) * (3 * sq)) by (nonlinear_arith)
            requires
                aa * c >= 0,
                2 * pp <= 3 * sq,
        ;
        assert((aa * c) * (3 * sq) <= 3 * aa * e * one * one) by (nonlinear_arith)
            requires
                sq <= one * e,
                0 <= c <= one,
                aa >= 0,
                sq >= 0,
        ;
    }
    let w = ac - m;
    lemma_fmul_error(g2, w);
    let r = fmul(g2, w);
    assert(r == boost_comp(ac, uc, a, u));
    assert(0 <= g2 <= one);
    let t1 = r * one - g2 * w;
    let t2 = e2 * ac;
    let t3 = g2 * m;
    assert((r - ac) * one == t1 - t2 - t3) by (nonlinear_arith)
        requires
            t1 == r * one - g2 * w,
            t2 == e2 * ac,
            t3 == g2 * m,
            w == ac - m,
            e2 == one - g2,
    ;
    assert(within(t2, e * aa)) by (nonlinear_arith)
        requires
            0 <= e2 <= e,
            within(ac, aa),
            t2 == e2 * ac,
    ;
    assert(within(2 * t3, 3 * aa * e)) by (nonlinear_arith)
        requires
            0 <= g2 <= one,
            2 * (m * one) <= 3 * aa * e,
            -(3 * aa * e) <= 2 * (m * one),
            t3 == g2 * m,
    ;
    assert(within(2 * (r - ac) * one, 5 * aa * e + 2 * one)) by (nonlinear_arith)
        requires
            (r - ac) * one == t1 - t2 - t3,
            within(t1, one - 1),
            within(t2, e * aa),
            within(2 * t3, 3 * aa * e),
    ;
}

/// One boost moves an acceleration by at most `2.5 |a| |v|^2` (in the
/// fixed-point measure `speed_slack`), plus one raw unit of rounding.
pub proof fn lemma_boost_near(a: Vec2, u: Vec2)
    requires
        subluminal(u),
    ensures
        within(2 * (boosted(a, u).0 - a.x) * (ONE as int), 5 * norm_inf(a) * speed_slack(u) + 2 * (ONE as int)),
        within(2 * (boosted(a, u).1 - a.y) * (ONE as int), 5 * norm_inf(a) * speed_slack(u) + 2 * (ONE as int)),
{
    lemma_boost_comp_near(a.x as int, u.x as int, u.y as int, a, u);
    lemma_boost_comp_near(a.y as int, u.y as int, u.x as int, a, u);
}

proof fn lemma_boost_moves_little(a: Vec2, u: Vec2)
    requires
        subluminal(u),
        vec_within(a, ACC_MAX as int),
    ensures
        within(boosted(a, u).0, 4 * norm_inf(a) + 1),
        within(boosted(a, u).1, 4 * norm_inf(a) + 1),
        norm_inf(to_vec(boosted(a, u))) <= 4 * norm_inf(a) + 1,
{
    let one = ONE as int;
    let aa = norm_inf(a);
    let e = speed_slack(u);
    lemma_boost_near(a, u);
    lemma_lorentz_gaps(u);
    let dx = boosted(a, u).0 - a.x;
    let dy = boosted(a, u).1 - a.y;
    assert(5 * aa * e + 2 * one <= (6 * aa + 2) * one) by (nonlinear_arith)
        requires
            4 <= e <= one + 4,
            aa >= 0,
            one == 4294967296int,
    ;
    assert(within(dx, 3 * aa + 1) && within(dy, 3 * aa + 1)) by (nonlinear_arith)
        requires
            within(2 * dx * one, (6 * aa + 2) * one),
            within(2 * dy * one, (6 * aa + 2) * one),
            one > 0,
    ;
}

/// Boosting an acceleration by `v` and then by `-v` returns it up to
/// `2.5 (|a| + |b|) |v|^2`, where `b` is the acceleration after the first
/// boost (at most `(12.5 |a| + 2.5) |v|^2` in all), in the fixed-point measure
/// `speed_slack`, plus two raw units of rounding: the round trip is exact only
/// at rest, and its error is of the order of the squared speed.
pub proof fn lemma_boost_round_trip_near(a: Vec2, v: Vec2)
    requires
        vec_within(a, ACC_MAX as int),
        subluminal(v),
    ensures
        within(
            2 * (boosted(to_vec(boosted(a, v)), neg_vec(v)).0 - a.x) * (ONE as int),
            5 * (norm_inf(a) + norm_inf(to_vec(boosted(a, v)))) * speed_slack(v) + 4 * (ONE as int),
        ),
        within(
            2 * (boosted(to_vec(boosted(a, v)), neg_vec(v)).1 - a.y) * (ONE as int),
            5 * (norm_inf(a) + norm_inf(to_vec(boosted(a, v)))) * speed_slack(v) + 4 * (ONE as int),
        ),
        within(
            2 * (boosted(to_vec(boosted(a, v)), neg_vec(v)).0 - a.x) * (ONE as int),
            (25 * norm_inf(a) + 5) * speed_slack(v) + 4 * (ONE as int),
        ),
        within(
            2 * (boosted(to_vec(boosted(a, v)), neg_vec(v)).1 - a.y) * (ONE as int),
            (25 * norm_inf(a) + 5) * speed_slack(v) + 4 * (ONE as int),
        ),
{
    let one = ONE as int;
    let aa = norm_inf(a);
    let e = speed_slack(v);
    lemma_lorentz_gaps(v);
    lemma_boost_near(a, v);
    lemma_boost_moves_little(a, v);
    let b = to_vec(boosted(a, v));
    assert(b.x == boosted(a, v).0 && b.y == boosted(a, v).1);
    let bb = norm_inf(b);
    lemma_boost_even(b, v);
    lemma_boost_near(b, v);
    let r = boosted(b, v);
    assert(5 * (aa + bb) * e <= (25 * aa + 5) * e) by (nonlinear_arith)
        requires
            0 <= bb <= 4 * aa + 1,
            e >= 0,
            aa >= 0,
    ;
    assert(within(2 * (r.0 - a.x) * one, 5 * (aa + bb) * e + 4 * one)) by (nonlinear_arith)
        requires
            within(2 * (r.0 - b.x) * one, 5 * bb * e + 2 * one),
            within(2 * (b.x - a.x) * one, 5 * aa * e + 2 * one),
    ;
    assert(within(2 * (r.1 - a.y) * one, 5 * (aa + bb) * e + 4 * one)) by (nonlinear_arith)
        requires
            within(2 * (r.1 - b.y) * one, 5 * bb * e + 2 * one),
            within(2 * (b.y - a.y) * one, 5 * aa * e + 2 * one),
    ;
}

/// Contracted position, as a vector.
pub open spec fn contracted_vec(p: Vec2, v: Vec2) -> Vec2 {
    to_vec(contracted(p, v))
}

/// Facts on one component of the contraction of `p` by `v`.
proof fn lemma_contract_comp(p: Vec2, v: Vec2, pc: int, vc: int, cc: int)
    requires
        vec_within(p, POS_MAX as int),
        subluminal(v),
        speed_sq(v) > 0,
        (pc == p.x && vc == v.x && cc == contracted(p, v).0) || (pc == p.y && vc == v.y && cc
            == contracted(p, v).1),
    ensures
        ({
            let s = speed_sq(v);
            let par = (raw_dot(p, v) * vc) / s;
            let k = inv_lorentz(v);
            let f = fmul(par, k);
            &&& cc == f + pc - par
            &&& 0 <= raw_dot(p, v) * vc - s * par < s
            &&& within(f * (ONE as int) - par * k, ONE as int - 1)
            &&& within(par, 2 * norm_inf(p))
            &&& within(f, 2 * norm_inf(p))
            &&& within(raw_dot(p, v) * vc, 2 * norm_inf(p) * s)
        }),
{
    let s = speed_sq(v);
    let a = norm_inf(p);
    lemma_parallel_bound(p, v, a);
    let par = (raw_dot(p, v) * vc) / s;
    lemma_fundamental_div_mod(raw_dot(p, v) * vc, s);
    lemma_mod_bound(raw_dot(p, v) * vc, s);
    let k = inv_lorentz(v);
    lemma_inv_lorentz_range(v);
    lemma_fmul_error(par, k);
    let f = fmul(par, k);
    assert(within(f, 2 * a)) by (nonlinear_arith)
        requires
            within(par, 2 * a),
            1 <= k <= ONE as int,
            par * k >= 0 ==> 0 <= f * (ONE as int) <= par * k,
            par * k <= 0 ==> par * k <= f * (ONE as int) <= 0,
            ONE as int > 0,
    ;
}

/// After contraction, the component of the position along `v` is (in raw
/// units) `inv_lorentz(v)` times the original one, up to `4 ONE^2`.
proof fn lemma_contracted_dot(p: Vec2, v: Vec2)
    requires
        vec_within(p, POS_MAX as int),
        subluminal(v),
        speed_sq(v) > 0,
    ensures
        within(
            (ONE as int) * raw_dot(contracted_vec(p, v), v) - inv_lorentz(v) * raw_dot(p, v),
            4 * (ONE as int) * (ONE as int),
        ),
{
    let one = ONE as int;
    let s = speed_sq(v);
    let k = inv_lorentz(v);
    let pd = raw_dot(p, v);
    lemma_subluminal_components(v);
    lemma_inv_lorentz_range(v);
    lemma_contract_comp(p, v, p.x as int, v.x as int, contracted(p, v).0);
    lemma_contract_comp(p, v, p.y as int, v.y as int, contracted(p, v).1);
    let parx = (pd * v.x) / s;
    let pary = (pd * v.y) / s;
    let fx = fmul(parx, k);
    let fy = fmul(pary, k);
    let rx = pd * v.x - s * parx;
    let ry = pd * v.y - s * pary;
    let ex = fx * one - parx * k;
    let ey = fy * one - pary * k;
    let c = contracted_vec(p, v);
    assert(c.x == fx + p.x - parx && c.y == fy + p.y - pary);
    let cv = raw_dot(c, v);
    let vx = v.x as int;
    let vy = v.y as int;
    let rr = rx * vx + ry * vy;
    let ee = ex * vx + ey * vy;
    let ff = fx * vx + fy * vy;
    let q = parx * vx + pary * vy;
    assert(cv == ff + pd - q) by (nonlinear_arith)
        requires
            cv == (fx + p.x - parx) * vx + (fy + p.y - pary) * vy,
            pd == p.x * vx + p.y * vy,
            ff == fx * vx + fy * vy,
            q == parx * vx + pary * vy,
    ;
    assert(s * q == pd * s - rr) by (nonlinear_arith)
        requires
            s == vx * vx + vy * vy,
            rx == pd * vx - s * parx,
            ry == pd * vy - s * pary,
            rr == rx * vx + ry * vy,
            q == parx * vx + pary * vy,
    ;
    assert(ex * vx == one * (fx * vx) - k * (parx * vx)) by (nonlinear_arith)
        requires
            ex == fx * one - parx * k,
    ;
    assert(ey * vy == one * (fy * vy) - k * (pary * vy)) by (nonlinear_arith)
        requires
            ey == fy * one - pary * k,
    ;
    assert(one * ff == one * (fx * vx) + one * (fy * vy)) by (nonlinear_arith)
        requires
            ff == fx * vx + fy * vy,
    ;
    assert(k * q == k * (parx * vx) + k * (pary * vy)) by (nonlinear_arith)
        requires
            q == parx * vx + pary * vy,
    ;
    assert(one * ff == k * q + ee);
    let sq = s * q;
    let spd = s * pd;
    assert(s * (one * cv - k * pd) == one * (s * cv) - k * spd) by (nonlinear_arith)
        requires
            spd == s * pd,
    ;
    assert(one * (s * cv) == one * (s * ff) + one * spd - one * sq) by (nonlinear_arith)
        requires
            cv == ff + pd - q,
            spd == s * pd,
            sq == s * q,
    ;
    assert(one * (s * ff) == k * sq + s * ee) by (nonlinear_arith)
        requires
            one * ff == k * q + ee,
            sq == s * q,
    ;
    assert(sq == spd - rr) by (nonlinear_arith)
        requires
            s * q == pd * s - rr,
            sq == s * q,
            spd == s * pd,
    ;
    assert(k * sq == k * spd - k * rr && one * sq == one * spd - one * rr) by (nonlinear_arith)
        requires
            sq == spd - rr,
    ;
    assert((one - k) * rr == one * rr - k * rr) by (nonlinear_arith);
    assert(s * (one * cv - k * pd) == (one - k) * rr + s * ee);
    assert(within(rr, 2 * s * one)) by (nonlinear_arith)
        requires
            0 <= rx < s,
            0 <= ry < s,
            within(vx, one),
            within(vy, one),
            rr == rx * vx + ry * vy,
    ;
    assert(within(ee, 2 * one * one)) by (nonlinear_arith)
        requires
            within(ex, one - 1),
            within(ey, one - 1),
            within(vx, one),
            within(vy, one),
            ee == ex * vx + ey * vy,
    ;
    assert(within((one - k) * rr, 2 * s * one * one)) by (nonlinear_arith)
        requires
            0 <= one - k <= one,
            within(rr, 2 * s * one),
    ;
    assert(within(s * ee, 2 * s * one * one)) by (nonlinear_arith)
        requires
            s > 0,
            within(ee, 2 * one * one),
    ;
    let dl = one * cv - k * pd;
    assert(within(dl, 4 * one * one)) by (nonlinear_arith)
        requires
            s > 0,
            s * dl == (one - k) * rr + s * ee,
            within((one - k) * rr, 2 * s * one * one),
            within(s * ee, 2 * s * one * one),
    ;
}

proof fn lemma_round_trip_comp(p: Vec2, v: Vec2, pc: int, vc: int, cc: int, wc: int, dc: int)
    requires
        vec_within(p, POS_MAX as int),
        subluminal(v),
        speed_sq(v) > 0,
        (pc == p.x && vc == v.x && cc == contracted(p, v).0 && wc == neg_vec(v).x && cc
            == contracted_vec(p, v).x && dc == dilated(contracted_vec(p, v), neg_vec(v)).0) || (pc
            == p.y && vc == v.y && cc == contracted(p, v).1 && wc == neg_vec(v).y && cc
            == contracted_vec(p, v).y && dc == dilated(contracted_vec(p, v), neg_vec(v)).1),
    ensures
        within((dc - pc) * (ONE as int), 2 * norm_inf(p) + 13 * lorentz(v) + 3 * (ONE as int) + 12),
{
    let one = ONE as int;
    let s = speed_sq(v);
    let k = inv_lorentz(v);
    let gg = lorentz(v);
    let pd = raw_dot(p, v);
    let a = norm_inf(p);
    lemma_subluminal_components(v);
    lemma_inv_lorentz_range(v);
    lemma_lorentz_reciprocal(v);
    lemma_lorentz_gaps(v);
    lemma_contract_comp(p, v, pc, vc, cc);
    lemma_contracted_dot(p, v);
    let par = (pd * vc) / s;
    let f = fmul(par, k);
    let r = pd * vc - s * par;
    let e = f * one - par * k;
    let c = contracted_vec(p, v);
    let w = neg_vec(v);
    let cv = raw_dot(c, v);
    let dl = one * cv - k * pd;
    assert(speed_sq(w) == s && raw_dot(c, w) * wc == cv * vc) by (nonlinear_arith)
        requires
            w.x == -v.x,
            w.y == -v.y,
            wc == -vc,
            s == v.x * v.x + v.y * v.y,
            speed_sq(w) == w.x * w.x + w.y * w.y,
            cv == c.x * v.x + c.y * v.y,
            raw_dot(c, w) == c.x * w.x + c.y * w.y,
    ;
    assert(lorentz(w) == gg);
    let par2 = (cv * vc) / s;
    lemma_fundamental_div_mod(cv * vc, s);
    lemma_mod_bound(cv * vc, s);
    let r2 = cv * vc - s * par2;
    assert(0 <= r2 < s);
    let g = fmul(par2, gg);
    lemma_fmul_error(par2, gg);
    let e2 = g * one - par2 * gg;
    assert(dc == g + cc - par2);
    // the error, scaled by s * one^2, in five parts
    let sp = s * par;
    let sp2 = s * par2;
    assert(s * one * one * f == one * k * sp + s * one * e) by (nonlinear_arith)
        requires
            e == f * one - par * k,
            sp == s * par,
    ;
    assert(s * one * one * g == one * gg * sp2 + s * one * e2) by (nonlinear_arith)
        requires
            e2 == g * one - par2 * gg,
            sp2 == s * par2,
    ;
    assert(s * one * one * par == one * one * sp && s * one * one * par2 == one * one * sp2) by (nonlinear_arith)
        requires
            sp == s * par,
            sp2 == s * par2,
    ;
    let x = dc - pc;
    assert(x == f - par + g - par2);
    assert(s * one * one * x == s * one * one * f - s * one * one * par + s * one * one * g - s * one * one
        * par2) by (nonlinear_arith)
        requires
            x == f - par + g - par2,
    ;
    assert(one * (k - one) * sp == one * k * sp - one * one * sp) by (nonlinear_arith);
    assert(one * (gg - one) * sp2 == one * gg * sp2 - one * one * sp2) by (nonlinear_arith);
    assert(s * one * (e + e2) == s * one * e + s * one * e2) by (nonlinear_arith);
    assert(s * one * one * x == one * (k - one) * sp + one * (gg - one) * sp2 + s * one * (e + e2));
    assert(one * (gg - one) * sp2 == (gg - one) * (k * pd + dl) * vc - one * (gg - one) * r2) by (nonlinear_arith)
        requires
            sp2 == cv * vc - r2,
            one * cv == k * pd + dl,
    ;
    assert(one * (k - one) * sp == one * (k - one) * (pd * vc) - one * (k - one) * r) by (nonlinear_arith)
        requires
            sp == pd * vc - r,
    ;
    let b1 = (pd * vc) * (gg * k - one * one);
    let b2 = (gg - one) * dl * vc;
    let b3 = one * (one - k) * r;
    let b4 = one * (gg - one) * r2;
    let b5 = s * one * (e + e2);
    let m = pd * vc;
    assert((gg - one) * (k * pd) * vc == (gg - one) * k * m) by (nonlinear_arith)
        requires
            m == pd * vc,
    ;
    assert(one * (k - one) * m + (gg - one) * k * m == m * (gg * k - one * one)) by (nonlinear_arith);
    assert(one * (k - one) * (pd * vc) + (gg - one) * (k * pd) * vc == b1);
    assert((gg - one) * (k * pd + dl) * vc == (gg - one) * (k * pd) * vc + b2) by (nonlinear_arith)
        requires
            b2 == (gg - one) * dl * vc,
    ;
    assert(-(one * (k - one) * r) == b3) by (nonlinear_arith)
        requires
            b3 == one * (one - k) * r,
    ;
    assert(s * one * one * x == b1 + b2 + b3 - b4 + b5);
    // bounds of the parts
    assert(gg >= one) by (nonlinear_arith)
        requires
            1 <= k <= one,
            k * gg <= one * one,
            one * one - k < k * gg,
    ;
    assert(within(b1, 2 * a * s * one)) by (nonlinear_arith)
        requires
            within(pd * vc, 2 * a * s),
            one * one - k < k * gg <= one * one,
            1 <= k <= one,
            b1 == (pd * vc) * (gg * k - one * one),
    ;
    let av = if vc >= 0 { vc } else { -vc };
    assert(av <= one && av <= s) by (nonlinear_arith)
        requires
            within(vc, one - 1),
            av == (if vc >= 0 { vc } else { -vc }),
            s == v.x * v.x + v.y * v.y,
            vc == v.x || vc == v.y,
    ;
    assert((gg - one) * k * av <= 3 * s * one) by (nonlinear_arith)
        requires
            k * gg <= one * one,
            (one - k) * one <= s + 2 * one,
            0 <= av <= one,
            av <= s,
            gg >= one,
            1 <= k,
    ;
    assert(one * one < k * (gg + 1)) by (nonlinear_arith)
        requires
            one * one - k < k * gg,
    ;
    assert((gg - one) * av * one <= 3 * s * (gg + 1)) by (nonlinear_arith)
        requires
            (gg - one) * k * av <= 3 * s * one,
            one * one < k * (gg + 1),
            k >= 1,
            s >= 0,
            one > 0,
    {
        assert((gg - one) * av * one * k <= 3 * s * one * one) by (nonlinear_arith)
            requires
                (gg - one) * k * av <= 3 * s * one,
                one > 0,
        ;
        assert(3 * s * one * one <= 3 * s * k * (gg + 1)) by (nonlinear_arith)
            requires
                one * one < k * (gg + 1),
                s >= 0,
        ;
    }
    assert(within(b2, 12 * s * one * (gg + 1))) by (nonlinear_arith)
        requires
            within(dl, 4 * one * one),
            (gg - one) * av * one <= 3 * s * (gg + 1),
            gg >= one,
            av == (if vc >= 0 { vc } else { -vc }),
            b2 == (gg - one) * dl * vc,
            one > 0,
    {
        assert(within(b2, (gg - one) * av * (4 * one * one))) by (nonlinear_arith)
            requires
                within(dl, 4 * one * one),
                gg >= one,
                av == (if vc >= 0 { vc } else { -vc }),
                b2 == (gg - one) * dl * vc,
        ;
    }
    assert(0 <= b3 <= one * one * s) by (nonlinear_arith)
        requires
            0 <= r < s,
            1 <= k <= one,
            b3 == one * (one - k) * r,
    ;
    assert(0 <= b4 <= one * gg * s) by (nonlinear_arith)
        requires
            0 <= r2 < s,
            gg >= one,
            one > 0,
            b4 == one * (gg - one) * r2,
    ;
    assert(within(b5, 2 * s * one * one)) by (nonlinear_arith)
        requires
            within(e, one - 1),
            within(e2, one - 1),
            s > 0,
            b5 == s * one * (e + e2),
    ;
    let t = 2 * a + 13 * gg + 3 * one + 12;
    assert(within(s * one * one * x, s * one * t)) by (nonlinear_arith)
        requires
            s * one * one * x == b1 + b2 + b3 - b4 + b5,
            within(b1, 2 * a * s * one),
            within(b2, 12 * s * one * (gg + 1)),
            0 <= b3 <= one * one * s,
            0 <= b4 <= one * gg * s,
            within(b5, 2 * s * one * one),
            t == 2 * a + 13 * gg + 3 * one + 12,
            s > 0,
            one > 0,
    ;
    assert(within(x * one, t)) by (nonlinear_arith)
        requires
            within(s * one * one * x, s * one * t),
            s > 0,
            one > 0,
    ;
}

/// Contracting a position by any velocity `v` and stretching it back along
/// `-v` returns it, each component to within `(2 |p| + 13 gamma + 3) / ONE`
/// (in units, plus a negligible `12 / ONE^2`): the round trip is exact but for
/// the rounding of the fixed-point model, which grows only with the position
/// and the Lorentz factor.
pub proof fn lemma_contract_round_trip_near(p: Vec2, v: Vec2)
    requires
        vec_within(p, POS_MAX as int),
        subluminal(v),
    ensures
        within(
            (dilated(contracted_vec(p, v), neg_vec(v)).0 - p.x) * (ONE as int),
            2 * norm_inf(p) + 13 * lorentz(v) + 3 * (ONE as int) + 12,
        ),
        within(
            (dilated(contracted_vec(p, v), neg_vec(v)).1 - p.y) * (ONE as int),
            2 * norm_inf(p) + 13 * lorentz(v) + 3 * (ONE as int) + 12,
        ),
{
    lemma_subluminal_components(v);
    lemma_inv_lorentz_range(v);
    assert(lorentz(v) >= 0) by (nonlinear_arith)
        requires
            1 <= inv_lorentz(v),
            lorentz(v) == (ONE_SQ as int) / inv_lorentz(v),
    ;
    let w = neg_vec(v);
    assert(speed_sq(w) == speed_sq(v)) by (nonlinear_arith)
        requires
            w.x == -v.x,
            w.y == -v.y,
    ;
    assert(speed_sq(v) >= 0) by (nonlinear_arith)
        requires
            speed_sq(v) == v.x * v.x + v.y * v.y,
    ;
    if speed_sq(v) == 0 {
        assert(contracted_vec(p, v) == p);
        assert(dilated(p, w) == (p.x as int, p.y as int));
    } else {
        lemma_contract_comp(p, v, p.x as int, v.x as int, contracted(p, v).0);
        lemma_contract_comp(p, v, p.y as int, v.y as int, contracted(p, v).1);
        let c = contracted_vec(p, v);
        assert(c.x == contracted(p, v).0 && c.y == contracted(p, v).1);
        lemma_round_trip_comp(
            p,
            v,
            p.x as int,
            v.x as int,
            contracted(p, v).0,
            w.x as int,
            dilated(c, w).0,
        );
        lemma_round_trip_comp(
            p,
            v,
            p.y as int,
            v.y as int,
            contracted(p, v).1,
            w.y as int,
            dilated(c, w).1,
        );
    }
}

} // verus!
