//! Display transforms: how a body appears from the observer's frame, with
//! length contraction and aberration, computed from its ground-truth
//! transform without changing it.
use vstd::prelude::*;
use crate::fixed::{
    div_floor, floor_sqrt, fmul, is_floor_sqrt, isqrt, lemma_div_within, lemma_fmul_within,
    lemma_mul_within, product, within, ONE, ONE_SQ,
};
use crate::kinematics::{
    contract, contracted, igamma, inv_lorentz, lemma_subluminal_components, speed_sq, subluminal,
    POS_MAX,
};
use crate::vector::{raw_dot, to_vec, vec_within, Vec2};

verus! {

/// Largest magnitude of a ground-truth position component that can be displayed (raw).
pub const VIEW_MAX: i128 = 288230376151711744;

/// Largest magnitude of an entry of a body's own linear map (raw).
pub const LINEAR_MAX: i128 = 1152921504606846976;

/// Bound on the entries of the matrices built along the way (raw).
pub const COMPOSED_MAX: i128 = 1208925819614629174706176;

/// A 2x2 linear map with raw entries; `xy` is the entry in row x, column y.
#[derive(Clone, Copy, Debug, PartialEq, Eq, Structural)]
pub struct Mat2 {
    pub xx: i128,
    pub xy: i128,
    pub yx: i128,
    pub yy: i128,
}

/// A rotation, given by the raw cosine and sine of its angle.
#[derive(Clone, Copy, Debug, PartialEq, Eq, Structural)]
pub struct Turn {
    pub cos: i128,
    pub sin: i128,
}

/// Placement of a body: its linear map (own orientation and shape), then its
/// translation.
#[derive(Clone, Copy, Debug, PartialEq, Eq, Structural)]
pub struct Transform {
    pub translation: Vec2,
    pub linear: Mat2,
}

pub open spec fn mat_within(m: Mat2, b: int) -> bool {
    within(m.xx as int, b) && within(m.xy as int, b) && within(m.yx as int, b) && within(m.yy as int, b)
}

/// The fixed-point product `a * b` of two matrices.
pub open spec fn mat_product(a: Mat2, b: Mat2) -> Mat2 {
    Mat2 {
        xx: (fmul(a.xx as int, b.xx as int) + fmul(a.xy as int, b.yx as int)) as i128,
        xy: (fmul(a.xx as int, b.xy as int) + fmul(a.xy as int, b.yy as int)) as i128,
        yx: (fmul(a.yx as int, b.xx as int) + fmul(a.yy as int, b.yx as int)) as i128,
        yy: (fmul(a.yx as int, b.xy as int) + fmul(a.yy as int, b.yy as int)) as i128,
    }
}

/// The matrix of a rotation.
pub open spec fn turn_mat(t: Turn) -> Mat2 {
    Mat2 { xx: t.cos, xy: (-t.sin) as i128, yx: t.sin, yy: t.cos }
}

/// The map that scales by `f` along `u` and keeps the direction across `u`:
/// `I + (f - 1) u u^T / |u|^2`.
pub open spec fn scale_of(u: Vec2, f: int) -> Mat2 {
    let s = speed_sq(u);
    let d = f - ONE as int;
    Mat2 {
        xx: (ONE as int + (d * u.x * u.x) / s) as i128,
        xy: ((d * u.x * u.y) / s) as i128,
        yx: ((d * u.x * u.y) / s) as i128,
        yy: (ONE as int + (d * u.y * u.y) / s) as i128,
    }
}

/// `p` rotated by `t`.
pub open spec fn rotated(p: Vec2, t: Turn) -> (int, int) {
    (
        fmul(t.cos as int, p.x as int) - fmul(t.sin as int, p.y as int),
        fmul(t.sin as int, p.x as int) + fmul(t.cos as int, p.y as int),
    )
}

/// `v` turned a quarter turn counter-clockwise.
pub open spec fn perp_vec(v: Vec2) -> Vec2 {
    Vec2 { x: (-v.y) as i128, y: v.x }
}

/// The display transform of a body with ground truth `t` moving at `v`
/// relative to the observer. At rest it is the ground truth. Otherwise the
/// position is turned by the aberration `turn` and contracted along `v`, and
/// the linear map is, applied in order: the body's own map, contraction by
/// `sqrt(1 - |v|^2)` along `v`, the aberration turn, and scaling by `across`
/// across `v`.
pub open spec fn displayed(t: Transform, v: Vec2, turn: Turn, across: int) -> Transform {
    if v.x == 0 && v.y == 0 {
        t
    } else {
        Transform {
            translation: to_vec(contracted(to_vec(rotated(t.translation, turn)), v)),
            linear: mat_product(
                scale_of(perp_vec(v), across),
                mat_product(turn_mat(turn), mat_product(scale_of(v, inv_lorentz(v)), t.linear)),
            ),
        }
    }
}

/// A body at rest relative to the observer is displayed exactly where and as
/// it truly is.
pub proof fn lemma_rest_display(t: Transform, v: Vec2, turn: Turn, across: int)
    requires
        v.x == 0,
        v.y == 0,
    ensures
        displayed(t, v, turn, across) == t,
{
}

/// Product of a matrix with entries of at most two (raw) and one with entries
/// of at most `b`.
fn mat_mul(a: &Mat2, m: &Mat2, b: Ghost<int>) -> (r: Mat2)
    requires
        mat_within(*a, 2 * ONE as int),
        mat_within(*m, b@),
        0 <= b@ <= COMPOSED_MAX as int / 16,
    ensures
        r == mat_product(*a, *m),
        mat_within(r, 4 * b@ + 2),
{
    let ghost two = 2 * ONE as int;
    proof {
        assert(two * b@ <= two * (COMPOSED_MAX as int / 16)) by (nonlinear_arith)
            requires
                0 <= b@ <= COMPOSED_MAX as int / 16,
                two == 8589934592int,
        ;
        lemma_mul_within(a.xx as int, m.xx as int, two, b@);
        lemma_mul_within(a.xy as int, m.yx as int, two, b@);
        lemma_mul_within(a.xx as int, m.xy as int, two, b@);
        lemma_mul_within(a.xy as int, m.yy as int, two, b@);
        lemma_mul_within(a.yx as int, m.xx as int, two, b@);
        lemma_mul_within(a.yy as int, m.yx as int, two, b@);
        lemma_mul_within(a.yx as int, m.xy as int, two, b@);
        lemma_mul_within(a.yy as int, m.yy as int, two, b@);
        lemma_fmul_within(a.xx as int, m.xx as int, two, b@);
        lemma_fmul_within(a.xy as int, m.yx as int, two, b@);
        lemma_fmul_within(a.xx as int, m.xy as int, two, b@);
        lemma_fmul_within(a.xy as int, m.yy as int, two, b@);
        lemma_fmul_within(a.yx as int, m.xx as int, two, b@);
        lemma_fmul_within(a.yy as int, m.yx as int, two, b@);
        lemma_fmul_within(a.yx as int, m.xy as int, two, b@);
        lemma_fmul_within(a.yy as int, m.yy as int, two, b@);
    }
    Mat2 {
        xx: product(a.xx, m.xx) + product(a.xy, m.yx),
        xy: product(a.xx, m.xy) + product(a.xy, m.yy),
        yx: product(a.yx, m.xx) + product(a.yy, m.yx),
        yy: product(a.yx, m.xy) + product(a.yy, m.yy),
    }
}

proof fn lemma_scale_entry(d: int, a: int, b: int, s: int)
    requires
        within(d, ONE as int),
        s == a * a + b * b,
        s > 0,
    ensures
        within(d * a * a, (ONE as int) * s),
        within(d * a * b, (ONE as int) * s),
        within((d * a * a) / s, ONE as int),
        within((d * a * b) / s, ONE as int),
{
    assert(0 <= a * a <= s && 0 <= b * b) by (nonlinear_arith)
        requires
            s == a * a + b * b,
    ;
    assert((a - b) * (a - b) >= 0 && (a + b) * (a + b) >= 0) by (nonlinear_arith);
    assert(within(2 * (a * b), s)) by (nonlinear_arith)
        requires
            (a - b) * (a - b) >= 0,
            (a + b) * (a + b) >= 0,
            s == a * a + b * b,
    ;
    assert(within(d * (a * a), (ONE as int) * s)) by (nonlinear_arith)
        requires
            within(d, ONE as int),
            0 <= a * a <= s,
    ;
    assert(within(d * (a * b), (ONE as int) * s)) by (nonlinear_arith)
        requires
            within(d, ONE as int),
            within(2 * (a * b), s),
            s > 0,
    ;
    assert(d * a * a == d * (a * a) && d * a * b == d * (a * b)) by (nonlinear_arith);
    lemma_div_within(d * a * a, s, ONE as int);
    lemma_div_within(d * a * b, s, ONE as int);
}

/// The map that scales by `f` along `u` and keeps the direction across `u`.
fn scale_matrix(u: &Vec2, f: i128) -> (r: Mat2)
    requires
        subluminal(*u),
        speed_sq(*u) > 0,
        0 <= f <= ONE,
    ensures
        r == scale_of(*u, f as int),
        mat_within(r, 2 * ONE as int),
{
    proof {
        lemma_subluminal_components(*u);
        lemma_mul_within(u.x as int, u.x as int, ONE as int, ONE as int);
        lemma_mul_within(u.y as int, u.y as int, ONE as int, ONE as int);
        assert(u.x * u.x + u.y * u.y >= 0) by (nonlinear_arith);
    }
    let s = u.x * u.x + u.y * u.y;
    let d = f - ONE;
    proof {
        lemma_scale_entry(d as int, u.x as int, u.y as int, s as int);
        lemma_scale_entry(d as int, u.y as int, u.x as int, s as int);
        lemma_mul_within(d as int, u.x as int, ONE as int, ONE as int);
        lemma_mul_within(d as int, u.y as int, ONE as int, ONE as int);
        assert(s <= 18446744073709551616int);
        assert((ONE as int) * s <= 79228162514264337593543950336int) by (nonlinear_arith)
            requires
                0 <= s <= 18446744073709551616int,
        ;
        assert(d * u.y * u.x == d * u.x * u.y) by (nonlinear_arith);
    }
    let xy = div_floor(d * u.x * u.y, s);
    Mat2 {
        xx: ONE + div_floor(d * u.x * u.x, s),
        xy,
        yx: xy,
        yy: ONE + div_floor(d * u.y * u.y, s),
    }
}

/// `p` rotated by `t`.
fn rotate(p: &Vec2, t: &Turn) -> (r: Vec2)
    requires
        vec_within(*p, VIEW_MAX as int),
        within(t.cos as int, ONE as int),
        within(t.sin as int, ONE as int),
    ensures
        (r.x as int, r.y as int) == rotated(*p, *t),
        vec_within(r, POS_MAX as int),
{
    let ghost one = ONE as int;
    let ghost b = VIEW_MAX as int;
    proof {
        lemma_mul_within(t.cos as int, p.x as int, one, b);
        lemma_mul_within(t.sin as int, p.y as int, one, b);
        lemma_mul_within(t.sin as int, p.x as int, one, b);
        lemma_mul_within(t.cos as int, p.y as int, one, b);
        lemma_fmul_within(t.cos as int, p.x as int, one, b);
        lemma_fmul_within(t.sin as int, p.y as int, one, b);
        lemma_fmul_within(t.sin as int, p.x as int, one, b);
        lemma_fmul_within(t.cos as int, p.y as int, one, b);
    }
    Vec2 {
        x: product(t.cos, p.x) - product(t.sin, p.y),
        y: product(t.sin, p.x) + product(t.cos, p.y),
    }
}

/// The display transform of a body with ground truth `t` moving at `v`
/// relative to the observer, given the aberration `turn` (the rotation by
/// the difference between the true and the apparent angle of the body's
/// position to `v`) and the apparent scale `across` of the body across `v`.
/// The ground truth itself is not touched.
pub fn display_transform(t: &Transform, v: &Vec2, turn: &Turn, across: i128) -> (r: Transform)
    requires
        subluminal(*v),
        vec_within(t.translation, VIEW_MAX as int),
        mat_within(t.linear, LINEAR_MAX as int),
        within(turn.cos as int, ONE as int),
        within(turn.sin as int, ONE as int),
        0 < across <= ONE,
    ensures
        r == displayed(*t, *v, *turn, across as int),
{
    if v.x == 0 && v.y == 0 {
        return *t;
    }
    proof {
        lemma_subluminal_components(*v);
        assert(v.x * v.x + v.y * v.y > 0) by (nonlinear_arith)
            requires
                !(v.x == 0 && v.y == 0),
        ;
        assert(speed_sq(perp_vec(*v)) == speed_sq(*v)) by (nonlinear_arith)
            requires
                perp_vec(*v).x == -v.y,
                perp_vec(*v).y == v.x,
        ;
    }
    let g = igamma(v);
    let moved = rotate(&t.translation, turn);
    let translation = contract(&moved, v);
    let along = scale_matrix(v, g);
    let across_m = scale_matrix(&v.perp(), across);
    let tm = Mat2 { xx: turn.cos, xy: -turn.sin, yx: turn.sin, yy: turn.cos };
    let m1 = mat_mul(&along, &t.linear, Ghost(LINEAR_MAX as int));
    let m2 = mat_mul(&tm, &m1, Ghost(4 * LINEAR_MAX as int + 2));
    let m3 = mat_mul(&across_m, &m2, Ghost(16 * LINEAR_MAX as int + 10));
    Transform { translation, linear: m3 }
}

/// The cross product `p x v` of the raw components.
pub open spec fn raw_cross(p: Vec2, v: Vec2) -> int {
    p.x * v.y - p.y * v.x
}

/// The length of `p` (raw, rounded down).
pub open spec fn norm(p: Vec2) -> int {
    floor_sqrt(speed_sq(p))
}

/// `x` held to `[-ONE, ONE]`.
pub open spec fn unit_clamped(x: int) -> int {
    if x < -(ONE as int) {
        -(ONE as int)
    } else if x > ONE as int {
        ONE as int
    } else {
        x
    }
}

/// Cosine of the angle from `p` to `v`.
pub open spec fn cos_between(p: Vec2, v: Vec2) -> int {
    unit_clamped((raw_dot(p, v) * (ONE as int)) / (norm(p) * norm(v)))
}

/// Sine of the signed angle from `p` to `v` (counter-clockwise positive).
pub open spec fn sin_between(p: Vec2, v: Vec2) -> int {
    unit_clamped((raw_cross(p, v) * (ONE as int)) / (norm(p) * norm(v)))
}

/// Cosine of the apparent angle, by the aberration formula
/// `cos t' = (cos t - b) / (1 - b cos t)` for speed `b`.
pub open spec fn apparent_cos(c: int, b: int) -> int {
    unit_clamped(((c - b) * (ONE as int)) / (ONE as int - fmul(c, b)))
}

/// Sine of the apparent angle: `sqrt(1 - cos t'^2)`, with the sign of the
/// true angle (given by its sine `s`).
pub open spec fn apparent_sin(c2: int, s: int) -> int {
    let r = floor_sqrt(ONE_SQ as int - c2 * c2);
    if s >= 0 {
        r
    } else {
        -r
    }
}

/// The aberration turn of a body at `p` moving at `v`: the rotation by
/// `t - t'`, where `t` is the angle from `p` to `v` and `t'` the apparent
/// angle. It turns `p` onto the direction its light appears to come from.
/// With `p` or `v` zero there is no angle and the turn is the identity.
pub open spec fn aberration_of(p: Vec2, v: Vec2) -> Turn {
    if norm(p) == 0 || norm(v) == 0 {
        Turn { cos: ONE, sin: 0 }
    } else {
        let c = cos_between(p, v);
        let s = sin_between(p, v);
        let c2 = apparent_cos(c, norm(v));
        let s2 = apparent_sin(c2, s);
        Turn {
            cos: unit_clamped(fmul(c, c2) + fmul(s, s2)) as i128,
            sin: unit_clamped(fmul(s, c2) - fmul(c, s2)) as i128,
        }
    }
}

fn clamp_unit(x: i128) -> (r: i128)
    ensures
        r == unit_clamped(x as int),
{
    if x < -ONE {
        -ONE
    } else if x > ONE {
        ONE
    } else {
        x
    }
}

/// The length of `p`, rounded down.
fn length(p: &Vec2, b: Ghost<int>) -> (r: i128)
    requires
        vec_within(*p, b@),
        0 <= b@ <= VIEW_MAX as int,
    ensures
        r == norm(*p),
        is_floor_sqrt(r as int, speed_sq(*p)),
        0 <= r <= 2 * b@,
        r == 0 <==> (p.x == 0 && p.y == 0),
{
    proof {
        lemma_mul_within(p.x as int, p.x as int, b@, b@);
        lemma_mul_within(p.y as int, p.y as int, b@, b@);
        assert(b@ * b@ <= 83076749736557242056487941267521536) by (nonlinear_arith)
            requires
                0 <= b@ <= 288230376151711744int,
        ;
        assert(p.x * p.x + p.y * p.y >= 0) by (nonlinear_arith);
        assert(p.x * p.x + p.y * p.y == 0 <==> (p.x == 0 && p.y == 0)) by (nonlinear_arith);
    }
    let n = p.x * p.x + p.y * p.y;
    let r = isqrt(n);
    proof {
        assert(r <= 2 * b@) by (nonlinear_arith)
            requires
                0 <= r,
                r * r <= n,
                n <= 2 * (b@ * b@),
                b@ >= 0,
        {
            if r > 2 * b@ {
                assert(r * r > 4 * (b@ * b@)) by (nonlinear_arith)
                    requires
                        r > 2 * b@,
                        b@ >= 0,
                ;
            }
        }
        assert(r == 0 <==> n == 0) by (nonlinear_arith)
            requires
                0 <= r,
                r * r <= n,
                n < (r + 1) * (r + 1),
        ;
    }
    r
}

/// The aberration turn of a body at ground-truth position `p` moving at `v`
/// relative to the observer (see `aberration_of`).
pub fn aberration(p: &Vec2, v: &Vec2) -> (r: Turn)
    requires
        vec_within(*p, VIEW_MAX as int),
        subluminal(*v),
    ensures
        r == aberration_of(*p, *v),
        within(r.cos as int, ONE as int),
        within(r.sin as int, ONE as int),
{
    proof {
        lemma_subluminal_components(*v);
    }
    let np = length(p, Ghost(VIEW_MAX as int));
    let nv = length(v, Ghost(ONE as int));
    if np == 0 || nv == 0 {
        return Turn { cos: ONE, sin: 0 };
    }
    let ghost one = ONE as int;
    proof {
        assert(nv < ONE) by (nonlinear_arith)
            requires
                is_floor_sqrt(nv as int, speed_sq(*v)),
                speed_sq(*v) < 18446744073709551616int,
        ;
        lemma_mul_within(np as int, nv as int, 2 * (VIEW_MAX as int), one);
        assert(np * nv >= 1) by (nonlinear_arith)
            requires
                np >= 1,
                nv >= 1,
        ;
        lemma_mul_within(p.x as int, v.x as int, VIEW_MAX as int, one);
        lemma_mul_within(p.y as int, v.y as int, VIEW_MAX as int, one);
        lemma_mul_within(p.x as int, v.y as int, VIEW_MAX as int, one);
        lemma_mul_within(p.y as int, v.x as int, VIEW_MAX as int, one);
        let d = p.x * v.x + p.y * v.y;
        let x = p.x * v.y - p.y * v.x;
        lemma_mul_within(d, one, 2 * (VIEW_MAX as int) * one, one);
        lemma_mul_within(x, one, 2 * (VIEW_MAX as int) * one, one);
    }
    let den = np * nv;
    let c = clamp_unit(div_floor((p.x * v.x + p.y * v.y) * ONE, den));
    let s = clamp_unit(div_floor((p.x * v.y - p.y * v.x) * ONE, den));
    proof {
        lemma_mul_within(c as int, nv as int, one, one);
        lemma_fmul_within(c as int, nv as int, one, one - 1);
        lemma_mul_within(c - nv, one, 2 * one, one);
    }
    let c2 = clamp_unit(div_floor((c - nv) * ONE, ONE - product(c, nv)));
    proof {
        lemma_mul_within(c2 as int, c2 as int, one, one);
        assert(c2 * c2 >= 0) by (nonlinear_arith);
    }
    let root = isqrt(ONE_SQ - c2 * c2);
    proof {
        assert(root <= ONE) by (nonlinear_arith)
            requires
                0 <= root,
                root * root <= ONE_SQ - c2 * c2,
                c2 * c2 >= 0,
                ONE_SQ == 18446744073709551616int,
        {
            if root > 4294967296int {
                assert(root * root > 18446744073709551616int) by (nonlinear_arith)
                    requires
                        root > 4294967296int,
                ;
            }
        }
    }
    let s2 = if s >= 0 {
        root
    } else {
        -root
    };
    proof {
        lemma_mul_within(c as int, c2 as int, one, one);
        lemma_mul_within(s as int, s2 as int, one, one);
        lemma_mul_within(s as int, c2 as int, one, one);
        lemma_mul_within(c as int, s2 as int, one, one);
        lemma_fmul_within(c as int, c2 as int, one, one);
        lemma_fmul_within(s as int, s2 as int, one, one);
        lemma_fmul_within(s as int, c2 as int, one, one);
        lemma_fmul_within(c as int, s2 as int, one, one);
    }
    Turn {
        cos: clamp_unit(product(c, c2) + product(s, s2)),
        sin: clamp_unit(product(s, c2) - product(c, s2)),
    }
}

/// The display transform of a body with ground truth `t` moving at `v`
/// relative to the observer, with the aberration turn worked out from its
/// position; `across` is the apparent scale of the body across `v`.
pub fn display_of(t: &Transform, v: &Vec2, across: i128) -> (r: Transform)
    requires
        subluminal(*v),
        vec_within(t.translation, VIEW_MAX as int),
        mat_within(t.linear, LINEAR_MAX as int),
        0 < across <= ONE,
    ensures
        r == displayed(*t, *v, aberration_of(t.translation, *v), across as int),
{
    let turn = aberration(&t.translation, v);
    display_transform(t, v, &turn, across)
}

} // verus!
