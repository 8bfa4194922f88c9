//! Thrusters: bodies that push themselves along their heading.
use vstd::prelude::*;
use crate::fixed::{fmul, lemma_fmul_error, lemma_fmul_within, lemma_mul_within, product, within, ONE, ONE_SQ};
use crate::kinematics::FORCE_MAX;
use crate::render::Turn;
use crate::vector::{vec_within, Vec2};

verus! {

/// A linear engine: while running it pushes along the body's heading with
/// its thrust, held to `[0, max_thrust]`.
#[derive(Clone, Copy, Debug, PartialEq, Eq, Structural)]
pub struct Engine {
    pub thrust: i128,
    pub max_thrust: i128,
    pub running: bool,
}

/// Which way a vector engine turns the body.
#[derive(Clone, Copy, Debug, PartialEq, Eq, Structural)]
pub enum VectorEngineMode {
    Right,
    Left,
    Off,
}

/// A steering engine and the angular velocity it gives (raw).
#[derive(Clone, Copy, Debug, PartialEq, Eq, Structural)]
pub struct VectorEngine {
    pub mode: VectorEngineMode,
    pub angular_v: i128,
}

impl Default for Engine {
    fn default() -> (r: Engine)
        ensures
            r.thrust == 0,
            r.max_thrust == ONE,
            !r.running,
    {
        Engine { thrust: 0, max_thrust: ONE, running: false }
    }
}

impl Default for VectorEngine {
    fn default() -> (r: VectorEngine)
        ensures
            r.mode == VectorEngineMode::Off,
            r.angular_v == 0,
    {
        VectorEngine { mode: VectorEngineMode::Off, angular_v: 0 }
    }
}

/// `x` held to `[lo, hi]`.
pub open spec fn clamped(x: int, lo: int, hi: int) -> int {
    if x < lo {
        lo
    } else if x > hi {
        hi
    } else {
        x
    }
}

/// The force an engine gives a body with heading `heading`: zero when off,
/// else the heading's unit vector times the clamped thrust.
pub open spec fn engine_force_of(e: Engine, heading: Turn) -> (int, int) {
    if !e.running {
        (0, 0)
    } else {
        let t = clamped(e.thrust as int, 0, e.max_thrust as int);
        (fmul(heading.cos as int, t), fmul(heading.sin as int, t))
    }
}

impl Engine {
    /// The force this engine adds this tick to a body heading along `heading`
    /// (a direction: its length is at most one). The force is never longer
    /// than the largest thrust.
    pub fn force(&self, heading: &Turn) -> (r: Vec2)
        requires
            0 <= self.max_thrust <= FORCE_MAX,
            heading.cos * heading.cos + heading.sin * heading.sin <= ONE_SQ,
        ensures
            (r.x as int, r.y as int) == engine_force_of(*self, *heading),
            vec_within(r, FORCE_MAX as int),
            r.x * r.x + r.y * r.y <= self.max_thrust * self.max_thrust,
    {
        let ghost c = heading.cos as int;
        let ghost sn = heading.sin as int;
        let ghost one = ONE as int;
        proof {
            assert(within(c, one) && within(sn, one)) by (nonlinear_arith)
                requires
                    c * c + sn * sn <= 18446744073709551616int,
                    one == 4294967296int,
            ;
        }
        if !self.running {
            return Vec2 { x: 0, y: 0 };
        }
        let t = if self.thrust < 0 {
            0
        } else if self.thrust > self.max_thrust {
            self.max_thrust
        } else {
            self.thrust
        };
        proof {
            lemma_mul_within(heading.cos as int, t as int, ONE as int, FORCE_MAX as int);
            lemma_mul_within(heading.sin as int, t as int, ONE as int, FORCE_MAX as int);
            lemma_fmul_within(heading.cos as int, t as int, ONE as int, FORCE_MAX as int);
            lemma_fmul_within(heading.sin as int, t as int, ONE as int, FORCE_MAX as int);
            let fx = fmul(c, t as int);
            let fy = fmul(sn, t as int);
            let m = self.max_thrust as int;
            lemma_fmul_error(c, t as int);
            lemma_fmul_error(sn, t as int);
            assert((fx * one) * (fx * one) <= (c * t) * (c * t)) by (nonlinear_arith)
                requires
                    c * t >= 0 ==> 0 <= fx * one <= c * t,
                    c * t <= 0 ==> c * t <= fx * one <= 0,
            ;
            assert((fy * one) * (fy * one) <= (sn * t) * (sn * t)) by (nonlinear_arith)
                requires
                    sn * t >= 0 ==> 0 <= fy * one <= sn * t,
                    sn * t <= 0 ==> sn * t <= fy * one <= 0,
            ;
            assert((fx * one) * (fx * one) == (fx * fx) * (one * one)) by (nonlinear_arith);
            assert((fy * one) * (fy * one) == (fy * fy) * (one * one)) by (nonlinear_arith);
            assert((c * t) * (c * t) == (c * c) * (t * t)) by (nonlinear_arith);
            assert((sn * t) * (sn * t) == (sn * sn) * (t * t)) by (nonlinear_arith);
            assert((fx * fx + fy * fy) * (one * one) == (fx * fx) * (one * one) + (fy * fy) * (one * one))
                by (nonlinear_arith);
            assert((c * c + sn * sn) * (t * t) == (c * c) * (t * t) + (sn * sn) * (t * t)) by (nonlinear_arith);
            assert((fx * fx + fy * fy) * (one * one) <= (c * c + sn * sn) * (t * t));
            assert(fx * fx + fy * fy <= m * m) by (nonlinear_arith)
                requires
                    (fx * fx + fy * fy) * (one * one) <= (c * c + sn * sn) * (t * t),
                    c * c + sn * sn <= one * one,
                    0 <= t <= m,
                    one > 0,
            {
                assert((c * c + sn * sn) * (t * t) <= (one * one) * (m * m)) by (nonlinear_arith)
                    requires
                        0 <= c * c + sn * sn <= one * one,
                        0 <= t <= m,
                ;
            }
        }
        Vec2 { x: product(heading.cos, t), y: product(heading.sin, t) }
    }
}

} // verus!
