//! The simulated bodies, their arena, and the fixed-tick dynamics integrator.
use vstd::prelude::*;
use crate::fixed::{fmul, lemma_fmul_within, lemma_mul_within, product, within, ONE, ONE_SQ};
use crate::kinematics::{
    accel_of, boost, boosted, from_force, gamma, inverse_of, lemma_inv_lorentz_range,
    lemma_subluminal_components, inverse_mass_in_range, lorentz, mass_in_range, subluminal, InverseMass, FORCE_MAX,
    INV_MASS_MAX, MASS_MAX, MASS_MIN, OWN_ACCEL_MAX, POS_MAX,
};
use crate::vector::{neg_vec, to_vec, vec_within, Vec2};

verus! {

/// Largest tick length, time factor, and simulated time per tick (raw):
/// `2^28` seconds, the range of the model.
pub const STEP_MAX: i128 = 1152921504606846976;

/// The time factor of a world that runs at real speed: one.
pub const DEFAULT_TIME_FACTOR: i128 = 4294967296;

/// Largest magnitude of an acceleration component (raw) a body may carry.
pub const ACCEL_MAX: i128 = 73786976294838206464;

/// Largest proper time (raw) a clock may show.
pub const TIME_MAX: i128 = 1267650600228229401496703205376;

/// The part a body plays in the simulation.
#[derive(Clone, Copy, Debug, PartialEq, Eq, Structural)]
pub enum Role {
    /// The body whose frame the simulation is computed in.
    Observer,
    /// The stationary body that the observer's clock and position are reported against.
    Reference,
    Ordinary,
}

/// Why a simulation step or request was refused.
#[derive(Clone, Copy, Debug, PartialEq, Eq, Structural)]
pub enum PhysicsError {
    /// No body plays the role.
    Missing(Role),
    /// More than one body plays the role.
    Duplicate(Role),
    /// A velocity would reach or exceed the speed of light.
    Superluminal,
    /// A quantity would leave the range the fixed-point model holds.
    OutOfRange,
    /// The handle names no body.
    UnknownBody,
}

/// The state of one simulated body.
#[derive(Clone, Copy, Debug, PartialEq, Eq, Structural)]
pub struct Body {
    pub role: Role,
    pub inverse_mass: InverseMass,
    /// Force accumulated during the current tick.
    pub force: Vec2,
    pub acceleration: Vec2,
    pub velocity: Vec2,
    /// Time shown by the body's own clock.
    pub proper_time: i128,
    /// Ground-truth position in the world.
    pub position: Vec2,
}

/// A body whose quantities all lie in the ranges the integrator works in.
pub open spec fn valid_body(b: Body) -> bool {
    &&& 0 <= b.inverse_mass.0 <= INV_MASS_MAX
    &&& inverse_mass_in_range(b.inverse_mass.0 as int)
    &&& vec_within(b.force, FORCE_MAX as int)
    &&& vec_within(b.acceleration, ACCEL_MAX as int)
    &&& subluminal(b.velocity)
    &&& 0 <= b.proper_time <= TIME_MAX
    &&& vec_within(b.position, POS_MAX as int)
}

/// Body `i` of `s` plays `role`.
pub open spec fn plays(s: Seq<Body>, i: int, role: Role) -> bool {
    0 <= i < s.len() && s[i].role == role
}

/// Body `i` is the only one of `s` that plays `role`.
pub open spec fn sole(s: Seq<Body>, i: int, role: Role) -> bool {
    plays(s, i, role) && forall|j: int| #[trigger] plays(s, j, role) ==> j == i
}

/// No body of `s` plays `role`.
pub open spec fn none_plays(s: Seq<Body>, role: Role) -> bool {
    forall|j: int| 0 <= j < s.len() ==> s[j].role != role
}

/// Two different bodies of `s` play `role`.
pub open spec fn several_play(s: Seq<Body>, role: Role) -> bool {
    exists|i: int, j: int| plays(s, i, role) && plays(s, j, role) && i != j
}

/// Exactly one body of `s` plays `role`.
pub open spec fn has_sole(s: Seq<Body>, role: Role) -> bool {
    exists|i: int| sole(s, i, role)
}

/// The body that alone plays `role` in `s`.
pub open spec fn sole_index(s: Seq<Body>, role: Role) -> int {
    choose|i: int| sole(s, i, role)
}

/// The index of the one body that plays `role`; an error if there is none
/// or more than one.
pub fn find_sole(bodies: &Vec<Body>, role: Role) -> (r: Result<usize, PhysicsError>)
    ensures
        r is Ok <==> has_sole(bodies@, role),
        r is Ok ==> r->Ok_0 as int == sole_index(bodies@, role) && sole(bodies@, r->Ok_0 as int, role),
        r == Err::<usize, PhysicsError>(PhysicsError::Missing(role)) <==> none_plays(bodies@, role),
        r == Err::<usize, PhysicsError>(PhysicsError::Duplicate(role)) <==> several_play(bodies@, role),
        r is Err ==> r == Err::<usize, PhysicsError>(PhysicsError::Missing(role)) || r == Err::<
            usize,
            PhysicsError,
        >(PhysicsError::Duplicate(role)),
{
    let mut found: Option<usize> = None;
    let mut i: usize = 0;
    while i < bodies.len()
        invariant
            0 <= i <= bodies.len(),
            found is None ==> forall|j: int| 0 <= j < i ==> bodies@[j].role != role,
            found is Some ==> {
                let f = found->Some_0 as int;
                &&& f < i
                &&& plays(bodies@, f, role)
                &&& forall|j: int| 0 <= j < i && j != f ==> bodies@[j].role != role
            },
        decreases bodies.len() - i,
    {
        if bodies[i].role == role {
            match found {
                Some(f) => {
                    assert(plays(bodies@, f as int, role) && plays(bodies@, i as int, role));
                    return Err(PhysicsError::Duplicate(role));
                },
                None => {
                    found = Some(i);
                },
            }
        }
        i += 1;
    }
    match found {
        Some(f) => {
            assert(sole(bodies@, f as int, role));
            proof {
                if several_play(bodies@, role) {
                    let (a, b) = choose|a: int, b: int|
                        plays(bodies@, a, role) && plays(bodies@, b, role) && a != b;
                    assert(false);
                }
                let c = sole_index(bodies@, role);
                assert(sole(bodies@, c, role));
                assert(plays(bodies@, f as int, role));
            }
            Ok(f)
        },
        None => {
            proof {
                if has_sole(bodies@, role) {
                    let c = sole_index(bodies@, role);
                    assert(plays(bodies@, c, role));
                }
            }
            Err(PhysicsError::Missing(role))
        },
    }
}

/// Whether `v` is slower than light; any pair of components may be asked.
pub fn is_subluminal(v: &Vec2) -> (r: bool)
    ensures
        r == subluminal(*v),
{
    if v.x <= -ONE || v.x >= ONE || v.y <= -ONE || v.y >= ONE {
        proof {
            assert(!subluminal(*v)) by (nonlinear_arith)
                requires
                    v.x <= -4294967296int || v.x >= 4294967296int || v.y <= -4294967296int
                        || v.y >= 4294967296int,
            ;
        }
        return false;
    }
    proof {
        lemma_mul_within(v.x as int, v.x as int, ONE as int, ONE as int);
        lemma_mul_within(v.y as int, v.y as int, ONE as int, ONE as int);
    }
    v.x * v.x + v.y * v.y < ONE_SQ
}

/// The acceleration a body's own force gives it.
pub open spec fn own_accel(b: Body) -> Vec2 {
    to_vec(accel_of(b.inverse_mass.0 as int, b.force))
}

/// Acceleration of a body in the frame of an observer accelerating at `a_obs`:
/// the observer's acceleration, boosted into the body's rest frame, is taken
/// from the body's own, and the difference is boosted back.
pub open spec fn frame_accel(b: Body, a_obs: Vec2) -> Vec2 {
    let seen = to_vec(boosted(a_obs, neg_vec(b.velocity)));
    let own = own_accel(b);
    to_vec(boosted(Vec2 { x: (own.x - seen.x) as i128, y: (own.y - seen.y) as i128 }, b.velocity))
}

/// The bodies after the acceleration stage, with observer `o`.
pub open spec fn accelerated(s: Seq<Body>, o: int) -> Seq<Body> {
    Seq::new(
        s.len(),
        |i: int|
            Body {
                acceleration: if i == o {
                    own_accel(s[i])
                } else {
                    frame_accel(s[i], own_accel(s[o]))
                },
                ..s[i]
            },
    )
}

/// The velocity of `b` after one step of length `h`, before any range check.
pub open spec fn velocity_sum(b: Body, h: int) -> (int, int) {
    (b.velocity.x + fmul(b.acceleration.x as int, h), b.velocity.y + fmul(b.acceleration.y as int, h))
}

/// The pair is slower than light.
pub open spec fn subluminal_pair(p: (int, int)) -> bool {
    p.0 * p.0 + p.1 * p.1 < ONE_SQ as int
}

/// Every body but the observer `o` stays slower than light after one step.
pub open spec fn velocities_stay_subluminal(s: Seq<Body>, o: int, h: int) -> bool {
    forall|i: int| 0 <= i < s.len() && i != o ==> subluminal_pair(#[trigger] velocity_sum(s[i], h))
}

/// The bodies after the velocity stage: every body but the observer `o`
/// gains its acceleration times the step.
pub open spec fn velocities_advanced(s: Seq<Body>, o: int, h: int) -> Seq<Body> {
    Seq::new(
        s.len(),
        |i: int|
            if i == o {
                s[i]
            } else {
                Body { velocity: to_vec(velocity_sum(s[i], h)), ..s[i] }
            },
    )
}

/// One component of the displacement of `b` in one step: `gamma * v * h`.
pub open spec fn displacement(vc: int, b: Body, h: int) -> int {
    fmul(fmul(lorentz(b.velocity), vc), h)
}

/// The position of `b` after one step of length `h`.
pub open spec fn moved_position(b: Body, h: int) -> (int, int) {
    (
        b.position.x + displacement(b.velocity.x as int, b, h),
        b.position.y + displacement(b.velocity.y as int, b, h),
    )
}

/// The proper time of `b` after one step of length `h`: it gains `gamma * h`.
pub open spec fn advanced_time(b: Body, h: int) -> int {
    b.proper_time + fmul(lorentz(b.velocity), h)
}

/// After one step `b` still lies in the range the model holds.
pub open spec fn stays_in_range(b: Body, h: int) -> bool {
    let p = moved_position(b, h);
    within(p.0, POS_MAX as int) && within(p.1, POS_MAX as int) && advanced_time(b, h) <= TIME_MAX
}

pub open spec fn all_stay_in_range(s: Seq<Body>, h: int) -> bool {
    forall|i: int| 0 <= i < s.len() ==> stays_in_range(#[trigger] s[i], h)
}

/// The bodies after the position stage.
pub open spec fn moved(s: Seq<Body>, h: int) -> Seq<Body> {
    Seq::new(
        s.len(),
        |i: int|
            Body {
                position: to_vec(moved_position(s[i], h)),
                proper_time: advanced_time(s[i], h) as i128,
                ..s[i]
            },
    )
}

/// The bodies with every force reset to zero.
pub open spec fn forces_cleared(s: Seq<Body>) -> Seq<Body> {
    Seq::new(s.len(), |i: int| Body { force: Vec2 { x: 0, y: 0 }, ..s[i] })
}

/// The simulation: the body arena, where a body's handle is its index, and
/// the clock settings.
pub struct World {
    pub bodies: Vec<Body>,
    /// Length of one fixed tick (raw seconds).
    pub time_step: i128,
    /// Simulation-speed multiplier (raw).
    pub time_factor: i128,
}

impl World {
    /// The simulated time that passes in one tick: `time_step * time_factor`.
    pub open spec fn step_size(&self) -> int {
        fmul(self.time_step as int, self.time_factor as int)
    }

    pub open spec fn wf(&self) -> bool {
        &&& 0 < self.time_step <= STEP_MAX
        &&& 0 < self.time_factor <= STEP_MAX
        &&& 1 <= self.step_size() <= STEP_MAX
        &&& forall|i: int| 0 <= i < self.bodies@.len() ==> valid_body(#[trigger] self.bodies@[i])
    }

    /// An empty world ticking `time_step` at speed `time_factor`; both must be
    /// positive, in range, and give a step of at least one raw unit.
    pub fn new(time_step: i128, time_factor: i128) -> (r: Result<World, PhysicsError>)
        ensures
            r is Ok <==> (0 < time_step <= STEP_MAX && 0 < time_factor <= STEP_MAX && 1 <= fmul(
                time_step as int,
                time_factor as int,
            ) <= STEP_MAX),
            r is Ok ==> {
                let w = r->Ok_0;
                &&& w.wf()
                &&& w.bodies@.len() == 0
                &&& w.time_step == time_step
                &&& w.time_factor == time_factor
            },
            r is Err ==> r == Err::<World, PhysicsError>(PhysicsError::OutOfRange),
    {
        if time_step <= 0 || time_step > STEP_MAX || time_factor <= 0 || time_factor > STEP_MAX {
            return Err(PhysicsError::OutOfRange);
        }
        proof {
            lemma_mul_within(time_step as int, time_factor as int, STEP_MAX as int, STEP_MAX as int);
        }
        let h = product(time_step, time_factor);
        if h < 1 || h > STEP_MAX {
            return Err(PhysicsError::OutOfRange);
        }
        Ok(World { bodies: Vec::new(), time_step, time_factor })
    }

    /// An empty world ticking `time_step` at the default speed
    /// (`DEFAULT_TIME_FACTOR`, one); the step must be positive and at most
    /// `STEP_MAX`.
    pub fn with_time_step(time_step: i128) -> (r: Result<World, PhysicsError>)
        ensures
            r is Ok <==> 0 < time_step <= STEP_MAX,
            r is Ok ==> {
                let w = r->Ok_0;
                &&& w.wf()
                &&& w.bodies@.len() == 0
                &&& w.time_step == time_step
                &&& w.time_factor == DEFAULT_TIME_FACTOR
                &&& w.step_size() == time_step
            },
            r is Err ==> r == Err::<World, PhysicsError>(PhysicsError::OutOfRange),
    {
        proof {
            let x = time_step as int;
            if x >= 0 {
                assert((x * 4294967296) / 4294967296 == x);
            }
            assert(fmul(x, DEFAULT_TIME_FACTOR as int) == x);
        }
        World::new(time_step, DEFAULT_TIME_FACTOR)
    }

    /// The body that `handle` names, if any.
    pub fn body(&self, handle: usize) -> (r: Option<Body>)
        ensures
            r is Some <==> handle < self.bodies@.len(),
            r is Some ==> r->Some_0 == self.bodies@[handle as int],
    {
        if handle < self.bodies.len() {
            Some(self.bodies[handle])
        } else {
            None
        }
    }

    /// Adds a body at rest on its own clock, with no force or acceleration,
    /// and returns its handle. A zero mass is infinite (the body cannot be
    /// pushed). Refused: a velocity not below light speed (`Superluminal`);
    /// a mass that is neither zero nor in `[MASS_MIN, MASS_MAX]`, or a
    /// position out of range (`OutOfRange`).
    /// A positive mass that is accepted has a positive inverse mass.
    pub fn spawn(&mut self, role: Role, mass: i128, velocity: Vec2, position: Vec2) -> (r: Result<usize, PhysicsError>)
        requires
            old(self).wf(),
        ensures
            final(self).wf(),
            final(self).time_step == old(self).time_step,
            final(self).time_factor == old(self).time_factor,
            r == Err::<usize, PhysicsError>(PhysicsError::Superluminal) <==> !subluminal(velocity),
            r == Err::<usize, PhysicsError>(PhysicsError::OutOfRange) <==> subluminal(velocity) && !(
                mass_in_range(mass as int) && vec_within(
                position,
                POS_MAX as int,
            )),
            r is Err ==> r == Err::<usize, PhysicsError>(PhysicsError::Superluminal) || r == Err::<
                usize,
                PhysicsError,
            >(PhysicsError::OutOfRange),
            r is Err ==> final(self).bodies@ == old(self).bodies@,
            r is Ok && mass > 0 ==> final(self).bodies@.last().inverse_mass.0 > 0,
            r is Ok ==> r->Ok_0 == old(self).bodies@.len() && final(self).bodies@ == old(self).bodies@.push(
                new_body(role, inverse_of(mass as int), velocity, position)),
    {
        if !is_subluminal(&velocity) {
            return Err(PhysicsError::Superluminal);
        }
        if mass < 0 || (0 < mass && mass < MASS_MIN) || mass > MASS_MAX || position.x < -POS_MAX || position.x > POS_MAX || position.y < -POS_MAX
            || position.y > POS_MAX {
            return Err(PhysicsError::OutOfRange);
        }
        let inv = InverseMass::from_mass(mass);
        let b = Body {
            role,
            inverse_mass: inv,
            force: Vec2 { x: 0, y: 0 },
            acceleration: Vec2 { x: 0, y: 0 },
            velocity,
            proper_time: 0,
            position,
        };
        let handle = self.bodies.len();
        self.bodies.push(b);
        proof {
            assert(self.bodies@ == old(self).bodies@.push(new_body(role, inverse_of(mass as int), velocity, position)));
            assert forall|i: int| 0 <= i < self.bodies@.len() implies valid_body(#[trigger] self.bodies@[i]) by {
                if i < old(self).bodies@.len() {
                    assert(self.bodies@[i] == old(self).bodies@[i]);
                }
            }
        }
        Ok(handle)
    }

    /// Adds `f` to the force on body `handle` for the current tick. Refused:
    /// a handle that names no body (`UnknownBody`); a total force out of range
    /// (`OutOfRange`).
    pub fn add_force(&mut self, handle: usize, f: Vec2) -> (r: Result<(), PhysicsError>)
        requires
            old(self).wf(),
        ensures
            final(self).wf(),
            final(self).time_step == old(self).time_step,
            final(self).time_factor == old(self).time_factor,
            r == Err::<(), PhysicsError>(PhysicsError::UnknownBody) <==> handle >= old(self).bodies@.len(),
            r == Err::<(), PhysicsError>(PhysicsError::OutOfRange) <==> handle < old(self).bodies@.len() && !(
                within(old(self).bodies@[handle as int].force.x + f.x, FORCE_MAX as int) && within(
                old(self).bodies@[handle as int].force.y + f.y, FORCE_MAX as int)),
            r is Err ==> r == Err::<(), PhysicsError>(PhysicsError::UnknownBody) || r == Err::<
                (),
                PhysicsError,
            >(PhysicsError::OutOfRange),
            r is Err ==> final(self).bodies@ == old(self).bodies@,
            r is Ok ==> final(self).bodies@ == old(self).bodies@.update(
                handle as int,
                Body {
                    force: Vec2 {
                        x: (old(self).bodies@[handle as int].force.x + f.x) as i128,
                        y: (old(self).bodies@[handle as int].force.y + f.y) as i128,
                    },
                    ..old(self).bodies@[handle as int]
                },
            ),
    {
        if handle >= self.bodies.len() {
            return Err(PhysicsError::UnknownBody);
        }
        let b = self.bodies[handle];
        if f.x < -2 * FORCE_MAX || f.x > 2 * FORCE_MAX || f.y < -2 * FORCE_MAX || f.y > 2 * FORCE_MAX {
            return Err(PhysicsError::OutOfRange);
        }
        let x = b.force.x + f.x;
        let y = b.force.y + f.y;
        if x < -FORCE_MAX || x > FORCE_MAX || y < -FORCE_MAX || y > FORCE_MAX {
            return Err(PhysicsError::OutOfRange);
        }
        let nb = Body { force: Vec2 { x, y }, ..b };
        self.bodies.set(handle, nb);
        proof {
            assert forall|i: int| 0 <= i < self.bodies@.len() implies valid_body(#[trigger] self.bodies@[i]) by {
                if i != handle as int {
                    assert(self.bodies@[i] == old(self).bodies@[i]);
                }
            }
        }
        Ok(())
    }
}

/// A freshly spawned body.
pub open spec fn new_body(role: Role, inv: int, velocity: Vec2, position: Vec2) -> Body {
    Body {
        role,
        inverse_mass: InverseMass(inv as i128),
        force: Vec2 { x: 0, y: 0 },
        acceleration: Vec2 { x: 0, y: 0 },
        velocity,
        proper_time: 0,
        position,
    }
}

/// The acceleration of `b` in the frame of an observer accelerating at `a_obs`.
pub fn frame_acceleration(b: &Body, a_obs: &Vec2) -> (r: Vec2)
    requires
        valid_body(*b),
        vec_within(*a_obs, OWN_ACCEL_MAX as int),
    ensures
        r == frame_accel(*b, *a_obs),
        vec_within(r, ACCEL_MAX as int),
{
    let own = from_force(&b.inverse_mass, &b.force);
    proof {
        lemma_subluminal_components(b.velocity);
        let v = b.velocity;
        assert(subluminal(neg_vec(v))) by (nonlinear_arith)
            requires
                v.x * v.x + v.y * v.y < 18446744073709551616int,
                within(v.x as int, 4294967295),
                within(v.y as int, 4294967295),
                neg_vec(v).x == -v.x,
                neg_vec(v).y == -v.y,
        ;
    }
    let nv = b.velocity.neg();
    let seen = boost(a_obs, &nv);
    let diff = own.sub(&seen);
    let r = boost(&diff, &b.velocity);
    r
}

impl World {
    /// Acceleration stage: the observer's acceleration is its force times its
    /// inverse mass; every other body's is corrected for the observer's frame
    /// (see `frame_accel`). Refused, with nothing changed, unless exactly one
    /// body is the observer.
    pub fn update_acceleration(&mut self) -> (r: Result<(), PhysicsError>)
        requires
            old(self).wf(),
        ensures
            final(self).wf(),
            final(self).time_step == old(self).time_step,
            final(self).time_factor == old(self).time_factor,
            r is Ok <==> has_sole(old(self).bodies@, Role::Observer),
            r == Err::<(), PhysicsError>(PhysicsError::Missing(Role::Observer)) <==> none_plays(
                old(self).bodies@,
                Role::Observer,
            ),
            r == Err::<(), PhysicsError>(PhysicsError::Duplicate(Role::Observer)) <==> several_play(
                old(self).bodies@,
                Role::Observer,
            ),
            r is Err ==> final(self).bodies@ == old(self).bodies@,
            r is Err ==> r == Err::<(), PhysicsError>(PhysicsError::Missing(Role::Observer)) || r == Err::<
                (),
                PhysicsError,
            >(PhysicsError::Duplicate(Role::Observer)),
            r is Ok ==> final(self).bodies@ == accelerated(
                old(self).bodies@,
                sole_index(old(self).bodies@, Role::Observer),
            ),
    {
        let o = match find_sole(&self.bodies, Role::Observer) {
            Ok(o) => o,
            Err(e) => {
                return Err(e);
            },
        };
        let ghost s0 = self.bodies@;
        let obs = self.bodies[o];
        assert(valid_body(s0[o as int]));
        let a_obs = from_force(&obs.inverse_mass, &obs.force);
        let n = self.bodies.len();
        let mut i: usize = 0;
        while i < n
            invariant
                n == self.bodies@.len() == s0.len(),
                0 <= i <= n,
                o < n,
                s0 == old(self).bodies@,
                o as int == sole_index(s0, Role::Observer),
                a_obs == own_accel(s0[o as int]),
                vec_within(a_obs, OWN_ACCEL_MAX as int),
                self.time_step == old(self).time_step,
                self.time_factor == old(self).time_factor,
                old(self).wf(),
                forall|j: int| 0 <= j < i ==> self.bodies@[j] == #[trigger] accelerated(s0, o as int)[j],
                forall|j: int| 0 <= j < i ==> valid_body(#[trigger] self.bodies@[j]),
                forall|j: int| i <= j < n ==> self.bodies@[j] == s0[j],
            decreases n - i,
        {
            let b = self.bodies[i];
            assert(valid_body(s0[i as int]));
            assert(OWN_ACCEL_MAX as int <= ACCEL_MAX as int);
            let a = if i == o {
                a_obs
            } else {
                frame_acceleration(&b, &a_obs)
            };
            let nb = Body { acceleration: a, ..b };
            self.bodies.set(i, nb);
            i += 1;
        }
        proof {
            assert(self.bodies@ =~= accelerated(s0, o as int));
        }
        Ok(())
    }
}

/// The velocity of `b` after one step of length `h`.
fn next_velocity(b: &Body, h: i128) -> (r: Vec2)
    requires
        valid_body(*b),
        1 <= h <= STEP_MAX,
    ensures
        (r.x as int, r.y as int) == velocity_sum(*b, h as int),
{
    proof {
        lemma_subluminal_components(b.velocity);
        lemma_mul_within(b.acceleration.x as int, h as int, ACCEL_MAX as int, STEP_MAX as int);
        lemma_mul_within(b.acceleration.y as int, h as int, ACCEL_MAX as int, STEP_MAX as int);
        lemma_fmul_within(b.acceleration.x as int, h as int, ACCEL_MAX as int, STEP_MAX as int);
        lemma_fmul_within(b.acceleration.y as int, h as int, ACCEL_MAX as int, STEP_MAX as int);
    }
    Vec2 {
        x: b.velocity.x + product(b.acceleration.x, h),
        y: b.velocity.y + product(b.acceleration.y, h),
    }
}

/// The position and proper time of `b` after one step of length `h`.
fn next_place(b: &Body, h: i128) -> (r: (Vec2, i128))
    requires
        valid_body(*b),
        1 <= h <= STEP_MAX,
    ensures
        (r.0.x as int, r.0.y as int) == moved_position(*b, h as int),
        r.1 == advanced_time(*b, h as int),
{
    let g = gamma(&b.velocity);
    let ghost one = ONE as int;
    let ghost hm = STEP_MAX as int;
    proof {
        lemma_subluminal_components(b.velocity);
        lemma_mul_within(g as int, b.velocity.x as int, ONE_SQ as int, one);
        lemma_mul_within(g as int, b.velocity.y as int, ONE_SQ as int, one);
        lemma_fmul_within(g as int, b.velocity.x as int, ONE_SQ as int, one);
        lemma_fmul_within(g as int, b.velocity.y as int, ONE_SQ as int, one);
        lemma_mul_within(g as int, h as int, ONE_SQ as int, hm);
        lemma_fmul_within(g as int, h as int, ONE_SQ as int, hm);
    }
    let gx = product(g, b.velocity.x);
    let gy = product(g, b.velocity.y);
    proof {
        lemma_mul_within(gx as int, h as int, ONE_SQ as int + 1, hm);
        lemma_mul_within(gy as int, h as int, ONE_SQ as int + 1, hm);
        lemma_fmul_within(gx as int, h as int, ONE_SQ as int + 1, hm);
        lemma_fmul_within(gy as int, h as int, ONE_SQ as int + 1, hm);
    }
    let p = Vec2 { x: b.position.x + product(gx, h), y: b.position.y + product(gy, h) };
    (p, b.proper_time + product(g, h))
}

/// A body's clock gains at least one raw unit in every step: the Lorentz
/// factor is at least one, so proper time strictly increases for any body
/// slower than light.
pub proof fn lemma_proper_time_advances(b: Body, h: int)
    requires
        subluminal(b.velocity),
        h >= 1,
    ensures
        advanced_time(b, h) >= b.proper_time + h,
        advanced_time(b, h) > b.proper_time,
{
    lemma_inv_lorentz_range(b.velocity);
    let ig = crate::kinematics::inv_lorentz(b.velocity);
    let g = lorentz(b.velocity);
    assert(g >= ONE as int) by (nonlinear_arith)
        requires
            1 <= ig <= 4294967296int,
            g == 18446744073709551616int / ig,
    ;
    assert(fmul(g, h) >= h) by (nonlinear_arith)
        requires
            g >= 4294967296int,
            h >= 1,
            fmul(g, h) == (g * h) / 4294967296int,
    ;
}

impl World {
    /// Velocity stage: every body but the observer gains its acceleration
    /// times the step; the observer's frame is the zero of velocity. Refused,
    /// with nothing changed, unless exactly one body is the observer, or if a
    /// velocity would reach the speed of light (`Superluminal`).
    pub fn update_velocity(&mut self) -> (r: Result<(), PhysicsError>)
        requires
            old(self).wf(),
        ensures
            final(self).wf(),
            final(self).time_step == old(self).time_step,
            final(self).time_factor == old(self).time_factor,
            r == Err::<(), PhysicsError>(PhysicsError::Missing(Role::Observer)) <==> none_plays(
                old(self).bodies@,
                Role::Observer,
            ),
            r == Err::<(), PhysicsError>(PhysicsError::Duplicate(Role::Observer)) <==> several_play(
                old(self).bodies@,
                Role::Observer,
            ),
            r is Ok <==> has_sole(old(self).bodies@, Role::Observer) && velocities_stay_subluminal(
                old(self).bodies@,
                sole_index(old(self).bodies@, Role::Observer),
                old(self).step_size(),
            ),
            r == Err::<(), PhysicsError>(PhysicsError::Superluminal) <==> has_sole(
                old(self).bodies@,
                Role::Observer,
            ) && !velocities_stay_subluminal(
                old(self).bodies@,
                sole_index(old(self).bodies@, Role::Observer),
                old(self).step_size(),
            ),
            r is Err ==> r == Err::<(), PhysicsError>(PhysicsError::Missing(Role::Observer)) || r == Err::<
                (),
                PhysicsError,
            >(PhysicsError::Duplicate(Role::Observer)) || r == Err::<(), PhysicsError>(
                PhysicsError::Superluminal,
            ),
            r is Err ==> final(self).bodies@ == old(self).bodies@,
            r is Ok ==> final(self).bodies@ == velocities_advanced(
                old(self).bodies@,
                sole_index(old(self).bodies@, Role::Observer),
                old(self).step_size(),
            ),
    {
        let o = match find_sole(&self.bodies, Role::Observer) {
            Ok(o) => o,
            Err(e) => {
                return Err(e);
            },
        };
        let h = product(self.time_step, self.time_factor);
        let ghost s0 = self.bodies@;
        let n = self.bodies.len();
        let mut i: usize = 0;
        while i < n
            invariant
                n == self.bodies@.len() == s0.len(),
                s0 == old(self).bodies@,
                0 <= i <= n,
                h == old(self).step_size(),
                1 <= h <= STEP_MAX,
                old(self).wf(),
                o < n,
                o as int == sole_index(s0, Role::Observer),
                has_sole(s0, Role::Observer),
                forall|j: int| 0 <= j < i && j != o ==> subluminal_pair(#[trigger] velocity_sum(s0[j], h as int)),
            decreases n - i,
        {
            if i != o {
                assert(valid_body(s0[i as int]));
                let nv = next_velocity(&self.bodies[i], h);
                if !is_subluminal(&nv) {
                    return Err(PhysicsError::Superluminal);
                }
            }
            i += 1;
        }
        let mut i: usize = 0;
        while i < n
            invariant
                n == self.bodies@.len() == s0.len(),
                s0 == old(self).bodies@,
                0 <= i <= n,
                o as int == sole_index(s0, Role::Observer),
                h == old(self).step_size(),
                1 <= h <= STEP_MAX,
                self.time_step == old(self).time_step,
                self.time_factor == old(self).time_factor,
                old(self).wf(),
                velocities_stay_subluminal(s0, o as int, h as int),
                forall|j: int| 0 <= j < i ==> self.bodies@[j] == #[trigger] velocities_advanced(s0, o as int, h as int)[j],
                forall|j: int| 0 <= j < i ==> valid_body(#[trigger] self.bodies@[j]),
                forall|j: int| i <= j < n ==> self.bodies@[j] == s0[j],
            decreases n - i,
        {
            assert(valid_body(s0[i as int]));
            if i != o {
                let b = self.bodies[i];
                let nv = next_velocity(&b, h);
                assert(subluminal_pair(velocity_sum(s0[i as int], h as int)));
                self.bodies.set(i, Body { velocity: nv, ..b });
            }
            i += 1;
        }
        proof {
            assert(self.bodies@ =~= velocities_advanced(s0, o as int, h as int));
        }
        Ok(())
    }

    /// Position stage: every body, the observer included, moves by
    /// `gamma * v * step` and its clock gains `gamma * step`. Refused, with
    /// nothing changed, if a position or clock would leave the model's range
    /// (`OutOfRange`). On success every clock has strictly advanced.
    pub fn update_position(&mut self) -> (r: Result<(), PhysicsError>)
        requires
            old(self).wf(),
        ensures
            final(self).wf(),
            final(self).time_step == old(self).time_step,
            final(self).time_factor == old(self).time_factor,
            r is Ok <==> all_stay_in_range(old(self).bodies@, old(self).step_size()),
            r is Err ==> r == Err::<(), PhysicsError>(PhysicsError::OutOfRange) && final(self).bodies@
                == old(self).bodies@,
            r is Ok ==> final(self).bodies@ == moved(old(self).bodies@, old(self).step_size()),
            r is Ok ==> forall|i: int|
                0 <= i < old(self).bodies@.len() ==> #[trigger] final(self).bodies@[i].proper_time
                    > old(self).bodies@[i].proper_time,
    {
        let h = product(self.time_step, self.time_factor);
        let ghost s0 = self.bodies@;
        let n = self.bodies.len();
        let mut i: usize = 0;
        while i < n
            invariant
                n == self.bodies@.len() == s0.len(),
                s0 == old(self).bodies@,
                0 <= i <= n,
                h == old(self).step_size(),
                1 <= h <= STEP_MAX,
                old(self).wf(),
                forall|j: int| 0 <= j < i ==> stays_in_range(#[trigger] s0[j], h as int),
            decreases n - i,
        {
            assert(valid_body(s0[i as int]));
            let (p, t) = next_place(&self.bodies[i], h);
            if p.x < -POS_MAX || p.x > POS_MAX || p.y < -POS_MAX || p.y > POS_MAX || t > TIME_MAX {
                return Err(PhysicsError::OutOfRange);
            }
            i += 1;
        }
        let mut i: usize = 0;
        while i < n
            invariant
                n == self.bodies@.len() == s0.len(),
                s0 == old(self).bodies@,
                0 <= i <= n,
                h == old(self).step_size(),
                1 <= h <= STEP_MAX,
                self.time_step == old(self).time_step,
                self.time_factor == old(self).time_factor,
                old(self).wf(),
                all_stay_in_range(s0, h as int),
                forall|j: int| 0 <= j < i ==> self.bodies@[j] == #[trigger] moved(s0, h as int)[j],
                forall|j: int| 0 <= j < i ==> valid_body(#[trigger] self.bodies@[j]),
                forall|j: int| 0 <= j < i ==> (#[trigger] self.bodies@[j]).proper_time > s0[j].proper_time,
                forall|j: int| i <= j < n ==> self.bodies@[j] == s0[j],
            decreases n - i,
        {
            assert(valid_body(s0[i as int]));
            assert(stays_in_range(s0[i as int], h as int));
            let b = self.bodies[i];
            let (p, t) = next_place(&b, h);
            proof {
                lemma_proper_time_advances(b, h as int);
            }
            self.bodies.set(i, Body { position: p, proper_time: t, ..b });
            i += 1;
        }
        proof {
            assert(self.bodies@ =~= moved(s0, h as int));
        }
        Ok(())
    }

    /// Force-clear stage: every accumulated force returns to zero.
    pub fn clear_forces(&mut self)
        requires
            old(self).wf(),
        ensures
            final(self).wf(),
            final(self).time_step == old(self).time_step,
            final(self).time_factor == old(self).time_factor,
            final(self).bodies@ == forces_cleared(old(self).bodies@),
    {
        let ghost s0 = self.bodies@;
        let n = self.bodies.len();
        let mut i: usize = 0;
        while i < n
            invariant
                n == self.bodies@.len() == s0.len(),
                s0 == old(self).bodies@,
                0 <= i <= n,
                self.time_step == old(self).time_step,
                self.time_factor == old(self).time_factor,
                old(self).wf(),
                forall|j: int| 0 <= j < i ==> self.bodies@[j] == #[trigger] forces_cleared(s0)[j],
                forall|j: int| 0 <= j < i ==> valid_body(#[trigger] self.bodies@[j]),
                forall|j: int| i <= j < n ==> self.bodies@[j] == s0[j],
            decreases n - i,
        {
            assert(valid_body(s0[i as int]));
            let b = self.bodies[i];
            self.bodies.set(i, Body { force: Vec2 { x: 0, y: 0 }, ..b });
            i += 1;
        }
        proof {
            assert(self.bodies@ =~= forces_cleared(s0));
        }
    }
}

/// The bodies after the acceleration and velocity stages of one tick.
pub open spec fn tick_velocities(s: Seq<Body>, h: int) -> Seq<Body> {
    let o = sole_index(s, Role::Observer);
    velocities_advanced(accelerated(s, o), o, h)
}

/// The bodies after one whole tick: acceleration, velocity, position, and
/// the forces cleared.
pub open spec fn ticked(s: Seq<Body>, h: int) -> Seq<Body> {
    forces_cleared(moved(tick_velocities(s, h), h))
}

/// Body `b` after the acceleration and velocity stages of a tick, where the
/// observer accelerates at `a_obs` and `is_obs` tells whether `b` is the observer.
pub open spec fn body_after_velocity(b: Body, a_obs: Vec2, is_obs: bool, h: int) -> Body {
    if is_obs {
        Body { acceleration: own_accel(b), ..b }
    } else {
        let b1 = Body { acceleration: frame_accel(b, a_obs), ..b };
        Body { velocity: to_vec(velocity_sum(b1, h)), ..b1 }
    }
}

proof fn lemma_tick_velocities_at(s: Seq<Body>, h: int, i: int)
    requires
        has_sole(s, Role::Observer),
        0 <= i < s.len(),
    ensures
        accelerated(s, sole_index(s, Role::Observer))[i] == (Body {
            acceleration: if i == sole_index(s, Role::Observer) {
                own_accel(s[i])
            } else {
                frame_accel(s[i], own_accel(s[sole_index(s, Role::Observer)]))
            },
            ..s[i]
        }),
        tick_velocities(s, h)[i] == body_after_velocity(
            s[i],
            own_accel(s[sole_index(s, Role::Observer)]),
            i == sole_index(s, Role::Observer),
            h,
        ),
{
}

impl World {
    /// Whether a tick from this state would stay below light speed and in
    /// range; an error names the first condition that fails.
    fn check_tick(&self, o: usize, h: i128) -> (r: Result<(), PhysicsError>)
        requires
            self.wf(),
            sole(self.bodies@, o as int, Role::Observer),
            h == self.step_size(),
        ensures
            r is Ok <==> (velocities_stay_subluminal(accelerated(self.bodies@, o as int), o as int, h as int)
                && all_stay_in_range(tick_velocities(self.bodies@, h as int), h as int)),
            r == Err::<(), PhysicsError>(PhysicsError::Superluminal) <==> !velocities_stay_subluminal(
                accelerated(self.bodies@, o as int),
                o as int,
                h as int,
            ),
            r is Err ==> r == Err::<(), PhysicsError>(PhysicsError::Superluminal) || r == Err::<
                (),
                PhysicsError,
            >(PhysicsError::OutOfRange),
    {
        let ghost s0 = self.bodies@;
        proof {
            assert(has_sole(s0, Role::Observer));
            let c = sole_index(s0, Role::Observer);
            assert(sole(s0, c, Role::Observer));
            assert(plays(s0, o as int, Role::Observer));
            assert(c == o as int);
            assert(valid_body(s0[o as int]));
        }
        let a_obs = from_force(&self.bodies[o].inverse_mass, &self.bodies[o].force);
        let n = self.bodies.len();
        let mut i: usize = 0;
        while i < n
            invariant
                n == s0.len(),
                s0 == self.bodies@,
                0 <= i <= n,
                self.wf(),
                o < n,
                o as int == sole_index(s0, Role::Observer),
                has_sole(s0, Role::Observer),
                a_obs == own_accel(s0[o as int]),
                vec_within(a_obs, OWN_ACCEL_MAX as int),
                h == self.step_size(),
                1 <= h <= STEP_MAX,
                forall|j: int|
                    0 <= j < i && j != o ==> subluminal_pair(
                        #[trigger] velocity_sum(accelerated(s0, o as int)[j], h as int),
                    ),
            decreases n - i,
        {
            if i != o {
                let b = self.bodies[i];
                assert(valid_body(s0[i as int]));
                let b1 = Body { acceleration: frame_acceleration(&b, &a_obs), ..b };
                proof {
                    lemma_tick_velocities_at(s0, h as int, i as int);
                }
                let nv = next_velocity(&b1, h);
                if !is_subluminal(&nv) {
                    proof {
                        assert(!subluminal_pair(velocity_sum(accelerated(s0, o as int)[i as int], h as int)));
                    }
                    return Err(PhysicsError::Superluminal);
                }
            }
            i += 1;
        }
        let mut i: usize = 0;
        while i < n
            invariant
                n == s0.len(),
                s0 == self.bodies@,
                0 <= i <= n,
                self.wf(),
                o < n,
                o as int == sole_index(s0, Role::Observer),
                has_sole(s0, Role::Observer),
                a_obs == own_accel(s0[o as int]),
                vec_within(a_obs, OWN_ACCEL_MAX as int),
                h == self.step_size(),
                1 <= h <= STEP_MAX,
                velocities_stay_subluminal(accelerated(s0, o as int), o as int, h as int),
                forall|j: int| 0 <= j < i ==> stays_in_range(#[trigger] tick_velocities(s0, h as int)[j], h as int),
            decreases n - i,
        {
            let b = self.bodies[i];
            assert(valid_body(s0[i as int]));
            proof {
                lemma_tick_velocities_at(s0, h as int, i as int);
            }
            let b2 = if i == o {
                Body { acceleration: a_obs, ..b }
            } else {
                let b1 = Body { acceleration: frame_acceleration(&b, &a_obs), ..b };
                let nv = next_velocity(&b1, h);
                assert(subluminal_pair(velocity_sum(accelerated(s0, o as int)[i as int], h as int)));
                Body { velocity: nv, ..b1 }
            };
            assert(b2 == tick_velocities(s0, h as int)[i as int]);
            let (p, t) = next_place(&b2, h);
            if p.x < -POS_MAX || p.x > POS_MAX || p.y < -POS_MAX || p.y > POS_MAX || t > TIME_MAX {
                return Err(PhysicsError::OutOfRange);
            }
            i += 1;
        }
        Ok(())
    }

    /// One fixed tick: the acceleration, velocity and position stages, then
    /// the forces are cleared. The tick happens whole or not at all: it is
    /// refused, with nothing changed, unless exactly one body is the observer
    /// (`Missing`, `Duplicate`), if a velocity would reach light speed
    /// (`Superluminal`), or if a position or clock would leave the model's
    /// range (`OutOfRange`).
    pub fn step(&mut self) -> (r: Result<(), PhysicsError>)
        requires
            old(self).wf(),
        ensures
            final(self).wf(),
            final(self).time_step == old(self).time_step,
            final(self).time_factor == old(self).time_factor,
            r == Err::<(), PhysicsError>(PhysicsError::Missing(Role::Observer)) <==> none_plays(
                old(self).bodies@,
                Role::Observer,
            ),
            r == Err::<(), PhysicsError>(PhysicsError::Duplicate(Role::Observer)) <==> several_play(
                old(self).bodies@,
                Role::Observer,
            ),
            r == Err::<(), PhysicsError>(PhysicsError::Superluminal) <==> has_sole(
                old(self).bodies@,
                Role::Observer,
            ) && !velocities_stay_subluminal(
                accelerated(old(self).bodies@, sole_index(old(self).bodies@, Role::Observer)),
                sole_index(old(self).bodies@, Role::Observer),
                old(self).step_size(),
            ),
            r is Ok <==> has_sole(old(self).bodies@, Role::Observer) && velocities_stay_subluminal(
                accelerated(old(self).bodies@, sole_index(old(self).bodies@, Role::Observer)),
                sole_index(old(self).bodies@, Role::Observer),
                old(self).step_size(),
            ) && all_stay_in_range(
                tick_velocities(old(self).bodies@, old(self).step_size()),
                old(self).step_size(),
            ),
            r is Err ==> r == Err::<(), PhysicsError>(PhysicsError::Missing(Role::Observer)) || r == Err::<
                (),
                PhysicsError,
            >(PhysicsError::Duplicate(Role::Observer)) || r == Err::<(), PhysicsError>(
                PhysicsError::Superluminal,
            ) || r == Err::<(), PhysicsError>(PhysicsError::OutOfRange),
            r is Err ==> final(self).bodies@ == old(self).bodies@,
            r is Ok ==> final(self).bodies@ == ticked(old(self).bodies@, old(self).step_size()),
            r is Ok ==> forall|i: int|
                0 <= i < old(self).bodies@.len() ==> #[trigger] final(self).bodies@[i].proper_time
                    > old(self).bodies@[i].proper_time,
    {
        let ghost s0 = self.bodies@;
        let o = match find_sole(&self.bodies, Role::Observer) {
            Ok(o) => o,
            Err(e) => {
                return Err(e);
            },
        };
        let h = product(self.time_step, self.time_factor);
        match self.check_tick(o, h) {
            Ok(()) => {},
            Err(e) => {
                return Err(e);
            },
        }
        let r1 = self.update_acceleration();
        assert(r1 is Ok);
        let ghost s1 = self.bodies@;
        proof {
            assert(s1 == accelerated(s0, o as int));
            assert forall|j: int| #[trigger] plays(s1, j, Role::Observer) <==> plays(s0, j, Role::Observer) by {
                if 0 <= j < s0.len() {
                    assert(s1[j].role == s0[j].role);
                }
            }
            assert(sole(s0, o as int, Role::Observer));
            assert(sole(s1, o as int, Role::Observer));
            assert(has_sole(s1, Role::Observer));
            let o1 = sole_index(s1, Role::Observer);
            assert(sole(s1, o1, Role::Observer));
            assert(o1 == o as int);
        }
        let r2 = self.update_velocity();
        assert(r2 is Ok);
        let ghost s2 = self.bodies@;
        let r3 = self.update_position();
        assert(r3 is Ok);
        let ghost s3 = self.bodies@;
        proof {
            assert forall|i: int| 0 <= i < s0.len() implies #[trigger] s3[i].proper_time > s0[i].proper_time by {
                assert(s2[i].proper_time == s0[i].proper_time);
                assert(s3[i].proper_time > s2[i].proper_time);
            }
        }
        self.clear_forces();
        Ok(())
    }
}

/// What the observer reads against the stationary reference body: both
/// clocks, and its own position and velocity as seen from the reference.
#[derive(Clone, Copy, Debug, PartialEq, Eq, Structural)]
pub struct Report {
    pub observer_clock: i128,
    pub reference_clock: i128,
    pub observer_position: Vec2,
    pub observer_velocity: Vec2,
}

impl World {
    /// The observer's clock, the reference clock, and the observer's position
    /// and velocity relative to the reference body (the reference's own,
    /// reversed). Refused unless exactly one body is the observer and exactly
    /// one the reference.
    pub fn report(&self) -> (r: Result<Report, PhysicsError>)
        requires
            self.wf(),
        ensures
            r is Ok <==> has_sole(self.bodies@, Role::Observer) && has_sole(self.bodies@, Role::Reference),
            r == Err::<Report, PhysicsError>(PhysicsError::Missing(Role::Observer)) <==> none_plays(
                self.bodies@,
                Role::Observer,
            ),
            r == Err::<Report, PhysicsError>(PhysicsError::Duplicate(Role::Observer)) <==> several_play(
                self.bodies@,
                Role::Observer,
            ),
            r == Err::<Report, PhysicsError>(PhysicsError::Missing(Role::Reference)) <==> has_sole(
                self.bodies@,
                Role::Observer,
            ) && none_plays(self.bodies@, Role::Reference),
            r == Err::<Report, PhysicsError>(PhysicsError::Duplicate(Role::Reference)) <==> has_sole(
                self.bodies@,
                Role::Observer,
            ) && several_play(self.bodies@, Role::Reference),
            r is Err ==> r == Err::<Report, PhysicsError>(PhysicsError::Missing(Role::Observer)) || r
                == Err::<Report, PhysicsError>(PhysicsError::Duplicate(Role::Observer)) || r == Err::<
                Report,
                PhysicsError,
            >(PhysicsError::Missing(Role::Reference)) || r == Err::<Report, PhysicsError>(
                PhysicsError::Duplicate(Role::Reference),
            ),
            r is Ok ==> {
                let o = self.bodies@[sole_index(self.bodies@, Role::Observer)];
                let f = self.bodies@[sole_index(self.bodies@, Role::Reference)];
                r->Ok_0 == Report {
                    observer_clock: o.proper_time,
                    reference_clock: f.proper_time,
                    observer_position: neg_vec(f.position),
                    observer_velocity: neg_vec(f.velocity),
                }
            },
    {
        let o = match find_sole(&self.bodies, Role::Observer) {
            Ok(o) => o,
            Err(e) => {
                return Err(e);
            },
        };
        let f = match find_sole(&self.bodies, Role::Reference) {
            Ok(f) => f,
            Err(e) => {
                return Err(e);
            },
        };
        let ob = self.bodies[o];
        let fb = self.bodies[f];
        proof {
            assert(valid_body(self.bodies@[f as int]));
            lemma_subluminal_components(fb.velocity);
        }
        Ok(
            Report {
                observer_clock: ob.proper_time,
                reference_clock: fb.proper_time,
                observer_position: fb.position.neg(),
                observer_velocity: fb.velocity.neg(),
            },
        )
    }
}

} // verus!
