use starlight::engines::{Engine, VectorEngine, VectorEngineMode};
use starlight::fixed::{isqrt, product, ONE, ONE_SQ};
use starlight::kinematics::{
    boost, contract, dilate, from_force, gamma, igamma, InverseMass, INV_MASS_MAX, INV_MASS_MIN,
    INV_ONE, MASS_MAX, MASS_MIN,
};
use starlight::render::{aberration, display_of, display_transform, Mat2, Transform, Turn};
use starlight::vector::Vec2;
use starlight::world::{PhysicsError, Role, World, DEFAULT_TIME_FACTOR, STEP_MAX};

fn fx(x: f64) -> i128 {
    (x * ONE as f64).round() as i128
}

fn to_f64(x: i128) -> f64 {
    x as f64 / ONE as f64
}

fn close(a: i128, b: f64, tol: f64) -> bool {
    (to_f64(a) - b).abs() <= tol
}

fn identity() -> Mat2 {
    Mat2 { xx: ONE, xy: 0, yx: 0, yy: ONE }
}

fn sixtieth() -> i128 {
    ONE / 60
}

fn world_with_observer() -> (World, usize) {
    let mut w = World::new(sixtieth(), ONE).unwrap();
    let o = w.spawn(Role::Observer, fx(1.0), Vec2::zero(), Vec2::zero()).unwrap();
    (w, o)
}

#[test]
fn lorentz_factors_are_reciprocal() {
    for &(x, y) in &[(0.0, 0.0), (0.3, 0.4), (0.6, 0.0), (-0.5, 0.5), (0.0, -0.99), (0.9, 0.43)] {
        let v = Vec2::new(fx(x), fx(y));
        let ig = igamma(&v);
        let g = gamma(&v);
        let p = ig * g;
        assert!(p <= ONE_SQ);
        assert!(p > ONE_SQ - ig);
        let exact = 1.0 / (1.0 - x * x - y * y).sqrt();
        assert!(close(g, exact, 1e-6 * exact.max(1.0)));
    }
}

#[test]
fn lorentz_factors_at_rest_are_one() {
    assert_eq!(igamma(&Vec2::zero()), ONE);
    assert_eq!(gamma(&Vec2::zero()), ONE);
}

#[test]
fn lorentz_factor_at_six_tenths() {
    let v = Vec2::new(fx(0.6), 0);
    assert!(close(igamma(&v), 0.8, 1e-9));
    assert!(close(gamma(&v), 1.25, 1e-9));
}

#[test]
fn integer_square_root_rounds_down() {
    assert_eq!(isqrt(0), 0);
    assert_eq!(isqrt(15), 3);
    assert_eq!(isqrt(16), 4);
    assert_eq!(isqrt(ONE_SQ), ONE);
    assert_eq!(isqrt(ONE_SQ - 1), ONE - 1);
}

#[test]
fn fixed_product_rounds_toward_zero() {
    assert_eq!(product(fx(1.5), fx(2.0)), fx(3.0));
    assert_eq!(product(-fx(1.5), fx(2.0)), -fx(3.0));
    assert_eq!(product(-1, 1), 0);
    assert_eq!(product(1, 1), 0);
    assert_eq!(product(-3, ONE / 2), -1);
    assert_eq!(product(3, ONE / 2), 1);
}

#[test]
fn boost_formula_value() {
    let a = Vec2::new(fx(1.0), 0);
    let u = Vec2::new(fx(0.6), 0);
    let r = boost(&a, &u);
    // 0.8^2 * (1 - 0.6 * 0.6 * 0.2)
    assert!(close(r.x, 0.59392, 1e-8));
    assert_eq!(r.y, 0);
}

#[test]
fn boost_by_opposite_velocity_is_the_same_map() {
    let a = Vec2::new(fx(1.0), 0);
    let v = Vec2::new(fx(0.6), 0);
    assert_eq!(boost(&a, &v), boost(&a, &v.neg()));
    let b = Vec2::new(fx(-2.5), fx(7.25));
    let w = Vec2::new(fx(-0.3), fx(0.45));
    assert_eq!(boost(&b, &w), boost(&b, &w.neg()));
}

#[test]
fn boost_round_trip_at_rest() {
    let a = Vec2::new(fx(3.25), fx(-7.5));
    let z = Vec2::zero();
    let there = boost(&a, &z);
    assert_eq!(there, a);
    assert_eq!(boost(&there, &z.neg()), a);
}

#[test]
fn boost_round_trip_small_velocity() {
    let a = Vec2::new(fx(2.0), fx(1.0));
    let v = Vec2::new(fx(0.001), fx(-0.002));
    let back = boost(&boost(&a, &v), &v.neg());
    assert!(close(back.x, 2.0, 1e-4));
    assert!(close(back.y, 1.0, 1e-4));
}

#[test]
fn zero_inverse_mass_gives_no_acceleration() {
    let inv = InverseMass::from_mass(0);
    assert_eq!(inv.0, 0);
    for &(x, y) in &[(1.0, 0.0), (-1000.0, 250.5), (0.0, 0.0), (1e4, -1e4)] {
        let a = from_force(&inv, &Vec2::new(fx(x), fx(y)));
        assert_eq!(a, Vec2::zero());
    }
}

#[test]
fn zero_mass_body_in_world_is_not_accelerated() {
    let (mut w, _) = world_with_observer();
    let b = w.spawn(Role::Ordinary, 0, Vec2::zero(), Vec2::new(fx(5.0), 0)).unwrap();
    w.add_force(b, Vec2::new(fx(100.0), fx(-3.0))).unwrap();
    w.step().unwrap();
    let body = w.body(b).unwrap();
    assert_eq!(body.acceleration, Vec2::zero());
    assert_eq!(body.velocity, Vec2::zero());
    assert_eq!(body.position, Vec2::new(fx(5.0), 0));
}

#[test]
fn mass_conversions_invert_each_other() {
    let inv = InverseMass::from_mass(fx(2.0));
    assert_eq!(inv.0, INV_ONE / 2);
    assert_eq!(inv.to_mass(), fx(2.0));
    assert_eq!(InverseMass(0).to_mass(), 0);
    assert_eq!(InverseMass::from_mass(fx(4.0)).to_mass(), fx(4.0));
    assert_eq!(InverseMass::from_mass(0).to_mass(), 0);
}

#[test]
fn mass_round_trip_keeps_twenty_four_bits() {
    for &m in &[fx(10000.0), fx(3.0), fx(1e9), fx(0.005), MASS_MIN, MASS_MAX, fx(7.3), fx(1e12)] {
        let back = InverseMass::from_mass(m).to_mass();
        assert!(back >= m);
        assert!((back - m) * (1 << 24) <= m);
    }
    for &i in &[INV_MASS_MIN, 3 << 48, INV_ONE / 3, INV_ONE, INV_MASS_MAX, 12345678901234567] {
        let back = InverseMass::from_mass(InverseMass(i).to_mass()).0;
        assert!(back >= i);
        assert!((back - i) * (1 << 24) <= i);
    }
    // where both values carry 32 bits, so does the round trip
    let back = InverseMass::from_mass(fx(10000.0)).to_mass();
    assert!((back - fx(10000.0)) * ONE <= fx(10000.0));
    assert_eq!(InverseMass::from_mass(MASS_MAX).0, INV_MASS_MIN);
    assert_eq!(InverseMass::from_mass(MASS_MIN).0, INV_MASS_MAX);
}

#[test]
fn one_tick_under_constant_force() {
    let (mut w, _) = world_with_observer();
    let b = w.spawn(Role::Ordinary, fx(2.0), Vec2::zero(), Vec2::zero()).unwrap();
    w.add_force(b, Vec2::new(fx(1.0), 0)).unwrap();
    w.step().unwrap();
    let body = w.body(b).unwrap();
    assert!(close(body.velocity.x, 0.5 / 60.0, 1e-8));
    assert_eq!(body.velocity.y, 0);
    assert!(close(body.position.x, 0.0001389, 1e-7));
    assert_eq!(body.position.y, 0);
    assert_eq!(body.force, Vec2::zero());
}

#[test]
fn observer_velocity_stays_the_frame_zero() {
    let (mut w, o) = world_with_observer();
    w.add_force(o, Vec2::new(fx(1.0), 0)).unwrap();
    w.step().unwrap();
    let obs = w.body(o).unwrap();
    assert!(close(obs.acceleration.x, 1.0, 1e-9));
    assert_eq!(obs.velocity, Vec2::zero());
}

#[test]
fn observer_acceleration_pushes_others_back() {
    let (mut w, o) = world_with_observer();
    let b = w.spawn(Role::Ordinary, fx(1.0), Vec2::zero(), Vec2::zero()).unwrap();
    w.add_force(o, Vec2::new(fx(1.0), 0)).unwrap();
    w.step().unwrap();
    let body = w.body(b).unwrap();
    assert!(close(body.acceleration.x, -1.0, 1e-9));
    assert!(close(body.velocity.x, -1.0 / 60.0, 1e-8));
}

#[test]
fn forces_add_up_and_clear() {
    let (mut w, _) = world_with_observer();
    let b = w.spawn(Role::Ordinary, fx(1.0), Vec2::zero(), Vec2::zero()).unwrap();
    w.add_force(b, Vec2::new(fx(1.0), fx(2.0))).unwrap();
    w.add_force(b, Vec2::new(fx(0.5), fx(-1.0))).unwrap();
    assert_eq!(w.body(b).unwrap().force, Vec2::new(fx(1.5), fx(1.0)));
    w.clear_forces();
    assert_eq!(w.body(b).unwrap().force, Vec2::zero());
}

#[test]
fn proper_time_strictly_increases() {
    let (mut w, o) = world_with_observer();
    let b = w.spawn(Role::Ordinary, fx(1.0), Vec2::new(fx(0.8), 0), Vec2::zero()).unwrap();
    let mut last = (0, 0);
    for _ in 0..20 {
        w.step().unwrap();
        let to = w.body(o).unwrap().proper_time;
        let tb = w.body(b).unwrap().proper_time;
        assert!(to > last.0);
        assert!(tb > last.1);
        last = (to, tb);
    }
    // the moving body's clock gains gamma = 5/3 per unit of step
    assert!(close(last.1, 20.0 / 60.0 * 5.0 / 3.0, 1e-6));
    assert!(close(last.0, 20.0 / 60.0, 1e-6));
}

#[test]
fn missing_observer_is_refused() {
    let mut w = World::new(sixtieth(), ONE).unwrap();
    w.spawn(Role::Ordinary, fx(1.0), Vec2::zero(), Vec2::zero()).unwrap();
    assert_eq!(w.step(), Err(PhysicsError::Missing(Role::Observer)));
    assert_eq!(w.update_acceleration(), Err(PhysicsError::Missing(Role::Observer)));
    assert_eq!(w.update_velocity(), Err(PhysicsError::Missing(Role::Observer)));
}

#[test]
fn second_observer_is_refused() {
    let (mut w, _) = world_with_observer();
    w.spawn(Role::Observer, fx(1.0), Vec2::zero(), Vec2::zero()).unwrap();
    assert_eq!(w.step(), Err(PhysicsError::Duplicate(Role::Observer)));
}

#[test]
fn spawn_refuses_light_speed_and_bad_ranges() {
    let (mut w, _) = world_with_observer();
    assert_eq!(
        w.spawn(Role::Ordinary, fx(1.0), Vec2::new(ONE, 0), Vec2::zero()),
        Err(PhysicsError::Superluminal)
    );
    assert_eq!(
        w.spawn(Role::Ordinary, fx(1.0), Vec2::new(fx(0.8), fx(0.6)), Vec2::zero()),
        Err(PhysicsError::Superluminal)
    );
    assert_eq!(
        w.spawn(Role::Ordinary, -1, Vec2::zero(), Vec2::zero()),
        Err(PhysicsError::OutOfRange)
    );
    assert_eq!(
        w.spawn(Role::Ordinary, 1, Vec2::zero(), Vec2::zero()),
        Err(PhysicsError::OutOfRange)
    );
    assert_eq!(
        w.spawn(Role::Ordinary, MASS_MIN - 1, Vec2::zero(), Vec2::zero()),
        Err(PhysicsError::OutOfRange)
    );
    assert!(w.spawn(Role::Ordinary, MASS_MIN, Vec2::zero(), Vec2::zero()).is_ok());
    assert!(w.spawn(Role::Ordinary, MASS_MAX, Vec2::zero(), Vec2::zero()).is_ok());
    assert_eq!(
        w.spawn(Role::Ordinary, fx(1.0), Vec2::zero(), Vec2::new(i128::MAX / 2, 0)),
        Err(PhysicsError::OutOfRange)
    );
    assert_eq!(
        w.spawn(Role::Ordinary, MASS_MAX + 1, Vec2::zero(), Vec2::zero()),
        Err(PhysicsError::OutOfRange)
    );
    assert_eq!(
        w.spawn(Role::Ordinary, fx(1e13), Vec2::zero(), Vec2::zero()),
        Err(PhysicsError::OutOfRange)
    );
    assert_eq!(w.bodies.len(), 3);
}

#[test]
fn add_force_refuses_unknown_body_and_overflow() {
    let (mut w, o) = world_with_observer();
    assert_eq!(w.add_force(o + 1, Vec2::zero()), Err(PhysicsError::UnknownBody));
    assert_eq!(w.add_force(o, Vec2::new(i128::MAX, 0)), Err(PhysicsError::OutOfRange));
}

#[test]
fn velocity_reaching_light_speed_is_refused() {
    let (mut w, _) = world_with_observer();
    let b = w.spawn(Role::Ordinary, fx(1.0), Vec2::new(fx(0.99), 0), Vec2::zero()).unwrap();
    w.add_force(b, Vec2::new(fx(60000.0), 0)).unwrap();
    let before = w.body(b).unwrap();
    assert_eq!(w.step(), Err(PhysicsError::Superluminal));
    assert_eq!(w.body(b).unwrap(), before);
}

#[test]
fn leaving_the_range_is_refused() {
    let mut w = World::new(ONE, fx(16.0)).unwrap();
    w.spawn(Role::Observer, fx(1.0), Vec2::zero(), Vec2::zero()).unwrap();
    let far = starlight::kinematics::POS_MAX - 1;
    let b = w.spawn(Role::Ordinary, fx(1.0), Vec2::new(fx(0.5), 0), Vec2::new(far, 0)).unwrap();
    w.add_force(b, Vec2::new(fx(0.001), 0)).unwrap();
    let before = w.body(b).unwrap();
    assert_eq!(w.step(), Err(PhysicsError::OutOfRange));
    assert_eq!(w.body(b).unwrap(), before);
    assert_eq!(w.body(b).unwrap().force, Vec2::new(fx(0.001), 0));
}

#[test]
fn world_settings_are_checked() {
    assert_eq!(World::new(0, ONE).err(), Some(PhysicsError::OutOfRange));
    assert_eq!(World::new(ONE, 0).err(), Some(PhysicsError::OutOfRange));
    assert_eq!(World::new(STEP_MAX + 1, ONE).err(), Some(PhysicsError::OutOfRange));
    assert_eq!(World::new(STEP_MAX, 2 * ONE).err(), Some(PhysicsError::OutOfRange));
    assert!(World::new(2 * ONE, fx(100.0)).is_ok());
    assert_eq!(World::new(1, 1).err(), Some(PhysicsError::OutOfRange));
    assert!(World::new(sixtieth(), ONE).is_ok());
}

#[test]
fn contraction_halves_along_velocity_only() {
    let v = Vec2::new(fx(0.6), 0);
    let p = Vec2::new(fx(10.0), fx(3.0));
    let c = contract(&p, &v);
    assert!(close(c.x, 8.0, 1e-8));
    assert_eq!(c.y, fx(3.0));
}

#[test]
fn contraction_round_trip() {
    let v = Vec2::new(3 << 28, 4 << 28);
    let across = Vec2::new(fx(-4.0), fx(3.0));
    let c = contract(&across, &v);
    assert_eq!(c, across);
    assert_eq!(dilate(&c, &v.neg()), across);
    let p = Vec2::new(fx(10.0), fx(-2.0));
    let back = dilate(&contract(&p, &v), &v.neg());
    assert!(close(back.x, 10.0, 1e-6));
    assert!(close(back.y, -2.0, 1e-6));
    assert_eq!(contract(&p, &Vec2::zero()), p);
}

#[test]
fn display_at_rest_is_ground_truth() {
    let t = Transform {
        translation: Vec2::new(fx(12.0), fx(-4.0)),
        linear: Mat2 { xx: fx(0.0), xy: fx(-9.0), yx: fx(9.0), yy: fx(0.0) },
    };
    let turn = Turn { cos: fx(0.6), sin: fx(0.8) };
    assert_eq!(display_transform(&t, &Vec2::zero(), &turn, fx(0.5)), t);
}

#[test]
fn display_contracts_along_velocity() {
    let t = Transform { translation: Vec2::new(fx(10.0), 0), linear: identity() };
    let v = Vec2::new(fx(0.6), 0);
    let turn = Turn { cos: ONE, sin: 0 };
    let d = display_transform(&t, &v, &turn, ONE);
    assert!(close(d.translation.x, 8.0, 1e-8));
    assert_eq!(d.translation.y, 0);
    assert!(close(d.linear.xx, 0.8, 1e-8));
    assert_eq!(d.linear.xy, 0);
    assert_eq!(d.linear.yx, 0);
    assert_eq!(d.linear.yy, ONE);
    assert_eq!(t.translation, Vec2::new(fx(10.0), 0));
}

#[test]
fn display_scales_across_and_turns() {
    let t = Transform { translation: Vec2::new(0, fx(10.0)), linear: identity() };
    let v = Vec2::new(fx(0.6), 0);
    let turn = Turn { cos: 0, sin: ONE };
    let d = display_transform(&t, &v, &turn, fx(0.5));
    // the quarter turn takes (0, 10) to (-10, 0), then contraction along x
    assert!(close(d.translation.x, -8.0, 1e-8));
    assert!(close(d.translation.y, 0.0, 1e-8));
    // across * turn * along: [[1,0],[0,.5]] [[0,-1],[1,0]] [[.8,0],[0,1]]
    assert!(close(d.linear.xx, 0.0, 1e-8));
    assert!(close(d.linear.xy, -1.0, 1e-8));
    assert!(close(d.linear.yx, 0.4, 1e-8));
    assert!(close(d.linear.yy, 0.0, 1e-8));
}

#[test]
fn engine_force_follows_heading_and_clamps() {
    let e = Engine { thrust: fx(2.0), max_thrust: fx(1.0), running: true };
    let heading = Turn { cos: 0, sin: ONE };
    assert_eq!(e.force(&heading), Vec2::new(0, fx(1.0)));
    let reverse = Engine { thrust: fx(-2.0), max_thrust: fx(1.0), running: true };
    assert_eq!(reverse.force(&heading), Vec2::zero());
    let off = Engine { running: false, ..e };
    assert_eq!(off.force(&heading), Vec2::zero());
    let half = Engine { thrust: fx(0.5), ..e };
    assert_eq!(half.force(&Turn { cos: ONE, sin: 0 }), Vec2::new(fx(0.5), 0));
}

#[test]
fn engine_defaults() {
    let e = Engine::default();
    assert_eq!(e.thrust, 0);
    assert_eq!(e.max_thrust, ONE);
    assert!(!e.running);
    let v = VectorEngine::default();
    assert_eq!(v.mode, VectorEngineMode::Off);
    assert_eq!(v.angular_v, 0);
}

#[test]
fn report_reads_against_reference() {
    let (mut w, _) = world_with_observer();
    assert_eq!(w.report(), Err(PhysicsError::Missing(Role::Reference)));
    w.spawn(Role::Reference, fx(1.0), Vec2::new(fx(-0.5), 0), Vec2::new(fx(3.0), fx(-4.0)))
        .unwrap();
    w.step().unwrap();
    let r = w.report().unwrap();
    assert!(r.observer_clock > 0);
    assert!(r.reference_clock > r.observer_clock);
    assert_eq!(r.observer_velocity, Vec2::new(fx(0.5), 0));
    assert!(r.observer_position.x > fx(-3.0));
    assert!(r.observer_position.x < fx(-2.9));
    assert_eq!(r.observer_position.y, fx(4.0));
    w.spawn(Role::Reference, fx(1.0), Vec2::zero(), Vec2::zero()).unwrap();
    assert_eq!(w.report(), Err(PhysicsError::Duplicate(Role::Reference)));
}

#[test]
fn aberration_along_motion_is_no_turn() {
    let v = Vec2::new(fx(0.6), 0);
    assert_eq!(aberration(&Vec2::new(fx(10.0), 0), &v), Turn { cos: ONE, sin: 0 });
    assert_eq!(aberration(&Vec2::zero(), &v), Turn { cos: ONE, sin: 0 });
    assert_eq!(aberration(&Vec2::new(fx(3.0), fx(4.0)), &Vec2::zero()), Turn { cos: ONE, sin: 0 });
}

#[test]
fn aberration_across_motion() {
    // true angle -90 degrees, apparent angle -acos(-0.6): a turn by about 36.87 degrees
    let t = aberration(&Vec2::new(0, fx(10.0)), &Vec2::new(fx(0.6), 0));
    assert!(close(t.cos, 0.8, 1e-6));
    assert!(close(t.sin, 0.6, 1e-6));
    let mirrored = aberration(&Vec2::new(0, fx(-10.0)), &Vec2::new(fx(0.6), 0));
    assert!(close(mirrored.cos, 0.8, 1e-6));
    assert!(close(mirrored.sin, -0.6, 1e-6));
}

#[test]
fn aberration_matches_the_angle_formula() {
    let p = Vec2::new(fx(3.0), fx(-7.0));
    let (vx, vy) = (0.25, 0.5);
    let t = aberration(&p, &Vec2::new(fx(vx), fx(vy)));
    let angle = (3.0 * vy - (-7.0) * vx).atan2(3.0 * vx + (-7.0) * vy);
    let speed: f64 = (vx * vx + vy * vy).sqrt();
    let c = angle.cos();
    let apparent = ((c - speed) / (1. - c * speed)).acos() * angle.signum();
    assert!(close(t.cos, (angle - apparent).cos(), 1e-6));
    assert!(close(t.sin, (angle - apparent).sin(), 1e-6));
}

#[test]
fn display_of_uses_the_aberration_of_the_position() {
    let t = Transform { translation: Vec2::new(0, fx(10.0)), linear: identity() };
    let v = Vec2::new(fx(0.6), 0);
    let turn = aberration(&t.translation, &v);
    assert_eq!(display_of(&t, &v, fx(0.5)), display_transform(&t, &v, &turn, fx(0.5)));
    assert_eq!(display_of(&t, &Vec2::zero(), fx(0.5)), t);
    // turned by about 36.87 degrees to (-6, 8), then contracted along x
    let d = display_of(&t, &v, ONE);
    assert!(close(d.translation.x, -4.8, 1e-5));
    assert!(close(d.translation.y, 8.0, 1e-5));
}

#[test]
fn boost_round_trip_error_is_of_order_speed_squared() {
    let a = Vec2::new(fx(2.0), fx(-1.0));
    let norm = |w: &Vec2| w.x.abs().max(w.y.abs());
    for &(vx, vy) in &[(0.1, 0.05), (0.3, -0.2), (0.01, 0.0), (0.0, 0.6), (0.7, 0.7)] {
        let v = Vec2::new(fx(vx), fx(vy));
        let there = boost(&a, &v);
        let back = boost(&there, &v.neg());
        let slack = (v.x * v.x + v.y * v.y) / ONE + 4;
        let bound = 5 * (norm(&a) + norm(&there)) * slack + 4 * ONE;
        assert!(2 * (back.x - a.x).abs() * ONE <= bound);
        assert!(2 * (back.y - a.y).abs() * ONE <= bound);
        assert!(2 * (back.x - a.x).abs() * ONE <= (25 * norm(&a) + 5) * slack + 4 * ONE);
        // the error does not vanish: the two boosts compound
        assert!(back != a);
    }
}

#[test]
fn contraction_round_trip_along_an_axis() {
    let v = Vec2::new(fx(0.6), 0);
    for &(x, y) in &[(10.0, -2.0), (-1234.5, 7.0), (0.001, 0.0)] {
        let p = Vec2::new(fx(x), fx(y));
        let back = dilate(&contract(&p, &v), &v.neg());
        assert_eq!(back.y, p.y);
        assert!((back.x - p.x).abs() * ONE <= p.x.abs().max(p.y.abs()) + gamma(&v) + ONE);
    }
}

#[test]
fn contraction_round_trip_in_any_direction() {
    for &(vx, vy) in &[(0.3, 0.4), (-0.55, 0.7), (0.0001, -0.0002), (0.9, -0.43)] {
        let v = Vec2::new(fx(vx), fx(vy));
        let g = gamma(&v);
        for &(x, y) in &[(10.0, -2.0), (-1234.5, 7.0), (0.0, 3.0), (500.25, 499.75)] {
            let p = Vec2::new(fx(x), fx(y));
            let back = dilate(&contract(&p, &v), &v.neg());
            let bound = 2 * p.x.abs().max(p.y.abs()) + 13 * g + 3 * ONE + 12;
            assert!((back.x - p.x).abs() * ONE <= bound);
            assert!((back.y - p.y).abs() * ONE <= bound);
            assert!(close(back.x, x, 1e-6) && close(back.y, y, 1e-6));
        }
    }
}

#[test]
fn default_speed_world() {
    assert_eq!(DEFAULT_TIME_FACTOR, ONE);
    let w = World::with_time_step(sixtieth()).unwrap();
    assert_eq!(w.time_factor, ONE);
    assert_eq!(w.time_step, sixtieth());
    assert!(World::with_time_step(0).is_err());
    assert!(World::with_time_step(STEP_MAX + 1).is_err());
}

#[test]
fn engine_force_is_never_longer_than_max_thrust() {
    let e = Engine { thrust: fx(5.0), max_thrust: fx(2.0), running: true };
    let d = fx(std::f64::consts::FRAC_1_SQRT_2) - 1;
    let f = e.force(&Turn { cos: d, sin: -d });
    assert!(f.x * f.x + f.y * f.y <= e.max_thrust * e.max_thrust);
    assert!(close(f.x, 2.0_f64.sqrt(), 1e-6));
    assert!(close(f.y, -(2.0_f64.sqrt()), 1e-6));
}
