use nbody_lockstep::body::{distance_squared, Body};
use nbody_lockstep::fixed_scalar::FixedScalar;
use nbody_lockstep::simulation::Simulation;

fn fs_int(i: i32) -> FixedScalar {
    FixedScalar::from_int(i)
}

fn fs_f32(x: f32) -> FixedScalar {
    FixedScalar::from_raw(fixed::types::I32F32::from_num(x).to_bits())
}

fn body_at(id: u64, x: FixedScalar, y: FixedScalar, mass: FixedScalar) -> Body {
    Body::new(id, x, y, mass)
}

#[test]
fn force_from_test() {
    let b1 = body_at(0, fs_f32(0.), fs_f32(0.), fs_f32(1.));
    let b2 = body_at(1, fs_f32(0.), fs_f32(0.), fs_f32(1.));

    let f = b1.force_from(&b2);
    assert_eq!(f.x.to_raw(), 0);
    assert_eq!(f.y.to_raw(), 0);
}

#[test]
fn mass_volume_density_radius() {
    let b1 = body_at(0, fs_f32(0.), fs_f32(0.), fs_f32(1.));
    assert_eq!(b1.volume(), fs_int(1));
}

#[test]
fn collision() {
    let b1 = body_at(0, fs_f32(0.), fs_f32(0.), fs_f32(1.));
    let b2 = body_at(1, fs_f32(2.), fs_f32(0.), fs_f32(0.5));
    let b3 = body_at(2, fs_f32(1.), fs_f32(0.), fs_f32(4.));

    assert!(!b1.collides_with(&b2));
    assert!(b1.collides_with(&b3));
    assert!(b2.collides_with(&b3));
}

#[test]
fn sim_acceleration() {
    let b1 = body_at(0, fs_f32(0.), fs_f32(0.), fs_f32(1.));
    let b2 = body_at(1, fs_f32(3.), fs_f32(0.), fs_f32(1.));
    assert!(b1.force_from(&b2).x.to_raw() > 0);

    let mut sim = Simulation::new();
    sim.add_body(b1);
    sim.add_body(b2);

    let d1 = distance_squared(&sim.bodies[0].position, &sim.bodies[1].position);
    sim.step();
    let d2 = distance_squared(&sim.bodies[0].position, &sim.bodies[1].position);
    assert!(d1 > d2, "{} isn't larger than {}", d1.to_raw(), d2.to_raw());
}

#[test]
fn sim_collision1() {
    let b1 = body_at(0, fs_f32(0.), fs_f32(0.), fs_f32(1.));
    let b2 = body_at(1, fs_f32(1.), fs_f32(0.), fs_f32(1.));
    assert!(b1.collides_with(&b2));

    let mut sim = Simulation::new();
    sim.add_body(b1);
    sim.add_body(b2);

    assert_eq!(sim.bodies.len(), 2);
    sim.step();
    assert_eq!(sim.bodies.len(), 1);
}

#[test]
fn sim_collision2() {
    let b1 = body_at(0, fs_f32(0.), fs_f32(0.), fs_f32(10.));
    let b2 = body_at(1, fs_f32(1.), fs_f32(0.), fs_f32(10.));
    assert!(b1.collides_with(&b2));

    let mut sim = Simulation::new();
    sim.add_body(b1);
    sim.add_body(b2);

    assert_eq!(sim.bodies.len(), 2);
    sim.step();
    assert_eq!(sim.bodies.len(), 1);

    let b3 = sim.bodies.get(0).unwrap();
    assert!(b1.position.x < b3.position.x);
    assert!(b2.position.x > b3.position.x);
}

#[test]
fn sim_rand() {
    let mut rng = rand::thread_rng();
    let mut sim = Simulation::new();
    for id in 0..100u64 {
        sim.add_body(body_at(
            id,
            fs_f32(rand::Rng::gen_range(&mut rng, 0.0..480.0)),
            fs_f32(rand::Rng::gen_range(&mut rng, 0.0..480.0)),
            fs_f32(rand::Rng::gen_range(&mut rng, 0.0..0.2)),
        ));
    }
    sim.step();
}

#[test]
fn distance_attenuation() {
    let b1 = body_at(0, fs_f32(0.), fs_f32(0.), fs_f32(1.));
    let b2 = body_at(1, fs_f32(10.), fs_f32(0.), fs_f32(1.));
    let b3 = body_at(2, fs_f32(100.), fs_f32(0.), fs_f32(1.));

    let f1 = b1.force_from(&b2);
    let f2 = b1.force_from(&b3);

    assert!(f1.x > f2.x, "{} <= {}", f1.x.to_raw(), f2.x.to_raw());
}

#[test]
fn data_test0() {
    let b1 = body_at(0, fs_f32(305.72119140625), fs_f32(141.26641845703125), fs_f32(10021134.));
    let b2 = body_at(1, fs_f32(529.), fs_f32(825.), fs_f32(10000.));

    let f = b1.force_from(&b2);
    assert!(f.x.to_raw() > 0 && f.y.to_raw() > 0, "{:?}", f);
}

#[test]
fn collision_integrations() {
    let b1 = body_at(0, fs_f32(0.), fs_f32(0.), fs_f32(1.));
    let b2 = body_at(1, fs_f32(10.), fs_f32(0.), fs_f32(1.));

    let mut sim = Simulation::new();
    sim.add_body(b1);
    sim.add_body(b2);

    while sim.bodies.len() > 1 {
        sim.step();
    }

    let b3 = sim.bodies.get(0).unwrap();
    assert!(b1.position.x < b3.position.x);
    assert!(b2.position.x > b3.position.x);
}

#[test]
fn center_of_mass() {
    let b1 = body_at(0, fs_f32(0.), fs_f32(0.), fs_f32(1.));
    let b2 = body_at(1, fs_f32(10.), fs_f32(0.), fs_f32(1.));

    let mut sim = Simulation::new();
    sim.add_body(b1);
    sim.add_body(b2);

    let com = sim.center_of_mass();
    assert_eq!(com.x, fs_int(5));
    assert_eq!(com.y, fs_int(0));
}

#[test]
fn lib_it_works() {
    assert_eq!(2 + 2, 4);
}

#[test]
fn touching_bodies_merge() {
    // two unit masses one apart: their radii overlap, so one step leaves a
    // single body of mass two at the midpoint
    let b1 = body_at(0, fs_int(0), fs_int(0), fs_int(1));
    let b2 = body_at(1, fs_int(1), fs_int(0), fs_int(1));
    let r_sum = b1.radius().sat_add(b2.radius());
    assert!(r_sum >= fs_int(1));

    let mut sim = Simulation::new();
    sim.add_body(b1);
    sim.add_body(b2);
    sim.step();

    assert_eq!(sim.bodies.len(), 1);
    let merged = sim.bodies[0];
    assert_eq!(merged.mass, fs_int(2));
    assert_eq!(merged.position.x.to_raw(), 1i64 << 31);
    assert_eq!(merged.position.y.to_raw(), 0);
}

#[test]
fn radius_exact_value() {
    // cbrt(1 * 3 / 4pi) under the library's exact fixed-point rounding
    let b = body_at(0, fs_int(0), fs_int(0), fs_int(1));
    assert_eq!(b.radius().to_raw(), 2664385070);
}

#[test]
fn render_views_expose_bodies() {
    let mut sim = Simulation::new();
    sim.add_body(body_at(0, fs_int(2), fs_int(3), fs_int(1)));
    let views = sim.render_views();
    assert_eq!(views.len(), 1);
    assert_eq!(views[0], (2i64 << 32, 3i64 << 32, 2664385070, 1i64 << 32));
}
