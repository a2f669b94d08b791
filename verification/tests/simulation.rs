use generic_space::direct::coalesce;
use generic_space::physics::{
    leapfrog, next_position, ConfigError, ObjectStatus, PhysicsObject, PhysicsSpace,
};
use generic_space::types::{EuclideanSpace, Field};


#[derive(Clone, Copy, Debug, PartialEq)]
struct Real(f64);

impl Field for Real {
    fn zero_spec() -> Self {
        Real(0.0)
    }
    fn one_spec() -> Self {
        Real(1.0)
    }
    fn add_spec(self, rhs: Self) -> Self {
        Real(self.0 + rhs.0)
    }
    fn sub_spec(self, rhs: Self) -> Self {
        Real(self.0 - rhs.0)
    }
    fn mul_spec(self, rhs: Self) -> Self {
        Real(self.0 * rhs.0)
    }
    fn inv_spec(self) -> Self {
        Real(1.0 / self.0)
    }
    fn sqrt_spec(self) -> Self {
        Real(self.0.sqrt())
    }
    fn le_spec(self, rhs: Self) -> bool {
        self.0 <= rhs.0
    }
    fn zero() -> Self {
        Real(0.0)
    }
    fn one() -> Self {
        Real(1.0)
    }
    fn add(self, rhs: Self) -> Self {
        Real(self.0 + rhs.0)
    }
    fn sub(self, rhs: Self) -> Self {
        Real(self.0 - rhs.0)
    }
    fn mul(self, rhs: Self) -> Self {
        Real(self.0 * rhs.0)
    }
    fn inv(self) -> Self {
        Real(1.0 / self.0)
    }
    fn sqrt(self) -> Self {
        Real(self.0.sqrt())
    }
    fn le(self, rhs: Self) -> bool {
        self.0 <= rhs.0
    }
}


type Space = PhysicsSpace<Real, EuclideanSpace<Real>>;

fn plane() -> EuclideanSpace<Real> {
    EuclideanSpace { field: std::marker::PhantomData }
}

fn particle(x: f64, y: f64, mass: f64) -> PhysicsObject<Real> {
    PhysicsObject::new([Real(x), Real(y)], [Real(0.0), Real(0.0)], Real(mass))
}

fn moving(x: f64, y: f64, vx: f64, vy: f64, mass: f64) -> PhysicsObject<Real> {
    PhysicsObject::new([Real(x), Real(y)], [Real(vx), Real(vy)], Real(mass))
}

fn space(elements: Vec<PhysicsObject<Real>>, g: f64, radius: f64, softening: f64, theta: f64) -> Space {
    match PhysicsSpace::new(elements, Real(g), plane(), Real(radius), Real(softening), Real(theta)) {
        Ok(s) => s,
        Err(e) => panic!("{}", e.message()),
    }
}

fn close_to(a: Real, b: f64) -> bool {
    (a.0 - b).abs() < 1e-9
}

#[test]
fn new_particle_is_live_and_unaccelerated() {
    let p = moving(1.0, 2.0, 3.0, 4.0, 5.0);
    assert_eq!(p.position_vector, [Real(1.0), Real(2.0)]);
    assert_eq!(p.direction_vector, [Real(3.0), Real(4.0)]);
    assert_eq!(p.acceleration_vector, [Real(0.0), Real(0.0)]);
    assert_eq!(p.mass, Real(5.0));
    assert_eq!(p.status, ObjectStatus::Default);
}

#[test]
fn new_space_squares_the_softening() {
    let s = space(vec![particle(0.0, 0.0, 1.0)], 2.0, 50.0, 3.0, 0.5);
    assert_eq!(s.softening_squared, Real(9.0));
    assert_eq!(s.gravitational_constant, Real(2.0));
    assert_eq!(s.radius, Real(50.0));
    assert_eq!(s.theta, Real(0.5));
    assert_eq!(s.particle_count(), 1);
}

#[test]
fn new_space_rejects_zero_mass() {
    let r = PhysicsSpace::new(
        vec![particle(0.0, 0.0, 1.0), particle(1.0, 0.0, 0.0), particle(2.0, 0.0, -1.0)],
        Real(1.0),
        plane(),
        Real(10.0),
        Real(1.0),
        Real(0.5),
    );
    match r {
        Err(e) => {
            assert_eq!(e, ConfigError::NonPositiveMass(1));
            assert_eq!(e.message(), "the mass of every particle must be greater than zero");
        }
        Ok(_) => panic!("a particle without mass was accepted"),
    }
}

#[test]
fn new_space_rejects_negative_mass() {
    let r = PhysicsSpace::new(vec![particle(0.0, 0.0, -2.0)], Real(1.0), plane(), Real(10.0), Real(1.0), Real(0.5));
    assert!(matches!(r, Err(ConfigError::NonPositiveMass(0))));
}

#[test]
fn new_space_rejects_zero_softening() {
    let r = PhysicsSpace::new(vec![particle(0.0, 0.0, 1.0)], Real(1.0), plane(), Real(10.0), Real(0.0), Real(0.5));
    match r {
        Err(e) => {
            assert_eq!(e, ConfigError::ZeroSoftening);
            assert_eq!(e.message(), "the softening length must not be zero");
        }
        Ok(_) => panic!("a softening length of zero was accepted"),
    }
}

#[test]
fn mass_is_reported_before_softening() {
    let r = PhysicsSpace::new(vec![particle(0.0, 0.0, 0.0)], Real(1.0), plane(), Real(10.0), Real(0.0), Real(0.5));
    assert!(matches!(r, Err(ConfigError::NonPositiveMass(0))));
}

#[test]
fn leapfrog_position_and_velocity() {
    let mut p = moving(1.0, 2.0, 0.5, -1.0, 3.0);
    p.acceleration_vector = [Real(0.2), Real(0.4)];
    let next_pos = next_position(&p);
    assert!(close_to(next_pos[0], 1.6));
    assert!(close_to(next_pos[1], 1.2));
    let q = leapfrog(&p, next_pos, [Real(1.0), Real(-2.0)]);
    assert_eq!(q.position_vector, next_pos);
    assert!(close_to(q.direction_vector[0], 1.1));
    assert!(close_to(q.direction_vector[1], -1.8));
    assert_eq!(q.acceleration_vector, [Real(1.0), Real(-2.0)]);
    assert_eq!(q.mass, Real(3.0));
    assert_eq!(q.status, ObjectStatus::Default);
}

#[test]
fn leapfrog_step_can_be_taken_back() {
    let mut p = moving(1.0, 2.0, 0.5, -1.0, 3.0);
    p.acceleration_vector = [Real(0.25), Real(0.5)];
    let a_new = [Real(1.0), Real(-2.0)];
    let forward = leapfrog(&p, next_position(&p), a_new);
    let mut turned = forward;
    turned.direction_vector = [Real(-forward.direction_vector[0].0), Real(-forward.direction_vector[1].0)];
    let back = leapfrog(&turned, next_position(&turned), p.acceleration_vector);
    assert!(close_to(back.position_vector[0], 1.0));
    assert!(close_to(back.position_vector[1], 2.0));
    assert!(close_to(back.direction_vector[0], -0.5));
    assert!(close_to(back.direction_vector[1], 1.0));
}

#[test]
fn single_particle_stays_then_leaves() {
    let mut s = space(vec![particle(0.0, 0.0, 1.0)], 1.0, 10.0, 1.0, 0.5);
    s.tick();
    assert_eq!(s.particle_count(), 1);
    let mut out = Vec::new();
    s.write_positions(&mut out);
    assert_eq!(out, vec![Real(0.0), Real(0.0)]);
    // Something pushes it beyond the radius.
    s.elements[0].position_vector = [Real(10.5), Real(0.0)];
    s.tick();
    assert_eq!(s.particle_count(), 0);
    s.write_positions(&mut out);
    assert!(out.is_empty());
}

#[test]
fn particle_on_the_radius_stays() {
    let mut s = space(vec![particle(6.0, 8.0, 1.0), particle(6.0, 8.5, 1.0)], 1.0, 10.0, 1.0, 0.5);
    s.prune();
    assert_eq!(s.particle_count(), 1);
    assert_eq!(s.elements[0].position_vector, [Real(6.0), Real(8.0)]);
}

#[test]
fn prune_keeps_the_order_of_the_near() {
    let mut s = space(
        vec![particle(1.0, 0.0, 1.0), particle(50.0, 0.0, 2.0), particle(0.0, 2.0, 3.0), particle(0.0, -30.0, 4.0), particle(3.0, 3.0, 5.0)],
        1.0,
        10.0,
        1.0,
        0.5,
    );
    s.prune();
    assert_eq!(s.particle_count(), 3);
    assert_eq!(s.elements[0].mass, Real(1.0));
    assert_eq!(s.elements[1].mass, Real(3.0));
    assert_eq!(s.elements[2].mass, Real(5.0));
}

#[test]
fn light_particle_falls_towards_the_heavy_one() {
    let mut s = space(vec![particle(0.0, 0.0, 100.0), particle(100.0, 0.0, 1.0)], 1.0, 1000.0, 1.0, 0.5);
    s.tick_direct(Real(0.0));
    assert_eq!(s.particle_count(), 2);
    let light = s.elements[1];
    let expected = -100.0 * 100.0 / (10001.0 * 10001.0f64.sqrt());
    assert!(close_to(light.acceleration_vector[0], expected));
    assert_eq!(light.acceleration_vector[1], Real(0.0));
    assert!(light.acceleration_vector[0].0 < 0.0);
    assert!((light.acceleration_vector[0].0.abs() - 0.01).abs() < 1e-4);
    assert_eq!(light.position_vector, [Real(100.0), Real(0.0)]);
    assert!(close_to(light.direction_vector[0], 0.5 * expected));
    let heavy = s.elements[0];
    assert!(heavy.acceleration_vector[0].0 > 0.0);
    // Equal and opposite forces.
    assert!(close_to(Real(heavy.acceleration_vector[0].0 * 100.0), -light.acceleration_vector[0].0));
}

#[test]
fn tree_and_direct_agree_on_two_particles() {
    let start = vec![particle(0.0, 0.0, 100.0), particle(100.0, 0.0, 1.0)];
    let mut tree = space(start.clone(), 1.0, 1000.0, 1.0, 0.5);
    let mut direct = space(start, 1.0, 1000.0, 1.0, 0.5);
    tree.tick();
    direct.tick_direct(Real(0.0));
    for i in 0..2 {
        assert!(close_to(tree.elements[i].acceleration_vector[0], direct.elements[i].acceleration_vector[0].0));
        assert!(close_to(tree.elements[i].acceleration_vector[1], direct.elements[i].acceleration_vector[1].0));
        assert!(close_to(tree.elements[i].direction_vector[0], direct.elements[i].direction_vector[0].0));
        assert_eq!(tree.elements[i].position_vector, direct.elements[i].position_vector);
    }
}

#[test]
fn tree_force_approaches_direct_force_for_small_theta() {
    let mut particles = Vec::new();
    let mut k = 0;
    while k < 60 {
        let x = ((k * 37) % 101) as f64 * 1.5 - 40.0;
        let y = ((k * 53) % 89) as f64 * 0.75 + 3.0;
        particles.push(particle(x, y, 1.0 + (k % 5) as f64));
        k += 1;
    }
    let coarse = {
        let mut s = space(particles.clone(), 1.0, 1.0e6, 1.0, 1.0);
        s.tick();
        s.elements[0].acceleration_vector
    };
    let fine = {
        let mut s = space(particles.clone(), 1.0, 1.0e6, 1.0, 0.0);
        s.tick();
        s.elements[0].acceleration_vector
    };
    let exact = {
        let mut s = space(particles, 1.0, 1.0e6, 1.0, 0.0);
        s.tick_direct(Real(0.0));
        s.elements[0].acceleration_vector
    };
    let err_fine = (fine[0].0 - exact[0].0).abs() + (fine[1].0 - exact[1].0).abs();
    let err_coarse = (coarse[0].0 - exact[0].0).abs() + (coarse[1].0 - exact[1].0).abs();
    assert!(err_fine < 1e-9);
    assert!(err_fine <= err_coarse);
}

#[test]
fn acceleration_direct_skips_itself_and_the_dead() {
    let mut s = space(vec![particle(0.0, 0.0, 2.0), particle(3.0, 4.0, 2.0), particle(-3.0, -4.0, 7.0)], 5.0, 100.0, 1.0, 0.5);
    s.softening_squared = Real(11.0);
    s.elements[2].status = ObjectStatus::Deleted;
    let a = s.acceleration_direct(&[Real(0.0), Real(0.0)], 0);
    assert!(close_to(a[0], 3.0 * 10.0 / 216.0));
    assert!(close_to(a[1], 4.0 * 10.0 / 216.0));
}

#[test]
fn coalesce_is_the_weighted_average() {
    let mut a = moving(0.0, 0.0, 1.0, 0.0, 1.0);
    a.acceleration_vector = [Real(4.0), Real(0.0)];
    let mut b = moving(4.0, 8.0, -1.0, 2.0, 3.0);
    b.acceleration_vector = [Real(0.0), Real(8.0)];
    let c = coalesce(&a, &b);
    assert_eq!(c.mass, Real(4.0));
    assert!(close_to(c.position_vector[0], 3.0));
    assert!(close_to(c.position_vector[1], 6.0));
    assert!(close_to(c.direction_vector[0], -0.5));
    assert!(close_to(c.direction_vector[1], 1.5));
    assert!(close_to(c.acceleration_vector[0], 1.0));
    assert!(close_to(c.acceleration_vector[1], 6.0));
    assert_eq!(c.status, ObjectStatus::Default);
}

#[test]
fn close_particles_merge() {
    let mut s = space(vec![particle(0.0, 0.0, 1.0), particle(0.5, 0.0, 3.0), particle(100.0, 0.0, 1.0)], 1.0, 1000.0, 1.0, 0.5);
    s.resolve_merges(Real(1.0));
    assert_eq!(s.particle_count(), 3);
    assert_eq!(s.elements[0].status, ObjectStatus::Default);
    assert_eq!(s.elements[0].mass, Real(4.0));
    assert!(close_to(s.elements[0].position_vector[0], 0.375));
    assert_eq!(s.elements[1].status, ObjectStatus::MergedInto(0));
    assert_eq!(s.elements[2].status, ObjectStatus::Default);
    s.compact();
    assert_eq!(s.particle_count(), 2);
    assert_eq!(s.elements[0].mass, Real(4.0));
    assert_eq!(s.elements[1].mass, Real(1.0));
}

#[test]
fn merge_chain_is_flat() {
    let mut s = space(vec![particle(0.0, 0.0, 1.0), particle(0.9, 0.0, 1.0), particle(1.7, 0.0, 1.0)], 1.0, 1000.0, 1.0, 0.5);
    s.resolve_merges(Real(1.0));
    // The second particle went into the first; the third is close to the
    // second only, and goes into the first as well.
    assert_eq!(s.elements[1].status, ObjectStatus::MergedInto(0));
    assert_eq!(s.elements[2].status, ObjectStatus::MergedInto(0));
    assert_eq!(s.elements[0].mass, Real(3.0));
    assert!(close_to(s.elements[0].position_vector[0], (0.45 * 2.0 + 1.7) / 3.0));
}

#[test]
fn merging_conserves_mass() {
    let mut particles = Vec::new();
    let mut k = 0;
    let mut total = 0.0;
    while k < 50 {
        let x = ((k * 37) % 23) as f64 * 0.4;
        let y = ((k * 53) % 19) as f64 * 0.4;
        let m = 1.0 + (k % 4) as f64;
        total += m;
        particles.push(particle(x, y, m));
        k += 1;
    }
    let mut s = space(particles, 1.0, 1000.0, 1.0, 0.5);
    s.resolve_merges(Real(0.7));
    let live: f64 = s.elements.iter().filter(|e| e.status == ObjectStatus::Default).map(|e| e.mass.0).sum();
    assert!((live - total).abs() < 1e-9);
    let before = s.particle_count();
    s.compact();
    assert!(s.particle_count() < before);
    let kept: f64 = s.elements.iter().map(|e| e.mass.0).sum();
    assert!((kept - total).abs() < 1e-9);
}

#[test]
fn direct_tick_drops_the_absorbed() {
    let mut s = space(vec![particle(0.0, 0.0, 1.0), particle(0.5, 0.0, 3.0), particle(100.0, 0.0, 1.0)], 1.0, 1000.0, 1.0, 0.5);
    s.tick_direct(Real(1.0));
    assert_eq!(s.particle_count(), 2);
    assert_eq!(s.elements[0].mass, Real(4.0));
    assert_eq!(s.elements[1].mass, Real(1.0));
    assert!(s.elements[0].acceleration_vector[0].0 > 0.0);
    assert!(s.elements[1].acceleration_vector[0].0 < 0.0);
}

#[test]
fn positions_come_in_one_row() {
    let s = space(vec![particle(1.0, 2.0, 1.0), particle(3.0, 4.0, 1.0), particle(5.0, 6.0, 1.0)], 1.0, 1000.0, 1.0, 0.5);
    let mut out = vec![Real(9.0)];
    s.write_positions(&mut out);
    assert_eq!(out, vec![Real(1.0), Real(2.0), Real(3.0), Real(4.0), Real(5.0), Real(6.0)]);
}

#[test]
fn tick_keeps_the_constants() {
    let mut s = space(vec![particle(1.0, 2.0, 1.0), particle(3.0, 4.0, 1.0)], 2.0, 500.0, 3.0, 0.7);
    s.tick();
    s.tick_direct(Real(0.1));
    assert_eq!(s.gravitational_constant, Real(2.0));
    assert_eq!(s.radius, Real(500.0));
    assert_eq!(s.softening_squared, Real(9.0));
    assert_eq!(s.theta, Real(0.7));
}

#[test]
fn survivor_may_leave_the_radius_within_the_tick() {
    // Pruning looks at the positions the tick starts from.
    let mut s = space(vec![moving(9.5, 0.0, 1.0, 0.0, 1.0)], 1.0, 10.0, 1.0, 0.5);
    s.tick();
    assert_eq!(s.particle_count(), 1);
    assert_eq!(s.elements[0].position_vector, [Real(10.5), Real(0.0)]);
    s.tick();
    assert_eq!(s.particle_count(), 0);
}

#[test]
fn status_other_than_live_is_dropped_by_the_direct_tick() {
    let mut s = space(vec![particle(0.0, 0.0, 1.0), particle(5.0, 0.0, 1.0), particle(9.0, 0.0, 2.0)], 1.0, 100.0, 1.0, 0.5);
    s.elements[1].status = ObjectStatus::Deleted;
    s.tick_direct(Real(0.5));
    assert_eq!(s.particle_count(), 2);
    assert_eq!(s.elements[0].mass, Real(1.0));
    assert_eq!(s.elements[1].mass, Real(2.0));
}

#[test]
fn new_space_starts_with_live_particles() {
    let mut p = particle(1.0, 2.0, 3.0);
    p.status = ObjectStatus::MergedInto(5);
    let s = space(vec![p, particle(0.0, 0.0, 1.0)], 1.0, 100.0, 1.0, 0.5);
    assert_eq!(s.elements[0].status, ObjectStatus::Default);
    assert_eq!(s.elements[0].position_vector, [Real(1.0), Real(2.0)]);
    assert_eq!(s.elements[0].mass, Real(3.0));
    assert_eq!(s.elements[1].status, ObjectStatus::Default);
}
