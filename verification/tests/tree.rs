use generic_space::barnes_hut::{build_tree, pull, Bounds, QuadTree, MAX_DEPTH};
use generic_space::physics::PhysicsObject;
use generic_space::types::Field;

#[derive(Clone, Copy, Debug, PartialEq)]
struct Real(f64);

impl Field for Real {
    fn zero_spec() -> Self {
        Real(0.0)
    }
    fn one_spec() -> Self {
        Real(1.0)
    }
    fn add_spec(self, rhs: Self) -> Self {
        Real(self.0 + rhs.0)
    }
    fn sub_spec(self, rhs: Self) -> Self {
        Real(self.0 - rhs.0)
    }
    fn mul_spec(self, rhs: Self) -> Self {
        Real(self.0 * rhs.0)
    }
    fn inv_spec(self) -> Self {
        Real(1.0 / self.0)
    }
    fn sqrt_spec(self) -> Self {
        Real(self.0.sqrt())
    }
    fn le_spec(self, rhs: Self) -> bool {
        self.0 <= rhs.0
    }
    fn zero() -> Self {
        Real(0.0)
    }
    fn one() -> Self {
        Real(1.0)
    }
    fn add(self, rhs: Self) -> Self {
        Real(self.0 + rhs.0)
    }
    fn sub(self, rhs: Self) -> Self {
        Real(self.0 - rhs.0)
    }
    fn mul(self, rhs: Self) -> Self {
        Real(self.0 * rhs.0)
    }
    fn inv(self) -> Self {
        Real(1.0 / self.0)
    }
    fn sqrt(self) -> Self {
        Real(self.0.sqrt())
    }
    fn le(self, rhs: Self) -> bool {
        self.0 <= rhs.0
    }
}

fn particle(x: f64, y: f64, mass: f64) -> PhysicsObject<Real> {
    PhysicsObject::new([Real(x), Real(y)], [Real(0.0), Real(0.0)], Real(mass))
}

fn square(x: f64, y: f64, size: f64) -> Bounds<Real> {
    Bounds::new(Real(x), Real(y), Real(size), Real(size))
}

fn close_to(a: Real, b: f64) -> bool {
    (a.0 - b).abs() < 1e-9
}

fn count_nodes(tree: &QuadTree<Real>) -> usize {
    match &tree.children {
        None => 1,
        Some(c) => 1 + count_nodes(&c.nw) + count_nodes(&c.ne) + count_nodes(&c.sw) + count_nodes(&c.se),
    }
}

fn height(tree: &QuadTree<Real>) -> usize {
    match &tree.children {
        None => 0,
        Some(c) => 1 + height(&c.nw).max(height(&c.ne)).max(height(&c.sw)).max(height(&c.se)),
    }
}

// Checks, for every node, that its mass is the sum of the masses below it.
fn leaf_mass(tree: &QuadTree<Real>) -> f64 {
    match &tree.children {
        None => tree.total_mass.0,
        Some(c) => {
            let below = leaf_mass(&c.nw) + leaf_mass(&c.ne) + leaf_mass(&c.sw) + leaf_mass(&c.se);
            assert!((below - tree.total_mass.0).abs() < 1e-9);
            below
        }
    }
}

#[test]
fn bounds_contain_is_half_open() {
    let b = square(0.0, 0.0, 4.0);
    assert!(b.contains(Real(0.0), Real(0.0)));
    assert!(b.contains(Real(3.999), Real(3.999)));
    assert!(!b.contains(Real(4.0), Real(1.0)));
    assert!(!b.contains(Real(1.0), Real(4.0)));
    assert!(!b.contains(Real(-0.001), Real(1.0)));
    assert!(!b.contains(Real(1.0), Real(-0.001)));
}

#[test]
fn bounds_center_is_the_middle() {
    let b = Bounds::new(Real(2.0), Real(-4.0), Real(6.0), Real(10.0));
    assert_eq!(b.center_x(), Real(5.0));
    assert_eq!(b.center_y(), Real(1.0));
}

#[test]
fn quadrant_numbers_and_center_lines() {
    let b = square(0.0, 0.0, 4.0);
    assert_eq!(b.quadrant(Real(1.0), Real(3.0)), 0);
    assert_eq!(b.quadrant(Real(3.0), Real(3.0)), 1);
    assert_eq!(b.quadrant(Real(1.0), Real(1.0)), 2);
    assert_eq!(b.quadrant(Real(3.0), Real(1.0)), 3);
    // On a center line a point counts as north, respectively east.
    assert_eq!(b.quadrant(Real(2.0), Real(2.0)), 1);
    assert_eq!(b.quadrant(Real(2.0), Real(1.0)), 3);
    assert_eq!(b.quadrant(Real(1.0), Real(2.0)), 0);
}

#[test]
fn subdivide_gives_the_four_quarters() {
    let b = Bounds::new(Real(0.0), Real(0.0), Real(4.0), Real(8.0));
    let nw = b.subdivide(0);
    let ne = b.subdivide(1);
    let sw = b.subdivide(2);
    let se = b.subdivide(3);
    assert_eq!((nw.x, nw.y, nw.width, nw.height), (Real(0.0), Real(4.0), Real(2.0), Real(4.0)));
    assert_eq!((ne.x, ne.y, ne.width, ne.height), (Real(2.0), Real(4.0), Real(2.0), Real(4.0)));
    assert_eq!((sw.x, sw.y, sw.width, sw.height), (Real(0.0), Real(0.0), Real(2.0), Real(4.0)));
    assert_eq!((se.x, se.y, se.width, se.height), (Real(2.0), Real(0.0), Real(2.0), Real(4.0)));
}

#[test]
fn quarters_tile_the_parent() {
    let b = square(-3.0, 1.0, 8.0);
    let mut k = 0;
    while k < 400 {
        let px = Real(-4.0 + 0.5 * (k % 20) as f64);
        let py = Real(0.0 + 0.5 * (k / 20) as f64);
        let mut owners = 0;
        for q in 0..4 {
            if b.subdivide(q).contains(px, py) {
                owners += 1;
                assert_eq!(b.quadrant(px, py), q);
            }
        }
        assert_eq!(owners, if b.contains(px, py) { 1 } else { 0 });
        k += 1;
    }
}

#[test]
fn empty_tree_has_nothing() {
    let tree = QuadTree::empty(square(0.0, 0.0, 1.0));
    assert_eq!(tree.total_mass, Real(0.0));
    assert_eq!(tree.center_of_mass, [Real(0.0), Real(0.0)]);
    assert!(tree.children.is_none());
    assert!(tree.particle_index.is_none());
}

#[test]
fn build_tree_of_no_particles_is_the_unit_square() {
    let particles: Vec<PhysicsObject<Real>> = Vec::new();
    let tree = build_tree(&particles);
    assert_eq!(tree.bounds.x, Real(0.0));
    assert_eq!(tree.bounds.y, Real(0.0));
    assert_eq!(tree.bounds.width, Real(1.0));
    assert_eq!(tree.bounds.height, Real(1.0));
    assert_eq!(tree.total_mass, Real(0.0));
    assert!(tree.children.is_none());
    let f = tree.calculate_force([Real(0.5), Real(0.5)], Real(0.5), Real(1.0), Real(1.0), 0);
    assert_eq!(f, [Real(0.0), Real(0.0)]);
}

#[test]
fn insert_into_empty_node_makes_a_leaf() {
    let mut tree = QuadTree::empty(square(0.0, 0.0, 8.0));
    tree.insert(7, [Real(1.0), Real(2.0)], Real(3.0));
    assert_eq!(tree.particle_index, Some(7));
    assert!(tree.children.is_none());
    assert_eq!(tree.total_mass, Real(3.0));
    assert_eq!(tree.center_of_mass, [Real(1.0), Real(2.0)]);
}

#[test]
fn insert_outside_the_bounds_is_dropped() {
    let mut tree = QuadTree::empty(square(0.0, 0.0, 8.0));
    tree.insert(0, [Real(1.0), Real(1.0)], Real(1.0));
    tree.insert(1, [Real(8.0), Real(1.0)], Real(5.0));
    tree.insert(2, [Real(-1.0), Real(1.0)], Real(5.0));
    assert_eq!(tree.particle_index, Some(0));
    assert!(tree.children.is_none());
    assert_eq!(tree.total_mass, Real(1.0));
    assert_eq!(tree.center_of_mass, [Real(1.0), Real(1.0)]);
}

#[test]
fn second_insert_subdivides_the_leaf() {
    let mut tree = QuadTree::empty(square(0.0, 0.0, 8.0));
    tree.insert(0, [Real(1.0), Real(1.0)], Real(1.0));
    tree.insert(1, [Real(7.0), Real(7.0)], Real(3.0));
    assert!(tree.particle_index.is_none());
    assert_eq!(tree.total_mass, Real(4.0));
    assert_eq!(tree.center_of_mass, [Real(5.5), Real(5.5)]);
    let c = tree.children.as_ref().unwrap();
    assert_eq!(c.sw.particle_index, Some(0));
    assert_eq!(c.sw.total_mass, Real(1.0));
    assert_eq!(c.sw.center_of_mass, [Real(1.0), Real(1.0)]);
    assert_eq!(c.ne.particle_index, Some(1));
    assert_eq!(c.ne.total_mass, Real(3.0));
    assert_eq!(c.ne.center_of_mass, [Real(7.0), Real(7.0)]);
    assert!(c.nw.particle_index.is_none());
    assert!(c.se.particle_index.is_none());
    assert_eq!(c.sw.bounds.width, Real(4.0));
    assert_eq!(c.ne.bounds.x, Real(4.0));
}

#[test]
fn two_particles_in_one_quadrant_split_further() {
    let mut tree = QuadTree::empty(square(0.0, 0.0, 8.0));
    tree.insert(0, [Real(1.0), Real(1.0)], Real(1.0));
    tree.insert(1, [Real(3.0), Real(3.0)], Real(1.0));
    let c = tree.children.as_ref().unwrap();
    // Both lie in the south-west quarter, which has to split again.
    assert_eq!(c.sw.total_mass, Real(2.0));
    assert!(c.sw.particle_index.is_none());
    let cc = c.sw.children.as_ref().unwrap();
    assert_eq!(cc.sw.particle_index, Some(0));
    assert_eq!(cc.ne.particle_index, Some(1));
    assert_eq!(height(&tree), 2);
    assert_eq!(count_nodes(&tree), 9);
}

#[test]
fn coincident_particles_stop_at_the_depth_limit() {
    let mut tree = QuadTree::empty(square(0.0, 0.0, 8.0));
    tree.insert(0, [Real(0.0), Real(0.0)], Real(2.0));
    tree.insert(1, [Real(0.0), Real(0.0)], Real(3.0));
    tree.insert(2, [Real(0.0), Real(0.0)], Real(4.0));
    assert_eq!(tree.total_mass, Real(9.0));
    assert_eq!(tree.center_of_mass, [Real(0.0), Real(0.0)]);
    assert_eq!(height(&tree), MAX_DEPTH);
    assert_eq!(leaf_mass(&tree), 9.0);
}

#[test]
fn root_bounds_enclose_two_particles_with_margin() {
    let particles = vec![particle(0.0, 0.0, 1.0), particle(10.0, 10.0, 1.0)];
    let tree = build_tree(&particles);
    let b = tree.bounds;
    assert_eq!(b.x, Real(-10.0));
    assert_eq!(b.y, Real(-10.0));
    assert_eq!(b.width, Real(30.0));
    assert_eq!(b.height, Real(30.0));
    assert!(b.x.0 < 0.0 && b.y.0 < 0.0);
    assert!(b.x.0 + b.width.0 > 10.0 && b.y.0 + b.height.0 > 10.0);
    assert!(b.contains(Real(0.0), Real(0.0)));
    assert!(b.contains(Real(10.0), Real(10.0)));
    assert_eq!(b.center_x(), Real(5.0));
    assert_eq!(b.center_y(), Real(5.0));
    assert_eq!(b.quadrant(Real(0.0), Real(0.0)), 2);
    assert_eq!(b.quadrant(Real(10.0), Real(10.0)), 1);
    assert_eq!(tree.total_mass, Real(2.0));
    assert_eq!(tree.center_of_mass, [Real(5.0), Real(5.0)]);
    assert!(tree.particle_index.is_none());
    let c = tree.children.as_ref().unwrap();
    assert_eq!(c.sw.particle_index, Some(0));
    assert_eq!(c.ne.particle_index, Some(1));
    assert_eq!(c.nw.total_mass, Real(0.0));
}

#[test]
fn bounds_are_square_by_the_longer_side() {
    let particles = vec![particle(0.0, 0.0, 1.0), particle(100.0, 10.0, 1.0), particle(50.0, -20.0, 1.0)];
    let tree = build_tree(&particles);
    assert_eq!(tree.bounds.x, Real(-10.0));
    assert_eq!(tree.bounds.y, Real(-30.0));
    assert_eq!(tree.bounds.width, Real(120.0));
    assert_eq!(tree.bounds.height, Real(120.0));
}

#[test]
fn build_with_given_bounds_leaves_outsiders_out() {
    let particles = vec![particle(1.0, 1.0, 1.0), particle(20.0, 20.0, 4.0), particle(3.0, 1.0, 2.0)];
    let tree = QuadTree::build(&particles, square(0.0, 0.0, 8.0));
    assert_eq!(tree.total_mass, Real(3.0));
    assert!(close_to(tree.center_of_mass[0], 7.0 / 3.0));
    assert!(close_to(tree.center_of_mass[1], 1.0));
}

#[test]
fn mass_is_conserved_in_every_node() {
    let mut particles = Vec::new();
    let mut k = 0;
    let mut total = 0.0;
    while k < 200 {
        let x = ((k * 37) % 101) as f64 * 1.5 - 40.0;
        let y = ((k * 53) % 89) as f64 * 0.75 + 3.0;
        let m = 1.0 + (k % 7) as f64;
        total += m;
        particles.push(particle(x, y, m));
        k += 1;
    }
    let tree = build_tree(&particles);
    assert!((tree.total_mass.0 - total).abs() < 1e-9);
    assert!((leaf_mass(&tree) - total).abs() < 1e-9);
}

#[test]
fn center_of_mass_does_not_depend_on_the_order() {
    let a = particle(1.0, 2.0, 1.0);
    let b = particle(20.0, -5.0, 3.0);
    let c = particle(-7.0, 11.0, 2.5);
    let first = build_tree(&[a, b, c]);
    let second = build_tree(&[c, a, b]);
    let mx = (1.0 * 1.0 + 20.0 * 3.0 - 7.0 * 2.5) / 6.5;
    let my = (2.0 * 1.0 - 5.0 * 3.0 + 11.0 * 2.5) / 6.5;
    assert!(close_to(first.center_of_mass[0], mx));
    assert!(close_to(first.center_of_mass[1], my));
    assert!(close_to(second.center_of_mass[0], mx));
    assert!(close_to(second.center_of_mass[1], my));
    assert!(close_to(first.total_mass, 6.5));
    assert!(close_to(second.total_mass, 6.5));
}

#[test]
fn pull_follows_the_softened_law() {
    // d = (3, 4), mass 2, g 5, softening squared 11: r2 = 36, factor = 10 / 216.
    let a = pull([Real(3.0), Real(4.0)], Real(2.0), Real(5.0), Real(11.0));
    assert!(close_to(a[0], 3.0 * 10.0 / 216.0));
    assert!(close_to(a[1], 4.0 * 10.0 / 216.0));
}

#[test]
fn force_of_a_leaf_is_the_pull_of_its_particle() {
    let mut tree = QuadTree::empty(square(0.0, 0.0, 8.0));
    tree.insert(0, [Real(4.0), Real(5.0)], Real(2.0));
    let f = tree.calculate_force([Real(1.0), Real(1.0)], Real(0.5), Real(5.0), Real(11.0), 9);
    assert!(close_to(f[0], 3.0 * 10.0 / 216.0));
    assert!(close_to(f[1], 4.0 * 10.0 / 216.0));
}

#[test]
fn a_particle_does_not_pull_itself() {
    let mut tree = QuadTree::empty(square(0.0, 0.0, 8.0));
    tree.insert(3, [Real(4.0), Real(5.0)], Real(2.0));
    let f = tree.calculate_force([Real(1.0), Real(1.0)], Real(0.5), Real(5.0), Real(11.0), 3);
    assert_eq!(f, [Real(0.0), Real(0.0)]);
}

#[test]
fn far_cluster_counts_as_one_point_mass() {
    let particles = vec![particle(0.0, 0.0, 1.0), particle(2.0, 0.0, 1.0)];
    let tree = QuadTree::build(&particles, square(-1.0, -1.0, 4.0));
    // From far away and with a wide opening angle the root stands for both.
    let far = [Real(1001.0), Real(0.0)];
    let f = tree.calculate_force(far, Real(1.0), Real(1.0), Real(0.0), 9);
    let one = pull([Real(-1000.0), Real(0.0)], Real(2.0), Real(1.0), Real(0.0));
    assert_eq!(f, one);
    // With the opening angle zero every node is opened.
    let exact = tree.calculate_force(far, Real(0.0), Real(1.0), Real(0.0), 9);
    let a = pull([Real(-1001.0), Real(0.0)], Real(1.0), Real(1.0), Real(0.0));
    let b = pull([Real(-999.0), Real(0.0)], Real(1.0), Real(1.0), Real(0.0));
    assert!(close_to(exact[0], a[0].0 + b[0].0));
    assert!((exact[0].0 - f[0].0).abs() > 1e-12);
    assert!((exact[0].0 - f[0].0).abs() < 1e-8);
}
