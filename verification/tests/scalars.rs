use generic_space::types::{
    div, half, larger, lt, same, smaller, ten, two, EuclideanSpace, Field, MathSpace,
};


#[derive(Clone, Copy, Debug, PartialEq)]
struct Real(f64);

impl Field for Real {
    fn zero_spec() -> Self {
        Real(0.0)
    }
    fn one_spec() -> Self {
        Real(1.0)
    }
    fn add_spec(self, rhs: Self) -> Self {
        Real(self.0 + rhs.0)
    }
    fn sub_spec(self, rhs: Self) -> Self {
        Real(self.0 - rhs.0)
    }
    fn mul_spec(self, rhs: Self) -> Self {
        Real(self.0 * rhs.0)
    }
    fn inv_spec(self) -> Self {
        Real(1.0 / self.0)
    }
    fn sqrt_spec(self) -> Self {
        Real(self.0.sqrt())
    }
    fn le_spec(self, rhs: Self) -> bool {
        self.0 <= rhs.0
    }
    fn zero() -> Self {
        Real(0.0)
    }
    fn one() -> Self {
        Real(1.0)
    }
    fn add(self, rhs: Self) -> Self {
        Real(self.0 + rhs.0)
    }
    fn sub(self, rhs: Self) -> Self {
        Real(self.0 - rhs.0)
    }
    fn mul(self, rhs: Self) -> Self {
        Real(self.0 * rhs.0)
    }
    fn inv(self) -> Self {
        Real(1.0 / self.0)
    }
    fn sqrt(self) -> Self {
        Real(self.0.sqrt())
    }
    fn le(self, rhs: Self) -> bool {
        self.0 <= rhs.0
    }
}


fn plane() -> EuclideanSpace<Real> {
    EuclideanSpace { field: std::marker::PhantomData }
}

#[test]
fn comparisons_from_less_or_equal() {
    assert!(lt(Real(1.0), Real(2.0)));
    assert!(!lt(Real(2.0), Real(2.0)));
    assert!(!lt(Real(3.0), Real(2.0)));
    assert!(same(Real(2.0), Real(2.0)));
    assert!(same(Real(0.0), Real(-0.0)));
    assert!(!same(Real(2.0), Real(2.5)));
    assert!(!lt(Real(f64::NAN), Real(1.0)));
    assert!(!same(Real(f64::NAN), Real(f64::NAN)));
}

#[test]
fn larger_and_smaller() {
    assert_eq!(larger(Real(1.0), Real(2.0)), Real(2.0));
    assert_eq!(larger(Real(2.0), Real(1.0)), Real(2.0));
    assert_eq!(smaller(Real(1.0), Real(2.0)), Real(1.0));
    assert_eq!(smaller(Real(2.0), Real(1.0)), Real(1.0));
}

#[test]
fn derived_arithmetic() {
    assert_eq!(div(Real(3.0), Real(4.0)), Real(0.75));
    assert_eq!(two::<Real>(), Real(2.0));
    assert_eq!(half::<Real>(), Real(0.5));
    assert_eq!(ten::<Real>(), Real(10.0));
}

#[test]
fn euclidean_distance_of_a_right_triangle() {
    let s = plane();
    assert_eq!(s.distance(&[Real(1.0), Real(1.0)], &[Real(4.0), Real(5.0)]), Real(5.0));
    assert_eq!(s.distance(&[Real(4.0), Real(5.0)], &[Real(1.0), Real(1.0)]), Real(5.0));
    assert_eq!(s.distance(&[Real(2.0), Real(2.0)], &[Real(2.0), Real(2.0)]), Real(0.0));
}

#[test]
fn euclidean_vector_operations() {
    let s = plane();
    assert_eq!(s.add(&[Real(1.0), Real(2.0)], &[Real(3.0), Real(5.0)]), [Real(4.0), Real(7.0)]);
    assert_eq!(s.sub(&[Real(1.0), Real(2.0)], &[Real(3.0), Real(5.0)]), [Real(-2.0), Real(-3.0)]);
    assert_eq!(s.mul(&Real(3.0), &[Real(1.0), Real(-2.0)]), [Real(3.0), Real(-6.0)]);
    assert_eq!(s.scalar_product([Real(1.0), Real(2.0)], [Real(3.0), Real(5.0)]), Real(13.0));
}
