//! The scalar abstraction the whole simulation is generic over, and the
//! vector space built on it.

use vstd::prelude::*;

verus! {

/// The arithmetic a scalar type must offer.
///
/// Every operation has a specification twin that names its result; the
/// executable method promises to return exactly that value. Nothing here says
/// that the operations obey the usual algebraic identities: rounding types such
/// as binary floating point implement this trait too. Identities are only
/// assumed where a statement asks for an exact scalar type explicitly.
///
/// An implementation in ordinary Rust writes each twin as the operation
/// itself.
pub trait Field: Sized + Copy {
    /// The additive identity.
    spec fn zero_spec() -> Self;

    /// The multiplicative identity.
    spec fn one_spec() -> Self;

    /// The sum `self + rhs`.
    spec fn add_spec(self, rhs: Self) -> Self;

    /// The difference `self - rhs`.
    spec fn sub_spec(self, rhs: Self) -> Self;

    /// The product `self * rhs`.
    spec fn mul_spec(self, rhs: Self) -> Self;

    /// The reciprocal `1 / self`.
    spec fn inv_spec(self) -> Self;

    /// The non-negative square root of `self`.
    spec fn sqrt_spec(self) -> Self;

    /// Whether `self <= rhs`.
    spec fn le_spec(self, rhs: Self) -> bool;

    fn zero() -> (r: Self)
        ensures
            r == Self::zero_spec(),
    ;

    fn one() -> (r: Self)
        ensures
            r == Self::one_spec(),
    ;

    fn add(self, rhs: Self) -> (r: Self)
        ensures
            r == self.add_spec(rhs),
    ;

    fn sub(self, rhs: Self) -> (r: Self)
        ensures
            r == self.sub_spec(rhs),
    ;

    fn mul(self, rhs: Self) -> (r: Self)
        ensures
            r == self.mul_spec(rhs),
    ;

    fn inv(self) -> (r: Self)
        ensures
            r == self.inv_spec(),
    ;

    fn sqrt(self) -> (r: Self)
        ensures
            r == self.sqrt_spec(),
    ;

    fn le(self, rhs: Self) -> (r: bool)
        ensures
            r == self.le_spec(rhs),
    ;
}

/// `a < b`, expressed through `<=` alone: `a <= b` holds and `b <= a` does not.
pub open spec fn lt_spec<K: Field>(a: K, b: K) -> bool {
    a.le_spec(b) && !b.le_spec(a)
}

/// `a` and `b` compare equal: each is `<=` the other.
pub open spec fn same_spec<K: Field>(a: K, b: K) -> bool {
    a.le_spec(b) && b.le_spec(a)
}

/// The larger of `a` and `b`; `a` when they are unordered.
pub open spec fn larger_spec<K: Field>(a: K, b: K) -> K {
    if a.le_spec(b) {
        b
    } else {
        a
    }
}

/// The smaller of `a` and `b`; `a` when they are unordered.
pub open spec fn smaller_spec<K: Field>(a: K, b: K) -> K {
    if b.le_spec(a) {
        b
    } else {
        a
    }
}

/// The quotient `a / b`, computed as `a * (1 / b)`.
pub open spec fn div_spec<K: Field>(a: K, b: K) -> K {
    a.mul_spec(b.inv_spec())
}

/// The negation `0 - a`.
pub open spec fn neg_spec<K: Field>(a: K) -> K {
    K::zero_spec().sub_spec(a)
}

/// The scalar `1 + 1`.
pub open spec fn two_spec<K: Field>() -> K {
    K::one_spec().add_spec(K::one_spec())
}

/// The scalar `1 / 2`.
pub open spec fn half_spec<K: Field>() -> K {
    two_spec::<K>().inv_spec()
}

/// The scalar ten, built as `(2 + 2) + (2 + 2) + 2`.
pub open spec fn ten_spec<K: Field>() -> K {
    let two = two_spec::<K>();
    let four = two.add_spec(two);
    four.add_spec(four).add_spec(two)
}

/// `a < b`.
pub fn lt<K: Field>(a: K, b: K) -> (r: bool)
    ensures
        r == lt_spec(a, b),
{
    a.le(b) && !b.le(a)
}

/// Whether `a` and `b` compare equal.
pub fn same<K: Field>(a: K, b: K) -> (r: bool)
    ensures
        r == same_spec(a, b),
{
    a.le(b) && b.le(a)
}

/// The larger of `a` and `b`.
pub fn larger<K: Field>(a: K, b: K) -> (r: K)
    ensures
        r == larger_spec(a, b),
{
    if a.le(b) {
        b
    } else {
        a
    }
}

/// The smaller of `a` and `b`.
pub fn smaller<K: Field>(a: K, b: K) -> (r: K)
    ensures
        r == smaller_spec(a, b),
{
    if b.le(a) {
        b
    } else {
        a
    }
}

/// `a / b`.
pub fn div<K: Field>(a: K, b: K) -> (r: K)
    ensures
        r == div_spec(a, b),
{
    a.mul(b.inv())
}

/// The scalar two.
pub fn two<K: Field>() -> (r: K)
    ensures
        r == two_spec::<K>(),
{
    K::one().add(K::one())
}

/// The scalar one half.
pub fn half<K: Field>() -> (r: K)
    ensures
        r == half_spec::<K>(),
{
    two::<K>().inv()
}

/// The scalar ten.
pub fn ten<K: Field>() -> (r: K)
    ensures
        r == ten_spec::<K>(),
{
    let two = two::<K>();
    let four = two.add(two);
    four.add(four).add(two)
}

/// A point or vector of the plane as a pair of coordinates.
pub open spec fn pt<K: Field>(v: [K; 2]) -> (K, K) {
    (v[0], v[1])
}

/// Componentwise sum of two vectors.
pub open spec fn vec_add<K: Field>(a: (K, K), b: (K, K)) -> (K, K) {
    (a.0.add_spec(b.0), a.1.add_spec(b.1))
}

/// Componentwise difference of two vectors.
pub open spec fn vec_sub<K: Field>(a: (K, K), b: (K, K)) -> (K, K) {
    (a.0.sub_spec(b.0), a.1.sub_spec(b.1))
}

/// The vector `v` scaled by `s`.
pub open spec fn vec_scale<K: Field>(s: K, v: (K, K)) -> (K, K) {
    (s.mul_spec(v.0), s.mul_spec(v.1))
}

/// The scalar product of two vectors.
pub open spec fn vec_dot<K: Field>(a: (K, K), b: (K, K)) -> K {
    a.0.mul_spec(b.0).add_spec(a.1.mul_spec(b.1))
}

/// The Euclidean distance between two points: the root of the squared length
/// of `second - first`.
pub open spec fn euclidean_distance<K: Field>(first: (K, K), second: (K, K)) -> K {
    let diff = vec_sub(second, first);
    vec_dot(diff, diff).sqrt_spec()
}

/// A two-dimensional space over the scalars `K`: a distance and the vector
/// operations.
pub trait MathSpace<K: Field> {
    /// The distance this space assigns to two points.
    spec fn distance_spec(&self, first: (K, K), second: (K, K)) -> K;

    /// The sum this space assigns to two vectors.
    spec fn add_spec(&self, first: (K, K), second: (K, K)) -> (K, K);

    /// The difference this space assigns to two vectors.
    spec fn sub_spec(&self, first: (K, K), second: (K, K)) -> (K, K);

    /// The multiple of `vector` by `scalar` in this space.
    spec fn mul_spec(&self, scalar: K, vector: (K, K)) -> (K, K);

    fn distance(&self, first: &[K; 2], second: &[K; 2]) -> (r: K)
        ensures
            r == self.distance_spec(pt(*first), pt(*second)),
    ;

    fn add(&self, first: &[K; 2], second: &[K; 2]) -> (r: [K; 2])
        ensures
            pt(r) == self.add_spec(pt(*first), pt(*second)),
    ;

    fn sub(&self, first: &[K; 2], second: &[K; 2]) -> (r: [K; 2])
        ensures
            pt(r) == self.sub_spec(pt(*first), pt(*second)),
    ;

    fn mul(&self, scalar: &K, vector: &[K; 2]) -> (r: [K; 2])
        ensures
            pt(r) == self.mul_spec(*scalar, pt(*vector)),
    ;
}

/// The plane with its usual distance.
pub struct EuclideanSpace<K: Field> {
    pub field: core::marker::PhantomData<K>,
}

impl<K: Field> MathSpace<K> for EuclideanSpace<K> {
    open spec fn distance_spec(&self, first: (K, K), second: (K, K)) -> K {
        euclidean_distance(first, second)
    }

    open spec fn add_spec(&self, first: (K, K), second: (K, K)) -> (K, K) {
        vec_add(first, second)
    }

    open spec fn sub_spec(&self, first: (K, K), second: (K, K)) -> (K, K) {
        vec_sub(first, second)
    }

    open spec fn mul_spec(&self, scalar: K, vector: (K, K)) -> (K, K) {
        vec_scale(scalar, vector)
    }

    fn distance(&self, first: &[K; 2], second: &[K; 2]) -> (r: K) {
        let diff = self.sub(second, first);
        self.scalar_product(diff, diff).sqrt()
    }

    fn add(&self, first: &[K; 2], second: &[K; 2]) -> (r: [K; 2]) {
        [first[0].add(second[0]), first[1].add(second[1])]
    }

    fn sub(&self, first: &[K; 2], second: &[K; 2]) -> (r: [K; 2]) {
        [first[0].sub(second[0]), first[1].sub(second[1])]
    }

    fn mul(&self, scalar: &K, vector: &[K; 2]) -> (r: [K; 2]) {
        [scalar.mul(vector[0]), scalar.mul(vector[1])]
    }
}

impl<K: Field> EuclideanSpace<K> {
    /// The scalar product of two vectors.
    pub fn scalar_product(&self, first: [K; 2], second: [K; 2]) -> (r: K)
        ensures
            r == vec_dot(pt(first), pt(second)),
    {
        first[0].mul(second[0]).add(first[1].mul(second[1]))
    }
}

} // verus!
