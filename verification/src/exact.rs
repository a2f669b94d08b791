//! Exact scalars. The operations of a scalar type are only named by the
//! `Field` trait; here is what it means for them to be the arithmetic of real
//! numbers, which the algebraic laws of the simulation ask for.

use vstd::prelude::*;
use crate::types::{Field, half_spec, two_spec, ten_spec, lt_spec, same_spec, larger_spec, smaller_spec, div_spec, neg_spec};

verus! {

/// `val` reads the scalars of `K` as real numbers, faithfully: different
/// scalars are different numbers, and sum, difference, product, reciprocal
/// and order of `K` are those of the reals. The reciprocal is only fixed away
/// from zero, and nothing is asked of the root: the laws do not depend on it.
pub open spec fn interprets<K: Field>(val: spec_fn(K) -> real) -> bool {
    &&& val(K::zero_spec()) == 0real
    &&& val(K::one_spec()) == 1real
    &&& forall|a: K, b: K| #[trigger] val(a.add_spec(b)) == val(a) + val(b)
    &&& forall|a: K, b: K| #[trigger] val(a.sub_spec(b)) == val(a) - val(b)
    &&& forall|a: K, b: K| #[trigger] val(a.mul_spec(b)) == val(a) * val(b)
    &&& forall|a: K| val(a) != 0real ==> #[trigger] val(a.inv_spec()) * val(a) == 1real
    &&& forall|a: K, b: K| #[trigger] a.le_spec(b) <==> val(a) <= val(b)
    &&& forall|a: K, b: K| #[trigger] val(a) == #[trigger] val(b) ==> a == b
}

/// The scalar type `K` computes exactly: its field operations are those of the
/// real numbers under some faithful reading. Rationals of unbounded size are
/// exact; rounding types such as binary floating point are not.
pub open spec fn exact<K: Field>() -> bool {
    exists|val: spec_fn(K) -> real| interprets::<K>(val)
}

/// The real number that the scalar `a` stands for, where `K` is exact.
pub open spec fn rv<K: Field>(a: K) -> real {
    (choose|val: spec_fn(K) -> real| interprets::<K>(val))(a)
}

/// The product of two real numbers. It is kept opaque: the proofs of the laws
/// use its properties one at a time, through the lemmas below.
#[verifier::opaque]
pub open spec fn times(x: real, y: real) -> real {
    x * y
}

/// The order of the factors does not matter.
pub proof fn lemma_times_commutes(x: real, y: real)
    ensures
        times(x, y) == times(y, x),
{
    reveal(times);
    assert(x * y == y * x) by (nonlinear_arith);
}

/// The grouping of the factors does not matter.
pub proof fn lemma_times_associates(x: real, y: real, z: real)
    ensures
        times(times(x, y), z) == times(x, times(y, z)),
{
    reveal(times);
    assert((x * y) * z == x * (y * z)) by (nonlinear_arith);
}

/// The first two of three factors can change places.
pub proof fn lemma_times_swaps(x: real, y: real, z: real)
    ensures
        times(x, times(y, z)) == times(y, times(x, z)),
{
    lemma_times_associates(x, y, z);
    lemma_times_associates(y, x, z);
    lemma_times_commutes(x, y);
}

/// A product with a sum is the sum of the products.
pub proof fn lemma_times_distributes(x: real, y: real, z: real)
    ensures
        times(x, y + z) == times(x, y) + times(x, z),
        times(y + z, x) == times(y, x) + times(z, x),
{
    reveal(times);
    assert(x * (y + z) == x * y + x * z) by (nonlinear_arith);
    assert((y + z) * x == y * x + z * x) by (nonlinear_arith);
}

/// A sign can be taken out of a product.
pub proof fn lemma_times_negates(x: real, y: real)
    ensures
        times(-x, y) == -times(x, y),
        times(x, -y) == -times(x, y),
{
    reveal(times);
    assert((-x) * y == -(x * y)) by (nonlinear_arith);
    assert(x * (-y) == -(x * y)) by (nonlinear_arith);
}

/// Products with zero and with one.
pub proof fn lemma_times_units(x: real)
    ensures
        times(0real, x) == 0real,
        times(x, 0real) == 0real,
        times(1real, x) == x,
        times(x, 1real) == x,
{
    reveal(times);
    assert(0real * x == 0real) by (nonlinear_arith);
    assert(x * 0real == 0real) by (nonlinear_arith);
    assert(1real * x == x) by (nonlinear_arith);
    assert(x * 1real == x) by (nonlinear_arith);
}

/// A factor other than zero can be cancelled.
pub proof fn lemma_times_cancels(x: real, y: real, m: real)
    requires
        times(x, m) == times(y, m),
        m != 0real,
    ensures
        x == y,
{
    reveal(times);
    assert(x == y) by (nonlinear_arith)
        requires
            x * m == y * m,
            m != 0real,
    ;
}

/// A square is not negative.
pub proof fn lemma_times_square(x: real)
    ensures
        times(x, x) >= 0real,
{
    reveal(times);
    assert(x * x >= 0real) by (nonlinear_arith);
}

/// Zero and one stand for zero and one.
pub proof fn lemma_rv_constants<K: Field>()
    requires
        exact::<K>(),
    ensures
        rv(K::zero_spec()) == 0real,
        rv(K::one_spec()) == 1real,
{
    let val = choose|val: spec_fn(K) -> real| interprets::<K>(val);
    assert(interprets::<K>(val));
}

/// A sum stands for the sum.
pub proof fn lemma_rv_add<K: Field>(a: K, b: K)
    requires
        exact::<K>(),
    ensures
        rv(a.add_spec(b)) == rv(a) + rv(b),
{
    let val = choose|val: spec_fn(K) -> real| interprets::<K>(val);
    assert(interprets::<K>(val));
}

/// A difference stands for the difference.
pub proof fn lemma_rv_sub<K: Field>(a: K, b: K)
    requires
        exact::<K>(),
    ensures
        rv(a.sub_spec(b)) == rv(a) - rv(b),
{
    let val = choose|val: spec_fn(K) -> real| interprets::<K>(val);
    assert(interprets::<K>(val));
}

/// A product stands for the product.
pub proof fn lemma_rv_mul<K: Field>(a: K, b: K)
    requires
        exact::<K>(),
    ensures
        rv(a.mul_spec(b)) == times(rv(a), rv(b)),
{
    reveal(times);
    let val = choose|val: spec_fn(K) -> real| interprets::<K>(val);
    assert(interprets::<K>(val));
}

/// The reciprocal of a scalar other than zero stands for the reciprocal.
pub proof fn lemma_rv_inv<K: Field>(a: K)
    requires
        exact::<K>(),
        rv(a) != 0real,
    ensures
        times(rv(a.inv_spec()), rv(a)) == 1real,
{
    reveal(times);
    let val = choose|val: spec_fn(K) -> real| interprets::<K>(val);
    assert(interprets::<K>(val));
}

/// The order of the scalars is the order of the numbers.
pub proof fn lemma_rv_le<K: Field>(a: K, b: K)
    requires
        exact::<K>(),
    ensures
        a.le_spec(b) <==> rv(a) <= rv(b),
        lt_spec(a, b) <==> rv(a) < rv(b),
        same_spec(a, b) <==> rv(a) == rv(b),
        rv(larger_spec(a, b)) == if rv(a) <= rv(b) { rv(b) } else { rv(a) },
        rv(smaller_spec(a, b)) == if rv(b) <= rv(a) { rv(b) } else { rv(a) },
{
    let val = choose|val: spec_fn(K) -> real| interprets::<K>(val);
    assert(interprets::<K>(val));
    assert(a.le_spec(b) <==> val(a) <= val(b));
    assert(b.le_spec(a) <==> val(b) <= val(a));
}

/// Scalars that stand for the same real number are the same scalar.
pub proof fn lemma_rv_injective<K: Field>(a: K, b: K)
    requires
        exact::<K>(),
        rv(a) == rv(b),
    ensures
        a == b,
{
    let val = choose|val: spec_fn(K) -> real| interprets::<K>(val);
    assert(interprets::<K>(val));
    assert(val(a) == val(b));
}

/// A negation stands for the negation.
pub proof fn lemma_rv_neg<K: Field>(a: K)
    requires
        exact::<K>(),
    ensures
        rv(neg_spec(a)) == -rv(a),
{
    lemma_rv_constants::<K>();
    lemma_rv_sub(K::zero_spec(), a);
}

/// Two, a half and ten stand for themselves.
pub proof fn lemma_rv_numbers<K: Field>()
    requires
        exact::<K>(),
    ensures
        rv(two_spec::<K>()) == 2real,
        rv(half_spec::<K>()) + rv(half_spec::<K>()) == 1real,
        rv(ten_spec::<K>()) == 10real,
{
    lemma_rv_constants::<K>();
    let one = K::one_spec();
    let two = two_spec::<K>();
    let four = two.add_spec(two);
    lemma_rv_add(one, one);
    lemma_rv_inv(two);
    lemma_rv_add(two, two);
    lemma_rv_add(four, four);
    lemma_rv_add(four.add_spec(four), two);
    let h = rv(half_spec::<K>());
    lemma_times_distributes(h, 1real, 1real);
    lemma_times_units(h);
}

/// Half of a scalar, taken twice, is the scalar.
pub proof fn lemma_rv_halves<K: Field>(a: K)
    requires
        exact::<K>(),
    ensures
        rv(a.mul_spec(half_spec::<K>())) + rv(a.mul_spec(half_spec::<K>())) == rv(a),
        rv(half_spec::<K>().mul_spec(a)) == rv(a.mul_spec(half_spec::<K>())),
{
    lemma_rv_numbers::<K>();
    lemma_rv_mul(a, half_spec::<K>());
    lemma_rv_mul(half_spec::<K>(), a);
    let h = rv(half_spec::<K>());
    let x = rv(a);
    lemma_times_distributes(x, h, h);
    lemma_times_units(x);
    lemma_times_commutes(x, h);
}

/// A quotient by a scalar other than zero stands for the quotient.
pub proof fn lemma_rv_div<K: Field>(a: K, b: K)
    requires
        exact::<K>(),
        rv(b) != 0real,
    ensures
        times(rv(div_spec(a, b)), rv(b)) == rv(a),
{
    lemma_rv_inv(b);
    lemma_rv_mul(a, b.inv_spec());
    let i = rv(b.inv_spec());
    let x = rv(a);
    let y = rv(b);
    lemma_times_associates(x, i, y);
    lemma_times_units(x);
}

/// A square is not negative.
pub proof fn lemma_rv_square<K: Field>(a: K)
    requires
        exact::<K>(),
    ensures
        rv(a.mul_spec(a)) >= 0real,
{
    lemma_rv_mul(a, a);
    lemma_times_square(rv(a));
}

/// A product with zero is zero.
pub proof fn lemma_rv_mul_zero<K: Field>(a: K, b: K)
    requires
        exact::<K>(),
        rv(a) == 0real || rv(b) == 0real,
    ensures
        rv(a.mul_spec(b)) == 0real,
{
    lemma_rv_mul(a, b);
    lemma_times_units(rv(a));
    lemma_times_units(rv(b));
}

} // verus!
