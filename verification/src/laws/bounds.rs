//! How the quarters of a rectangle fit together.

use vstd::prelude::*;
use crate::types::{Field, half_spec, pt};
use crate::exact::{exact, rv, lemma_rv_add, lemma_rv_sub, lemma_rv_halves, lemma_rv_le, lemma_rv_numbers};
use crate::physics::PhysicsObject;
use crate::barnes_hut::{Bounds, absorbed, bodies_of, enclosing, extent, padding_spec};

verus! {

/// Along one axis, a half-open interval splits at its middle into two
/// half-open intervals: `p` lies in the upper half exactly when it lies in the
/// interval at or above the middle, and in the lower half exactly when it
/// lies in the interval below the middle.
proof fn lemma_interval_halves<K: Field>(low: K, extent: K, p: K)
    requires
        exact::<K>(),
    ensures
        ({
            let half = extent.mul_spec(half_spec::<K>());
            let middle = low.add_spec(half);
            let inside = rv(low) <= rv(p) < rv(low.add_spec(extent));
            &&& rv(middle) <= rv(p) < rv(middle.add_spec(half)) <==> inside && rv(middle) <= rv(p)
            &&& rv(low) <= rv(p) < rv(low.add_spec(half)) <==> inside && !(rv(middle) <= rv(p))
        }),
{
    let half = extent.mul_spec(half_spec::<K>());
    let middle = low.add_spec(half);
    lemma_rv_halves(extent);
    lemma_rv_add(low, half);
    lemma_rv_add(middle, half);
    lemma_rv_add(low, extent);
}

/// The four quarters of a rectangle tile it: a point lies in the quarter of a
/// quadrant exactly when it lies in the rectangle and that quadrant is its
/// own. So no point of the rectangle is left out and none lies in two
/// quarters.
pub proof fn lemma_subdivide_tiles<K: Field>(b: Bounds<K>, p: (K, K))
    requires
        exact::<K>(),
    ensures
        forall|quadrant: usize|
            quadrant < 4 ==> (#[trigger] b.subdivide_spec(quadrant).contains_spec(p) <==> b.contains_spec(p)
                && b.quadrant_spec(p) == quadrant),
{
    let half_w = b.width.mul_spec(half_spec::<K>());
    let half_h = b.height.mul_spec(half_spec::<K>());
    let cx = b.center_x_spec();
    let cy = b.center_y_spec();
    lemma_interval_halves(b.x, b.width, p.0);
    lemma_interval_halves(b.y, b.height, p.1);
    lemma_rv_le(b.x, p.0);
    lemma_rv_le(p.0, b.x.add_spec(b.width));
    lemma_rv_le(b.y, p.1);
    lemma_rv_le(p.1, b.y.add_spec(b.height));
    lemma_rv_le(cx, p.0);
    lemma_rv_le(cy, p.1);
    lemma_rv_le(p.0, cx.add_spec(half_w));
    lemma_rv_le(p.1, cy.add_spec(half_h));
    lemma_rv_le(p.0, b.x.add_spec(half_w));
    lemma_rv_le(p.1, b.y.add_spec(half_h));
}

/// The extent of the first `n` particles spans each of them.
proof fn lemma_extent_spans<K: Field>(ps: Seq<PhysicsObject<K>>, n: nat, i: int)
    requires
        exact::<K>(),
        0 <= i < n <= ps.len(),
    ensures
        rv(extent(ps, n).0) <= rv(ps[i].position_vector[0]) <= rv(extent(ps, n).1),
        rv(extent(ps, n).2) <= rv(ps[i].position_vector[1]) <= rv(extent(ps, n).3),
    decreases n,
{
    if n > 1 {
        let e = extent(ps, (n - 1) as nat);
        let p = pt(ps[n - 1].position_vector);
        lemma_rv_le(e.0, p.0);
        lemma_rv_le(e.1, p.0);
        lemma_rv_le(e.2, p.1);
        lemma_rv_le(e.3, p.1);
        if i < n - 1 {
            lemma_extent_spans(ps, (n - 1) as nat, i);
        } else {
            lemma_extent_spans(ps, (n - 1) as nat, 0);
        }
    }
}

/// The bounds of a tree enclose the particles it is built over, with room to
/// spare: every particle lies within the root bounds and is at least the
/// padding away from each edge.
pub proof fn lemma_enclosing_holds_all<K: Field>(ps: Seq<PhysicsObject<K>>, i: int)
    requires
        exact::<K>(),
        0 <= i < ps.len(),
    ensures
        enclosing(ps).contains_spec(pt(ps[i].position_vector)),
        rv(enclosing(ps).x) + 10real <= rv(ps[i].position_vector[0]),
        rv(ps[i].position_vector[0]) + 10real <= rv(enclosing(ps).x) + rv(enclosing(ps).width),
        rv(enclosing(ps).y) + 10real <= rv(ps[i].position_vector[1]),
        rv(ps[i].position_vector[1]) + 10real <= rv(enclosing(ps).y) + rv(enclosing(ps).height),
{
    let e = extent(ps, ps.len());
    let pad = padding_spec::<K>();
    let p = pt(ps[i].position_vector);
    let b = enclosing(ps);
    let min_x = e.0.sub_spec(pad);
    let max_x = e.1.add_spec(pad);
    let min_y = e.2.sub_spec(pad);
    let max_y = e.3.add_spec(pad);
    lemma_extent_spans(ps, ps.len(), i);
    lemma_rv_numbers::<K>();
    lemma_rv_sub(e.0, pad);
    lemma_rv_add(e.1, pad);
    lemma_rv_sub(e.2, pad);
    lemma_rv_add(e.3, pad);
    lemma_rv_sub(max_x, min_x);
    lemma_rv_sub(max_y, min_y);
    lemma_rv_le(max_x.sub_spec(min_x), max_y.sub_spec(min_y));
    lemma_rv_add(b.x, b.width);
    lemma_rv_add(b.y, b.height);
    lemma_rv_le(b.x, p.0);
    lemma_rv_le(b.y, p.1);
    lemma_rv_le(p.0, b.x.add_spec(b.width));
    lemma_rv_le(p.1, b.y.add_spec(b.height));
}

/// A tree built over particles leaves none of them out: its root absorbs the
/// body of every particle, in order.
pub proof fn lemma_nothing_dropped<K: Field>(ps: Seq<PhysicsObject<K>>, n: nat)
    requires
        exact::<K>(),
        n <= ps.len(),
    ensures
        absorbed(enclosing(ps), ps, n) =~= bodies_of(ps, n),
    decreases n,
{
    if n > 0 {
        lemma_nothing_dropped(ps, (n - 1) as nat);
        lemma_enclosing_holds_all(ps, n - 1);
    }
}

} // verus!
