//! What pruning keeps and what it drops.

use vstd::prelude::*;
use crate::types::{Field, MathSpace};
use crate::physics::{PhysicsObject, survivors, within};

verus! {

/// Pruning keeps exactly the particles within the radius: a particle is among
/// the survivors of the first `n` if and only if it is one of them and lies
/// within the radius. So none that was beyond the radius is left, and none
/// that was within it is lost.
pub proof fn lemma_survivors_are_the_near<K: Field, S: MathSpace<K>>(
    es: Seq<PhysicsObject<K>>,
    space: S,
    radius: K,
    n: nat,
    obj: PhysicsObject<K>,
)
    requires
        n <= es.len(),
    ensures
        survivors(es, space, radius, n).contains(obj) <==> es.take(n as int).contains(obj) && within(
            space,
            radius,
            obj,
        ),
    decreases n,
{
    if n == 0 {
        assert(!es.take(0).contains(obj));
    } else {
        let before = survivors(es, space, radius, (n - 1) as nat);
        let last = es[n - 1];
        lemma_survivors_are_the_near(es, space, radius, (n - 1) as nat, obj);
        let head = es.take(n - 1);
        let all = es.take(n as int);
        assert(all =~= head.push(last));
        assert(all.contains(obj) <==> head.contains(obj) || obj == last) by {
            if head.contains(obj) {
                let k = choose|k: int| 0 <= k < head.len() && head[k] == obj;
                assert(all[k] == obj);
            }
            if obj == last {
                assert(all[n - 1] == obj);
            }
        }
        if within(space, radius, last) {
            assert(before.push(last).contains(obj) <==> before.contains(obj) || obj == last) by {
                if before.contains(obj) {
                    let k = choose|k: int| 0 <= k < before.len() && before[k] == obj;
                    assert(before.push(last)[k] == obj);
                }
                if obj == last {
                    assert(before.push(last)[before.len() as int] == obj);
                }
            }
        }
    }
}

} // verus!
