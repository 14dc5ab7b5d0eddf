//! Helpers on vectors.

use vstd::prelude::*;

verus! {

/// The elements of `v` in reverse order.
pub fn reversed<T>(v: Vec<T>) -> (r: Vec<T>)
    ensures
        r@ == v@.reverse(),
{
    let ghost v0 = v@;
    let mut v = v;
    let mut r: Vec<T> = Vec::new();
    while v.len() > 0
        invariant
            v@.len() <= v0.len(),
            v@ == v0.subrange(0, v@.len() as int),
            r@ == v0.subrange(v@.len() as int, v0.len() as int).reverse(),
        decreases v@.len(),
    {
        let x = v.pop().unwrap();
        r.push(x);
        proof {
            assert(r@ =~= v0.subrange(v@.len() as int, v0.len() as int).reverse());
            assert(v@ =~= v0.subrange(0, v@.len() as int));
        }
    }
    proof {
        assert(v0.subrange(0, v0.len() as int) =~= v0);
    }
    r
}

} // verus!
