//! Turning lists round.
use vstd::prelude::*;

verus! {

/// The items of `v`, last to first.
pub fn reverse<T>(v: Vec<T>) -> (r: Vec<T>)
    ensures
        r@ == v@.reverse(),
{
    let ghost all = v@.reverse();
    let mut v = v;
    let mut r: Vec<T> = Vec::new();
    assert(r@ + v@.reverse() =~= all);
    while v.len() > 0
        invariant
            r@ + v@.reverse() == all,
        decreases v@.len(),
    {
        let ghost old_r = r@;
        let ghost old_v = v@.reverse();
        if let Some(item) = v.pop() {
            r.push(item);
            assert(old_v =~= seq![item] + v@.reverse());
            assert(r@ + v@.reverse() =~= old_r + old_v);
        }
    }
    assert(r@ =~= all);
    r
}

}
