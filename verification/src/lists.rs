//! Lists of values that are moved one by one, and their lengths in replies.

use vstd::prelude::*;

verus! {

/// A list from back to front.
pub fn reversed<T>(v: Vec<T>) -> (r: Vec<T>)
    ensures
        r@ == v@.reverse(),
{
    let ghost all = v@;
    let mut v: Vec<T> = v;
    let mut r: Vec<T> = Vec::new();
    while v.len() > 0
        invariant
            v@.len() <= all.len(),
            v@ == all.take(v@.len() as int),
            r@ == all.skip(v@.len() as int).reverse(),
        decreases v@.len(),
    {
        let ghost n = v@.len();
        match v.pop() {
            Some(x) => {
                let ghost before = r@;
                r.push(x);
                proof {
                    assert(x == all[n - 1]);
                    assert(v@ =~= all.take(n - 1));
                    assert(r@ =~= all.skip(n - 1).reverse());
                }
            },
            None => {},
        }
    }
    assert(all.skip(0) =~= all);
    r
}

/// A count, within the range of a reply.
pub open spec fn clipped(n: nat) -> i64 {
    if n > i64::MAX {
        i64::MAX
    } else {
        n as i64
    }
}

/// A count.
pub fn counted(n: usize) -> (r: i64)
    ensures
        r == clipped(n as nat),
{
    if n as u128 > i64::MAX as u128 {
        i64::MAX
    } else {
        n as i64
    }
}

} // verus!
