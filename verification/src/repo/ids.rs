//! Lists of ids.

use vstd::prelude::*;

verus! {

/// Whether an id stands in a list.
pub fn holds(ids: &Vec<i64>, id: i64) -> (r: bool)
    ensures
        r == ids@.contains(id),
{
    let mut i: usize = 0;
    while i < ids.len()
        invariant
            i <= ids.len(),
            forall|j: int| 0 <= j < i ==> ids@[j] != id,
        decreases ids.len() - i,
    {
        if ids[i] == id {
            proof {
                assert(ids@.contains(ids@[i as int]));
            }
            return true;
        }
        i = i + 1;
    }
    false
}

} // verus!
