//! Lists taken apart in order.

use vstd::prelude::*;

verus! {

/// Turns a list end to end, so that popping gives its items from the first to the last.
pub fn turned<T>(list: Vec<T>) -> (back: Vec<T>)
    ensures
        back@ == list@.reverse(),
{
    let ghost given = list@;
    let mut list = list;
    let mut back: Vec<T> = Vec::new();
    while list.len() > 0
        invariant
            list@.len() + back@.len() == given.len(),
            list@ == given.take(list@.len() as int),
            forall|j: int| 0 <= j < back@.len() ==> (#[trigger] back@[j]) == given[given.len() - 1 - j],
        decreases list@.len(),
    {
        let item = list.pop().unwrap();
        back.push(item);
        assert(list@ =~= given.take(list@.len() as int));
    }
    assert(back@ =~= given.reverse());
    back
}

} // verus!
