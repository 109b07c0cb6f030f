//! Lists.

use vstd::prelude::*;

verus! {

/// The items of a list in reverse order.
pub fn reversed<T>(items: Vec<T>) -> (r: Vec<T>)
    ensures
        r@ == items@.reverse(),
{
    let mut rest = items;
    let mut out: Vec<T> = Vec::new();
    while rest.len() > 0
        invariant
            rest@.len() <= items@.len(),
            rest@ == items@.take(rest@.len() as int),
            out@.len() == items@.len() - rest@.len(),
            forall|j: int| 0 <= j < out@.len() ==> out@[j] == items@[items@.len() - 1 - j],
        decreases rest@.len(),
    {
        let ghost before = rest@;
        match rest.pop() {
            Some(item) => {
                assert(item == items@[before.len() - 1]);
                out.push(item);
            },
            None => {},
        }
        assert(rest@ =~= items@.take(rest@.len() as int));
    }
    assert(out@ =~= items@.reverse());
    out
}

} // verus!
