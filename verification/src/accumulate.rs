//! Applying a function over a vector, and calling one twice.

use vstd::prelude::*;

verus! {

/// Applies `f` to each value, in order, and collects the results.
pub fn map<F, T, U>(values: Vec<T>, f: F) -> (out: Vec<U>) where F: Fn(T) -> U
    requires
        forall|i: int| 0 <= i < values@.len() ==> call_requires(f, (#[trigger] values@[i],)),
    ensures
        out@.len() == values@.len(),
        forall|i: int| 0 <= i < out@.len() ==> call_ensures(f, (values@[i],), #[trigger] out@[i]),
{
    let ghost given = values@;
    let mut v: Vec<U> = Vec::with_capacity(values.len());
    for val in it: values
        invariant
            it.seq() == given,
            v@.len() == it.index(),
            forall|i: int| 0 <= i < given.len() ==> call_requires(f, (#[trigger] given[i],)),
            forall|i: int| 0 <= i < v@.len() ==> call_ensures(f, (given[i],), #[trigger] v@[i]),
    {
        v.push(f(val));
    }
    v
}

/// Calls `func` twice.
pub fn do_twice<F>(mut func: F) where F: FnMut()
    requires
        call_requires(func, ()),
{
    func();
    func();
}

} // verus!
