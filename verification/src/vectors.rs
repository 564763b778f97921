//! Lists of names, and lists taken from the back.

use crate::text::str_eq;
use vstd::prelude::*;

verus! {

/// The names of a list, as texts.
pub open spec fn names_view(names: Vec<String>) -> Seq<Seq<char>> {
    names@.map_values(|name: String| name@)
}

/// The items of `items`, last to first.
pub fn reversed<T>(items: Vec<T>) -> (turned: Vec<T>)
    ensures
        turned@.len() == items@.len(),
        forall|i: int| 0 <= i < items@.len() ==> turned@[i] == items@[items@.len() - 1 - i],
{
    let ghost given = items@;
    let mut items = items;
    let mut turned: Vec<T> = Vec::new();
    while items.len() > 0
        invariant
            items@.len() + turned@.len() == given.len(),
            forall|i: int| 0 <= i < items@.len() ==> items@[i] == given[i],
            forall|i: int| 0 <= i < turned@.len() ==> turned@[i] == given[given.len() - 1 - i],
        decreases items.len(),
    {
        let item = items.pop().unwrap();
        turned.push(item);
    }
    turned
}

/// Whether two lists hold the same names in the same order.
pub fn names_eq(a: &Vec<String>, b: &Vec<String>) -> (same: bool)
    ensures
        same == (names_view(*a) == names_view(*b)),
{
    if a.len() != b.len() {
        return false;
    }
    let mut i: usize = 0;
    while i < a.len()
        invariant
            i <= a@.len(),
            a@.len() == b@.len(),
            forall|j: int| 0 <= j < i ==> a@[j]@ == b@[j]@,
        decreases a@.len() - i,
    {
        if !str_eq(a[i].as_str(), b[i].as_str()) {
            proof {
                assert(names_view(*a)[i as int] == a@[i as int]@);
                assert(names_view(*b)[i as int] == b@[i as int]@);
            }
            return false;
        }
        i += 1;
    }
    proof {
        assert(names_view(*a) =~= names_view(*b));
    }
    true
}

} // verus!
