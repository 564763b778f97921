//! Values that are shared and never copied: one more pointer to a value is
//! the same value.

use std::rc::Rc;
use std::sync::Arc;
use vstd::prelude::*;

verus! {

/// `Rc::clone`: one more pointer to the same value.
#[verifier::external_body]
pub(crate) fn share_rc<T>(value: &Rc<T>) -> (shared: Rc<T>)
    ensures
        shared == *value,
{
    Rc::clone(value)
}

/// `Arc::clone`: one more pointer to the same value.
#[verifier::external_body]
pub(crate) fn share_arc<T>(value: &Arc<T>) -> (shared: Arc<T>)
    ensures
        shared == *value,
{
    Arc::clone(value)
}

} // verus!
