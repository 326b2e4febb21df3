//! Shared ownership of immutable nodes.

use std::rc::Rc;
use vstd::prelude::*;

verus! {

/// A second handle to the node behind `rc`.
///
/// Trusted: this is `Rc::clone`, which hands out another pointer to the same
/// allocation and never copies the pointee, so the new handle holds the very
/// value that `rc` holds.
#[verifier::external_body]
pub(crate) fn share<T>(rc: &Rc<T>) -> (res: Rc<T>)
    ensures
        res == *rc,
{
    Rc::clone(rc)
}

/// The node behind `rc`, if `rc` is the only handle to it.
///
/// Trusted: this is `Rc::try_unwrap`, which hands the pointee out where no
/// other handle exists and gives the handle back otherwise. It never
/// panics, which is stated here because a destructor may call only what
/// does not unwind.
#[verifier::external_body]
pub(crate) fn unwrap_unique<T>(rc: Rc<T>) -> (res: Option<T>)
    ensures
        res matches Some(node) ==> node == *rc,
    opens_invariants none
    no_unwind
{
    match Rc::try_unwrap(rc) {
        Ok(node) => Some(node),
        Err(_) => None,
    }
}

} // verus!
