//! Articulations: named cells whose content is read by forcing.
//!
//! This is a from-scratch model of the incremental runtime: `cell` stores
//! its value at once and `force` reads it back. Nothing is memoized, no
//! dependency is recorded, and there is no structural mode and no
//! `read_only` step, so every computation simply runs in full; results are
//! the ones an incremental runtime must reproduce.
use vstd::prelude::*;
use std::rc::Rc;
use crate::name::Name;

verus! {

/// Relies on `Rc::clone`: a second handle to the same allocation, so the
/// same value.
#[verifier::external_body]
pub(crate) fn share<T>(rc: &Rc<T>) -> (r: Rc<T>)
    ensures
        r == *rc,
{
    Rc::clone(rc)
}

/// An articulation: a value stored under a name. Cloning shares the value.
#[derive(Debug, PartialEq, Eq)]
pub struct Art<T> {
    pub loc: Name,
    pub content: Rc<T>,
}

/// The articulation that `cell(n, v)` makes.
pub open spec fn spec_cell<T>(n: Name, v: T) -> Art<T> {
    Art { loc: n, content: Rc::new(v) }
}

/// Stores `v` under the name `n`.
pub fn cell<T>(n: Name, v: T) -> (r: Art<T>)
    ensures
        r == spec_cell(n, v),
{
    Art { loc: n, content: Rc::new(v) }
}

impl<T> Art<T> {
    /// The stored value.
    pub fn force(&self) -> (r: &T)
        ensures
            *r == *self.content,
    {
        &*self.content
    }

    /// A second handle to the same articulation.
    pub fn duplicate(&self) -> (r: Art<T>)
        ensures
            r == *self,
    {
        Art { loc: self.loc.duplicate(), content: share(&self.content) }
    }
}

impl<T> Clone for Art<T> {
    fn clone(&self) -> Self {
        self.duplicate()
    }
}

} // verus!
