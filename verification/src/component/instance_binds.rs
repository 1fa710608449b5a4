//! The factories of instance bindings, which hand out what the user gave
//! the component's builder.

use std::cell::RefCell;
use std::rc::Rc;

use vstd::prelude::*;

use crate::provides::Provider;

verus! {

/// std's `RefCell`, which Verus sees as opaque: its value is the cell, not
/// what it holds.
#[verifier::external_type_specification]
#[verifier::external_body]
#[verifier::reject_recursive_types(T)]
pub struct ExRefCell<T: ?Sized>(RefCell<T>);

/// std's `RefCell::new`, which puts `value` in a new cell. What the cell
/// holds is not visible to Verus, so nothing is stated of the result.
pub assume_specification<T>[ RefCell::<T>::new ](value: T) -> (r: RefCell<T>);

/// Calls std's `Rc::clone`, which makes another pointer to the same
/// allocation: the result is the same shared cell.
#[verifier::external_body]
fn share<T>(rc: &Rc<RefCell<T>>) -> (r: Rc<RefCell<T>>)
    ensures
        r == *rc,
{
    rc.clone()
}

/// The factory of a `cloned_instance_bind`: it holds the instance and
/// hands out a clone of it every time it is asked.
pub struct ClonedInstanceFactory<T: Clone> {
    inner: T,
}

impl<T: Clone> ClonedInstanceFactory<T> {
    /// The instance the factory holds.
    pub closed spec fn instance(&self) -> T {
        self.inner
    }

    /// A factory that holds `inner`.
    pub fn new(inner: T) -> (r: Self)
        ensures
            r.instance() == inner,
    {
        Self { inner }
    }
}

impl<T: Clone> Provider<T> for ClonedInstanceFactory<T> {
    /// A clone of the instance.
    fn get(&self) -> (r: T)
        ensures
            cloned(self.instance(), r),
    {
        self.inner.clone()
    }
}

/// The factory of a `scoped_instance_bind`: it puts the instance in a
/// shared cell once, and hands out that same cell every time it is asked.
#[verifier::reject_recursive_types(T)]
pub struct ScopedInstanceFactory<T> {
    inner: Rc<RefCell<T>>,
}

impl<T> ScopedInstanceFactory<T> {
    /// The shared cell the factory holds.
    pub closed spec fn shared(&self) -> Rc<RefCell<T>> {
        self.inner
    }

    /// A factory that puts `inner` in a new shared cell.
    pub fn new(inner: T) -> (r: Self) {
        Self { inner: Rc::new(RefCell::new(inner)) }
    }
}

impl<T> Provider<Rc<RefCell<T>>> for ScopedInstanceFactory<T> {
    /// The shared cell, the same on every call.
    fn get(&self) -> (r: Rc<RefCell<T>>)
        ensures
            r == self.shared(),
    {
        share(&self.inner)
    }
}

} // verus!
