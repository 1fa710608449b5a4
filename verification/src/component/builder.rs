//! The types of the type-safe builder pattern generated by the `component`
//! macro: each instance binding's type parameter is `Unset` until the
//! binding's setter has been called, and `SetInput` with the value after.

use vstd::prelude::*;

verus! {

/// A builder whose instance bindings are all unset.
pub trait UnsetBuilder {}

/// A builder all of whose instance bindings are set.
pub trait Builder<T> {
    /// Builds an instance of the component.
    fn build(self) -> T;
}

/// An instance binding that has not been set yet.
pub struct Unset;

/// An instance binding that has been set, with its value.
pub struct SetInput<T>(pub T);

/// The state of an instance binding: `Unset` or `SetInput`.
pub trait InputStatus {}

impl InputStatus for Unset {}

impl<T> InputStatus for SetInput<T> {}

} // verus!
