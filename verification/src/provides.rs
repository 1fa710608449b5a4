//! The runtime side of the `provides` macro.

use vstd::prelude::*;

verus! {

/// Hands out the instances of a type. The `provides` macro generates a
/// factory implementing this trait for each provided type.
pub trait Provider<T> {
    /// Returns the thing that is being provided.
    fn get(&self) -> T;
}

} // verus!
