//! The runtime side of the `component` macro: the entry points of a
//! component and its builder.

pub mod builder;
pub mod instance_binds;

use vstd::prelude::*;

use crate::component::builder::{Builder, UnsetBuilder};

verus! {

/// Entry point for querying instances. Implemented by the types the
/// `component` macro generates.
pub trait Component<B: UnsetBuilder> {
    /// Returns a type-safe builder that may be used to create instances.
    fn builder() -> B;
}

/// Entry point for querying instances when no user input is required, that
/// is, when the component has no instance bindings.
pub trait StaticComponent<T, B: Builder<T> + UnsetBuilder>: Component<B> {
    /// Creates an instance of `T`, bypassing the builder pattern: builds
    /// what a fresh builder builds.
    fn create() -> (r: T)
        ensures
            exists|b: B| call_ensures(Self::builder, (), b) && call_ensures(B::build, (b,), r),
    {
        let b = Self::builder();
        let r = b.build();
        r
    }
}

} // verus!
