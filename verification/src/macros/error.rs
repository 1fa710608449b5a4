//! The errors that the `component` macro reports.

use vstd::prelude::*;

use crate::macros::syntax::{TypeModel, TypeV};

verus! {

/// The kind of syntax that was expected where something else was found.
#[derive(Clone, Copy, Debug, PartialEq, Eq, Structural)]
pub enum Expected {
    /// A type that is a path, such as `Foo<T>`.
    PathType,
    /// A generic argument that is a type.
    TypeArgument,
    /// A return type written out after `->`.
    ReturnTypeGiven,
    /// A `fn` item.
    FnItem,
    /// A typed argument, not `self`.
    TypedArgument,
    /// A pattern that is a plain identifier.
    IdentPattern,
}

/// An error of the `component` macro.
#[derive(Debug)]
pub enum ComponentError {
    /// A path without segments.
    EmptyPath,
    /// Syntax of another kind than the one expected.
    Unexpected(Expected),
    /// A binding that is not defined.
    NotFound(String),
    /// The type of a binding `fn` does not match its binding: the binding's
    /// type and the `fn`'s type, each without the binding's wrapping.
    TypeMismatch(TypeModel, TypeModel),
    /// A type that does not have the wrapping its binding calls for.
    InvalidType,
    /// A binding whose type is an `impl <trait>`.
    ImplTraitBinding,
    /// A singleton binding that declares dependencies.
    UnexpectedDependencies,
    /// A `where` clause on the component trait.
    ContainsWhereClause,
}

/// The view of a [`ComponentError`].
pub enum ComponentErrorV {
    EmptyPath,
    Unexpected(Expected),
    NotFound(Seq<char>),
    TypeMismatch(TypeV, TypeV),
    InvalidType,
    ImplTraitBinding,
    UnexpectedDependencies,
    ContainsWhereClause,
}

impl View for ComponentError {
    type V = ComponentErrorV;

    open spec fn view(&self) -> ComponentErrorV {
        match self {
            ComponentError::EmptyPath => ComponentErrorV::EmptyPath,
            ComponentError::Unexpected(e) => ComponentErrorV::Unexpected(*e),
            ComponentError::NotFound(s) => ComponentErrorV::NotFound(s@),
            ComponentError::TypeMismatch(b, f) => ComponentErrorV::TypeMismatch(b@, f@),
            ComponentError::InvalidType => ComponentErrorV::InvalidType,
            ComponentError::ImplTraitBinding => ComponentErrorV::ImplTraitBinding,
            ComponentError::UnexpectedDependencies => ComponentErrorV::UnexpectedDependencies,
            ComponentError::ContainsWhereClause => ComponentErrorV::ContainsWhereClause,
        }
    }
}

/// An executable result agrees with a result stated over views.
pub open spec fn agrees<T: View>(r: Result<T, ComponentError>, s: Result<T::V, ComponentErrorV>) -> bool {
    match r {
        Ok(x) => s == Ok::<T::V, ComponentErrorV>(x@),
        Err(e) => s == Err::<T::V, ComponentErrorV>(e@),
    }
}

} // verus!
