//! The decision logic of the dependency-injection macros.

pub mod attr;
pub mod binding;
pub mod builder;
pub mod casing;
pub mod component;
pub mod error;
pub mod inject;
pub mod naming;
pub mod order;
pub mod plan;
pub mod provides;
pub mod syntax;
pub mod trait_impl;
pub mod type_string;
pub mod use_tree;
