//! Compile-time dependency injection: the runtime traits and types that
//! generated code relies on, and the verified decision logic of the
//! `provides`, `component`, `use_provides`, `use_component` and `inject`
//! macros, stated over a plain-value model of Rust syntax.

pub mod component;
pub mod macros;
pub mod provides;
