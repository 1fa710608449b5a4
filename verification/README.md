# dirk

Compile-time dependency injection. A `#[provides]` attribute turns the one
constructor of an `impl` block into a factory; a `#[component(...)]`
attribute turns a trait into a component whose methods hand out instances,
built from providers and from instances the user passes to a type-safe
builder.

## Layout

- `src/provides.rs`, `src/component.rs`, `src/component/`: the runtime
  traits and types that generated code uses (`Provider`, `Component`,
  `StaticComponent`, the builder states, the factories of instance
  bindings).
- `src/macros/`: the decisions of the macros, verified with Verus over a
  plain-value model of Rust syntax (`syntax.rs`):
  - `attr.rs` reads the attributes' arguments from their tokens;
  - `binding.rs`, `order.rs`, `component.rs`, `trait_impl.rs`,
    `builder.rs` and `plan.rs` decide what a component is made of;
  - `provides.rs` decides what a provider's factory is made of;
  - `use_tree.rs` renames the imports of `use_provides` and
    `use_component`;
  - `inject.rs` and `type_string.rs` hold the first generation of the
    macros;
  - `naming.rs` and `casing.rs` name the generated items.
- `app/`: the macro front end, which converts between `syn` and the model
  and writes the generated items.
