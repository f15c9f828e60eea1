# speak_core

The evaluator of the Speak language as a verified library: values, types,
the stack of frames, and the tree-walking evaluation of parsed expressions.

- `src/semantics.rs` states what evaluating each kind of node gives, over
  mathematical models of nodes, values and the stack.
- `src/eval.rs` evaluates nodes and is proved to give exactly that
  (`Node::eval`).
- `src/laws.rs`, `src/stack_depth.rs`, `src/fuel.rs` and `src/nesting.rs` prove properties
  of evaluation as a whole: a read gives back what an assignment wrote,
  arrays are homogeneous, object fields are unique and typed, slices are
  stretches of their array, a direct call runs the call it would put off,
  calls leave the stack as deep as they found it, and an evaluation that
  completes gives the same with more fuel, and evaluation never changes
  how deeply array literals nest in a node.
- `src/i18n.rs` looks message texts up in a `rust_i18n` backend, falling
  back from a locale to its parents and then to fallback locales.
- Numbers are held as the bits of an `f64`; the arithmetic on them and the
  native functions (which receive the stack and give it back) come from the
  host (`src/host.rs`). `app/` supplies the `f64` arithmetic.
