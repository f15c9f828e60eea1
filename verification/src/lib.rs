//! An evaluator for the Speak language: values, types, the frame stack and
//! the tree-walking evaluation of parsed expressions, with every result and
//! effect stated over mathematical models.

pub mod i18n;
pub mod text;
pub mod types;
pub mod node;
pub mod error;
pub mod value;
pub mod host;
pub mod print;
pub mod stack;
pub mod semantics;
pub mod eval;
pub mod laws;
pub mod stack_depth;
pub mod fuel;
pub mod nesting;
pub mod operations;
