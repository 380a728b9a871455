//! The genome intermediate representation: instructions, programs,
//! validation, compilation to WebAssembly and mutation.

pub mod instruction;
pub mod program;
pub mod validation;
pub mod wasm;
pub mod compiler;
pub mod mutation;
pub mod semantics;
