//! Core of a small dynamically typed bytecode interpreter: the value model,
//! the reference-counted heap, call frames, registers and the instruction
//! interpreter.
//!
//! Numbers are IEEE-754 binary64 values carried as their bit patterns; the
//! arithmetic on them is performed by the embedder, which the interpreter asks
//! for it through [`protocol::Step::Number`] and later hands the answer back.
pub mod value;
pub mod storage;
pub mod text;
pub mod frame;
pub mod instruction;
pub mod protocol;
pub mod semantics;
pub mod machine;
pub mod laws;
