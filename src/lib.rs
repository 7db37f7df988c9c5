//! A compiler for a small declarative UI language, producing a stack-machine
//! binary module, together with the bump-allocating, mark-and-sweep heap that
//! the generated code calls into.
//!
//! The pipeline: `lexer` turns text into tokens; `parser` reads them by the
//! rules in `grammar` into the tree of `ast`; `program` generates each body
//! (`compile` for statements and expressions, `layout` for container
//! positions, `codegen` for instructions, dispatch and the stack verifier),
//! each as `gen` describes it; `encode` writes the binary module. `gc` is the runtime heap, `memory` a
//! plain bump arena, and `script` the line-based print script and its Rust
//! rendering.

pub mod ast;
pub mod codegen;
pub mod compile;
pub mod encode;
pub mod gc;
pub mod gen;
pub mod grammar;
pub mod layout;
pub mod lexer;
pub mod memory;
pub mod parser;
pub mod program;
pub mod script;
