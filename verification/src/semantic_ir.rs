//! Semantic IR: per-instruction effects and per-block terminators over the
//! recovered functions, checked against the program they came from.
pub mod lower;
pub mod types;
pub mod validate;

pub use types::{FlagEffect, MemoryEffect, MemoryWidth, SemanticBlock, SemanticFunction, SemanticInstruction, SemanticProgram, SemanticTerminator};

pub use lower::build_semantic_program;
pub use validate::{validate_control_placement, validate_semantic_program};
