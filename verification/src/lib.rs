pub mod architecture;
pub mod decoder;
pub mod execution;
pub mod ir;
pub mod bus;
pub mod address_space;
pub mod cfg;
pub mod function;
pub mod text;
pub mod semantic_ir;
pub mod codegen;
pub mod linker;
pub mod exception_graph;
pub mod semantic_architecture;
pub mod cli;
pub mod real_rom;
pub mod ssa;
pub mod emulator;

pub use cfg::{analyze, analyze_with_mapping, AnalysisError, BasicBlock, BlockId, BlockKey, ControlFlowGraph, Program};
pub use codegen::{generate, generate_semantic, RustModule};
pub use decoder::{decode_arm, decode_thumb, decode_thumb_bl, ArmOp, Condition, DecodeError, Instruction, InstructionKind, Mode, ThumbOp, ROM_BASE};
pub use function::{discover_functions, CallSite, CallTarget, Function, FunctionControlFlowGraph, FunctionId, FunctionKey, ReturnSite};
pub use ir::{lower, IrControlEffect, IrFlags, IrInstruction, IrMemoryEffect, IrMemoryKind, IrMemoryWidth, IrOp, Value};
pub use semantic_ir::{
    build_semantic_program, validate_semantic_program, FlagEffect, MemoryEffect, MemoryWidth, SemanticBlock, SemanticFunction, SemanticInstruction,
    SemanticProgram, SemanticTerminator,
};
