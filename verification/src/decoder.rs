pub mod classification;
pub mod common;
pub mod memory;
pub mod semantic;
pub mod semantic_arm;
pub mod semantic_thumb;
pub mod types;

pub use memory::{read_arm, read_arm_at, read_thumb, read_thumb_at, read_thumb_bl, read_thumb_bl_at, DecodeError, ROM_BASE};
pub use semantic::{decode_arm, decode_arm_from_rom, decode_thumb, decode_thumb_bl, decode_thumb_bl_from_rom, decode_thumb_from_rom};
pub use types::{
    ArmDataOp, ArmExtended, ArmOp, BranchKind, Condition, Instruction, InstructionKind, Mode,
    Operand2, ThumbAluOp, ThumbExtended, ThumbOp,
};
