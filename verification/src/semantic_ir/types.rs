//! Semantic IR data types.
use vstd::prelude::*;

use crate::cfg::BlockId;
use crate::decoder::{Condition, Mode};
use crate::function::{CallSite, FunctionId, ReturnSite};
use crate::ir::{last_control, IrControlEffect, IrOp};

verus! {

#[derive(Debug, Clone, Copy, PartialEq, Eq, Structural)]
pub enum MemoryWidth {
    Byte,
    Halfword,
    Word,
}

#[derive(Debug, Clone, Copy, PartialEq, Eq, Structural)]
pub enum MemoryEffect {
    Read { width: MemoryWidth, base: u8 },
    Write { width: MemoryWidth, base: u8 },
    ReadWrite { width: MemoryWidth, base: u8 },
}

/// Whether an instruction reads any condition flag, and whether it writes any.
#[derive(Debug, Clone, Copy, PartialEq, Eq, Structural)]
pub struct FlagEffect {
    pub read: bool,
    pub write: bool,
}

/// How control leaves a block.
#[derive(Debug, Clone, Copy, PartialEq, Eq, Structural)]
pub enum SemanticTerminator {
    Fallthrough,
    Branch { target: u32, condition: Condition },
    Call { target: u32, condition: Condition },
    IndirectCall { register: u8, mode: Mode },
    IndirectBranch { register: u8 },
    Return,
    SoftwareInterrupt { comment: u32 },
    Unknown,
}

#[derive(Debug, Clone, PartialEq, Eq)]
pub struct SemanticInstruction {
    pub address: u32,
    pub size: u8,
    pub ops: Vec<IrOp>,
    pub reads: Vec<u8>,
    pub writes: Vec<u8>,
    pub memory: Option<MemoryEffect>,
    pub flags: FlagEffect,
}

impl SemanticInstruction {
    /// The control effect of the last operation that has one.
    pub fn control_effect(&self) -> (r: IrControlEffect)
        ensures
            r == last_control(self.ops@),
    {
        let mut i: usize = self.ops.len();
        proof {
            assert(self.ops@.subrange(0, self.ops@.len() as int) =~= self.ops@);
        }
        while i > 0
            invariant
                i <= self.ops.len(),
                last_control(self.ops@) == last_control(self.ops@.subrange(0, i as int)),
            decreases i,
        {
            let c = self.ops[i - 1].control();
            proof {
                let prefix = self.ops@.subrange(0, i as int);
                assert(prefix.last() == self.ops@[i - 1]);
                assert(prefix.drop_last() == self.ops@.subrange(0, i - 1));
            }
            if !matches!(c, IrControlEffect::Sequential) {
                return c;
            }
            i = i - 1;
        }
        IrControlEffect::Sequential
    }
}

#[derive(Debug, Clone, PartialEq, Eq)]
pub struct SemanticBlock {
    pub id: BlockId,
    pub address: u32,
    pub mode: Mode,
    pub instructions: Vec<SemanticInstruction>,
    pub successors: Vec<BlockId>,
    pub terminator: SemanticTerminator,
}

#[derive(Debug, Clone, PartialEq, Eq)]
pub struct SemanticFunction {
    pub id: FunctionId,
    pub entry: BlockId,
    pub blocks: Vec<SemanticBlock>,
    pub successors: Vec<FunctionId>,
    pub calls: Vec<CallSite>,
    pub returns: Vec<ReturnSite>,
}

/// The semantic program; `block_to_function` is indexed by block.
#[derive(Debug, Clone, PartialEq, Eq)]
pub struct SemanticProgram {
    pub entry: FunctionId,
    pub functions: Vec<SemanticFunction>,
    pub block_to_function: Vec<Option<FunctionId>>,
}

} // verus!
