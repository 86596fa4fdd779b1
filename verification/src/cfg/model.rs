//! Control-flow graph data model.
use vstd::prelude::*;

use crate::address_space::{AddressSpace, ImageMapping};
use crate::decoder::{Instruction, Mode};
use crate::ir::IrInstruction;

verus! {

/// Index of a block in `ControlFlowGraph::blocks`.
#[derive(Debug, Clone, Copy, PartialEq, Eq, Hash, Default, PartialOrd, Ord, Structural)]
pub struct BlockId(pub usize);

/// Identity of a code location: an address executed in a given state.
#[derive(Debug, Clone, Copy, PartialEq, Eq, Hash, Structural)]
pub struct BlockKey {
    pub address: u32,
    pub mode: Mode,
}

#[derive(Debug, Clone, PartialEq, Eq)]
pub struct BasicBlock {
    pub id: BlockId,
    pub key: BlockKey,
    pub instructions: Vec<Instruction>,
    pub ir: Vec<IrInstruction>,
    pub successors: Vec<BlockId>,
}

#[derive(Debug, Clone, PartialEq, Eq)]
pub struct ControlFlowGraph {
    pub entry: BlockId,
    pub blocks: Vec<BasicBlock>,
}

/// A recovered program: its CFG, the image it was recovered from and the
/// address space that image lives in.
#[derive(Debug, Clone, PartialEq, Eq)]
pub struct Program {
    pub entry: BlockId,
    pub cfg: ControlFlowGraph,
    pub image: ImageMapping,
    pub address_space: AddressSpace,
}

/// One reachable instruction with the locations control may reach next.
#[derive(Debug, Clone, PartialEq, Eq)]
pub struct DiscoveredInstruction {
    pub instruction: Instruction,
    pub successors: Vec<BlockKey>,
}

pub open spec fn key_of(instruction: Instruction) -> BlockKey {
    BlockKey { address: instruction.address, mode: instruction.mode }
}

/// Integer code of a key, injective over keys.
pub open spec fn key_code(key: BlockKey) -> int {
    key.address * 2 + match key.mode {
        Mode::Arm => 0int,
        Mode::Thumb => 1int,
    }
}

pub fn encode_key(key: BlockKey) -> (r: u64)
    ensures
        r == key_code(key),
{
    (key.address as u64) * 2 + match key.mode {
        Mode::Arm => 0u64,
        Mode::Thumb => 1u64,
    }
}

pub proof fn lemma_key_code_injective(a: BlockKey, b: BlockKey)
    ensures
        key_code(a) == key_code(b) ==> a == b,
{
}

} // verus!
