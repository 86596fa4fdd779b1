//! Structural checks on a recovered control-flow graph.
use vstd::prelude::*;
use std::collections::HashMap;

use crate::decoder::{ArmOp, Condition, Instruction, InstructionKind, Mode, ThumbOp};

use super::edges::{next_key, next_key_spec};
use super::model::{encode_key, key_code, key_of, lemma_key_code_injective, BasicBlock, BlockId, BlockKey, ControlFlowGraph};

verus! {

broadcast use vstd::std_specs::hash::group_hash_axioms;

#[derive(Debug, Clone, Copy, PartialEq, Eq, Structural)]
pub enum ValidationError {
    EmptyGraph,
    InvalidEntry(BlockId),
    NonContiguousBlockId { expected: BlockId, actual: BlockId },
    DuplicateBlockKey(BlockKey),
    EmptyBlock(BlockId),
    BlockKeyMismatch { block: BlockId, expected: BlockKey, actual: BlockKey },
    DuplicateInstruction { address: u32, mode: Mode },
    NonContiguousInstructions { block: BlockId, previous: u32, next: u32 },
    ModeChangedWithinBlock { block: BlockId, previous: Mode, next: Mode },
    InvalidSuccessor { block: BlockId, successor: BlockId },
    DuplicateSuccessor { block: BlockId, successor: BlockId },
    InstructionIrMismatch { block: BlockId, instructions: usize, ir: usize },
    InstructionCountMismatch { expected: usize, actual: usize },
    UnreachableBlock(BlockId),
    MissingEdge { block: BlockId, target: BlockKey },
    UnexpectedEdge { block: BlockId, target: BlockKey },
}

// ---------------------------------------------------------------------------
// What a valid graph is
// ---------------------------------------------------------------------------

/// Consecutive instructions of a block are adjacent and in one state.
pub open spec fn adjacent(a: Instruction, b: Instruction) -> bool {
    a.address.wrapping_add(a.size as u32) == b.address && a.mode == b.mode
}

/// The checks that concern one block alone.
pub open spec fn block_well_formed(block: BasicBlock, count: nat) -> bool {
    let ins = block.instructions@;
    let succ = block.successors@;
    &&& ins.len() > 0
    &&& ins.len() == block.ir@.len()
    &&& block.key == key_of(ins[0])
    &&& forall|m: int| 0 <= m < ins.len() - 1 ==> adjacent(#[trigger] ins[m], ins[m + 1])
    &&& forall|s: int| 0 <= s < succ.len() ==> (#[trigger] succ[s]).0 < count
    &&& forall|s: int, t: int| 0 <= s < t < succ.len() ==> succ[s] != succ[t]
}

pub open spec fn ids_contiguous(blocks: Seq<BasicBlock>) -> bool {
    forall|i: int| 0 <= i < blocks.len() ==> (#[trigger] blocks[i]).id == BlockId(i as usize)
}

pub open spec fn block_keys_distinct(blocks: Seq<BasicBlock>) -> bool {
    forall|i: int, j: int| 0 <= i < j < blocks.len() ==> (#[trigger] blocks[i]).key != (#[trigger] blocks[j]).key
}

/// No location is owned by two instructions of the graph.
pub open spec fn instructions_distinct(blocks: Seq<BasicBlock>) -> bool {
    forall|b1: int, m1: int, b2: int, m2: int|
        0 <= b1 < blocks.len() && 0 <= b2 < blocks.len() && 0 <= m1 < blocks[b1].instructions@.len() && 0 <= m2
            < blocks[b2].instructions@.len() && (b1 != b2 || m1 != m2) ==> key_of(
            #[trigger] blocks[b1].instructions@[m1],
        ) != key_of(#[trigger] blocks[b2].instructions@[m2])
}

pub open spec fn total_instructions(blocks: Seq<BasicBlock>, n: int) -> nat
    decreases n,
{
    if n <= 0 {
        0
    } else {
        total_instructions(blocks, n - 1) + blocks[n - 1].instructions@.len()
    }
}

/// Some instruction of the graph sits at `k`.
pub open spec fn owned(blocks: Seq<BasicBlock>, k: BlockKey) -> bool {
    exists|b: int, m: int| 0 <= b < blocks.len() && 0 <= m < blocks[b].instructions@.len() && key_of(#[trigger] blocks[b].instructions@[m]) == k
}

/// A walk along successor edges from the entry.
pub open spec fn is_path(cfg: ControlFlowGraph, p: Seq<int>) -> bool {
    &&& p.len() >= 1
    &&& p[0] == cfg.entry.0
    &&& forall|k: int| 0 <= k < p.len() ==> 0 <= #[trigger] p[k] < cfg.blocks@.len()
    &&& forall|k: int| 0 <= k < p.len() - 1 ==> cfg.blocks@[#[trigger] p[k]].successors@.contains(BlockId(p[k + 1] as usize))
}

pub open spec fn reachable(cfg: ControlFlowGraph, b: int) -> bool {
    exists|p: Seq<int>| #[trigger] is_path(cfg, p) && p.last() == b
}

/// The graph has an edge from `block` to the block that starts at `k`.
pub open spec fn has_edge_to(blocks: Seq<BasicBlock>, block: BasicBlock, k: BlockKey) -> bool {
    exists|s: int| 0 <= s < block.successors@.len() && blocks[(#[trigger] block.successors@[s]).0 as int].key == k
}

pub open spec fn edge_key(blocks: Seq<BasicBlock>, block: BasicBlock, s: int) -> BlockKey {
    blocks[block.successors@[s].0 as int].key
}

/// Edges of a block that ends in a direct branch: the owned target, the
/// owned continuation when control may fall through or return, and nothing
/// else.
pub open spec fn direct_edges_ok(blocks: Seq<BasicBlock>, block: BasicBlock, target: BlockKey, want_next: bool) -> bool {
    let next = next_key_spec(block.instructions@.last());
    &&& owned(blocks, target) ==> has_edge_to(blocks, block, target)
    &&& want_next && owned(blocks, next) ==> has_edge_to(blocks, block, next)
    &&& forall|s: int| 0 <= s < block.successors@.len() ==> {
        ||| (edge_key(blocks, block, s) == target && owned(blocks, target))
        ||| (want_next && #[trigger] edge_key(blocks, block, s) == next && owned(blocks, next))
    }
}

/// Whether a block's out-edges match what its last instruction can do.
pub open spec fn edges_ok(blocks: Seq<BasicBlock>, block: BasicBlock) -> bool {
    let last = block.instructions@.last();
    let next = next_key_spec(last);
    let n = block.successors@.len();
    match last.kind {
        InstructionKind::Arm(ArmOp::Branch { target, condition, link }) => direct_edges_ok(
            blocks,
            block,
            BlockKey { address: target, mode: Mode::Arm },
            condition != Condition::Al || link,
        ),
        InstructionKind::Thumb(ThumbOp::Branch { target, condition }) => direct_edges_ok(
            blocks,
            block,
            BlockKey { address: target, mode: Mode::Thumb },
            condition != Condition::Al,
        ),
        InstructionKind::Thumb(ThumbOp::BranchLink { target }) => direct_edges_ok(
            blocks,
            block,
            BlockKey { address: target, mode: Mode::Thumb },
            true,
        ),
        InstructionKind::Arm(ArmOp::BranchExchange { link, .. }) => {
            &&& n <= if link { 2nat } else { 1nat }
            &&& link && owned(blocks, next) ==> has_edge_to(blocks, block, next)
        },
        InstructionKind::Thumb(ThumbOp::BranchExchange { .. }) => n <= 1,
        InstructionKind::Arm(ArmOp::Unknown) | InstructionKind::Thumb(ThumbOp::Unknown) => n == 0,
        _ => {
            &&& owned(blocks, next) ==> has_edge_to(blocks, block, next)
            &&& forall|s: int| 0 <= s < n ==> #[trigger] edge_key(blocks, block, s) == next
        },
    }
}

/// Everything the validator checks.
pub open spec fn cfg_valid(cfg: ControlFlowGraph, expected: nat) -> bool {
    let blocks = cfg.blocks@;
    &&& blocks.len() > 0
    &&& cfg.entry.0 < blocks.len()
    &&& ids_contiguous(blocks)
    &&& block_keys_distinct(blocks)
    &&& forall|i: int| 0 <= i < blocks.len() ==> block_well_formed(#[trigger] blocks[i], blocks.len())
    &&& instructions_distinct(blocks)
    &&& total_instructions(blocks, blocks.len() as int) == expected
    &&& forall|i: int| 0 <= i < blocks.len() ==> #[trigger] reachable(cfg, i)
    &&& forall|i: int| 0 <= i < blocks.len() ==> edges_ok(blocks, #[trigger] blocks[i])
}

/// The checks on blocks one by one all pass.
pub open spec fn blocks_pass(cfg: ControlFlowGraph) -> bool {
    let blocks = cfg.blocks@;
    &&& blocks.len() > 0
    &&& cfg.entry.0 < blocks.len()
    &&& ids_contiguous(blocks)
    &&& block_keys_distinct(blocks)
    &&& forall|i: int| 0 <= i < blocks.len() ==> block_well_formed(#[trigger] blocks[i], blocks.len())
    &&& instructions_distinct(blocks)
}

/// The checks are made in phases: the shape of the graph, then each block in
/// turn, then the instruction count, then reachability in block order, then
/// the edges; an error of a later phase means the earlier phases passed.
#[verifier::opaque]
pub open spec fn error_in_order(cfg: ControlFlowGraph, expected: nat, e: ValidationError) -> bool {
    let blocks = cfg.blocks@;
    match e {
        ValidationError::InstructionCountMismatch { .. } => blocks_pass(cfg),
        ValidationError::UnreachableBlock(id) => {
            &&& blocks_pass(cfg)
            &&& total_instructions(blocks, blocks.len() as int) == expected
            &&& !reachable(cfg, id.0 as int)
            &&& forall|j: int| 0 <= j < id.0 ==> #[trigger] reachable(cfg, j)
        },
        ValidationError::MissingEdge { .. } | ValidationError::UnexpectedEdge { .. } => {
            &&& blocks_pass(cfg)
            &&& total_instructions(blocks, blocks.len() as int) == expected
            &&& forall|j: int| 0 <= j < blocks.len() ==> #[trigger] reachable(cfg, j)
        },
        _ => !blocks_pass(cfg),
    }
}

/// Each reported error names a real violation.
pub open spec fn error_sound(cfg: ControlFlowGraph, expected: nat, e: ValidationError) -> bool {
    let blocks = cfg.blocks@;
    match e {
        ValidationError::EmptyGraph => blocks.len() == 0,
        ValidationError::InvalidEntry(id) => blocks.len() > 0 && id == cfg.entry && id.0 >= blocks.len(),
        ValidationError::NonContiguousBlockId { expected: want, actual } => exists|i: int|
            0 <= i < blocks.len() && want == BlockId(i as usize) && (#[trigger] blocks[i]).id == actual && actual != want,
        ValidationError::DuplicateBlockKey(k) => exists|i: int, j: int|
            0 <= i < j < blocks.len() && (#[trigger] blocks[i]).key == k && (#[trigger] blocks[j]).key == k,
        ValidationError::EmptyBlock(id) => exists|i: int|
            0 <= i < blocks.len() && (#[trigger] blocks[i]).id == id && blocks[i].instructions@.len() == 0,
        ValidationError::BlockKeyMismatch { block, expected: want, actual } => exists|i: int|
            0 <= i < blocks.len() && (#[trigger] blocks[i]).id == block && blocks[i].instructions@.len() > 0 && want == key_of(
                blocks[i].instructions@[0],
            ) && actual == blocks[i].key && want != actual,
        ValidationError::DuplicateInstruction { address, mode } => !instructions_distinct(blocks) && owned(
            blocks,
            BlockKey { address, mode },
        ),
        ValidationError::NonContiguousInstructions { block, previous, next } => exists|i: int, m: int|
            0 <= i < blocks.len() && blocks[i].id == block && 0 <= m < blocks[i].instructions@.len() - 1
                && previous == (#[trigger] blocks[i].instructions@[m]).address && next == blocks[i].instructions@[m + 1].address
                && blocks[i].instructions@[m].address.wrapping_add(blocks[i].instructions@[m].size as u32) != next,
        ValidationError::ModeChangedWithinBlock { block, previous, next } => exists|i: int, m: int|
            0 <= i < blocks.len() && blocks[i].id == block && 0 <= m < blocks[i].instructions@.len() - 1
                && (#[trigger] blocks[i].instructions@[m]).mode != blocks[i].instructions@[m + 1].mode && previous
                == blocks[i].instructions@[m].mode && next == blocks[i].instructions@[m + 1].mode,
        ValidationError::InvalidSuccessor { block, successor } => exists|i: int|
            0 <= i < blocks.len() && (#[trigger] blocks[i]).id == block && blocks[i].successors@.contains(successor)
                && successor.0 >= blocks.len(),
        ValidationError::DuplicateSuccessor { block, successor } => exists|i: int, s: int, t: int|
            0 <= i < blocks.len() && blocks[i].id == block && 0 <= s < t < blocks[i].successors@.len()
                && #[trigger] blocks[i].successors@[s] == successor && #[trigger] blocks[i].successors@[t] == successor,
        ValidationError::InstructionIrMismatch { block, instructions, ir } => exists|i: int|
            0 <= i < blocks.len() && (#[trigger] blocks[i]).id == block && instructions == blocks[i].instructions@.len()
                && ir == blocks[i].ir@.len() && instructions != ir,
        ValidationError::InstructionCountMismatch { expected: want, actual } => {
            &&& want == expected
            &&& total_instructions(blocks, blocks.len() as int) != expected
            &&& total_instructions(blocks, blocks.len() as int) <= usize::MAX ==> actual == total_instructions(
                blocks,
                blocks.len() as int,
            )
        },
        ValidationError::UnreachableBlock(id) => exists|i: int|
            0 <= i < blocks.len() && (#[trigger] blocks[i]).id == id && !reachable(cfg, i),
        ValidationError::MissingEdge { block, .. } | ValidationError::UnexpectedEdge { block, .. } => exists|i: int|
            0 <= i < blocks.len() && (#[trigger] blocks[i]).id == block && !edges_ok(blocks, blocks[i]),
    }
}

// ---------------------------------------------------------------------------
// Per-block checks
// ---------------------------------------------------------------------------

/// Position `(b, m)` comes before `(n, lm)` in block-then-instruction order.
pub open spec fn before_pos(b: int, m: int, n: int, lm: int) -> bool {
    b < n || (b == n && m < lm)
}

pub open spec fn valid_pos(blocks: Seq<BasicBlock>, b: int, m: int) -> bool {
    0 <= b < blocks.len() && 0 <= m < blocks[b].instructions@.len()
}

/// Instructions before `(n, lm)` sit at distinct locations.
pub open spec fn distinct_upto(blocks: Seq<BasicBlock>, n: int, lm: int) -> bool {
    forall|b1: int, m1: int, b2: int, m2: int|
        valid_pos(blocks, b1, m1) && valid_pos(blocks, b2, m2) && before_pos(b1, m1, n, lm) && before_pos(b2, m2, n, lm)
            && (b1 != b2 || m1 != m2) ==> key_of(#[trigger] blocks[b1].instructions@[m1]) != key_of(
            #[trigger] blocks[b2].instructions@[m2],
        )
}

/// The owner index holds exactly the locations of instructions before `(n, lm)`.
pub open spec fn owners_upto(owners: Map<u64, usize>, blocks: Seq<BasicBlock>, n: int, lm: int) -> bool {
    &&& forall|b: int, m: int| valid_pos(blocks, b, m) && before_pos(b, m, n, lm) ==> #[trigger] owners.contains_key(
        key_code(key_of(blocks[b].instructions@[m])) as u64,
    )
    &&& forall|c: u64| #[trigger] owners.contains_key(c) ==> exists|b: int, m: int|
        valid_pos(blocks, b, m) && before_pos(b, m, n, lm) && key_code(key_of(#[trigger] blocks[b].instructions@[m])) == c
}

proof fn lemma_code_u64(k: BlockKey)
    ensures
        0 <= key_code(k) < 0x2_0000_0000,
        (key_code(k) as u64) as int == key_code(k),
{
}

#[verifier::rlimit(60)]
fn validate_block(
    block: &BasicBlock,
    block_count: usize,
    owners: &mut HashMap<u64, usize>,
    Ghost(blocks): Ghost<Seq<BasicBlock>>,
    Ghost(n): Ghost<int>,
) -> (r: Result<(), ValidationError>)
    requires
        0 <= n < blocks.len(),
        blocks[n] == *block,
        block_count == blocks.len(),
        distinct_upto(blocks, n, 0),
        owners_upto(old(owners)@, blocks, n, 0),
    ensures
        r is Ok <==> block_well_formed(*block, block_count as nat) && distinct_upto(blocks, n + 1, 0),
        r is Ok ==> owners_upto(final(owners)@, blocks, n + 1, 0),
        r matches Err(e) ==> !(e is EmptyGraph) && !(e is InvalidEntry) && !(e is UnreachableBlock) && !(e is MissingEdge)
            && !(e is UnexpectedEdge) && !(e is InstructionCountMismatch) && !(e is NonContiguousBlockId) && !(e is DuplicateBlockKey),
        r matches Err(e) ==> e is DuplicateInstruction ==> !distinct_upto(blocks, n + 1, 0) && owned(
            blocks,
            BlockKey { address: e->DuplicateInstruction_address, mode: e->DuplicateInstruction_mode },
        ),
        r matches Err(e) ==> !(e is DuplicateInstruction) ==> error_sound_at(blocks, n, e),
{
    let len = block.instructions.len();
    if len == 0 {
        return Err(ValidationError::EmptyBlock(block.id));
    }
    if len != block.ir.len() {
        return Err(ValidationError::InstructionIrMismatch { block: block.id, instructions: len, ir: block.ir.len() });
    }
    let first = block.instructions[0];
    let expected = BlockKey { address: first.address, mode: first.mode };
    if block.key != expected {
        return Err(ValidationError::BlockKeyMismatch { block: block.id, expected, actual: block.key });
    }
    let ghost ins = block.instructions@;
    let mut index: usize = 0;
    while index < len
        invariant
            0 <= n < blocks.len(),
            blocks[n] == *block,
            ins == block.instructions@,
            len == ins.len(),
            index <= len,
            distinct_upto(blocks, n, index as int),
            owners_upto(owners@, blocks, n, index as int),
            forall|m: int| 0 <= m < index as int - 1 ==> adjacent(#[trigger] ins[m], ins[m + 1]),
            index > 0 && index < len ==> adjacent(ins[index - 1], ins[index as int]),
        decreases len - index,
    {
        let instruction = block.instructions[index];
        let key = BlockKey { address: instruction.address, mode: instruction.mode };
        let code = encode_key(key);
        let ghost before = owners@;
        if owners.contains_key(&code) {
            proof {
                let (b, m) = choose|b: int, m: int|
                    valid_pos(blocks, b, m) && before_pos(b, m, n, index as int) && key_code(key_of(#[trigger] blocks[b].instructions@[m])) == code;
                lemma_code_u64(key_of(blocks[b].instructions@[m]));
                lemma_key_code_injective(key_of(blocks[b].instructions@[m]), key);
                assert(blocks[n].instructions@[index as int] == instruction);
                assert(!instructions_distinct_pair(blocks, b, m, n, index as int));
                assert(valid_pos(blocks, n, index as int));
            }
            return Err(ValidationError::DuplicateInstruction { address: instruction.address, mode: instruction.mode });
        }
        owners.insert(code, block.id.0);
        proof {
            assert(blocks[n].instructions@[index as int] == instruction);
            assert forall|b1: int, m1: int, b2: int, m2: int|
                valid_pos(blocks, b1, m1) && valid_pos(blocks, b2, m2) && before_pos(b1, m1, n, index + 1) && before_pos(b2, m2, n, index + 1)
                    && (b1 != b2 || m1 != m2) implies key_of(#[trigger] blocks[b1].instructions@[m1]) != key_of(
                    #[trigger] blocks[b2].instructions@[m2],
                ) by {
                if b1 == n && m1 == index {
                    assert(before.contains_key(key_code(key_of(blocks[b2].instructions@[m2])) as u64));
                    lemma_code_u64(key_of(blocks[b2].instructions@[m2]));
                } else if b2 == n && m2 == index {
                    assert(before.contains_key(key_code(key_of(blocks[b1].instructions@[m1])) as u64));
                    lemma_code_u64(key_of(blocks[b1].instructions@[m1]));
                }
            }
            assert forall|b: int, m: int| valid_pos(blocks, b, m) && before_pos(b, m, n, index + 1) implies #[trigger] owners@.contains_key(
                key_code(key_of(blocks[b].instructions@[m])) as u64,
            ) by {
                if !(b == n && m == index) {
                    assert(before.contains_key(key_code(key_of(blocks[b].instructions@[m])) as u64));
                }
            }
            assert forall|c: u64| #[trigger] owners@.contains_key(c) implies exists|b: int, m: int|
                valid_pos(blocks, b, m) && before_pos(b, m, n, index + 1) && key_code(key_of(#[trigger] blocks[b].instructions@[m])) == c by {
                if c == code {
                    assert(valid_pos(blocks, n, index as int) && before_pos(n, index as int, n, index + 1) && key_code(key_of(blocks[n].instructions@[index as int])) == c);
                } else {
                    assert(before.contains_key(c));
                    let (b, m) = choose|b: int, m: int|
                        valid_pos(blocks, b, m) && before_pos(b, m, n, index as int) && key_code(key_of(#[trigger] blocks[b].instructions@[m])) == c;
                    assert(valid_pos(blocks, b, m) && before_pos(b, m, n, index + 1) && key_code(key_of(blocks[b].instructions@[m])) == c);
                }
            }
        }
        if index + 1 < len {
            let next = block.instructions[index + 1];
            if instruction.address.wrapping_add(instruction.size as u32) != next.address {
                proof {
                    assert(ins[index as int] == instruction);
                }
                return Err(ValidationError::NonContiguousInstructions { block: block.id, previous: instruction.address, next: next.address });
            }
            if instruction.mode != next.mode {
                proof {
                    assert(ins[index as int] == instruction);
                }
                return Err(ValidationError::ModeChangedWithinBlock { block: block.id, previous: instruction.mode, next: next.mode });
            }
        }
        index = index + 1;
    }
    let succ_len = block.successors.len();
    let mut s: usize = 0;
    while s < succ_len
        invariant
            0 <= n < blocks.len(),
            blocks[n] == *block,
            block_count == blocks.len(),
            succ_len == block.successors@.len(),
            s <= succ_len,
            forall|k: int| 0 <= k < s ==> (#[trigger] block.successors@[k]).0 < block_count,
            forall|k: int, t: int| 0 <= k < t < s ==> block.successors@[k] != block.successors@[t],
        decreases succ_len - s,
    {
        let successor = block.successors[s];
        if successor.0 >= block_count {
            return Err(ValidationError::InvalidSuccessor { block: block.id, successor });
        }
        let mut t: usize = 0;
        while t < s
            invariant
                0 <= n < blocks.len(),
                blocks[n] == *block,
                s < succ_len,
                succ_len == block.successors@.len(),
                successor == block.successors@[s as int],
                t <= s,
                forall|k: int| 0 <= k < t ==> block.successors@[k] != successor,
            decreases s - t,
        {
            if block.successors[t] == successor {
                proof {
                    assert(block.successors@[t as int] == successor && block.successors@[s as int] == successor);
                }
                return Err(ValidationError::DuplicateSuccessor { block: block.id, successor });
            }
            t = t + 1;
        }
        s = s + 1;
    }
    proof {
        assert(distinct_upto(blocks, n + 1, 0)) by {
            assert forall|b1: int, m1: int, b2: int, m2: int|
                valid_pos(blocks, b1, m1) && valid_pos(blocks, b2, m2) && before_pos(b1, m1, n + 1, 0) && before_pos(b2, m2, n + 1, 0)
                    && (b1 != b2 || m1 != m2) implies key_of(#[trigger] blocks[b1].instructions@[m1]) != key_of(
                    #[trigger] blocks[b2].instructions@[m2],
                ) by {
                assert(before_pos(b1, m1, n, len as int));
                assert(before_pos(b2, m2, n, len as int));
            }
        }
        assert forall|b: int, m: int| valid_pos(blocks, b, m) && before_pos(b, m, n + 1, 0) implies #[trigger] owners@.contains_key(
            key_code(key_of(blocks[b].instructions@[m])) as u64,
        ) by {
            assert(before_pos(b, m, n, len as int));
        }
        assert forall|c: u64| #[trigger] owners@.contains_key(c) implies exists|b: int, m: int|
            valid_pos(blocks, b, m) && before_pos(b, m, n + 1, 0) && key_code(key_of(#[trigger] blocks[b].instructions@[m])) == c by {
            let (b, m) = choose|b: int, m: int|
                valid_pos(blocks, b, m) && before_pos(b, m, n, len as int) && key_code(key_of(#[trigger] blocks[b].instructions@[m])) == c;
            assert(valid_pos(blocks, b, m) && before_pos(b, m, n + 1, 0) && key_code(key_of(blocks[b].instructions@[m])) == c);
        }
    }
    Ok(())
}

pub open spec fn instructions_distinct_pair(blocks: Seq<BasicBlock>, b1: int, m1: int, b2: int, m2: int) -> bool {
    key_of(blocks[b1].instructions@[m1]) != key_of(blocks[b2].instructions@[m2])
}

/// Soundness of the block-local errors, for block `n`.
pub open spec fn error_sound_at(blocks: Seq<BasicBlock>, n: int, e: ValidationError) -> bool {
    let block = blocks[n];
    match e {
        ValidationError::EmptyBlock(id) => id == block.id && block.instructions@.len() == 0,
        ValidationError::BlockKeyMismatch { block: id, expected, actual } => id == block.id && block.instructions@.len() > 0
            && expected == key_of(block.instructions@[0]) && actual == block.key && expected != actual,
        ValidationError::NonContiguousInstructions { block: id, previous, next } => id == block.id && exists|m: int|
            0 <= m < block.instructions@.len() - 1 && previous == (#[trigger] block.instructions@[m]).address && next
                == block.instructions@[m + 1].address && block.instructions@[m].address.wrapping_add(
                block.instructions@[m].size as u32,
            ) != next,
        ValidationError::ModeChangedWithinBlock { block: id, previous, next } => id == block.id && exists|m: int|
            0 <= m < block.instructions@.len() - 1 && (#[trigger] block.instructions@[m]).mode != block.instructions@[m
                + 1].mode && previous == block.instructions@[m].mode && next == block.instructions@[m + 1].mode,
        ValidationError::InvalidSuccessor { block: id, successor } => id == block.id && block.successors@.contains(successor)
            && successor.0 >= blocks.len(),
        ValidationError::DuplicateSuccessor { block: id, successor } => id == block.id && exists|s: int, t: int|
            0 <= s < t < block.successors@.len() && #[trigger] block.successors@[s] == successor && #[trigger] block.successors@[t]
                == successor,
        ValidationError::InstructionIrMismatch { block: id, instructions, ir } => id == block.id && instructions
            == block.instructions@.len() && ir == block.ir@.len() && instructions != ir,
        _ => false,
    }
}

// ---------------------------------------------------------------------------
// Terminator edges
// ---------------------------------------------------------------------------

pub open spec fn successors_valid(blocks: Seq<BasicBlock>, block: BasicBlock) -> bool {
    forall|s: int| 0 <= s < block.successors@.len() ==> (#[trigger] block.successors@[s]).0 < blocks.len()
}

fn owns(owners: &HashMap<u64, usize>, k: BlockKey, Ghost(blocks): Ghost<Seq<BasicBlock>>) -> (r: bool)
    requires
        owners_upto(owners@, blocks, blocks.len() as int, 0),
    ensures
        r == owned(blocks, k),
{
    let c = encode_key(k);
    let r = owners.contains_key(&c);
    proof {
        if r {
            let (b, m) = choose|b: int, m: int|
                valid_pos(blocks, b, m) && before_pos(b, m, blocks.len() as int, 0) && key_code(key_of(#[trigger] blocks[b].instructions@[m]))
                    == c;
            lemma_code_u64(k);
            lemma_code_u64(key_of(blocks[b].instructions@[m]));
            lemma_key_code_injective(k, key_of(blocks[b].instructions@[m]));
        }
        if owned(blocks, k) {
            let (b, m) = choose|b: int, m: int|
                0 <= b < blocks.len() && 0 <= m < blocks[b].instructions@.len() && key_of(#[trigger] blocks[b].instructions@[m]) == k;
            assert(valid_pos(blocks, b, m) && before_pos(b, m, blocks.len() as int, 0));
            assert(owners@.contains_key(key_code(key_of(blocks[b].instructions@[m])) as u64));
        }
    }
    r
}

fn has_edge(blocks: &Vec<BasicBlock>, block: &BasicBlock, k: BlockKey) -> (r: bool)
    requires
        successors_valid(blocks@, *block),
    ensures
        r == has_edge_to(blocks@, *block, k),
{
    let mut s: usize = 0;
    while s < block.successors.len()
        invariant
            successors_valid(blocks@, *block),
            s <= block.successors@.len(),
            forall|t: int| 0 <= t < s ==> blocks@[(#[trigger] block.successors@[t]).0 as int].key != k,
        decreases block.successors@.len() - s,
    {
        let id = block.successors[s].0;
        if blocks[id].key == k {
            return true;
        }
        s = s + 1;
    }
    false
}

fn direct_edges(
    blocks: &Vec<BasicBlock>,
    block: &BasicBlock,
    owners: &HashMap<u64, usize>,
    target: BlockKey,
    want_next: bool,
) -> (r: Result<(), ValidationError>)
    requires
        successors_valid(blocks@, *block),
        block.instructions@.len() > 0,
        owners_upto(owners@, blocks@, blocks@.len() as int, 0),
    ensures
        r is Ok <==> direct_edges_ok(blocks@, *block, target, want_next),
        r matches Err(e) ==> e is MissingEdge && e->MissingEdge_block == block.id || e is UnexpectedEdge && e->UnexpectedEdge_block == block.id,
{
    let last = block.instructions[block.instructions.len() - 1];
    let next = next_key(last);
    let target_owned = owns(owners, target, Ghost(blocks@));
    if target_owned && !has_edge(blocks, block, target) {
        return Err(ValidationError::MissingEdge { block: block.id, target });
    }
    let next_owned = owns(owners, next, Ghost(blocks@));
    if want_next && next_owned && !has_edge(blocks, block, next) {
        return Err(ValidationError::MissingEdge { block: block.id, target: next });
    }
    let mut s: usize = 0;
    while s < block.successors.len()
        invariant
            successors_valid(blocks@, *block),
            block.instructions@.len() > 0,
            next == next_key_spec(block.instructions@.last()),
            target_owned == owned(blocks@, target),
            next_owned == owned(blocks@, next),
            s <= block.successors@.len(),
            forall|t: int| 0 <= t < s ==> {
                ||| (edge_key(blocks@, *block, t) == target && owned(blocks@, target))
                ||| (want_next && #[trigger] edge_key(blocks@, *block, t) == next && owned(blocks@, next))
            },
        decreases block.successors@.len() - s,
    {
        let key = blocks[block.successors[s].0].key;
        if !((key == target && target_owned) || (want_next && key == next && next_owned)) {
            proof {
                assert(edge_key(blocks@, *block, s as int) == key);
            }
            return Err(ValidationError::UnexpectedEdge { block: block.id, target: key });
        }
        s = s + 1;
    }
    Ok(())
}

#[verifier::rlimit(40)]
fn terminator_edges(blocks: &Vec<BasicBlock>, block: &BasicBlock, owners: &HashMap<u64, usize>) -> (r: Result<(), ValidationError>)
    requires
        successors_valid(blocks@, *block),
        block.instructions@.len() > 0,
        owners_upto(owners@, blocks@, blocks@.len() as int, 0),
    ensures
        r is Ok <==> edges_ok(blocks@, *block),
        r matches Err(e) ==> e is MissingEdge && e->MissingEdge_block == block.id || e is UnexpectedEdge && e->UnexpectedEdge_block == block.id,
{
    let last = block.instructions[block.instructions.len() - 1];
    let next = next_key(last);
    let n = block.successors.len();
    proof {
        assert(last == block.instructions@.last());
    }
    match last.kind {
        InstructionKind::Arm(ArmOp::Branch { target, condition, link }) => {
            direct_edges(blocks, block, owners, BlockKey { address: target, mode: Mode::Arm }, condition != Condition::Al || link)
        },
        InstructionKind::Thumb(ThumbOp::Branch { target, condition }) => {
            direct_edges(blocks, block, owners, BlockKey { address: target, mode: Mode::Thumb }, condition != Condition::Al)
        },
        InstructionKind::Thumb(ThumbOp::BranchLink { target }) => {
            direct_edges(blocks, block, owners, BlockKey { address: target, mode: Mode::Thumb }, true)
        },
        InstructionKind::Arm(ArmOp::BranchExchange { link, .. }) => {
            let limit: usize = if link { 2 } else { 1 };
            if n > limit {
                return Err(ValidationError::UnexpectedEdge { block: block.id, target: next });
            }
            if link && owns(owners, next, Ghost(blocks@)) && !has_edge(blocks, block, next) {
                return Err(ValidationError::MissingEdge { block: block.id, target: next });
            }
            Ok(())
        },
        InstructionKind::Thumb(ThumbOp::BranchExchange { .. }) => {
            if n > 1 {
                return Err(ValidationError::UnexpectedEdge { block: block.id, target: next });
            }
            Ok(())
        },
        InstructionKind::Arm(ArmOp::Unknown) | InstructionKind::Thumb(ThumbOp::Unknown) => {
            if n > 0 {
                return Err(ValidationError::UnexpectedEdge { block: block.id, target: blocks[block.successors[0].0].key });
            }
            Ok(())
        },
        _ => {
            if owns(owners, next, Ghost(blocks@)) && !has_edge(blocks, block, next) {
                return Err(ValidationError::MissingEdge { block: block.id, target: next });
            }
            match edge_other_than(blocks, block, next) {
                Some(key) => Err(ValidationError::UnexpectedEdge { block: block.id, target: key }),
                None => Ok(()),
            }
        },
    }
}

/// The first out-edge of `block` that does not lead to `next`.
fn edge_other_than(blocks: &Vec<BasicBlock>, block: &BasicBlock, next: BlockKey) -> (r: Option<BlockKey>)
    requires
        successors_valid(blocks@, *block),
    ensures
        r is None <==> forall|t: int| 0 <= t < block.successors@.len() ==> #[trigger] edge_key(blocks@, *block, t) == next,
{
    let n = block.successors.len();
    let mut s: usize = 0;
    while s < n
        invariant
            successors_valid(blocks@, *block),
            n == block.successors@.len(),
            s <= n,
            forall|t: int| 0 <= t < s ==> #[trigger] edge_key(blocks@, *block, t) == next,
        decreases n - s,
    {
        let key = blocks[block.successors[s].0].key;
        if key != next {
            proof {
                assert(edge_key(blocks@, *block, s as int) == key);
            }
            return Some(key);
        }
        s = s + 1;
    }
    None
}


// ---------------------------------------------------------------------------
// Reachability
// ---------------------------------------------------------------------------

pub open spec fn count_unvisited(v: Seq<bool>) -> nat
    decreases v.len(),
{
    if v.len() == 0 {
        0
    } else {
        count_unvisited(v.drop_last()) + if v.last() {
            0nat
        } else {
            1nat
        }
    }
}

proof fn lemma_count_mark(v: Seq<bool>, i: int)
    requires
        0 <= i < v.len(),
        !v[i],
    ensures
        count_unvisited(v.update(i, true)) + 1 == count_unvisited(v),
    decreases v.len(),
{
    let w = v.update(i, true);
    if i == v.len() - 1 {
        assert(w.drop_last() =~= v.drop_last());
    } else {
        assert(w.drop_last() =~= v.drop_last().update(i, true));
        lemma_count_mark(v.drop_last(), i);
    }
}

pub open spec fn all_successors_valid(blocks: Seq<BasicBlock>) -> bool {
    forall|b: int| 0 <= b < blocks.len() ==> successors_valid(blocks, #[trigger] blocks[b])
}

proof fn lemma_path_extend(cfg: ControlFlowGraph, p: Seq<int>, s: int)
    requires
        is_path(cfg, p),
        0 <= s < cfg.blocks@.len(),
        cfg.blocks@[p.last()].successors@.contains(BlockId(s as usize)),
    ensures
        is_path(cfg, p.push(s)),
{
    let q = p.push(s);
    assert forall|k: int| 0 <= k < q.len() - 1 implies cfg.blocks@[#[trigger] q[k]].successors@.contains(BlockId(q[k + 1] as usize)) by {
        if k < p.len() - 1 {
            assert(q[k] == p[k] && q[k + 1] == p[k + 1]);
        }
    }
}

/// Every block on a path from the entry is in a successor-closed set that
/// holds the entry.
proof fn lemma_path_visited(cfg: ControlFlowGraph, visited: Seq<bool>, p: Seq<int>, k: int)
    requires
        visited.len() == cfg.blocks@.len(),
        cfg.blocks@.len() <= usize::MAX,
        is_path(cfg, p),
        0 <= k < p.len(),
        visited[cfg.entry.0 as int],
        forall|b: int, s: int| 0 <= b < visited.len() && visited[b] && 0 <= s < cfg.blocks@[b].successors@.len() ==> visited[
            (#[trigger] cfg.blocks@[b].successors@[s]).0 as int],
    ensures
        visited[p[k]],
    decreases k,
{
    if k > 0 {
        lemma_path_visited(cfg, visited, p, k - 1);
        let b = p[k - 1];
        assert(cfg.blocks@[b].successors@.contains(BlockId(p[k] as usize)));
        let s = choose|s: int| 0 <= s < cfg.blocks@[b].successors@.len() && cfg.blocks@[b].successors@[s] == BlockId(p[k] as usize);
        assert(visited[(cfg.blocks@[b].successors@[s]).0 as int]);
    }
}

/// The first block that no path from the entry reaches, if any.
#[verifier::rlimit(40)]
fn first_unreachable(cfg: &ControlFlowGraph) -> (r: Option<usize>)
    requires
        cfg.entry.0 < cfg.blocks@.len(),
        all_successors_valid(cfg.blocks@),
    ensures
        match r {
            Some(i) => i < cfg.blocks@.len() && !reachable(*cfg, i as int) && forall|j: int| 0 <= j < i ==> #[trigger] reachable(*cfg, j),
            None => forall|j: int| 0 <= j < cfg.blocks@.len() ==> #[trigger] reachable(*cfg, j),
        },
{
    let n = cfg.blocks.len();
    let mut visited: Vec<bool> = Vec::new();
    let mut k: usize = 0;
    while k < n
        invariant
            k <= n,
            visited@.len() == k,
            forall|j: int| 0 <= j < k ==> !visited@[j],
        decreases n - k,
    {
        visited.push(false);
        k = k + 1;
    }
    let mut queue: Vec<usize> = Vec::new();
    queue.push(cfg.entry.0);
    proof {
        let p = seq![cfg.entry.0 as int];
        assert(is_path(*cfg, p));
        assert(reachable(*cfg, cfg.entry.0 as int));
        assert(queue@[0] == cfg.entry.0);
    }
    let mut head: usize = 0;
    while head < queue.len()
        invariant
            n == cfg.blocks@.len(),
            cfg.entry.0 < n,
            all_successors_valid(cfg.blocks@),
            visited@.len() == n,
            head <= queue.len(),
            forall|q: int| 0 <= q < queue@.len() ==> #[trigger] queue@[q] < n && reachable(*cfg, queue@[q] as int),
            forall|b: int| 0 <= b < n && #[trigger] visited@[b] ==> reachable(*cfg, b),
            forall|b: int, s: int| 0 <= b < n && visited@[b] && 0 <= s < cfg.blocks@[b].successors@.len() ==> visited@[
                (#[trigger] cfg.blocks@[b].successors@[s]).0 as int] || exists|q: int| head <= q < queue@.len() && queue@[q] == cfg.blocks@[b].successors@[s].0,
            visited@[cfg.entry.0 as int] || exists|q: int| head <= q < queue@.len() && queue@[q] == cfg.entry.0,
        decreases count_unvisited(visited@), queue@.len() - head,
    {
        let id = queue[head];
        head = head + 1;
        if visited[id] {
            proof {
                assert forall|b: int, s: int| 0 <= b < n && visited@[b] && 0 <= s < cfg.blocks@[b].successors@.len() implies visited@[
                    (#[trigger] cfg.blocks@[b].successors@[s]).0 as int] || exists|q: int| head <= q < queue@.len() && queue@[q] == cfg.blocks@[b].successors@[s].0 by {
                    if !visited@[cfg.blocks@[b].successors@[s].0 as int] {
                        let q = choose|q: int| head - 1 <= q < queue@.len() && queue@[q] == cfg.blocks@[b].successors@[s].0;
                        assert(q != head - 1);
                    }
                }
                if !visited@[cfg.entry.0 as int] {
                    let q = choose|q: int| head - 1 <= q < queue@.len() && queue@[q] == cfg.entry.0;
                    assert(q != head - 1);
                }
            }
            continue;
        }
        let ghost v0 = visited@;
        let ghost q0 = queue@;
        proof {
            lemma_count_mark(visited@, id as int);
        }
        visited.set(id, true);
        proof {
            assert(reachable(*cfg, id as int));
        }
        let ghost path = choose|p: Seq<int>| #[trigger] is_path(*cfg, p) && p.last() == id as int;
        let succ_len = cfg.blocks[id].successors.len();
        let mut s: usize = 0;
        while s < succ_len
            invariant
                n == cfg.blocks@.len(),
                all_successors_valid(cfg.blocks@),
                id < n,
                succ_len == cfg.blocks@[id as int].successors@.len(),
                is_path(*cfg, path),
                path.last() == id as int,
                s <= succ_len,
                queue@.len() == q0.len() + s,
                forall|q: int| 0 <= q < q0.len() ==> #[trigger] queue@[q] == q0[q],
                forall|q: int| 0 <= q < queue@.len() ==> #[trigger] queue@[q] < n && reachable(*cfg, queue@[q] as int),
                forall|t: int| 0 <= t < s ==> queue@[q0.len() + t] == (#[trigger] cfg.blocks@[id as int].successors@[t]).0,
            decreases succ_len - s,
        {
            let target = cfg.blocks[id].successors[s].0;
            proof {
                assert(successors_valid(cfg.blocks@, cfg.blocks@[id as int]));
                assert(cfg.blocks@[id as int].successors@[s as int].0 < n);
                assert(cfg.blocks@[id as int].successors@[s as int] == BlockId(target));
                lemma_path_extend(*cfg, path, target as int);
                assert(is_path(*cfg, path.push(target as int)) && path.push(target as int).last() == target as int);
            }
            queue.push(target);
            s = s + 1;
        }
        proof {
            assert forall|b: int, t: int| 0 <= b < n && visited@[b] && 0 <= t < cfg.blocks@[b].successors@.len() implies visited@[
                (#[trigger] cfg.blocks@[b].successors@[t]).0 as int] || exists|q: int| head <= q < queue@.len() && queue@[q] == cfg.blocks@[b].successors@[t].0 by {
                if b == id {
                    if !visited@[cfg.blocks@[b].successors@[t].0 as int] {
                        assert(queue@[q0.len() + t] == cfg.blocks@[id as int].successors@[t].0);
                    }
                } else if !visited@[cfg.blocks@[b].successors@[t].0 as int] {
                    assert(v0[b]);
                    let q = choose|q: int| head - 1 <= q < q0.len() && q0[q] == cfg.blocks@[b].successors@[t].0;
                    assert(q != head - 1);
                    assert(queue@[q] == q0[q]);
                }
            }
            if !visited@[cfg.entry.0 as int] {
                let q = choose|q: int| head - 1 <= q < q0.len() && q0[q] == cfg.entry.0;
                assert(q != head - 1);
                assert(queue@[q] == q0[q]);
            }
        }
    }
    proof {
        assert forall|j: int| 0 <= j < n && #[trigger] reachable(*cfg, j) implies visited@[j] by {
            let p = choose|p: Seq<int>| #[trigger] is_path(*cfg, p) && p.last() == j;
            lemma_path_visited(*cfg, visited@, p, p.len() - 1);
        }
    }
    let mut i: usize = 0;
    while i < n
        invariant
            n == cfg.blocks@.len(),
            visited@.len() == n,
            i <= n,
            forall|b: int| 0 <= b < n && #[trigger] visited@[b] ==> reachable(*cfg, b),
            forall|j: int| 0 <= j < n && #[trigger] reachable(*cfg, j) ==> visited@[j],
            forall|j: int| 0 <= j < i ==> #[trigger] reachable(*cfg, j),
        decreases n - i,
    {
        if !visited[i] {
            return Some(i);
        }
        i = i + 1;
    }
    None
}

// ---------------------------------------------------------------------------
// The whole graph
// ---------------------------------------------------------------------------

proof fn lemma_distinct_prefix(blocks: Seq<BasicBlock>, n: int, lm: int)
    requires
        instructions_distinct(blocks),
    ensures
        distinct_upto(blocks, n, lm),
{
}

proof fn lemma_distinct_all(blocks: Seq<BasicBlock>)
    requires
        distinct_upto(blocks, blocks.len() as int, 0),
    ensures
        instructions_distinct(blocks),
{
    assert forall|b1: int, m1: int, b2: int, m2: int|
        0 <= b1 < blocks.len() && 0 <= b2 < blocks.len() && 0 <= m1 < blocks[b1].instructions@.len() && 0 <= m2
            < blocks[b2].instructions@.len() && (b1 != b2 || m1 != m2) implies key_of(
            #[trigger] blocks[b1].instructions@[m1],
        ) != key_of(#[trigger] blocks[b2].instructions@[m2]) by {
        assert(valid_pos(blocks, b1, m1) && valid_pos(blocks, b2, m2));
        assert(before_pos(b1, m1, blocks.len() as int, 0) && before_pos(b2, m2, blocks.len() as int, 0));
    }
}

/// Checks the structural invariants of a recovered graph: identities,
/// block shape, unique ownership of instructions, the instruction count,
/// reachability from the entry and agreement of out-edges with each block's
/// last instruction. Returns the first violation found.
#[verifier::rlimit(60)]
pub fn validate_cfg(cfg: &ControlFlowGraph, expected: usize) -> (r: Result<(), ValidationError>)
    ensures
        r is Ok <==> cfg_valid(*cfg, expected as nat),
        r matches Err(e) ==> error_sound(*cfg, expected as nat, e),
        (r == Err::<(), ValidationError>(ValidationError::EmptyGraph)) <==> cfg.blocks@.len() == 0,
        (r == Err::<(), ValidationError>(ValidationError::InvalidEntry(cfg.entry))) <==> (cfg.blocks@.len() > 0 && cfg.entry.0
            >= cfg.blocks@.len()),
        r matches Err(e) ==> error_in_order(*cfg, expected as nat, e),
{
    let n = cfg.blocks.len();
    if n == 0 {
        proof {
            reveal(error_in_order);
        }
        return Err(ValidationError::EmptyGraph);
    }
    if cfg.entry.0 >= n {
        proof {
            reveal(error_in_order);
        }
        return Err(ValidationError::InvalidEntry(cfg.entry));
    }
    let ghost blocks = cfg.blocks@;
    let mut seen: HashMap<u64, usize> = HashMap::new();
    let mut owners: HashMap<u64, usize> = HashMap::new();
    let mut count: u128 = 0;
    let mut i: usize = 0;
    while i < n
        invariant
            blocks == cfg.blocks@,
            n == blocks.len(),
            n > 0,
            cfg.entry.0 < n,
            i <= n,
            forall|j: int| 0 <= j < i ==> (#[trigger] blocks[j]).id == BlockId(j as usize),
            forall|j: int, k: int| 0 <= j < k < i ==> (#[trigger] blocks[j]).key != (#[trigger] blocks[k]).key,
            forall|j: int| 0 <= j < i ==> #[trigger] seen@.contains_key(key_code(blocks[j].key) as u64),
            forall|c: u64| #[trigger] seen@.contains_key(c) ==> exists|j: int| 0 <= j < i && key_code(blocks[j].key) == c,
            forall|j: int| 0 <= j < i ==> block_well_formed(#[trigger] blocks[j], n as nat),
            distinct_upto(blocks, i as int, 0),
            owners_upto(owners@, blocks, i as int, 0),
            count == total_instructions(blocks, i as int),
            count <= i * 0x1_0000_0000_0000_0000,
        decreases n - i,
    {
        let block = &cfg.blocks[i];
        if block.id.0 != i {
            proof {
                reveal(error_in_order);
            }
            return Err(ValidationError::NonContiguousBlockId { expected: BlockId(i), actual: block.id });
        }
        let code = encode_key(block.key);
        if seen.contains_key(&code) {
            proof {
                let j = choose|j: int| 0 <= j < i && key_code(blocks[j].key) == code;
                lemma_key_code_injective(blocks[j].key, block.key);
                assert(!block_keys_distinct(blocks));
            }
            proof {
                reveal(error_in_order);
            }
            return Err(ValidationError::DuplicateBlockKey(block.key));
        }
        let ghost seen0 = seen@;
        seen.insert(code, i);
        proof {
            assert forall|j: int| 0 <= j < i + 1 implies #[trigger] seen@.contains_key(key_code(blocks[j].key) as u64) by {
                if j < i {
                    assert(seen0.contains_key(key_code(blocks[j].key) as u64));
                }
            }
            assert forall|c: u64| #[trigger] seen@.contains_key(c) implies exists|j: int| 0 <= j < i + 1 && key_code(blocks[j].key) == c by {
                if c != code {
                    assert(seen0.contains_key(c));
                } else {
                    assert(key_code(blocks[i as int].key) == c);
                }
            }
            assert forall|j: int, k: int| 0 <= j < k < i + 1 implies (#[trigger] blocks[j]).key != (#[trigger] blocks[k]).key by {
                if k == i {
                    assert(seen0.contains_key(key_code(blocks[j].key) as u64));
                    lemma_code_u64(blocks[j].key);
                    lemma_code_u64(block.key);
                }
            }
        }
        match validate_block(block, n, &mut owners, Ghost(blocks), Ghost(i as int)) {
            Ok(()) => {},
            Err(e) => {
                proof {
                    reveal(error_in_order);
                    if e is DuplicateInstruction {
                        if instructions_distinct(blocks) {
                            lemma_distinct_prefix(blocks, i + 1, 0);
                        }
                    } else {
                        assert(error_sound_at(blocks, i as int, e));
                        if instructions_distinct(blocks) {
                            lemma_distinct_prefix(blocks, i + 1, 0);
                        }
                    }
                }
                return Err(e);
            },
        }
        count = count + block.instructions.len() as u128;
        i = i + 1;
    }
    proof {
        lemma_distinct_all(blocks);
    }
    if count != expected as u128 {
        let actual: usize = if count <= usize::MAX as u128 { count as usize } else { usize::MAX };
        proof {
            reveal(error_in_order);
        }
        return Err(ValidationError::InstructionCountMismatch { expected, actual });
    }
    proof {
        assert forall|b: int| 0 <= b < blocks.len() implies successors_valid(blocks, #[trigger] blocks[b]) by {
            assert(block_well_formed(blocks[b], n as nat));
        }
    }
    match first_unreachable(cfg) {
        Some(b) => {
            proof {
                reveal(error_in_order);
            }
            return Err(ValidationError::UnreachableBlock(cfg.blocks[b].id));
        },
        None => {},
    }
    let mut j: usize = 0;
    while j < n
        invariant
            blocks == cfg.blocks@,
            n == blocks.len(),
            j <= n,
            forall|b: int| 0 <= b < n ==> block_well_formed(#[trigger] blocks[b], n as nat),
            forall|b: int| 0 <= b < n ==> (#[trigger] blocks[b]).id == BlockId(b as usize),
            owners_upto(owners@, blocks, n as int, 0),
            forall|b: int| 0 <= b < j ==> edges_ok(blocks, #[trigger] blocks[b]),
            blocks_pass(*cfg),
            total_instructions(blocks, n as int) == expected,
            forall|b: int| 0 <= b < n ==> #[trigger] reachable(*cfg, b),
        decreases n - j,
    {
        proof {
            assert(block_well_formed(blocks[j as int], n as nat));
        }
        match terminator_edges(&cfg.blocks, &cfg.blocks[j], &owners) {
            Ok(()) => {},
            Err(e) => {
                proof {
                    reveal(error_in_order);
                }
                return Err(e);
            },
        }
        j = j + 1;
    }
    Ok(())
}

} // verus!
