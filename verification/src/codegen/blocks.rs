//! A generated block function: its operations, then its terminator.
use vstd::prelude::*;
use vstd::string::StringExecFns;

use crate::cfg::{BasicBlock, BlockId, ControlFlowGraph, Program};
use crate::decoder::Mode;
use crate::ir::IrOp;
use crate::semantic_ir::validate::blocks_distinct;
use crate::semantic_ir::{SemanticBlock, SemanticProgram};

use super::common::{block_name, block_name_text};
use super::linking::block_keys_distinct;
use super::ops::{emit_op, op_after};
use super::terminators::{block_in_graph, emit_terminator, graph_closed, terminator_after};

verus! {

/// A semantic program that code can be generated for: it has an entry
/// function naming a block of the graph, every block and successor it names
/// is in the graph, no block id repeats, and no two blocks start at the same
/// address in the same mode.
pub open spec fn codegen_ready(cfg: ControlFlowGraph, sp: SemanticProgram) -> bool {
    &&& sp.functions@.len() > 0
    &&& sp.entry.0 < sp.functions@.len()
    &&& sp.functions@[sp.entry.0 as int].entry.0 < cfg.blocks@.len()
    &&& graph_closed(cfg)
    &&& forall|f: int, k: int|
        0 <= f < sp.functions@.len() && 0 <= k < sp.functions@[f].blocks@.len() ==> block_in_graph(cfg, #[trigger] sp.functions@[f].blocks@[k])
    &&& blocks_distinct(sp)
    &&& block_keys_distinct(sp)
}

/// The operations `ops[j..]` of one instruction, in order.
pub open spec fn ops_after(s: Seq<char>, address: u32, raw: u32, mode: Mode, ops: Seq<IrOp>, j: nat) -> Seq<char>
    decreases ops.len() - j,
{
    if j >= ops.len() {
        s
    } else {
        ops_after(op_after(s, address, raw, mode, ops[j as int]), address, raw, mode, ops, j + 1)
    }
}

/// The operations of instructions `i..` of the block, each with the raw
/// word its source instruction was decoded from.
pub open spec fn instructions_after(s: Seq<char>, b: SemanticBlock, src: BasicBlock, i: nat) -> Seq<char>
    decreases b.instructions@.len() - i,
{
    if i >= b.instructions@.len() || i >= src.instructions@.len() {
        s
    } else {
        let ins = b.instructions@[i as int];
        instructions_after(ops_after(s, ins.address, src.instructions@[i as int].raw, b.mode, ins.ops@, 0), b, src, i + 1)
    }
}

/// The block's function: its header, its operations, its terminator.
pub open spec fn block_after(s: Seq<char>, cfg: ControlFlowGraph, b: SemanticBlock) -> Seq<char> {
    let t1 = s + "#[inline(always)]\nfn "@ + block_name_text(b.id.0 as nat, b.mode, b.address) + "(rt: &mut Runtime) -> Result<GeneratedBlockExit, &'static str> {\n"@;
    let t2 = instructions_after(t1, b, cfg.blocks@[b.id.0 as int], 0);
    let t3 = terminator_after(t2, cfg, b);
    t3 + "}\n\n"@
}

fn emit_instruction_ops(out: &mut String, address: u32, raw: u32, mode: Mode, ops: &Vec<IrOp>)
    ensures
        final(out)@ == ops_after(old(out)@, address, raw, mode, ops@, 0),
{
    let ghost target = ops_after(out@, address, raw, mode, ops@, 0);
    let mut j: usize = 0;
    while j < ops.len()
        invariant
            j <= ops@.len(),
            ops_after(out@, address, raw, mode, ops@, j as nat) == target,
        decreases ops@.len() - j,
    {
        emit_op(out, address, raw, mode, &ops[j]);
        j = j + 1;
    }
}

/// Where the block with this id sits in the program.
pub(crate) fn find_block(sp: &SemanticProgram, id: BlockId) -> (r: (usize, usize))
    requires
        exists|f: int, k: int| 0 <= f < sp.functions@.len() && 0 <= k < sp.functions@[f].blocks@.len() && (#[trigger] sp.functions@[f].blocks@[k]).id == id,
    ensures
        r.0 < sp.functions@.len(),
        r.1 < sp.functions@[r.0 as int].blocks@.len(),
        sp.functions@[r.0 as int].blocks@[r.1 as int].id == id,
{
    let mut f: usize = 0;
    while f < sp.functions.len()
        invariant
            f <= sp.functions@.len(),
            exists|g: int, k: int| 0 <= g < sp.functions@.len() && 0 <= k < sp.functions@[g].blocks@.len() && (#[trigger] sp.functions@[g].blocks@[k]).id == id,
            forall|g: int, k: int| 0 <= g < f && 0 <= k < sp.functions@[g].blocks@.len() ==> (#[trigger] sp.functions@[g].blocks@[k]).id != id,
        decreases sp.functions@.len() - f,
    {
        let blocks = &sp.functions[f].blocks;
        let mut k: usize = 0;
        while k < blocks.len()
            invariant
                f < sp.functions@.len(),
                *blocks == sp.functions@[f as int].blocks,
                k <= blocks@.len(),
                forall|j: int| 0 <= j < k ==> (#[trigger] blocks@[j]).id != id,
            decreases blocks@.len() - k,
        {
            if blocks[k].id.0 == id.0 {
                return (f, k);
            }
            k = k + 1;
        }
        f = f + 1;
    }
    proof {
        let (g, k) = choose|g: int, k: int| 0 <= g < sp.functions@.len() && 0 <= k < sp.functions@[g].blocks@.len() && (#[trigger] sp.functions@[g].blocks@[k]).id == id;
        assert(sp.functions@[g].blocks@[k].id != id);
    }
    (0, 0)
}

pub fn emit_block(out: &mut String, program: &Program, semantic: &SemanticProgram, block_id: BlockId)
    requires
        codegen_ready(program.cfg, *semantic),
        exists|f: int, k: int|
            0 <= f < semantic.functions@.len() && 0 <= k < semantic.functions@[f].blocks@.len() && (#[trigger] semantic.functions@[f].blocks@[k]).id
                == block_id,
    ensures
        exists|f: int, k: int|
            0 <= f < semantic.functions@.len() && 0 <= k < semantic.functions@[f].blocks@.len() && (#[trigger] semantic.functions@[f].blocks@[k]).id
                == block_id && final(out)@ == block_after(old(out)@, program.cfg, semantic.functions@[f].blocks@[k]),
{
    let (f, k) = find_block(semantic, block_id);
    let b = &semantic.functions[f].blocks[k];
    proof {
        assert(block_in_graph(program.cfg, semantic.functions@[f as int].blocks@[k as int]));
    }
    let source = &program.cfg.blocks[block_id.0];
    let name = block_name(b.id, b.mode, b.address);
    out.append("#[inline(always)]\nfn ");
    out.append(name.as_str());
    out.append("(rt: &mut Runtime) -> Result<GeneratedBlockExit, &'static str> {\n");
    let ghost target = instructions_after(out@, *b, *source, 0);
    let mut i: usize = 0;
    while i < b.instructions.len() && i < source.instructions.len()
        invariant
            i <= b.instructions@.len(),
            instructions_after(out@, *b, *source, i as nat) == target,
        decreases b.instructions@.len() - i,
    {
        let ins = &b.instructions[i];
        emit_instruction_ops(out, ins.address, source.instructions[i].raw, b.mode, &ins.ops);
        i = i + 1;
    }
    emit_terminator(out, b, program);
    out.append("}\n\n");
}

} // verus!
