//! Lowering recovered functions to semantic IR.
use vstd::prelude::*;

use crate::cfg::{BasicBlock, BlockId, ControlFlowGraph, Program};
use crate::decoder::{ArmExtended, Mode, ThumbExtended};
use crate::text::{numbered, push_decimal};
use crate::function::{call_views, copy_call, copy_ids, copy_returns, view_call, CallSite, FunctionControlFlowGraph, FunctionId, ReturnSite};
use crate::ir::{
    all_flags, all_reads, all_writes, first_memory, last_control, reads_any_spec, sorted_set_of, writes_any_spec, IrControlEffect,
    IrInstruction, IrMemoryEffect, IrMemoryKind, IrMemoryWidth, IrOp,
};

use super::validate::{semantic_valid, validate_semantic_program};
use super::types::{FlagEffect, MemoryEffect, MemoryWidth, SemanticBlock, SemanticFunction, SemanticInstruction, SemanticProgram, SemanticTerminator};

verus! {

pub open spec fn memory_width_of(w: IrMemoryWidth) -> MemoryWidth {
    match w {
        IrMemoryWidth::Byte => MemoryWidth::Byte,
        IrMemoryWidth::Halfword => MemoryWidth::Halfword,
        IrMemoryWidth::Word => MemoryWidth::Word,
    }
}

pub fn memory_width(w: IrMemoryWidth) -> (r: MemoryWidth)
    ensures
        r == memory_width_of(w),
{
    match w {
        IrMemoryWidth::Byte => MemoryWidth::Byte,
        IrMemoryWidth::Halfword => MemoryWidth::Halfword,
        IrMemoryWidth::Word => MemoryWidth::Word,
    }
}

/// The semantic form of an IR memory effect: its direction, width and base.
pub open spec fn semantic_memory(m: Option<IrMemoryEffect>) -> Option<MemoryEffect> {
    match m {
        Some(e) => Some(
            match e.kind {
                IrMemoryKind::Read => MemoryEffect::Read { width: memory_width_of(e.width), base: e.base },
                IrMemoryKind::Write => MemoryEffect::Write { width: memory_width_of(e.width), base: e.base },
                IrMemoryKind::ReadWrite => MemoryEffect::ReadWrite { width: memory_width_of(e.width), base: e.base },
            },
        ),
        None => None,
    }
}

/// A semantic instruction carries the address, size and operations of its IR
/// instruction and summarises their register, memory and flag effects.
pub open spec fn instruction_lowered(ir: IrInstruction, s: SemanticInstruction) -> bool {
    &&& s.address == ir.address
    &&& s.size == ir.size
    &&& s.ops@ == ir.ops@
    &&& sorted_set_of(s.reads@, all_reads(ir.ops@))
    &&& sorted_set_of(s.writes@, all_writes(ir.ops@))
    &&& s.memory == semantic_memory(first_memory(ir.ops@))
    &&& s.flags == (FlagEffect { read: reads_any_spec(all_flags(ir.ops@)), write: writes_any_spec(all_flags(ir.ops@)) })
}

fn copy_ops(v: &Vec<IrOp>) -> (r: Vec<IrOp>)
    ensures
        r@ == v@,
{
    let mut out: Vec<IrOp> = Vec::new();
    let mut k: usize = 0;
    while k < v.len()
        invariant
            k <= v@.len(),
            out@ == v@.subrange(0, k as int),
        decreases v@.len() - k,
    {
        out.push(v[k]);
        k = k + 1;
    }
    proof {
        assert(out@ =~= v@);
    }
    out
}

pub fn semantic_instruction(ir: &IrInstruction) -> (s: SemanticInstruction)
    ensures
        instruction_lowered(*ir, s),
{
    let memory = match ir.memory() {
        Some(m) => {
            let width = memory_width(m.width);
            Some(
                match m.kind {
                    IrMemoryKind::Read => MemoryEffect::Read { width, base: m.base },
                    IrMemoryKind::Write => MemoryEffect::Write { width, base: m.base },
                    IrMemoryKind::ReadWrite => MemoryEffect::ReadWrite { width, base: m.base },
                },
            )
        },
        None => None,
    };
    let flags = ir.flags();
    SemanticInstruction {
        address: ir.address,
        size: ir.size,
        ops: copy_ops(&ir.ops),
        reads: ir.reads(),
        writes: ir.writes(),
        memory,
        flags: FlagEffect { read: flags.reads_any(), write: flags.writes_any() },
    }
}

/// The control effect of the last instruction that has one.
pub open spec fn block_effect(ins: Seq<SemanticInstruction>) -> IrControlEffect
    decreases ins.len(),
{
    if ins.len() == 0 {
        IrControlEffect::Sequential
    } else if last_control(ins.last().ops@) != IrControlEffect::Sequential {
        last_control(ins.last().ops@)
    } else {
        block_effect(ins.drop_last())
    }
}

/// The comment of the last software interrupt among `ops`.
pub open spec fn swi_comment(ops: Seq<IrOp>) -> Option<u32>
    decreases ops.len(),
{
    if ops.len() == 0 {
        None
    } else {
        match ops.last() {
            IrOp::ArmExtended { op: ArmExtended::SoftwareInterrupt { comment } } => Some(comment),
            IrOp::ThumbExtended { op: ThumbExtended::SoftwareInterrupt { comment } } => Some(comment as u32),
            _ => swi_comment(ops.drop_last()),
        }
    }
}

/// How control leaves a block, from the last control effect among its
/// instructions.
pub open spec fn terminator_of(mode: Mode, ins: Seq<SemanticInstruction>) -> SemanticTerminator {
    match block_effect(ins) {
        IrControlEffect::Branch { target, condition, link } => if link {
            SemanticTerminator::Call { target, condition }
        } else {
            SemanticTerminator::Branch { target, condition }
        },
        IrControlEffect::BranchExchange { register, link } => if register == 14 && !link {
            SemanticTerminator::Return
        } else if link {
            SemanticTerminator::IndirectCall { register, mode }
        } else {
            SemanticTerminator::IndirectBranch { register }
        },
        IrControlEffect::Unknown => if ins.len() > 0 {
            match swi_comment(ins.last().ops@) {
                Some(comment) => SemanticTerminator::SoftwareInterrupt { comment },
                None => SemanticTerminator::Unknown,
            }
        } else {
            SemanticTerminator::Unknown
        },
        IrControlEffect::Sequential => SemanticTerminator::Fallthrough,
    }
}

/// Terminators after which no block of the program runs next.
pub open spec fn ends_execution(t: SemanticTerminator) -> bool {
    t is Return || t is IndirectBranch || t is Unknown
}

pub(crate) fn software_interrupt_comment(ops: &Vec<IrOp>) -> (r: Option<u32>)
    ensures
        r == swi_comment(ops@),
{
    let mut i: usize = ops.len();
    proof {
        assert(ops@.subrange(0, ops@.len() as int) =~= ops@);
    }
    while i > 0
        invariant
            i <= ops.len(),
            swi_comment(ops@) == swi_comment(ops@.subrange(0, i as int)),
        decreases i,
    {
        proof {
            let prefix = ops@.subrange(0, i as int);
            assert(prefix.last() == ops@[i - 1]);
            assert(prefix.drop_last() == ops@.subrange(0, i - 1));
        }
        match ops[i - 1] {
            IrOp::ArmExtended { op: ArmExtended::SoftwareInterrupt { comment } } => {
                return Some(comment);
            },
            IrOp::ThumbExtended { op: ThumbExtended::SoftwareInterrupt { comment } } => {
                return Some(comment as u32);
            },
            _ => {},
        }
        i = i - 1;
    }
    None
}

pub fn terminator(mode: Mode, ins: &Vec<SemanticInstruction>) -> (r: SemanticTerminator)
    ensures
        r == terminator_of(mode, ins@),
{
    let mut i: usize = ins.len();
    proof {
        assert(ins@.subrange(0, ins@.len() as int) =~= ins@);
    }
    let mut effect = IrControlEffect::Sequential;
    while i > 0
        invariant_except_break
            effect == IrControlEffect::Sequential,
        invariant
            i <= ins.len(),
            block_effect(ins@) == block_effect(ins@.subrange(0, i as int)),
        ensures
            effect == block_effect(ins@),
        decreases i,
    {
        proof {
            let prefix = ins@.subrange(0, i as int);
            assert(prefix.last() == ins@[i - 1]);
            assert(prefix.drop_last() == ins@.subrange(0, i - 1));
        }
        let c = ins[i - 1].control_effect();
        if !matches!(c, IrControlEffect::Sequential) {
            effect = c;
            break;
        }
        i = i - 1;
    }
    proof {
        if i == 0 {
            assert(ins@.subrange(0, 0) =~= Seq::<SemanticInstruction>::empty());
        }
    }
    match effect {
        IrControlEffect::Branch { target, condition, link } => if link {
            SemanticTerminator::Call { target, condition }
        } else {
            SemanticTerminator::Branch { target, condition }
        },
        IrControlEffect::BranchExchange { register, link } => if register == 14 && !link {
            SemanticTerminator::Return
        } else if link {
            SemanticTerminator::IndirectCall { register, mode }
        } else {
            SemanticTerminator::IndirectBranch { register }
        },
        IrControlEffect::Unknown => if ins.len() > 0 {
            match software_interrupt_comment(&ins[ins.len() - 1].ops) {
                Some(comment) => SemanticTerminator::SoftwareInterrupt { comment },
                None => SemanticTerminator::Unknown,
            }
        } else {
            SemanticTerminator::Unknown
        },
        IrControlEffect::Sequential => SemanticTerminator::Fallthrough,
    }
}

/// A semantic block is its source block's identity, lowered instructions,
/// terminator, and the source successors unless control ends there.
pub open spec fn block_lowered(source: BasicBlock, s: SemanticBlock) -> bool {
    &&& s.id == source.id
    &&& s.address == source.key.address
    &&& s.mode == source.key.mode
    &&& s.instructions@.len() == source.ir@.len()
    &&& forall|m: int| 0 <= m < s.instructions@.len() ==> instruction_lowered(source.ir@[m], #[trigger] s.instructions@[m])
    &&& s.terminator == terminator_of(s.mode, s.instructions@)
    &&& s.successors@ == if ends_execution(s.terminator) {
        Seq::empty()
    } else {
        source.successors@
    }
}

pub fn lower_block(source: &BasicBlock) -> (s: SemanticBlock)
    ensures
        block_lowered(*source, s),
{
    let mut instructions: Vec<SemanticInstruction> = Vec::new();
    let mut m: usize = 0;
    while m < source.ir.len()
        invariant
            m <= source.ir@.len(),
            instructions@.len() == m,
            forall|j: int| 0 <= j < m ==> instruction_lowered(source.ir@[j], #[trigger] instructions@[j]),
        decreases source.ir@.len() - m,
    {
        instructions.push(semantic_instruction(&source.ir[m]));
        m = m + 1;
    }
    let term = terminator(source.key.mode, &instructions);
    let successors = match term {
        SemanticTerminator::Return | SemanticTerminator::IndirectBranch { .. } | SemanticTerminator::Unknown => Vec::new(),
        _ => copy_ids(&source.successors),
    };
    SemanticBlock { id: source.id, address: source.key.address, mode: source.key.mode, instructions, successors, terminator: term }
}

/// Every function block names a block of the graph.
pub open spec fn blocks_exist(cfg: ControlFlowGraph, fg: FunctionControlFlowGraph) -> bool {
    forall|f: int, k: int| 0 <= f < fg.functions@.len() && 0 <= k < fg.functions@[f].blocks@.len() ==> (#[trigger] fg.functions@[f].blocks@[k]).0
        < cfg.blocks@.len()
}

/// The semantic program built from a graph and its functions.
pub open spec fn program_lowered(cfg: ControlFlowGraph, fg: FunctionControlFlowGraph, sp: SemanticProgram) -> bool {
    let fns = fg.functions@;
    &&& sp.entry == fg.entry
    &&& sp.block_to_function@ == fg.block_to_function@
    &&& sp.functions@.len() == fns.len()
    &&& forall|f: int| 0 <= f < fns.len() ==> {
        let sf = #[trigger] sp.functions@[f];
        &&& sf.id == fns[f].id
        &&& sf.entry == fns[f].entry
        &&& sf.successors@ == fns[f].successors@
        &&& call_views(sf.calls@) == call_views(fns[f].call_sites@)
        &&& sf.returns@ == fns[f].return_sites@
        &&& sf.blocks@.len() == fns[f].blocks@.len()
        &&& forall|k: int| 0 <= k < sf.blocks@.len() ==> block_lowered(cfg.blocks@[fns[f].blocks@[k].0 as int], #[trigger] sf.blocks@[k])
    }
}

fn copy_function_ids(v: &Vec<FunctionId>) -> (r: Vec<FunctionId>)
    ensures
        r@ == v@,
{
    let mut out: Vec<FunctionId> = Vec::new();
    let mut k: usize = 0;
    while k < v.len()
        invariant
            k <= v@.len(),
            out@ == v@.subrange(0, k as int),
        decreases v@.len() - k,
    {
        out.push(v[k]);
        k = k + 1;
    }
    proof {
        assert(out@ =~= v@);
    }
    out
}

fn copy_calls(v: &Vec<CallSite>) -> (r: Vec<CallSite>)
    ensures
        call_views(r@) == call_views(v@),
{
    let mut out: Vec<CallSite> = Vec::new();
    let mut k: usize = 0;
    while k < v.len()
        invariant
            k <= v@.len(),
            out@.len() == k,
            forall|j: int| 0 <= j < k ==> view_call(#[trigger] out@[j]) == view_call(v@[j]),
        decreases v@.len() - k,
    {
        out.push(copy_call(&v[k]));
        k = k + 1;
    }
    proof {
        assert(call_views(out@) =~= call_views(v@));
    }
    out
}

fn copy_owners(v: &Vec<Option<FunctionId>>) -> (r: Vec<Option<FunctionId>>)
    ensures
        r@ == v@,
{
    let mut out: Vec<Option<FunctionId>> = Vec::new();
    let mut k: usize = 0;
    while k < v.len()
        invariant
            k <= v@.len(),
            out@ == v@.subrange(0, k as int),
        decreases v@.len() - k,
    {
        out.push(v[k]);
        k = k + 1;
    }
    proof {
        assert(out@ =~= v@);
    }
    out
}

/// Lowers every block of every function; `None` when a function names a
/// block the graph does not have, with that function and block.
pub fn lower_program(program: &Program, functions: &FunctionControlFlowGraph) -> (r: Result<SemanticProgram, (usize, usize)>)
    ensures
        match r {
            Ok(sp) => blocks_exist(program.cfg, *functions) && program_lowered(program.cfg, *functions, sp),
            Err((f, b)) => !blocks_exist(program.cfg, *functions) && exists|k: int|
                f < functions.functions@.len() && 0 <= k < functions.functions@[f as int].blocks@.len() && functions.functions@[f as int].blocks@[k].0
                    == b && b >= program.cfg.blocks@.len(),
        },
{
    let cfg = &program.cfg;
    let mut out: Vec<SemanticFunction> = Vec::new();
    let mut f: usize = 0;
    while f < functions.functions.len()
        invariant
            *cfg == program.cfg,
            f <= functions.functions@.len(),
            out@.len() == f,
            forall|g: int, k: int| 0 <= g < f && 0 <= k < functions.functions@[g].blocks@.len() ==> (#[trigger] functions.functions@[g].blocks@[k]).0
                < cfg.blocks@.len(),
            forall|g: int| 0 <= g < f ==> {
                let sf = #[trigger] out@[g];
                let fg = functions.functions@[g];
                &&& sf.id == fg.id
                &&& sf.entry == fg.entry
                &&& sf.successors@ == fg.successors@
                &&& call_views(sf.calls@) == call_views(fg.call_sites@)
                &&& sf.returns@ == fg.return_sites@
                &&& sf.blocks@.len() == fg.blocks@.len()
                &&& forall|k: int| 0 <= k < sf.blocks@.len() ==> block_lowered(cfg.blocks@[fg.blocks@[k].0 as int], #[trigger] sf.blocks@[k])
            },
        decreases functions.functions@.len() - f,
    {
        let function = &functions.functions[f];
        let mut blocks: Vec<SemanticBlock> = Vec::new();
        let mut k: usize = 0;
        while k < function.blocks.len()
            invariant
                *cfg == program.cfg,
                f < functions.functions@.len(),
                *function == functions.functions@[f as int],
                k <= function.blocks@.len(),
                blocks@.len() == k,
                forall|j: int| 0 <= j < k ==> (#[trigger] function.blocks@[j]).0 < cfg.blocks@.len(),
                forall|j: int| 0 <= j < k ==> block_lowered(cfg.blocks@[function.blocks@[j].0 as int], #[trigger] blocks@[j]),
            decreases function.blocks@.len() - k,
        {
            let id = function.blocks[k].0;
            if id >= cfg.blocks.len() {
                proof {
                    assert(functions.functions@[f as int].blocks@[k as int].0 == id);
                    assert(!blocks_exist(program.cfg, *functions));
                }
                return Err((f, id));
            }
            blocks.push(lower_block(&cfg.blocks[id]));
            k = k + 1;
        }
        out.push(SemanticFunction {
            id: function.id,
            entry: function.entry,
            blocks,
            successors: copy_function_ids(&function.successors),
            calls: copy_calls(&function.call_sites),
            returns: copy_returns(&function.return_sites),
        });
        f = f + 1;
    }
    Ok(SemanticProgram { entry: functions.entry, functions: out, block_to_function: copy_owners(&functions.block_to_function) })
}

/// Lowers the recovered functions of a program to semantic IR and checks
/// the result against both; the error says which function names a missing
/// block, or which check the lowered program fails.
pub fn build_semantic_program(program: &Program, functions: &FunctionControlFlowGraph) -> (r: Result<SemanticProgram, String>)
    ensures
        match r {
            Ok(sp) => blocks_exist(program.cfg, *functions) && program_lowered(program.cfg, *functions, sp) && semantic_valid(
                program.cfg,
                *functions,
                sp,
            ),
            Err(_) => !blocks_exist(program.cfg, *functions) || exists|sp: SemanticProgram|
                program_lowered(program.cfg, *functions, sp) && !semantic_valid(program.cfg, *functions, sp),
        },
{
    match lower_program(program, functions) {
        Err((f, b)) => {
            let mut e = numbered("function ", functions.functions[f].id.0, " references missing block ");
            push_decimal(&mut e, b);
            Err(e)
        },
        Ok(sp) => match validate_semantic_program(program, functions, &sp) {
            Ok(()) => Ok(sp),
            Err(e) => Err(e),
        },
    }
}

} // verus!
