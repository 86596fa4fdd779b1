//! Rust source generation from the semantic program.
pub mod arm;
pub mod blocks;
pub mod common;
pub mod dispatcher;
pub mod linking;
pub mod operands;
pub mod ops;
pub mod terminators;
pub mod thumb;

use vstd::prelude::*;
use vstd::string::StringExecFns;

use crate::cfg::hardening::cfg_valid;
use crate::cfg::{BlockId, ControlFlowGraph, Program};
use crate::decoder::{Condition, Mode};
use crate::function::{discover_functions, graph_exact, walkable, FunctionControlFlowGraph};
use crate::ir::IrOp;
use crate::semantic_ir::lower::{blocks_exist, build_semantic_program, program_lowered};
use crate::semantic_ir::validate::semantic_valid;
use crate::semantic_ir::{SemanticBlock, SemanticProgram, SemanticTerminator};
use crate::text::{bool_text, dec_u8, hex_prefixed, push_bool, push_hex_prefixed, push_u8};

use self::blocks::{codegen_ready, find_block};
use self::common::{block_name, block_name_text, mode_bool};
use self::terminators::block_in_graph;

pub use self::common::RustModule;

verus! {

/// The position of a condition in the order the decoder lists conditions.
pub open spec fn condition_index(c: Condition) -> u8 {
    match c {
        Condition::Al => 0,
        Condition::Eq => 1,
        Condition::Ne => 2,
        Condition::Cs => 3,
        Condition::Cc => 4,
        Condition::Mi => 5,
        Condition::Pl => 6,
        Condition::Vs => 7,
        Condition::Vc => 8,
        Condition::Hi => 9,
        Condition::Ls => 10,
        Condition::Ge => 11,
        Condition::Lt => 12,
        Condition::Gt => 13,
        Condition::Le => 14,
    }
}

fn condition_code(condition: Condition) -> (r: u8)
    ensures
        r == condition_index(condition),
{
    match condition {
        Condition::Al => 0,
        Condition::Eq => 1,
        Condition::Ne => 2,
        Condition::Cs => 3,
        Condition::Cc => 4,
        Condition::Mi => 5,
        Condition::Pl => 6,
        Condition::Vs => 7,
        Condition::Vc => 8,
        Condition::Hi => 9,
        Condition::Ls => 10,
        Condition::Ge => 11,
        Condition::Lt => 12,
        Condition::Gt => 13,
        Condition::Le => 14,
    }
}

/// A call to the runtime's handler for an instruction nothing here executes.
pub open spec fn unimplemented_after(s: Seq<char>, address: u32, raw: u32, mode: Seq<char>) -> Seq<char> {
    s + "    rt.unimplemented("@ + hex_prefixed((address) as nat, 8) + ", "@ + hex_prefixed((raw) as nat, 8) + ", \""@ + mode + "\");\n"@
}

fn emit_unimplemented(out: &mut String, address: u32, raw: u32, mode: &str)
    ensures
        final(out)@ == unimplemented_after(old(out)@, address, raw, mode@),
{
    out.append("    rt.unimplemented(");
    push_hex_prefixed(out, address, 8);
    out.append(", ");
    push_hex_prefixed(out, raw, 8);
    out.append(", \"");
    out.append(mode);
    out.append("\");\n");
}

/// The id of the first block of the graph that starts at `target` in `mode`.
pub open spec fn first_block_at(cfg: ControlFlowGraph, target: u32, mode: Mode, i: nat) -> Option<BlockId>
    decreases cfg.blocks@.len() - i,
{
    if i >= cfg.blocks@.len() {
        None
    } else if cfg.blocks@[i as int].key.address == target && cfg.blocks@[i as int].key.mode == mode {
        Some(cfg.blocks@[i as int].id)
    } else {
        first_block_at(cfg, target, mode, i + 1)
    }
}

fn direct_target(program: &Program, target: u32, mode: Mode) -> (r: Option<BlockId>)
    ensures
        r == first_block_at(program.cfg, target, mode, 0),
{
    let mut i: usize = 0;
    while i < program.cfg.blocks.len()
        invariant
            i <= program.cfg.blocks@.len(),
            first_block_at(program.cfg, target, mode, 0) == first_block_at(program.cfg, target, mode, i as nat),
        decreases program.cfg.blocks@.len() - i,
    {
        let block = &program.cfg.blocks[i];
        if block.key.address == target && block.key.mode == mode {
            return Some(block.id);
        }
        i = i + 1;
    }
    None
}

/// A direct branch or call as a jump: a call links and dispatches by
/// address (under its condition); a branch jumps to the block function at
/// its target when the graph has one, else dispatches by address.
pub open spec fn direct_branch_after(
    s: Seq<char>,
    cfg: ControlFlowGraph,
    target: u32,
    mode: Mode,
    condition: Condition,
    link: bool,
    ins_address: u32,
    ins_size: u8,
) -> Seq<char> {
    let thumb = mode == Mode::Thumb;
    if link {
        if condition == Condition::Al {
            let t = s + "        rt.link_from_instruction("@ + hex_prefixed((ins_address) as nat, 8) + ", "@ + dec_u8(ins_size) + ", "@ + bool_text(thumb) + ");\n"@;
            t + "        return rt.dispatch_mode("@ + hex_prefixed((target) as nat, 8) + ", "@ + bool_text(thumb) + ");\n"@
        } else {
            let t1 = s + "    if rt.condition_code("@ + dec_u8(condition_index(condition)) + ") {\n"@;
            let t2 = t1 + "        rt.link_from_instruction("@ + hex_prefixed((ins_address) as nat, 8) + ", "@ + dec_u8(ins_size) + ", "@ + bool_text(thumb) + ");\n"@;
            let t3 = t2 + "        return rt.dispatch_mode("@ + hex_prefixed((target) as nat, 8) + ", "@ + bool_text(thumb) + ");\n"@;
            t3 + "    }\n"@
        }
    } else {
        let direct = first_block_at(cfg, target, mode, 0);
        if direct is None {
            if condition == Condition::Al {
                s + "    return rt.dispatch_mode("@ + hex_prefixed((target) as nat, 8) + ", "@ + bool_text(thumb) + ");\n"@
            } else {
                s + "    if rt.condition_code("@ + dec_u8(condition_index(condition)) + ") { return rt.dispatch_mode("@ + hex_prefixed((target) as nat, 8) + ", "@ + bool_text(thumb) + "); }\n"@
            }
        } else {
            if condition == Condition::Al {
                s + "    return "@ + block_name_text(direct.unwrap().0 as nat, mode, target) + "(rt);\n"@
            } else {
                s + "    if rt.condition_code("@ + dec_u8(condition_index(condition)) + ") { return "@ + block_name_text(direct.unwrap().0 as nat, mode, target) + "(rt); }\n"@
            }
        }
    }
}

fn emit_direct_branch(
    out: &mut String,
    program: &Program,
    target: u32,
    mode: Mode,
    condition: Condition,
    link: bool,
    ins_address: u32,
    ins_size: u8,
)
    ensures
        final(out)@ == direct_branch_after(old(out)@, program.cfg, target, mode, condition, link, ins_address, ins_size),
{
    let thumb = mode_bool(mode);
    let cond = condition_code(condition);
    if link {
        if matches!(condition, Condition::Al) {
            out.append("        rt.link_from_instruction(");
            push_hex_prefixed(out, ins_address, 8);
            out.append(", ");
            push_u8(out, ins_size);
            out.append(", ");
            push_bool(out, thumb);
            out.append(");\n");
            out.append("        return rt.dispatch_mode(");
            push_hex_prefixed(out, target, 8);
            out.append(", ");
            push_bool(out, thumb);
            out.append(");\n");
        } else {
            out.append("    if rt.condition_code(");
            push_u8(out, cond);
            out.append(") {\n");
            out.append("        rt.link_from_instruction(");
            push_hex_prefixed(out, ins_address, 8);
            out.append(", ");
            push_u8(out, ins_size);
            out.append(", ");
            push_bool(out, thumb);
            out.append(");\n");
            out.append("        return rt.dispatch_mode(");
            push_hex_prefixed(out, target, 8);
            out.append(", ");
            push_bool(out, thumb);
            out.append(");\n");
            out.append("    }\n");
        }
        return;
    }
    let direct = direct_target(program, target, mode);
    match direct {
        None => {
            if matches!(condition, Condition::Al) {
                out.append("    return rt.dispatch_mode(");
                push_hex_prefixed(out, target, 8);
                out.append(", ");
                push_bool(out, thumb);
                out.append(");\n");
            } else {
                out.append("    if rt.condition_code(");
                push_u8(out, cond);
                out.append(") { return rt.dispatch_mode(");
                push_hex_prefixed(out, target, 8);
                out.append(", ");
                push_bool(out, thumb);
                out.append("); }\n");
            }
        },
        Some(block_id) => {
            let name = block_name(block_id, mode, target);
            if matches!(condition, Condition::Al) {
                out.append("    return ");
                out.append(name.as_str());
                out.append("(rt);\n");
            } else {
                out.append("    if rt.condition_code(");
                push_u8(out, cond);
                out.append(") { return ");
                out.append(name.as_str());
                out.append("(rt); }\n");
            }
        },
    }
}

/// An operation run by the runtime: the instruction boundary, then the
/// raw instruction handed to the runtime (branches become jumps, unknown
/// instructions a call to the unimplemented handler), then a tick unless
/// control left.
pub open spec fn raw_op_after(
    s: Seq<char>,
    cfg: ControlFlowGraph,
    ins_address: u32,
    ins_raw: u32,
    ins_size: u8,
    mode: Mode,
    op: IrOp,
) -> Seq<char> {
    let thumb = mode == Mode::Thumb;
    let t1 = s + "    rt.enter_instruction("@ + hex_prefixed((ins_address) as nat, 8) + ", "@ + bool_text(thumb) + ");\n"@;
    match op {
        IrOp::Branch { target, condition, link } => direct_branch_after(t1, cfg, target, mode, condition, link, ins_address, ins_size),
        IrOp::BranchExchange { register, link } => {
            let t2 = if link {
                t1 + "    rt.link_from_instruction("@ + hex_prefixed((ins_address) as nat, 8) + ", "@ + dec_u8(ins_size) + ", "@ + bool_text(thumb) + ");\n"@
            } else {
                t1
            };
            t2 + "    return rt.dispatch_exchange(rt.read_reg("@ + dec_u8(register) + "));\n"@
        },
        _ => {
            let t2 = match op {
                IrOp::Nop => t1,
                IrOp::Unknown { address, raw, mode: umode } => unimplemented_after(
                    t1,
                    address,
                    raw,
                    if umode == Mode::Arm {
                        "Arm"@
                    } else {
                        "Thumb"@
                    },
                ),
                _ => if mode == Mode::Arm {
                    t1 + "    if let Some((target, thumb)) = rt.execute_arm_instruction("@ + hex_prefixed((ins_raw) as nat, 8) + ") { return rt.dispatch_mode(target, thumb); }\n"@
                } else {
                    t1 + "    if let Some((target, thumb)) = rt.execute_thumb_instruction("@ + hex_prefixed((ins_raw) as nat, 4) + ") { return rt.dispatch_mode(target, thumb); }\n"@
                },
            };
            t2 + "    rt.tick(1);\n"@
        },
    }
}

fn emit_op(out: &mut String, program: &Program, ins_address: u32, ins_raw: u32, ins_size: u8, mode: Mode, op: &IrOp)
    ensures
        final(out)@ == raw_op_after(old(out)@, program.cfg, ins_address, ins_raw, ins_size, mode, *op),
{
    let thumb = mode_bool(mode);
    out.append("    rt.enter_instruction(");
    push_hex_prefixed(out, ins_address, 8);
    out.append(", ");
    push_bool(out, thumb);
    out.append(");\n");
    match *op {
        IrOp::Nop => {},
        IrOp::Branch { target, condition, link } => {
            emit_direct_branch(out, program, target, mode, condition, link, ins_address, ins_size);
            return;
        },
        IrOp::BranchExchange { register, link } => {
            if link {
                out.append("    rt.link_from_instruction(");
                push_hex_prefixed(out, ins_address, 8);
                out.append(", ");
                push_u8(out, ins_size);
                out.append(", ");
                push_bool(out, thumb);
                out.append(");\n");
            }
            out.append("    return rt.dispatch_exchange(rt.read_reg(");
            push_u8(out, register);
            out.append("));\n");
            return;
        },
        IrOp::Unknown { address, raw, mode: umode } => {
            let name = match umode {
                Mode::Arm => "Arm",
                Mode::Thumb => "Thumb",
            };
            proof {
                reveal_strlit("Arm");
                reveal_strlit("Thumb");
            }
            emit_unimplemented(out, address, raw, name);
        },
        _ => {
            if thumb {
                out.append("    if let Some((target, thumb)) = rt.execute_thumb_instruction(");
                push_hex_prefixed(out, ins_raw, 4);
                out.append(") { return rt.dispatch_mode(target, thumb); }\n");
            } else {
                out.append("    if let Some((target, thumb)) = rt.execute_arm_instruction(");
                push_hex_prefixed(out, ins_raw, 8);
                out.append(") { return rt.dispatch_mode(target, thumb); }\n");
            }
        },
    }
    out.append("    rt.tick(1);\n");
}

/// The name of the block function of a graph block.
pub open spec fn successor_name_text(cfg: ControlFlowGraph, successor: BlockId) -> Seq<char> {
    let next = cfg.blocks@[successor.0 as int];
    block_name_text(next.id.0 as nat, next.key.mode, next.key.address)
}

pub open spec fn successor_after(s: Seq<char>, cfg: ControlFlowGraph, successor: BlockId) -> Seq<char> {
    s + "    return "@ + successor_name_text(cfg, successor) + "(rt);\n"@
}

fn emit_successor(out: &mut String, program: &Program, successor: BlockId)
    requires
        successor.0 < program.cfg.blocks@.len(),
    ensures
        final(out)@ == successor_after(old(out)@, program.cfg, successor),
{
    let next = &program.cfg.blocks[successor.0];
    let name = block_name(next.id, next.key.mode, next.key.address);
    out.append("    return ");
    out.append(name.as_str());
    out.append("(rt);\n");
}

/// The first of `ids[k..]` whose block does not start at `target`.
pub open spec fn first_elsewhere(cfg: ControlFlowGraph, ids: Seq<BlockId>, target: u32, k: nat) -> Option<BlockId>
    decreases ids.len() - k,
{
    if k >= ids.len() {
        None
    } else if cfg.blocks@[ids[k as int].0 as int].key.address != target {
        Some(ids[k as int])
    } else {
        first_elsewhere(cfg, ids, target, k + 1)
    }
}

fn other_successor(program: &Program, b: &SemanticBlock, target: u32) -> (r: Option<BlockId>)
    requires
        block_in_graph(program.cfg, *b),
    ensures
        r == first_elsewhere(program.cfg, b.successors@, target, 0),
        r matches Some(id) ==> id.0 < program.cfg.blocks@.len(),
{
    let mut m: usize = 0;
    while m < b.successors.len()
        invariant
            block_in_graph(program.cfg, *b),
            m <= b.successors@.len(),
            first_elsewhere(program.cfg, b.successors@, target, 0) == first_elsewhere(program.cfg, b.successors@, target, m as nat),
        decreases b.successors@.len() - m,
    {
        let id = b.successors[m];
        if program.cfg.blocks[id.0].key.address != target {
            return Some(id);
        }
        m = m + 1;
    }
    None
}

/// The operations of instructions `i..`, each with its source's raw word.
pub open spec fn raw_instructions_after(s: Seq<char>, cfg: ControlFlowGraph, b: SemanticBlock, i: nat) -> Seq<char>
    decreases b.instructions@.len() - i,
{
    let src = cfg.blocks@[b.id.0 as int];
    if i >= b.instructions@.len() || i >= src.instructions@.len() {
        s
    } else {
        let ins = b.instructions@[i as int];
        raw_instructions_after(raw_ops_after(s, cfg, ins.address, src.instructions@[i as int].raw, ins.size, b.mode, ins.ops@, 0), cfg, b, i + 1)
    }
}

/// The operations `ops[j..]` of one instruction.
pub open spec fn raw_ops_after(
    s: Seq<char>,
    cfg: ControlFlowGraph,
    address: u32,
    raw: u32,
    size: u8,
    mode: Mode,
    ops: Seq<IrOp>,
    j: nat,
) -> Seq<char>
    decreases ops.len() - j,
{
    if j >= ops.len() {
        s
    } else {
        raw_ops_after(raw_op_after(s, cfg, address, raw, size, mode, ops[j as int]), cfg, address, raw, size, mode, ops, j + 1)
    }
}

/// How a runtime-executed block ends: a return dispatches on LR, a
/// conditional branch or call continues at the other successor (or halts),
/// a fallthrough or software interrupt at the first successor (or halts).
pub open spec fn raw_terminator_after(s: Seq<char>, cfg: ControlFlowGraph, b: SemanticBlock) -> Seq<char> {
    match b.terminator {
        SemanticTerminator::Return => s + "    return rt.dispatch_exchange(rt.read_reg(14));\n"@,
        SemanticTerminator::IndirectBranch { .. } | SemanticTerminator::IndirectCall { .. } => s + "    unreachable!(\"dynamic branch terminator emitted above\");\n"@,
        SemanticTerminator::Branch { condition, target } | SemanticTerminator::Call { condition, target } => {
            if condition != Condition::Al {
                let next = first_elsewhere(cfg, b.successors@, target, 0);
                if next is Some {
                    successor_after(s, cfg, next.unwrap())
                } else {
                    s + "    return rt.halt();\n"@
                }
            } else {
                s
            }
        },
        SemanticTerminator::Fallthrough | SemanticTerminator::SoftwareInterrupt { .. } => {
            if b.successors@.len() > 0 {
                successor_after(s, cfg, b.successors@[0])
            } else {
                s + "    return rt.halt();\n"@
            }
        },
        SemanticTerminator::Unknown => s + "    return rt.halt();\n"@,
    }
}

/// A block function whose operations the runtime executes.
pub open spec fn raw_block_after(s: Seq<char>, cfg: ControlFlowGraph, b: SemanticBlock) -> Seq<char> {
    let t1 = s + "#[inline(always)]\n"@;
    let t2 = t1 + "pub fn "@ + block_name_text(b.id.0 as nat, b.mode, b.address) + "(rt: &mut Runtime) -> ! {\n"@;
    let t3 = raw_instructions_after(t2, cfg, b, 0);
    let t4 = raw_terminator_after(t3, cfg, b);
    t4 + "}\n\n"@
}

fn emit_raw_ops(out: &mut String, program: &Program, address: u32, raw: u32, size: u8, mode: Mode, ops: &Vec<IrOp>)
    ensures
        final(out)@ == raw_ops_after(old(out)@, program.cfg, address, raw, size, mode, ops@, 0),
{
    let ghost target = raw_ops_after(out@, program.cfg, address, raw, size, mode, ops@, 0);
    let mut j: usize = 0;
    while j < ops.len()
        invariant
            j <= ops@.len(),
            raw_ops_after(out@, program.cfg, address, raw, size, mode, ops@, j as nat) == target,
        decreases ops@.len() - j,
    {
        emit_op(out, program, address, raw, size, mode, &ops[j]);
        j = j + 1;
    }
}

fn emit_block(out: &mut String, program: &Program, semantic: &SemanticProgram, block_id: BlockId)
    requires
        codegen_ready(program.cfg, *semantic),
        exists|f: int, k: int|
            0 <= f < semantic.functions@.len() && 0 <= k < semantic.functions@[f].blocks@.len() && (#[trigger] semantic.functions@[f].blocks@[k]).id
                == block_id,
    ensures
        exists|f: int, k: int|
            0 <= f < semantic.functions@.len() && 0 <= k < semantic.functions@[f].blocks@.len() && (#[trigger] semantic.functions@[f].blocks@[k]).id
                == block_id && final(out)@ == raw_block_after(old(out)@, program.cfg, semantic.functions@[f].blocks@[k]),
{
    let (f, k) = find_block(semantic, block_id);
    let b = &semantic.functions[f].blocks[k];
    proof {
        assert(block_in_graph(program.cfg, semantic.functions@[f as int].blocks@[k as int]));
    }
    let source = &program.cfg.blocks[block_id.0];
    let name = block_name(b.id, b.mode, b.address);
    out.append("#[inline(always)]\n");
    out.append("pub fn ");
    out.append(name.as_str());
    out.append("(rt: &mut Runtime) -> ! {\n");
    let ghost target = raw_instructions_after(out@, program.cfg, *b, 0);
    let mut i: usize = 0;
    while i < b.instructions.len() && i < source.instructions.len()
        invariant
            i <= b.instructions@.len(),
            b.id.0 < program.cfg.blocks@.len(),
            *source == program.cfg.blocks@[b.id.0 as int],
            raw_instructions_after(out@, program.cfg, *b, i as nat) == target,
        decreases b.instructions@.len() - i,
    {
        let ins = &b.instructions[i];
        emit_raw_ops(out, program, ins.address, source.instructions[i].raw, ins.size, b.mode, &ins.ops);
        i = i + 1;
    }
    match b.terminator {
        SemanticTerminator::Return => {
            out.append("    return rt.dispatch_exchange(rt.read_reg(14));\n");
        },
        SemanticTerminator::IndirectBranch { .. } | SemanticTerminator::IndirectCall { .. } => {
            out.append("    unreachable!(\"dynamic branch terminator emitted above\");\n");
        },
        SemanticTerminator::Branch { condition, target } | SemanticTerminator::Call { condition, target } => {
            if !matches!(condition, Condition::Al) {
                match other_successor(program, b, target) {
                    Some(id) => emit_successor(out, program, id),
                    None => {
                        out.append("    return rt.halt();\n");
                    },
                }
            }
        },
        SemanticTerminator::Fallthrough | SemanticTerminator::SoftwareInterrupt { .. } => {
            if b.successors.len() > 0 {
                emit_successor(out, program, b.successors[0]);
            } else {
                out.append("    return rt.halt();\n");
            }
        },
        SemanticTerminator::Unknown => {
            out.append("    return rt.halt();\n");
        },
    }
    out.append("}\n\n");
}

/// The name of the entry function's entry block.
pub open spec fn entry_name_text(cfg: ControlFlowGraph, sp: SemanticProgram) -> Seq<char> {
    let b = cfg.blocks@[sp.functions@[sp.entry.0 as int].entry.0 as int];
    block_name_text(b.id.0 as nat, b.key.mode, b.key.address)
}

/// The block functions of functions `f..`, blocks `k..` of function `f`.
pub open spec fn all_blocks_after(s: Seq<char>, cfg: ControlFlowGraph, sp: SemanticProgram, f: nat, k: nat) -> Seq<char>
    decreases sp.functions@.len() - f, sp.functions@[f as int].blocks@.len() - k,
{
    if f >= sp.functions@.len() {
        s
    } else if k >= sp.functions@[f as int].blocks@.len() {
        all_blocks_after(s, cfg, sp, f + 1, 0)
    } else {
        all_blocks_after(raw_block_after(s, cfg, sp.functions@[f as int].blocks@[k as int]), cfg, sp, f, k + 1)
    }
}

/// The module: its header, an entry function that enters the entry block,
/// then every block's function.
pub open spec fn module_text(cfg: ControlFlowGraph, sp: SemanticProgram, module_name: &str) -> Seq<char> {
    let s = Seq::<char>::empty();
    let t1 = s + "// @generated by gba-recompiler; do not edit.\n\n"@;
    let t2 = t1 + "use gba_runtime::Runtime;\n\n"@;
    let t3 = t2 + "pub fn "@ + module_name@ + "(rt: &mut Runtime) -> ! { "@ + entry_name_text(cfg, sp) + "(rt) }\n\n"@;
    all_blocks_after(t3, cfg, sp, 0, 0)
}

/// Generates a module whose functions run each block's instructions through
/// the runtime.
pub fn generate_semantic(program: &Program, semantic: &SemanticProgram, module_name: &str) -> (r: RustModule)
    requires
        codegen_ready(program.cfg, *semantic),
    ensures
        r.source@ == module_text(program.cfg, *semantic, module_name),
{
    let cfg = &program.cfg;
    let mut text = String::new();
    let out = &mut text;
    out.append("// @generated by gba-recompiler; do not edit.\n\n");
    out.append("use gba_runtime::Runtime;\n\n");
    let entry = &semantic.functions[semantic.entry.0];
    let entry_block = &cfg.blocks[entry.entry.0];
    let entry_name = block_name(entry_block.id, entry_block.key.mode, entry_block.key.address);
    out.append("pub fn ");
    out.append(module_name);
    out.append("(rt: &mut Runtime) -> ! { ");
    out.append(entry_name.as_str());
    out.append("(rt) }\n\n");
    let ghost target = all_blocks_after(out@, *cfg, *semantic, 0, 0);
    let mut f: usize = 0;
    while f < semantic.functions.len()
        invariant
            *cfg == program.cfg,
            codegen_ready(*cfg, *semantic),
            f <= semantic.functions@.len(),
            all_blocks_after(out@, *cfg, *semantic, f as nat, 0) == target,
        decreases semantic.functions@.len() - f,
    {
        let blocks = &semantic.functions[f].blocks;
        let mut k: usize = 0;
        while k < blocks.len()
            invariant
                *cfg == program.cfg,
                codegen_ready(*cfg, *semantic),
                f < semantic.functions@.len(),
                *blocks == semantic.functions@[f as int].blocks,
                k <= blocks@.len(),
                all_blocks_after(out@, *cfg, *semantic, f as nat, k as nat) == target,
            decreases blocks@.len() - k,
        {
            let ghost before = out@;
            proof {
                assert(semantic.functions@[f as int].blocks@[k as int].id == blocks@[k as int].id);
            }
            emit_block(out, program, semantic, blocks[k].id);
            proof {
                let (g, kk) = choose|g: int, kk: int|
                    0 <= g < semantic.functions@.len() && 0 <= kk < semantic.functions@[g].blocks@.len() && (#[trigger] semantic.functions@[g].blocks@[kk]).id
                        == blocks@[k as int].id && out@ == raw_block_after(before, *cfg, semantic.functions@[g].blocks@[kk]);
                if g != f || kk != k {
                    assert(semantic.functions@[g].blocks@[kk].id != semantic.functions@[f as int].blocks@[k as int].id);
                }
            }
            k = k + 1;
        }
        f = f + 1;
    }
    RustModule { source: text }
}

/// What code generation needs of a program: its functions can be recovered,
/// and whatever they lower to is valid and ready for generation.
pub open spec fn generation_ready(program: Program) -> bool {
    &&& walkable(program.cfg)
    &&& forall|fg: FunctionControlFlowGraph|
        #[trigger] graph_exact(program.cfg, fg) ==> blocks_exist(program.cfg, fg) && forall|sp: SemanticProgram|
            #[trigger] program_lowered(program.cfg, fg, sp) ==> semantic_valid(program.cfg, fg, sp) && codegen_ready(program.cfg, sp)
}

/// A recovered graph that passed validation can be walked for functions.
pub proof fn lemma_valid_graph_walkable(cfg: ControlFlowGraph, expected: nat)
    requires
        cfg_valid(cfg, expected),
    ensures
        walkable(cfg),
{
    assert forall|b: int, s: int| 0 <= b < cfg.blocks@.len() && 0 <= s < cfg.blocks@[b].successors@.len() implies (#[trigger] cfg.blocks@[b].successors@[s]).0
        < cfg.blocks@.len() by {
        assert(crate::cfg::hardening::block_well_formed(cfg.blocks@[b], cfg.blocks@.len()));
    }
}

/// A valid semantic program of a valid graph can be generated: lowering that
/// succeeds leaves nothing for code generation to refuse.
pub proof fn lemma_valid_program_generates(cfg: ControlFlowGraph, expected: nat, fg: FunctionControlFlowGraph, sp: SemanticProgram)
    requires
        cfg_valid(cfg, expected),
        semantic_valid(cfg, fg, sp),
    ensures
        codegen_ready(cfg, sp),
{
    lemma_valid_graph_walkable(cfg, expected);
    assert(crate::codegen::blocks::codegen_ready(cfg, sp)) by {
        assert(crate::semantic_ir::validate::function_shape_ok(cfg, sp, sp.entry.0 as int));
        assert forall|f: int, k: int|
            0 <= f < sp.functions@.len() && 0 <= k < sp.functions@[f].blocks@.len() implies block_in_graph(cfg, #[trigger] sp.functions@[f].blocks@[k]) by {
            assert(crate::semantic_ir::validate::block_ok(cfg, sp.functions@[f].blocks@[k]));
        }
        assert forall|f1: int, k1: int, f2: int, k2: int|
            0 <= f1 < sp.functions@.len() && 0 <= k1 < sp.functions@[f1].blocks@.len() && 0 <= f2 < sp.functions@.len() && 0 <= k2
                < sp.functions@[f2].blocks@.len() && (f1 != f2 || k1 != k2) implies ((#[trigger] sp.functions@[f1].blocks@[k1]).address
            != (#[trigger] sp.functions@[f2].blocks@[k2]).address || sp.functions@[f1].blocks@[k1].mode != sp.functions@[f2].blocks@[k2].mode) by {
            let b1 = sp.functions@[f1].blocks@[k1];
            let b2 = sp.functions@[f2].blocks@[k2];
            assert(crate::semantic_ir::validate::block_ok(cfg, b1));
            assert(crate::semantic_ir::validate::block_ok(cfg, b2));
            assert(b1.id != b2.id);
            let i1 = b1.id.0 as int;
            let i2 = b2.id.0 as int;
            assert(cfg.blocks@[i1].id == BlockId(i1 as usize));
            assert(cfg.blocks@[i2].id == BlockId(i2 as usize));
            if i1 < i2 {
                assert(cfg.blocks@[i1].key != cfg.blocks@[i2].key);
            } else {
                assert(cfg.blocks@[i2].key != cfg.blocks@[i1].key);
            }
        }
    }
}

/// Recovers the functions of a program, lowers them and generates the module.
pub fn generate(program: &Program, module_name: &str) -> (r: RustModule)
    requires
        generation_ready(*program),
    ensures
        exists|fg: FunctionControlFlowGraph, sp: SemanticProgram|
            graph_exact(program.cfg, fg) && program_lowered(program.cfg, fg, sp) && r.source@ == module_text(program.cfg, sp, module_name),
{
    let functions = discover_functions(program);
    match build_semantic_program(program, &functions) {
        Ok(semantic) => {
            proof {
                assert(graph_exact(program.cfg, functions));
                assert(program_lowered(program.cfg, functions, semantic));
            }
            generate_semantic(program, &semantic, module_name)
        },
        Err(_) => {
            proof {
                assert(graph_exact(program.cfg, functions));
                assert(blocks_exist(program.cfg, functions));
                if !blocks_exist(program.cfg, functions) {
                } else {
                    let sp = choose|sp: SemanticProgram| program_lowered(program.cfg, functions, sp) && !semantic_valid(program.cfg, functions, sp);
                    assert(program_lowered(program.cfg, functions, sp));
                }
            }
            RustModule { source: String::new() }
        },
    }
}

} // verus!
