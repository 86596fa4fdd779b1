//! Generated Rust for how control leaves a block.
use vstd::prelude::*;
use vstd::string::StringExecFns;

use crate::cfg::{BlockId, ControlFlowGraph, Program};
use crate::decoder::{Condition, Mode};
use crate::semantic_ir::{SemanticBlock, SemanticTerminator};
use crate::text::{bool_text, dec_u8, decimal, hex_prefixed, push_bool, push_decimal, push_hex_prefixed, push_u8};

use super::common::{condition_code, condition_number, mode_bool};
use super::ops::{mode_debug, mode_debug_text};

verus! {

/// `address + size`, wrapping at 2^32.
pub open spec fn next_address(address: u32, size: u8) -> u32 {
    if address + size > u32::MAX {
        (address + size - 0x1_0000_0000) as u32
    } else {
        (address + size) as u32
    }
}

fn wrapping_next(address: u32, size: u8) -> (r: u32)
    ensures
        r == next_address(address, size),
{
    let s = size as u32;
    if address > u32::MAX - s {
        s - (u32::MAX - address) - 1
    } else {
        address + s
    }
}

/// The address and size of the block's last instruction; the block's own
/// address and size zero when it has none.
pub open spec fn last_site(b: SemanticBlock) -> (u32, u8) {
    if b.instructions@.len() > 0 {
        (b.instructions@.last().address, b.instructions@.last().size)
    } else {
        (b.address, 0u8)
    }
}

fn last_instruction_site(b: &SemanticBlock) -> (r: (u32, u8))
    ensures
        r == last_site(*b),
{
    let n = b.instructions.len();
    if n > 0 {
        (b.instructions[n - 1].address, b.instructions[n - 1].size)
    } else {
        (b.address, 0)
    }
}

/// Every successor named by the graph's blocks is a block of the graph.
pub open spec fn graph_closed(cfg: ControlFlowGraph) -> bool {
    forall|i: int, k: int|
        0 <= i < cfg.blocks@.len() && 0 <= k < cfg.blocks@[i].successors@.len() ==> (#[trigger] cfg.blocks@[i].successors@[k]).0
            < cfg.blocks@.len()
}

/// The block is a block of the graph and names only blocks of the graph.
pub open spec fn block_in_graph(cfg: ControlFlowGraph, b: SemanticBlock) -> bool {
    &&& graph_closed(cfg)
    &&& b.id.0 < cfg.blocks@.len()
    &&& forall|k: int| 0 <= k < b.successors@.len() ==> (#[trigger] b.successors@[k]).0 < cfg.blocks@.len()
}

/// The address and mode of the first block among `ids[k..]` that does not
/// start at `target`.
pub open spec fn first_other(cfg: ControlFlowGraph, ids: Seq<BlockId>, target: u32, k: nat) -> Option<(u32, Mode)>
    decreases ids.len() - k,
{
    if k >= ids.len() {
        None
    } else {
        let key = cfg.blocks@[ids[k as int].0 as int].key;
        if key.address != target {
            Some((key.address, key.mode))
        } else {
            first_other(cfg, ids, target, k + 1)
        }
    }
}

/// Where a conditional branch goes when not taken: the first successor that
/// is not its target.
pub open spec fn fallthrough_spec(cfg: ControlFlowGraph, b: SemanticBlock, target: u32) -> Option<(u32, Mode)> {
    first_other(cfg, b.successors@, target, 0)
}

fn fallthrough_target(block: &SemanticBlock, program: &Program, target: u32) -> (r: Option<(u32, Mode)>)
    requires
        block_in_graph(program.cfg, *block),
    ensures
        r == fallthrough_spec(program.cfg, *block, target),
{
    let mut k: usize = 0;
    while k < block.successors.len()
        invariant
            block_in_graph(program.cfg, *block),
            k <= block.successors@.len(),
            first_other(program.cfg, block.successors@, target, 0) == first_other(program.cfg, block.successors@, target, k as nat),
        decreases block.successors@.len() - k,
    {
        let successor = &program.cfg.blocks[block.successors[k].0];
        if successor.key.address != target {
            return Some((successor.key.address, successor.key.mode));
        }
        k = k + 1;
    }
    None
}

/// The sole successor of the block's source block, if it has exactly one.
pub open spec fn source_successor_spec(cfg: ControlFlowGraph, b: SemanticBlock) -> Option<(u32, Mode)> {
    let ss = cfg.blocks@[b.id.0 as int].successors@;
    if ss.len() == 1 {
        let key = cfg.blocks@[ss[0].0 as int].key;
        Some((key.address, key.mode))
    } else {
        None
    }
}

fn source_successor(program: &Program, block: &SemanticBlock) -> (r: Option<(u32, Mode)>)
    requires
        block_in_graph(program.cfg, *block),
    ensures
        r == source_successor_spec(program.cfg, *block),
{
    let successors = &program.cfg.blocks[block.id.0].successors;
    if successors.len() == 1 {
        let successor = &program.cfg.blocks[successors[0].0];
        Some((successor.key.address, successor.key.mode))
    } else {
        None
    }
}

/// The first block among `ids[k..]` that does not start at `next`.
pub open spec fn first_not_at(cfg: ControlFlowGraph, ids: Seq<BlockId>, next: Option<u32>, k: nat) -> Option<(u32, Mode)>
    decreases ids.len() - k,
{
    if k >= ids.len() {
        None
    } else {
        let key = cfg.blocks@[ids[k as int].0 as int].key;
        if Some(key.address) != next {
            Some((key.address, key.mode))
        } else {
            first_not_at(cfg, ids, next, k + 1)
        }
    }
}

/// The callee of an indirect call whose target was resolved: the first
/// source successor other than the instruction after the call.
pub open spec fn indirect_call_spec(cfg: ControlFlowGraph, b: SemanticBlock) -> Option<(u32, Mode)> {
    let next = if b.instructions@.len() > 0 {
        Some(next_address(b.instructions@.last().address, b.instructions@.last().size))
    } else {
        None
    };
    first_not_at(cfg, cfg.blocks@[b.id.0 as int].successors@, next, 0)
}

fn indirect_call_target(program: &Program, block: &SemanticBlock) -> (r: Option<(u32, Mode)>)
    requires
        block_in_graph(program.cfg, *block),
    ensures
        r == indirect_call_spec(program.cfg, *block),
{
    let n = block.instructions.len();
    let next = if n > 0 {
        Some(wrapping_next(block.instructions[n - 1].address, block.instructions[n - 1].size))
    } else {
        None
    };
    let source = &program.cfg.blocks[block.id.0];
    let ghost ids = source.successors@;
    let mut k: usize = 0;
    while k < source.successors.len()
        invariant
            block_in_graph(program.cfg, *block),
            block.id.0 < program.cfg.blocks@.len(),
            *source == program.cfg.blocks@[block.id.0 as int],
            ids == source.successors@,
            k <= ids.len(),
            indirect_call_spec(program.cfg, *block) == first_not_at(program.cfg, ids, next, k as nat),
        decreases ids.len() - k,
    {
        proof {
            assert(program.cfg.blocks@[block.id.0 as int].successors@[k as int].0 < program.cfg.blocks@.len());
        }
        let successor = &program.cfg.blocks[source.successors[k].0];
        let differs = match next {
            Some(a) => successor.key.address != a,
            None => true,
        };
        if differs {
            return Some((successor.key.address, successor.key.mode));
        }
        k = k + 1;
    }
    None
}

/// A condition as its debug form names it.
pub open spec fn condition_debug_text(c: Condition) -> Seq<char> {
    match c {
        Condition::Eq => "Eq"@,
        Condition::Ne => "Ne"@,
        Condition::Cs => "Cs"@,
        Condition::Cc => "Cc"@,
        Condition::Mi => "Mi"@,
        Condition::Pl => "Pl"@,
        Condition::Vs => "Vs"@,
        Condition::Vc => "Vc"@,
        Condition::Hi => "Hi"@,
        Condition::Ls => "Ls"@,
        Condition::Ge => "Ge"@,
        Condition::Lt => "Lt"@,
        Condition::Gt => "Gt"@,
        Condition::Le => "Le"@,
        Condition::Al => "Al"@,
    }
}

fn condition_debug(c: Condition) -> (r: &'static str)
    ensures
        r@ == condition_debug_text(c),
{
    match c {
        Condition::Eq => "Eq",
        Condition::Ne => "Ne",
        Condition::Cs => "Cs",
        Condition::Cc => "Cc",
        Condition::Mi => "Mi",
        Condition::Pl => "Pl",
        Condition::Vs => "Vs",
        Condition::Vc => "Vc",
        Condition::Hi => "Hi",
        Condition::Ls => "Ls",
        Condition::Ge => "Ge",
        Condition::Lt => "Lt",
        Condition::Gt => "Gt",
        Condition::Le => "Le",
        Condition::Al => "Al",
    }
}

/// An optional successor as its debug form writes it.
pub open spec fn fallthrough_debug_text(f: Option<(u32, Mode)>) -> Seq<char> {
    match f {
        Some((address, mode)) => "Some(("@ + decimal(address as nat) + ", "@ + mode_debug_text(mode) + "))"@,
        None => "None"@,
    }
}

fn fallthrough_debug(f: Option<(u32, Mode)>) -> (r: String)
    ensures
        r@ == fallthrough_debug_text(f),
{
    match f {
        Some((address, mode)) => {
            let mut s = String::from_str("Some((");
            push_decimal(&mut s, address as usize);
            s.append(", ");
            s.append(mode_debug(mode));
            s.append("))");
            s
        },
        None => String::from_str("None"),
    }
}

/// A direct branch or call: the link when calling, then the target, or a
/// traced runtime decision between the target and the fallthrough (a halt
/// past the block when there is none).
pub open spec fn direct_terminator_after(
    s: Seq<char>,
    cfg: ControlFlowGraph,
    block: SemanticBlock,
    target: u32,
    condition: Condition,
    link: bool,
) -> Seq<char> {
    let mode = block.mode;
    let address = last_site(block).0;
    let size = last_site(block).1;
    let thumb = mode == Mode::Thumb;
    let t1 = if link {
        s + "    rt.link_from_instruction("@ + hex_prefixed((address) as nat, 8) + ", "@ + dec_u8(size) + ", "@ + bool_text(thumb) + ");\n"@
    } else {
        s
    };
    if condition == Condition::Al {
        t1 + "    return Ok(GeneratedBlockExit::continue_to("@ + hex_prefixed((target) as nat, 8) + ", "@ + bool_text(thumb) + "));\n"@
    } else {
        let fallthrough = fallthrough_spec(cfg, block, target);
        let t2 = t1 + "    let branch_taken = rt.condition_code("@ + dec_u8(condition_number(condition)) + ");\n"@;
        let t3 = t2 + "    if std::env::var(\"GBA_GENERATED_TRACE\").is_ok() { eprintln!(\"[generated-branch] source="@ + hex_prefixed((address) as nat, 8) + "/"@ + mode_debug_text(mode) + " condition="@ + condition_debug_text(condition) + " nzcv={:?} taken={} target="@ + hex_prefixed((target) as nat, 8) + " fallthrough="@ + fallthrough_debug_text(fallthrough) + "\", rt.nzcv(), branch_taken); }\n"@;
        let t4 = t3 + "    if branch_taken { return Ok(GeneratedBlockExit::continue_to("@ + hex_prefixed((target) as nat, 8) + ", "@ + bool_text(thumb) + ")); }\n"@;
        if fallthrough is Some {
            t4 + "    return Ok(GeneratedBlockExit::continue_to("@ + hex_prefixed((fallthrough.unwrap().0) as nat, 8) + ", "@ + bool_text(fallthrough.unwrap().1 == Mode::Thumb) + "));\n"@
        } else {
            t4 + "    return Ok(GeneratedBlockExit::halt("@ + hex_prefixed((next_address(address, size)) as nat, 8) + ", "@ + bool_text(thumb) + "));\n"@
        }
    }
}

fn emit_direct_terminator(out: &mut String, block: &SemanticBlock, program: &Program, target: u32, condition: Condition, link: bool)
    requires
        block_in_graph(program.cfg, *block),
    ensures
        final(out)@ == direct_terminator_after(old(out)@, program.cfg, *block, target, condition, link),
{
    let mode = block.mode;
    let (address, size) = last_instruction_site(block);
    let thumb = mode_bool(mode);
    if link {
        out.append("    rt.link_from_instruction(");
        push_hex_prefixed(out, address, 8);
        out.append(", ");
        push_u8(out, size);
        out.append(", ");
        push_bool(out, thumb);
        out.append(");\n");
    }
    if matches!(condition, Condition::Al) {
        out.append("    return Ok(GeneratedBlockExit::continue_to(");
        push_hex_prefixed(out, target, 8);
        out.append(", ");
        push_bool(out, thumb);
        out.append("));\n");
        return;
    }
    let fallthrough = fallthrough_target(block, program, target);
    let fall_text = fallthrough_debug(fallthrough);
    out.append("    let branch_taken = rt.condition_code(");
    push_u8(out, condition_code(condition));
    out.append(");\n");
    out.append("    if std::env::var(\"GBA_GENERATED_TRACE\").is_ok() { eprintln!(\"[generated-branch] source=");
    push_hex_prefixed(out, address, 8);
    out.append("/");
    out.append(mode_debug(mode));
    out.append(" condition=");
    out.append(condition_debug(condition));
    out.append(" nzcv={:?} taken={} target=");
    push_hex_prefixed(out, target, 8);
    out.append(" fallthrough=");
    out.append(fall_text.as_str());
    out.append("\", rt.nzcv(), branch_taken); }\n");
    out.append("    if branch_taken { return Ok(GeneratedBlockExit::continue_to(");
    push_hex_prefixed(out, target, 8);
    out.append(", ");
    push_bool(out, thumb);
    out.append(")); }\n");
    match fallthrough {
        Some((next_address, next_mode)) => {
            out.append("    return Ok(GeneratedBlockExit::continue_to(");
            push_hex_prefixed(out, next_address, 8);
            out.append(", ");
            push_bool(out, mode_bool(next_mode));
            out.append("));\n");
        },
        None => {
            let halt = wrapping_next(address, size);
            out.append("    return Ok(GeneratedBlockExit::halt(");
            push_hex_prefixed(out, halt, 8);
            out.append(", ");
            push_bool(out, thumb);
            out.append("));\n");
        },
    }
}

/// A software interrupt: run the BIOS call, continue at the sole successor
/// (or halt past the block) when it returns, else go where it says, else halt.
pub open spec fn software_interrupt_after(s: Seq<char>, cfg: ControlFlowGraph, block: SemanticBlock, comment: u32) -> Seq<char> {
    let thumb = block.mode == Mode::Thumb;
    let address = last_site(block).0;
    let size = last_site(block).1;
    let successor = source_successor_spec(cfg, block);
    let t1 = s + "    let bios_result = rt.execute_bios_swi_comment("@ + hex_prefixed((comment) as nat, 8) + ", "@ + bool_text(thumb) + ").map_err(|error| -> &'static str { Box::<str>::leak(error.into_boxed_str()) as &'static str })?;\n"@;
    let t2 = t1 + "    if bios_result.returned {\n"@;
    let t3 = if successor is Some {
        t2 + "        return Ok(GeneratedBlockExit::continue_to("@ + hex_prefixed((successor.unwrap().0) as nat, 8) + ", "@ + bool_text(successor.unwrap().1 == Mode::Thumb) + "));\n"@
    } else {
        t2 + "        return Ok(GeneratedBlockExit::halt("@ + hex_prefixed((next_address(address, size)) as nat, 8) + ", "@ + bool_text(thumb) + "));\n"@
    };
    let t4 = t3 + "    }\n"@;
    let t5 = t4 + "    if let Some(next_pc) = bios_result.next_pc { return Ok(GeneratedBlockExit::dynamic_to(next_pc, bios_result.next_thumb)); }\n"@;
    t5 + "    return Ok(GeneratedBlockExit::halt("@ + hex_prefixed((next_address(address, size)) as nat, 8) + ", "@ + bool_text(thumb) + "));\n"@
}

fn emit_software_interrupt(out: &mut String, block: &SemanticBlock, program: &Program, comment: u32)
    requires
        block_in_graph(program.cfg, *block),
    ensures
        final(out)@ == software_interrupt_after(old(out)@, program.cfg, *block, comment),
{
    let thumb = mode_bool(block.mode);
    let (address, size) = last_instruction_site(block);
    let next_pc = wrapping_next(address, size);
    out.append("    let bios_result = rt.execute_bios_swi_comment(");
    push_hex_prefixed(out, comment, 8);
    out.append(", ");
    push_bool(out, thumb);
    out.append(").map_err(|error| -> &'static str { Box::<str>::leak(error.into_boxed_str()) as &'static str })?;\n");
    out.append("    if bios_result.returned {\n");
    match source_successor(program, block) {
        Some((t, m)) => {
            out.append("        return Ok(GeneratedBlockExit::continue_to(");
            push_hex_prefixed(out, t, 8);
            out.append(", ");
            push_bool(out, mode_bool(m));
            out.append("));\n");
        },
        None => {
            out.append("        return Ok(GeneratedBlockExit::halt(");
            push_hex_prefixed(out, next_pc, 8);
            out.append(", ");
            push_bool(out, thumb);
            out.append("));\n");
        },
    }
    out.append("    }\n");
    out.append("    if let Some(next_pc) = bios_result.next_pc { return Ok(GeneratedBlockExit::dynamic_to(next_pc, bios_result.next_thumb)); }\n");
    out.append("    return Ok(GeneratedBlockExit::halt(");
    push_hex_prefixed(out, next_pc, 8);
    out.append(", ");
    push_bool(out, thumb);
    out.append("));\n");
}

/// The generated Rust for how control leaves the block.
pub open spec fn terminator_after(s: Seq<char>, cfg: ControlFlowGraph, block: SemanticBlock) -> Seq<char> {
    let address = last_site(block).0;
    let size = last_site(block).1;
    match block.terminator {
        SemanticTerminator::Return => s + "    let (target, thumb) = rt.exchange_target_for_dispatch(rt.read_reg(14)); return Ok(GeneratedBlockExit::return_to(target, thumb));\n"@,
        SemanticTerminator::IndirectBranch { register } => {
            let successor = source_successor_spec(cfg, block);
            if successor is Some {
                s + "    return Ok(GeneratedBlockExit::continue_to("@ + hex_prefixed((successor.unwrap().0) as nat, 8) + ", "@ + bool_text(successor.unwrap().1 == Mode::Thumb) + "));\n"@
            } else {
                s + "    let (target, thumb) = rt.exchange_target_for_dispatch(rt.read_reg("@ + dec_u8(register) + ")); eprintln!(\"generated dynamic branch: source="@ + hex_prefixed((address) as nat, 8) + " register=r"@ + dec_u8(register) + " target={target:#010x} thumb={thumb}\"); return Ok(GeneratedBlockExit::dynamic_to(target, thumb));\n"@
            }
        },
        SemanticTerminator::IndirectCall { register, .. } => {
            let callee = indirect_call_spec(cfg, block);
            if callee is Some {
                s + "    rt.link_from_instruction("@ + hex_prefixed((address) as nat, 8) + ", "@ + dec_u8(size) + ", "@ + bool_text(block.mode == Mode::Thumb) + "); return Ok(GeneratedBlockExit::continue_to("@ + hex_prefixed((callee.unwrap().0) as nat, 8) + ", "@ + bool_text(callee.unwrap().1 == Mode::Thumb) + "));\n"@
            } else {
                s + "    rt.link_from_instruction("@ + hex_prefixed((address) as nat, 8) + ", "@ + dec_u8(size) + ", "@ + bool_text(block.mode == Mode::Thumb) + "); let (target, thumb) = rt.exchange_target_for_dispatch(rt.read_reg("@ + dec_u8(register) + ")); eprintln!(\"generated dynamic call: source="@ + hex_prefixed((address) as nat, 8) + " register=r"@ + dec_u8(register) + " target={target:#010x} thumb={thumb}\"); return Ok(GeneratedBlockExit::dynamic_to(target, thumb));\n"@
            }
        },
        SemanticTerminator::Branch { condition, target } => direct_terminator_after(s, cfg, block, target, condition, false),
        SemanticTerminator::Call { condition, target } => direct_terminator_after(s, cfg, block, target, condition, true),
        SemanticTerminator::Fallthrough => {
            if block.successors@.len() > 0 && block.successors@[0].0 < cfg.blocks@.len() {
                s + "    return Ok(GeneratedBlockExit::continue_to("@ + hex_prefixed((cfg.blocks@[block.successors@[0].0 as int].key.address) as nat, 8) + ", "@ + bool_text(cfg.blocks@[block.successors@[0].0 as int].key.mode == Mode::Thumb) + "));\n"@
            } else {
                s + "    return Ok(GeneratedBlockExit::halt("@ + hex_prefixed((next_address(address, size)) as nat, 8) + ", "@ + bool_text(block.mode == Mode::Thumb) + "));\n"@
            }
        },
        SemanticTerminator::SoftwareInterrupt { comment } => software_interrupt_after(s, cfg, block, comment),
        SemanticTerminator::Unknown => s + "    return Err(\"generated program reached an unknown terminator\");\n"@,
    }
}

pub fn emit_terminator(out: &mut String, block: &SemanticBlock, program: &Program)
    requires
        block_in_graph(program.cfg, *block),
    ensures
        final(out)@ == terminator_after(old(out)@, program.cfg, *block),
{
    let (address, size) = last_instruction_site(block);
    match block.terminator {
        SemanticTerminator::Return => {
            out.append("    let (target, thumb) = rt.exchange_target_for_dispatch(rt.read_reg(14)); return Ok(GeneratedBlockExit::return_to(target, thumb));\n");
        },
        SemanticTerminator::IndirectBranch { register } => {
            match source_successor(program, block) {
                Some((t, m)) => {
                    out.append("    return Ok(GeneratedBlockExit::continue_to(");
                    push_hex_prefixed(out, t, 8);
                    out.append(", ");
                    push_bool(out, mode_bool(m));
                    out.append("));\n");
                },
                None => {
                    out.append("    let (target, thumb) = rt.exchange_target_for_dispatch(rt.read_reg(");
                    push_u8(out, register);
                    out.append(")); eprintln!(\"generated dynamic branch: source=");
                    push_hex_prefixed(out, address, 8);
                    out.append(" register=r");
                    push_u8(out, register);
                    out.append(" target={target:#010x} thumb={thumb}\"); return Ok(GeneratedBlockExit::dynamic_to(target, thumb));\n");
                },
            }
        },
        SemanticTerminator::IndirectCall { register, .. } => {
            match indirect_call_target(program, block) {
                Some((t, m)) => {
                    out.append("    rt.link_from_instruction(");
                    push_hex_prefixed(out, address, 8);
                    out.append(", ");
                    push_u8(out, size);
                    out.append(", ");
                    push_bool(out, mode_bool(block.mode));
                    out.append("); return Ok(GeneratedBlockExit::continue_to(");
                    push_hex_prefixed(out, t, 8);
                    out.append(", ");
                    push_bool(out, mode_bool(m));
                    out.append("));\n");
                },
                None => {
                    out.append("    rt.link_from_instruction(");
                    push_hex_prefixed(out, address, 8);
                    out.append(", ");
                    push_u8(out, size);
                    out.append(", ");
                    push_bool(out, mode_bool(block.mode));
                    out.append("); let (target, thumb) = rt.exchange_target_for_dispatch(rt.read_reg(");
                    push_u8(out, register);
                    out.append(")); eprintln!(\"generated dynamic call: source=");
                    push_hex_prefixed(out, address, 8);
                    out.append(" register=r");
                    push_u8(out, register);
                    out.append(" target={target:#010x} thumb={thumb}\"); return Ok(GeneratedBlockExit::dynamic_to(target, thumb));\n");
                },
            }
        },
        SemanticTerminator::Branch { condition, target } => emit_direct_terminator(out, block, program, target, condition, false),
        SemanticTerminator::Call { condition, target } => emit_direct_terminator(out, block, program, target, condition, true),
        SemanticTerminator::Fallthrough => {
            if block.successors.len() > 0 && block.successors[0].0 < program.cfg.blocks.len() {
                let successor = &program.cfg.blocks[block.successors[0].0];
                out.append("    return Ok(GeneratedBlockExit::continue_to(");
                push_hex_prefixed(out, successor.key.address, 8);
                out.append(", ");
                push_bool(out, mode_bool(successor.key.mode));
                out.append("));\n");
            } else {
                let halt = wrapping_next(address, size);
                out.append("    return Ok(GeneratedBlockExit::halt(");
                push_hex_prefixed(out, halt, 8);
                out.append(", ");
                push_bool(out, mode_bool(block.mode));
                out.append("));\n");
            }
        },
        SemanticTerminator::SoftwareInterrupt { comment } => emit_software_interrupt(out, block, program, comment),
        SemanticTerminator::Unknown => {
            out.append("    return Err(\"generated program reached an unknown terminator\");\n");
        },
    }
}

} // verus!
