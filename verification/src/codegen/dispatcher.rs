//! Generated dispatch from a runtime address and mode to a block function.
use vstd::prelude::*;
use vstd::string::{StrSliceExecFns, StringExecFns};

use crate::semantic_ir::SemanticProgram;
use crate::text::{bool_text, hex_prefixed, push_bool, push_hex_prefixed};

use super::linking::{block_keys_distinct, canonical_links, collect_linked_blocks, linked_ok, linked_views};

verus! {

/// One match arm per linked block, from `l[k]` on.
pub open spec fn dispatch_arms_after(s: Seq<char>, l: Seq<(u32, bool, Seq<char>)>, k: nat) -> Seq<char>
    decreases l.len() - k,
{
    if k >= l.len() {
        s
    } else {
        dispatch_arms_after(s + "        ("@ + hex_prefixed((l[k as int].0) as nat, 8) + ", "@ + bool_text(l[k as int].1) + ") => "@ + l[k as int].2 + "(rt),\n"@, l, k + 1)
    }
}

/// The dispatcher: an IRQ check, then a match from `(address, thumb)` to
/// each linked block's function, and an error for any other target.
pub open spec fn dispatcher_after(s: Seq<char>, l: Seq<(u32, bool, Seq<char>)>) -> Seq<char> {
    let t1 = s + "fn dispatch_block(rt: &mut Runtime, address: u32, thumb: bool) -> Result<GeneratedBlockExit, &'static str> {\n"@;
    let t2 = t1 + "    if rt.generated_irq_pending() { rt.enter_instruction(address, thumb); return Ok(GeneratedBlockExit::exception(gba_runtime::ExceptionKind::Irq)); }\n"@;
    let t3 = t2 + "    match (address, thumb) {\n"@;
    let t4 = dispatch_arms_after(t3, l, 0);
    t4 + "        _ => Err(gba_runtime::GENERATED_TARGET_OUTSIDE_CFG),\n    }\n}\n"@
}

pub fn emit_dispatcher(out: &mut String, semantic: &SemanticProgram)
    requires
        block_keys_distinct(*semantic),
    ensures
        linked_ok(*semantic, canonical_links(*semantic)),
        final(out)@ == dispatcher_after(old(out)@, canonical_links(*semantic)),
{
    let linked = collect_linked_blocks(semantic);
    let ghost l = linked_views(linked@);
    let ghost start = out@;
    out.append("fn dispatch_block(rt: &mut Runtime, address: u32, thumb: bool) -> Result<GeneratedBlockExit, &'static str> {\n");
    out.append("    if rt.generated_irq_pending() { rt.enter_instruction(address, thumb); return Ok(GeneratedBlockExit::exception(gba_runtime::ExceptionKind::Irq)); }\n");
    out.append("    match (address, thumb) {\n");
    let ghost target = dispatch_arms_after(out@, l, 0);
    let mut k: usize = 0;
    while k < linked.len()
        invariant
            k <= linked@.len(),
            l == linked_views(linked@),
            dispatch_arms_after(out@, l, k as nat) == target,
        decreases linked@.len() - k,
    {
        let block = &linked[k];
        out.append("        (");
        push_hex_prefixed(out, block.address, 8);
        out.append(", ");
        push_bool(out, block.thumb);
        out.append(") => ");
        out.append(block.symbol.as_str());
        out.append("(rt),\n");
        k = k + 1;
    }
    out.append("        _ => Err(gba_runtime::GENERATED_TARGET_OUTSIDE_CFG),\n    }\n}\n");
    proof {
        assert(out@ == dispatcher_after(start, l));
    }
}

/// The lines of the predicate's pattern from `l[k]` on: alternatives joined
/// by ` | `, a line ended once it grows past a hundred characters.
pub open spec fn predicate_lines_after(s: Seq<char>, line: Seq<char>, l: Seq<(u32, bool, Seq<char>)>, k: nat) -> Seq<char>
    decreases l.len() - k,
{
    if k >= l.len() {
        s + line + "\n    )\n"@
    } else {
        let joined = if k > 0 {
            line + " | "@
        } else {
            line
        };
        let line1 = joined + "("@ + hex_prefixed(l[k as int].0 as nat, 8) + ", "@ + bool_text(l[k as int].1) + ")"@;
        if line1.len() > 100 {
            predicate_lines_after(s + line1 + "\n"@, "        "@, l, k + 1)
        } else {
            predicate_lines_after(s, line1, l, k + 1)
        }
    }
}

/// Whether `(address, thumb)` is a linked block: `false` when none is, else
/// a pattern listing them all.
pub open spec fn linked_predicate_after(s: Seq<char>, l: Seq<(u32, bool, Seq<char>)>) -> Seq<char> {
    let t1 = s + "fn is_linked_block(address: u32, thumb: bool) -> bool {\n"@;
    let t2 = if l.len() == 0 {
        t1 + "    false\n"@
    } else {
        let t3 = t1 + "    matches!((address, thumb),\n"@;
        predicate_lines_after(t3, "        "@, l, 0)
    };
    t2 + "}\n\n"@
}

pub fn emit_linked_predicate(out: &mut String, semantic: &SemanticProgram)
    requires
        block_keys_distinct(*semantic),
    ensures
        linked_ok(*semantic, canonical_links(*semantic)),
        final(out)@ == linked_predicate_after(old(out)@, canonical_links(*semantic)),
{
    let linked = collect_linked_blocks(semantic);
    let ghost l = linked_views(linked@);
    let ghost start = out@;
    out.append("fn is_linked_block(address: u32, thumb: bool) -> bool {\n");
    if linked.len() == 0 {
        out.append("    false\n");
    } else {
        out.append("    matches!((address, thumb),\n");
        let ghost target = predicate_lines_after(out@, "        "@, l, 0);
        let mut line = String::from_str("        ");
        let mut index: usize = 0;
        while index < linked.len()
            invariant
                index <= linked@.len(),
                l == linked_views(linked@),
                predicate_lines_after(out@, line@, l, index as nat) == target,
            decreases linked@.len() - index,
        {
            let block = &linked[index];
            if index > 0 {
                line.append(" | ");
            }
            line.append("(");
            push_hex_prefixed(&mut line, block.address, 8);
            line.append(", ");
            push_bool(&mut line, block.thumb);
            line.append(")");
            if line.as_str().unicode_len() > 100 {
                out.append(line.as_str());
                out.append("\n");
                line = String::from_str("        ");
            }
            index = index + 1;
        }
        out.append(line.as_str());
        out.append("\n    )\n");
    }
    out.append("}\n\n");
}

} // verus!
