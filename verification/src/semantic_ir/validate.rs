//! Checking a semantic program against the program and the functions it was
//! lowered from.
use vstd::prelude::*;
use vstd::string::StringExecFns;

use crate::cfg::{ControlFlowGraph, Program};
use crate::function::{CallSite, FunctionControlFlowGraph, FunctionId, ReturnSite};
use crate::ir::{
    all_flags, all_reads, all_writes, first_memory, last_control, reads_any_spec, sorted_set_of, strictly_sorted, writes_any_spec,
    IrControlEffect, IrInstruction, IrMemoryEffect, IrMemoryKind,
};
use crate::text::{decimal, numbered, push_decimal};

use super::lower::{ends_execution, memory_width, semantic_memory, software_interrupt_comment, swi_comment};
use super::types::{FlagEffect, MemoryEffect, SemanticBlock, SemanticInstruction, SemanticProgram, SemanticTerminator};

verus! {

/// Two strictly ascending listings of the same set are the same listing.
pub proof fn lemma_sorted_listing_unique(a: Seq<u8>, b: Seq<u8>)
    requires
        strictly_sorted(a),
        strictly_sorted(b),
        a.to_set() == b.to_set(),
    ensures
        a == b,
    decreases a.len(),
{
    if a.len() == 0 {
        if b.len() > 0 {
            assert(b.to_set().contains(b[0]));
            assert(a.to_set().contains(b[0]));
        }
        assert(a =~= b);
    } else {
        assert(a.to_set().contains(a[0]));
        assert(b.to_set().contains(a[0]));
        let j = choose|j: int| 0 <= j < b.len() && b[j] == a[0];
        assert(b.to_set().contains(b[0]));
        assert(a.to_set().contains(b[0]));
        let i = choose|i: int| 0 <= i < a.len() && a[i] == b[0];
        assert(a[0] == b[0]) by {
            if i > 0 {
                assert(a[0] < a[i]);
            }
            if j > 0 {
                assert(b[0] < b[j]);
            }
        }
        let ra = a.drop_first();
        let rb = b.drop_first();
        assert(strictly_sorted(ra)) by {
            assert forall|p: int, q: int| 0 <= p < q < ra.len() implies ra[p] < ra[q] by {
                assert(a[p + 1] < a[q + 1]);
            }
        }
        assert(strictly_sorted(rb)) by {
            assert forall|p: int, q: int| 0 <= p < q < rb.len() implies rb[p] < rb[q] by {
                assert(b[p + 1] < b[q + 1]);
            }
        }
        assert forall|x: u8| ra.to_set().contains(x) implies rb.to_set().contains(x) by {
            let k = choose|k: int| 0 <= k < ra.len() && ra[k] == x;
            assert(a[k + 1] == x);
            assert(a[0] < a[k + 1]);
            assert(a.to_set().contains(x));
            let m = choose|m: int| 0 <= m < b.len() && b[m] == x;
            assert(m != 0);
            assert(rb[m - 1] == x);
        }
        assert forall|x: u8| rb.to_set().contains(x) implies ra.to_set().contains(x) by {
            let k = choose|k: int| 0 <= k < rb.len() && rb[k] == x;
            assert(b[k + 1] == x);
            assert(b[0] < b[k + 1]);
            assert(b.to_set().contains(x));
            let m = choose|m: int| 0 <= m < a.len() && a[m] == x;
            assert(m != 0);
            assert(ra[m - 1] == x);
        }
        assert(ra.to_set() =~= rb.to_set());
        lemma_sorted_listing_unique(ra, rb);
        assert forall|k: int| 0 <= k < a.len() implies a[k] == b[k] by {
            if k > 0 {
                assert(ra[k - 1] == rb[k - 1]);
            }
        }
        assert(a =~= b);
    }
}

pub open spec fn flag_effect_of(ir: IrInstruction) -> FlagEffect {
    FlagEffect { read: reads_any_spec(all_flags(ir.ops@)), write: writes_any_spec(all_flags(ir.ops@)) }
}

/// A semantic instruction agrees with its source instruction: the same
/// address and size, at least one operation, and the same register, flag,
/// memory and control effects.
pub open spec fn instruction_valid(ir: IrInstruction, s: SemanticInstruction) -> bool {
    &&& s.address == ir.address
    &&& s.size == ir.size
    &&& s.ops@.len() > 0
    &&& sorted_set_of(s.reads@, all_reads(ir.ops@))
    &&& sorted_set_of(s.writes@, all_writes(ir.ops@))
    &&& s.flags == flag_effect_of(ir)
    &&& s.memory == semantic_memory(first_memory(ir.ops@))
    &&& last_control(s.ops@) == last_control(ir.ops@)
}

pub open spec fn has_control(s: SemanticInstruction) -> bool {
    last_control(s.ops@) != IrControlEffect::Sequential
}

/// Only the final instruction of a block transfers control.
pub open spec fn placement_ok(ins: Seq<SemanticInstruction>) -> bool {
    forall|i: int| 0 <= i < ins.len() - 1 ==> !has_control(#[trigger] ins[i])
}

/// Two instructions of the block transfer control.
pub open spec fn two_controls(ins: Seq<SemanticInstruction>) -> bool {
    exists|i: int, j: int| 0 <= i < j < ins.len() && has_control(#[trigger] ins[i]) && has_control(#[trigger] ins[j])
}

fn same_registers(a: &Vec<u8>, b: &Vec<u8>) -> (r: bool)
    ensures
        r == (a@ == b@),
{
    if a.len() != b.len() {
        return false;
    }
    let mut k: usize = 0;
    while k < a.len()
        invariant
            a@.len() == b@.len(),
            k <= a@.len(),
            forall|j: int| 0 <= j < k ==> a@[j] == b@[j],
        decreases a@.len() - k,
    {
        if a[k] != b[k] {
            return false;
        }
        k = k + 1;
    }
    proof {
        assert(a@ =~= b@);
    }
    true
}

/// Whether `semantic` is the semantic form of `source`.
fn same_memory(source: Option<IrMemoryEffect>, semantic: Option<MemoryEffect>) -> (r: bool)
    ensures
        r == (semantic == semantic_memory(source)),
{
    match (source, semantic) {
        (None, None) => true,
        (Some(s), Some(m)) => {
            let width = memory_width(s.width);
            match (s.kind, m) {
                (IrMemoryKind::Read, MemoryEffect::Read { width: w, base }) => w == width && base == s.base,
                (IrMemoryKind::Write, MemoryEffect::Write { width: w, base }) => w == width && base == s.base,
                (IrMemoryKind::ReadWrite, MemoryEffect::ReadWrite { width: w, base }) => w == width && base == s.base,
                _ => false,
            }
        },
        _ => false,
    }
}

fn block_message(id: usize, suffix: &str) -> (r: String)
    ensures
        r@ == "block "@ + decimal(id as nat) + suffix@,
        r@ == block_text(id, suffix@),
{
    numbered("block ", id, suffix)
}

fn check_instruction(source: &IrInstruction, s: &SemanticInstruction, id: usize) -> (r: Result<(), String>)
    ensures
        r is Ok <==> instruction_valid(*source, *s),
        r matches Err(e) ==> instruction_error(*source, *s, id, e@),
{
    if source.address != s.address || source.size != s.size {
        return Err(block_message(id, " instruction identity changed"));
    }
    if s.ops.len() == 0 {
        return Err(block_message(id, " contains an empty semantic instruction"));
    }
    let reads = source.reads();
    if !same_registers(&reads, &s.reads) {
        proof {
            if sorted_set_of(s.reads@, all_reads(source.ops@)) {
                lemma_sorted_listing_unique(reads@, s.reads@);
            }
        }
        return Err(block_message(id, " instruction reads changed"));
    }
    let writes = source.writes();
    if !same_registers(&writes, &s.writes) {
        proof {
            if sorted_set_of(s.writes@, all_writes(source.ops@)) {
                lemma_sorted_listing_unique(writes@, s.writes@);
            }
        }
        return Err(block_message(id, " instruction writes changed"));
    }
    let flags = source.flags();
    if flags.reads_any() != s.flags.read || flags.writes_any() != s.flags.write {
        return Err(block_message(id, " instruction flag effects changed"));
    }
    if !same_memory(source.memory(), s.memory) {
        return Err(block_message(id, " instruction memory effects changed"));
    }
    if source.control() != s.control_effect() {
        return Err(block_message(id, " instruction control effect changed"));
    }
    Ok(())
}

/// Checks that at most one instruction of the block transfers control and
/// that it is the final one.
pub fn validate_control_placement(block: &SemanticBlock) -> (r: Result<(), String>)
    ensures
        r is Ok <==> placement_ok(block.instructions@),
        r matches Err(e) ==> e@ == if two_controls(block.instructions@) {
            "block "@ + decimal(block.id.0 as nat) + " contains multiple control-effect instructions"@
        } else {
            "block "@ + decimal(block.id.0 as nat) + " has control effect before its final instruction"@
        },
{
    let ghost ins = block.instructions@;
    let n = block.instructions.len();
    let mut found: Option<usize> = None;
    let mut i: usize = 0;
    while i < n
        invariant
            n == ins.len(),
            ins == block.instructions@,
            i <= n,
            found is None ==> forall|j: int| 0 <= j < i ==> !has_control(#[trigger] ins[j]),
            found matches Some(x) ==> x < i && has_control(ins[x as int]) && forall|j: int|
                0 <= j < i && j != x ==> !has_control(#[trigger] ins[j]),
        decreases n - i,
    {
        let c = block.instructions[i].control_effect();
        if !matches!(c, IrControlEffect::Sequential) {
            if let Some(x) = found {
                proof {
                    assert(has_control(ins[x as int]) && has_control(ins[i as int]));
                    assert(two_controls(ins));
                    assert(!has_control(ins[x as int]) ==> false);
                }
                return Err(block_message(block.id.0, " contains multiple control-effect instructions"));
            }
            found = Some(i);
        }
        i = i + 1;
    }
    if let Some(x) = found {
        if x + 1 != n {
            proof {
                assert(!two_controls(ins)) by {
                    if two_controls(ins) {
                        let (p, q) = choose|p: int, q: int| 0 <= p < q < ins.len() && has_control(#[trigger] ins[p]) && has_control(#[trigger] ins[q]);
                        assert(p == x && q == x);
                    }
                }
            }
            return Err(block_message(block.id.0, " has control effect before its final instruction"));
        }
    }
    Ok(())
}

/// A semantic block names a block of the graph and agrees with it: the same
/// identity, address, mode and instruction count, each instruction valid
/// against its source, at least one instruction, and control transferred
/// only by the final one.
pub open spec fn block_matches_source(cfg: ControlFlowGraph, b: SemanticBlock) -> bool {
    &&& b.id.0 < cfg.blocks@.len()
    &&& {
        let src = cfg.blocks@[b.id.0 as int];
        &&& src.id == b.id
        &&& src.key.address == b.address
        &&& src.key.mode == b.mode
        &&& src.instructions@.len() == b.instructions@.len()
        &&& forall|m: int|
            0 <= m < src.ir@.len() && m < b.instructions@.len() ==> instruction_valid(src.ir@[m], #[trigger] b.instructions@[m])
    }
    &&& b.instructions@.len() > 0
    &&& placement_ok(b.instructions@)
}

/// The successors name blocks of the graph: none where control ends, else
/// those of the source block.
pub open spec fn successors_ok(cfg: ControlFlowGraph, b: SemanticBlock) -> bool {
    &&& forall|k: int| 0 <= k < b.successors@.len() ==> (#[trigger] b.successors@[k]).0 < cfg.blocks@.len()
    &&& b.successors@ == if ends_execution(b.terminator) {
        Seq::empty()
    } else {
        cfg.blocks@[b.id.0 as int].successors@
    }
}

/// The control effect of the block's final instruction.
pub open spec fn final_effect(b: SemanticBlock) -> IrControlEffect {
    if b.instructions@.len() > 0 {
        last_control(b.instructions@.last().ops@)
    } else {
        IrControlEffect::Sequential
    }
}

/// Some successor of the block starts at `target`.
pub open spec fn reaches_address(cfg: ControlFlowGraph, b: SemanticBlock, target: u32) -> bool {
    exists|k: int|
        0 <= k < b.successors@.len() && (#[trigger] b.successors@[k]).0 < cfg.blocks@.len() && cfg.blocks@[b.successors@[k].0 as int].key.address
            == target
}

/// The terminator agrees with the final instruction's control effect, a
/// direct branch keeps its target among the successors, and a call keeps a
/// continuation.
pub open spec fn terminator_ok(cfg: ControlFlowGraph, b: SemanticBlock) -> bool {
    let e = final_effect(b);
    match b.terminator {
        SemanticTerminator::Fallthrough => e == IrControlEffect::Sequential,
        SemanticTerminator::Branch { target, condition } => e == (IrControlEffect::Branch { target, condition, link: false })
            && reaches_address(cfg, b, target),
        SemanticTerminator::Call { target, condition } => e == (IrControlEffect::Branch { target, condition, link: true })
            && b.successors@.len() > 0,
        SemanticTerminator::Return => e == (IrControlEffect::BranchExchange { register: 14, link: false }),
        SemanticTerminator::IndirectCall { register, mode } => e == (IrControlEffect::BranchExchange { register, link: true })
            && mode == b.mode && b.successors@.len() > 0,
        SemanticTerminator::IndirectBranch { register } => e == (IrControlEffect::BranchExchange { register, link: false }),
        SemanticTerminator::SoftwareInterrupt { comment } => e == IrControlEffect::Unknown && b.instructions@.len() > 0
            && swi_comment(b.instructions@.last().ops@) == Some(comment),
        SemanticTerminator::Unknown => e == IrControlEffect::Unknown,
    }
}

pub open spec fn block_ok(cfg: ControlFlowGraph, b: SemanticBlock) -> bool {
    &&& block_matches_source(cfg, b)
    &&& successors_ok(cfg, b)
    &&& terminator_ok(cfg, b)
}

fn check_against_source(cfg: &ControlFlowGraph, b: &SemanticBlock) -> (r: Result<(), String>)
    ensures
        r is Ok <==> block_matches_source(*cfg, *b),
        r matches Err(e) ==> source_error(*cfg, *b, e@),
{
    let id = b.id.0;
    if id >= cfg.blocks.len() {
        return Err(numbered("semantic block ", id, " does not exist in source CFG"));
    }
    let src = &cfg.blocks[id];
    if src.id.0 != id {
        return Err(numbered("semantic block ", id, " has mismatched source identity"));
    }
    if src.key.address != b.address || src.key.mode != b.mode {
        return Err(block_message(id, " address/mode changed during semantic lowering"));
    }
    if src.instructions.len() != b.instructions.len() {
        return Err(block_message(id, " instruction count changed during semantic lowering"));
    }
    let n = if src.ir.len() < b.instructions.len() {
        src.ir.len()
    } else {
        b.instructions.len()
    };
    let mut m: usize = 0;
    while m < n
        invariant
            id == b.id.0,
            id < cfg.blocks@.len(),
            *src == cfg.blocks@[id as int],
            n <= src.ir@.len(),
            n <= b.instructions@.len(),
            n == src.ir@.len() || n == b.instructions@.len(),
            m <= n,
            forall|j: int| 0 <= j < m ==> instruction_valid(src.ir@[j], #[trigger] b.instructions@[j]),
        decreases n - m,
    {
        match check_instruction(&src.ir[m], &b.instructions[m], id) {
            Err(e) => {
                proof {
                    assert(!instruction_valid(src.ir@[m as int], b.instructions@[m as int]));
                }
                return Err(e);
            },
            Ok(()) => {},
        }
        m = m + 1;
    }
    if b.instructions.len() == 0 {
        return Err(block_message(id, " contains no semantic instructions"));
    }
    match validate_control_placement(b) {
        Err(e) => Err(e),
        Ok(()) => Ok(()),
    }
}

fn successor_reaches(cfg: &ControlFlowGraph, b: &SemanticBlock, target: u32) -> (r: bool)
    ensures
        r == reaches_address(*cfg, *b, target),
{
    let mut k: usize = 0;
    while k < b.successors.len()
        invariant
            k <= b.successors@.len(),
            forall|j: int|
                0 <= j < k ==> !((#[trigger] b.successors@[j]).0 < cfg.blocks@.len() && cfg.blocks@[b.successors@[j].0 as int].key.address
                    == target),
        decreases b.successors@.len() - k,
    {
        let s = b.successors[k].0;
        if s < cfg.blocks.len() && cfg.blocks[s].key.address == target {
            return true;
        }
        k = k + 1;
    }
    false
}

fn check_successors(cfg: &ControlFlowGraph, b: &SemanticBlock) -> (r: Result<(), String>)
    requires
        b.id.0 < cfg.blocks@.len(),
    ensures
        r is Ok <==> successors_ok(*cfg, *b),
        r matches Err(e) ==> edge_error(*cfg, *b, e@),
{
    let id = b.id.0;
    let mut k: usize = 0;
    while k < b.successors.len()
        invariant
            k <= b.successors@.len(),
            id == b.id.0,
            forall|j: int| 0 <= j < k ==> (#[trigger] b.successors@[j]).0 < cfg.blocks@.len(),
        decreases b.successors@.len() - k,
    {
        if b.successors[k].0 >= cfg.blocks.len() {
            let mut e = block_message(id, " has invalid successor ");
            push_decimal(&mut e, b.successors[k].0);
            proof {
                assert(e@ == block_text(id, " has invalid successor "@) + decimal(b.successors@[k as int].0 as nat));
                let kk = k as int;
                assert(0 <= kk < b.successors@.len());
                assert(e@ == block_text(b.id.0, " has invalid successor "@) + decimal((b.successors@[kk]).0 as nat));
                assert(b.successors@[kk].0 >= cfg.blocks@.len());
                assert(edge_error(*cfg, *b, e@));
            }
            return Err(e);
        }
        k = k + 1;
    }
    let ends = match b.terminator {
        SemanticTerminator::Return | SemanticTerminator::IndirectBranch { .. } | SemanticTerminator::Unknown => true,
        _ => false,
    };
    let differ = if ends {
        proof {
            if b.successors@.len() == 0 {
                assert(b.successors@ =~= Seq::<crate::cfg::BlockId>::empty());
            }
        }
        b.successors.len() != 0
    } else {
        let expected = &cfg.blocks[id].successors;
        if expected.len() != b.successors.len() {
            true
        } else {
            let mut k: usize = 0;
            let mut same = true;
            while k < expected.len()
                invariant
                    expected@.len() == b.successors@.len(),
                    k <= expected@.len(),
                    same == forall|j: int| 0 <= j < k ==> expected@[j] == b.successors@[j],
                decreases expected@.len() - k,
            {
                if expected[k].0 != b.successors[k].0 {
                    same = false;
                }
                k = k + 1;
            }
            proof {
                if same {
                    assert(expected@ =~= b.successors@);
                }
            }
            !same
        }
    };
    if differ {
        return Err(block_message(id, " semantic successors differ from source control-flow contract"));
    }
    Ok(())
}

fn check_terminator(cfg: &ControlFlowGraph, b: &SemanticBlock) -> (r: Result<(), String>)
    ensures
        r is Ok <==> terminator_ok(*cfg, *b),
        r matches Err(e) ==> edge_error(*cfg, *b, e@),
{
    let id = b.id.0;
    let n = b.instructions.len();
    let e = if n > 0 {
        b.instructions[n - 1].control_effect()
    } else {
        IrControlEffect::Sequential
    };
    let agrees = match b.terminator {
        SemanticTerminator::Fallthrough => matches!(e, IrControlEffect::Sequential),
        SemanticTerminator::Branch { target, condition } => e == (IrControlEffect::Branch { target, condition, link: false }),
        SemanticTerminator::Call { target, condition } => e == (IrControlEffect::Branch { target, condition, link: true }),
        SemanticTerminator::Return => e == (IrControlEffect::BranchExchange { register: 14, link: false }),
        SemanticTerminator::IndirectCall { register, mode } => e == (IrControlEffect::BranchExchange { register, link: true }) && mode
            == b.mode,
        SemanticTerminator::IndirectBranch { register } => e == (IrControlEffect::BranchExchange { register, link: false }),
        SemanticTerminator::SoftwareInterrupt { comment } => matches!(e, IrControlEffect::Unknown) && n > 0 && match software_interrupt_comment(
            &b.instructions[n - 1].ops,
        ) {
            Some(c) => c == comment,
            None => false,
        },
        SemanticTerminator::Unknown => matches!(e, IrControlEffect::Unknown),
    };
    if !agrees {
        return Err(block_message(id, " terminator disagrees with terminal control effect"));
    }
    match b.terminator {
        SemanticTerminator::Branch { target, .. } => {
            if !successor_reaches(cfg, b, target) {
                return Err(numbered("branch block ", id, " lost its direct target successor"));
            }
        },
        SemanticTerminator::Call { .. } => {
            if b.successors.len() == 0 {
                return Err(numbered("call block ", id, " lost its continuation"));
            }
        },
        SemanticTerminator::IndirectCall { .. } => {
            if b.successors.len() == 0 {
                return Err(numbered("indirect call block ", id, " lost its continuation"));
            }
        },
        _ => {},
    }
    Ok(())
}

/// Function `i` sits at index `i`, enters at a block of the graph that it
/// holds, and names only existing functions as successors.
pub open spec fn function_shape_ok(cfg: ControlFlowGraph, sp: SemanticProgram, i: int) -> bool {
    let f = sp.functions@[i];
    &&& f.id.0 == i
    &&& f.entry.0 < cfg.blocks@.len()
    &&& exists|k: int| 0 <= k < f.blocks@.len() && (#[trigger] f.blocks@[k]).id == f.entry
    &&& forall|s: int| 0 <= s < f.successors@.len() ==> (#[trigger] f.successors@[s]).0 < sp.functions@.len()
}

/// The semantic functions match the recovered ones in number and entry, and
/// the entry function enters at the graph's entry block.
pub open spec fn metadata_ok(cfg: ControlFlowGraph, fg: FunctionControlFlowGraph, sp: SemanticProgram) -> bool {
    &&& sp.functions@.len() == fg.functions@.len()
    &&& fg.entry.0 < fg.functions@.len()
    &&& sp.entry == fg.entry
    &&& fg.functions@[fg.entry.0 as int].entry == cfg.entry
    &&& forall|i: int| 0 <= i < sp.functions@.len() ==> #[trigger] function_shape_ok(cfg, sp, i)
}

pub open spec fn all_blocks_ok(cfg: ControlFlowGraph, sp: SemanticProgram) -> bool {
    forall|f: int, k: int|
        0 <= f < sp.functions@.len() && 0 <= k < sp.functions@[f].blocks@.len() ==> block_ok(cfg, #[trigger] sp.functions@[f].blocks@[k])
}

/// No block belongs to two functions, nor twice to one.
pub open spec fn blocks_distinct(sp: SemanticProgram) -> bool {
    forall|f1: int, k1: int, f2: int, k2: int|
        0 <= f1 < sp.functions@.len() && 0 <= k1 < sp.functions@[f1].blocks@.len() && 0 <= f2 < sp.functions@.len() && 0 <= k2
            < sp.functions@[f2].blocks@.len() && (f1 != f2 || k1 != k2) ==> (#[trigger] sp.functions@[f1].blocks@[k1]).id
            != (#[trigger] sp.functions@[f2].blocks@[k2]).id
}

/// `block_to_function` names, for each block, the function holding it, and
/// names no function for a block that none holds.
pub open spec fn ownership_matches(sp: SemanticProgram) -> bool {
    &&& forall|f: int, k: int|
        0 <= f < sp.functions@.len() && 0 <= k < sp.functions@[f].blocks@.len() ==> {
            let id = (#[trigger] sp.functions@[f].blocks@[k]).id.0;
            id < sp.block_to_function@.len() && sp.block_to_function@[id as int] == Some(sp.functions@[f].id)
        }
    &&& forall|b: int|
        0 <= b < sp.block_to_function@.len() && (#[trigger] sp.block_to_function@[b]) is Some ==> exists|f: int, k: int|
            0 <= f < sp.functions@.len() && 0 <= k < sp.functions@[f].blocks@.len() && (#[trigger] sp.functions@[f].blocks@[k]).id.0 == b
}

/// The graph's entry block belongs to the entry function.
pub open spec fn entry_owned(cfg: ControlFlowGraph, sp: SemanticProgram) -> bool {
    cfg.entry.0 < sp.block_to_function@.len() && sp.block_to_function@[cfg.entry.0 as int] == Some(sp.entry)
}

/// A site names an instruction of a block of the graph.
pub open spec fn site_ok(cfg: ControlFlowGraph, r: ReturnSite) -> bool {
    r.block.0 < cfg.blocks@.len() && r.instruction_index < cfg.blocks@[r.block.0 as int].instructions@.len()
}

/// A call names an instruction of the graph, continues at an owned block,
/// and lists valid return sites.
pub open spec fn call_ok(cfg: ControlFlowGraph, sp: SemanticProgram, c: CallSite) -> bool {
    &&& c.block.0 < cfg.blocks@.len()
    &&& c.instruction_index < cfg.blocks@[c.block.0 as int].ir@.len()
    &&& (c.return_block matches Some(rb) ==> rb.0 < sp.block_to_function@.len() && sp.block_to_function@[rb.0 as int] is Some)
    &&& forall|r: int| 0 <= r < c.return_sites@.len() ==> site_ok(cfg, #[trigger] c.return_sites@[r])
}

pub open spec fn calls_ok(cfg: ControlFlowGraph, sp: SemanticProgram) -> bool {
    forall|f: int, c: int|
        0 <= f < sp.functions@.len() && 0 <= c < sp.functions@[f].calls@.len() ==> call_ok(cfg, sp, #[trigger] sp.functions@[f].calls@[c])
}

pub open spec fn returns_ok(cfg: ControlFlowGraph, sp: SemanticProgram) -> bool {
    forall|f: int, r: int|
        0 <= f < sp.functions@.len() && 0 <= r < sp.functions@[f].returns@.len() ==> site_ok(cfg, #[trigger] sp.functions@[f].returns@[r])
}

/// A semantic program is valid against its program and recovered functions.
pub open spec fn semantic_valid(cfg: ControlFlowGraph, fg: FunctionControlFlowGraph, sp: SemanticProgram) -> bool {
    &&& metadata_ok(cfg, fg, sp)
    &&& all_blocks_ok(cfg, sp)
    &&& blocks_distinct(sp)
    &&& ownership_matches(sp)
    &&& entry_owned(cfg, sp)
    &&& calls_ok(cfg, sp)
    &&& returns_ok(cfg, sp)
}

// ---------------------------------------------------------------------------
// What each refusal says
// ---------------------------------------------------------------------------

/// `"block <id><suffix>"`.
pub open spec fn block_text(id: usize, suffix: Seq<char>) -> Seq<char> {
    "block "@ + decimal(id as nat) + suffix
}

/// `<prefix><n><suffix>`.
pub open spec fn numbered_text(prefix: Seq<char>, n: usize, suffix: Seq<char>) -> Seq<char> {
    prefix + decimal(n as nat) + suffix
}

/// The message names the way the semantic instruction departs from its
/// source in block `id`.
pub open spec fn instruction_error(ir: IrInstruction, s: SemanticInstruction, id: usize, msg: Seq<char>) -> bool {
    ||| msg == block_text(id, " instruction identity changed"@) && (s.address != ir.address || s.size != ir.size)
    ||| msg == block_text(id, " contains an empty semantic instruction"@) && s.ops@.len() == 0
    ||| msg == block_text(id, " instruction reads changed"@) && !sorted_set_of(s.reads@, all_reads(ir.ops@))
    ||| msg == block_text(id, " instruction writes changed"@) && !sorted_set_of(s.writes@, all_writes(ir.ops@))
    ||| msg == block_text(id, " instruction flag effects changed"@) && s.flags != flag_effect_of(ir)
    ||| msg == block_text(id, " instruction memory effects changed"@) && s.memory != semantic_memory(first_memory(ir.ops@))
    ||| msg == block_text(id, " instruction control effect changed"@) && last_control(s.ops@) != last_control(ir.ops@)
}

/// The message names the way the placement of control effects in a block
/// is wrong.
pub open spec fn placement_error(b: SemanticBlock, msg: Seq<char>) -> bool {
    ||| msg == block_text(b.id.0, " contains multiple control-effect instructions"@) && two_controls(b.instructions@)
    ||| msg == block_text(b.id.0, " has control effect before its final instruction"@) && !placement_ok(b.instructions@)
}

/// The message names the way a semantic block departs from its source
/// block.
pub open spec fn source_error(cfg: ControlFlowGraph, b: SemanticBlock, msg: Seq<char>) -> bool {
    let id = b.id.0;
    let n = cfg.blocks@.len();
    ||| msg == numbered_text("semantic block "@, id, " does not exist in source CFG"@) && id >= n
    ||| msg == numbered_text("semantic block "@, id, " has mismatched source identity"@) && id < n && cfg.blocks@[id as int].id.0 != id
    ||| msg == block_text(id, " address/mode changed during semantic lowering"@) && id < n && (cfg.blocks@[id as int].key.address
        != b.address || cfg.blocks@[id as int].key.mode != b.mode)
    ||| msg == block_text(id, " instruction count changed during semantic lowering"@) && id < n && cfg.blocks@[id as int].instructions@.len()
        != b.instructions@.len()
    ||| exists|m: int|
        id < n && 0 <= m < cfg.blocks@[id as int].ir@.len() && 0 <= m < b.instructions@.len() && instruction_error(
            cfg.blocks@[id as int].ir@[m],
            #[trigger] b.instructions@[m],
            id,
            msg,
        )
    ||| msg == block_text(id, " contains no semantic instructions"@) && b.instructions@.len() == 0
    ||| placement_error(b, msg)
}

/// The final instruction's control effect matches the terminator's kind.
pub open spec fn terminator_agrees(b: SemanticBlock) -> bool {
    let e = final_effect(b);
    match b.terminator {
        SemanticTerminator::Fallthrough => e == IrControlEffect::Sequential,
        SemanticTerminator::Branch { target, condition } => e == (IrControlEffect::Branch { target, condition, link: false }),
        SemanticTerminator::Call { target, condition } => e == (IrControlEffect::Branch { target, condition, link: true }),
        SemanticTerminator::Return => e == (IrControlEffect::BranchExchange { register: 14, link: false }),
        SemanticTerminator::IndirectCall { register, mode } => e == (IrControlEffect::BranchExchange { register, link: true }) && mode
            == b.mode,
        SemanticTerminator::IndirectBranch { register } => e == (IrControlEffect::BranchExchange { register, link: false }),
        SemanticTerminator::SoftwareInterrupt { comment } => e == IrControlEffect::Unknown && b.instructions@.len() > 0
            && swi_comment(b.instructions@.last().ops@) == Some(comment),
        SemanticTerminator::Unknown => e == IrControlEffect::Unknown,
    }
}

/// The message names the way a block's successors or terminator are wrong.
pub open spec fn edge_error(cfg: ControlFlowGraph, b: SemanticBlock, msg: Seq<char>) -> bool {
    let id = b.id.0;
    ||| exists|k: int|
        0 <= k < b.successors@.len() && msg == block_text(id, " has invalid successor "@) + decimal(
            (#[trigger] b.successors@[k]).0 as nat,
        ) && b.successors@[k].0 >= cfg.blocks@.len()
    ||| msg == block_text(id, " semantic successors differ from source control-flow contract"@) && id < cfg.blocks@.len()
        && b.successors@ != (if ends_execution(b.terminator) {
        Seq::empty()
    } else {
        cfg.blocks@[id as int].successors@
    })
    ||| msg == block_text(id, " terminator disagrees with terminal control effect"@) && !terminator_agrees(b)
    ||| msg == numbered_text("branch block "@, id, " lost its direct target successor"@) && b.terminator is Branch && !reaches_address(
        cfg,
        b,
        b.terminator->Branch_target,
    )
    ||| msg == numbered_text("call block "@, id, " lost its continuation"@) && b.terminator is Call && b.successors@.len() == 0
    ||| msg == numbered_text("indirect call block "@, id, " lost its continuation"@) && b.terminator is IndirectCall
        && b.successors@.len() == 0
}

/// The message names the way block `k` of function `f` is wrong.
pub open spec fn block_error(cfg: ControlFlowGraph, sp: SemanticProgram, f: int, k: int, msg: Seq<char>) -> bool {
    let b = sp.functions@[f].blocks@[k];
    &&& 0 <= f < sp.functions@.len()
    &&& 0 <= k < sp.functions@[f].blocks@.len()
    &&& {
        ||| source_error(cfg, b, msg)
        ||| edge_error(cfg, b, msg)
        ||| msg == block_text(b.id.0, " belongs to multiple functions"@) && exists|f2: int, k2: int|
            0 <= f2 < sp.functions@.len() && 0 <= k2 < sp.functions@[f2].blocks@.len() && (f2 != f || k2 != k) && (
            #[trigger] sp.functions@[f2].blocks@[k2]).id == b.id
    }
}

/// The message names the way some block of function `f` is wrong.
pub open spec fn function_blocks_error(cfg: ControlFlowGraph, sp: SemanticProgram, f: int, msg: Seq<char>) -> bool {
    exists|k: int| #[trigger] block_error(cfg, sp, f, k, msg)
}

/// The message names the way some block of the program is wrong.
pub open spec fn blocks_error(cfg: ControlFlowGraph, sp: SemanticProgram, msg: Seq<char>) -> bool {
    exists|f: int| #[trigger] function_blocks_error(cfg, sp, f, msg)
}

/// The message names the way function `i` is wrong.
pub open spec fn function_error(cfg: ControlFlowGraph, sp: SemanticProgram, i: int, msg: Seq<char>) -> bool {
    let f = sp.functions@[i];
    &&& 0 <= i < sp.functions@.len()
    &&& {
        ||| msg == numbered_text("semantic function id "@, f.id.0, " is not at vector index "@) + decimal(i as nat) && f.id.0 != i
        ||| msg == numbered_text("invalid semantic function "@, f.id.0, " entry block"@) && f.entry.0 >= cfg.blocks@.len()
        ||| msg == numbered_text("function "@, f.id.0, " does not contain its entry block "@) + decimal(f.entry.0 as nat) && !exists|k: int|
            0 <= k < f.blocks@.len() && (#[trigger] f.blocks@[k]).id == f.entry
        ||| exists|s: int|
            0 <= s < f.successors@.len() && msg == numbered_text("function "@, f.id.0, " has invalid function successor "@) + decimal(
                (#[trigger] f.successors@[s]).0 as nat,
            ) && f.successors@[s].0 >= sp.functions@.len()
    }
}

/// The message names the way the program's function list departs from the
/// recovered functions.
pub open spec fn metadata_error(cfg: ControlFlowGraph, fg: FunctionControlFlowGraph, sp: SemanticProgram, msg: Seq<char>) -> bool {
    ||| msg == "semantic/function count mismatch"@ && sp.functions@.len() != fg.functions@.len()
    ||| msg == "semantic entry function differs from function recovery"@ && (fg.entry.0 >= fg.functions@.len() || sp.entry != fg.entry)
    ||| msg == "semantic entry function does not own the CFG entry block"@ && fg.entry.0 < fg.functions@.len()
        && fg.functions@[fg.entry.0 as int].entry != cfg.entry
    ||| exists|i: int| #[trigger] function_error(cfg, sp, i, msg)
}

/// The message names a site that is not an instruction of the graph.
pub open spec fn site_error(cfg: ControlFlowGraph, sites: Seq<ReturnSite>, prefix: Seq<char>, msg: Seq<char>) -> bool {
    exists|j: int|
        0 <= j < sites.len() && !site_ok(cfg, #[trigger] sites[j]) && msg == numbered_text(prefix, sites[j].block.0, ":"@) + decimal(
            sites[j].instruction_index as nat,
        )
}

/// The message names the way a call site is wrong.
pub open spec fn call_error(cfg: ControlFlowGraph, sp: SemanticProgram, c: CallSite, msg: Seq<char>) -> bool {
    ||| msg == numbered_text("call site references invalid block "@, c.block.0, ""@) && c.block.0 >= cfg.blocks@.len()
    ||| msg == numbered_text("call site references invalid instruction "@, c.instruction_index, " in block "@) + decimal(c.block.0 as nat)
        && c.block.0 < cfg.blocks@.len() && c.instruction_index >= cfg.blocks@[c.block.0 as int].ir@.len()
    ||| c.return_block is Some && msg == numbered_text("call continuation "@, (c.return_block->0).0, " is not owned by a function"@) && !(
    (c.return_block->0).0 < sp.block_to_function@.len() && sp.block_to_function@[(c.return_block->0).0 as int] is Some)
    ||| site_error(cfg, c.return_sites@, "call site references invalid return site "@, msg)
}

/// The message names a real way the semantic program fails validation.
pub open spec fn semantic_error(cfg: ControlFlowGraph, fg: FunctionControlFlowGraph, sp: SemanticProgram, msg: Seq<char>) -> bool {
    ||| metadata_error(cfg, fg, sp, msg)
    ||| blocks_error(cfg, sp, msg)
    ||| msg == "semantic block ownership differs from function recovery"@ && !ownership_matches(sp)
    ||| msg == "CFG entry block is not owned by semantic entry function"@ && !entry_owned(cfg, sp)
    ||| exists|f: int, c: int|
        0 <= f < sp.functions@.len() && 0 <= c < sp.functions@[f].calls@.len() && call_error(cfg, sp, #[trigger] sp.functions@[f].calls@[c], msg)
    ||| exists|f: int|
        0 <= f < sp.functions@.len() && site_error(cfg, (#[trigger] sp.functions@[f]).returns@, "return site references invalid instruction "@, msg)
}

fn check_function_shape(cfg: &ControlFlowGraph, sp: &SemanticProgram, i: usize) -> (r: Result<(), String>)
    requires
        i < sp.functions@.len(),
    ensures
        r is Ok <==> function_shape_ok(*cfg, *sp, i as int),
        r matches Err(e) ==> function_error(*cfg, *sp, i as int, e@),
{
    let f = &sp.functions[i];
    if f.id.0 != i {
        let mut e = numbered("semantic function id ", f.id.0, " is not at vector index ");
        push_decimal(&mut e, i);
        return Err(e);
    }
    if f.entry.0 >= cfg.blocks.len() {
        return Err(numbered("invalid semantic function ", f.id.0, " entry block"));
    }
    let mut k: usize = 0;
    let mut holds = false;
    while k < f.blocks.len()
        invariant
            k <= f.blocks@.len(),
            holds == exists|j: int| 0 <= j < k && (#[trigger] f.blocks@[j]).id == f.entry,
        decreases f.blocks@.len() - k,
    {
        if f.blocks[k].id.0 == f.entry.0 {
            holds = true;
        }
        k = k + 1;
    }
    if !holds {
        let mut e = numbered("function ", f.id.0, " does not contain its entry block ");
        push_decimal(&mut e, f.entry.0);
        return Err(e);
    }
    let mut s: usize = 0;
    while s < f.successors.len()
        invariant
            i < sp.functions@.len(),
            *f == sp.functions@[i as int],
            s <= f.successors@.len(),
            forall|j: int| 0 <= j < s ==> (#[trigger] f.successors@[j]).0 < sp.functions@.len(),
        decreases f.successors@.len() - s,
    {
        if f.successors[s].0 >= sp.functions.len() {
            let mut e = numbered("function ", f.id.0, " has invalid function successor ");
            push_decimal(&mut e, f.successors[s].0);
            return Err(e);
        }
        s = s + 1;
    }
    Ok(())
}

fn check_metadata(program: &Program, fg: &FunctionControlFlowGraph, sp: &SemanticProgram) -> (r: Result<(), String>)
    ensures
        r is Ok <==> metadata_ok(program.cfg, *fg, *sp),
        r matches Err(e) ==> metadata_error(program.cfg, *fg, *sp, e@),
{
    if sp.functions.len() != fg.functions.len() {
        return Err(String::from_str("semantic/function count mismatch"));
    }
    if fg.entry.0 >= fg.functions.len() || sp.entry.0 != fg.entry.0 {
        return Err(String::from_str("semantic entry function differs from function recovery"));
    }
    if fg.functions[sp.entry.0].entry.0 != program.cfg.entry.0 {
        return Err(String::from_str("semantic entry function does not own the CFG entry block"));
    }
    let mut i: usize = 0;
    while i < sp.functions.len()
        invariant
            i <= sp.functions@.len(),
            forall|j: int| 0 <= j < i ==> #[trigger] function_shape_ok(program.cfg, *sp, j),
        decreases sp.functions@.len() - i,
    {
        match check_function_shape(&program.cfg, sp, i) {
            Err(e) => {
                return Err(e);
            },
            Ok(()) => {},
        }
        i = i + 1;
    }
    Ok(())
}

/// Block `k` of function `f` comes before block `k0` of function `f0` in
/// the order the blocks are checked.
pub open spec fn done_before(sp: SemanticProgram, f0: int, k0: int, f: int, k: int) -> bool {
    &&& 0 <= f < sp.functions@.len()
    &&& 0 <= k < sp.functions@[f].blocks@.len()
    &&& (f < f0 || (f == f0 && k < k0))
}

/// What the scan knows once every block before `(f0, k0)` is checked:
/// each is valid, no two share an id, and `owned` records who holds each id.
pub open spec fn scan_state(cfg: ControlFlowGraph, sp: SemanticProgram, f0: int, k0: int, owned: Seq<Option<FunctionId>>) -> bool {
    &&& owned.len() == cfg.blocks@.len()
    &&& forall|f: int, k: int|
        done_before(sp, f0, k0, f, k) ==> {
            &&& block_ok(cfg, #[trigger] sp.functions@[f].blocks@[k])
            &&& owned[sp.functions@[f].blocks@[k].id.0 as int] == Some(sp.functions@[f].id)
        }
    &&& forall|f1: int, k1: int, f2: int, k2: int|
        done_before(sp, f0, k0, f1, k1) && done_before(sp, f0, k0, f2, k2) && (f1 != f2 || k1 != k2) ==> (
        #[trigger] sp.functions@[f1].blocks@[k1]).id != (#[trigger] sp.functions@[f2].blocks@[k2]).id
    &&& forall|b: int|
        0 <= b < owned.len() && (#[trigger] owned[b]) is Some ==> exists|f: int, k: int|
            done_before(sp, f0, k0, f, k) && (#[trigger] sp.functions@[f].blocks@[k]).id.0 == b
}

fn check_function_blocks(cfg: &ControlFlowGraph, sp: &SemanticProgram, f0: usize, owned: &mut Vec<Option<FunctionId>>) -> (r: Result<
    (),
    String,
>)
    requires
        f0 < sp.functions@.len(),
        scan_state(*cfg, *sp, f0 as int, 0, old(owned)@),
    ensures
        r is Ok ==> scan_state(*cfg, *sp, f0 + 1, 0, final(owned)@),
        r is Err ==> !(all_blocks_ok(*cfg, *sp) && blocks_distinct(*sp)),
        r matches Err(e) ==> function_blocks_error(*cfg, *sp, f0 as int, e@),
{
    let function = &sp.functions[f0];
    let mut k: usize = 0;
    while k < function.blocks.len()
        invariant
            f0 < sp.functions@.len(),
            *function == sp.functions@[f0 as int],
            k <= function.blocks@.len(),
            scan_state(*cfg, *sp, f0 as int, k as int, owned@),
        decreases function.blocks@.len() - k,
    {
        let block = &function.blocks[k];
        let ghost here = sp.functions@[f0 as int].blocks@[k as int];
        match check_against_source(cfg, block) {
            Err(e) => {
                proof {
                    assert(block_error(*cfg, *sp, f0 as int, k as int, e@));
                    assert(function_blocks_error(*cfg, *sp, f0 as int, e@));
                }
                return Err(e);
            },
            Ok(()) => {},
        }
        let id = block.id.0;
        if owned[id].is_some() {
            let msg = block_message(id, " belongs to multiple functions");
            proof {
                let (f, kk) = choose|f: int, kk: int|
                    done_before(*sp, f0 as int, k as int, f, kk) && (#[trigger] sp.functions@[f].blocks@[kk]).id.0 == id;
                if blocks_distinct(*sp) {
                    assert(sp.functions@[f].blocks@[kk].id != sp.functions@[f0 as int].blocks@[k as int].id);
                }
                assert(sp.functions@[f].blocks@[kk].id == sp.functions@[f0 as int].blocks@[k as int].id);
                assert(f != f0 || kk != k);
                assert(block_error(*cfg, *sp, f0 as int, k as int, msg@));
                assert(function_blocks_error(*cfg, *sp, f0 as int, msg@));
            }
            return Err(msg);
        }
        match check_successors(cfg, block) {
            Err(e) => {
                proof {
                    assert(block_error(*cfg, *sp, f0 as int, k as int, e@));
                    assert(function_blocks_error(*cfg, *sp, f0 as int, e@));
                }
                return Err(e);
            },
            Ok(()) => {},
        }
        match check_terminator(cfg, block) {
            Err(e) => {
                proof {
                    assert(block_error(*cfg, *sp, f0 as int, k as int, e@));
                    assert(function_blocks_error(*cfg, *sp, f0 as int, e@));
                }
                return Err(e);
            },
            Ok(()) => {},
        }
        let ghost before = owned@;
        owned.set(id, Some(function.id));
        proof {
            assert forall|f: int, kk: int| done_before(*sp, f0 as int, k + 1, f, kk) implies {
                &&& block_ok(*cfg, #[trigger] sp.functions@[f].blocks@[kk])
                &&& owned@[sp.functions@[f].blocks@[kk].id.0 as int] == Some(sp.functions@[f].id)
            } by {
                if !(f == f0 && kk == k) {
                    assert(done_before(*sp, f0 as int, k as int, f, kk));
                    assert(sp.functions@[f].blocks@[kk].id.0 != id);
                }
            }
            assert forall|f1: int, k1: int, f2: int, k2: int|
                done_before(*sp, f0 as int, k + 1, f1, k1) && done_before(*sp, f0 as int, k + 1, f2, k2) && (f1 != f2 || k1 != k2) implies (
            #[trigger] sp.functions@[f1].blocks@[k1]).id != (#[trigger] sp.functions@[f2].blocks@[k2]).id by {
                if f1 == f0 && k1 == k {
                    assert(done_before(*sp, f0 as int, k as int, f2, k2));
                    assert(before[sp.functions@[f2].blocks@[k2].id.0 as int] is Some);
                } else if f2 == f0 && k2 == k {
                    assert(done_before(*sp, f0 as int, k as int, f1, k1));
                    assert(before[sp.functions@[f1].blocks@[k1].id.0 as int] is Some);
                }
            }
            assert forall|b: int| 0 <= b < owned@.len() && (#[trigger] owned@[b]) is Some implies exists|f: int, kk: int|
                done_before(*sp, f0 as int, k + 1, f, kk) && (#[trigger] sp.functions@[f].blocks@[kk]).id.0 == b by {
                if b == id {
                    assert(sp.functions@[f0 as int].blocks@[k as int].id.0 == b);
                } else {
                    assert(before[b] is Some);
                    let (f, kk) = choose|f: int, kk: int|
                        done_before(*sp, f0 as int, k as int, f, kk) && (#[trigger] sp.functions@[f].blocks@[kk]).id.0 == b;
                    assert(done_before(*sp, f0 as int, k + 1, f, kk));
                }
            }
        }
        k = k + 1;
    }
    proof {
        assert forall|f: int, kk: int| done_before(*sp, f0 + 1, 0, f, kk) implies done_before(*sp, f0 as int, k as int, f, kk) by {}
        assert forall|f: int, kk: int| done_before(*sp, f0 as int, k as int, f, kk) implies done_before(*sp, f0 + 1, 0, f, kk) by {}
    }
    Ok(())
}

fn check_blocks(cfg: &ControlFlowGraph, sp: &SemanticProgram) -> (r: Result<Vec<Option<FunctionId>>, String>)
    ensures
        r is Ok <==> all_blocks_ok(*cfg, *sp) && blocks_distinct(*sp),
        r matches Ok(owned) ==> scan_state(*cfg, *sp, sp.functions@.len() as int, 0, owned@),
        r matches Err(e) ==> blocks_error(*cfg, *sp, e@),
{
    let mut owned: Vec<Option<FunctionId>> = Vec::new();
    let mut b: usize = 0;
    while b < cfg.blocks.len()
        invariant
            b <= cfg.blocks@.len(),
            owned@.len() == b,
            forall|j: int| 0 <= j < b ==> (#[trigger] owned@[j]) is None,
        decreases cfg.blocks@.len() - b,
    {
        owned.push(None);
        b = b + 1;
    }
    let mut f: usize = 0;
    while f < sp.functions.len()
        invariant
            f <= sp.functions@.len(),
            scan_state(*cfg, *sp, f as int, 0, owned@),
        decreases sp.functions@.len() - f,
    {
        match check_function_blocks(cfg, sp, f, &mut owned) {
            Err(e) => {
                proof {
                    assert(function_blocks_error(*cfg, *sp, f as int, e@));
                }
                return Err(e);
            },
            Ok(()) => {},
        }
        f = f + 1;
    }
    proof {
        let n = sp.functions@.len() as int;
        assert forall|g: int, k: int| 0 <= g < n && 0 <= k < sp.functions@[g].blocks@.len() implies block_ok(
            *cfg,
            #[trigger] sp.functions@[g].blocks@[k],
        ) by {
            assert(done_before(*sp, n, 0, g, k));
        }
        assert forall|f1: int, k1: int, f2: int, k2: int|
            0 <= f1 < n && 0 <= k1 < sp.functions@[f1].blocks@.len() && 0 <= f2 < n && 0 <= k2 < sp.functions@[f2].blocks@.len() && (f1
                != f2 || k1 != k2) implies (#[trigger] sp.functions@[f1].blocks@[k1]).id != (#[trigger] sp.functions@[f2].blocks@[k2]).id by {
            assert(done_before(*sp, n, 0, f1, k1));
            assert(done_before(*sp, n, 0, f2, k2));
        }
    }
    Ok(owned)
}

fn same_owner(a: Option<FunctionId>, b: Option<FunctionId>) -> (r: bool)
    ensures
        r == (a == b),
{
    match (a, b) {
        (None, None) => true,
        (Some(x), Some(y)) => x.0 == y.0,
        _ => false,
    }
}

fn check_ownership(cfg: &ControlFlowGraph, sp: &SemanticProgram, owned: &Vec<Option<FunctionId>>) -> (r: Result<(), String>)
    requires
        scan_state(*cfg, *sp, sp.functions@.len() as int, 0, owned@),
    ensures
        r is Ok <==> ownership_matches(*sp),
        r matches Err(e) ==> e@ == "semantic block ownership differs from function recovery"@,
{
    let ghost n = sp.functions@.len() as int;
    let btf = &sp.block_to_function;
    let len = if owned.len() < btf.len() {
        btf.len()
    } else {
        owned.len()
    };
    let mut b: usize = 0;
    while b < len
        invariant
            n == sp.functions@.len(),
            scan_state(*cfg, *sp, n, 0, owned@),
            len == owned@.len() || len == btf@.len(),
            owned@.len() <= len,
            btf@.len() <= len,
            *btf == sp.block_to_function,
            b <= len,
            forall|j: int|
                0 <= j < b ==> (if j < owned@.len() {
                    owned@[j]
                } else {
                    None
                }) == (if j < btf@.len() {
                    #[trigger] btf@[j]
                } else {
                    None
                }),
            forall|j: int| 0 <= j < b && j >= btf@.len() ==> (#[trigger] owned@[j]) is None,
        decreases len - b,
    {
        let x = if b < owned.len() {
            owned[b]
        } else {
            None
        };
        let y = if b < btf.len() {
            btf[b]
        } else {
            None
        };
        if !same_owner(x, y) {
            proof {
                if ownership_matches(*sp) {
                    if x is Some {
                        let (f, k) = choose|f: int, k: int| done_before(*sp, n, 0, f, k) && (#[trigger] sp.functions@[f].blocks@[k]).id.0 == b;
                        assert(sp.functions@[f].blocks@[k].id.0 == b);
                    } else {
                        assert(btf@[b as int] is Some);
                        let (f, k) = choose|f: int, k: int|
                            0 <= f < sp.functions@.len() && 0 <= k < sp.functions@[f].blocks@.len() && (#[trigger] sp.functions@[f].blocks@[k]).id.0
                                == b;
                        assert(done_before(*sp, n, 0, f, k));
                        assert(block_ok(*cfg, sp.functions@[f].blocks@[k]));
                    }
                }
            }
            return Err(String::from_str("semantic block ownership differs from function recovery"));
        }
        b = b + 1;
    }
    proof {
        assert forall|f: int, k: int| 0 <= f < n && 0 <= k < sp.functions@[f].blocks@.len() implies {
            let id = (#[trigger] sp.functions@[f].blocks@[k]).id.0;
            id < sp.block_to_function@.len() && sp.block_to_function@[id as int] == Some(sp.functions@[f].id)
        } by {
            assert(done_before(*sp, n, 0, f, k));
            let id = sp.functions@[f].blocks@[k].id.0 as int;
            assert(block_ok(*cfg, sp.functions@[f].blocks@[k]));
            assert(owned@[id] is Some);
            if id >= btf@.len() {
                assert(owned@[id] is None);
            }
            assert(btf@[id] == owned@[id]);
        }
        assert forall|j: int| 0 <= j < sp.block_to_function@.len() && (#[trigger] sp.block_to_function@[j]) is Some implies exists|f: int, k: int|
            0 <= f < sp.functions@.len() && 0 <= k < sp.functions@[f].blocks@.len() && (#[trigger] sp.functions@[f].blocks@[k]).id.0 == j by {
            assert(btf@[j] is Some);
            assert(j < owned@.len());
            assert(owned@[j] is Some);
            let (f, k) = choose|f: int, k: int| done_before(*sp, n, 0, f, k) && (#[trigger] sp.functions@[f].blocks@[k]).id.0 == j;
            assert(sp.functions@[f].blocks@[k].id.0 == j);
        }
    }
    Ok(())
}

fn check_sites(cfg: &ControlFlowGraph, sites: &Vec<ReturnSite>, prefix: &str) -> (r: Result<(), String>)
    ensures
        r is Ok <==> forall|j: int| 0 <= j < sites@.len() ==> site_ok(*cfg, #[trigger] sites@[j]),
        r matches Err(e) ==> site_error(*cfg, sites@, prefix@, e@),
{
    let mut j: usize = 0;
    while j < sites.len()
        invariant
            j <= sites@.len(),
            forall|i: int| 0 <= i < j ==> site_ok(*cfg, #[trigger] sites@[i]),
        decreases sites@.len() - j,
    {
        let site = sites[j];
        if site.block.0 >= cfg.blocks.len() || site.instruction_index >= cfg.blocks[site.block.0].instructions.len() {
            let mut e = numbered(prefix, site.block.0, ":");
            push_decimal(&mut e, site.instruction_index);
            return Err(e);
        }
        j = j + 1;
    }
    Ok(())
}

fn check_call(cfg: &ControlFlowGraph, sp: &SemanticProgram, call: &CallSite) -> (r: Result<(), String>)
    ensures
        r is Ok <==> call_ok(*cfg, *sp, *call),
        r matches Err(e) ==> call_error(*cfg, *sp, *call, e@),
{
    let block = call.block.0;
    if block >= cfg.blocks.len() {
        return Err(numbered("call site references invalid block ", block, ""));
    }
    if call.instruction_index >= cfg.blocks[block].ir.len() {
        let mut e = numbered("call site references invalid instruction ", call.instruction_index, " in block ");
        push_decimal(&mut e, block);
        return Err(e);
    }
    if let Some(rb) = call.return_block {
        if rb.0 >= sp.block_to_function.len() || sp.block_to_function[rb.0].is_none() {
            return Err(numbered("call continuation ", rb.0, " is not owned by a function"));
        }
    }
    check_sites(cfg, &call.return_sites, "call site references invalid return site ")
}

fn check_calls(cfg: &ControlFlowGraph, sp: &SemanticProgram) -> (r: Result<(), String>)
    ensures
        r is Ok <==> calls_ok(*cfg, *sp),
        r matches Err(e) ==> exists|f: int, c: int|
            0 <= f < sp.functions@.len() && 0 <= c < sp.functions@[f].calls@.len() && call_error(*cfg, *sp, #[trigger] sp.functions@[f].calls@[c], e@),
{
    let mut f: usize = 0;
    while f < sp.functions.len()
        invariant
            f <= sp.functions@.len(),
            forall|g: int, c: int|
                0 <= g < f && 0 <= c < sp.functions@[g].calls@.len() ==> call_ok(*cfg, *sp, #[trigger] sp.functions@[g].calls@[c]),
        decreases sp.functions@.len() - f,
    {
        let calls = &sp.functions[f].calls;
        let mut c: usize = 0;
        while c < calls.len()
            invariant
                f < sp.functions@.len(),
                *calls == sp.functions@[f as int].calls,
                c <= calls@.len(),
                forall|g: int, d: int|
                    0 <= g < f && 0 <= d < sp.functions@[g].calls@.len() ==> call_ok(*cfg, *sp, #[trigger] sp.functions@[g].calls@[d]),
                forall|d: int| 0 <= d < c ==> call_ok(*cfg, *sp, #[trigger] calls@[d]),
            decreases calls@.len() - c,
        {
            match check_call(cfg, sp, &calls[c]) {
                Err(e) => {
                    return Err(e);
                },
                Ok(()) => {},
            }
            c = c + 1;
        }
        f = f + 1;
    }
    Ok(())
}

fn check_returns(cfg: &ControlFlowGraph, sp: &SemanticProgram) -> (r: Result<(), String>)
    ensures
        r is Ok <==> returns_ok(*cfg, *sp),
        r matches Err(e) ==> exists|f: int|
            0 <= f < sp.functions@.len() && site_error(*cfg, (#[trigger] sp.functions@[f]).returns@, "return site references invalid instruction "@, e@),
{
    let mut f: usize = 0;
    while f < sp.functions.len()
        invariant
            f <= sp.functions@.len(),
            forall|g: int, j: int|
                0 <= g < f && 0 <= j < sp.functions@[g].returns@.len() ==> site_ok(*cfg, #[trigger] sp.functions@[g].returns@[j]),
        decreases sp.functions@.len() - f,
    {
        match check_sites(cfg, &sp.functions[f].returns, "return site references invalid instruction ") {
            Err(e) => {
                return Err(e);
            },
            Ok(()) => {},
        }
        f = f + 1;
    }
    Ok(())
}

/// Checks a semantic program against the program and the functions it was
/// lowered from; the error names the first disagreement found.
pub fn validate_semantic_program(program: &Program, functions: &FunctionControlFlowGraph, semantic: &SemanticProgram) -> (r: Result<
    (),
    String,
>)
    ensures
        r is Ok <==> semantic_valid(program.cfg, *functions, *semantic),
        r matches Err(e) ==> semantic_error(program.cfg, *functions, *semantic, e@),
{
    match check_metadata(program, functions, semantic) {
        Err(e) => {
            return Err(e);
        },
        Ok(()) => {},
    }
    let owned = match check_blocks(&program.cfg, semantic) {
        Err(e) => {
            return Err(e);
        },
        Ok(owned) => owned,
    };
    match check_ownership(&program.cfg, semantic, &owned) {
        Err(e) => {
            return Err(e);
        },
        Ok(()) => {},
    }
    let entry = program.cfg.entry.0;
    let owner = if entry < semantic.block_to_function.len() {
        semantic.block_to_function[entry]
    } else {
        None
    };
    if !same_owner(owner, Some(semantic.entry)) {
        return Err(String::from_str("CFG entry block is not owned by semantic entry function"));
    }
    match check_calls(&program.cfg, semantic) {
        Err(e) => {
            return Err(e);
        },
        Ok(()) => {},
    }
    check_returns(&program.cfg, semantic)
}

} // verus!
