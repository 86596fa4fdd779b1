//! Building SSA form: each register starts a function with a value of its
//! own, every register write makes a new value, and where predecessors leave
//! a register with different values a phi joins them.
use vstd::prelude::*;

use crate::cfg::partition::sorted_distinct;
use crate::cfg::BlockId;
use crate::function::copy_ids;
use crate::ir::{IrOp, Value};
use crate::semantic_ir::{SemanticFunction, SemanticInstruction, SemanticProgram};

use super::{fsite, inst_defs, SsaBlock, SsaFunction, SsaInstruction, SsaOp, SsaPhi, SsaProgram, SsaValue, ValueDef, ValueId};

verus! {

// ---------------------------------------------------------------------------
// Register states
// ---------------------------------------------------------------------------

pub open spec fn def_register(d: ValueDef) -> u8 {
    match d {
        ValueDef::Entry { register } => register,
        ValueDef::Phi { register, .. } => register,
        ValueDef::Instruction { register, .. } => register,
    }
}

/// `v` is a recorded value of register `r`.
pub open spec fn holds(defs: Seq<ValueDef>, r: int, v: ValueId) -> bool {
    v.0 < defs.len() && def_register(defs[v.0 as int]) == r
}

/// Every value in the state belongs to its register.
pub open spec fn state_ok(defs: Seq<ValueDef>, s: Seq<Option<ValueId>>) -> bool {
    s.len() == 16 && forall|r: int| 0 <= r < 16 && (#[trigger] s[r]) is Some ==> holds(defs, r, s[r].unwrap())
}

pub open spec fn all_some(s: Seq<Option<ValueId>>) -> bool {
    forall|r: int| 0 <= r < 16 ==> (#[trigger] s[r]) is Some
}

// ---------------------------------------------------------------------------
// The semantic function
// ---------------------------------------------------------------------------

/// Block `q` follows block `p`.
pub open spec fn succ_of(f: SemanticFunction, p: int, q: int) -> bool {
    f.blocks@[p].successors@.contains(f.blocks@[q].id)
}

/// Which blocks are reached from the entry along at most `k` edges.
pub open spec fn reach_seq(f: SemanticFunction, k: nat) -> Seq<bool>
    decreases k,
{
    if k == 0 {
        Seq::new(f.blocks@.len(), |q: int| f.blocks@[q].id == f.entry)
    } else {
        let prev = reach_seq(f, (k - 1) as nat);
        Seq::new(
            f.blocks@.len(),
            |q: int| prev[q] || exists|p: int| 0 <= p < f.blocks@.len() && #[trigger] prev[p] && succ_of(f, p, q),
        )
    }
}

/// Block `q` is reached from the entry along at most `k` edges.
pub open spec fn in_reach(f: SemanticFunction, q: int, k: nat) -> bool {
    reach_seq(f, k)[q]
}

pub open spec fn first_op(ins: SemanticInstruction) -> IrOp {
    ins.ops@[0]
}

/// The instruction gives register `r` a new value.
pub open spec fn defines(ins: SemanticInstruction, r: int) -> bool {
    match first_op(ins) {
        IrOp::Mov { dst, .. } => r == dst,
        IrOp::Add { dst, .. } => r == dst,
        IrOp::Sub { dst, .. } => r == dst,
        IrOp::Load { dst, .. } => r == dst,
        IrOp::Branch { link, .. } => link && r == 14,
        IrOp::BranchExchange { link, .. } => link && r == 14,
        IrOp::ArmExtended { .. } => 0 <= r < 16 && ins.writes@.contains(r as u8),
        IrOp::ThumbExtended { .. } => 0 <= r < 16 && ins.writes@.contains(r as u8),
        _ => false,
    }
}

pub open spec fn value_in_range(v: Value) -> bool {
    match v {
        Value::Reg(r) => r < 16,
        Value::Imm(_) => true,
    }
}

/// The registers the operation names are registers of the machine.
pub open spec fn op_in_range(op: IrOp) -> bool {
    match op {
        IrOp::Mov { dst, src } => dst < 16 && value_in_range(src),
        IrOp::Add { dst, lhs, rhs } => dst < 16 && lhs < 16 && value_in_range(rhs),
        IrOp::Sub { dst, lhs, rhs } => dst < 16 && lhs < 16 && value_in_range(rhs),
        IrOp::Cmp { lhs, rhs } => lhs < 16 && value_in_range(rhs),
        IrOp::Load { dst, base, .. } => dst < 16 && base < 16,
        IrOp::Store { src, base, .. } => src < 16 && base < 16,
        IrOp::BranchExchange { register, .. } => register < 16,
        _ => true,
    }
}

/// The number of instructions among blocks `..q`.
pub open spec fn instrs_upto(f: SemanticFunction, q: int) -> nat
    decreases q,
{
    if q <= 0 {
        0
    } else {
        instrs_upto(f, q - 1) + f.blocks@[q - 1].instructions@.len()
    }
}

/// The most values lowering the function can make: sixteen at entry, and
/// sixteen for each block and each instruction.
pub open spec fn fn_budget(f: SemanticFunction) -> nat {
    16 + 16 * f.blocks@.len() + 16 * instrs_upto(f, f.blocks@.len() as int)
}

/// A function SSA form can be built for: its blocks have distinct
/// identities, one of them is its entry and every one is reached from it;
/// every instruction has an operation naming machine registers.
pub open spec fn fn_ready(f: SemanticFunction) -> bool {
    let n = f.blocks@.len();
    &&& forall|p: int, q: int| 0 <= p < n && 0 <= q < n && p != q ==> (#[trigger] f.blocks@[p]).id != (#[trigger] f.blocks@[q]).id
    &&& exists|e: int| 0 <= e < n && (#[trigger] f.blocks@[e]).id == f.entry
    &&& forall|q: int| 0 <= q < n ==> #[trigger] in_reach(f, q, n)
    &&& forall|q: int, k: int|
        0 <= q < n && 0 <= k < f.blocks@[q].instructions@.len() ==> (#[trigger] f.blocks@[q].instructions@[k]).ops@.len() >= 1
            && op_in_range(first_op(f.blocks@[q].instructions@[k]))
}

pub open spec fn budget_upto(p: SemanticProgram, i: int) -> nat
    decreases i,
{
    if i <= 0 {
        0
    } else {
        budget_upto(p, i - 1) + fn_budget(p.functions@[i - 1])
    }
}

/// A program SSA form can be built for: every function is ready, and all the
/// values it can need have 32-bit identities.
pub open spec fn ssa_ready(p: SemanticProgram) -> bool {
    &&& forall|i: int| 0 <= i < p.functions@.len() ==> fn_ready(#[trigger] p.functions@[i])
    &&& budget_upto(p, p.functions@.len() as int) <= u32::MAX
}

// ---------------------------------------------------------------------------
// What a lowered function says
// ---------------------------------------------------------------------------

/// The registers `0..16` from `r` on that `s` holds, ascending.
pub open spec fn listed_from(s: Seq<u8>, r: int) -> Seq<u8>
    decreases 16 - r,
{
    if r >= 16 || r < 0 {
        Seq::empty()
    } else if s.contains(r as u8) {
        seq![r as u8] + listed_from(s, r + 1)
    } else {
        listed_from(s, r + 1)
    }
}

pub open spec fn listed(s: Seq<u8>) -> Seq<u8> {
    listed_from(s, 0)
}

pub open spec fn operand_ok(defs: Seq<ValueDef>, v: Value, s: SsaValue) -> bool {
    match (v, s) {
        (Value::Imm(a), SsaValue::Imm(b)) => a == b,
        (Value::Reg(r), SsaValue::Value(x)) => holds(defs, r as int, x),
        _ => false,
    }
}

/// `v` is the new value instruction `k` of block `id` gives register `r`.
pub open spec fn made_by(defs: Seq<ValueDef>, id: BlockId, k: int, r: int, v: ValueId) -> bool {
    v.0 < defs.len() && defs[v.0 as int] == ValueDef::Instruction { block: id, instruction: k as usize, register: r as u8 }
}

/// The register/value pairs list exactly the registers `regs`, each with a
/// value of it.
pub open spec fn pairs_hold(defs: Seq<ValueDef>, pairs: Seq<(u8, ValueId)>, regs: Seq<u8>) -> bool {
    &&& pairs.len() == regs.len()
    &&& forall|i: int| 0 <= i < pairs.len() ==> (#[trigger] pairs[i]).0 == regs[i] && holds(defs, regs[i] as int, pairs[i].1)
}

pub open spec fn pairs_made(defs: Seq<ValueDef>, pairs: Seq<(u8, ValueId)>, regs: Seq<u8>, id: BlockId, k: int) -> bool {
    &&& pairs.len() == regs.len()
    &&& forall|i: int| 0 <= i < pairs.len() ==> (#[trigger] pairs[i]).0 == regs[i] && made_by(defs, id, k, regs[i] as int, pairs[i].1)
}

/// The SSA operation is instruction `k` of block `id` over values: every
/// register it reads is a value of that register, every register it writes
/// a new value made by it.
pub open spec fn op_ok(defs: Seq<ValueDef>, ins: SemanticInstruction, id: BlockId, k: int, op: SsaOp) -> bool {
    match (first_op(ins), op) {
        (IrOp::Nop, SsaOp::Nop) => true,
        (IrOp::Mov { dst, src }, SsaOp::Mov { dst: d, src: s }) => made_by(defs, id, k, dst as int, d) && operand_ok(defs, src, s),
        (IrOp::Add { dst, lhs, rhs }, SsaOp::Add { dst: d, lhs: l, rhs: x }) => made_by(defs, id, k, dst as int, d) && holds(
            defs,
            lhs as int,
            l,
        ) && operand_ok(defs, rhs, x),
        (IrOp::Sub { dst, lhs, rhs }, SsaOp::Sub { dst: d, lhs: l, rhs: x }) => made_by(defs, id, k, dst as int, d) && holds(
            defs,
            lhs as int,
            l,
        ) && operand_ok(defs, rhs, x),
        (IrOp::Cmp { lhs, rhs }, SsaOp::Cmp { lhs: l, rhs: x }) => holds(defs, lhs as int, l) && operand_ok(defs, rhs, x),
        (IrOp::Load { dst, base, offset, byte }, SsaOp::Load { dst: d, base: b, offset: o, byte: y }) => made_by(
            defs,
            id,
            k,
            dst as int,
            d,
        ) && holds(defs, base as int, b) && o == offset && y == byte,
        (IrOp::Store { src, base, offset, byte }, SsaOp::Store { src: s, base: b, offset: o, byte: y }) => holds(defs, src as int, s)
            && holds(defs, base as int, b) && o == offset && y == byte,
        (IrOp::Branch { target, condition, link }, SsaOp::Branch { target: t, condition: c, link: l }) => t == target && c == condition
            && l == link,
        (IrOp::BranchExchange { register, link }, SsaOp::BranchExchange { register: v, link: l }) => holds(defs, register as int, v) && l
            == link,
        (IrOp::ArmExtended { .. }, SsaOp::Extended { op, uses, defs: made }) => op == first_op(ins) && pairs_hold(
            defs,
            uses@,
            listed(ins.reads@),
        ) && pairs_made(defs, made@, listed(ins.writes@), id, k),
        (IrOp::ThumbExtended { .. }, SsaOp::Extended { op, uses, defs: made }) => op == first_op(ins) && pairs_hold(
            defs,
            uses@,
            listed(ins.reads@),
        ) && pairs_made(defs, made@, listed(ins.writes@), id, k),
        (IrOp::Unknown { address, raw, mode }, SsaOp::Unknown { address: a, raw: w, mode: m }) => a == address && w == raw && m == mode,
        _ => false,
    }
}

/// A phi of block `q`: a value of its own joining, for two or more
/// predecessors, a value of its register each.
pub open spec fn phi_ok(defs: Seq<ValueDef>, f: SemanticFunction, q: int, phi: SsaPhi) -> bool {
    &&& phi.register < 16
    &&& phi.value.0 < defs.len()
    &&& defs[phi.value.0 as int] == ValueDef::Phi { block: f.blocks@[q].id, register: phi.register }
    &&& phi.incoming@.len() >= 2
    &&& forall|i: int| 0 <= i < phi.incoming@.len() ==> {
        &&& exists|p: int| 0 <= p < f.blocks@.len() && (#[trigger] f.blocks@[p]).id == (#[trigger] phi.incoming@[i]).0 && succ_of(f, p, q)
        &&& holds(defs, phi.register as int, phi.incoming@[i].1)
    }
}

/// Block `b` is block `q` of the semantic function over values.
pub open spec fn block_lowered(defs: Seq<ValueDef>, f: SemanticFunction, q: int, b: SsaBlock) -> bool {
    let s = f.blocks@[q];
    &&& b.id == s.id
    &&& b.address == s.address
    &&& b.mode == s.mode
    &&& b.successors@ == s.successors@
    &&& b.terminator == s.terminator
    &&& b.instructions@.len() == s.instructions@.len()
    &&& forall|k: int| 0 <= k < b.instructions@.len() ==> {
        &&& (#[trigger] b.instructions@[k]).address == s.instructions@[k].address
        &&& b.instructions@[k].size == s.instructions@[k].size
        &&& op_ok(defs, s.instructions@[k], s.id, k, b.instructions@[k].op)
    }
    &&& forall|j: int| 0 <= j < b.phis@.len() ==> phi_ok(defs, f, q, #[trigger] b.phis@[j])
    &&& forall|i: int, j: int| 0 <= i < j < b.phis@.len() ==> (#[trigger] b.phis@[i]).register < (#[trigger] b.phis@[j]).register
}

/// `r` is the semantic function over values.
pub open spec fn fn_lowered(defs: Seq<ValueDef>, f: SemanticFunction, r: SsaFunction) -> bool {
    &&& r.id == f.id
    &&& r.entry == f.entry
    &&& r.blocks@.len() == f.blocks@.len()
    &&& forall|q: int| 0 <= q < r.blocks@.len() ==> block_lowered(defs, f, q, #[trigger] r.blocks@[q])
}

// ---------------------------------------------------------------------------
// Small pieces
// ---------------------------------------------------------------------------

/// A new value with its definition.
fn fresh(defs: &mut Vec<ValueDef>, d: ValueDef) -> (v: ValueId)
    requires
        old(defs)@.len() <= u32::MAX,
    ensures
        v.0 == old(defs)@.len(),
        final(defs)@ == old(defs)@.push(d),
{
    let v = ValueId(defs.len() as u32);
    defs.push(d);
    v
}

/// The position of the block with this identity.
fn block_position(f: &SemanticFunction, id: BlockId) -> (r: Option<usize>)
    ensures
        match r {
            Some(q) => q < f.blocks@.len() && f.blocks@[q as int].id == id,
            None => forall|q: int| 0 <= q < f.blocks@.len() ==> (#[trigger] f.blocks@[q]).id != id,
        },
{
    let mut q: usize = 0;
    while q < f.blocks.len()
        invariant
            q <= f.blocks@.len(),
            forall|c: int| 0 <= c < q ==> (#[trigger] f.blocks@[c]).id != id,
        decreases f.blocks@.len() - q,
    {
        if f.blocks[q].id == id {
            return Some(q);
        }
        q = q + 1;
    }
    None
}

fn has_successor(ids: &Vec<BlockId>, id: BlockId) -> (r: bool)
    ensures
        r == ids@.contains(id),
{
    let mut i: usize = 0;
    while i < ids.len()
        invariant
            i <= ids@.len(),
            forall|c: int| 0 <= c < i ==> ids@[c] != id,
        decreases ids@.len() - i,
    {
        if ids[i] == id {
            proof {
                assert(ids@[i as int] == id);
            }
            return true;
        }
        i = i + 1;
    }
    false
}

/// The predecessors of each block, as positions in order of identity.
fn predecessors(f: &SemanticFunction) -> (r: Vec<Vec<usize>>)
    requires
        fn_ready(*f),
    ensures
        preds_ok(*f, r@),
        forall|q: int| 0 <= q < r@.len() ==> forall|i: int, j: int|
            0 <= i < j < (#[trigger] r@[q])@.len() ==> f.blocks@[r@[q]@[i] as int].id.0 < f.blocks@[r@[q]@[j] as int].id.0,
{
    let n = f.blocks.len();
    let mut all: Vec<Vec<usize>> = Vec::new();
    let mut q: usize = 0;
    while q < n
        invariant
            n == f.blocks@.len(),
            q <= n,
            fn_ready(*f),
            all@.len() == q,
            forall|c: int| 0 <= c < q ==> #[trigger] pred_list_ok(*f, all@[c]@, c),
            forall|c: int| 0 <= c < q ==> forall|i: int, j: int|
                0 <= i < j < (#[trigger] all@[c])@.len() ==> f.blocks@[all@[c]@[i] as int].id.0 < f.blocks@[all@[c]@[j] as int].id.0,
        decreases n - q,
    {
        let target = f.blocks[q].id;
        let mut codes: Vec<u64> = Vec::new();
        let mut p: usize = 0;
        while p < n
            invariant
                n == f.blocks@.len(),
                q < n,
                p <= n,
                target == f.blocks@[q as int].id,
                forall|c: u64| codes@.contains(c) <==> exists|pp: int| 0 <= pp < p && succ_of(*f, pp, q as int) && #[trigger] f.blocks@[pp].id.0 == c,
            decreases n - p,
        {
            if has_successor(&f.blocks[p].successors, target) {
                let ghost before = codes@;
                codes.push(f.blocks[p].id.0 as u64);
                proof {
                    assert forall|c: u64| codes@.contains(c) <==> exists|pp: int|
                        0 <= pp < p + 1 && succ_of(*f, pp, q as int) && #[trigger] f.blocks@[pp].id.0 == c by {
                        if codes@.contains(c) {
                            let w = choose|w: int| 0 <= w < codes@.len() && codes@[w] == c;
                            if w < before.len() {
                                assert(before.contains(c));
                            } else {
                                assert(f.blocks@[p as int].id.0 == c);
                            }
                        }
                        if exists|pp: int| 0 <= pp < p + 1 && succ_of(*f, pp, q as int) && #[trigger] f.blocks@[pp].id.0 == c {
                            let pp = choose|pp: int| 0 <= pp < p + 1 && succ_of(*f, pp, q as int) && #[trigger] f.blocks@[pp].id.0 == c;
                            if pp < p {
                                assert(before.contains(c));
                                let w = choose|w: int| 0 <= w < before.len() && before[w] == c;
                                assert(codes@[w] == c);
                            } else {
                                assert(codes@[before.len() as int] == c);
                            }
                        }
                    }
                }
            } else {
                proof {
                    assert forall|c: u64| codes@.contains(c) <==> exists|pp: int|
                        0 <= pp < p + 1 && succ_of(*f, pp, q as int) && #[trigger] f.blocks@[pp].id.0 == c by {
                        if exists|pp: int| 0 <= pp < p + 1 && succ_of(*f, pp, q as int) && #[trigger] f.blocks@[pp].id.0 == c {
                            let pp = choose|pp: int| 0 <= pp < p + 1 && succ_of(*f, pp, q as int) && #[trigger] f.blocks@[pp].id.0 == c;
                            assert(pp < p);
                        }
                    }
                }
            }
            p = p + 1;
        }
        let sorted = sorted_distinct(codes);
        let mut preds: Vec<usize> = Vec::new();
        let mut i: usize = 0;
        while i < sorted.len()
            invariant
                n == f.blocks@.len(),
                q < n,
                fn_ready(*f),
                i <= sorted@.len(),
                preds@.len() == i,
                crate::cfg::partition::strictly_increasing(sorted@),
                forall|c: u64| sorted@.contains(c) <==> exists|pp: int| 0 <= pp < n && succ_of(*f, pp, q as int) && #[trigger] f.blocks@[pp].id.0 == c,
                forall|c: int| 0 <= c < i ==> preds@[c] < n && f.blocks@[preds@[c] as int].id.0 == sorted@[c] && succ_of(*f, #[trigger] preds@[c] as int, q as int),
            decreases sorted@.len() - i,
        {
            assert(sorted@.contains(sorted@[i as int]));
            let ghost pp = choose|pp: int| 0 <= pp < n && succ_of(*f, pp, q as int) && #[trigger] f.blocks@[pp].id.0 == sorted@[i as int];
            let found = block_position(f, BlockId(sorted[i] as usize));
            match found {
                Some(at) => {
                    proof {
                        assert(f.blocks@[pp].id == BlockId(sorted@[i as int] as usize));
                        if at != pp {
                            assert(f.blocks@[at as int].id != f.blocks@[pp].id);
                        }
                    }
                    preds.push(at);
                },
                None => {
                    proof {
                        assert(f.blocks@[pp].id == BlockId(sorted@[i as int] as usize));
                    }
                },
            }
            i = i + 1;
        }
        proof {
            assert forall|pp: int| 0 <= pp < n && succ_of(*f, pp, q as int) implies exists|i: int| 0 <= i < preds@.len() && #[trigger] preds@[i] as int == pp by {
                let c = f.blocks@[pp].id.0 as u64;
                assert(sorted@.contains(c));
                let w = choose|w: int| 0 <= w < sorted@.len() && sorted@[w] == c;
                if preds@[w] as int != pp {
                    assert(f.blocks@[preds@[w] as int].id != f.blocks@[pp].id);
                }
                assert(preds@[w] as int == pp);
            }
            assert forall|a: int, b: int| 0 <= a < b < preds@.len() implies f.blocks@[preds@[a] as int].id.0 < f.blocks@[preds@[b] as int].id.0 by {
                assert(sorted@[a] < sorted@[b]);
            }
        }
        proof {
            assert(pred_list_ok(*f, preds@, q as int));
        }
        all.push(preds);
        proof {
            assert(all@[q as int]@ == preds@);
        }
        q = q + 1;
    }
    all
}

// ---------------------------------------------------------------------------
// Values made while lowering
// ---------------------------------------------------------------------------

/// `b` extends `a`.
pub open spec fn grows(a: Seq<ValueDef>, b: Seq<ValueDef>) -> bool {
    a.len() <= b.len() && forall|i: int| 0 <= i < a.len() ==> #[trigger] b[i] == a[i]
}

/// The number of phi slots in use.
pub open spec fn count_some(s: Seq<Option<ValueId>>) -> nat
    decreases s.len(),
{
    if s.len() == 0 {
        0
    } else {
        count_some(s.drop_last()) + if s.last() is Some {
            1nat
        } else {
            0nat
        }
    }
}

proof fn lemma_count_bound(s: Seq<Option<ValueId>>)
    ensures
        count_some(s) <= s.len(),
    decreases s.len(),
{
    if s.len() > 0 {
        lemma_count_bound(s.drop_last());
    }
}

proof fn lemma_count_update(s: Seq<Option<ValueId>>, i: int, v: ValueId)
    requires
        0 <= i < s.len(),
        s[i] is None,
    ensures
        count_some(s.update(i, Some(v))) == count_some(s) + 1,
    decreases s.len(),
{
    let t = s.update(i, Some(v));
    if i == s.len() - 1 {
        assert(t.drop_last() =~= s.drop_last());
    } else {
        assert(t.drop_last() =~= s.drop_last().update(i, Some(v)));
        lemma_count_update(s.drop_last(), i, v);
    }
}

/// The phi table holds, for register `r` of block `q` at `16 * q + r`, the
/// phi value made for it, if one was.
pub open spec fn phis_ok(defs: Seq<ValueDef>, f: SemanticFunction, phis: Seq<Option<ValueId>>) -> bool {
    &&& phis.len() == 16 * f.blocks@.len()
    &&& forall|q: int, r: int|
        0 <= q < f.blocks@.len() && 0 <= r < 16 && (#[trigger] phis[16 * q + r]) is Some ==> phis[16 * q + r].unwrap().0 < defs.len()
            && defs[phis[16 * q + r].unwrap().0 as int] == ValueDef::Phi { block: f.blocks@[q].id, register: r as u8 }
}

/// The new values of each instruction, by register.
pub open spec fn tab_ok(defs: Seq<ValueDef>, f: SemanticFunction, tab: Seq<Vec<[Option<ValueId>; 16]>>) -> bool {
    &&& tab.len() == f.blocks@.len()
    &&& forall|q: int| 0 <= q < tab.len() ==> (#[trigger] tab[q])@.len() == f.blocks@[q].instructions@.len()
    &&& forall|q: int, k: int, r: int|
        0 <= q < tab.len() && 0 <= k < tab[q]@.len() && 0 <= r < 16 ==> {
            &&& ((#[trigger] tab[q]@[k]@[r]) is Some <==> defines(f.blocks@[q].instructions@[k], r))
            &&& tab[q]@[k]@[r] is Some ==> made_by(defs, f.blocks@[q].id, k, r, tab[q]@[k]@[r].unwrap())
        }
}

/// The state after an instruction that makes the values `t`.
pub open spec fn after(s: Seq<Option<ValueId>>, t: Seq<Option<ValueId>>) -> Seq<Option<ValueId>> {
    Seq::new(16, |i: int| if t[i] is Some { t[i] } else { s[i] })
}

/// Sixteen values of their own, one for each register at entry.
fn entry_state(defs: &mut Vec<ValueDef>) -> (s: [Option<ValueId>; 16])
    requires
        old(defs)@.len() + 16 <= u32::MAX,
    ensures
        final(defs)@.len() == old(defs)@.len() + 16,
        grows(old(defs)@, final(defs)@),
        all_some(s@),
        state_ok(final(defs)@, s@),
{
    let mut s: [Option<ValueId>; 16] = [None; 16];
    let mut r: usize = 0;
    while r < 16
        invariant
            r <= 16,
            old(defs)@.len() + 16 <= u32::MAX,
            defs@.len() == old(defs)@.len() + r,
            grows(old(defs)@, defs@),
            forall|c: int| 0 <= c < r ==> (#[trigger] s@[c]) is Some,
            state_ok(defs@, s@),
        decreases 16 - r,
    {
        let v = fresh(defs, ValueDef::Entry { register: r as u8 });
        s[r] = Some(v);
        r = r + 1;
    }
    s
}

/// The values each instruction makes, made now, in order.
fn prealloc(f: &SemanticFunction, defs: &mut Vec<ValueDef>) -> (tab: Vec<Vec<[Option<ValueId>; 16]>>)
    requires
        fn_ready(*f),
        old(defs)@.len() + 16 * instrs_upto(*f, f.blocks@.len() as int) <= u32::MAX,
    ensures
        grows(old(defs)@, final(defs)@),
        final(defs)@.len() <= old(defs)@.len() + 16 * instrs_upto(*f, f.blocks@.len() as int),
        tab_ok(final(defs)@, *f, tab@),
        forall|q: int, k: int, r: int|
            0 <= q < tab@.len() && 0 <= k < tab@[q]@.len() && 0 <= r < 16 && (#[trigger] tab@[q]@[k]@[r]) is Some ==> tab@[q]@[k]@[r].unwrap().0
                >= old(defs)@.len(),
{
    let n = f.blocks.len();
    let mut tab: Vec<Vec<[Option<ValueId>; 16]>> = Vec::new();
    let mut q: usize = 0;
    while q < n
        invariant
            n == f.blocks@.len(),
            q <= n,
            fn_ready(*f),
            old(defs)@.len() + 16 * instrs_upto(*f, n as int) <= u32::MAX,
            grows(old(defs)@, defs@),
            defs@.len() <= old(defs)@.len() + 16 * instrs_upto(*f, q as int),
            tab@.len() == q,
            forall|c: int, kk: int, rr: int|
                0 <= c < tab@.len() && 0 <= kk < tab@[c]@.len() && 0 <= rr < 16 && (#[trigger] tab@[c]@[kk]@[rr]) is Some ==> tab@[c]@[kk]@[rr].unwrap().0 >= old(defs)@.len(),
            forall|c: int| 0 <= c < q ==> (#[trigger] tab@[c])@.len() == f.blocks@[c].instructions@.len(),
            forall|c: int, k: int, r: int|
                0 <= c < q && 0 <= k < tab@[c]@.len() && 0 <= r < 16 ==> {
                    &&& ((#[trigger] tab@[c]@[k]@[r]) is Some <==> defines(f.blocks@[c].instructions@[k], r))
                    &&& tab@[c]@[k]@[r] is Some ==> made_by(defs@, f.blocks@[c].id, k, r, tab@[c]@[k]@[r].unwrap())
                },
        decreases n - q,
    {
        proof {
            lemma_instrs_grow(*f, q as int + 1, n as int);
        }
        let blk = &f.blocks[q];
        let ni = blk.instructions.len();
        let mut row: Vec<[Option<ValueId>; 16]> = Vec::new();
        let mut k: usize = 0;
        while k < ni
            invariant
                n == f.blocks@.len(),
                q < n,
                fn_ready(*f),
                *blk == f.blocks@[q as int],
                ni == blk.instructions@.len(),
                k <= ni,
                old(defs)@.len() + 16 * instrs_upto(*f, q + 1) <= u32::MAX,
                grows(old(defs)@, defs@),
                defs@.len() <= old(defs)@.len() + 16 * instrs_upto(*f, q as int) + 16 * k,
                row@.len() == k,
                forall|c: int, r: int|
                    0 <= c < k && 0 <= r < 16 ==> {
                        &&& ((#[trigger] row@[c]@[r]) is Some <==> defines(blk.instructions@[c], r))
                        &&& row@[c]@[r] is Some ==> made_by(defs@, blk.id, c, r, row@[c]@[r].unwrap())
                    },
                tab@.len() == q,
                forall|c: int, kk: int, rr: int|
                    0 <= c < tab@.len() && 0 <= kk < tab@[c]@.len() && 0 <= rr < 16 && (#[trigger] tab@[c]@[kk]@[rr]) is Some ==> tab@[c]@[kk]@[rr].unwrap().0 >= old(defs)@.len(),
                forall|c: int, rr: int| 0 <= c < row@.len() && 0 <= rr < 16 && (#[trigger] row@[c]@[rr]) is Some ==> row@[c]@[rr].unwrap().0 >= old(defs)@.len(),
                forall|c: int, kk: int, r: int|
                    0 <= c < q && 0 <= kk < tab@[c]@.len() && 0 <= r < 16 ==> tab@[c]@[kk]@[r] is Some ==> made_by(
                        defs@,
                        f.blocks@[c].id,
                        kk,
                        r,
                        #[trigger] tab@[c]@[kk]@[r].unwrap(),
                    ),
            decreases ni - k,
        {
            let ins = &blk.instructions[k];
            let mut entry: [Option<ValueId>; 16] = [None; 16];
            let mut r: usize = 0;
            while r < 16
                invariant
                    n == f.blocks@.len(),
                    q < n,
                    fn_ready(*f),
                    *blk == f.blocks@[q as int],
                    ni == blk.instructions@.len(),
                    k < ni,
                    *ins == blk.instructions@[k as int],
                    r <= 16,
                    old(defs)@.len() + 16 * instrs_upto(*f, q + 1) <= u32::MAX,
                    grows(old(defs)@, defs@),
                    defs@.len() <= old(defs)@.len() + 16 * instrs_upto(*f, q as int) + 16 * k + r,
                    forall|c: int| 0 <= c < 16 ==> ((#[trigger] entry@[c]) is Some <==> (c < r && defines(*ins, c))),
                    forall|c: int| 0 <= c < r && (#[trigger] entry@[c]) is Some ==> made_by(defs@, blk.id, k as int, c, entry@[c].unwrap()),
                    forall|c: int| 0 <= c < 16 && (#[trigger] entry@[c]) is Some ==> entry@[c].unwrap().0 >= old(defs)@.len(),
                    tab@.len() == q,
                    forall|c: int, kk: int, rr: int|
                        0 <= c < tab@.len() && 0 <= kk < tab@[c]@.len() && 0 <= rr < 16 && (#[trigger] tab@[c]@[kk]@[rr]) is Some ==> tab@[c]@[kk]@[rr].unwrap().0 >= old(defs)@.len(),
                    forall|c: int, rr: int| 0 <= c < row@.len() && 0 <= rr < 16 && (#[trigger] row@[c]@[rr]) is Some ==> row@[c]@[rr].unwrap().0 >= old(defs)@.len(),
                    forall|c: int, rr: int|
                        0 <= c < k && 0 <= rr < 16 && (#[trigger] row@[c]@[rr]) is Some ==> made_by(defs@, blk.id, c, rr, row@[c]@[rr].unwrap()),
                    forall|c: int, kk: int, rr: int|
                        0 <= c < q && 0 <= kk < tab@[c]@.len() && 0 <= rr < 16 ==> tab@[c]@[kk]@[rr] is Some ==> made_by(
                            defs@,
                            f.blocks@[c].id,
                            kk,
                            rr,
                            #[trigger] tab@[c]@[kk]@[rr].unwrap(),
                        ),
                decreases 16 - r,
            {
                if defines_exec(ins, r as u8) {
                    proof {
                        assert(instrs_upto(*f, q + 1) == instrs_upto(*f, q as int) + ni);
                        assert(16 * instrs_upto(*f, q + 1) == 16 * instrs_upto(*f, q as int) + 16 * ni);
                    }
                    let v = fresh(defs, ValueDef::Instruction { block: blk.id, instruction: k, register: r as u8 });
                    entry[r] = Some(v);
                }
                r = r + 1;
            }
            row.push(entry);
            proof {
                assert(row@[k as int] == entry);
            }
            k = k + 1;
        }
        tab.push(row);
        proof {
            assert(tab@[q as int] == row);
            assert(instrs_upto(*f, q + 1) == instrs_upto(*f, q as int) + ni);
        }
        q = q + 1;
    }
    tab
}

proof fn lemma_instrs_grow(f: SemanticFunction, a: int, b: int)
    requires
        a <= b,
    ensures
        instrs_upto(f, a) <= instrs_upto(f, b),
    decreases b - a,
{
    if a < b {
        lemma_instrs_grow(f, a, b - 1);
    }
}

fn defines_exec(ins: &SemanticInstruction, r: u8) -> (d: bool)
    requires
        ins.ops@.len() >= 1,
    ensures
        d == defines(*ins, r as int),
{
    match ins.ops[0] {
        IrOp::Mov { dst, .. } | IrOp::Add { dst, .. } | IrOp::Sub { dst, .. } | IrOp::Load { dst, .. } => r == dst,
        IrOp::Branch { link, .. } | IrOp::BranchExchange { link, .. } => link && r == 14,
        IrOp::ArmExtended { .. } | IrOp::ThumbExtended { .. } => r < 16 && contains_reg(&ins.writes, r),
        _ => false,
    }
}

fn contains_reg(regs: &Vec<u8>, r: u8) -> (c: bool)
    ensures
        c == regs@.contains(r),
{
    let mut i: usize = 0;
    while i < regs.len()
        invariant
            i <= regs@.len(),
            forall|j: int| 0 <= j < i ==> regs@[j] != r,
        decreases regs@.len() - i,
    {
        if regs[i] == r {
            proof {
                assert(regs@[i as int] == r);
            }
            return true;
        }
        i = i + 1;
    }
    false
}

/// The state after an instruction that makes the values `t`.
fn transfer(s: [Option<ValueId>; 16], t: &[Option<ValueId>; 16]) -> (out: [Option<ValueId>; 16])
    ensures
        out@ == after(s@, t@),
{
    let mut out = s;
    let mut r: usize = 0;
    while r < 16
        invariant
            r <= 16,
            out@.len() == 16,
            forall|c: int| 0 <= c < 16 ==> #[trigger] out@[c] == if c < r && t@[c] is Some {
                t@[c]
            } else {
                s@[c]
            },
        decreases 16 - r,
    {
        if t[r].is_some() {
            out[r] = t[r];
        }
        r = r + 1;
    }
    proof {
        assert(out@ =~= after(s@, t@));
    }
    out
}

/// The state at the end of a block entered with `s`.
fn block_out(s: [Option<ValueId>; 16], row: &Vec<[Option<ValueId>; 16]>, Ghost(defs): Ghost<Seq<ValueDef>>) -> (out: [Option<ValueId>; 16])
    requires
        state_ok(defs, s@),
        forall|k: int, r: int| 0 <= k < row@.len() && 0 <= r < 16 && (#[trigger] row@[k]@[r]) is Some ==> holds(defs, r, row@[k]@[r].unwrap()),
    ensures
        state_ok(defs, out@),
        forall|r: int| 0 <= r < 16 && (#[trigger] s@[r]) is Some ==> out@[r] is Some,
{
    let mut cur = s;
    let mut k: usize = 0;
    while k < row.len()
        invariant
            k <= row@.len(),
            state_ok(defs, cur@),
            forall|r: int| 0 <= r < 16 && (#[trigger] s@[r]) is Some ==> cur@[r] is Some,
            forall|kk: int, r: int| 0 <= kk < row@.len() && 0 <= r < 16 && (#[trigger] row@[kk]@[r]) is Some ==> holds(defs, r, row@[kk]@[r].unwrap()),
        decreases row@.len() - k,
    {
        let next = transfer(cur, &row[k]);
        proof {
            assert forall|r: int| 0 <= r < 16 && (#[trigger] next@[r]) is Some implies holds(defs, r, next@[r].unwrap()) by {
                if row@[k as int]@[r] is Some {
                    assert(row@[k as int]@[r] is Some);
                } else {
                    assert(cur@[r] is Some);
                }
            }
            assert forall|r: int| 0 <= r < 16 && (#[trigger] s@[r]) is Some implies next@[r] is Some by {
                assert(cur@[r] is Some);
            }
        }
        cur = next;
        k = k + 1;
    }
    cur
}

/// Some predecessor leaves register `r` with a value.
pub open spec fn reaches_with(preds: Seq<usize>, out: Seq<Option<[Option<ValueId>; 16]>>, r: int) -> bool {
    exists|i: int| 0 <= i < preds.len() && (#[trigger] out[preds[i] as int]) is Some && out[preds[i] as int].unwrap()@[r] is Some
}

/// The state at the start of block `q`: each register keeps the value its
/// predecessors agree on, or gets the block's phi for it where they differ.
fn merge(
    f: &SemanticFunction,
    q: usize,
    preds: &Vec<usize>,
    out: &Vec<Option<[Option<ValueId>; 16]>>,
    phis: &mut Vec<Option<ValueId>>,
    defs: &mut Vec<ValueDef>,
    Ghost(fixed): Ghost<nat>,
) -> (s: [Option<ValueId>; 16])
    requires
        q < f.blocks@.len(),
        out@.len() == f.blocks@.len(),
        forall|i: int| 0 <= i < preds@.len() ==> #[trigger] preds@[i] < f.blocks@.len(),
        forall|p: int| 0 <= p < out@.len() && (#[trigger] out@[p]) is Some ==> state_ok(old(defs)@, out@[p].unwrap()@),
        phis_ok(old(defs)@, *f, old(phis)@),
        old(defs)@.len() == fixed + count_some(old(phis)@),
        fixed + 16 * f.blocks@.len() <= u32::MAX,
    ensures
        grows(old(defs)@, final(defs)@),
        phis_ok(final(defs)@, *f, final(phis)@),
        final(defs)@.len() == fixed + count_some(final(phis)@),
        forall|i: int| 0 <= i < old(phis)@.len() && (#[trigger] old(phis)@[i]) is Some ==> final(phis)@[i] == old(phis)@[i],
        final(phis)@.len() == old(phis)@.len(),
        forall|i: int| 0 <= i < old(phis)@.len() && (#[trigger] final(phis)@[i]) is Some && old(phis)@[i] is None ==> final(phis)@[i].unwrap().0
            >= old(defs)@.len(),
        state_ok(final(defs)@, s@),
        forall|r: int| 0 <= r < 16 && reaches_with(preds@, out@, r) ==> (#[trigger] s@[r]) is Some,
{
    let mut s: [Option<ValueId>; 16] = [None; 16];
    let mut r: usize = 0;
    while r < 16
        invariant
            q < f.blocks@.len(),
            out@.len() == f.blocks@.len(),
            forall|i: int| 0 <= i < preds@.len() ==> #[trigger] preds@[i] < f.blocks@.len(),
            forall|p: int| 0 <= p < out@.len() && (#[trigger] out@[p]) is Some ==> state_ok(old(defs)@, out@[p].unwrap()@),
            fixed + 16 * f.blocks@.len() <= u32::MAX,
            r <= 16,
            grows(old(defs)@, defs@),
            phis_ok(defs@, *f, phis@),
            defs@.len() == fixed + count_some(phis@),
            phis@.len() == old(phis)@.len(),
            forall|i: int| 0 <= i < old(phis)@.len() && (#[trigger] old(phis)@[i]) is Some ==> phis@[i] == old(phis)@[i],
            forall|i: int| 0 <= i < old(phis)@.len() && (#[trigger] phis@[i]) is Some && old(phis)@[i] is None ==> phis@[i].unwrap().0 >= old(defs)@.len(),
            state_ok(defs@, s@),
            forall|c: int| 0 <= c < r && reaches_with(preds@, out@, c) ==> (#[trigger] s@[c]) is Some,
        decreases 16 - r,
    {
        let mut first: Option<ValueId> = None;
        let mut same = true;
        let mut i: usize = 0;
        while i < preds.len()
            invariant
                r < 16,
                out@.len() == f.blocks@.len(),
                forall|c: int| 0 <= c < preds@.len() ==> #[trigger] preds@[c] < f.blocks@.len(),
                forall|p: int| 0 <= p < out@.len() && (#[trigger] out@[p]) is Some ==> state_ok(old(defs)@, out@[p].unwrap()@),
                i <= preds@.len(),
                first is Some <==> exists|c: int|
                    0 <= c < i && (#[trigger] out@[preds@[c] as int]) is Some && out@[preds@[c] as int].unwrap()@[r as int] is Some,
                first is Some ==> holds(old(defs)@, r as int, first.unwrap()),
            decreases preds@.len() - i,
        {
            let p = preds[i];
            if let Some(st) = out[p] {
                if let Some(v) = st[r] {
                    proof {
                        assert(out@[preds@[i as int] as int] is Some);
                    }
                    match first {
                        None => {
                            first = Some(v);
                        },
                        Some(w) => {
                            if w != v {
                                same = false;
                            }
                        },
                    }
                }
            }
            i = i + 1;
        }
        proof {
            lemma_count_bound(phis@);
        }
        match first {
            None => {
            },
            Some(w) => {
                if same {
                    s[r] = Some(w);
                } else {
                    let slot = 16 * q + r;
                    match phis[slot] {
                        Some(v) => {
                            proof {
                                assert(phis@[16 * (q as int) + (r as int)] is Some);
                            }
                            s[r] = Some(v);
                        },
                        None => {
                            proof {
                                lemma_count_update(phis@, slot as int, ValueId(defs@.len() as u32));
                                lemma_count_bound(phis@.update(slot as int, Some(ValueId(defs@.len() as u32))));
                            }
                            let v = fresh(defs, ValueDef::Phi { block: f.blocks[q].id, register: r as u8 });
                            let ghost before = phis@;
                            phis.set(slot, Some(v));
                            proof {
                                assert forall|qq: int, rr: int|
                                    0 <= qq < f.blocks@.len() && 0 <= rr < 16 && (#[trigger] phis@[16 * qq + rr]) is Some implies phis@[16 * qq
                                        + rr].unwrap().0 < defs@.len() && defs@[phis@[16 * qq + rr].unwrap().0 as int] == ValueDef::Phi {
                                        block: f.blocks@[qq].id,
                                        register: rr as u8,
                                    } by {
                                    if 16 * qq + rr != slot {
                                        assert(before[16 * qq + rr] is Some);
                                    } else {
                                        assert(qq == q && rr == r) by (nonlinear_arith)
                                            requires
                                                16 * qq + rr == 16 * q + r,
                                                0 <= rr < 16,
                                                0 <= r < 16,
                                        ;
                                    }
                                }
                            }
                            s[r] = Some(v);
                        },
                    }
                }
            },
        }
        r = r + 1;
    }
    s
}

proof fn lemma_listed_from(s: Seq<u8>, r: int)
    requires
        0 <= r <= 16,
    ensures
        forall|i: int| 0 <= i < listed_from(s, r).len() ==> r <= #[trigger] listed_from(s, r)[i] < 16,
    decreases 16 - r,
{
    if r < 16 {
        lemma_listed_from(s, r + 1);
        if s.contains(r as u8) {
            assert(listed_from(s, r) == seq![r as u8] + listed_from(s, r + 1));
            assert forall|i: int| 0 <= i < listed_from(s, r).len() implies r <= #[trigger] listed_from(s, r)[i] < 16 by {
                if i > 0 {
                    assert(listed_from(s, r)[i] == listed_from(s, r + 1)[i - 1]);
                }
            }
        } else {
            assert(listed_from(s, r) == listed_from(s, r + 1));
        }
    }
}

/// For each register `regs` names, ascending, the register and its value in
/// `vals`.
fn pairs_of(regs: &Vec<u8>, vals: &[Option<ValueId>; 16]) -> (out: Vec<(u8, ValueId)>)
    requires
        forall|r: int| 0 <= r < 16 && regs@.contains(r as u8) ==> (#[trigger] vals@[r]) is Some,
    ensures
        out@.len() == listed(regs@).len(),
        forall|i: int| 0 <= i < out@.len() ==> (#[trigger] out@[i]).0 == listed(regs@)[i] && out@[i].0 < 16 && vals@[out@[i].0 as int] == Some(
            out@[i].1,
        ),
{
    let mut out: Vec<(u8, ValueId)> = Vec::new();
    let mut r: usize = 0;
    proof {
        lemma_listed_from(regs@, 0);
    }
    while r < 16
        invariant
            r <= 16,
            forall|c: int| 0 <= c < 16 && regs@.contains(c as u8) ==> (#[trigger] vals@[c]) is Some,
            out@.len() + listed_from(regs@, r as int).len() == listed(regs@).len(),
            listed_from(regs@, r as int) =~= listed(regs@).subrange(out@.len() as int, listed(regs@).len() as int),
            forall|i: int| 0 <= i < out@.len() ==> (#[trigger] out@[i]).0 == listed(regs@)[i] && out@[i].0 < 16 && vals@[out@[i].0 as int]
                == Some(out@[i].1),
        decreases 16 - r,
    {
        let ghost rest = listed_from(regs@, r as int);
        if contains_reg(regs, r as u8) {
            let v = vals[r].unwrap();
            proof {
                assert(rest == seq![r as u8] + listed_from(regs@, r + 1));
                assert(listed(regs@)[out@.len() as int] == rest[0]);
            }
            out.push((r as u8, v));
            proof {
                assert(listed_from(regs@, r + 1) =~= rest.subrange(1, rest.len() as int));
            }
        }
        r = r + 1;
    }
    out
}

/// What the values of an instruction's table promise.
pub open spec fn row_ok(defs: Seq<ValueDef>, ins: SemanticInstruction, id: BlockId, k: int, t: Seq<Option<ValueId>>) -> bool {
    &&& t.len() == 16
    &&& forall|r: int| 0 <= r < 16 ==> ((#[trigger] t[r]) is Some <==> defines(ins, r))
    &&& forall|r: int| 0 <= r < 16 && (#[trigger] t[r]) is Some ==> made_by(defs, id, k, r, t[r].unwrap())
}

fn value_of(state: &[Option<ValueId>; 16], r: u8) -> (v: ValueId)
    requires
        r < 16,
        all_some(state@),
    ensures
        state@[r as int] == Some(v),
{
    state[r as usize].unwrap()
}

fn operand(v: Value, state: &[Option<ValueId>; 16], Ghost(defs): Ghost<Seq<ValueDef>>) -> (s: SsaValue)
    requires
        value_in_range(v),
        all_some(state@),
        state_ok(defs, state@),
    ensures
        operand_ok(defs, v, s),
{
    match v {
        Value::Imm(x) => SsaValue::Imm(x),
        Value::Reg(r) => SsaValue::Value(value_of(state, r)),
    }
}

/// Instruction `k` of block `id` over the values of `state`, making the
/// values of `t`.
fn lower_op(
    ins: &SemanticInstruction,
    id: BlockId,
    k: usize,
    state: &[Option<ValueId>; 16],
    t: &[Option<ValueId>; 16],
    Ghost(defs): Ghost<Seq<ValueDef>>,
) -> (op: SsaOp)
    requires
        ins.ops@.len() >= 1,
        op_in_range(first_op(*ins)),
        all_some(state@),
        state_ok(defs, state@),
        row_ok(defs, *ins, id, k as int, t@),
    ensures
        op_ok(defs, *ins, id, k as int, op),
        forall|j: int| 0 <= j < inst_defs(op).len() ==> exists|r: int| 0 <= r < 16 && t@[r] == Some(#[trigger] inst_defs(op)[j]),
{
    match ins.ops[0] {
        IrOp::Nop => SsaOp::Nop,
        IrOp::Mov { dst, src } => {
            assert(t@[dst as int] is Some);
            SsaOp::Mov { dst: t[dst as usize].unwrap(), src: operand(src, state, Ghost(defs)) }
        },
        IrOp::Add { dst, lhs, rhs } => {
            assert(t@[dst as int] is Some);
            SsaOp::Add { dst: t[dst as usize].unwrap(), lhs: value_of(state, lhs), rhs: operand(rhs, state, Ghost(defs)) }
        },
        IrOp::Sub { dst, lhs, rhs } => {
            assert(t@[dst as int] is Some);
            SsaOp::Sub { dst: t[dst as usize].unwrap(), lhs: value_of(state, lhs), rhs: operand(rhs, state, Ghost(defs)) }
        },
        IrOp::Cmp { lhs, rhs } => SsaOp::Cmp { lhs: value_of(state, lhs), rhs: operand(rhs, state, Ghost(defs)) },
        IrOp::Load { dst, base, offset, byte } => {
            assert(t@[dst as int] is Some);
            SsaOp::Load { dst: t[dst as usize].unwrap(), base: value_of(state, base), offset, byte }
        },
        IrOp::Store { src, base, offset, byte } => SsaOp::Store { src: value_of(state, src), base: value_of(state, base), offset, byte },
        IrOp::Branch { target, condition, link } => SsaOp::Branch { target, condition, link },
        IrOp::BranchExchange { register, link } => SsaOp::BranchExchange { register: value_of(state, register), link },
        IrOp::ArmExtended { .. } | IrOp::ThumbExtended { .. } => {
            let uses = pairs_of(&ins.reads, state);
            proof {
                assert forall|r: int| 0 <= r < 16 && ins.writes@.contains(r as u8) implies (#[trigger] t@[r]) is Some by {
                    assert(defines(*ins, r));
                }
            }
            let made = pairs_of(&ins.writes, t);
            proof {
                assert forall|i: int| 0 <= i < made@.len() implies (#[trigger] made@[i]).0 == listed(ins.writes@)[i] && made_by(
                    defs,
                    id,
                    k as int,
                    listed(ins.writes@)[i] as int,
                    made@[i].1,
                ) by {
                    assert(t@[made@[i].0 as int] is Some);
                }
            }
            let op = SsaOp::Extended { op: ins.ops[0], uses, defs: made };
            proof {
                assert forall|j: int| 0 <= j < inst_defs(op).len() implies exists|r: int| 0 <= r < 16 && t@[r] == Some(
                    #[trigger] inst_defs(op)[j],
                ) by {
                    assert(inst_defs(op)[j] == made@[j].1);
                    assert(t@[made@[j].0 as int] == Some(made@[j].1));
                }
            }
            op
        },
        IrOp::Unknown { address, raw, mode } => SsaOp::Unknown { address, raw, mode },
    }
}

/// The phis block `q` needs: one for each register with a phi value whose
/// predecessors leave it with values, when two or more do.
fn block_phis(
    f: &SemanticFunction,
    q: usize,
    preds: &Vec<usize>,
    out: &Vec<Option<[Option<ValueId>; 16]>>,
    phis: &Vec<Option<ValueId>>,
    Ghost(defs): Ghost<Seq<ValueDef>>,
) -> (r: Vec<SsaPhi>)
    requires
        q < f.blocks@.len(),
        out@.len() == f.blocks@.len(),
        forall|i: int| 0 <= i < preds@.len() ==> #[trigger] preds@[i] < f.blocks@.len() && succ_of(*f, preds@[i] as int, q as int),
        forall|p: int| 0 <= p < out@.len() && (#[trigger] out@[p]) is Some ==> state_ok(defs, out@[p].unwrap()@),
        phis_ok(defs, *f, phis@),
    ensures
        forall|j: int| 0 <= j < r@.len() ==> phi_ok(defs, *f, q as int, #[trigger] r@[j]),
        forall|j: int| 0 <= j < r@.len() ==> phis@[16 * q + (#[trigger] r@[j]).register] == Some(r@[j].value),
        forall|i: int, j: int| 0 <= i < j < r@.len() ==> (#[trigger] r@[i]).register < (#[trigger] r@[j]).register,
{
    let mut nodes: Vec<SsaPhi> = Vec::new();
    let total = phis.len();
    let mut reg: usize = 0;
    while reg < 16
        invariant
            total == phis@.len(),
            q < f.blocks@.len(),
            out@.len() == f.blocks@.len(),
            forall|i: int| 0 <= i < preds@.len() ==> #[trigger] preds@[i] < f.blocks@.len() && succ_of(*f, preds@[i] as int, q as int),
            forall|p: int| 0 <= p < out@.len() && (#[trigger] out@[p]) is Some ==> state_ok(defs, out@[p].unwrap()@),
            phis_ok(defs, *f, phis@),
            reg <= 16,
            forall|j: int| 0 <= j < nodes@.len() ==> phi_ok(defs, *f, q as int, #[trigger] nodes@[j]) && nodes@[j].register < reg,
            forall|j: int| 0 <= j < nodes@.len() ==> phis@[16 * q + (#[trigger] nodes@[j]).register] == Some(nodes@[j].value),
            forall|i: int, j: int| 0 <= i < j < nodes@.len() ==> (#[trigger] nodes@[i]).register < (#[trigger] nodes@[j]).register,
        decreases 16 - reg,
    {
        let slot = 16 * q + reg;
        if let Some(value) = phis[slot] {
            proof {
                assert(phis@[16 * (q as int) + (reg as int)] is Some);
            }
            let mut incoming: Vec<(BlockId, ValueId)> = Vec::new();
            let mut i: usize = 0;
            while i < preds.len()
                invariant
                    q < f.blocks@.len(),
                    reg < 16,
                    out@.len() == f.blocks@.len(),
                    forall|c: int| 0 <= c < preds@.len() ==> #[trigger] preds@[c] < f.blocks@.len() && succ_of(*f, preds@[c] as int, q as int),
                    forall|p: int| 0 <= p < out@.len() && (#[trigger] out@[p]) is Some ==> state_ok(defs, out@[p].unwrap()@),
                    i <= preds@.len(),
                    forall|c: int| 0 <= c < incoming@.len() ==> {
                        &&& exists|p: int| 0 <= p < f.blocks@.len() && (#[trigger] f.blocks@[p]).id == (#[trigger] incoming@[c]).0 && succ_of(*f, p, q as int)
                        &&& holds(defs, reg as int, incoming@[c].1)
                    },
                decreases preds@.len() - i,
            {
                let p = preds[i];
                if let Some(st) = out[p] {
                    if let Some(x) = st[reg] {
                        proof {
                            assert(out@[p as int] is Some);
                            assert(st@[reg as int] is Some);
                        }
                        incoming.push((f.blocks[p].id, x));
                        proof {
                            assert(f.blocks@[p as int].id == incoming@[incoming@.len() - 1].0);
                        }
                    }
                }
                i = i + 1;
            }
            if incoming.len() > 1 {
                nodes.push(SsaPhi { value, register: reg as u8, incoming });
            }
        }
        reg = reg + 1;
    }
    nodes
}

// ---------------------------------------------------------------------------
// Lowering a function
// ---------------------------------------------------------------------------

/// Every block reached along `k` edges is reached from a predecessor along
/// as many, unless it is the entry.
proof fn lemma_reach_pred(f: SemanticFunction, q: int, k: nat)
    requires
        0 <= q < f.blocks@.len(),
        in_reach(f, q, k),
        f.blocks@[q].id != f.entry,
    ensures
        exists|p: int| 0 <= p < f.blocks@.len() && #[trigger] in_reach(f, p, k) && succ_of(f, p, q),
    decreases k,
{
    if k > 0 {
        let prev = reach_seq(f, (k - 1) as nat);
        lemma_reach_len(f, (k - 1) as nat);
        if prev[q] {
            lemma_reach_pred(f, q, (k - 1) as nat);
            let p = choose|p: int| 0 <= p < f.blocks@.len() && #[trigger] in_reach(f, p, (k - 1) as nat) && succ_of(f, p, q);
            lemma_reach_step(f, p, (k - 1) as nat);
        } else {
            let p = choose|p: int| 0 <= p < f.blocks@.len() && #[trigger] prev[p] && succ_of(f, p, q);
            lemma_reach_step(f, p, (k - 1) as nat);
        }
    }
}

proof fn lemma_reach_len(f: SemanticFunction, k: nat)
    ensures
        reach_seq(f, k).len() == f.blocks@.len(),
    decreases k,
{
    if k > 0 {
        lemma_reach_len(f, (k - 1) as nat);
    }
}

proof fn lemma_reach_step(f: SemanticFunction, q: int, k: nat)
    requires
        0 <= q < f.blocks@.len(),
        in_reach(f, q, k),
    ensures
        in_reach(f, q, k + 1),
{
    lemma_reach_len(f, k);
}

proof fn lemma_reach_grows(f: SemanticFunction, q: int, a: nat, b: nat)
    requires
        0 <= q < f.blocks@.len(),
        in_reach(f, q, a),
        a <= b,
    ensures
        in_reach(f, q, b),
    decreases b - a,
{
    if a < b {
        lemma_reach_grows(f, q, a, (b - 1) as nat);
        lemma_reach_step(f, q, (b - 1) as nat);
    }
}

/// The state stored for block `q` follows from its predecessors' states.
pub open spec fn closed(f: SemanticFunction, preds: Seq<usize>, out: Seq<Option<[Option<ValueId>; 16]>>, q: int) -> bool {
    &&& out[q] is Some
    &&& f.blocks@[q].id == f.entry ==> all_some(out[q].unwrap()@)
    &&& forall|r: int| 0 <= r < 16 && reaches_with(preds, out, r) ==> (#[trigger] out[q].unwrap()@[r]) is Some
}

/// `list` holds the predecessors of block `q`, each at least once.
pub open spec fn pred_list_ok(f: SemanticFunction, list: Seq<usize>, q: int) -> bool {
    &&& forall|i: int| 0 <= i < list.len() ==> #[trigger] list[i] < f.blocks@.len() && succ_of(f, list[i] as int, q)
    &&& forall|p: int| 0 <= p < f.blocks@.len() && succ_of(f, p, q) ==> exists|i: int| 0 <= i < list.len() && #[trigger] list[i] as int == p
}

/// The predecessors of each block, as `predecessors` lists them.
pub open spec fn preds_ok(f: SemanticFunction, preds: Seq<Vec<usize>>) -> bool {
    &&& preds.len() == f.blocks@.len()
    &&& forall|q: int| 0 <= q < preds.len() ==> #[trigger] pred_list_ok(f, preds[q]@, q)
}

/// Where every stored state follows from its predecessors', every reached
/// block has a value for every register.
proof fn lemma_closed_reach(f: SemanticFunction, preds: Seq<Vec<usize>>, out: Seq<Option<[Option<ValueId>; 16]>>, k: nat)
    requires
        preds_ok(f, preds),
        out.len() == f.blocks@.len(),
        forall|q: int| 0 <= q < f.blocks@.len() ==> #[trigger] closed(f, preds[q]@, out, q),
    ensures
        forall|q: int| 0 <= q < f.blocks@.len() && #[trigger] in_reach(f, q, k) ==> out[q] is Some && all_some(out[q].unwrap()@),
    decreases k,
{
    if k > 0 {
        lemma_closed_reach(f, preds, out, (k - 1) as nat);
        lemma_reach_len(f, (k - 1) as nat);
    }
    assert forall|q: int| 0 <= q < f.blocks@.len() && #[trigger] in_reach(f, q, k) implies out[q] is Some && all_some(out[q].unwrap()@) by {
        assert(closed(f, preds[q]@, out, q));
        if f.blocks@[q].id != f.entry {
            lemma_reach_pred(f, q, k);
            if k == 0 {
                assert(false);
            }
            let prev = reach_seq(f, (k - 1) as nat);
            if !prev[q] {
                let p = choose|p: int| 0 <= p < f.blocks@.len() && #[trigger] prev[p] && succ_of(f, p, q);
                assert(in_reach(f, p, (k - 1) as nat));
                assert(pred_list_ok(f, preds[q]@, q));
                let i = choose|i: int| 0 <= i < preds[q]@.len() && #[trigger] preds[q]@[i] as int == p;
                assert forall|r: int| 0 <= r < 16 implies (#[trigger] out[q].unwrap()@[r]) is Some by {
                    assert(out[preds[q]@[i] as int] is Some);
                    assert(reaches_with(preds[q]@, out, r));
                }
            } else {
                assert(in_reach(f, q, (k - 1) as nat));
            }
        }
    }
}

fn same_state(a: &[Option<ValueId>; 16], b: &[Option<ValueId>; 16]) -> (r: bool)
    ensures
        r == (a@ == b@),
{
    let mut i: usize = 0;
    while i < 16
        invariant
            i <= 16,
            a@.len() == 16,
            b@.len() == 16,
            forall|c: int| 0 <= c < i ==> a@[c] == b@[c],
        decreases 16 - i,
    {
        if a[i] != b[i] {
            return false;
        }
        i = i + 1;
    }
    proof {
        assert(a@ =~= b@);
    }
    true
}

proof fn lemma_op_grows(d1: Seq<ValueDef>, d2: Seq<ValueDef>, ins: SemanticInstruction, id: BlockId, k: int, op: SsaOp)
    requires
        grows(d1, d2),
        op_ok(d1, ins, id, k, op),
    ensures
        op_ok(d2, ins, id, k, op),
{
    match (first_op(ins), op) {
        (IrOp::ArmExtended { .. }, SsaOp::Extended { uses, defs: made, .. }) | (IrOp::ThumbExtended { .. }, SsaOp::Extended { uses, defs: made, .. }) => {
            assert forall|i: int| 0 <= i < uses@.len() implies (#[trigger] uses@[i]).0 == listed(ins.reads@)[i] && holds(
                d2,
                listed(ins.reads@)[i] as int,
                uses@[i].1,
            ) by {
                assert(holds(d1, listed(ins.reads@)[i] as int, uses@[i].1));
            }
            assert forall|i: int| 0 <= i < made@.len() implies (#[trigger] made@[i]).0 == listed(ins.writes@)[i] && made_by(
                d2,
                id,
                k,
                listed(ins.writes@)[i] as int,
                made@[i].1,
            ) by {
                assert(made_by(d1, id, k, listed(ins.writes@)[i] as int, made@[i].1));
            }
        },
        (IrOp::Mov { src, .. }, SsaOp::Mov { src: x, .. }) => {
            assert(operand_ok(d2, src, x));
        },
        (IrOp::Add { rhs, .. }, SsaOp::Add { rhs: x, .. }) => {
            assert(operand_ok(d2, rhs, x));
        },
        (IrOp::Sub { rhs, .. }, SsaOp::Sub { rhs: x, .. }) => {
            assert(operand_ok(d2, rhs, x));
        },
        (IrOp::Cmp { rhs, .. }, SsaOp::Cmp { rhs: x, .. }) => {
            assert(operand_ok(d2, rhs, x));
        },
        _ => {
        },
    }
}

/// What is lowered against some definitions stays lowered as more are made.
proof fn lemma_lowered_grows(d1: Seq<ValueDef>, d2: Seq<ValueDef>, f: SemanticFunction, q: int, b: SsaBlock)
    requires
        grows(d1, d2),
        block_lowered(d1, f, q, b),
    ensures
        block_lowered(d2, f, q, b),
{
    let s = f.blocks@[q];
    assert forall|k: int| 0 <= k < b.instructions@.len() implies op_ok(d2, s.instructions@[k], s.id, k, (#[trigger] b.instructions@[k]).op) by {
        lemma_op_grows(d1, d2, s.instructions@[k], s.id, k, b.instructions@[k].op);
    }
    assert forall|j: int| 0 <= j < b.phis@.len() implies phi_ok(d2, f, q, #[trigger] b.phis@[j]) by {
        let phi = b.phis@[j];
        assert(phi_ok(d1, f, q, phi));
        assert forall|i: int| 0 <= i < phi.incoming@.len() implies holds(d2, phi.register as int, (#[trigger] phi.incoming@[i]).1) by {
            assert(holds(d1, phi.register as int, phi.incoming@[i].1));
        }
    }
}

/// The values a block defines all come from `lo` on.
pub open spec fn block_sites_from(b: SsaBlock, lo: nat) -> bool {
    &&& forall|j: int| 0 <= j < b.phis@.len() ==> (#[trigger] b.phis@[j]).value.0 >= lo
    &&& forall|k: int, j: int| 0 <= k < b.instructions@.len() && 0 <= j < inst_defs(b.instructions@[k].op).len() ==> (#[trigger] inst_defs(
        b.instructions@[k].op,
    )[j]).0 >= lo
}

/// A block reached along `k > 0` edges that is not the entry has a
/// predecessor reached along fewer.
proof fn lemma_reach_prev(f: SemanticFunction, q: int, k: nat)
    requires
        0 <= q < f.blocks@.len(),
        in_reach(f, q, k),
        f.blocks@[q].id != f.entry,
    ensures
        k > 0,
        exists|p: int| 0 <= p < f.blocks@.len() && #[trigger] in_reach(f, p, (k - 1) as nat) && succ_of(f, p, q),
{
    if k == 0 {
        assert(reach_seq(f, 0)[q] == (f.blocks@[q].id == f.entry));
    } else {
        let prev = reach_seq(f, (k - 1) as nat);
        lemma_reach_len(f, (k - 1) as nat);
        if prev[q] {
            lemma_reach_pred(f, q, (k - 1) as nat);
        } else {
            let p = choose|p: int| 0 <= p < f.blocks@.len() && #[trigger] prev[p] && succ_of(f, p, q);
            assert(in_reach(f, p, (k - 1) as nat));
        }
    }
}

/// The tables of a function being lowered, against the definitions made so far.
pub open spec fn tables_ok(
    defs: Seq<ValueDef>,
    f: SemanticFunction,
    base: nat,
    entry: Seq<Option<ValueId>>,
    tab: Seq<Vec<[Option<ValueId>; 16]>>,
    phis: Seq<Option<ValueId>>,
    out: Seq<Option<[Option<ValueId>; 16]>>,
) -> bool {
    &&& all_some(entry)
    &&& state_ok(defs, entry)
    &&& tab_ok(defs, f, tab)
    &&& forall|q: int, k: int, r: int|
        0 <= q < tab.len() && 0 <= k < tab[q]@.len() && 0 <= r < 16 && (#[trigger] tab[q]@[k]@[r]) is Some ==> tab[q]@[k]@[r].unwrap().0 >= base
    &&& phis_ok(defs, f, phis)
    &&& forall|i: int| 0 <= i < phis.len() && (#[trigger] phis[i]) is Some ==> phis[i].unwrap().0 >= base
    &&& out.len() == f.blocks@.len()
    &&& forall|p: int| 0 <= p < out.len() && (#[trigger] out[p]) is Some ==> state_ok(defs, out[p].unwrap()@)
}

proof fn lemma_tables_grow(
    d1: Seq<ValueDef>,
    d2: Seq<ValueDef>,
    f: SemanticFunction,
    base: nat,
    entry: Seq<Option<ValueId>>,
    tab: Seq<Vec<[Option<ValueId>; 16]>>,
    phis1: Seq<Option<ValueId>>,
    phis2: Seq<Option<ValueId>>,
    out: Seq<Option<[Option<ValueId>; 16]>>,
)
    requires
        grows(d1, d2),
        base <= d1.len(),
        tables_ok(d1, f, base, entry, tab, phis1, out),
        phis_ok(d2, f, phis2),
        phis2.len() == phis1.len(),
        forall|i: int| 0 <= i < phis1.len() && (#[trigger] phis1[i]) is Some ==> phis2[i] == phis1[i],
        forall|i: int| 0 <= i < phis1.len() && (#[trigger] phis2[i]) is Some && phis1[i] is None ==> phis2[i].unwrap().0 >= d1.len(),
    ensures
        tables_ok(d2, f, base, entry, tab, phis2, out),
{
    assert forall|r: int| 0 <= r < 16 && (#[trigger] entry[r]) is Some implies holds(d2, r, entry[r].unwrap()) by {
        assert(holds(d1, r, entry[r].unwrap()));
    }
    assert forall|q: int, k: int, r: int|
        0 <= q < tab.len() && 0 <= k < tab[q]@.len() && 0 <= r < 16 && (#[trigger] tab[q]@[k]@[r]) is Some implies made_by(
        d2,
        f.blocks@[q].id,
        k,
        r,
        tab[q]@[k]@[r].unwrap(),
    ) by {
        assert(made_by(d1, f.blocks@[q].id, k, r, tab[q]@[k]@[r].unwrap()));
    }
    assert forall|i: int| 0 <= i < phis2.len() && (#[trigger] phis2[i]) is Some implies phis2[i].unwrap().0 >= base by {
        if phis1[i] is Some {
            assert(phis1[i].unwrap().0 >= base);
        }
    }
    assert forall|p: int| 0 <= p < out.len() && (#[trigger] out[p]) is Some implies state_ok(d2, out[p].unwrap()@) by {
        assert(state_ok(d1, out[p].unwrap()@));
        assert forall|r: int| 0 <= r < 16 && (#[trigger] out[p].unwrap()@[r]) is Some implies holds(d2, r, out[p].unwrap()@[r].unwrap()) by {
            assert(holds(d1, r, out[p].unwrap()@[r].unwrap()));
        }
    }
}

/// Lowers one function; its values are made after those already recorded.
fn lower_function(f: &SemanticFunction, defs: &mut Vec<ValueDef>) -> (r: SsaFunction)
    requires
        fn_ready(*f),
        old(defs)@.len() + fn_budget(*f) <= u32::MAX,
    ensures
        grows(old(defs)@, final(defs)@),
        final(defs)@.len() <= old(defs)@.len() + fn_budget(*f),
        fn_lowered(final(defs)@, *f, r),
        forall|q: int| 0 <= q < r.blocks@.len() ==> block_sites_from(#[trigger] r.blocks@[q], old(defs)@.len()),
{
    let n = f.blocks.len();
    let ghost base = defs@.len();
    let preds = predecessors(f);
    let entry = entry_state(defs);
    let tab = prealloc(f, defs);
    let ghost fixed: nat = defs@.len();
    let mut phis: Vec<Option<ValueId>> = Vec::new();
    let slots = 16 * n;
    let mut i: usize = 0;
    while i < slots
        invariant
            slots == 16 * n,
            i <= slots,
            phis@.len() == i,
            count_some(phis@) == 0,
            forall|c: int| 0 <= c < i ==> (#[trigger] phis@[c]) is None,
        decreases slots - i,
    {
        let ghost before = phis@;
        phis.push(None);
        proof {
            assert(phis@.drop_last() == before);
        }
        i = i + 1;
    }
    let mut out: Vec<Option<[Option<ValueId>; 16]>> = Vec::new();
    let mut i: usize = 0;
    while i < n
        invariant
            i <= n,
            out@.len() == i,
            forall|c: int| 0 <= c < i ==> (#[trigger] out@[c]) is None,
        decreases n - i,
    {
        out.push(None);
        i = i + 1;
    }
    let limit: usize = if n > usize::MAX / 8 {
        usize::MAX
    } else if n * 8 > 8 {
        n * 8
    } else {
        8
    };
    proof {
        assert(preds_ok(*f, preds@));
        let e = choose|e: int| 0 <= e < n && (#[trigger] f.blocks@[e]).id == f.entry;
        assert(n >= 1);
        assert(limit >= n + 1);
    }
    let mut pass: usize = 0;
    let mut settled = false;
    while pass < limit && !settled
        invariant
            n == f.blocks@.len(),
            fn_ready(*f),
            preds_ok(*f, preds@),
            limit >= n + 1,
            pass <= limit,
            grows(old(defs)@, defs@),
            base == old(defs)@.len(),
            fixed <= base + 16 + 16 * instrs_upto(*f, n as int),
            base + fn_budget(*f) <= u32::MAX,
            defs@.len() == fixed + count_some(phis@),
            tables_ok(defs@, *f, base, entry@, tab@, phis@, out@),
            forall|q: int| 0 <= q < n && pass > 0 && #[trigger] in_reach(*f, q, (pass - 1) as nat) ==> out@[q] is Some && all_some(out@[q].unwrap()@),
            settled ==> forall|q: int| 0 <= q < n ==> #[trigger] closed(*f, preds@[q]@, out@, q),
        decreases limit - pass,
    {
        let mut changed = false;
        let mut q: usize = 0;
        while q < n
            invariant
                n == f.blocks@.len(),
                fn_ready(*f),
                preds_ok(*f, preds@),
                grows(old(defs)@, defs@),
                base == old(defs)@.len(),
                fixed <= base + 16 + 16 * instrs_upto(*f, n as int),
                base + fn_budget(*f) <= u32::MAX,
                defs@.len() == fixed + count_some(phis@),
                tables_ok(defs@, *f, base, entry@, tab@, phis@, out@),
                q <= n,
                forall|c: int| 0 <= c < n && pass > 0 && #[trigger] in_reach(*f, c, (pass - 1) as nat) ==> out@[c] is Some && all_some(out@[c].unwrap()@),
                forall|c: int| 0 <= c < q && #[trigger] in_reach(*f, c, pass as nat) ==> out@[c] is Some && all_some(out@[c].unwrap()@),
                !changed ==> forall|c: int| 0 <= c < q ==> #[trigger] closed(*f, preds@[c]@, out@, c),
            decreases n - q,
        {
            let ghost d0 = defs@;
            let ghost p0 = phis@;
            let ghost out0 = out@;
            proof {
                assert(pred_list_ok(*f, preds@[q as int]@, q as int));
            }
            let is_entry = f.blocks[q].id == f.entry;
            let st0 = if is_entry {
                entry
            } else {
                proof {
                    assert(fixed + 16 * n <= u32::MAX);
                }
                let st = merge(f, q, &preds[q], &out, &mut phis, defs, Ghost(fixed));
                proof {
                    lemma_tables_grow(d0, defs@, *f, base, entry@, tab@, p0, phis@, out@);
                }
                st
            };
            proof {
                assert forall|k: int, r: int| 0 <= k < tab@[q as int]@.len() && 0 <= r < 16 && (#[trigger] tab@[q as int]@[k]@[r]) is Some implies holds(
                    defs@,
                    r,
                    tab@[q as int]@[k]@[r].unwrap(),
                ) by {
                    assert(made_by(defs@, f.blocks@[q as int].id, k, r, tab@[q as int]@[k]@[r].unwrap()));
                }
            }
            let st = block_out(st0, &tab[q], Ghost(defs@));
            proof {
                // the new state has a value for every register where it must
                if is_entry {
                    assert forall|r: int| 0 <= r < 16 implies (#[trigger] st@[r]) is Some by {
                        assert(entry@[r] is Some);
                    }
                }
                assert forall|k: nat| #[trigger] in_reach(*f, q as int, k) && (k == pass || (pass > 0 && k == pass - 1)) implies all_some(st@) by {
                    if !is_entry {
                        lemma_reach_prev(*f, q as int, k);
                        let p = choose|p: int| 0 <= p < n && #[trigger] in_reach(*f, p, (k - 1) as nat) && succ_of(*f, p, q as int);
                        if k == pass - 1 {
                            lemma_reach_step(*f, p, (k - 1) as nat);
                        }
                        let i = choose|i: int| 0 <= i < preds@[q as int]@.len() && #[trigger] preds@[q as int]@[i] as int == p;
                        assert forall|r: int| 0 <= r < 16 implies (#[trigger] st@[r]) is Some by {
                            assert(out0[preds@[q as int]@[i] as int] is Some);
                            assert(reaches_with(preds@[q as int]@, out0, r));
                            assert(st0@[r] is Some);
                        }
                    }
                }
                assert forall|r: int| 0 <= r < 16 && reaches_with(preds@[q as int]@, out0, r) implies (#[trigger] st@[r]) is Some by {
                    if is_entry {
                        assert(entry@[r] is Some);
                    } else {
                        assert(st0@[r] is Some);
                    }
                }
            }
            let same = match &out[q] {
                Some(o) => same_state(o, &st),
                None => false,
            };
            if !same {
                out.set(q, Some(st));
                changed = true;
            }
            proof {
                assert forall|c: int| 0 <= c < n && pass > 0 && #[trigger] in_reach(*f, c, (pass - 1) as nat) implies out@[c] is Some && all_some(
                    out@[c].unwrap()@,
                ) by {
                    if c == q {
                        assert(in_reach(*f, q as int, (pass - 1) as nat));
                    }
                }
                assert forall|c: int| 0 <= c < q + 1 && #[trigger] in_reach(*f, c, pass as nat) implies out@[c] is Some && all_some(out@[c].unwrap()@) by {
                    if c == q {
                        assert(in_reach(*f, q as int, pass as nat));
                    }
                }
                if !changed {
                    assert(out@ == out0);
                    assert forall|c: int| 0 <= c < q + 1 implies #[trigger] closed(*f, preds@[c]@, out@, c) by {
                        if c == q {
                            assert(out@[c].unwrap()@ == st@);
                        }
                    }
                }
            }
            q = q + 1;
        }
        if !changed {
            settled = true;
        }
        pass = pass + 1;
    }
    proof {
        assert forall|q: int| 0 <= q < n implies out@[q] is Some && all_some(out@[q].unwrap()@) by {
            assert(in_reach(*f, q, n as nat));
            if settled {
                lemma_closed_reach(*f, preds@, out@, n as nat);
            } else {
                lemma_reach_grows(*f, q, n as nat, (pass - 1) as nat);
            }
        }
    }
    let mut blocks: Vec<SsaBlock> = Vec::new();
    let mut q: usize = 0;
    while q < n
        invariant
            n == f.blocks@.len(),
            fn_ready(*f),
            preds_ok(*f, preds@),
            grows(old(defs)@, defs@),
            base == old(defs)@.len(),
            fixed <= base + 16 + 16 * instrs_upto(*f, n as int),
            base + fn_budget(*f) <= u32::MAX,
            defs@.len() == fixed + count_some(phis@),
            tables_ok(defs@, *f, base, entry@, tab@, phis@, out@),
            forall|c: int| 0 <= c < n ==> (#[trigger] out@[c]) is Some && all_some(out@[c].unwrap()@),
            q <= n,
            blocks@.len() == q,
            forall|c: int| 0 <= c < q ==> block_lowered(defs@, *f, c, #[trigger] blocks@[c]) && block_sites_from(blocks@[c], base),
        decreases n - q,
    {
        let ghost d0 = defs@;
        let ghost p0 = phis@;
        proof {
            assert(pred_list_ok(*f, preds@[q as int]@, q as int));
        }
        let blk = &f.blocks[q];
        let is_entry = blk.id == f.entry;
        let mut st = if is_entry {
            entry
        } else {
            let s = merge(f, q, &preds[q], &out, &mut phis, defs, Ghost(fixed));
            proof {
                lemma_tables_grow(d0, defs@, *f, base, entry@, tab@, p0, phis@, out@);
                assert forall|c: int| 0 <= c < q implies block_lowered(defs@, *f, c, #[trigger] blocks@[c]) by {
                    lemma_lowered_grows(d0, defs@, *f, c, blocks@[c]);
                }
                assert(in_reach(*f, q as int, n as nat));
                lemma_reach_prev(*f, q as int, n as nat);
                let p = choose|p: int| 0 <= p < n && #[trigger] in_reach(*f, p, (n - 1) as nat) && succ_of(*f, p, q as int);
                let i = choose|i: int| 0 <= i < preds@[q as int]@.len() && #[trigger] preds@[q as int]@[i] as int == p;
                assert forall|r: int| 0 <= r < 16 implies (#[trigger] s@[r]) is Some by {
                    assert(out@[preds@[q as int]@[i] as int] is Some);
                    assert(reaches_with(preds@[q as int]@, out@, r));
                }
            }
            s
        };
        let ni = blk.instructions.len();
        let mut instructions: Vec<SsaInstruction> = Vec::new();
        let mut k: usize = 0;
        while k < ni
            invariant
                n == f.blocks@.len(),
                q < n,
                fn_ready(*f),
                *blk == f.blocks@[q as int],
                ni == blk.instructions@.len(),
                k <= ni,
                tables_ok(defs@, *f, base, entry@, tab@, phis@, out@),
                all_some(st@),
                state_ok(defs@, st@),
                instructions@.len() == k,
                forall|c: int| 0 <= c < k ==> {
                    &&& (#[trigger] instructions@[c]).address == blk.instructions@[c].address
                    &&& instructions@[c].size == blk.instructions@[c].size
                    &&& op_ok(defs@, blk.instructions@[c], blk.id, c, instructions@[c].op)
                },
                forall|c: int, j: int| 0 <= c < k && 0 <= j < inst_defs(instructions@[c].op).len() ==> (#[trigger] inst_defs(
                    instructions@[c].op,
                )[j]).0 >= base,
            decreases ni - k,
        {
            let ins = &blk.instructions[k];
            let t = &tab[q][k];
            proof {
                assert(row_ok(defs@, *ins, blk.id, k as int, t@));
            }
            let op = lower_op(ins, blk.id, k, &st, t, Ghost(defs@));
            proof {
                assert forall|j: int| 0 <= j < inst_defs(op).len() implies (#[trigger] inst_defs(op)[j]).0 >= base by {
                    let r = choose|r: int| 0 <= r < 16 && t@[r] == Some(#[trigger] inst_defs(op)[j]);
                    assert(tab@[q as int]@[k as int]@[r] is Some);
                }
            }
            instructions.push(SsaInstruction { address: ins.address, size: ins.size, op });
            let next = transfer(st, t);
            proof {
                assert forall|r: int| 0 <= r < 16 && (#[trigger] next@[r]) is Some implies holds(defs@, r, next@[r].unwrap()) by {
                    if t@[r] is Some {
                        assert(made_by(defs@, blk.id, k as int, r, t@[r].unwrap()));
                    }
                }
                assert forall|r: int| 0 <= r < 16 implies (#[trigger] next@[r]) is Some by {
                    assert(st@[r] is Some);
                }
            }
            st = next;
            k = k + 1;
        }
        proof {
            assert forall|i: int| 0 <= i < preds@[q as int]@.len() implies #[trigger] preds@[q as int]@[i] < n && succ_of(
                *f,
                preds@[q as int]@[i] as int,
                q as int,
            ) by {
                assert(preds_ok(*f, preds@));
            }
        }
        let phi_nodes = block_phis(f, q, &preds[q], &out, &phis, Ghost(defs@));
        let block = SsaBlock {
            id: blk.id,
            address: blk.address,
            mode: blk.mode,
            phis: phi_nodes,
            instructions,
            successors: copy_ids(&blk.successors),
            terminator: blk.terminator,
        };
        proof {
            assert forall|j: int| 0 <= j < block.phis@.len() implies (#[trigger] block.phis@[j]).value.0 >= base by {
                assert(phis@[16 * q + block.phis@[j].register] is Some);
            }
        }
        blocks.push(block);
        q = q + 1;
    }
    proof {
        lemma_count_bound(phis@);
    }
    SsaFunction { id: f.id, entry: f.entry, blocks }
}

// ---------------------------------------------------------------------------
// Lowering a program
// ---------------------------------------------------------------------------

/// The register the `j`-th value an instruction makes belongs to.
pub open spec fn made_register(ins: SemanticInstruction, j: int) -> int {
    match first_op(ins) {
        IrOp::Mov { dst, .. } => dst as int,
        IrOp::Add { dst, .. } => dst as int,
        IrOp::Sub { dst, .. } => dst as int,
        IrOp::Load { dst, .. } => dst as int,
        _ => listed(ins.writes@)[j] as int,
    }
}

proof fn lemma_listed_increasing(s: Seq<u8>, r: int)
    requires
        0 <= r <= 16,
    ensures
        forall|i: int, j: int| 0 <= i < j < listed_from(s, r).len() ==> listed_from(s, r)[i] < listed_from(s, r)[j],
    decreases 16 - r,
{
    if r < 16 {
        lemma_listed_increasing(s, r + 1);
        lemma_listed_from(s, r + 1);
        if s.contains(r as u8) {
            assert(listed_from(s, r) == seq![r as u8] + listed_from(s, r + 1));
            assert forall|i: int, j: int| 0 <= i < j < listed_from(s, r).len() implies listed_from(s, r)[i] < listed_from(s, r)[j] by {
                assert(listed_from(s, r)[j] == listed_from(s, r + 1)[j - 1]);
                if i > 0 {
                    assert(listed_from(s, r)[i] == listed_from(s, r + 1)[i - 1]);
                }
            }
        } else {
            assert(listed_from(s, r) == listed_from(s, r + 1));
        }
    }
}

/// Each value an operation makes is recorded as made by it for its register;
/// an operation makes at most one value unless it is extended, whose values
/// belong to ascending registers.
proof fn lemma_made(defs: Seq<ValueDef>, ins: SemanticInstruction, id: BlockId, k: int, op: SsaOp)
    requires
        op_ok(defs, ins, id, k, op),
    ensures
        forall|j: int| 0 <= j < inst_defs(op).len() ==> made_by(defs, id, k, made_register(ins, j), #[trigger] inst_defs(op)[j]),
        forall|i: int, j: int| 0 <= i < j < inst_defs(op).len() ==> made_register(ins, i) < made_register(ins, j),
{
    lemma_listed_increasing(ins.writes@, 0);
    match (first_op(ins), op) {
        (IrOp::ArmExtended { .. }, SsaOp::Extended { defs: made, .. }) | (IrOp::ThumbExtended { .. }, SsaOp::Extended { defs: made, .. }) => {
            assert forall|j: int| 0 <= j < inst_defs(op).len() implies made_by(defs, id, k, made_register(ins, j), #[trigger] inst_defs(op)[j]) by {
                assert(inst_defs(op)[j] == made@[j].1);
            }
        },
        _ => {
        },
    }
}

proof fn lemma_block_instrs_bound(f: SemanticFunction, b: int)
    requires
        0 <= b < f.blocks@.len(),
    ensures
        f.blocks@[b].instructions@.len() <= instrs_upto(f, f.blocks@.len() as int),
{
    lemma_instrs_grow(f, b + 1, f.blocks@.len() as int);
}

/// The description of the value made at a place of a lowered function.
proof fn lemma_site_made(defs: Seq<ValueDef>, f: SemanticFunction, r: SsaFunction, b: int, k: int, j: int)
    requires
        fn_ready(f),
        fn_lowered(defs, f, r),
        fsite(r, b, k, j) is Some,
    ensures
        fsite(r, b, k, j).unwrap().0 < defs.len(),
        k == -1 ==> defs[fsite(r, b, k, j).unwrap().0 as int] == (ValueDef::Phi { block: f.blocks@[b].id, register: r.blocks@[b].phis@[j].register }),
        k != -1 ==> made_by(defs, f.blocks@[b].id, k, made_register(f.blocks@[b].instructions@[k], j), fsite(r, b, k, j).unwrap()),
        k != -1 ==> 0 <= made_register(f.blocks@[b].instructions@[k], j) < 16,
        k != -1 ==> (forall|i: int|
            0 <= i < inst_defs(r.blocks@[b].instructions@[k].op).len() && i != j ==> made_register(f.blocks@[b].instructions@[k], i)
                != made_register(f.blocks@[b].instructions@[k], j)),
{
    let blk = r.blocks@[b];
    assert(block_lowered(defs, f, b, blk));
    if k == -1 {
        assert(phi_ok(defs, f, b, blk.phis@[j]));
    } else {
        let ins = f.blocks@[b].instructions@[k];
        let op = blk.instructions@[k].op;
        assert(op_in_range(first_op(ins)));
        assert(op_ok(defs, ins, f.blocks@[b].id, k, op));
        lemma_made(defs, ins, f.blocks@[b].id, k, op);
        lemma_listed_from(ins.writes@, 0);
        assert(inst_defs(op)[j] == fsite(r, b, k, j).unwrap());
        assert forall|i: int| 0 <= i < inst_defs(op).len() && i != j implies made_register(ins, i) != made_register(ins, j) by {
            if i < j {
                assert(made_register(ins, i) < made_register(ins, j));
            } else {
                assert(made_register(ins, j) < made_register(ins, i));
            }
        }
        match (first_op(ins), op) {
            (IrOp::ArmExtended { .. }, SsaOp::Extended { defs: made, .. }) | (IrOp::ThumbExtended { .. }, SsaOp::Extended { defs: made, .. }) => {
                assert(made@.len() == listed(ins.writes@).len());
            },
            _ => {
            },
        }
    }
}

/// Within a lowered function no value is defined at two places.
proof fn lemma_fn_sites_distinct(defs: Seq<ValueDef>, f: SemanticFunction, r: SsaFunction)
    requires
        fn_ready(f),
        fn_budget(f) <= u32::MAX,
        fn_lowered(defs, f, r),
    ensures
        forall|b1: int, k1: int, j1: int, b2: int, k2: int, j2: int|
            (#[trigger] fsite(r, b1, k1, j1)) is Some && (#[trigger] fsite(r, b2, k2, j2)) is Some && (b1, k1, j1) != (b2, k2, j2) ==> fsite(
                r,
                b1,
                k1,
                j1,
            ) != fsite(r, b2, k2, j2),
{
    assert forall|b1: int, k1: int, j1: int, b2: int, k2: int, j2: int|
        (#[trigger] fsite(r, b1, k1, j1)) is Some && (#[trigger] fsite(r, b2, k2, j2)) is Some && (b1, k1, j1) != (b2, k2, j2) implies fsite(
        r,
        b1,
        k1,
        j1,
    ) != fsite(r, b2, k2, j2) by {
        let v1 = fsite(r, b1, k1, j1).unwrap();
        let v2 = fsite(r, b2, k2, j2).unwrap();
        lemma_site_made(defs, f, r, b1, k1, j1);
        lemma_site_made(defs, f, r, b2, k2, j2);
        lemma_block_instrs_bound(f, b1);
        lemma_block_instrs_bound(f, b2);
        if v1 == v2 {
            assert(defs[v1.0 as int] == defs[v2.0 as int]);
            if b1 != b2 {
                assert(f.blocks@[b1].id != f.blocks@[b2].id);
            }
            assert(b1 == b2);
            let blk = r.blocks@[b1];
            assert(block_lowered(defs, f, b1, blk));
            if k1 == -1 && k2 == -1 {
                if j1 < j2 {
                    assert(blk.phis@[j1].register < blk.phis@[j2].register);
                } else if j2 < j1 {
                    assert(blk.phis@[j2].register < blk.phis@[j1].register);
                }
            } else if k1 != -1 && k2 != -1 {
                assert(k1 == k2);
                assert(made_register(f.blocks@[b1].instructions@[k1], j1) == made_register(f.blocks@[b1].instructions@[k1], j2));
            }
        }
    }
}

/// Every successor of every block lies in the block's own function.
pub open spec fn successors_internal(p: SemanticProgram) -> bool {
    forall|f: int, q: int, s: int|
        0 <= f < p.functions@.len() && 0 <= q < p.functions@[f].blocks@.len() && 0 <= s < p.functions@[f].blocks@[q].successors@.len()
            ==> exists|b: int|
            0 <= b < p.functions@[f].blocks@.len() && (#[trigger] p.functions@[f].blocks@[b]).id == #[trigger] p.functions@[f].blocks@[q].successors@[s]
}

proof fn lemma_budget_grows(p: SemanticProgram, a: int, b: int)
    requires
        0 <= a <= b,
    ensures
        budget_upto(p, a) <= budget_upto(p, b),
    decreases b - a,
{
    if a < b {
        lemma_budget_grows(p, a, b - 1);
    }
}

/// Puts a semantic program into SSA form. Each function's registers start
/// with sixteen values of their own; every register write makes a new value,
/// made ahead of time per instruction; block entry states are computed to a
/// fixed point over the function's control flow, a block taking the value
/// its predecessors agree on for each register, or a phi of its own where
/// they differ. A phi node is listed where two or more predecessors leave the
/// register with a value.
pub fn build_ssa_program(semantic: &SemanticProgram) -> (r: SsaProgram)
    requires
        ssa_ready(*semantic),
    ensures
        r.entry == semantic.entry,
        r.functions@.len() == semantic.functions@.len(),
        forall|f: int| 0 <= f < r.functions@.len() ==> fn_lowered(r.definitions@, semantic.functions@[f], #[trigger] r.functions@[f]),
        super::sites_distinct(r),
        super::ssa_valid(r) <==> successors_internal(*semantic),
{
    let mut defs: Vec<ValueDef> = Vec::new();
    let mut functions: Vec<SsaFunction> = Vec::new();
    let ghost mut lo: Seq<nat> = Seq::empty();
    let ghost mut hi: Seq<nat> = Seq::empty();
    let nf = semantic.functions.len();
    let mut i: usize = 0;
    while i < nf
        invariant
            nf == semantic.functions@.len(),
            ssa_ready(*semantic),
            i <= nf,
            defs@.len() <= budget_upto(*semantic, i as int),
            functions@.len() == i,
            lo.len() == i,
            hi.len() == i,
            forall|g: int| 0 <= g < i ==> fn_lowered(defs@, semantic.functions@[g], #[trigger] functions@[g]),
            forall|g: int| 0 <= g < i ==> #[trigger] lo[g] <= hi[g] <= defs@.len(),
            forall|g: int, h: int| 0 <= g < h < i ==> #[trigger] hi[g] <= #[trigger] lo[h],
            forall|g: int, b: int, k: int, j: int|
                0 <= g < i && (#[trigger] fsite(functions@[g], b, k, j)) is Some ==> lo[g] <= fsite(functions@[g], b, k, j).unwrap().0 < hi[g],
        decreases nf - i,
    {
        proof {
            lemma_budget_grows(*semantic, i + 1, nf as int);
            assert(fn_ready(semantic.functions@[i as int]));
        }
        let ghost d0 = defs@;
        let func = lower_function(&semantic.functions[i], &mut defs);
        proof {
            assert forall|g: int| 0 <= g < i implies fn_lowered(defs@, semantic.functions@[g], #[trigger] functions@[g]) by {
                assert(fn_lowered(d0, semantic.functions@[g], functions@[g]));
                assert forall|q: int| 0 <= q < functions@[g].blocks@.len() implies block_lowered(
                    defs@,
                    semantic.functions@[g],
                    q,
                    #[trigger] functions@[g].blocks@[q],
                ) by {
                    lemma_lowered_grows(d0, defs@, semantic.functions@[g], q, functions@[g].blocks@[q]);
                }
            }
            assert forall|b: int, k: int, j: int| (#[trigger] fsite(func, b, k, j)) is Some implies d0.len() <= fsite(func, b, k, j).unwrap().0 < defs@.len() by {
                assert(block_sites_from(func.blocks@[b], d0.len()));
                assert(block_lowered(defs@, semantic.functions@[i as int], b, func.blocks@[b]));
                if k == -1 {
                    assert(phi_ok(defs@, semantic.functions@[i as int], b, func.blocks@[b].phis@[j]));
                } else {
                    lemma_made(
                        defs@,
                        semantic.functions@[i as int].blocks@[b].instructions@[k],
                        semantic.functions@[i as int].blocks@[b].id,
                        k,
                        func.blocks@[b].instructions@[k].op,
                    );
                }
            }
            assert forall|g: int| 0 <= g < i implies hi[g] <= d0.len() by {
                assert(lo[g] <= hi[g] <= d0.len());
            }
            let lo0 = lo;
            let hi0 = hi;
            lo = lo.push(d0.len());
            hi = hi.push(defs@.len());
            assert forall|g: int, h: int| 0 <= g < h < i + 1 implies #[trigger] hi[g] <= #[trigger] lo[h] by {
                assert(hi[g] == hi0[g]);
                assert(lo0[g] <= hi0[g] <= d0.len());
                if h < i {
                    assert(lo[h] == lo0[h]);
                    assert(hi0[g] <= lo0[h]);
                }
            }
            assert forall|g: int| 0 <= g < i + 1 implies #[trigger] lo[g] <= hi[g] <= defs@.len() by {
                if g < i {
                    assert(lo[g] == lo0[g] && hi[g] == hi0[g]);
                    assert(lo0[g] <= hi0[g] <= d0.len());
                }
            }
        }
        functions.push(func);
        i = i + 1;
    }
    let r = SsaProgram { entry: semantic.entry, functions, definitions: defs };
    proof {
        assert forall|f1: int, b1: int, k1: int, j1: int, f2: int, b2: int, k2: int, j2: int|
            (#[trigger] super::site(r, f1, b1, k1, j1)) is Some && (#[trigger] super::site(r, f2, b2, k2, j2)) is Some && (f1, b1, k1, j1) != (
                f2,
                b2,
                k2,
                j2,
            ) implies super::site(r, f1, b1, k1, j1) != super::site(r, f2, b2, k2, j2) by {
            if f1 == f2 {
                lemma_budget_grows(*semantic, f1 + 1, nf as int);
                lemma_fn_sites_distinct(r.definitions@, semantic.functions@[f1], r.functions@[f1]);
                assert(fsite(r.functions@[f1], b1, k1, j1) is Some);
            } else {
                assert(fsite(r.functions@[f1], b1, k1, j1) is Some);
                assert(fsite(r.functions@[f2], b2, k2, j2) is Some);
            }
        }
        lemma_valid_iff(*semantic, r);
    }
    r
}

/// The phis and definitions of block `b` of function `f` are as validation
/// wants them.
pub open spec fn inner_ok(r: SsaProgram, f: int, b: int) -> bool {
    let func = r.functions@[f];
    let blk = func.blocks@[b];
    &&& forall|j: int| 0 <= j < blk.phis@.len() ==> (#[trigger] blk.phis@[j]).incoming@.len() >= 2
    &&& forall|j: int, i: int|
        0 <= j < blk.phis@.len() && 0 <= i < blk.phis@[j].incoming@.len() ==> super::has_block(func, (#[trigger] blk.phis@[j].incoming@[i]).0)
            && super::defined(r, blk.phis@[j].incoming@[i].1)
    &&& forall|k: int, j: int| 0 <= k < blk.instructions@.len() && 0 <= j < inst_defs(blk.instructions@[k].op).len() ==> super::defined(
        r,
        #[trigger] inst_defs(blk.instructions@[k].op)[j],
    )
}

proof fn lemma_valid_iff(p: SemanticProgram, r: SsaProgram)
    requires
        ssa_ready(p),
        r.functions@.len() == p.functions@.len(),
        forall|f: int| 0 <= f < r.functions@.len() ==> fn_lowered(r.definitions@, p.functions@[f], #[trigger] r.functions@[f]),
        super::sites_distinct(r),
    ensures
        super::ssa_valid(r) <==> successors_internal(p),
{
    assert forall|f: int, b: int| 0 <= f < r.functions@.len() && 0 <= b < r.functions@[f].blocks@.len() implies #[trigger] inner_ok(r, f, b) by {
        let func = r.functions@[f];
        let blk = func.blocks@[b];
        let sf = p.functions@[f];
        assert(fn_lowered(r.definitions@, sf, func));
        assert(block_lowered(r.definitions@, sf, b, blk));
        assert forall|j: int, i: int|
            0 <= j < blk.phis@.len() && 0 <= i < blk.phis@[j].incoming@.len() implies super::has_block(func, (#[trigger] blk.phis@[j].incoming@[i]).0)
            && super::defined(r, blk.phis@[j].incoming@[i].1) by {
            assert(phi_ok(r.definitions@, sf, b, blk.phis@[j]));
            let pp = choose|pp: int| 0 <= pp < sf.blocks@.len() && (#[trigger] sf.blocks@[pp]).id == blk.phis@[j].incoming@[i].0 && succ_of(sf, pp, b);
            assert(block_lowered(r.definitions@, sf, pp, func.blocks@[pp]));
        }
        assert forall|j: int| 0 <= j < blk.phis@.len() implies (#[trigger] blk.phis@[j]).incoming@.len() >= 2 by {
            assert(phi_ok(r.definitions@, sf, b, blk.phis@[j]));
        }
        assert forall|k: int, j: int| 0 <= k < blk.instructions@.len() && 0 <= j < inst_defs(blk.instructions@[k].op).len() implies super::defined(
            r,
            #[trigger] inst_defs(blk.instructions@[k].op)[j],
        ) by {
            lemma_made(r.definitions@, sf.blocks@[b].instructions@[k], sf.blocks@[b].id, k, blk.instructions@[k].op);
        }
    }
    if successors_internal(p) {
        assert forall|f: int| 0 <= f < r.functions@.len() implies #[trigger] super::function_ok(r, f) by {
            let func = r.functions@[f];
            let sf = p.functions@[f];
            assert(fn_ready(sf));
            let e = choose|e: int| 0 <= e < sf.blocks@.len() && (#[trigger] sf.blocks@[e]).id == sf.entry;
            assert(block_lowered(r.definitions@, sf, e, func.blocks@[e]));
            assert forall|b: int| 0 <= b < func.blocks@.len() implies #[trigger] super::block_ok(r, f, b) by {
                let blk = func.blocks@[b];
                assert(inner_ok(r, f, b));
                assert(block_lowered(r.definitions@, sf, b, blk));
                assert forall|s: int| 0 <= s < blk.successors@.len() implies super::has_block(func, #[trigger] blk.successors@[s]) by {
                    assert(blk.successors@[s] == sf.blocks@[b].successors@[s]);
                    let bb = choose|bb: int| 0 <= bb < sf.blocks@.len() && (#[trigger] sf.blocks@[bb]).id == sf.blocks@[b].successors@[s];
                    assert(block_lowered(r.definitions@, sf, bb, func.blocks@[bb]));
                }
            }
        }
    }
    if super::ssa_valid(r) {
        assert forall|f: int, q: int, s: int|
            0 <= f < p.functions@.len() && 0 <= q < p.functions@[f].blocks@.len() && 0 <= s < p.functions@[f].blocks@[q].successors@.len() implies exists|b: int|
            0 <= b < p.functions@[f].blocks@.len() && (#[trigger] p.functions@[f].blocks@[b]).id == #[trigger] p.functions@[f].blocks@[q].successors@[s] by {
            let func = r.functions@[f];
            let sf = p.functions@[f];
            assert(super::function_ok(r, f));
            assert(super::block_ok(r, f, q));
            assert(block_lowered(r.definitions@, sf, q, func.blocks@[q]));
            assert(func.blocks@[q].successors@[s] == sf.blocks@[q].successors@[s]);
            assert(super::has_block(func, func.blocks@[q].successors@[s]));
            let bb = choose|bb: int| 0 <= bb < func.blocks@.len() && (#[trigger] func.blocks@[bb]).id == func.blocks@[q].successors@[s];
            assert(block_lowered(r.definitions@, sf, bb, func.blocks@[bb]));
        }
    }
}

// ---------------------------------------------------------------------------
// Checking readiness
// ---------------------------------------------------------------------------

/// Once reach stops growing it never grows again.
proof fn lemma_reach_stable(f: SemanticFunction, k: nat, m: nat)
    requires
        reach_seq(f, k + 1) == reach_seq(f, k),
        k <= m,
    ensures
        reach_seq(f, m) == reach_seq(f, k),
    decreases m - k,
{
    if k < m {
        lemma_reach_stable(f, k, (m - 1) as nat);
        assert(reach_seq(f, m) == reach_seq(f, k + 1));
    }
}

fn distinct_ids(f: &SemanticFunction) -> (r: bool)
    ensures
        r == forall|p: int, q: int|
            0 <= p < f.blocks@.len() && 0 <= q < f.blocks@.len() && p != q ==> (#[trigger] f.blocks@[p]).id != (#[trigger] f.blocks@[q]).id,
{
    let n = f.blocks.len();
    let mut p: usize = 0;
    while p < n
        invariant
            n == f.blocks@.len(),
            p <= n,
            forall|a: int, b: int| 0 <= a < p && 0 <= b < n && a != b ==> (#[trigger] f.blocks@[a]).id != (#[trigger] f.blocks@[b]).id,
        decreases n - p,
    {
        let mut q: usize = 0;
        while q < n
            invariant
                n == f.blocks@.len(),
                p < n,
                q <= n,
                forall|a: int, b: int| 0 <= a < p && 0 <= b < n && a != b ==> (#[trigger] f.blocks@[a]).id != (#[trigger] f.blocks@[b]).id,
                forall|b: int| 0 <= b < q && b != p ==> f.blocks@[p as int].id != (#[trigger] f.blocks@[b]).id,
            decreases n - q,
        {
            if q != p && f.blocks[p].id == f.blocks[q].id {
                return false;
            }
            q = q + 1;
        }
        p = p + 1;
    }
    true
}

/// The blocks reached along one more edge.
fn reach_step(f: &SemanticFunction, cur: &Vec<bool>, Ghost(k): Ghost<nat>) -> (next: Vec<bool>)
    requires
        cur@ == reach_seq(*f, k),
    ensures
        next@ == reach_seq(*f, k + 1),
{
    proof {
        lemma_reach_len(*f, k);
    }
    let n = f.blocks.len();
    let mut next: Vec<bool> = Vec::new();
    let mut q: usize = 0;
    while q < n
        invariant
            n == f.blocks@.len(),
            cur@ == reach_seq(*f, k),
            cur@.len() == n,
            q <= n,
            next@.len() == q,
            forall|c: int| 0 <= c < q ==> #[trigger] next@[c] == (cur@[c] || exists|p: int| 0 <= p < n && #[trigger] cur@[p] && succ_of(*f, p, c)),
        decreases n - q,
    {
        let mut found = cur[q];
        let mut p: usize = 0;
        while p < n && !found
            invariant
                n == f.blocks@.len(),
                cur@.len() == n,
                q < n,
                p <= n,
                found == (cur@[q as int] || exists|pp: int| 0 <= pp < p && #[trigger] cur@[pp] && succ_of(*f, pp, q as int)),
            decreases n - p,
        {
            if cur[p] && has_successor(&f.blocks[p].successors, f.blocks[q].id) {
                found = true;
            }
            p = p + 1;
        }
        next.push(found);
        q = q + 1;
    }
    proof {
        assert(next@ =~= reach_seq(*f, k + 1));
    }
    next
}

/// Whether every block of the function is reached from its entry.
fn all_reached(f: &SemanticFunction) -> (r: bool)
    ensures
        r == forall|q: int| 0 <= q < f.blocks@.len() ==> #[trigger] in_reach(*f, q, f.blocks@.len() as nat),
{
    let n = f.blocks.len();
    let mut cur: Vec<bool> = Vec::new();
    let mut q: usize = 0;
    while q < n
        invariant
            n == f.blocks@.len(),
            q <= n,
            cur@.len() == q,
            forall|c: int| 0 <= c < q ==> #[trigger] cur@[c] == (f.blocks@[c].id == f.entry),
        decreases n - q,
    {
        cur.push(f.blocks[q].id == f.entry);
        q = q + 1;
    }
    proof {
        assert(cur@ =~= reach_seq(*f, 0));
    }
    let mut k: usize = 0;
    while k < n
        invariant
            n == f.blocks@.len(),
            k <= n,
            cur@ == reach_seq(*f, k as nat),
        decreases n - k,
    {
        let next = reach_step(f, &cur, Ghost(k as nat));
        if same_flags(&next, &cur) {
            proof {
                lemma_reach_stable(*f, k as nat, n as nat);
            }
            k = n;
        } else {
            cur = next;
            k = k + 1;
        }
    }
    proof {
        lemma_reach_len(*f, n as nat);
    }
    let mut i: usize = 0;
    while i < n
        invariant
            n == f.blocks@.len(),
            cur@ == reach_seq(*f, n as nat),
            cur@.len() == n,
            i <= n,
            forall|c: int| 0 <= c < i ==> #[trigger] in_reach(*f, c, n as nat),
        decreases n - i,
    {
        if !cur[i] {
            proof {
                assert(!in_reach(*f, i as int, n as nat));
            }
            return false;
        }
        i = i + 1;
    }
    true
}

fn same_flags(a: &Vec<bool>, b: &Vec<bool>) -> (r: bool)
    ensures
        r == (a@ == b@),
{
    if a.len() != b.len() {
        return false;
    }
    let mut i: usize = 0;
    while i < a.len()
        invariant
            a@.len() == b@.len(),
            i <= a@.len(),
            forall|c: int| 0 <= c < i ==> a@[c] == b@[c],
        decreases a@.len() - i,
    {
        if a[i] != b[i] {
            return false;
        }
        i = i + 1;
    }
    proof {
        assert(a@ =~= b@);
    }
    true
}

fn value_ok(v: Value) -> (r: bool)
    ensures
        r == value_in_range(v),
{
    match v {
        Value::Reg(r) => r < 16,
        Value::Imm(_) => true,
    }
}

fn op_ok_exec(op: IrOp) -> (r: bool)
    ensures
        r == op_in_range(op),
{
    match op {
        IrOp::Mov { dst, src } => dst < 16 && value_ok(src),
        IrOp::Add { dst, lhs, rhs } => dst < 16 && lhs < 16 && value_ok(rhs),
        IrOp::Sub { dst, lhs, rhs } => dst < 16 && lhs < 16 && value_ok(rhs),
        IrOp::Cmp { lhs, rhs } => lhs < 16 && value_ok(rhs),
        IrOp::Load { dst, base, .. } => dst < 16 && base < 16,
        IrOp::Store { src, base, .. } => src < 16 && base < 16,
        IrOp::BranchExchange { register, .. } => register < 16,
        _ => true,
    }
}

/// Whether SSA form can be built for the function.
fn function_ready(f: &SemanticFunction) -> (r: bool)
    ensures
        r == fn_ready(*f),
{
    if !distinct_ids(f) {
        return false;
    }
    match block_position(f, f.entry) {
        None => {
            return false;
        },
        Some(_) => {
        },
    }
    if !all_reached(f) {
        return false;
    }
    let n = f.blocks.len();
    let mut q: usize = 0;
    while q < n
        invariant
            n == f.blocks@.len(),
            q <= n,
            forall|c: int, k: int|
                0 <= c < q && 0 <= k < f.blocks@[c].instructions@.len() ==> (#[trigger] f.blocks@[c].instructions@[k]).ops@.len() >= 1
                    && op_in_range(first_op(f.blocks@[c].instructions@[k])),
        decreases n - q,
    {
        let blk = &f.blocks[q];
        let mut k: usize = 0;
        while k < blk.instructions.len()
            invariant
                n == f.blocks@.len(),
                q < n,
                *blk == f.blocks@[q as int],
                k <= blk.instructions@.len(),
                forall|c: int, kk: int|
                    0 <= c < q && 0 <= kk < f.blocks@[c].instructions@.len() ==> (#[trigger] f.blocks@[c].instructions@[kk]).ops@.len() >= 1
                        && op_in_range(first_op(f.blocks@[c].instructions@[kk])),
                forall|kk: int| 0 <= kk < k ==> (#[trigger] blk.instructions@[kk]).ops@.len() >= 1 && op_in_range(first_op(blk.instructions@[kk])),
            decreases blk.instructions@.len() - k,
        {
            let ins = &blk.instructions[k];
            if ins.ops.len() == 0 || !op_ok_exec(ins.ops[0]) {
                return false;
            }
            k = k + 1;
        }
        q = q + 1;
    }
    true
}

/// The most values lowering the function can make, where that fits in 32 bits.
fn function_budget(f: &SemanticFunction) -> (r: Option<u64>)
    ensures
        r matches Some(b) ==> b == fn_budget(*f) && b <= u32::MAX,
        r is None ==> fn_budget(*f) > u32::MAX,
{
    let n = f.blocks.len();
    let mut instrs: u64 = 0;
    let mut q: usize = 0;
    while q < n
        invariant
            n == f.blocks@.len(),
            q <= n,
            instrs == instrs_upto(*f, q as int),
            instrs <= u32::MAX,
        decreases n - q,
    {
        let more = f.blocks[q].instructions.len() as u64;
        if more > u32::MAX as u64 - instrs {
            proof {
                lemma_instrs_grow(*f, q + 1, n as int);
            }
            return None;
        }
        instrs = instrs + more;
        q = q + 1;
    }
    if n as u64 > u32::MAX as u64 || instrs + n as u64 > (u32::MAX as u64 - 16) / 16 {
        return None;
    }
    Some(16 + 16 * (n as u64) + 16 * instrs)
}

/// Whether `build_ssa_program` can take the program: every function is
/// ready and the values it may need have 32-bit identities.
pub fn check_ssa_ready(p: &SemanticProgram) -> (r: bool)
    ensures
        r == ssa_ready(*p),
{
    let nf = p.functions.len();
    let mut total: u64 = 0;
    let mut i: usize = 0;
    while i < nf
        invariant
            nf == p.functions@.len(),
            i <= nf,
            total == budget_upto(*p, i as int),
            total <= u32::MAX,
            forall|g: int| 0 <= g < i ==> fn_ready(#[trigger] p.functions@[g]),
        decreases nf - i,
    {
        let f = &p.functions[i];
        if !function_ready(f) {
            return false;
        }
        match function_budget(f) {
            None => {
                proof {
                    lemma_budget_grows(*p, i + 1, nf as int);
                }
                return false;
            },
            Some(budget) => {
                if budget > u32::MAX as u64 - total {
                    proof {
                        lemma_budget_grows(*p, i + 1, nf as int);
                    }
                    return false;
                }
                total = total + budget;
            },
        }
        i = i + 1;
    }
    true
}

} // verus!
