//! Static single assignment form of semantic programs: every value a register
//! takes gets an identity of its own, with a phi where control flow joins
//! different values.
use std::collections::HashSet;
use vstd::prelude::*;

pub mod construct;

pub use construct::{build_ssa_program, check_ssa_ready};

use crate::cfg::BlockId;
use crate::decoder::{Condition, Mode};
use crate::function::FunctionId;
use crate::ir::IrOp;
use crate::semantic_ir::SemanticTerminator;
use crate::text::{decimal, numbered, push_decimal};
use vstd::string::StringExecFns;

verus! {

/// The identity of one value; `SsaProgram::definitions[id]` says where it
/// was defined.
#[derive(Debug, Clone, Copy, PartialEq, Eq, Hash, PartialOrd, Ord, Structural)]
pub struct ValueId(pub u32);

#[derive(Debug, Clone, Copy, PartialEq, Eq, Hash, Structural)]
pub enum SsaValue {
    Value(ValueId),
    Imm(u32),
}

#[derive(Debug, Clone, Copy, PartialEq, Eq, Hash, Structural)]
pub enum ValueDef {
    Entry { register: u8 },
    Phi { block: BlockId, register: u8 },
    Instruction { block: BlockId, instruction: usize, register: u8 },
}

/// A register's value at the start of a block, chosen by the predecessor
/// control came from.
#[derive(Debug, Clone, PartialEq, Eq)]
pub struct SsaPhi {
    pub value: ValueId,
    pub register: u8,
    pub incoming: Vec<(BlockId, ValueId)>,
}

/// An operation over values. An extended operation keeps its IR form and
/// lists the values of the registers it reads and writes, by register.
#[derive(Debug, Clone, PartialEq, Eq)]
pub enum SsaOp {
    Nop,
    Mov { dst: ValueId, src: SsaValue },
    Add { dst: ValueId, lhs: ValueId, rhs: SsaValue },
    Sub { dst: ValueId, lhs: ValueId, rhs: SsaValue },
    Cmp { lhs: ValueId, rhs: SsaValue },
    Load { dst: ValueId, base: ValueId, offset: i32, byte: bool },
    Store { src: ValueId, base: ValueId, offset: i32, byte: bool },
    Branch { target: u32, condition: Condition, link: bool },
    BranchExchange { register: ValueId, link: bool },
    Extended { op: IrOp, uses: Vec<(u8, ValueId)>, defs: Vec<(u8, ValueId)> },
    Unknown { address: u32, raw: u32, mode: Mode },
}

#[derive(Debug, Clone, PartialEq, Eq)]
pub struct SsaInstruction {
    pub address: u32,
    pub size: u8,
    pub op: SsaOp,
}

#[derive(Debug, Clone, PartialEq, Eq)]
pub struct SsaBlock {
    pub id: BlockId,
    pub address: u32,
    pub mode: Mode,
    pub phis: Vec<SsaPhi>,
    pub instructions: Vec<SsaInstruction>,
    pub successors: Vec<BlockId>,
    pub terminator: SemanticTerminator,
}

#[derive(Debug, Clone)]
pub struct SsaFunction {
    pub id: FunctionId,
    pub entry: BlockId,
    pub blocks: Vec<SsaBlock>,
}

/// An SSA program; `definitions` is indexed by value identity.
#[derive(Debug, Clone)]
pub struct SsaProgram {
    pub entry: FunctionId,
    pub functions: Vec<SsaFunction>,
    pub definitions: Vec<ValueDef>,
}

/// The values an operation defines.
pub open spec fn inst_defs(op: SsaOp) -> Seq<ValueId> {
    match op {
        SsaOp::Mov { dst, .. } => seq![dst],
        SsaOp::Add { dst, .. } => seq![dst],
        SsaOp::Sub { dst, .. } => seq![dst],
        SsaOp::Load { dst, .. } => seq![dst],
        SsaOp::Extended { defs, .. } => defs@.map_values(|d: (u8, ValueId)| d.1),
        _ => Seq::empty(),
    }
}

/// The value defined at a place of a function: phi `j` of block `b` when `k`
/// is -1, else definition `j` of its instruction `k`.
pub open spec fn fsite(func: SsaFunction, b: int, k: int, j: int) -> Option<ValueId> {
    if 0 <= b < func.blocks@.len() {
        let blk = func.blocks@[b];
        if k == -1 {
            if 0 <= j < blk.phis@.len() {
                Some(blk.phis@[j].value)
            } else {
                None
            }
        } else if 0 <= k < blk.instructions@.len() {
            let d = inst_defs(blk.instructions@[k].op);
            if 0 <= j < d.len() {
                Some(d[j])
            } else {
                None
            }
        } else {
            None
        }
    } else {
        None
    }
}

/// The value defined at a place of the program.
pub open spec fn site(p: SsaProgram, f: int, b: int, k: int, j: int) -> Option<ValueId> {
    if 0 <= f < p.functions@.len() {
        fsite(p.functions@[f], b, k, j)
    } else {
        None
    }
}

/// No value is defined at two places.
pub open spec fn sites_distinct(p: SsaProgram) -> bool {
    forall|f1: int, b1: int, k1: int, j1: int, f2: int, b2: int, k2: int, j2: int|
        (#[trigger] site(p, f1, b1, k1, j1)) is Some && (#[trigger] site(p, f2, b2, k2, j2)) is Some && (f1, b1, k1, j1) != (f2, b2, k2, j2)
            ==> site(p, f1, b1, k1, j1) != site(p, f2, b2, k2, j2)
}

pub open spec fn has_block(f: SsaFunction, id: BlockId) -> bool {
    exists|b: int| 0 <= b < f.blocks@.len() && (#[trigger] f.blocks@[b]).id == id
}

pub open spec fn defined(p: SsaProgram, v: ValueId) -> bool {
    v.0 < p.definitions@.len()
}

/// The phis of block `b` of function `f` join at least two defined inputs
/// from blocks of the function; its definitions are defined; its successors
/// are blocks of the function.
pub open spec fn block_ok(p: SsaProgram, f: int, b: int) -> bool {
    let func = p.functions@[f];
    let blk = func.blocks@[b];
    &&& forall|j: int| 0 <= j < blk.phis@.len() ==> (#[trigger] blk.phis@[j]).incoming@.len() >= 2
    &&& forall|j: int, i: int|
        0 <= j < blk.phis@.len() && 0 <= i < blk.phis@[j].incoming@.len() ==> has_block(func, (#[trigger] blk.phis@[j].incoming@[i]).0)
            && defined(p, blk.phis@[j].incoming@[i].1)
    &&& forall|k: int, j: int| 0 <= k < blk.instructions@.len() && 0 <= j < inst_defs(blk.instructions@[k].op).len() ==> defined(p, #[trigger] inst_defs(blk.instructions@[k].op)[j])
    &&& forall|s: int| 0 <= s < blk.successors@.len() ==> has_block(func, #[trigger] blk.successors@[s])
}

pub open spec fn function_ok(p: SsaProgram, f: int) -> bool {
    &&& has_block(p.functions@[f], p.functions@[f].entry)
    &&& forall|b: int| 0 <= b < p.functions@[f].blocks@.len() ==> #[trigger] block_ok(p, f, b)
}

/// What `validate_ssa_program` accepts.
pub open spec fn ssa_valid(p: SsaProgram) -> bool {
    &&& sites_distinct(p)
    &&& forall|f: int| 0 <= f < p.functions@.len() ==> #[trigger] function_ok(p, f)
}

/// Place `(f1, b1, k1, j1)` comes before `(f2, b2, k2, j2)` in scan order.
pub open spec fn before(f1: int, b1: int, k1: int, j1: int, f2: int, b2: int, k2: int, j2: int) -> bool {
    ||| f1 < f2
    ||| f1 == f2 && b1 < b2
    ||| f1 == f2 && b1 == b2 && k1 < k2
    ||| f1 == f2 && b1 == b2 && k1 == k2 && j1 < j2
}

/// `seen` holds exactly the values defined before place `(f, b, k, j)`, and
/// those are pairwise different.
pub open spec fn scanned(p: SsaProgram, seen: Set<u32>, f: int, b: int, k: int, j: int) -> bool {
    &&& forall|f1: int, b1: int, k1: int, j1: int|
        before(f1, b1, k1, j1, f, b, k, j) && (#[trigger] site(p, f1, b1, k1, j1)) is Some ==> seen.contains(site(p, f1, b1, k1, j1).unwrap().0)
    &&& forall|x: u32| #[trigger]
        seen.contains(x) ==> exists|f1: int, b1: int, k1: int, j1: int|
            before(f1, b1, k1, j1, f, b, k, j) && #[trigger] site(p, f1, b1, k1, j1) == Some(ValueId(x))
    &&& forall|f1: int, b1: int, k1: int, j1: int, f2: int, b2: int, k2: int, j2: int|
        before(f1, b1, k1, j1, f, b, k, j) && before(f2, b2, k2, j2, f, b, k, j) && (#[trigger] site(p, f1, b1, k1, j1)) is Some
            && (#[trigger] site(p, f2, b2, k2, j2)) is Some && (f1, b1, k1, j1) != (f2, b2, k2, j2) ==> site(p, f1, b1, k1, j1) != site(
            p,
            f2,
            b2,
            k2,
            j2,
        )
}

/// Moving past places that define nothing keeps what was scanned.
proof fn lemma_skip(p: SsaProgram, seen: Set<u32>, f: int, b: int, k: int, j: int, f2: int, b2: int, k2: int, j2: int)
    requires
        scanned(p, seen, f, b, k, j),
        !before(f2, b2, k2, j2, f, b, k, j),
        forall|f1: int, b1: int, k1: int, j1: int|
            before(f1, b1, k1, j1, f2, b2, k2, j2) && !before(f1, b1, k1, j1, f, b, k, j) ==> #[trigger] site(p, f1, b1, k1, j1) is None,
    ensures
        scanned(p, seen, f2, b2, k2, j2),
{
    assert forall|x: u32| #[trigger] seen.contains(x) implies exists|f1: int, b1: int, k1: int, j1: int|
        before(f1, b1, k1, j1, f2, b2, k2, j2) && #[trigger] site(p, f1, b1, k1, j1) == Some(ValueId(x)) by {
        let (f1, b1, k1, j1) = choose|f1: int, b1: int, k1: int, j1: int|
            before(f1, b1, k1, j1, f, b, k, j) && #[trigger] site(p, f1, b1, k1, j1) == Some(ValueId(x));
        assert(before(f1, b1, k1, j1, f2, b2, k2, j2));
    }
}

/// Taking in the value defined at place `(f, b, k, j)`.
proof fn lemma_take(p: SsaProgram, seen: Set<u32>, f: int, b: int, k: int, j: int)
    requires
        scanned(p, seen, f, b, k, j),
        site(p, f, b, k, j) is Some,
        !seen.contains(site(p, f, b, k, j).unwrap().0),
    ensures
        scanned(p, seen.insert(site(p, f, b, k, j).unwrap().0), f, b, k, j + 1),
{
    let v = site(p, f, b, k, j).unwrap();
    let s2 = seen.insert(v.0);
    assert forall|x: u32| #[trigger] s2.contains(x) implies exists|f1: int, b1: int, k1: int, j1: int|
        before(f1, b1, k1, j1, f, b, k, j + 1) && #[trigger] site(p, f1, b1, k1, j1) == Some(ValueId(x)) by {
        if x == v.0 {
            assert(before(f, b, k, j, f, b, k, j + 1) && site(p, f, b, k, j) == Some(ValueId(x)));
        } else {
            let (f1, b1, k1, j1) = choose|f1: int, b1: int, k1: int, j1: int|
                before(f1, b1, k1, j1, f, b, k, j) && #[trigger] site(p, f1, b1, k1, j1) == Some(ValueId(x));
            assert(before(f1, b1, k1, j1, f, b, k, j + 1));
        }
    }
}

/// A value met twice breaks distinctness.
proof fn lemma_repeat(p: SsaProgram, seen: Set<u32>, f: int, b: int, k: int, j: int)
    requires
        scanned(p, seen, f, b, k, j),
        site(p, f, b, k, j) is Some,
        seen.contains(site(p, f, b, k, j).unwrap().0),
    ensures
        !sites_distinct(p),
{
    let x = site(p, f, b, k, j).unwrap().0;
    let (f1, b1, k1, j1) = choose|f1: int, b1: int, k1: int, j1: int|
        before(f1, b1, k1, j1, f, b, k, j) && #[trigger] site(p, f1, b1, k1, j1) == Some(ValueId(x));
    assert(site(p, f1, b1, k1, j1) == site(p, f, b, k, j));
}

/// Having scanned every function, the definitions are distinct.
proof fn lemma_scanned_all(p: SsaProgram, seen: Set<u32>)
    requires
        scanned(p, seen, p.functions@.len() as int, 0, -1, 0),
    ensures
        sites_distinct(p),
{
    let nf = p.functions@.len() as int;
    assert forall|f1: int, b1: int, k1: int, j1: int, f2: int, b2: int, k2: int, j2: int|
        (#[trigger] site(p, f1, b1, k1, j1)) is Some && (#[trigger] site(p, f2, b2, k2, j2)) is Some && (f1, b1, k1, j1) != (
            f2,
            b2,
            k2,
            j2,
        ) implies site(p, f1, b1, k1, j1) != site(p, f2, b2, k2, j2) by {
        assert(before(f1, b1, k1, j1, nf, 0, -1, 0));
        assert(before(f2, b2, k2, j2, nf, 0, -1, 0));
    }
}

fn find_block(f: &SsaFunction, id: BlockId) -> (r: bool)
    ensures
        r == has_block(*f, id),
{
    let mut b: usize = 0;
    while b < f.blocks.len()
        invariant
            b <= f.blocks@.len(),
            forall|c: int| 0 <= c < b ==> (#[trigger] f.blocks@[c]).id != id,
        decreases f.blocks@.len() - b,
    {
        if f.blocks[b].id == id {
            return true;
        }
        b = b + 1;
    }
    false
}

fn value_text(prefix: &str, v: ValueId, suffix: &str) -> (r: String)
    ensures
        r@ == prefix@ + "ValueId("@ + decimal(v.0 as nat) + ")"@ + suffix@,
{
    let mut s = String::from_str(prefix);
    s.append("ValueId(");
    push_decimal(&mut s, v.0 as usize);
    s.append(")");
    s.append(suffix);
    s
}

/// The definitions of an operation, in order.
fn op_defs(op: &SsaOp) -> (r: Vec<ValueId>)
    ensures
        r@ == inst_defs(*op),
{
    let mut out: Vec<ValueId> = Vec::new();
    match op {
        SsaOp::Mov { dst, .. } | SsaOp::Add { dst, .. } | SsaOp::Sub { dst, .. } | SsaOp::Load { dst, .. } => {
            out.push(*dst);
            proof {
                assert(out@ =~= inst_defs(*op));
            }
        },
        SsaOp::Extended { defs, .. } => {
            let mut i: usize = 0;
            while i < defs.len()
                invariant
                    i <= defs@.len(),
                    out@ == defs@.subrange(0, i as int).map_values(|d: (u8, ValueId)| d.1),
                decreases defs@.len() - i,
            {
                out.push(defs[i].1);
                proof {
                    assert(defs@.subrange(0, i + 1).map_values(|d: (u8, ValueId)| d.1) =~= defs@.subrange(0, i as int).map_values(
                        |d: (u8, ValueId)| d.1,
                    ).push(defs@[i as int].1));
                }
                i = i + 1;
            }
            proof {
                assert(defs@.subrange(0, defs@.len() as int) =~= defs@);
            }
        },
        _ => {
            proof {
                assert(out@ =~= inst_defs(*op));
            }
        },
    }
    out
}

/// Checks the program's SSA invariants: every function holds its entry
/// block; no value is defined twice; every phi joins at least two defined
/// inputs from blocks of its function; every definition is recorded; every
/// successor is a block of the same function.
pub fn validate_ssa_program(ssa: &SsaProgram) -> (r: Result<(), String>)
    ensures
        r is Ok <==> ssa_valid(*ssa),
{
    let mut seen: HashSet<u32> = HashSet::new();
    let ghost p = *ssa;
    let nf = ssa.functions.len();
    let mut fi: usize = 0;
    while fi < nf
        invariant
            p == *ssa,
            nf == p.functions@.len(),
            fi <= nf,
            scanned(p, seen@, fi as int, 0, -1, 0),
            forall|g: int| 0 <= g < fi ==> #[trigger] function_ok(p, g),
        decreases nf - fi,
    {
        let func = &ssa.functions[fi];
        if !find_block(func, func.entry) {
            proof {
                assert(!function_ok(p, fi as int));
            }
            return Err(numbered("function ", func.id.0, " has no entry block"));
        }
        let nb = func.blocks.len();
        let mut bi: usize = 0;
        while bi < nb
            invariant
                p == *ssa,
                nf == p.functions@.len(),
                fi < nf,
                *func == p.functions@[fi as int],
                nb == func.blocks@.len(),
                bi <= nb,
                scanned(p, seen@, fi as int, bi as int, -1, 0),
                forall|g: int| 0 <= g < fi ==> #[trigger] function_ok(p, g),
                has_block(*func, func.entry),
                forall|c: int| 0 <= c < bi ==> #[trigger] block_ok(p, fi as int, c),
            decreases nb - bi,
        {
            let blk = &func.blocks[bi];
            let np = blk.phis.len();
            let mut j: usize = 0;
            while j < np
                invariant
                    p == *ssa,
                    nf == p.functions@.len(),
                    fi < nf,
                    *func == p.functions@[fi as int],
                    nb == func.blocks@.len(),
                    bi < nb,
                    *blk == func.blocks@[bi as int],
                    np == blk.phis@.len(),
                    j <= np,
                    scanned(p, seen@, fi as int, bi as int, -1, j as int),
                    forall|c: int| 0 <= c < j ==> (#[trigger] blk.phis@[c]).incoming@.len() >= 2,
                    forall|c: int, i: int|
                        0 <= c < j && 0 <= i < blk.phis@[c].incoming@.len() ==> has_block(*func, (#[trigger] blk.phis@[c].incoming@[i]).0)
                            && defined(p, blk.phis@[c].incoming@[i].1),
                decreases np - j,
            {
                let phi = &blk.phis[j];
                assert(site(p, fi as int, bi as int, -1, j as int) == Some(phi.value));
                let ghost before_insert = seen@;
                if !seen.insert(phi.value.0) {
                    proof {
                        lemma_repeat(p, before_insert, fi as int, bi as int, -1, j as int);
                    }
                    return Err(value_text("SSA value ", phi.value, " has multiple definitions"));
                }
                proof {
                    lemma_take(p, before_insert, fi as int, bi as int, -1, j as int);
                }
                if phi.incoming.len() < 2 {
                    proof {
                        assert(!block_ok(p, fi as int, bi as int));
                        assert(!function_ok(p, fi as int));
                    }
                    let mut e = numbered("phi for r", phi.register as usize, " in block ");
                    push_decimal(&mut e, blk.id.0);
                    e.append(" has fewer than two inputs");
                    return Err(e);
                }
                let mut i: usize = 0;
                while i < phi.incoming.len()
                    invariant
                        p == *ssa,
                        nf == p.functions@.len(),
                        fi < nf,
                        *func == p.functions@[fi as int],
                        nb == func.blocks@.len(),
                        bi < nb,
                        *blk == func.blocks@[bi as int],
                        j < blk.phis@.len(),
                        *phi == blk.phis@[j as int],
                        i <= phi.incoming@.len(),
                        forall|c: int| 0 <= c < i ==> has_block(*func, (#[trigger] phi.incoming@[c]).0) && defined(p, phi.incoming@[c].1),
                    decreases phi.incoming@.len() - i,
                {
                    let (pred, value) = phi.incoming[i];
                    if !find_block(func, pred) || value.0 as usize >= ssa.definitions.len() {
                        proof {
                            assert(phi.incoming@[i as int] == (pred, value));
                            assert(!block_ok(p, fi as int, bi as int));
                            assert(!function_ok(p, fi as int));
                        }
                        return Err(numbered("invalid phi input in block ", blk.id.0, ""));
                    }
                    i = i + 1;
                }
                j = j + 1;
            }
            j = 0;
            proof {
                lemma_skip(p, seen@, fi as int, bi as int, -1, np as int, fi as int, bi as int, 0, 0);
            }
            let ni = blk.instructions.len();
            let mut k: usize = 0;
            while k < ni
                invariant
                    p == *ssa,
                    nf == p.functions@.len(),
                    fi < nf,
                    *func == p.functions@[fi as int],
                    nb == func.blocks@.len(),
                    bi < nb,
                    *blk == func.blocks@[bi as int],
                    ni == blk.instructions@.len(),
                    k <= ni,
                    scanned(p, seen@, fi as int, bi as int, k as int, 0),
                    forall|c: int, d: int| 0 <= c < k && 0 <= d < inst_defs(blk.instructions@[c].op).len() ==> defined(
                        p,
                        #[trigger] inst_defs(blk.instructions@[c].op)[d],
                    ),
                decreases ni - k,
            {
                let defs = op_defs(&blk.instructions[k].op);
                let mut d: usize = 0;
                while d < defs.len()
                    invariant
                        p == *ssa,
                        nf == p.functions@.len(),
                        fi < nf,
                        *func == p.functions@[fi as int],
                        nb == func.blocks@.len(),
                        bi < nb,
                        *blk == func.blocks@[bi as int],
                        k < blk.instructions@.len(),
                        defs@ == inst_defs(blk.instructions@[k as int].op),
                        d <= defs@.len(),
                        scanned(p, seen@, fi as int, bi as int, k as int, d as int),
                        forall|c: int| 0 <= c < d ==> defined(p, #[trigger] defs@[c]),
                    decreases defs@.len() - d,
                {
                    let v = defs[d];
                    assert(site(p, fi as int, bi as int, k as int, d as int) == Some(v));
                    let ghost before_insert = seen@;
                    if !seen.insert(v.0) || v.0 as usize >= ssa.definitions.len() {
                        proof {
                            if before_insert.contains(v.0) {
                                lemma_repeat(p, before_insert, fi as int, bi as int, k as int, d as int);
                            } else {
                                assert(!block_ok(p, fi as int, bi as int));
                                assert(!function_ok(p, fi as int));
                            }
                        }
                        return Err(value_text("invalid SSA definition ", v, ""));
                    }
                    proof {
                        lemma_take(p, before_insert, fi as int, bi as int, k as int, d as int);
                    }
                    d = d + 1;
                }
                proof {
                    lemma_skip(p, seen@, fi as int, bi as int, k as int, d as int, fi as int, bi as int, k + 1, 0);
                }
                k = k + 1;
            }
            let mut s: usize = 0;
            while s < blk.successors.len()
                invariant
                    p == *ssa,
                    nf == p.functions@.len(),
                    fi < nf,
                    *func == p.functions@[fi as int],
                    nb == func.blocks@.len(),
                    bi < nb,
                    *blk == func.blocks@[bi as int],
                    s <= blk.successors@.len(),
                    forall|c: int| 0 <= c < s ==> has_block(*func, #[trigger] blk.successors@[c]),
                decreases blk.successors@.len() - s,
            {
                if !find_block(func, blk.successors[s]) {
                    proof {
                        assert(!block_ok(p, fi as int, bi as int));
                        assert(!function_ok(p, fi as int));
                    }
                    let mut e = numbered("block ", blk.id.0, " has foreign successor ");
                    push_decimal(&mut e, blk.successors[s].0);
                    return Err(e);
                }
                s = s + 1;
            }
            proof {
                lemma_skip(p, seen@, fi as int, bi as int, ni as int, 0, fi as int, bi + 1, -1, 0);
            }
            bi = bi + 1;
        }
        proof {
            lemma_skip(p, seen@, fi as int, nb as int, -1, 0, fi + 1, 0, -1, 0);
        }
        fi = fi + 1;
    }
    proof {
        lemma_scanned_all(p, seen@);
    }
    Ok(())
}

} // verus!
