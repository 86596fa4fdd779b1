//! Recovery of functions from a control-flow graph: call targets become
//! function roots, each root owns the blocks it reaches without crossing a
//! call or another root, and call and return sites are recorded per function.
use vstd::prelude::*;

use crate::cfg::hardening::{ids_contiguous, is_path};
use crate::cfg::{BasicBlock, BlockId, BlockKey, ControlFlowGraph, Program};
use crate::decoder::{ArmOp, Condition, Instruction, InstructionKind, Mode, ThumbOp};

verus! {

#[derive(Debug, Clone, Copy, PartialEq, Eq, Hash, Default, Structural)]
pub struct FunctionId(pub usize);

#[derive(Debug, Clone, Copy, PartialEq, Eq, Hash, Structural)]
pub struct FunctionKey {
    pub address: u32,
    pub mode: Mode,
}

#[derive(Debug, Clone, Copy, PartialEq, Eq, Hash, Structural)]
pub enum CallTarget {
    Direct(BlockKey),
    TailDirect(BlockKey),
    Indirect { register: u8, link: bool, mode: Mode },
}

#[derive(Debug, Clone, Copy, PartialEq, Eq, Hash, Structural)]
pub struct ReturnSite {
    pub block: BlockId,
    pub instruction_index: usize,
    pub mode: Mode,
}

#[derive(Debug, Clone, PartialEq, Eq, Hash)]
pub struct CallSite {
    pub block: BlockId,
    pub instruction_index: usize,
    pub target: CallTarget,
    pub return_block: Option<BlockId>,
    pub return_sites: Vec<ReturnSite>,
}

/// A function: its root block, the blocks it owns in block order, the
/// intra-function successors of each owned block (same order), the functions
/// it calls and its call and return sites.
#[derive(Debug, Clone, PartialEq, Eq)]
pub struct Function {
    pub id: FunctionId,
    pub key: FunctionKey,
    pub entry: BlockId,
    pub blocks: Vec<BlockId>,
    pub block_successors: Vec<Vec<BlockId>>,
    pub successors: Vec<FunctionId>,
    pub call_sites: Vec<CallSite>,
    pub return_sites: Vec<ReturnSite>,
}

/// All functions of a program; `block_to_function` is indexed by block.
#[derive(Debug, Clone, PartialEq, Eq)]
pub struct FunctionControlFlowGraph {
    pub entry: FunctionId,
    pub functions: Vec<Function>,
    pub block_to_function: Vec<Option<FunctionId>>,
    pub calls: Vec<CallSite>,
    pub returns: Vec<ReturnSite>,
}

// ---------------------------------------------------------------------------
// Instruction classes
// ---------------------------------------------------------------------------

pub open spec fn direct_call_spec(ins: Instruction) -> Option<u32> {
    match ins.kind {
        InstructionKind::Arm(ArmOp::Branch { target, link, .. }) => if link {
            Some(target)
        } else {
            None
        },
        InstructionKind::Thumb(ThumbOp::BranchLink { target }) => Some(target),
        _ => None,
    }
}

fn direct_call(ins: Instruction) -> (r: Option<u32>)
    ensures
        r == direct_call_spec(ins),
{
    match ins.kind {
        InstructionKind::Arm(ArmOp::Branch { target, link, .. }) => if link {
            Some(target)
        } else {
            None
        },
        InstructionKind::Thumb(ThumbOp::BranchLink { target }) => Some(target),
        _ => None,
    }
}

pub open spec fn direct_branch_spec(ins: Instruction) -> Option<u32> {
    match ins.kind {
        InstructionKind::Arm(ArmOp::Branch { target, link, .. }) => if !link {
            Some(target)
        } else {
            None
        },
        InstructionKind::Thumb(ThumbOp::Branch { target, condition }) => if condition == Condition::Al {
            Some(target)
        } else {
            None
        },
        _ => None,
    }
}

fn direct_branch(ins: Instruction) -> (r: Option<u32>)
    ensures
        r == direct_branch_spec(ins),
{
    match ins.kind {
        InstructionKind::Arm(ArmOp::Branch { target, link, .. }) => if !link {
            Some(target)
        } else {
            None
        },
        InstructionKind::Thumb(ThumbOp::Branch { target, condition }) => if condition == Condition::Al {
            Some(target)
        } else {
            None
        },
        _ => None,
    }
}

pub open spec fn indirect_call_spec(ins: Instruction) -> Option<u8> {
    match ins.kind {
        InstructionKind::Arm(ArmOp::BranchExchange { rm, link }) => if link {
            Some(rm)
        } else {
            None
        },
        _ => None,
    }
}

fn indirect_call(ins: Instruction) -> (r: Option<u8>)
    ensures
        r == indirect_call_spec(ins),
{
    match ins.kind {
        InstructionKind::Arm(ArmOp::BranchExchange { rm, link }) => if link {
            Some(rm)
        } else {
            None
        },
        _ => None,
    }
}

/// `BX lr`: the return idiom in either state.
pub open spec fn is_return_spec(ins: Instruction) -> bool {
    match ins.kind {
        InstructionKind::Arm(ArmOp::BranchExchange { rm, link }) => rm == 14 && !link,
        InstructionKind::Thumb(ThumbOp::BranchExchange { rm }) => rm == 14,
        _ => false,
    }
}

fn is_return(ins: Instruction) -> (r: bool)
    ensures
        r == is_return_spec(ins),
{
    match ins.kind {
        InstructionKind::Arm(ArmOp::BranchExchange { rm, link }) => rm == 14 && !link,
        InstructionKind::Thumb(ThumbOp::BranchExchange { rm }) => rm == 14,
        _ => false,
    }
}

// ---------------------------------------------------------------------------
// Blocks by key, call edges and roots
// ---------------------------------------------------------------------------

/// The first block at `key`, searching from index `from`.
pub open spec fn find_key(blocks: Seq<BasicBlock>, key: BlockKey, from: int) -> Option<int>
    decreases blocks.len() - from,
{
    if from < 0 || from >= blocks.len() {
        None
    } else if blocks[from].key == key {
        Some(from)
    } else {
        find_key(blocks, key, from + 1)
    }
}

proof fn lemma_find_key(blocks: Seq<BasicBlock>, key: BlockKey, from: int)
    requires
        0 <= from,
    ensures
        find_key(blocks, key, from) matches Some(i) ==> from <= i < blocks.len() && blocks[i].key == key && forall|j: int|
            from <= j < i ==> blocks[j].key != key,
        find_key(blocks, key, from) is None ==> forall|j: int| from <= j < blocks.len() ==> blocks[j].key != key,
    decreases blocks.len() - from,
{
    if from < blocks.len() && blocks[from].key != key {
        lemma_find_key(blocks, key, from + 1);
    }
}

fn block_for_key(cfg: &ControlFlowGraph, key: BlockKey) -> (r: Option<usize>)
    ensures
        r matches Some(i) ==> find_key(cfg.blocks@, key, 0) == Some(i as int),
        r is None ==> find_key(cfg.blocks@, key, 0) is None,
{
    let n = cfg.blocks.len();
    let mut i: usize = 0;
    while i < n
        invariant
            n == cfg.blocks@.len(),
            i <= n,
            find_key(cfg.blocks@, key, 0) == find_key(cfg.blocks@, key, i as int),
        decreases n - i,
    {
        if cfg.blocks[i].key == key {
            return Some(i);
        }
        i = i + 1;
    }
    None
}

/// The block a block's direct call lands on, keyed in the caller's state.
pub open spec fn call_target_block(blocks: Seq<BasicBlock>, b: int) -> Option<int> {
    let block = blocks[b];
    if block.instructions@.len() == 0 {
        None
    } else {
        match direct_call_spec(block.instructions@.last()) {
            Some(address) => find_key(blocks, BlockKey { address, mode: block.instructions@[0].mode }, 0),
            None => None,
        }
    }
}

/// The root a block's last instruction calls directly, keyed in that
/// instruction's state.
pub open spec fn called_root(blocks: Seq<BasicBlock>, b: int) -> Option<int> {
    let block = blocks[b];
    if block.instructions@.len() == 0 {
        None
    } else {
        let ins = block.instructions@.last();
        match direct_call_spec(ins) {
            Some(address) => find_key(blocks, BlockKey { address, mode: ins.mode }, 0),
            None => None,
        }
    }
}

fn call_target_of(cfg: &ControlFlowGraph, b: usize) -> (r: Option<usize>)
    requires
        b < cfg.blocks@.len(),
    ensures
        r matches Some(t) ==> t < cfg.blocks@.len() && call_target_block(cfg.blocks@, b as int) == Some(t as int),
        r is None ==> call_target_block(cfg.blocks@, b as int) is None,
{
    let block = &cfg.blocks[b];
    let len = block.instructions.len();
    if len == 0 {
        return None;
    }
    match direct_call(block.instructions[len - 1]) {
        Some(address) => {
            let r = block_for_key(cfg, BlockKey { address, mode: block.instructions[0].mode });
            proof {
                lemma_find_key(cfg.blocks@, BlockKey { address, mode: block.instructions@[0].mode }, 0);
            }
            r
        },
        None => None,
    }
}

fn called_root_of(cfg: &ControlFlowGraph, b: usize) -> (r: Option<usize>)
    requires
        b < cfg.blocks@.len(),
    ensures
        r matches Some(t) ==> t < cfg.blocks@.len() && called_root(cfg.blocks@, b as int) == Some(t as int),
        r is None ==> called_root(cfg.blocks@, b as int) is None,
{
    let block = &cfg.blocks[b];
    let len = block.instructions.len();
    if len == 0 {
        return None;
    }
    let ins = block.instructions[len - 1];
    match direct_call(ins) {
        Some(address) => {
            let r = block_for_key(cfg, BlockKey { address, mode: ins.mode });
            proof {
                lemma_find_key(cfg.blocks@, BlockKey { address, mode: ins.mode }, 0);
            }
            r
        },
        None => None,
    }
}

/// Function roots: the entry block and every block a direct call lands on.
pub open spec fn is_root(cfg: ControlFlowGraph, b: int) -> bool {
    b == cfg.entry.0 || exists|c: int| 0 <= c < cfg.blocks@.len() && #[trigger] called_root(cfg.blocks@, c) == Some(b)
}

/// A program whose graph the function pass can walk: blocks are indexed by
/// their identity and every edge names a block.
pub open spec fn walkable(cfg: ControlFlowGraph) -> bool {
    &&& cfg.entry.0 < cfg.blocks@.len()
    &&& ids_contiguous(cfg.blocks@)
    &&& forall|b: int, s: int| 0 <= b < cfg.blocks@.len() && 0 <= s < cfg.blocks@[b].successors@.len() ==> (#[trigger] cfg.blocks@[b].successors@[s]).0
        < cfg.blocks@.len()
}

/// Marks the roots, indexed by block.
fn root_mask(cfg: &ControlFlowGraph) -> (mask: Vec<bool>)
    requires
        walkable(*cfg),
    ensures
        mask@.len() == cfg.blocks@.len(),
        forall|b: int| 0 <= b < mask@.len() ==> (#[trigger] mask@[b] <==> is_root(*cfg, b)),
{
    let n = cfg.blocks.len();
    let mut mask: Vec<bool> = Vec::new();
    let mut i: usize = 0;
    while i < n
        invariant
            n == cfg.blocks@.len(),
            i <= n,
            mask@.len() == i,
            forall|b: int| 0 <= b < i ==> (#[trigger] mask@[b] <==> b == cfg.entry.0),
        decreases n - i,
    {
        mask.push(i == cfg.entry.0);
        i = i + 1;
    }
    let mut c: usize = 0;
    while c < n
        invariant
            walkable(*cfg),
            n == cfg.blocks@.len(),
            mask@.len() == n,
            c <= n,
            forall|b: int| 0 <= b < n ==> (#[trigger] mask@[b] <==> (b == cfg.entry.0 || exists|cc: int|
                0 <= cc < c && #[trigger] called_root(cfg.blocks@, cc) == Some(b))),
        decreases n - c,
    {
        let ghost before = mask@;
        match called_root_of(cfg, c) {
            Some(t) => {
                mask.set(t, true);
            },
            None => {},
        }
        proof {
            assert forall|b: int| 0 <= b < n implies (#[trigger] mask@[b] <==> (b == cfg.entry.0 || exists|cc: int|
                0 <= cc < c + 1 && #[trigger] called_root(cfg.blocks@, cc) == Some(b))) by {
                if mask@[b] && b != cfg.entry.0 {
                    if before[b] {
                        let cc = choose|cc: int| 0 <= cc < c && #[trigger] called_root(cfg.blocks@, cc) == Some(b);
                        assert(0 <= cc < c + 1 && called_root(cfg.blocks@, cc) == Some(b));
                    } else {
                        assert(called_root(cfg.blocks@, c as int) == Some(b));
                    }
                }
                if b != cfg.entry.0 && (exists|cc: int| 0 <= cc < c + 1 && #[trigger] called_root(cfg.blocks@, cc) == Some(b)) {
                    let cc = choose|cc: int| 0 <= cc < c + 1 && #[trigger] called_root(cfg.blocks@, cc) == Some(b);
                    if cc < c {
                        assert(before[b]);
                    }
                }
            }
        }
        c = c + 1;
    }
    mask
}

// ---------------------------------------------------------------------------
// Blocks owned by a function
// ---------------------------------------------------------------------------

/// An edge a function follows: a successor that is not the block's direct
/// call target, not a root and not owned by an earlier function.
pub open spec fn intra_edge(cfg: ControlFlowGraph, roots: Seq<bool>, claimed: Seq<bool>, a: int, s: int) -> bool {
    &&& cfg.blocks@[a].successors@.contains(BlockId(s as usize))
    &&& call_target_block(cfg.blocks@, a) != Some(s)
    &&& !roots[s]
    &&& !claimed[s]
}

pub open spec fn intra_path(cfg: ControlFlowGraph, roots: Seq<bool>, claimed: Seq<bool>, p: Seq<int>) -> bool {
    &&& p.len() >= 1
    &&& forall|k: int| 0 <= k < p.len() ==> 0 <= #[trigger] p[k] < cfg.blocks@.len()
    &&& forall|k: int| 0 <= k < p.len() - 1 ==> intra_edge(cfg, roots, claimed, #[trigger] p[k], p[k + 1])
}

/// `b` is reached from `entry` along edges the function follows.
pub open spec fn owns_block(cfg: ControlFlowGraph, roots: Seq<bool>, claimed: Seq<bool>, entry: int, b: int) -> bool {
    exists|p: Seq<int>| #[trigger] intra_path(cfg, roots, claimed, p) && p[0] == entry && p.last() == b
}

pub open spec fn count_false(v: Seq<bool>) -> nat
    decreases v.len(),
{
    if v.len() == 0 {
        0
    } else {
        count_false(v.drop_last()) + if v.last() {
            0nat
        } else {
            1nat
        }
    }
}

proof fn lemma_count_false_set(v: Seq<bool>, i: int)
    requires
        0 <= i < v.len(),
        !v[i],
    ensures
        count_false(v.update(i, true)) + 1 == count_false(v),
    decreases v.len(),
{
    let w = v.update(i, true);
    if i == v.len() - 1 {
        assert(w.drop_last() =~= v.drop_last());
    } else {
        assert(w.drop_last() =~= v.drop_last().update(i, true));
        lemma_count_false_set(v.drop_last(), i);
    }
}

proof fn lemma_intra_extend(cfg: ControlFlowGraph, roots: Seq<bool>, claimed: Seq<bool>, p: Seq<int>, s: int)
    requires
        intra_path(cfg, roots, claimed, p),
        0 <= s < cfg.blocks@.len(),
        intra_edge(cfg, roots, claimed, p.last(), s),
    ensures
        intra_path(cfg, roots, claimed, p.push(s)),
{
    let q = p.push(s);
    assert forall|k: int| 0 <= k < q.len() - 1 implies intra_edge(cfg, roots, claimed, #[trigger] q[k], q[k + 1]) by {
        if k < p.len() - 1 {
            assert(q[k] == p[k] && q[k + 1] == p[k + 1]);
        }
    }
}

proof fn lemma_intra_closed(cfg: ControlFlowGraph, roots: Seq<bool>, claimed: Seq<bool>, member: Seq<bool>, entry: int, p: Seq<int>, k: int)
    requires
        member.len() == cfg.blocks@.len(),
        cfg.blocks@.len() <= usize::MAX,
        intra_path(cfg, roots, claimed, p),
        p[0] == entry,
        0 <= k < p.len(),
        member[entry],
        forall|a: int, s: int| 0 <= a < member.len() && member[a] && 0 <= s < member.len() && #[trigger] intra_edge(cfg, roots, claimed, a, s) ==> member[s],
    ensures
        member[p[k]],
    decreases k,
{
    if k > 0 {
        lemma_intra_closed(cfg, roots, claimed, member, entry, p, k - 1);
        assert(intra_edge(cfg, roots, claimed, p[k - 1], p[k]));
    }
}

/// Whether block `s` is an edge target the function starting the search follows from `a`.
fn follows(cfg: &ControlFlowGraph, roots: &Vec<bool>, claimed: &Vec<bool>, a: usize, s: BlockId) -> (r: bool)
    requires
        walkable(*cfg),
        a < cfg.blocks@.len(),
        roots@.len() == cfg.blocks@.len(),
        claimed@.len() == cfg.blocks@.len(),
        cfg.blocks@[a as int].successors@.contains(s),
    ensures
        r == intra_edge(*cfg, roots@, claimed@, a as int, s.0 as int),
{
    proof {
        let k = choose|k: int| 0 <= k < cfg.blocks@[a as int].successors@.len() && cfg.blocks@[a as int].successors@[k] == s;
        assert(cfg.blocks@[a as int].successors@[k].0 < cfg.blocks@.len());
    }
    let call = call_target_of(cfg, a);
    let is_call_edge = match call {
        Some(t) => t == s.0,
        None => false,
    };
    !is_call_edge && !roots[s.0] && !claimed[s.0]
}

/// The blocks a function rooted at `entry` owns, as a mask over blocks.
#[verifier::rlimit(40)]
fn discover_blocks(cfg: &ControlFlowGraph, entry: usize, roots: &Vec<bool>, claimed: &Vec<bool>) -> (member: Vec<bool>)
    requires
        walkable(*cfg),
        entry < cfg.blocks@.len(),
        roots@.len() == cfg.blocks@.len(),
        claimed@.len() == cfg.blocks@.len(),
    ensures
        member@.len() == cfg.blocks@.len(),
        forall|b: int| 0 <= b < member@.len() ==> (#[trigger] member@[b] <==> owns_block(*cfg, roots@, claimed@, entry as int, b)),
{
    let n = cfg.blocks.len();
    let mut member: Vec<bool> = Vec::new();
    let mut k: usize = 0;
    while k < n
        invariant
            k <= n,
            member@.len() == k,
            forall|j: int| 0 <= j < k ==> !member@[j],
        decreases n - k,
    {
        member.push(false);
        k = k + 1;
    }
    let mut queue: Vec<usize> = Vec::new();
    queue.push(entry);
    proof {
        let p = seq![entry as int];
        assert(intra_path(*cfg, roots@, claimed@, p));
        assert(owns_block(*cfg, roots@, claimed@, entry as int, entry as int));
        assert(queue@[0] == entry);
    }
    let mut head: usize = 0;
    while head < queue.len()
        invariant
            walkable(*cfg),
            n == cfg.blocks@.len(),
            entry < n,
            roots@.len() == n,
            claimed@.len() == n,
            member@.len() == n,
            head <= queue.len(),
            forall|q: int| 0 <= q < queue@.len() ==> #[trigger] queue@[q] < n && owns_block(*cfg, roots@, claimed@, entry as int, queue@[q] as int),
            forall|b: int| 0 <= b < n && #[trigger] member@[b] ==> owns_block(*cfg, roots@, claimed@, entry as int, b),
            forall|a: int, s: int| 0 <= a < n && member@[a] && 0 <= s < n && #[trigger] intra_edge(*cfg, roots@, claimed@, a, s) ==> member@[s]
                || exists|q: int| head <= q < queue@.len() && queue@[q] == s,
            member@[entry as int] || exists|q: int| head <= q < queue@.len() && queue@[q] == entry,
        decreases count_false(member@), queue@.len() - head,
    {
        let id = queue[head];
        head = head + 1;
        if member[id] {
            proof {
                assert forall|a: int, s: int| 0 <= a < n && member@[a] && 0 <= s < n && #[trigger] intra_edge(*cfg, roots@, claimed@, a, s) implies member@[s]
                    || exists|q: int| head <= q < queue@.len() && queue@[q] == s by {
                    if !member@[s] {
                        let q = choose|q: int| head - 1 <= q < queue@.len() && queue@[q] == s;
                        assert(q != head - 1);
                    }
                }
                if !member@[entry as int] {
                    let q = choose|q: int| head - 1 <= q < queue@.len() && queue@[q] == entry;
                    assert(q != head - 1);
                }
            }
            continue;
        }
        let ghost m0 = member@;
        let ghost q0 = queue@;
        proof {
            lemma_count_false_set(member@, id as int);
        }
        member.set(id, true);
        let ghost path = choose|p: Seq<int>| #[trigger] intra_path(*cfg, roots@, claimed@, p) && p[0] == entry as int && p.last() == id as int;
        let succ_len = cfg.blocks[id].successors.len();
        let mut s: usize = 0;
        while s < succ_len
            invariant
                walkable(*cfg),
                n == cfg.blocks@.len(),
                roots@.len() == n,
                claimed@.len() == n,
                id < n,
                succ_len == cfg.blocks@[id as int].successors@.len(),
                intra_path(*cfg, roots@, claimed@, path),
                path[0] == entry as int,
                path.last() == id as int,
                s <= succ_len,
                queue@.len() >= q0.len(),
                forall|q: int| 0 <= q < q0.len() ==> #[trigger] queue@[q] == q0[q],
                forall|q: int| 0 <= q < queue@.len() ==> #[trigger] queue@[q] < n && owns_block(*cfg, roots@, claimed@, entry as int, queue@[q] as int),
                forall|t: int| 0 <= t < s && intra_edge(*cfg, roots@, claimed@, id as int, (#[trigger] cfg.blocks@[id as int].successors@[t]).0 as int)
                    ==> exists|q: int| q0.len() <= q < queue@.len() && queue@[q] == cfg.blocks@[id as int].successors@[t].0,
            decreases succ_len - s,
        {
            let target = cfg.blocks[id].successors[s];
            proof {
                assert(cfg.blocks@[id as int].successors@[s as int] == target);
                assert(cfg.blocks@[id as int].successors@.contains(target));
            }
            let ghost q1 = queue@;
            if follows(cfg, roots, claimed, id, target) {
                proof {
                    lemma_intra_extend(*cfg, roots@, claimed@, path, target.0 as int);
                    assert(intra_path(*cfg, roots@, claimed@, path.push(target.0 as int)) && path.push(target.0 as int)[0] == entry as int
                        && path.push(target.0 as int).last() == target.0 as int);
                }
                queue.push(target.0);
                proof {
                    assert(queue@[queue@.len() - 1] == target.0);
                }
            }
            proof {
                assert forall|t: int| 0 <= t < s + 1 && intra_edge(*cfg, roots@, claimed@, id as int, (#[trigger] cfg.blocks@[id as int].successors@[t]).0 as int)
                    implies exists|q: int| q0.len() <= q < queue@.len() && queue@[q] == cfg.blocks@[id as int].successors@[t].0 by {
                    if t < s {
                        let q = choose|q: int| q0.len() <= q < q1.len() && q1[q] == cfg.blocks@[id as int].successors@[t].0;
                        assert(queue@[q] == q1[q]);
                    } else {
                        assert(queue@[queue@.len() - 1] == target.0);
                    }
                }
            }
            s = s + 1;
        }
        proof {
            assert forall|a: int, t: int| 0 <= a < n && member@[a] && 0 <= t < n && #[trigger] intra_edge(*cfg, roots@, claimed@, a, t) implies member@[t]
                || exists|q: int| head <= q < queue@.len() && queue@[q] == t by {
                if a == id {
                    if !member@[t] {
                        let k = choose|k: int| 0 <= k < cfg.blocks@[a].successors@.len() && cfg.blocks@[a].successors@[k] == BlockId(t as usize);
                        assert(intra_edge(*cfg, roots@, claimed@, id as int, (cfg.blocks@[id as int].successors@[k]).0 as int));
                        let q = choose|q: int| q0.len() <= q < queue@.len() && queue@[q] == cfg.blocks@[id as int].successors@[k].0;
                    }
                } else if !member@[t] {
                    assert(m0[a]);
                    let q = choose|q: int| head - 1 <= q < q0.len() && q0[q] == t;
                    assert(q != head - 1);
                    assert(queue@[q] == q0[q]);
                }
            }
            if !member@[entry as int] {
                let q = choose|q: int| head - 1 <= q < q0.len() && q0[q] == entry;
                assert(q != head - 1);
                assert(queue@[q] == q0[q]);
            }
        }
    }
    proof {
        assert forall|b: int| 0 <= b < n && #[trigger] owns_block(*cfg, roots@, claimed@, entry as int, b) implies member@[b] by {
            let p = choose|p: Seq<int>| #[trigger] intra_path(*cfg, roots@, claimed@, p) && p[0] == entry as int && p.last() == b;
            lemma_intra_closed(*cfg, roots@, claimed@, member@, entry as int, p, p.len() - 1);
        }
    }
    member
}

// ---------------------------------------------------------------------------
// Functions and their blocks
// ---------------------------------------------------------------------------

/// Blocks owned by a function before `g`.
pub open spec fn claimed_at(owner: Seq<Option<FunctionId>>, g: int) -> Seq<bool> {
    Seq::new(owner.len(), |b: int| owner[b] matches Some(h) && h.0 < g)
}

/// The blocks below `k` owned by function `f`, in block order.
pub open spec fn owned_list(owner: Seq<Option<FunctionId>>, f: int, k: int) -> Seq<BlockId>
    decreases k,
{
    if k <= 0 {
        Seq::empty()
    } else if owner[k - 1] == Some(FunctionId(f as usize)) {
        owned_list(owner, f, k - 1).push(BlockId((k - 1) as usize))
    } else {
        owned_list(owner, f, k - 1)
    }
}

/// The successors of block `b` that stay inside its function: owned by it,
/// not its direct call target and not a root.
pub open spec fn intra_successors(cfg: ControlFlowGraph, roots: Seq<bool>, owner: Seq<Option<FunctionId>>, f: int, b: int) -> Seq<BlockId> {
    cfg.blocks@[b].successors@.filter_map(keep_edge(cfg, roots, owner, f, b))
}

pub open spec fn keep_edge(cfg: ControlFlowGraph, roots: Seq<bool>, owner: Seq<Option<FunctionId>>, f: int, b: int) -> spec_fn(BlockId) -> Option<BlockId> {
    |s: BlockId|
        if s.0 < owner.len() && owner[s.0 as int] == Some(FunctionId(f as usize)) && call_target_block(cfg.blocks@, b) != Some(s.0 as int) && !roots[s.0 as int] {
            Some(s)
        } else {
            None
        }
}

/// The shape of function `f` once its blocks are known.
pub open spec fn function_shaped(cfg: ControlFlowGraph, roots: Seq<bool>, owner: Seq<Option<FunctionId>>, fns: Seq<Function>, f: int) -> bool {
    let func = fns[f];
    let entry = func.entry.0 as int;
    &&& func.id == FunctionId(f as usize)
    &&& entry < cfg.blocks@.len()
    &&& roots[entry]
    &&& func.key == (FunctionKey { address: cfg.blocks@[entry].key.address, mode: cfg.blocks@[entry].key.mode })
    &&& func.blocks@ == owned_list(owner, f, owner.len() as int)
    &&& func.block_successors@.len() == func.blocks@.len()
    &&& forall|k: int| 0 <= k < func.blocks@.len() ==> (#[trigger] func.block_successors@[k])@ == intra_successors(
        cfg,
        roots,
        owner,
        f,
        func.blocks@[k].0 as int,
    )
}

/// Ownership: block `b` belongs to function `f` exactly when `f`'s root
/// reaches it along followed edges, avoiding blocks of earlier functions.
pub open spec fn ownership_exact(cfg: ControlFlowGraph, roots: Seq<bool>, owner: Seq<Option<FunctionId>>, fns: Seq<Function>) -> bool {
    forall|f: int, b: int| #![trigger fns[f], owner[b]] 0 <= f < fns.len() && 0 <= b < owner.len() ==> (owner[b] == Some(FunctionId(f as usize)) <==> owns_block(
        cfg,
        roots,
        claimed_at(owner, f),
        fns[f].entry.0 as int,
        b,
    ))
}

/// The function roots, each once and in block order.
pub open spec fn roots_listed(cfg: ControlFlowGraph, roots: Seq<bool>, fns: Seq<Function>) -> bool {
    &&& forall|f: int, g: int| 0 <= f < g < fns.len() ==> (#[trigger] fns[f]).entry.0 < (#[trigger] fns[g]).entry.0
    &&& forall|b: int| 0 <= b < roots.len() && #[trigger] roots[b] ==> exists|f: int| 0 <= f < fns.len() && fns[f].entry.0 == b
}

fn function_edges(cfg: &ControlFlowGraph, b: usize, roots: &Vec<bool>, member: &Vec<bool>, Ghost(owner): Ghost<Seq<Option<FunctionId>>>, Ghost(f): Ghost<int>) -> (r: Vec<BlockId>)
    requires
        walkable(*cfg),
        b < cfg.blocks@.len(),
        roots@.len() == cfg.blocks@.len(),
        member@.len() == cfg.blocks@.len(),
        owner.len() == cfg.blocks@.len(),
        forall|x: int| 0 <= x < owner.len() ==> (#[trigger] member@[x] <==> owner[x] == Some(FunctionId(f as usize))),
    ensures
        r@ == intra_successors(*cfg, roots@, owner, f, b as int),
{
    let call = call_target_of(cfg, b);
    let succ = &cfg.blocks[b].successors;
    let ghost ss = succ@;
    let ghost pick = keep_edge(*cfg, roots@, owner, f, b as int);
    let mut out: Vec<BlockId> = Vec::new();
    let mut k: usize = 0;
    while k < succ.len()
        invariant
            walkable(*cfg),
            b < cfg.blocks@.len(),
            ss == cfg.blocks@[b as int].successors@,
            ss == succ@,
            roots@.len() == cfg.blocks@.len(),
            member@.len() == cfg.blocks@.len(),
            owner.len() == cfg.blocks@.len(),
            forall|x: int| 0 <= x < owner.len() ==> (#[trigger] member@[x] <==> owner[x] == Some(FunctionId(f as usize))),
            call matches Some(t) ==> t < cfg.blocks@.len() && call_target_block(cfg.blocks@, b as int) == Some(t as int),
            call is None ==> call_target_block(cfg.blocks@, b as int) is None,
            k <= ss.len(),
            pick == keep_edge(*cfg, roots@, owner, f, b as int),
            out@ == ss.subrange(0, k as int).filter_map(pick),
        decreases ss.len() - k,
    {
        let s = succ[k];
        proof {
            assert(ss[k as int].0 < cfg.blocks@.len());
            assert(ss.subrange(0, k + 1).drop_last() =~= ss.subrange(0, k as int));
        }
        let is_call_edge = match call {
            Some(t) => t == s.0,
            None => false,
        };
        let keep = member[s.0] && !is_call_edge && !roots[s.0];
        let ghost before = out@;
        if keep {
            out.push(s);
        }
        proof {
            let sub = ss.subrange(0, k + 1);
            assert(sub.last() == s);
            assert(member@[s.0 as int] <==> owner[s.0 as int] == Some(FunctionId(f as usize)));
            assert(is_call_edge <==> call_target_block(cfg.blocks@, b as int) == Some(s.0 as int));
            assert(roots@[s.0 as int] == roots[s.0 as int]);
            if keep {
                assert(pick(s) == Some(s));
                assert(sub.filter_map(pick) =~= sub.drop_last().filter_map(pick) + seq![s]);
                assert(out@ =~= before + seq![s]);
            } else {
                assert(sub.filter_map(pick) =~= sub.drop_last().filter_map(pick));
            }
        }
        k = k + 1;
    }
    proof {
        assert(ss.subrange(0, ss.len() as int) =~= ss);
    }
    out
}

/// Claims the blocks in `member` for function `f` and lists them in order.
fn claim_blocks(member: &Vec<bool>, owner: &mut Vec<Option<FunctionId>>, claimed: &mut Vec<bool>, f: usize) -> (list: Vec<BlockId>)
    requires
        member@.len() == old(owner)@.len(),
        old(claimed)@.len() == old(owner)@.len(),
        forall|b: int| 0 <= b < old(owner)@.len() ==> (#[trigger] old(claimed)@[b] <==> old(owner)@[b] is Some),
        forall|b: int| 0 <= b < old(owner)@.len() && #[trigger] member@[b] ==> old(owner)@[b] is None,
        forall|b: int| 0 <= b < old(owner)@.len() && #[trigger] old(owner)@[b] is Some ==> old(owner)@[b].unwrap().0 < f,
    ensures
        final(owner)@.len() == old(owner)@.len(),
        final(claimed)@.len() == old(owner)@.len(),
        forall|b: int| 0 <= b < final(owner)@.len() ==> (#[trigger] final(claimed)@[b] <==> final(owner)@[b] is Some),
        forall|b: int| 0 <= b < final(owner)@.len() ==> #[trigger] final(owner)@[b] == (if member@[b] {
            Some(FunctionId(f))
        } else {
            old(owner)@[b]
        }),
        list@ == owned_list(final(owner)@, f as int, final(owner)@.len() as int),
{
    let n = owner.len();
    let mut list: Vec<BlockId> = Vec::new();
    let mut b: usize = 0;
    while b < n
        invariant
            n == owner@.len(),
            n == old(owner)@.len(),
            member@.len() == n,
            claimed@.len() == n,
            b <= n,
            forall|x: int| 0 <= x < n ==> (#[trigger] claimed@[x] <==> owner@[x] is Some),
            forall|x: int| 0 <= x < n && #[trigger] member@[x] ==> old(owner)@[x] is None,
            forall|x: int| 0 <= x < n && #[trigger] old(owner)@[x] is Some ==> old(owner)@[x].unwrap().0 < f,
            forall|x: int| 0 <= x < b ==> #[trigger] owner@[x] == (if member@[x] {
                Some(FunctionId(f))
            } else {
                old(owner)@[x]
            }),
            forall|x: int| b <= x < n ==> #[trigger] owner@[x] == old(owner)@[x],
            list@ == owned_list(owner@, f as int, b as int),
        decreases n - b,
    {
        let ghost before = owner@;
        if member[b] {
            owner.set(b, Some(FunctionId(f)));
            claimed.set(b, true);
            list.push(BlockId(b));
        }
        proof {
            lemma_owned_list_frame(before, owner@, f as int, b as int);
        }
        b = b + 1;
    }
    proof {
        lemma_owned_list_frame(owner@, owner@, f as int, n as int);
    }
    list
}


/// The return sites among `list`, in order.
fn return_sites_for(cfg: &ControlFlowGraph, list: &Vec<BlockId>) -> (r: Vec<ReturnSite>)
    requires
        forall|j: int| 0 <= j < list@.len() ==> (#[trigger] list@[j]).0 < cfg.blocks@.len(),
    ensures
        r@ == list@.filter_map(return_pick(*cfg)),
{
    let ghost pick = return_pick(*cfg);
    let mut out: Vec<ReturnSite> = Vec::new();
    let mut k: usize = 0;
    while k < list.len()
        invariant
            forall|j: int| 0 <= j < list@.len() ==> (#[trigger] list@[j]).0 < cfg.blocks@.len(),
            k <= list@.len(),
            pick == return_pick(*cfg),
            out@ == list@.subrange(0, k as int).filter_map(pick),
        decreases list@.len() - k,
    {
        let b = list[k].0;
        let block = &cfg.blocks[b];
        let len = block.instructions.len();
        let ghost before = out@;
        let mut site: Option<ReturnSite> = None;
        if len > 0 {
            let last = block.instructions[len - 1];
            if is_return(last) {
                site = Some(ReturnSite { block: BlockId(b), instruction_index: len - 1, mode: last.mode });
            }
        }
        match site {
            Some(x) => {
                out.push(x);
            },
            None => {},
        }
        proof {
            let sub = list@.subrange(0, k + 1);
            assert(sub.drop_last() =~= list@.subrange(0, k as int));
            assert(sub.last() == list@[k as int]);
            assert(pick(list@[k as int]) == site);
            if site is Some {
                assert(sub.filter_map(pick) =~= sub.drop_last().filter_map(pick) + seq![site->0]);
                assert(out@ =~= before + seq![site->0]);
            } else {
                assert(sub.filter_map(pick) =~= sub.drop_last().filter_map(pick));
            }
        }
        k = k + 1;
    }
    proof {
        assert(list@.subrange(0, list@.len() as int) =~= list@);
    }
    out
}

/// `owned_list` up to `k` only looks at owners below `k`.
proof fn lemma_owned_list_frame(a: Seq<Option<FunctionId>>, b: Seq<Option<FunctionId>>, f: int, k: int)
    requires
        0 <= k <= a.len(),
        k <= b.len(),
        forall|x: int| 0 <= x < k ==> a[x] == b[x],
    ensures
        owned_list(a, f, k) == owned_list(b, f, k),
    decreases k,
{
    if k > 0 {
        lemma_owned_list_frame(a, b, f, k - 1);
    }
}

proof fn lemma_owned_block_shape(cfg: ControlFlowGraph, roots: Seq<bool>, claimed: Seq<bool>, entry: int, b: int)
    requires
        owns_block(cfg, roots, claimed, entry, b),
    ensures
        b == entry || (!roots[b] && !claimed[b]),
{
    let p = choose|p: Seq<int>| #[trigger] intra_path(cfg, roots, claimed, p) && p[0] == entry && p.last() == b;
    if p.len() > 1 {
        assert(intra_edge(cfg, roots, claimed, p[p.len() - 2], p[p.len() - 1]));
    }
}

proof fn lemma_owned_list_bound(owner: Seq<Option<FunctionId>>, f: int, k: int)
    requires
        0 <= k,
    ensures
        forall|j: int| 0 <= j < owned_list(owner, f, k).len() ==> (#[trigger] owned_list(owner, f, k)[j]).0 < k,
    decreases k,
{
    if k > 0 {
        lemma_owned_list_bound(owner, f, k - 1);
        let prev = owned_list(owner, f, k - 1);
        assert forall|j: int| 0 <= j < owned_list(owner, f, k).len() implies (#[trigger] owned_list(owner, f, k)[j]).0 < k by {
            if j < prev.len() {
                assert(owned_list(owner, f, k)[j] == prev[j]);
            }
        }
    }
}

proof fn lemma_owned_list_same(a: Seq<Option<FunctionId>>, b: Seq<Option<FunctionId>>, f: int, k: int)
    requires
        0 <= k <= a.len(),
        k <= b.len(),
        forall|x: int| 0 <= x < k ==> (a[x] == Some(FunctionId(f as usize)) <==> b[x] == Some(FunctionId(f as usize))),
    ensures
        owned_list(a, f, k) == owned_list(b, f, k),
    decreases k,
{
    if k > 0 {
        lemma_owned_list_same(a, b, f, k - 1);
    }
}

/// Builds one function per root, in root order; each claims the blocks its
/// root reaches that no earlier function claimed.
#[verifier::rlimit(60)]
fn make_functions(cfg: &ControlFlowGraph, roots: &Vec<bool>) -> (r: (Vec<Function>, Vec<Option<FunctionId>>))
    requires
        walkable(*cfg),
        roots@.len() == cfg.blocks@.len(),
        forall|b: int| 0 <= b < roots@.len() ==> (#[trigger] roots@[b] <==> is_root(*cfg, b)),
    ensures
        r.1@.len() == cfg.blocks@.len(),
        roots_listed(*cfg, roots@, r.0@),
        ownership_exact(*cfg, roots@, r.1@, r.0@),
        forall|b: int| 0 <= b < r.1@.len() && #[trigger] r.1@[b] is Some ==> r.1@[b].unwrap().0 < r.0@.len(),
        forall|f: int| 0 <= f < r.0@.len() ==> function_shaped(*cfg, roots@, r.1@, r.0@, f),
        forall|f: int| 0 <= f < r.0@.len() ==> (#[trigger] r.0@[f]).return_sites@ == r.0@[f].blocks@.filter_map(return_pick(*cfg)),
{
    let n = cfg.blocks.len();
    let mut owner: Vec<Option<FunctionId>> = Vec::new();
    let mut claimed: Vec<bool> = Vec::new();
    let mut i: usize = 0;
    while i < n
        invariant
            i <= n,
            owner@.len() == i,
            claimed@.len() == i,
            forall|b: int| 0 <= b < i ==> #[trigger] owner@[b] == None::<FunctionId>,
            forall|b: int| 0 <= b < i ==> !#[trigger] claimed@[b],
        decreases n - i,
    {
        let ghost o0 = owner@;
        let ghost c0 = claimed@;
        owner.push(None);
        claimed.push(false);
        proof {
            assert forall|b: int| 0 <= b < i + 1 implies #[trigger] owner@[b] == None::<FunctionId> by {
                if b < i {
                    assert(owner@[b] == o0[b]);
                }
            }
            assert forall|b: int| 0 <= b < i + 1 implies !#[trigger] claimed@[b] by {
                if b < i {
                    assert(claimed@[b] == c0[b]);
                }
            }
        }
        i = i + 1;
    }
    proof {
        assert forall|b: int| 0 <= b < n && #[trigger] owner@[b] is Some implies owner@[b].unwrap().0 < 0 by {
            assert(owner@[b] == None::<FunctionId>);
        }
        assert forall|b: int| 0 <= b < n implies (#[trigger] claimed@[b] <==> owner@[b] is Some) by {
            assert(owner@[b] == None::<FunctionId>);
        }
    }
    let mut functions: Vec<Function> = Vec::new();
    let mut r: usize = 0;
    while r < n
        invariant
            walkable(*cfg),
            n == cfg.blocks@.len(),
            roots@.len() == n,
            forall|b: int| 0 <= b < n ==> (#[trigger] roots@[b] <==> is_root(*cfg, b)),
            r <= n,
            owner@.len() == n,
            claimed@.len() == n,
            forall|b: int| 0 <= b < n ==> (#[trigger] claimed@[b] <==> owner@[b] is Some),
            forall|b: int| 0 <= b < n && #[trigger] owner@[b] is Some ==> owner@[b].unwrap().0 < functions@.len(),
            forall|g: int| 0 <= g < functions@.len() ==> (#[trigger] functions@[g]).entry.0 < r,
            forall|f: int, g: int| 0 <= f < g < functions@.len() ==> (#[trigger] functions@[f]).entry.0 < (#[trigger] functions@[g]).entry.0,
            forall|b: int| 0 <= b < r && #[trigger] roots@[b] ==> exists|g: int| 0 <= g < functions@.len() && functions@[g].entry.0 == b,
            forall|b: int| 0 <= b < n && #[trigger] claimed@[b] && roots@[b] ==> exists|g: int| 0 <= g < functions@.len() && functions@[g].entry.0 == b,
            ownership_exact(*cfg, roots@, owner@, functions@),
            forall|f: int| 0 <= f < functions@.len() ==> function_shaped(*cfg, roots@, owner@, functions@, f),
            forall|f: int| 0 <= f < functions@.len() ==> (#[trigger] functions@[f]).return_sites@ == functions@[f].blocks@.filter_map(return_pick(*cfg)),
        decreases n - r,
    {
        if roots[r] {
            let f = functions.len();
            proof {
                if claimed@[r as int] {
                    let g = choose|g: int| 0 <= g < functions@.len() && functions@[g].entry.0 == r;
                    assert(functions@[g].entry.0 < r);
                }
                assert(claimed@ =~= claimed_at(owner@, f as int));
            }
            let member = discover_blocks(cfg, r, roots, &claimed);
            let ghost owner0 = owner@;
            let ghost claimed0 = claimed@;
            let ghost fns0 = functions@;
            proof {
                assert forall|b: int| 0 <= b < n && #[trigger] member@[b] implies owner@[b] is None by {
                    lemma_owned_block_shape(*cfg, roots@, claimed0, r as int, b);
                }
            }
            let list = claim_blocks(&member, &mut owner, &mut claimed, f);
            proof {
                lemma_owned_list_bound(owner@, f as int, n as int);
            }
            let mut edges: Vec<Vec<BlockId>> = Vec::new();
            let mut k: usize = 0;
            while k < list.len()
                invariant
                    walkable(*cfg),
                    n == cfg.blocks@.len(),
                    roots@.len() == n,
                    member@.len() == n,
                    owner@.len() == n,
                    forall|x: int| 0 <= x < n ==> (#[trigger] member@[x] <==> owner@[x] == Some(FunctionId(f))),
                    list@ == owned_list(owner@, f as int, n as int),
                    forall|j: int| 0 <= j < list@.len() ==> (#[trigger] list@[j]).0 < n,
                    k <= list@.len(),
                    edges@.len() == k,
                    forall|j: int| 0 <= j < k ==> (#[trigger] edges@[j])@ == intra_successors(*cfg, roots@, owner@, f as int, list@[j].0 as int),
                decreases list@.len() - k,
            {
                let e = function_edges(cfg, list[k].0, roots, &member, Ghost(owner@), Ghost(f as int));
                edges.push(e);
                k = k + 1;
            }
            let rets = return_sites_for(cfg, &list);
            let entry_key = cfg.blocks[r].key;
            let func = Function {
                id: FunctionId(f),
                key: FunctionKey { address: entry_key.address, mode: entry_key.mode },
                entry: BlockId(r),
                blocks: list,
                block_successors: edges,
                successors: Vec::new(),
                call_sites: Vec::new(),
                return_sites: rets,
            };
            functions.push(func);
            proof {
                let ow = owner@;
                let fns = functions@;
                assert forall|b: int| 0 <= b < n implies (member@[b] <==> owns_block(*cfg, roots@, claimed_at(ow, f as int), r as int, b)) by {
                    assert(claimed_at(ow, f as int) =~= claimed0);
                }
                assert forall|g: int| 0 <= g < f implies claimed_at(ow, g) == claimed_at(owner0, g) by {
                    assert(claimed_at(ow, g) =~= claimed_at(owner0, g));
                }
                assert forall|g: int, b: int| #![trigger fns[g], ow[b]] 0 <= g < fns.len() && 0 <= b < ow.len() implies (ow[b] == Some(FunctionId(g as usize)) <==> owns_block(
                    *cfg,
                    roots@,
                    claimed_at(ow, g),
                    fns[g].entry.0 as int,
                    b,
                )) by {
                    if g < f {
                        assert(fns[g] == fns0[g]);
                        assert(claimed_at(ow, g) == claimed_at(owner0, g));
                        assert(ow[b] == Some(FunctionId(g as usize)) <==> owner0[b] == Some(FunctionId(g as usize)));
                        assert(owner0[b] == Some(FunctionId(g as usize)) <==> owns_block(*cfg, roots@, claimed_at(owner0, g), fns0[g].entry.0 as int, b));
                    } else {
                        assert(member@[b] <==> owns_block(*cfg, roots@, claimed_at(ow, f as int), r as int, b));
                    }
                }
                assert forall|g: int| 0 <= g < fns.len() implies function_shaped(*cfg, roots@, ow, fns, g) by {
                    if g < f {
                        assert(fns[g] == fns0[g]);
                        assert(function_shaped(*cfg, roots@, owner0, fns0, g));
                        lemma_owned_list_same(owner0, ow, g, n as int);
                        assert forall|kk: int| 0 <= kk < fns[g].blocks@.len() implies (#[trigger] fns[g].block_successors@[kk])@ == intra_successors(
                            *cfg,
                            roots@,
                            ow,
                            g,
                            fns[g].blocks@[kk].0 as int,
                        ) by {
                            let bb = fns[g].blocks@[kk].0 as int;
                            assert(keep_edge(*cfg, roots@, ow, g, bb) =~= keep_edge(*cfg, roots@, owner0, g, bb));
                        }
                    } else {
                        assert(cfg.blocks@[r as int].key == entry_key);
                    }
                }
                assert forall|b: int| 0 <= b < n && #[trigger] claimed@[b] && roots@[b] implies exists|g: int| 0 <= g < functions@.len() && functions@[g].entry.0 == b by {
                    if claimed0[b] {
                        let g = choose|g: int| 0 <= g < fns0.len() && fns0[g].entry.0 == b;
                        assert(fns[g] == fns0[g]);
                    } else {
                        assert(member@[b]);
                        lemma_owned_block_shape(*cfg, roots@, claimed0, r as int, b);
                        assert(fns[f as int].entry.0 == b);
                    }
                }
                assert forall|b: int| 0 <= b < r + 1 && #[trigger] roots@[b] implies exists|g: int| 0 <= g < functions@.len() && functions@[g].entry.0 == b by {
                    if b < r {
                        let g = choose|g: int| 0 <= g < fns0.len() && fns0[g].entry.0 == b;
                        assert(fns[g] == fns0[g]);
                    } else {
                        assert(fns[f as int].entry.0 == b);
                    }
                }
                assert forall|f1: int, g1: int| 0 <= f1 < g1 < fns.len() implies (#[trigger] fns[f1]).entry.0 < (#[trigger] fns[g1]).entry.0 by {
                    if g1 == f {
                        assert(fns[f1] == fns0[f1]);
                    } else {
                        assert(fns[f1] == fns0[f1] && fns[g1] == fns0[g1]);
                    }
                }
                assert forall|g: int| 0 <= g < fns.len() implies (#[trigger] fns[g]).return_sites@ == fns[g].blocks@.filter_map(return_pick(*cfg)) by {
                    if g < f {
                        assert(fns[g] == fns0[g]);
                    }
                }
                assert forall|g: int| 0 <= g < fns.len() implies (#[trigger] fns[g]).entry.0 < r + 1 by {
                    if g < f {
                        assert(fns[g] == fns0[g]);
                    }
                }
            }
        }
        r = r + 1;
    }
    (functions, owner)
}

// ---------------------------------------------------------------------------
// Call and return sites
// ---------------------------------------------------------------------------

/// A block whose last instruction is `BX lr` is a return site.
pub open spec fn return_site_of(cfg: ControlFlowGraph, b: int) -> Option<ReturnSite> {
    let ins = cfg.blocks@[b].instructions@;
    if ins.len() > 0 && is_return_spec(ins.last()) {
        Some(ReturnSite { block: BlockId(b as usize), instruction_index: (ins.len() - 1) as usize, mode: ins.last().mode })
    } else {
        None
    }
}

pub open spec fn return_pick(cfg: ControlFlowGraph) -> spec_fn(BlockId) -> Option<ReturnSite> {
    |id: BlockId| return_site_of(cfg, id.0 as int)
}

/// The first successor that is not block `t`.
pub open spec fn first_other(succ: Seq<BlockId>, t: int) -> Option<BlockId>
    decreases succ.len(),
{
    if succ.len() == 0 {
        None
    } else if succ[0].0 != t {
        Some(succ[0])
    } else {
        first_other(succ.drop_first(), t)
    }
}

pub type CallView = (BlockId, usize, CallTarget, Option<BlockId>, Seq<ReturnSite>);

pub open spec fn view_call(c: CallSite) -> CallView {
    (c.block, c.instruction_index, c.target, c.return_block, c.return_sites@)
}

pub open spec fn call_views(s: Seq<CallSite>) -> Seq<CallView> {
    s.map_values(|c: CallSite| view_call(c))
}

/// The call site block `b` of a function holds, with its callee: a direct
/// call to a claimed block, an indirect call, or a tail branch to another
/// function's root that is not an edge of the function itself.
pub open spec fn call_of(
    cfg: ControlFlowGraph,
    roots: Seq<bool>,
    owner: Seq<Option<FunctionId>>,
    fns: Seq<Function>,
    intra: Seq<BlockId>,
    b: int,
) -> Option<(CallView, Option<FunctionId>)> {
    let block = cfg.blocks@[b];
    let ins = block.instructions@;
    if ins.len() == 0 {
        None
    } else {
        let last = ins.last();
        let index = (ins.len() - 1) as usize;
        match direct_call_spec(last) {
            Some(address) => {
                let key = BlockKey { address, mode: last.mode };
                match find_key(cfg.blocks@, key, 0) {
                    Some(t) => match owner[t] {
                        Some(callee) => Some(
                            (
                                (BlockId(b as usize), index, CallTarget::Direct(key), first_other(block.successors@, t), fns[callee.0 as int].return_sites@),
                                Some(callee),
                            ),
                        ),
                        None => None,
                    },
                    None => None,
                }
            },
            None => match indirect_call_spec(last) {
                Some(register) => Some(
                    (
                        (
                            BlockId(b as usize),
                            index,
                            CallTarget::Indirect { register, link: true, mode: last.mode },
                            if block.successors@.len() > 0 {
                                Some(block.successors@[0])
                            } else {
                                None
                            },
                            Seq::empty(),
                        ),
                        None,
                    ),
                ),
                None => match direct_branch_spec(last) {
                    Some(address) => {
                        let key = BlockKey { address, mode: last.mode };
                        match find_key(cfg.blocks@, key, 0) {
                            Some(t) => if roots[t] && !intra.contains(BlockId(t as usize)) {
                                match owner[t] {
                                    Some(callee) => Some(
                                        (
                                            (BlockId(b as usize), index, CallTarget::TailDirect(key), None, fns[callee.0 as int].return_sites@),
                                            Some(callee),
                                        ),
                                    ),
                                    None => None,
                                }
                            } else {
                                None
                            },
                            None => None,
                        }
                    },
                    None => None,
                },
            },
        }
    }
}

/// The call sites of the first `k` blocks of a function, in block order.
pub open spec fn calls_upto(cfg: ControlFlowGraph, roots: Seq<bool>, owner: Seq<Option<FunctionId>>, fns: Seq<Function>, func: Function, k: int) -> Seq<CallView>
    decreases k,
{
    if k <= 0 {
        Seq::empty()
    } else {
        let rest = calls_upto(cfg, roots, owner, fns, func, k - 1);
        match call_of(cfg, roots, owner, fns, func.block_successors@[k - 1]@, func.blocks@[k - 1].0 as int) {
            Some(c) => rest.push(c.0),
            None => rest,
        }
    }
}

/// Function `g` is called, directly or by a tail branch, from one of the
/// first `k` blocks of `func`.
pub open spec fn calls_function(cfg: ControlFlowGraph, roots: Seq<bool>, owner: Seq<Option<FunctionId>>, fns: Seq<Function>, func: Function, g: int) -> bool {
    exists|k: int| 0 <= k < func.blocks@.len() && (#[trigger] call_of(cfg, roots, owner, fns, func.block_successors@[k]@, func.blocks@[k].0 as int) matches Some(c)
        && c.1 == Some(FunctionId(g as usize)))
}

fn first_other_exec(succ: &Vec<BlockId>, t: usize) -> (r: Option<BlockId>)
    ensures
        r == first_other(succ@, t as int),
{
    let mut k: usize = 0;
    proof {
        assert(succ@.subrange(0, succ@.len() as int) =~= succ@);
    }
    while k < succ.len()
        invariant
            k <= succ@.len(),
            first_other(succ@, t as int) == first_other(succ@.subrange(k as int, succ@.len() as int), t as int),
        decreases succ@.len() - k,
    {
        proof {
            assert(succ@.subrange(k as int, succ@.len() as int).drop_first() =~= succ@.subrange(k + 1, succ@.len() as int));
        }
        if succ[k].0 != t {
            return Some(succ[k]);
        }
        k = k + 1;
    }
    None
}

pub(crate) fn copy_returns(v: &Vec<ReturnSite>) -> (r: Vec<ReturnSite>)
    ensures
        r@ == v@,
{
    let mut out: Vec<ReturnSite> = Vec::new();
    let mut k: usize = 0;
    while k < v.len()
        invariant
            k <= v@.len(),
            out@ == v@.subrange(0, k as int),
        decreases v@.len() - k,
    {
        out.push(v[k]);
        k = k + 1;
    }
    proof {
        assert(out@ =~= v@);
    }
    out
}

fn block_ids_contain(v: &Vec<BlockId>, t: usize) -> (r: bool)
    ensures
        r == v@.contains(BlockId(t)),
{
    let mut k: usize = 0;
    while k < v.len()
        invariant
            k <= v@.len(),
            forall|j: int| 0 <= j < k ==> v@[j] != BlockId(t),
        decreases v@.len() - k,
    {
        if v[k].0 == t {
            proof {
                assert(v@[k as int] == BlockId(t));
            }
            return true;
        }
        k = k + 1;
    }
    false
}

/// The call site of block `b`, with its callee.
fn call_site_exec(
    cfg: &ControlFlowGraph,
    roots: &Vec<bool>,
    owner: &Vec<Option<FunctionId>>,
    fns: &Vec<Function>,
    intra: &Vec<BlockId>,
    b: usize,
) -> (r: Option<(CallSite, Option<FunctionId>)>)
    requires
        walkable(*cfg),
        b < cfg.blocks@.len(),
        roots@.len() == cfg.blocks@.len(),
        owner@.len() == cfg.blocks@.len(),
        forall|x: int| 0 <= x < owner@.len() && #[trigger] owner@[x] is Some ==> owner@[x].unwrap().0 < fns@.len(),
    ensures
        match r {
            Some((c, callee)) => call_of(*cfg, roots@, owner@, fns@, intra@, b as int) == Some((view_call(c), callee)),
            None => call_of(*cfg, roots@, owner@, fns@, intra@, b as int) is None,
        },
        r matches Some((_, Some(g))) ==> g.0 < fns@.len(),
{
    let block = &cfg.blocks[b];
    let len = block.instructions.len();
    if len == 0 {
        return None;
    }
    let last = block.instructions[len - 1];
    let index = len - 1;
    match direct_call(last) {
        Some(address) => {
            let key = BlockKey { address, mode: last.mode };
            let found = block_for_key(cfg, key);
            proof {
                lemma_find_key(cfg.blocks@, key, 0);
            }
            match found {
                Some(t) => match owner[t] {
                    Some(callee) => {
                        let callee_returns = copy_returns(&fns[callee.0].return_sites);
                        let return_block = first_other_exec(&block.successors, t);
                        Some((CallSite { block: BlockId(b), instruction_index: index, target: CallTarget::Direct(key), return_block, return_sites: callee_returns }, Some(callee)))
                    },
                    None => None,
                },
                None => None,
            }
        },
        None => match indirect_call(last) {
            Some(register) => {
                let return_block = if block.successors.len() > 0 {
                    Some(block.successors[0])
                } else {
                    None
                };
                Some((
                    CallSite {
                        block: BlockId(b),
                        instruction_index: index,
                        target: CallTarget::Indirect { register, link: true, mode: last.mode },
                        return_block,
                        return_sites: Vec::new(),
                    },
                    None,
                ))
            },
            None => match direct_branch(last) {
                Some(address) => {
                    let key = BlockKey { address, mode: last.mode };
                    let found = block_for_key(cfg, key);
                    proof {
                        lemma_find_key(cfg.blocks@, key, 0);
                    }
                    match found {
                        Some(t) => {
                            if roots[t] && !block_ids_contain(intra, t) {
                                match owner[t] {
                                    Some(callee) => {
                                        let callee_returns = copy_returns(&fns[callee.0].return_sites);
                                        Some((
                                            CallSite {
                                                block: BlockId(b),
                                                instruction_index: index,
                                                target: CallTarget::TailDirect(key),
                                                return_block: None,
                                                return_sites: callee_returns,
                                            },
                                            Some(callee),
                                        ))
                                    },
                                    None => None,
                                }
                            } else {
                                None
                            }
                        },
                        None => None,
                    }
                },
                None => None,
            },
        },
    }
}

// ---------------------------------------------------------------------------
// The function graph
// ---------------------------------------------------------------------------

pub open spec fn root_set(cfg: ControlFlowGraph) -> Seq<bool> {
    Seq::new(cfg.blocks@.len(), |b: int| is_root(cfg, b))
}

/// All call views of the first `k` functions, function by function.
pub open spec fn all_calls(fns: Seq<Function>, k: int) -> Seq<CallView>
    decreases k,
{
    if k <= 0 {
        Seq::empty()
    } else {
        all_calls(fns, k - 1) + call_views(fns[k - 1].call_sites@)
    }
}

/// All return sites of the first `k` functions, function by function.
pub open spec fn all_returns(fns: Seq<Function>, k: int) -> Seq<ReturnSite>
    decreases k,
{
    if k <= 0 {
        Seq::empty()
    } else {
        all_returns(fns, k - 1) + fns[k - 1].return_sites@
    }
}

/// `BX lr` without a link, in either state: the instruction a return is.
pub open spec fn returns_through_lr(ins: Instruction) -> bool {
    ||| ins.kind == InstructionKind::Arm(ArmOp::BranchExchange { rm: 14, link: false })
    ||| ins.kind == InstructionKind::Thumb(ThumbOp::BranchExchange { rm: 14 })
}

proof fn lemma_filter_map_keeps<A, B>(s: Seq<A>, pick: spec_fn(A) -> Option<B>, k: int)
    requires
        0 <= k < s.len(),
        pick(s[k]) is Some,
    ensures
        s.filter_map(pick).contains(pick(s[k])->0),
    decreases s.len(),
{
    let rest = s.drop_last();
    if k == s.len() - 1 {
        let out = s.filter_map(pick);
        assert(out == rest.filter_map(pick) + seq![pick(s[k])->0]);
        assert(out[out.len() - 1] == pick(s[k])->0);
    } else {
        assert(rest[k] == s[k]);
        lemma_filter_map_keeps(rest, pick, k);
        let x = pick(s[k])->0;
        let j = choose|j: int| 0 <= j < rest.filter_map(pick).len() && rest.filter_map(pick)[j] == x;
        match pick(s.last()) {
            Some(y) => {
                assert(s.filter_map(pick)[j] == x);
            },
            None => {},
        }
    }
}

proof fn lemma_filter_map_origin<A, B>(s: Seq<A>, pick: spec_fn(A) -> Option<B>, x: B)
    requires
        s.filter_map(pick).contains(x),
    ensures
        exists|k: int| 0 <= k < s.len() && pick(#[trigger] s[k]) == Some(x),
    decreases s.len(),
{
    let rest = s.drop_last();
    let out = s.filter_map(pick);
    let j = choose|j: int| 0 <= j < out.len() && out[j] == x;
    match pick(s.last()) {
        Some(y) => {
            if j == out.len() - 1 {
                assert(out == rest.filter_map(pick) + seq![y]);
                assert(pick(s[s.len() - 1]) == Some(x));
            } else {
                assert(out == rest.filter_map(pick) + seq![y]);
                assert(rest.filter_map(pick)[j] == x);
                lemma_filter_map_origin(rest, pick, x);
                let k = choose|k: int| 0 <= k < rest.len() && pick(#[trigger] rest[k]) == Some(x);
                assert(s[k] == rest[k]);
            }
        },
        None => {
            assert(out == rest.filter_map(pick));
            lemma_filter_map_origin(rest, pick, x);
            let k = choose|k: int| 0 <= k < rest.len() && pick(#[trigger] rest[k]) == Some(x);
            assert(s[k] == rest[k]);
        },
    }
}

proof fn lemma_all_returns_holds(fns: Seq<Function>, n: int, f: int, x: ReturnSite)
    requires
        0 <= f < n <= fns.len(),
        fns[f].return_sites@.contains(x),
    ensures
        all_returns(fns, n).contains(x),
    decreases n,
{
    let own = fns[f].return_sites@;
    let j = choose|j: int| 0 <= j < own.len() && #[trigger] own[j] == x;
    if f == n - 1 {
        let prev = all_returns(fns, n - 1);
        assert(all_returns(fns, n)[prev.len() + j] == x);
    } else {
        lemma_all_returns_holds(fns, n - 1, f, x);
        let prev = all_returns(fns, n - 1);
        let i = choose|i: int| 0 <= i < prev.len() && #[trigger] prev[i] == x;
        assert(all_returns(fns, n)[i] == x);
    }
}

/// The return sites of a function are exactly its blocks that end in `BX lr`
/// without a link (ARM or Thumb), each recorded at that last instruction, and
/// each is among the program's returns.
pub proof fn law_returns_are_exchanges_through_lr(cfg: ControlFlowGraph, g: FunctionControlFlowGraph, f: int, k: int)
    requires
        graph_exact(cfg, g),
        0 <= f < g.functions@.len(),
        0 <= k < g.functions@[f].blocks@.len(),
    ensures
        ({
            let b = g.functions@[f].blocks@[k].0 as int;
            let ins = cfg.blocks@[b].instructions@;
            let site = ReturnSite { block: BlockId(b as usize), instruction_index: (ins.len() - 1) as usize, mode: ins.last().mode };
            ins.len() > 0 && returns_through_lr(ins.last()) ==> g.functions@[f].return_sites@.contains(site) && g.returns@.contains(site)
        }),
        forall|x: ReturnSite| #[trigger] g.functions@[f].return_sites@.contains(x) ==> exists|j: int|
            0 <= j < g.functions@[f].blocks@.len() && x.block == #[trigger] g.functions@[f].blocks@[j] && {
                let ins = cfg.blocks@[x.block.0 as int].instructions@;
                &&& ins.len() > 0
                &&& x.instruction_index == ins.len() - 1
                &&& x.mode == ins.last().mode
                &&& returns_through_lr(ins.last())
            },
{
    let fns = g.functions@;
    let pick = return_pick(cfg);
    assert(fns[f].return_sites@ == fns[f].blocks@.filter_map(pick));
    let id = fns[f].blocks@[k];
    let b = id.0 as int;
    let ins = cfg.blocks@[b].instructions@;
    if ins.len() > 0 && returns_through_lr(ins.last()) {
        assert(is_return_spec(ins.last()));
        assert(pick(id) == return_site_of(cfg, b));
        lemma_filter_map_keeps(fns[f].blocks@, pick, k);
        let site = ReturnSite { block: BlockId(b as usize), instruction_index: (ins.len() - 1) as usize, mode: ins.last().mode };
        assert(BlockId(b as usize) == id);
        lemma_all_returns_holds(fns, fns.len() as int, f, site);
    }
    assert forall|x: ReturnSite| #[trigger] fns[f].return_sites@.contains(x) implies exists|j: int|
        0 <= j < fns[f].blocks@.len() && x.block == #[trigger] fns[f].blocks@[j] && {
            let ins = cfg.blocks@[x.block.0 as int].instructions@;
            &&& ins.len() > 0
            &&& x.instruction_index == ins.len() - 1
            &&& x.mode == ins.last().mode
            &&& returns_through_lr(ins.last())
        } by {
        lemma_filter_map_origin(fns[f].blocks@, pick, x);
        let j = choose|j: int| 0 <= j < fns[f].blocks@.len() && pick(#[trigger] fns[f].blocks@[j]) == Some(x);
        let bj = fns[f].blocks@[j];
        assert(pick(bj) == return_site_of(cfg, bj.0 as int));
        let insj = cfg.blocks@[bj.0 as int].instructions@;
        assert(insj.len() > 0 && is_return_spec(insj.last()));
        assert(BlockId((bj.0 as int) as usize) == bj);
        match insj.last().kind {
            InstructionKind::Arm(ArmOp::BranchExchange { rm, link }) => {},
            InstructionKind::Thumb(ThumbOp::BranchExchange { rm }) => {},
            _ => {},
        }
        assert(cfg.blocks@[bj.0 as int].instructions.len() == insj.len());
    }
}

/// What `discover_functions` computes for a program.
pub open spec fn graph_exact(cfg: ControlFlowGraph, g: FunctionControlFlowGraph) -> bool {
    let roots = root_set(cfg);
    let owner = g.block_to_function@;
    let fns = g.functions@;
    &&& g.entry == FunctionId(0)
    &&& fns.len() >= 1
    &&& owner.len() == cfg.blocks@.len()
    &&& roots_listed(cfg, roots, fns)
    &&& ownership_exact(cfg, roots, owner, fns)
    &&& forall|b: int| 0 <= b < owner.len() && #[trigger] owner[b] is Some ==> owner[b].unwrap().0 < fns.len()
    &&& forall|f: int| 0 <= f < fns.len() ==> function_shaped(cfg, roots, owner, fns, f)
    &&& forall|f: int| 0 <= f < fns.len() ==> (#[trigger] fns[f]).return_sites@ == fns[f].blocks@.filter_map(return_pick(cfg))
    &&& forall|f: int| 0 <= f < fns.len() ==> call_views((#[trigger] fns[f]).call_sites@) == calls_upto(
        cfg,
        roots,
        owner,
        fns,
        fns[f],
        fns[f].blocks@.len() as int,
    )
    &&& forall|f: int, a: int, b: int| 0 <= f < fns.len() && 0 <= a < b < fns[f].successors@.len() ==> (#[trigger] fns[f].successors@[a]).0
        < (#[trigger] fns[f].successors@[b]).0
    &&& forall|f: int, h: int| #![trigger fns[f].successors@.contains(FunctionId(h as usize))] 0 <= f < fns.len() && 0 <= h < fns.len() ==> (
    fns[f].successors@.contains(FunctionId(h as usize)) <==> calls_function(cfg, roots, owner, fns, fns[f], h))
    &&& call_views(g.calls@) == all_calls(fns, fns.len() as int)
    &&& g.returns@ == all_returns(fns, fns.len() as int)
}

proof fn lemma_call_of_returns(
    cfg: ControlFlowGraph,
    roots: Seq<bool>,
    owner: Seq<Option<FunctionId>>,
    a: Seq<Function>,
    b: Seq<Function>,
    intra: Seq<BlockId>,
    x: int,
)
    requires
        a.len() == b.len(),
        forall|g: int| 0 <= g < a.len() ==> (#[trigger] a[g]).return_sites@ == b[g].return_sites@,
        forall|y: int| 0 <= y < owner.len() && #[trigger] owner[y] is Some ==> owner[y].unwrap().0 < a.len(),
        owner.len() == cfg.blocks@.len(),
        0 <= x < cfg.blocks@.len(),
    ensures
        call_of(cfg, roots, owner, a, intra, x) == call_of(cfg, roots, owner, b, intra, x),
{
    let ins = cfg.blocks@[x].instructions@;
    if ins.len() > 0 {
        let last = ins.last();
        match direct_call_spec(last) {
            Some(address) => {
                lemma_find_key(cfg.blocks@, BlockKey { address, mode: last.mode }, 0);
            },
            None => {
                match direct_branch_spec(last) {
                    Some(address) => {
                        lemma_find_key(cfg.blocks@, BlockKey { address, mode: last.mode }, 0);
                    },
                    None => {},
                }
            },
        }
    }
}

pub(crate) fn copy_ids(v: &Vec<BlockId>) -> (r: Vec<BlockId>)
    ensures
        r@ == v@,
{
    let mut out: Vec<BlockId> = Vec::new();
    let mut k: usize = 0;
    while k < v.len()
        invariant
            k <= v@.len(),
            out@ == v@.subrange(0, k as int),
        decreases v@.len() - k,
    {
        out.push(v[k]);
        k = k + 1;
    }
    proof {
        assert(out@ =~= v@);
    }
    out
}

fn copy_nested(v: &Vec<Vec<BlockId>>) -> (r: Vec<Vec<BlockId>>)
    ensures
        r@.len() == v@.len(),
        forall|k: int| 0 <= k < v@.len() ==> (#[trigger] r@[k])@ == v@[k]@,
{
    let mut out: Vec<Vec<BlockId>> = Vec::new();
    let mut k: usize = 0;
    while k < v.len()
        invariant
            k <= v@.len(),
            out@.len() == k,
            forall|j: int| 0 <= j < k ==> (#[trigger] out@[j])@ == v@[j]@,
        decreases v@.len() - k,
    {
        out.push(copy_ids(&v[k]));
        k = k + 1;
    }
    out
}

pub(crate) fn copy_call(c: &CallSite) -> (r: CallSite)
    ensures
        view_call(r) == view_call(*c),
{
    CallSite {
        block: c.block,
        instruction_index: c.instruction_index,
        target: c.target,
        return_block: c.return_block,
        return_sites: copy_returns(&c.return_sites),
    }
}

/// Splits a program into functions: one per call target and the entry,
/// each owning the blocks its root reaches without crossing a call or
/// another root, with its call sites, return sites and callees.
#[verifier::rlimit(80)]
pub fn discover_functions(program: &Program) -> (graph: FunctionControlFlowGraph)
    requires
        walkable(program.cfg),
    ensures
        graph_exact(program.cfg, graph),
{
    let cfg = &program.cfg;
    let roots = root_mask(cfg);
    proof {
        assert(roots@ =~= root_set(*cfg));
    }
    let (functions, owner) = make_functions(cfg, &roots);
    let nf = functions.len();
    proof {
        assert(roots@[cfg.entry.0 as int]);
        let f0 = choose|f: int| 0 <= f < functions@.len() && functions@[f].entry.0 == cfg.entry.0;
    }
    let mut out: Vec<Function> = Vec::new();
    let mut all_call_sites: Vec<CallSite> = Vec::new();
    let mut all_return_sites: Vec<ReturnSite> = Vec::new();
    let mut f: usize = 0;
    while f < nf
        invariant
            walkable(*cfg),
            nf == functions@.len(),
            roots@ == root_set(*cfg),
            owner@.len() == cfg.blocks@.len(),
            forall|b: int| 0 <= b < owner@.len() && #[trigger] owner@[b] is Some ==> owner@[b].unwrap().0 < nf,
            forall|g: int| 0 <= g < nf ==> function_shaped(*cfg, roots@, owner@, functions@, g),
            forall|g: int| 0 <= g < nf ==> (#[trigger] functions@[g]).return_sites@ == functions@[g].blocks@.filter_map(return_pick(*cfg)),
            f <= nf,
            out@.len() == f,
            forall|g: int| 0 <= g < f ==> {
                &&& (#[trigger] out@[g]).id == functions@[g].id
                &&& out@[g].key == functions@[g].key
                &&& out@[g].entry == functions@[g].entry
                &&& out@[g].blocks@ == functions@[g].blocks@
                &&& out@[g].block_successors@.len() == functions@[g].block_successors@.len()
                &&& forall|k: int| 0 <= k < functions@[g].block_successors@.len() ==> (#[trigger] out@[g].block_successors@[k])@
                    == functions@[g].block_successors@[k]@
                &&& out@[g].return_sites@ == functions@[g].return_sites@
                &&& call_views(out@[g].call_sites@) == calls_upto(
                    *cfg,
                    roots@,
                    owner@,
                    functions@,
                    functions@[g],
                    functions@[g].blocks@.len() as int,
                )
                &&& forall|a: int, b: int| 0 <= a < b < out@[g].successors@.len() ==> (#[trigger] out@[g].successors@[a]).0
                    < (#[trigger] out@[g].successors@[b]).0
                &&& forall|h: int| #![trigger out@[g].successors@.contains(FunctionId(h as usize))] 0 <= h < nf ==> (out@[g].successors@.contains(FunctionId(h as usize))
                    <==> calls_function(*cfg, roots@, owner@, functions@, functions@[g], h))
            },
            call_views(all_call_sites@) == all_calls(out@, f as int),
            all_return_sites@ == all_returns(out@, f as int),
        decreases nf - f,
    {
        let func = &functions[f];
        let nb = func.blocks.len();
        let mut calls: Vec<CallSite> = Vec::new();
        let mut called: Vec<bool> = Vec::new();
        let mut j: usize = 0;
        while j < nf
            invariant
                j <= nf,
                called@.len() == j,
                forall|x: int| 0 <= x < j ==> !#[trigger] called@[x],
            decreases nf - j,
        {
            called.push(false);
            j = j + 1;
        }
        let ghost calls0 = call_views(all_call_sites@);
        proof {
            assert(function_shaped(*cfg, roots@, owner@, functions@, f as int));
            lemma_owned_list_bound(owner@, f as int, owner@.len() as int);
        }
        let mut k: usize = 0;
        while k < nb
            invariant
                walkable(*cfg),
                nf == functions@.len(),
                f < nf,
                *func == functions@[f as int],
                nb == func.blocks@.len(),
                func.block_successors@.len() == nb,
                forall|x: int| 0 <= x < nb ==> (#[trigger] func.blocks@[x]).0 < cfg.blocks@.len(),
                roots@.len() == cfg.blocks@.len(),
                owner@.len() == cfg.blocks@.len(),
                forall|b: int| 0 <= b < owner@.len() && #[trigger] owner@[b] is Some ==> owner@[b].unwrap().0 < nf,
                k <= nb,
                called@.len() == nf,
                call_views(calls@) == calls_upto(*cfg, roots@, owner@, functions@, *func, k as int),
                call_views(all_call_sites@) == calls0 + call_views(calls@),
                forall|h: int| 0 <= h < nf ==> (#[trigger] called@[h] <==> exists|x: int| 0 <= x < k && (#[trigger] call_of(*cfg, roots@, owner@, functions@, func.block_successors@[x]@, func.blocks@[x].0 as int) matches Some(c)
                    && c.1 == Some(FunctionId(h as usize)))),
            decreases nb - k,
        {
            let ghost vcalls = call_views(calls@);
            let ghost vall = call_views(all_call_sites@);
            let ghost called0 = called@;
            let b = func.blocks[k].0;
            let site = call_site_exec(cfg, &roots, &owner, &functions, &func.block_successors[k], b);
            match site {
                Some((c, callee)) => {
                    match callee {
                        Some(g) => {
                            called.set(g.0, true);
                        },
                        None => {},
                    }
                    all_call_sites.push(copy_call(&c));
                    calls.push(c);
                    proof {
                        assert(call_views(calls@) =~= vcalls.push(view_call(c)));
                        assert(call_views(all_call_sites@) =~= vall.push(view_call(c)));
                    }
                },
                None => {},
            }
            proof {
                assert forall|h: int| 0 <= h < nf implies (#[trigger] called@[h] <==> exists|x: int| 0 <= x < k + 1 && (#[trigger] call_of(*cfg, roots@, owner@, functions@, func.block_successors@[x]@, func.blocks@[x].0 as int) matches Some(c)
                    && c.1 == Some(FunctionId(h as usize)))) by {
                    if called@[h] && !called0[h] {
                        assert(call_of(*cfg, roots@, owner@, functions@, func.block_successors@[k as int]@, func.blocks@[k as int].0 as int) matches Some(c) && c.1 == Some(FunctionId(h as usize)));
                    }
                    if called@[h] && called0[h] {
                        let x = choose|x: int| 0 <= x < k && (#[trigger] call_of(*cfg, roots@, owner@, functions@, func.block_successors@[x]@, func.blocks@[x].0 as int) matches Some(c)
                            && c.1 == Some(FunctionId(h as usize)));
                        assert(0 <= x < k + 1);
                    }
                    if !called@[h] {
                        assert(!called0[h]);
                        if exists|x: int| 0 <= x < k + 1 && (#[trigger] call_of(*cfg, roots@, owner@, functions@, func.block_successors@[x]@, func.blocks@[x].0 as int) matches Some(c)
                            && c.1 == Some(FunctionId(h as usize))) {
                            let x = choose|x: int| 0 <= x < k + 1 && (#[trigger] call_of(*cfg, roots@, owner@, functions@, func.block_successors@[x]@, func.blocks@[x].0 as int) matches Some(c)
                                && c.1 == Some(FunctionId(h as usize)));
                            if x < k {
                                assert(false);
                            }
                        }
                    }
                }
            }
            k = k + 1;
        }
        let mut successors: Vec<FunctionId> = Vec::new();
        let mut h: usize = 0;
        while h < nf
            invariant
                h <= nf,
                called@.len() == nf,
                forall|a: int, b: int| 0 <= a < b < successors@.len() ==> (#[trigger] successors@[a]).0 < (#[trigger] successors@[b]).0,
                forall|x: int| 0 <= x < successors@.len() ==> (#[trigger] successors@[x]).0 < h,
                forall|x: int| #![trigger successors@.contains(FunctionId(x as usize))] 0 <= x < nf ==> (successors@.contains(FunctionId(x as usize)) <==> (x < h && called@[x])),
            decreases nf - h,
        {
            let ghost s0 = successors@;
            if called[h] {
                successors.push(FunctionId(h));
            }
            proof {
                assert forall|x: int| #![trigger successors@.contains(FunctionId(x as usize))] 0 <= x < nf implies (successors@.contains(FunctionId(x as usize)) <==> (x < h + 1 && called@[x])) by {
                    if successors@.contains(FunctionId(x as usize)) {
                        let w = choose|w: int| 0 <= w < successors@.len() && successors@[w] == FunctionId(x as usize);
                        if w < s0.len() {
                            assert(s0[w] == FunctionId(x as usize));
                            assert(s0.contains(FunctionId(x as usize)));
                        }
                    }
                    if x < h + 1 && called@[x] {
                        if x < h {
                            assert(s0.contains(FunctionId(x as usize)));
                            let w = choose|w: int| 0 <= w < s0.len() && s0[w] == FunctionId(x as usize);
                            assert(successors@[w] == FunctionId(x as usize));
                        } else {
                            assert(successors@[successors@.len() - 1] == FunctionId(x as usize));
                        }
                    }
                }
            }
            h = h + 1;
        }
        let ghost ret0 = all_return_sites@;
        let mut r: usize = 0;
        while r < func.return_sites.len()
            invariant
                r <= func.return_sites@.len(),
                all_return_sites@ == ret0 + func.return_sites@.subrange(0, r as int),
            decreases func.return_sites@.len() - r,
        {
            all_return_sites.push(func.return_sites[r]);
            proof {
                assert(func.return_sites@.subrange(0, r + 1) =~= func.return_sites@.subrange(0, r as int).push(func.return_sites@[r as int]));
            }
            r = r + 1;
        }
        proof {
            assert(func.return_sites@.subrange(0, func.return_sites@.len() as int) =~= func.return_sites@);
        }
        let new_func = Function {
            id: func.id,
            key: func.key,
            entry: func.entry,
            blocks: copy_ids(&func.blocks),
            block_successors: copy_nested(&func.block_successors),
            successors,
            call_sites: calls,
            return_sites: copy_returns(&func.return_sites),
        };
        let ghost out0 = out@;
        out.push(new_func);
        proof {
            assert(all_calls(out@, f + 1) == all_calls(out@, f as int) + call_views(out@[f as int].call_sites@));
            assert forall|g: int| 0 <= g < f implies #[trigger] out@[g] == out0[g] by {}
            lemma_all_calls_prefix(out0, out@, f as int);
            lemma_all_returns_prefix(out0, out@, f as int);
        }
        f = f + 1;
    }
    let graph = FunctionControlFlowGraph {
        entry: FunctionId(0),
        functions: out,
        block_to_function: owner,
        calls: all_call_sites,
        returns: all_return_sites,
    };
    proof {
        let fns = graph.functions@;
        assert forall|g: int| 0 <= g < nf implies #[trigger] fns[g].return_sites@ == functions@[g].return_sites@ by {}
        assert forall|f2: int| 0 <= f2 < nf implies function_shaped(*cfg, roots@, owner@, fns, f2) by {
            assert(function_shaped(*cfg, roots@, owner@, functions@, f2));
        }
        assert forall|x: int| 0 <= x < cfg.blocks@.len() && #[trigger] roots@[x] implies exists|f2: int| 0 <= f2 < fns.len() && fns[f2].entry.0 == x by {
            let f2 = choose|f2: int| 0 <= f2 < functions@.len() && functions@[f2].entry.0 == x;
            assert(fns[f2].entry == functions@[f2].entry);
        }
        assert forall|f1: int, g1: int| 0 <= f1 < g1 < fns.len() implies (#[trigger] fns[f1]).entry.0 < (#[trigger] fns[g1]).entry.0 by {
            assert(fns[f1].entry == functions@[f1].entry && fns[g1].entry == functions@[g1].entry);
        }
        assert forall|f2: int, b: int| #![trigger fns[f2], owner@[b]] 0 <= f2 < fns.len() && 0 <= b < owner@.len() implies (owner@[b] == Some(FunctionId(f2 as usize)) <==> owns_block(
            *cfg,
            roots@,
            claimed_at(owner@, f2),
            fns[f2].entry.0 as int,
            b,
        )) by {
            assert(fns[f2].entry == functions@[f2].entry);
            assert(functions@[f2] == functions@[f2]);
        }
        assert forall|f2: int| 0 <= f2 < fns.len() implies call_views((#[trigger] fns[f2]).call_sites@) == calls_upto(
            *cfg,
            roots@,
            owner@,
            fns,
            fns[f2],
            fns[f2].blocks@.len() as int,
        ) by {
            assert(function_shaped(*cfg, roots@, owner@, functions@, f2));
            lemma_owned_list_bound(owner@, f2, owner@.len() as int);
            lemma_calls_upto_same(*cfg, roots@, owner@, functions@, fns, functions@[f2], fns[f2], fns[f2].blocks@.len() as int);
        }
        assert forall|f2: int, h: int| #![trigger fns[f2].successors@.contains(FunctionId(h as usize))] 0 <= f2 < fns.len() && 0 <= h < fns.len() implies (
        fns[f2].successors@.contains(FunctionId(h as usize)) <==> calls_function(*cfg, roots@, owner@, fns, fns[f2], h)) by {
            assert(function_shaped(*cfg, roots@, owner@, functions@, f2));
            lemma_owned_list_bound(owner@, f2, owner@.len() as int);
            lemma_calls_function_same(*cfg, roots@, owner@, functions@, fns, functions@[f2], fns[f2], h);
        }
    }
    graph
}

proof fn lemma_all_calls_prefix(a: Seq<Function>, b: Seq<Function>, k: int)
    requires
        0 <= k <= a.len(),
        k <= b.len(),
        forall|g: int| 0 <= g < k ==> #[trigger] b[g] == a[g],
    ensures
        all_calls(a, k) == all_calls(b, k),
    decreases k,
{
    if k > 0 {
        lemma_all_calls_prefix(a, b, k - 1);
    }
}

proof fn lemma_all_returns_prefix(a: Seq<Function>, b: Seq<Function>, k: int)
    requires
        0 <= k <= a.len(),
        k <= b.len(),
        forall|g: int| 0 <= g < k ==> #[trigger] b[g] == a[g],
    ensures
        all_returns(a, k) == all_returns(b, k),
    decreases k,
{
    if k > 0 {
        lemma_all_returns_prefix(a, b, k - 1);
    }
}

proof fn lemma_calls_upto_same(
    cfg: ControlFlowGraph,
    roots: Seq<bool>,
    owner: Seq<Option<FunctionId>>,
    a: Seq<Function>,
    b: Seq<Function>,
    fa: Function,
    fb: Function,
    k: int,
)
    requires
        a.len() == b.len(),
        forall|g: int| 0 <= g < a.len() ==> (#[trigger] a[g]).return_sites@ == b[g].return_sites@,
        forall|y: int| 0 <= y < owner.len() && #[trigger] owner[y] is Some ==> owner[y].unwrap().0 < a.len(),
        owner.len() == cfg.blocks@.len(),
        k <= fa.blocks@.len(),
        fa.blocks@ == fb.blocks@,
        fa.block_successors@.len() == fb.block_successors@.len(),
        fa.block_successors@.len() == fa.blocks@.len(),
        forall|x: int| 0 <= x < fa.block_successors@.len() ==> (#[trigger] fa.block_successors@[x])@ == fb.block_successors@[x]@,
        forall|x: int| 0 <= x < fa.blocks@.len() ==> (#[trigger] fa.blocks@[x]).0 < cfg.blocks@.len(),
    ensures
        calls_upto(cfg, roots, owner, a, fa, k) == calls_upto(cfg, roots, owner, b, fb, k),
    decreases k,
{
    if k > 0 {
        lemma_calls_upto_same(cfg, roots, owner, a, b, fa, fb, k - 1);
        lemma_call_of_returns(cfg, roots, owner, a, b, fa.block_successors@[k - 1]@, fa.blocks@[k - 1].0 as int);
    }
}

proof fn lemma_calls_function_same(
    cfg: ControlFlowGraph,
    roots: Seq<bool>,
    owner: Seq<Option<FunctionId>>,
    a: Seq<Function>,
    b: Seq<Function>,
    fa: Function,
    fb: Function,
    h: int,
)
    requires
        a.len() == b.len(),
        forall|g: int| 0 <= g < a.len() ==> (#[trigger] a[g]).return_sites@ == b[g].return_sites@,
        forall|y: int| 0 <= y < owner.len() && #[trigger] owner[y] is Some ==> owner[y].unwrap().0 < a.len(),
        owner.len() == cfg.blocks@.len(),
        fa.blocks@ == fb.blocks@,
        fa.block_successors@.len() == fb.block_successors@.len(),
        fa.block_successors@.len() == fa.blocks@.len(),
        forall|x: int| 0 <= x < fa.block_successors@.len() ==> (#[trigger] fa.block_successors@[x])@ == fb.block_successors@[x]@,
        forall|x: int| 0 <= x < fa.blocks@.len() ==> (#[trigger] fa.blocks@[x]).0 < cfg.blocks@.len(),
    ensures
        calls_function(cfg, roots, owner, a, fa, h) == calls_function(cfg, roots, owner, b, fb, h),
{
    assert forall|x: int| 0 <= x < fa.blocks@.len() implies #[trigger] call_of(cfg, roots, owner, a, fa.block_successors@[x]@, fa.blocks@[x].0 as int)
        == call_of(cfg, roots, owner, b, fb.block_successors@[x]@, fb.blocks@[x].0 as int) by {
        lemma_call_of_returns(cfg, roots, owner, a, b, fa.block_successors@[x]@, fa.blocks@[x].0 as int);
    }
    if calls_function(cfg, roots, owner, a, fa, h) {
        let x = choose|x: int| 0 <= x < fa.blocks@.len() && (#[trigger] call_of(cfg, roots, owner, a, fa.block_successors@[x]@, fa.blocks@[x].0 as int) matches Some(c)
            && c.1 == Some(FunctionId(h as usize)));
        assert(call_of(cfg, roots, owner, b, fb.block_successors@[x]@, fb.blocks@[x].0 as int) matches Some(c) && c.1 == Some(FunctionId(h as usize)));
    }
    if calls_function(cfg, roots, owner, b, fb, h) {
        let x = choose|x: int| 0 <= x < fb.blocks@.len() && (#[trigger] call_of(cfg, roots, owner, b, fb.block_successors@[x]@, fb.blocks@[x].0 as int) matches Some(c)
            && c.1 == Some(FunctionId(h as usize)));
        assert(call_of(cfg, roots, owner, a, fa.block_successors@[x]@, fa.blocks@[x].0 as int) == call_of(cfg, roots, owner, b, fb.block_successors@[x]@, fb.blocks@[x].0 as int));
        assert(call_of(cfg, roots, owner, a, fa.block_successors@[x]@, fa.blocks@[x].0 as int) matches Some(c) && c.1 == Some(FunctionId(h as usize)));
    }
}

} // verus!
