//! The ARM exception vectors of a BIOS image, each analysed as a root of its
//! own, with the handlers they share and the exception returns they make.
use vstd::prelude::*;

use crate::address_space::{mapping_contains, ImageKind, ImageMapping};
use crate::cfg::partition::{sorted_distinct, strictly_increasing};
use crate::cfg::edges::decode_at_spec;
use crate::cfg::{analyze_with_mapping, entry_key_of, graph_refused, mapping_refused, program_faithful, AnalysisError, BlockKey, Program};
use crate::cfg::discovery::reached;
use crate::decoder::{ArmDataOp, ArmExtended, ArmOp, DecodeError, Instruction, InstructionKind, Mode};
use vstd::arithmetic::div_mod::lemma_fundamental_div_mod_converse;

verus! {

/// Architectural exception vectors of the ARM7TDMI.
#[derive(Debug, Clone, Copy, PartialEq, Eq, Hash, Structural)]
pub enum ExceptionVectorKind {
    Undefined,
    SoftwareInterrupt,
    PrefetchAbort,
    DataAbort,
    Irq,
    Fiq,
}

pub open spec fn kind_index(k: ExceptionVectorKind) -> nat {
    match k {
        ExceptionVectorKind::Undefined => 0,
        ExceptionVectorKind::SoftwareInterrupt => 1,
        ExceptionVectorKind::PrefetchAbort => 2,
        ExceptionVectorKind::DataAbort => 3,
        ExceptionVectorKind::Irq => 4,
        ExceptionVectorKind::Fiq => 5,
    }
}

/// The vectors in architectural order.
pub open spec fn all_kinds() -> Seq<ExceptionVectorKind> {
    seq![
        ExceptionVectorKind::Undefined,
        ExceptionVectorKind::SoftwareInterrupt,
        ExceptionVectorKind::PrefetchAbort,
        ExceptionVectorKind::DataAbort,
        ExceptionVectorKind::Irq,
        ExceptionVectorKind::Fiq,
    ]
}

pub open spec fn vector_address(k: ExceptionVectorKind) -> u32 {
    match k {
        ExceptionVectorKind::Undefined => 0x04,
        ExceptionVectorKind::SoftwareInterrupt => 0x08,
        ExceptionVectorKind::PrefetchAbort => 0x0c,
        ExceptionVectorKind::DataAbort => 0x10,
        ExceptionVectorKind::Irq => 0x18,
        ExceptionVectorKind::Fiq => 0x1c,
    }
}

impl ExceptionVectorKind {
    /// Every vector, in architectural order.
    pub fn all() -> (r: [ExceptionVectorKind; 6])
        ensures
            r@ == all_kinds(),
    {
        let r = [
            ExceptionVectorKind::Undefined,
            ExceptionVectorKind::SoftwareInterrupt,
            ExceptionVectorKind::PrefetchAbort,
            ExceptionVectorKind::DataAbort,
            ExceptionVectorKind::Irq,
            ExceptionVectorKind::Fiq,
        ];
        proof {
            assert(r@ =~= all_kinds());
        }
        r
    }

    /// The vector's address.
    pub fn vector(self) -> (r: u32)
        ensures
            r == vector_address(self),
    {
        match self {
            ExceptionVectorKind::Undefined => 0x04,
            ExceptionVectorKind::SoftwareInterrupt => 0x08,
            ExceptionVectorKind::PrefetchAbort => 0x0c,
            ExceptionVectorKind::DataAbort => 0x10,
            ExceptionVectorKind::Irq => 0x18,
            ExceptionVectorKind::Fiq => 0x1c,
        }
    }
}

#[derive(Debug, Clone, Copy, PartialEq, Eq, Structural)]
pub enum ExceptionGraphEdgeKind {
    SharedHandler,
    ExceptionReturn,
}

#[derive(Debug, Clone, Copy, PartialEq, Eq, Structural)]
pub struct ExceptionGraphEdge {
    pub from: ExceptionVectorKind,
    pub to: Option<ExceptionVectorKind>,
    pub kind: ExceptionGraphEdgeKind,
    pub address: u32,
}

#[derive(Debug, Clone, PartialEq, Eq)]
pub struct ExceptionGraphNode {
    pub kind: ExceptionVectorKind,
    pub vector: u32,
    pub program: Program,
    pub exception_return_sites: Vec<u32>,
}

#[derive(Debug, Clone, PartialEq, Eq)]
pub struct ExceptionGraph {
    pub image: ImageMapping,
    pub nodes: Vec<ExceptionGraphNode>,
    pub edges: Vec<ExceptionGraphEdge>,
}

impl ExceptionGraph {
    /// The node of this vector.
    pub fn node(&self, kind: ExceptionVectorKind) -> (r: Option<&ExceptionGraphNode>)
        ensures
            r is None <==> forall|i: int| 0 <= i < self.nodes@.len() ==> (#[trigger] self.nodes@[i]).kind != kind,
            r matches Some(n) ==> exists|i: int|
                0 <= i < self.nodes@.len() && (#[trigger] self.nodes@[i]) == *n && n.kind == kind && forall|j: int|
                    0 <= j < i ==> (#[trigger] self.nodes@[j]).kind != kind,
    {
        let mut i: usize = 0;
        while i < self.nodes.len()
            invariant
                i <= self.nodes@.len(),
                forall|j: int| 0 <= j < i ==> (#[trigger] self.nodes@[j]).kind != kind,
            decreases self.nodes@.len() - i,
        {
            if self.nodes[i].kind == kind {
                return Some(&self.nodes[i]);
            }
            i = i + 1;
        }
        None
    }

    /// The entry key of each node's vector, in node order.
    pub fn vector_keys(&self) -> (r: Vec<BlockKey>)
        ensures
            r@.len() == self.nodes@.len(),
            forall|i: int| 0 <= i < r@.len() ==> #[trigger] r@[i] == (BlockKey { address: self.nodes@[i].vector, mode: Mode::Arm }),
    {
        let mut out: Vec<BlockKey> = Vec::new();
        let mut i: usize = 0;
        while i < self.nodes.len()
            invariant
                i <= self.nodes@.len(),
                out@.len() == i,
                forall|j: int| 0 <= j < i ==> #[trigger] out@[j] == (BlockKey { address: self.nodes@[j].vector, mode: Mode::Arm }),
            decreases self.nodes@.len() - i,
        {
            out.push(BlockKey { address: self.nodes[i].vector, mode: Mode::Arm });
            i = i + 1;
        }
        out
    }

    /// The shared-handler edges, in order.
    pub fn shared_handler_edges(&self) -> (r: Vec<ExceptionGraphEdge>)
        ensures
            r@ == self.edges@.filter(|e: ExceptionGraphEdge| e.kind == ExceptionGraphEdgeKind::SharedHandler),
    {
        let mut out: Vec<ExceptionGraphEdge> = Vec::new();
        let mut i: usize = 0;
        while i < self.edges.len()
            invariant
                i <= self.edges@.len(),
                out@ == self.edges@.subrange(0, i as int).filter(|e: ExceptionGraphEdge| e.kind == ExceptionGraphEdgeKind::SharedHandler),
            decreases self.edges@.len() - i,
        {
            let e = self.edges[i];
            proof {
                assert(self.edges@.subrange(0, i + 1).drop_last() == self.edges@.subrange(0, i as int));
                reveal(Seq::filter);
            }
            if matches!(e.kind, ExceptionGraphEdgeKind::SharedHandler) {
                out.push(e);
            }
            i = i + 1;
        }
        proof {
            assert(self.edges@.subrange(0, self.edges@.len() as int) == self.edges@);
        }
        out
    }
}

/// An ARM data-processing instruction that writes PC with the S bit: the
/// instruction that returns from an exception.
pub open spec fn is_exception_return(ins: Instruction) -> bool {
    match ins.kind {
        InstructionKind::Arm(ArmOp::Extended(ArmExtended::DataProcessing { op, rd, set_flags, .. })) => rd == 15 && set_flags && !(op
            == ArmDataOp::Tst || op == ArmDataOp::Teq || op == ArmDataOp::Cmp || op == ArmDataOp::Cmn),
        _ => false,
    }
}

/// The addresses of the exception returns among `ins[k..]`.
pub open spec fn returns_in(ins: Seq<Instruction>, k: nat) -> Seq<u32>
    decreases ins.len() - k,
{
    if k >= ins.len() {
        Seq::empty()
    } else if is_exception_return(ins[k as int]) {
        seq![ins[k as int].address] + returns_in(ins, k + 1)
    } else {
        returns_in(ins, k + 1)
    }
}

/// The exception-return addresses of blocks `b..`, in block and instruction order.
pub open spec fn return_sites_from(p: Program, b: nat) -> Seq<u32>
    decreases p.cfg.blocks@.len() - b,
{
    if b >= p.cfg.blocks@.len() {
        Seq::empty()
    } else {
        returns_in(p.cfg.blocks@[b as int].instructions@, 0) + return_sites_from(p, b + 1)
    }
}

fn exception_return(ins: &Instruction) -> (r: bool)
    ensures
        r == is_exception_return(*ins),
{
    match ins.kind {
        InstructionKind::Arm(ArmOp::Extended(ArmExtended::DataProcessing { op, rd, set_flags, .. })) => {
            rd == 15 && set_flags && !matches!(op, ArmDataOp::Tst | ArmDataOp::Teq | ArmDataOp::Cmp | ArmDataOp::Cmn)
        },
        _ => false,
    }
}

fn block_returns(ins: &Vec<Instruction>) -> (r: Vec<u32>)
    ensures
        r@ == returns_in(ins@, 0),
{
    let mut out: Vec<u32> = Vec::new();
    let mut k: usize = ins.len();
    while k > 0
        invariant
            k <= ins@.len(),
            out@ == returns_in(ins@, k as nat),
        decreases k,
    {
        k = k - 1;
        if exception_return(&ins[k]) {
            let mut with: Vec<u32> = Vec::new();
            with.push(ins[k].address);
            let mut j: usize = 0;
            while j < out.len()
                invariant
                    j <= out@.len(),
                    with@ == seq![ins@[k as int].address] + out@.subrange(0, j as int),
                decreases out@.len() - j,
            {
                with.push(out[j]);
                j = j + 1;
            }
            proof {
                assert(out@.subrange(0, out@.len() as int) == out@);
            }
            out = with;
        }
    }
    out
}

/// The exception-return addresses of a program, in block and instruction order.
fn exception_return_sites(program: &Program) -> (r: Vec<u32>)
    ensures
        r@ == return_sites_from(*program, 0),
{
    let mut out: Vec<u32> = Vec::new();
    let mut b: usize = program.cfg.blocks.len();
    while b > 0
        invariant
            b <= program.cfg.blocks@.len(),
            out@ == return_sites_from(*program, b as nat),
        decreases b,
    {
        b = b - 1;
        let mut mine = block_returns(&program.cfg.blocks[b].instructions);
        let ghost head = mine@;
        let mut j: usize = 0;
        while j < out.len()
            invariant
                j <= out@.len(),
                mine@ == head + out@.subrange(0, j as int),
            decreases out@.len() - j,
        {
            mine.push(out[j]);
            j = j + 1;
        }
        proof {
            assert(out@.subrange(0, out@.len() as int) == out@);
        }
        out = mine;
    }
    out
}

/// The mapping under which a vector is analysed: the BIOS, entered in ARM
/// state at the vector.
pub open spec fn vector_mapping(m: ImageMapping, k: ExceptionVectorKind) -> ImageMapping {
    ImageMapping { kind: ImageKind::Bios, base: m.base, size: m.size, entry: vector_address(k), entry_mode: Mode::Arm }
}

/// A node is the program recovered from its vector, with its exception returns.
pub open spec fn node_faithful(image: Seq<u8>, m: ImageMapping, k: ExceptionVectorKind, n: ExceptionGraphNode) -> bool {
    &&& n.kind == k
    &&& n.vector == vector_address(k)
    &&& program_faithful(image, vector_mapping(m, k), n.program)
    &&& n.exception_return_sites@ == return_sites_from(n.program, 0)
}

/// The program holds a block with this key.
pub open spec fn holds_key(p: Program, k: BlockKey) -> bool {
    exists|b: int| 0 <= b < p.cfg.blocks@.len() && (#[trigger] p.cfg.blocks@[b]).key == k
}

/// The first of nodes `j..i` whose program holds the key.
pub open spec fn owner_from(nodes: Seq<ExceptionGraphNode>, j: int, i: int, k: BlockKey) -> Option<int>
    decreases i - j,
{
    if j >= i {
        None
    } else if holds_key(nodes[j].program, k) {
        Some(j)
    } else {
        owner_from(nodes, j + 1, i, k)
    }
}

/// The edge that block `b` of node `i` adds: to the first earlier node that
/// holds the same block, if any.
pub open spec fn shared_edge(nodes: Seq<ExceptionGraphNode>, i: int, b: int) -> Option<ExceptionGraphEdge> {
    if 0 <= i < nodes.len() && 0 <= b < nodes[i].program.cfg.blocks@.len() {
        let key = nodes[i].program.cfg.blocks@[b].key;
        match owner_from(nodes, 0, i, key) {
            Some(j) => Some(
                ExceptionGraphEdge {
                    from: nodes[i].kind,
                    to: Some(nodes[j].kind),
                    kind: ExceptionGraphEdgeKind::SharedHandler,
                    address: key.address,
                },
            ),
            None => None,
        }
    } else {
        None
    }
}

/// The edge that exception-return site `s` of node `i` adds.
pub open spec fn return_edge(nodes: Seq<ExceptionGraphNode>, i: int, s: int) -> Option<ExceptionGraphEdge> {
    if 0 <= i < nodes.len() && 0 <= s < nodes[i].exception_return_sites@.len() {
        Some(
            ExceptionGraphEdge {
                from: nodes[i].kind,
                to: None,
                kind: ExceptionGraphEdgeKind::ExceptionReturn,
                address: nodes[i].exception_return_sites@[s],
            },
        )
    } else {
        None
    }
}

/// The edges that the nodes call for.
pub open spec fn graph_edge(nodes: Seq<ExceptionGraphNode>, e: ExceptionGraphEdge) -> bool {
    ||| exists|i: int, b: int| #[trigger] shared_edge(nodes, i, b) == Some(e)
    ||| exists|i: int, s: int| #[trigger] return_edge(nodes, i, s) == Some(e)
}

pub open spec fn edge_kind_index(k: ExceptionGraphEdgeKind) -> int {
    match k {
        ExceptionGraphEdgeKind::SharedHandler => 0,
        ExceptionGraphEdgeKind::ExceptionReturn => 1,
    }
}

pub open spec fn target_index(t: Option<ExceptionVectorKind>) -> int {
    match t {
        None => 0,
        Some(k) => kind_index(k) as int + 1,
    }
}

/// The order of edges: by source vector, then kind, then address, then target.
pub open spec fn edge_code(e: ExceptionGraphEdge) -> int {
    kind_index(e.from) as int * 0x20_0000_0000 + edge_kind_index(e.kind) * 0x10_0000_0000 + e.address * 8 + target_index(e.to)
}

pub open spec fn kind_at(n: int) -> ExceptionVectorKind {
    if n == 0 {
        ExceptionVectorKind::Undefined
    } else if n == 1 {
        ExceptionVectorKind::SoftwareInterrupt
    } else if n == 2 {
        ExceptionVectorKind::PrefetchAbort
    } else if n == 3 {
        ExceptionVectorKind::DataAbort
    } else if n == 4 {
        ExceptionVectorKind::Irq
    } else {
        ExceptionVectorKind::Fiq
    }
}

pub open spec fn decode_edge(c: int) -> ExceptionGraphEdge {
    ExceptionGraphEdge {
        from: kind_at(c / 0x20_0000_0000),
        to: if c % 8 == 0 { None } else { Some(kind_at(c % 8 - 1)) },
        kind: if (c / 0x10_0000_0000) % 2 == 0 {
            ExceptionGraphEdgeKind::SharedHandler
        } else {
            ExceptionGraphEdgeKind::ExceptionReturn
        },
        address: ((c % 0x10_0000_0000) / 8) as u32,
    }
}

proof fn lemma_decode_edge(e: ExceptionGraphEdge)
    ensures
        decode_edge(edge_code(e)) == e,
        0 <= edge_code(e) < 0x100_0000_0000,
{
    let f = kind_index(e.from) as int;
    let k = edge_kind_index(e.kind);
    let a = e.address as int;
    let t = target_index(e.to);
    let c = edge_code(e);
    let low = a * 8 + t;
    lemma_fundamental_div_mod_converse(c, 0x20_0000_0000, f, k * 0x10_0000_0000 + low);
    lemma_fundamental_div_mod_converse(c, 0x10_0000_0000, f * 2 + k, low);
    lemma_fundamental_div_mod_converse(f * 2 + k, 2, f, k);
    lemma_fundamental_div_mod_converse(low, 8, a, t);
    lemma_fundamental_div_mod_converse(c, 8, f * 0x4_0000_0000 + k * 0x2_0000_0000 + a, t);
    assert(kind_at(f) == e.from);
    assert(e.to is Some ==> kind_at(t - 1) == e.to.unwrap());
}

fn kind_number(k: ExceptionVectorKind) -> (r: u64)
    ensures
        r == kind_index(k),
{
    match k {
        ExceptionVectorKind::Undefined => 0,
        ExceptionVectorKind::SoftwareInterrupt => 1,
        ExceptionVectorKind::PrefetchAbort => 2,
        ExceptionVectorKind::DataAbort => 3,
        ExceptionVectorKind::Irq => 4,
        ExceptionVectorKind::Fiq => 5,
    }
}

fn kind_numbered(n: u64) -> (r: ExceptionVectorKind)
    ensures
        r == kind_at(n as int),
{
    if n == 0 {
        ExceptionVectorKind::Undefined
    } else if n == 1 {
        ExceptionVectorKind::SoftwareInterrupt
    } else if n == 2 {
        ExceptionVectorKind::PrefetchAbort
    } else if n == 3 {
        ExceptionVectorKind::DataAbort
    } else if n == 4 {
        ExceptionVectorKind::Irq
    } else {
        ExceptionVectorKind::Fiq
    }
}

fn code_of(e: &ExceptionGraphEdge) -> (r: u64)
    ensures
        r == edge_code(*e),
{
    let kind: u64 = match e.kind {
        ExceptionGraphEdgeKind::SharedHandler => 0,
        ExceptionGraphEdgeKind::ExceptionReturn => 1,
    };
    let target: u64 = match e.to {
        None => 0,
        Some(k) => kind_number(k) + 1,
    };
    kind_number(e.from) * 0x20_0000_0000 + kind * 0x10_0000_0000 + (e.address as u64) * 8 + target
}

fn edge_of(c: u64) -> (r: ExceptionGraphEdge)
    ensures
        r == decode_edge(c as int),
{
    let low = c % 8;
    let to = if low == 0 {
        None
    } else {
        Some(kind_numbered(low - 1))
    };
    let kind = if (c / 0x10_0000_0000) % 2 == 0 {
        ExceptionGraphEdgeKind::SharedHandler
    } else {
        ExceptionGraphEdgeKind::ExceptionReturn
    };
    ExceptionGraphEdge { from: kind_numbered(c / 0x20_0000_0000), to, kind, address: ((c % 0x10_0000_0000) / 8) as u32 }
}

proof fn lemma_push_keeps(s: Seq<ExceptionGraphEdge>, e: ExceptionGraphEdge)
    ensures
        forall|x: ExceptionGraphEdge| s.contains(x) ==> #[trigger] s.push(e).contains(x),
        s.push(e).contains(e),
{
    assert forall|x: ExceptionGraphEdge| s.contains(x) implies #[trigger] s.push(e).contains(x) by {
        let w = choose|w: int| 0 <= w < s.len() && s[w] == x;
        assert(s.push(e)[w] == x);
    }
    assert(s.push(e)[s.len() as int] == e);
}

fn holds(p: &Program, key: BlockKey) -> (r: bool)
    ensures
        r == holds_key(*p, key),
{
    let mut b: usize = 0;
    while b < p.cfg.blocks.len()
        invariant
            b <= p.cfg.blocks@.len(),
            forall|c: int| 0 <= c < b ==> (#[trigger] p.cfg.blocks@[c]).key != key,
        decreases p.cfg.blocks@.len() - b,
    {
        if p.cfg.blocks[b].key == key {
            return true;
        }
        b = b + 1;
    }
    false
}

fn owner_of(nodes: &Vec<ExceptionGraphNode>, i: usize, key: BlockKey) -> (r: Option<usize>)
    requires
        i <= nodes@.len(),
    ensures
        match r {
            Some(j) => j < i && owner_from(nodes@, 0, i as int, key) == Some(j as int),
            None => owner_from(nodes@, 0, i as int, key) is None,
        },
{
    let mut j: usize = 0;
    while j < i
        invariant
            j <= i <= nodes@.len(),
            owner_from(nodes@, 0, i as int, key) == owner_from(nodes@, j as int, i as int, key),
        decreases i - j,
    {
        if holds(&nodes[j].program, key) {
            return Some(j);
        }
        j = j + 1;
    }
    None
}

/// The edges that the nodes call for, each once, in the order of `edge_code`.
pub fn graph_edges(nodes: &Vec<ExceptionGraphNode>) -> (r: Vec<ExceptionGraphEdge>)
    ensures
        forall|a: int, b: int| 0 <= a < b < r@.len() ==> edge_code(r@[a]) < edge_code(r@[b]),
        forall|e: ExceptionGraphEdge| r@.contains(e) <==> graph_edge(nodes@, e),
{
    let mut codes: Vec<u64> = Vec::new();
    let ghost mut made: Seq<ExceptionGraphEdge> = Seq::empty();
    let mut i: usize = 0;
    while i < nodes.len()
        invariant
            i <= nodes@.len(),
            codes@.len() == made.len(),
            forall|k: int| 0 <= k < made.len() ==> codes@[k] == edge_code(#[trigger] made[k]),
            forall|k: int| 0 <= k < made.len() ==> graph_edge(nodes@, #[trigger] made[k]),
            forall|i2: int, b: int| 0 <= i2 < i && (#[trigger] shared_edge(nodes@, i2, b)) is Some ==> made.contains(
                shared_edge(nodes@, i2, b).unwrap(),
            ),
            forall|i2: int, s: int| 0 <= i2 < i && (#[trigger] return_edge(nodes@, i2, s)) is Some ==> made.contains(
                return_edge(nodes@, i2, s).unwrap(),
            ),
        decreases nodes@.len() - i,
    {
        let mut b: usize = 0;
        while b < nodes[i].program.cfg.blocks.len()
            invariant
                i < nodes@.len(),
                b <= nodes@[i as int].program.cfg.blocks@.len(),
                codes@.len() == made.len(),
                forall|k: int| 0 <= k < made.len() ==> codes@[k] == edge_code(#[trigger] made[k]),
                forall|k: int| 0 <= k < made.len() ==> graph_edge(nodes@, #[trigger] made[k]),
                forall|i2: int, b2: int| 0 <= i2 < i && (#[trigger] shared_edge(nodes@, i2, b2)) is Some ==> made.contains(
                    shared_edge(nodes@, i2, b2).unwrap(),
                ),
                forall|i2: int, s: int| 0 <= i2 < i && (#[trigger] return_edge(nodes@, i2, s)) is Some ==> made.contains(
                    return_edge(nodes@, i2, s).unwrap(),
                ),
                forall|b2: int| 0 <= b2 < b && (#[trigger] shared_edge(nodes@, i as int, b2)) is Some ==> made.contains(
                    shared_edge(nodes@, i as int, b2).unwrap(),
                ),
            decreases nodes@[i as int].program.cfg.blocks@.len() - b,
        {
            let key = nodes[i].program.cfg.blocks[b].key;
            match owner_of(nodes, i, key) {
                Some(j) => {
                    let e = ExceptionGraphEdge {
                        from: nodes[i].kind,
                        to: Some(nodes[j].kind),
                        kind: ExceptionGraphEdgeKind::SharedHandler,
                        address: key.address,
                    };
                    codes.push(code_of(&e));
                    proof {
                        assert(shared_edge(nodes@, i as int, b as int) == Some(e));
                        lemma_push_keeps(made, e);
                        made = made.push(e);
                    }
                },
                None => {
                    proof {
                        assert(shared_edge(nodes@, i as int, b as int) is None);
                    }
                },
            }
            b = b + 1;
        }
        let mut s: usize = 0;
        while s < nodes[i].exception_return_sites.len()
            invariant
                i < nodes@.len(),
                s <= nodes@[i as int].exception_return_sites@.len(),
                codes@.len() == made.len(),
                forall|k: int| 0 <= k < made.len() ==> codes@[k] == edge_code(#[trigger] made[k]),
                forall|k: int| 0 <= k < made.len() ==> graph_edge(nodes@, #[trigger] made[k]),
                forall|i2: int, b2: int| 0 <= i2 <= i && (#[trigger] shared_edge(nodes@, i2, b2)) is Some ==> made.contains(
                    shared_edge(nodes@, i2, b2).unwrap(),
                ),
                forall|i2: int, s2: int| 0 <= i2 < i && (#[trigger] return_edge(nodes@, i2, s2)) is Some ==> made.contains(
                    return_edge(nodes@, i2, s2).unwrap(),
                ),
                forall|s2: int| 0 <= s2 < s && (#[trigger] return_edge(nodes@, i as int, s2)) is Some ==> made.contains(
                    return_edge(nodes@, i as int, s2).unwrap(),
                ),
            decreases nodes@[i as int].exception_return_sites@.len() - s,
        {
            let e = ExceptionGraphEdge {
                from: nodes[i].kind,
                to: None,
                kind: ExceptionGraphEdgeKind::ExceptionReturn,
                address: nodes[i].exception_return_sites[s],
            };
            codes.push(code_of(&e));
            proof {
                assert(return_edge(nodes@, i as int, s as int) == Some(e));
                lemma_push_keeps(made, e);
                made = made.push(e);
            }
            s = s + 1;
        }
        i = i + 1;
    }
    let ghost unsorted = codes@;
    let sorted = sorted_distinct(codes);
    let mut out: Vec<ExceptionGraphEdge> = Vec::new();
    let mut k: usize = 0;
    while k < sorted.len()
        invariant
            k <= sorted@.len(),
            out@.len() == k,
            forall|m: int| 0 <= m < k ==> #[trigger] out@[m] == decode_edge(sorted@[m] as int),
        decreases sorted@.len() - k,
    {
        out.push(edge_of(sorted[k]));
        k = k + 1;
    }
    proof {
        assert forall|m: int| 0 <= m < sorted@.len() implies #[trigger] edge_code(out@[m]) == sorted@[m] && graph_edge(nodes@, out@[m]) by {
            assert(sorted@.contains(sorted@[m]));
            assert(unsorted.contains(sorted@[m]));
            let w = choose|w: int| 0 <= w < unsorted.len() && unsorted[w] == sorted@[m];
            lemma_decode_edge(made[w]);
        }
        assert forall|e: ExceptionGraphEdge| graph_edge(nodes@, e) implies out@.contains(e) by {
            if exists|i2: int, b2: int| #[trigger] shared_edge(nodes@, i2, b2) == Some(e) {
                let (i2, b2) = choose|i2: int, b2: int| #[trigger] shared_edge(nodes@, i2, b2) == Some(e);
                assert(made.contains(e));
            } else {
                let (i2, s2) = choose|i2: int, s2: int| #[trigger] return_edge(nodes@, i2, s2) == Some(e);
                assert(made.contains(e));
            }
            let w = choose|w: int| 0 <= w < made.len() && made[w] == e;
            assert(unsorted[w] == edge_code(e));
            assert(unsorted.contains(unsorted[w]));
            assert(sorted@.contains(unsorted[w]));
            let m = choose|m: int| 0 <= m < sorted@.len() && sorted@[m] == unsorted[w];
            lemma_decode_edge(e);
            assert(out@[m] == e);
        }
        assert forall|e: ExceptionGraphEdge| out@.contains(e) implies graph_edge(nodes@, e) by {
            let m = choose|m: int| 0 <= m < out@.len() && out@[m] == e;
            assert(edge_code(out@[m]) == sorted@[m]);
        }
        assert forall|a: int, b: int| 0 <= a < b < out@.len() implies edge_code(out@[a]) < edge_code(out@[b]) by {
            assert(edge_code(out@[a]) == sorted@[a]);
            assert(edge_code(out@[b]) == sorted@[b]);
        }
    }
    out
}

/// Why analysing one vector's mapping failed with this error.
pub open spec fn analysis_failure(image: Seq<u8>, m: ImageMapping, e: AnalysisError) -> bool {
    match e {
        AnalysisError::InvalidEntry(v) => mapping_refused(image, m) && v == m.entry,
        AnalysisError::Decode(d) => !mapping_refused(image, m) && exists|k: BlockKey|
            #[trigger] reached(image, m, entry_key_of(m), k) && mapping_contains(m, k.address) && decode_at_spec(image, k, m) == Err::<
                Instruction,
                DecodeError,
            >(d),
        AnalysisError::InvalidCfg(v) => !mapping_refused(image, m) && (v is InstructionCountMismatch || v is UnreachableBlock)
            && graph_refused(image, m, v),
        AnalysisError::EntryMismatch { .. } => false,
    }
}

/// The graph holds one faithful node per vector, in architectural order, and
/// exactly the edges those nodes call for.
pub open spec fn graph_faithful(image: Seq<u8>, m: ImageMapping, g: ExceptionGraph) -> bool {
    &&& g.image == vector_mapping(m, ExceptionVectorKind::Fiq)
    &&& g.nodes@.len() == 6
    &&& forall|i: int| 0 <= i < 6 ==> node_faithful(image, m, all_kinds()[i], #[trigger] g.nodes@[i])
    &&& forall|a: int, b: int| 0 <= a < b < g.edges@.len() ==> edge_code(g.edges@[a]) < edge_code(g.edges@[b])
    &&& forall|e: ExceptionGraphEdge| g.edges@.contains(e) <==> graph_edge(g.nodes@, e)
}

/// Analyses each architectural exception vector as its own root and relates
/// the resulting programs by the handlers they share and the exception
/// returns they make. The first vector whose analysis fails decides the error.
pub fn analyze_exception_graph(image: &[u8], mapping: ImageMapping) -> (r: Result<ExceptionGraph, AnalysisError>)
    ensures
        r matches Ok(g) ==> graph_faithful(image@, mapping, g) && forall|i: int|
            0 <= i < 6 ==> !mapping_refused(image@, vector_mapping(mapping, #[trigger] all_kinds()[i])),
        r matches Err(e) ==> exists|i: int|
            0 <= i < 6 && analysis_failure(image@, vector_mapping(mapping, #[trigger] all_kinds()[i]), e) && forall|l: int|
                0 <= l < i ==> !mapping_refused(image@, vector_mapping(mapping, #[trigger] all_kinds()[l])),
{
    let kinds = ExceptionVectorKind::all();
    let mut m = mapping;
    m.kind = ImageKind::Bios;
    let mut nodes: Vec<ExceptionGraphNode> = Vec::new();
    let mut idx: usize = 0;
    while idx < 6
        invariant
            idx <= 6,
            kinds@ == all_kinds(),
            m.kind == ImageKind::Bios,
            m.base == mapping.base,
            m.size == mapping.size,
            nodes@.len() == idx,
            idx > 0 ==> m == vector_mapping(mapping, all_kinds()[idx - 1]),
            forall|j: int| 0 <= j < idx ==> node_faithful(image@, mapping, all_kinds()[j], #[trigger] nodes@[j]),
            forall|j: int| 0 <= j < idx ==> !mapping_refused(image@, vector_mapping(mapping, #[trigger] all_kinds()[j])),
        decreases 6 - idx,
    {
        let kind = kinds[idx];
        m.entry = kind.vector();
        m.entry_mode = Mode::Arm;
        proof {
            assert(m == vector_mapping(mapping, kind));
        }
        let program = match analyze_with_mapping(image, m) {
            Ok(p) => p,
            Err(e) => {
                proof {
                    assert(analysis_failure(image@, vector_mapping(mapping, all_kinds()[idx as int]), e));
                }
                return Err(e);
            },
        };
        let sites = exception_return_sites(&program);
        nodes.push(ExceptionGraphNode { kind, vector: kind.vector(), program, exception_return_sites: sites });
        idx = idx + 1;
    }
    let edges = graph_edges(&nodes);
    Ok(ExceptionGraph { image: m, nodes, edges })
}

} // verus!
