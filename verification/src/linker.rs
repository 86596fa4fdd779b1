//! Linking generated blocks by address and mode, and the edges between them.
use vstd::prelude::*;

use crate::cfg::{BasicBlock, ControlFlowGraph, Program};
use crate::codegen::common::{block_name_text, mode_bool};
use crate::codegen::terminators::graph_closed;
use crate::decoder::Mode;
use crate::text::{hex_padded, push_decimal, push_hex};

verus! {

/// Where a generated block starts, and in which mode.
#[derive(Debug, Clone, Copy, PartialEq, Eq, Hash, Structural)]
pub struct LinkedBlockKey {
    pub address: u32,
    pub mode: Mode,
}

/// A generated block and the symbol of its function.
#[derive(Debug, Clone, PartialEq, Eq)]
pub struct LinkedBlock {
    pub key: LinkedBlockKey,
    pub symbol: String,
}

#[derive(Debug, Clone, Copy, PartialEq, Eq, Structural)]
pub enum LinkError {
    DuplicateBlock(LinkedBlockKey),
    MissingTarget(LinkedBlockKey),
}

/// The symbol of block `id` at `address` in `mode`.
pub fn generated_block_symbol(id: u32, address: u32, mode: Mode) -> (r: String)
    ensures
        r@ == block_name_text(id as nat, mode, address),
{
    let mut s = String::new();
    s.append("block_");
    push_decimal(&mut s, id as usize);
    s.append("_");
    if mode_bool(mode) {
        s.append("thumb");
    } else {
        s.append("arm");
    }
    s.append("_");
    push_hex(&mut s, address, 8);
    s
}

/// The key of a graph block.
pub open spec fn linked_key(b: BasicBlock) -> LinkedBlockKey {
    LinkedBlockKey { address: b.key.address, mode: b.key.mode }
}

/// The symbol of a graph block.
pub open spec fn symbol_of(b: BasicBlock) -> Seq<char> {
    block_name_text((b.id.0 as u32) as nat, b.key.mode, b.key.address)
}

/// No two blocks of the graph share an address and mode.
pub open spec fn graph_keys_distinct(cfg: ControlFlowGraph) -> bool {
    forall|i: int, j: int| 0 <= i < j < cfg.blocks@.len() ==> (#[trigger] cfg.blocks@[i]).key != (#[trigger] cfg.blocks@[j]).key
}

/// The symbol of each block key of the graph.
pub open spec fn program_symbols(cfg: ControlFlowGraph) -> Map<LinkedBlockKey, Seq<char>> {
    Map::new(
        |k: LinkedBlockKey| exists|i: int| 0 <= i < cfg.blocks@.len() && linked_key(#[trigger] cfg.blocks@[i]) == k,
        |k: LinkedBlockKey| symbol_of(cfg.blocks@[choose|i: int| 0 <= i < cfg.blocks@.len() && linked_key(#[trigger] cfg.blocks@[i]) == k]),
    )
}

/// `e` is the edge from block `b` to its successor `s`.
pub open spec fn edge_at(cfg: ControlFlowGraph, e: (LinkedBlockKey, LinkedBlockKey), b: int, s: int) -> bool {
    &&& 0 <= b < cfg.blocks@.len()
    &&& 0 <= s < cfg.blocks@[b].successors@.len()
    &&& e == (linked_key(cfg.blocks@[b]), linked_key(cfg.blocks@[cfg.blocks@[b].successors@[s].0 as int]))
}

/// `e` is an edge of a block before `b`, or of block `b` before successor `s`.
pub open spec fn edge_before(cfg: ControlFlowGraph, e: (LinkedBlockKey, LinkedBlockKey), b: int, s: int) -> bool {
    exists|bi: int, si: int| #[trigger] edge_at(cfg, e, bi, si) && (bi < b || (bi == b && si < s))
}

/// Every edge of the graph, between block keys.
pub open spec fn program_edges(cfg: ControlFlowGraph) -> Set<(LinkedBlockKey, LinkedBlockKey)> {
    Set::new(|e: (LinkedBlockKey, LinkedBlockKey)| exists|bi: int, si: int| #[trigger] edge_at(cfg, e, bi, si))
}

/// Blocks by key, each with its symbol, and the edges linked between them.
pub struct GeneratedBlockLinker {
    blocks: Vec<LinkedBlock>,
    linked_edges: Vec<(LinkedBlockKey, LinkedBlockKey)>,
}

impl GeneratedBlockLinker {
    /// The symbol of each inserted key.
    pub closed spec fn symbols(self) -> Map<LinkedBlockKey, Seq<char>> {
        Map::new(
            |k: LinkedBlockKey| exists|i: int| 0 <= i < self.blocks@.len() && #[trigger] self.blocks@[i].key == k,
            |k: LinkedBlockKey| self.blocks@[choose|i: int| 0 <= i < self.blocks@.len() && #[trigger] self.blocks@[i].key == k].symbol@,
        )
    }

    /// The linked edges.
    pub closed spec fn edges(self) -> Set<(LinkedBlockKey, LinkedBlockKey)> {
        self.linked_edges@.to_set()
    }

    /// No key is inserted twice, no edge linked twice, and every edge joins
    /// inserted keys.
    pub closed spec fn wf(self) -> bool {
        &&& forall|i: int, j: int| 0 <= i < j < self.blocks@.len() ==> (#[trigger] self.blocks@[i]).key != (#[trigger] self.blocks@[j]).key
        &&& self.linked_edges@.no_duplicates()
        &&& forall|e: (LinkedBlockKey, LinkedBlockKey)|
            #[trigger] self.linked_edges@.contains(e) ==> self.symbols().dom().contains(e.0) && self.symbols().dom().contains(e.1)
    }

    proof fn lemma_symbol_at(self, i: int)
        requires
            self.wf(),
            0 <= i < self.blocks@.len(),
        ensures
            self.symbols().dom().contains(self.blocks@[i].key),
            self.symbols()[self.blocks@[i].key] == self.blocks@[i].symbol@,
    {
        let k = self.blocks@[i].key;
        assert(self.symbols().dom().contains(k));
        let j = choose|j: int| 0 <= j < self.blocks@.len() && #[trigger] self.blocks@[j].key == k;
        if j != i {
            if j < i {
                assert(self.blocks@[j].key != self.blocks@[i].key);
            } else {
                assert(self.blocks@[i].key != self.blocks@[j].key);
            }
        }
    }

    pub fn new() -> (r: Self)
        ensures
            r.wf(),
            r.symbols() == Map::<LinkedBlockKey, Seq<char>>::empty(),
            r.edges() == Set::<(LinkedBlockKey, LinkedBlockKey)>::empty(),
    {
        let r = GeneratedBlockLinker { blocks: Vec::new(), linked_edges: Vec::new() };
        proof {
            assert(r.symbols() =~= Map::<LinkedBlockKey, Seq<char>>::empty());
            assert(r.edges() =~= Set::<(LinkedBlockKey, LinkedBlockKey)>::empty());
        }
        r
    }

    fn position(&self, key: LinkedBlockKey) -> (r: Option<usize>)
        requires
            self.wf(),
        ensures
            r is None <==> !self.symbols().dom().contains(key),
            r matches Some(i) ==> i < self.blocks@.len() && self.blocks@[i as int].key == key,
    {
        let mut i: usize = 0;
        while i < self.blocks.len()
            invariant
                i <= self.blocks@.len(),
                forall|j: int| 0 <= j < i ==> (#[trigger] self.blocks@[j]).key != key,
            decreases self.blocks@.len() - i,
        {
            if self.blocks[i].key.address == key.address && self.blocks[i].key.mode == key.mode {
                return Some(i);
            }
            i = i + 1;
        }
        None
    }

    fn add(&mut self, block: LinkedBlock) -> (r: Result<(), LinkError>)
        requires
            old(self).wf(),
        ensures
            final(self).wf(),
            old(self).symbols().dom().contains(block.key) ==> final(self).blocks@ == old(self).blocks@,
            !old(self).symbols().dom().contains(block.key) ==> final(self).blocks@ == old(self).blocks@.push(block),
            old(self).symbols().dom().contains(block.key) ==> r == Err::<(), LinkError>(LinkError::DuplicateBlock(block.key))
                && final(self).symbols() == old(self).symbols() && final(self).edges() == old(self).edges(),
            !old(self).symbols().dom().contains(block.key) ==> r is Ok && final(self).symbols() == old(self).symbols().insert(
                block.key,
                block.symbol@,
            ) && final(self).edges() == old(self).edges(),
    {
        if self.position(block.key).is_some() {
            return Err(LinkError::DuplicateBlock(block.key));
        }
        let ghost before = *self;
        let key = block.key;
        let ghost sym = block.symbol@;
        let ghost pushed = block;
        self.blocks.push(block);
        proof {
            let n = before.blocks@.len() as int;
            assert(self.blocks@[n].key == key);
            assert forall|i: int, j: int| 0 <= i < j < self.blocks@.len() implies (#[trigger] self.blocks@[i]).key
                != (#[trigger] self.blocks@[j]).key by {
                if j == n {
                    assert(self.blocks@[i] == before.blocks@[i]);
                    assert(before.symbols().dom().contains(before.blocks@[i].key));
                }
            }
            assert forall|k: LinkedBlockKey| #[trigger] self.symbols().dom().contains(k) <==> before.symbols().dom().contains(k) || k == key by {
                if self.symbols().dom().contains(k) {
                    let i = choose|i: int| 0 <= i < self.blocks@.len() && #[trigger] self.blocks@[i].key == k;
                    if i < n {
                        assert(self.blocks@[i] == before.blocks@[i]);
                    }
                }
                if before.symbols().dom().contains(k) {
                    let i = choose|i: int| 0 <= i < before.blocks@.len() && #[trigger] before.blocks@[i].key == k;
                    assert(self.blocks@[i] == before.blocks@[i]);
                }
            }
            assert forall|k: LinkedBlockKey| #[trigger] self.symbols().dom().contains(k) implies self.symbols()[k] == before.symbols().insert(
                key,
                sym,
            )[k] by {
                let i = choose|i: int| 0 <= i < self.blocks@.len() && #[trigger] self.blocks@[i].key == k;
                self.lemma_symbol_at(i);
                if k != key {
                    assert(i < n);
                    assert(self.blocks@[i] == before.blocks@[i]);
                    before.lemma_symbol_at(i);
                }
            }
            assert(self.symbols() =~= before.symbols().insert(key, sym));
            assert(self.edges() =~= before.edges());
        }
        Ok(())
    }

    /// Adds a block; refuses a key already inserted, changing nothing.
    pub fn insert(&mut self, block: LinkedBlock) -> (r: Result<(), LinkError>)
        requires
            old(self).wf(),
        ensures
            final(self).wf(),
            old(self).symbols().dom().contains(block.key) ==> r == Err::<(), LinkError>(LinkError::DuplicateBlock(block.key))
                && final(self).symbols() == old(self).symbols() && final(self).edges() == old(self).edges(),
            !old(self).symbols().dom().contains(block.key) ==> r is Ok && final(self).symbols() == old(self).symbols().insert(
                block.key,
                block.symbol@,
            ) && final(self).edges() == old(self).edges(),
    {
        self.add(block)
    }

    /// Links `source` to `target` and gives the target's symbol; when
    /// either is not inserted, names it (the source first) and changes
    /// nothing.
    pub fn link(&mut self, source: LinkedBlockKey, target: LinkedBlockKey) -> (r: Result<&str, LinkError>)
        requires
            old(self).wf(),
        ensures
            final(self).wf(),
            final(self).symbols() == old(self).symbols(),
            old(self).symbols().dom().contains(source) && old(self).symbols().dom().contains(target) ==> (r matches Ok(s) && s@
                == old(self).symbols()[target]) && final(self).edges() == old(self).edges().insert((source, target)),
            !old(self).symbols().dom().contains(source) ==> r == Err::<&str, LinkError>(LinkError::MissingTarget(source)) && final(self).edges()
                == old(self).edges(),
            old(self).symbols().dom().contains(source) && !old(self).symbols().dom().contains(target) ==> r == Err::<&str, LinkError>(
                LinkError::MissingTarget(target),
            ) && final(self).edges() == old(self).edges(),
    {
        let s = self.position(source);
        let t = self.position(target);
        if s.is_none() || t.is_none() {
            return Err(LinkError::MissingTarget(if s.is_some() { target } else { source }));
        }
        let ti = t.unwrap();
        let ghost before = *self;
        let mut present = false;
        let mut e: usize = 0;
        while e < self.linked_edges.len()
            invariant
                e <= self.linked_edges@.len(),
                present <==> exists|j: int| 0 <= j < e && self.linked_edges@[j] == (source, target),
            decreases self.linked_edges@.len() - e,
        {
            let (a, b) = self.linked_edges[e];
            if a.address == source.address && a.mode == source.mode && b.address == target.address && b.mode == target.mode {
                present = true;
            }
            e = e + 1;
        }
        if !present {
            self.linked_edges.push((source, target));
        }
        proof {
            assert(self.blocks@ == before.blocks@);
            assert(self.symbols() =~= before.symbols());
            if present {
                assert(before.linked_edges@.contains((source, target)));
                assert(self.edges() =~= before.edges().insert((source, target)));
            } else {
                assert(!before.linked_edges@.contains((source, target)));
                assert(self.linked_edges@ == before.linked_edges@.push((source, target)));
                assert(self.edges() =~= before.edges().insert((source, target))) by {
                    assert forall|x: (LinkedBlockKey, LinkedBlockKey)| #[trigger] self.edges().contains(x) implies before.edges().insert(
                        (source, target),
                    ).contains(x) by {
                        let j = choose|j: int| 0 <= j < self.linked_edges@.len() && self.linked_edges@[j] == x;
                        if j < before.linked_edges@.len() {
                            assert(before.linked_edges@[j] == x);
                        }
                    }
                    assert forall|x: (LinkedBlockKey, LinkedBlockKey)| #[trigger] before.edges().insert((source, target)).contains(x) implies self.edges().contains(
                        x,
                    ) by {
                        if x == (source, target) {
                            assert(self.linked_edges@[before.linked_edges@.len() as int] == x);
                        } else {
                            let j = choose|j: int| 0 <= j < before.linked_edges@.len() && before.linked_edges@[j] == x;
                            assert(self.linked_edges@[j] == x);
                        }
                    }
                }
                assert forall|i: int, j: int| 0 <= i < j < self.linked_edges@.len() implies self.linked_edges@[i] != self.linked_edges@[j] by {
                    if j == before.linked_edges@.len() {
                        assert(before.linked_edges@[i] == self.linked_edges@[i]);
                    }
                }
            }
            assert forall|x: (LinkedBlockKey, LinkedBlockKey)| #[trigger] self.linked_edges@.contains(x) implies self.symbols().dom().contains(
                x.0,
            ) && self.symbols().dom().contains(x.1) by {
                let j = choose|j: int| 0 <= j < self.linked_edges@.len() && self.linked_edges@[j] == x;
                if j < before.linked_edges@.len() {
                    assert(before.linked_edges@[j] == x);
                    assert(before.linked_edges@.contains(x));
                }
            }
            before.lemma_symbol_at(ti as int);
        }
        Ok(self.blocks[ti].symbol.as_str())
    }

    /// Inserts every block of the graph under its symbol, then links each
    /// block to each of its successors; refuses a graph in which two blocks
    /// share an address and mode, naming the second one's key.
    pub fn from_program(program: &Program) -> (r: Result<Self, LinkError>)
        requires
            graph_closed(program.cfg),
        ensures
            r is Ok <==> graph_keys_distinct(program.cfg),
            r matches Ok(l) ==> l.wf() && l.symbols() == program_symbols(program.cfg) && l.edges() == program_edges(program.cfg) && l.symbols().dom().len()
                == program.cfg.blocks@.len(),
            r matches Err(e) ==> exists|i: int, j: int|
                0 <= i < j < program.cfg.blocks@.len() && e == LinkError::DuplicateBlock(linked_key(program.cfg.blocks@[j])) && (
                #[trigger] program.cfg.blocks@[i]).key == (#[trigger] program.cfg.blocks@[j]).key,
    {
        let cfg = &program.cfg;
        let mut linker = GeneratedBlockLinker { blocks: Vec::new(), linked_edges: Vec::new() };
        proof {
            assert(linker.edges() =~= Set::<(LinkedBlockKey, LinkedBlockKey)>::empty());
        }
        let mut b: usize = 0;
        while b < cfg.blocks.len()
            invariant
                *cfg == program.cfg,
                b <= cfg.blocks@.len(),
                linker.wf(),
                linker.blocks@.len() == b,
                forall|i: int| 0 <= i < b ==> (#[trigger] linker.blocks@[i]).key == linked_key(cfg.blocks@[i]) && linker.blocks@[i].symbol@
                    == symbol_of(cfg.blocks@[i]),
                forall|i: int, j: int| 0 <= i < j < b ==> (#[trigger] cfg.blocks@[i]).key != (#[trigger] cfg.blocks@[j]).key,
                linker.edges() == Set::<(LinkedBlockKey, LinkedBlockKey)>::empty(),
            decreases cfg.blocks@.len() - b,
        {
            let block = &cfg.blocks[b];
            let key = LinkedBlockKey { address: block.key.address, mode: block.key.mode };
            let ghost before = linker;
            let symbol = generated_block_symbol(block.id.0 as u32, block.key.address, block.key.mode);
            let ghost item = LinkedBlock { key, symbol };
            match linker.add(LinkedBlock { key, symbol }) {
                Err(e) => {
                    proof {
                        let i = choose|i: int| 0 <= i < before.blocks@.len() && #[trigger] before.blocks@[i].key == key;
                        assert(cfg.blocks@[i].key == cfg.blocks@[b as int].key);
                        assert(!graph_keys_distinct(*cfg));
                    }
                    return Err(e);
                },
                Ok(()) => {},
            }
            proof {
                assert(linker.blocks@[b as int].key == key);
                assert forall|i: int, j: int| 0 <= i < j < b + 1 implies (#[trigger] cfg.blocks@[i]).key != (#[trigger] cfg.blocks@[j]).key by {
                    if j == b {
                        assert(linker.blocks@[i].key != linker.blocks@[j].key);
                    }
                }
            }
            b = b + 1;
        }
        proof {
            assert forall|i: int| 0 <= i < cfg.blocks@.len() implies linker.symbols().dom().contains(linked_key(#[trigger] cfg.blocks@[i]))
                && linker.symbols()[linked_key(cfg.blocks@[i])] == symbol_of(cfg.blocks@[i]) by {
                linker.lemma_symbol_at(i);
            }
            assert forall|k: LinkedBlockKey| #[trigger] linker.symbols().dom().contains(k) implies program_symbols(*cfg).dom().contains(k) by {
                let i = choose|i: int| 0 <= i < linker.blocks@.len() && #[trigger] linker.blocks@[i].key == k;
                assert(linked_key(cfg.blocks@[i]) == k);
            }
            assert forall|k: LinkedBlockKey| #[trigger] program_symbols(*cfg).dom().contains(k) implies linker.symbols().dom().contains(k)
                && linker.symbols()[k] == program_symbols(*cfg)[k] by {
                let i = choose|i: int| 0 <= i < cfg.blocks@.len() && linked_key(#[trigger] cfg.blocks@[i]) == k;
                let j = choose|j: int| 0 <= j < cfg.blocks@.len() && linked_key(#[trigger] cfg.blocks@[j]) == k;
                if i != j {
                    if i < j {
                        assert(cfg.blocks@[i].key != cfg.blocks@[j].key);
                    } else {
                        assert(cfg.blocks@[j].key != cfg.blocks@[i].key);
                    }
                }
                linker.lemma_symbol_at(i);
            }
            assert(linker.symbols() =~= program_symbols(*cfg));
            linker.lemma_block_count();
        }
        let ghost symbols = linker.symbols();
        let mut i: usize = 0;
        while i < cfg.blocks.len()
            invariant
                *cfg == program.cfg,
                graph_closed(*cfg),
                i <= cfg.blocks@.len(),
                linker.wf(),
                linker.symbols() == symbols,
                symbols == program_symbols(*cfg),
                forall|j: int| 0 <= j < cfg.blocks@.len() ==> symbols.dom().contains(linked_key(#[trigger] cfg.blocks@[j])),
                forall|e: (LinkedBlockKey, LinkedBlockKey)| #[trigger] linker.edges().contains(e) <==> edge_before(*cfg, e, i as int, 0),
            decreases cfg.blocks@.len() - i,
        {
            let block = &cfg.blocks[i];
            let source = LinkedBlockKey { address: block.key.address, mode: block.key.mode };
            let mut s: usize = 0;
            while s < block.successors.len()
                invariant
                    *cfg == program.cfg,
                    graph_closed(*cfg),
                    i < cfg.blocks@.len(),
                    *block == cfg.blocks@[i as int],
                    source == linked_key(cfg.blocks@[i as int]),
                    s <= block.successors@.len(),
                    linker.wf(),
                    linker.symbols() == symbols,
                    forall|j: int| 0 <= j < cfg.blocks@.len() ==> symbols.dom().contains(linked_key(#[trigger] cfg.blocks@[j])),
                    forall|e: (LinkedBlockKey, LinkedBlockKey)| #[trigger] linker.edges().contains(e) <==> edge_before(*cfg, e, i as int, s as int),
                decreases block.successors@.len() - s,
            {
                proof {
                    assert(cfg.blocks@[i as int].successors@[s as int].0 < cfg.blocks@.len());
                }
                let target_block = &cfg.blocks[block.successors[s].0];
                let target = LinkedBlockKey { address: target_block.key.address, mode: target_block.key.mode };
                let ghost before = linker;
                proof {
                    assert(symbols.dom().contains(linked_key(cfg.blocks@[i as int])));
                    assert(symbols.dom().contains(linked_key(cfg.blocks@[block.successors@[s as int].0 as int])));
                }
                let _ = linker.link(source, target);
                proof {
                    assert(edge_at(*cfg, (source, target), i as int, s as int));
                    assert forall|e: (LinkedBlockKey, LinkedBlockKey)| #[trigger] linker.edges().contains(e) implies edge_before(*cfg, e, i as int, s + 1) by {
                        if e != (source, target) {
                            assert(before.edges().contains(e));
                            let (bi, si) = choose|bi: int, si: int| edge_at(*cfg, e, bi, si) && (bi < i || (bi == i && si < s));
                            assert(edge_at(*cfg, e, bi, si) && (bi < i || (bi == i && si < s + 1)));
                        } else {
                            assert(edge_at(*cfg, e, i as int, s as int) && (i < i || (i == i && s < s + 1)));
                        }
                    }
                    assert forall|e: (LinkedBlockKey, LinkedBlockKey)| edge_before(*cfg, e, i as int, s + 1) implies #[trigger] linker.edges().contains(e) by {
                        let (bi, si) = choose|bi: int, si: int| edge_at(*cfg, e, bi, si) && (bi < i || (bi == i && si < s + 1));
                        if !(bi == i && si == s) {
                            assert(edge_before(*cfg, e, i as int, s as int));
                        }
                    }
                }
                s = s + 1;
            }
            proof {
                assert forall|e: (LinkedBlockKey, LinkedBlockKey)| edge_before(*cfg, e, i + 1, 0) implies edge_before(*cfg, e, i as int, s as int) by {
                    let (bi, si) = choose|bi: int, si: int| edge_at(*cfg, e, bi, si) && (bi < i + 1 || (bi == i + 1 && si < 0));
                    if bi == i {
                        assert(si < s);
                    }
                }
                assert forall|e: (LinkedBlockKey, LinkedBlockKey)| edge_before(*cfg, e, i as int, s as int) implies edge_before(*cfg, e, i + 1, 0) by {
                    let (bi, si) = choose|bi: int, si: int| edge_at(*cfg, e, bi, si) && (bi < i || (bi == i && si < s));
                    assert(edge_at(*cfg, e, bi, si) && (bi < i + 1 || (bi == i + 1 && si < 0)));
                }
            }
            i = i + 1;
        }
        proof {
            assert forall|e: (LinkedBlockKey, LinkedBlockKey)| #[trigger] linker.edges().contains(e) implies program_edges(*cfg).contains(e) by {
                let (bi, si) = choose|bi: int, si: int| edge_at(*cfg, e, bi, si) && (bi < i || (bi == i && si < 0));
            }
            assert forall|e: (LinkedBlockKey, LinkedBlockKey)| #[trigger] program_edges(*cfg).contains(e) implies linker.edges().contains(e) by {
                let (bi, si) = choose|bi: int, si: int| edge_at(*cfg, e, bi, si);
                assert(edge_at(*cfg, e, bi, si) && (bi < i || (bi == i && si < 0)));
            }
            assert(linker.edges() =~= program_edges(*cfg));
        }
        Ok(linker)
    }

    /// The inserted block with this key.
    pub fn resolve(&self, key: LinkedBlockKey) -> (r: Option<&LinkedBlock>)
        requires
            self.wf(),
        ensures
            r is Some <==> self.symbols().dom().contains(key),
            r matches Some(b) ==> b.key == key && b.symbol@ == self.symbols()[key],
    {
        match self.position(key) {
            Some(i) => {
                proof {
                    self.lemma_symbol_at(i as int);
                }
                Some(&self.blocks[i])
            },
            None => None,
        }
    }

    pub fn is_linked(&self, key: LinkedBlockKey) -> (r: bool)
        requires
            self.wf(),
        ensures
            r == self.symbols().dom().contains(key),
    {
        self.position(key).is_some()
    }

    pub fn linked_edge_count(&self) -> (r: usize)
        requires
            self.wf(),
        ensures
            r == self.edges().len(),
    {
        proof {
            self.linked_edges@.unique_seq_to_set();
        }
        self.linked_edges.len()
    }

    proof fn lemma_block_count(self)
        requires
            self.wf(),
        ensures
            self.symbols().dom().len() == self.blocks@.len(),
            self.symbols().dom().finite(),
    {
        let keys = self.blocks@.map_values(|b: LinkedBlock| b.key);
        assert(keys.no_duplicates()) by {
            assert forall|i: int, j: int| 0 <= i < keys.len() && 0 <= j < keys.len() && i != j implies keys[i] != keys[j] by {
                if i < j {
                    assert(self.blocks@[i].key != self.blocks@[j].key);
                } else {
                    assert(self.blocks@[j].key != self.blocks@[i].key);
                }
            }
        }
        keys.unique_seq_to_set();
        assert(self.symbols().dom() =~= keys.to_set()) by {
            assert forall|k: LinkedBlockKey| #[trigger] self.symbols().dom().contains(k) implies keys.to_set().contains(k) by {
                let i = choose|i: int| 0 <= i < self.blocks@.len() && #[trigger] self.blocks@[i].key == k;
                assert(keys[i] == k);
            }
            assert forall|k: LinkedBlockKey| #[trigger] keys.to_set().contains(k) implies self.symbols().dom().contains(k) by {
                let i = choose|i: int| 0 <= i < keys.len() && keys[i] == k;
                assert(self.blocks@[i].key == k);
            }
        }
    }

    pub fn block_count(&self) -> (r: usize)
        requires
            self.wf(),
        ensures
            r == self.symbols().dom().len(),
    {
        proof {
            self.lemma_block_count();
        }
        self.blocks.len()
    }

    pub fn symbol_for(&self, key: LinkedBlockKey) -> (r: Option<&str>)
        requires
            self.wf(),
        ensures
            r is Some <==> self.symbols().dom().contains(key),
            r matches Some(s) ==> s@ == self.symbols()[key],
    {
        match self.position(key) {
            Some(i) => {
                proof {
                    self.lemma_symbol_at(i as int);
                }
                Some(self.blocks[i].symbol.as_str())
            },
            None => None,
        }
    }
}

impl Default for GeneratedBlockLinker {
    fn default() -> (r: Self)
        ensures
            r.wf(),
            r.symbols() == Map::<LinkedBlockKey, Seq<char>>::empty(),
            r.edges() == Set::<(LinkedBlockKey, LinkedBlockKey)>::empty(),
    {
        GeneratedBlockLinker::new()
    }
}

} // verus!
