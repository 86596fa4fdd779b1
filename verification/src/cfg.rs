//! Control-flow recovery: discovery of reachable code, partition into basic
//! blocks and validation of the result.
pub mod abstract_state;
pub mod discovery;
pub mod edges;
pub mod hardening;
pub mod model;
pub mod partition;

pub use hardening::ValidationError;
pub use model::{BasicBlock, BlockId, BlockKey, ControlFlowGraph, Program};

use vstd::prelude::*;

use crate::address_space::{gba_regions, mapping_contains, AddressSpace, ImageKind, ImageMapping};
use crate::decoder::{ArmOp, Condition, DecodeError, Instruction, InstructionKind, Mode, ThumbOp, ROM_BASE};
use crate::ir::lower_ops_spec;

use discovery::{discover_reachable, node_for};
use edges::{decode_at_spec, is_call_spec, is_control_boundary_spec, next_key_spec, successors_spec};
use hardening::{cfg_valid, owned, total_instructions, validate_cfg};
use model::{encode_key, key_code, key_of};
use partition::{block_ok, collect_leaders, discovered_at, is_leader, node_of, partition_blocks, slot_of};

verus! {

#[derive(Debug, Clone, Copy, PartialEq, Eq, Structural)]
pub enum AnalysisError {
    Decode(DecodeError),
    /// The mapping does not describe the image, or its entry lies outside it.
    InvalidEntry(u32),
    /// The entry location is not the start of a recovered block.
    EntryMismatch { entry: u32 },
    /// The recovered graph broke one of its invariants.
    InvalidCfg(ValidationError),
}

/// The mapping is refused: its size is not the image's, or the entry is
/// outside it.
pub open spec fn mapping_refused(image: Seq<u8>, mapping: ImageMapping) -> bool {
    mapping.size != (image.len() as u32) || !mapping_contains(mapping, mapping.entry)
}

/// Control may go on from `ins` only to the instruction after it.
pub open spec fn runs_on(ins: Instruction) -> bool {
    !is_call_spec(ins) && !is_control_boundary_spec(ins)
}

/// Some block of the graph starts at `k`.
pub open spec fn starts_block(blocks: Seq<BasicBlock>, k: BlockKey) -> bool {
    exists|c: int| 0 <= c < blocks.len() && (#[trigger] blocks[c]).key == k
}

/// How the code is cut into blocks: blocks come in key order (address, ARM
/// before Thumb), each block's successors are strictly increasing, and each
/// block is a maximal run: every instruction but its last lets control run
/// on into the next one, which starts no block; the last one is a branch,
/// call or other block end, or the next location starts a block or holds
/// no instruction of the graph.
#[verifier::opaque]
pub open spec fn blocks_maximal(blocks: Seq<BasicBlock>) -> bool {
    &&& forall|i: int, j: int| 0 <= i < j < blocks.len() ==> key_code((#[trigger] blocks[i]).key) < key_code((#[trigger] blocks[j]).key)
    &&& forall|b: int, s: int, t: int|
        0 <= b < blocks.len() && 0 <= s < t < blocks[b].successors@.len() ==> (#[trigger] blocks[b].successors@[s]).0
            < (#[trigger] blocks[b].successors@[t]).0
    &&& forall|b: int, m: int|
        0 <= b < blocks.len() && 0 <= m < blocks[b].instructions@.len() - 1 ==> runs_on(#[trigger] blocks[b].instructions@[m])
            && !starts_block(blocks, next_key_spec(blocks[b].instructions@[m]))
    &&& forall|b: int| 0 <= b < blocks.len() ==> {
        let last = (#[trigger] blocks[b]).instructions@.last();
        ||| !runs_on(last)
        ||| starts_block(blocks, next_key_spec(last))
        ||| !owned(blocks, next_key_spec(last))
    }
}

/// Block `c` ends in an instruction that does not just run on, and has an
/// edge to block `b`.
pub open spec fn led_from(blocks: Seq<BasicBlock>, c: int, b: int) -> bool {
    &&& 0 <= c < blocks.len()
    &&& !runs_on(blocks[c].instructions@.last())
    &&& blocks[c].successors@.contains(BlockId(b as usize))
}

/// Every block starts at a leader: the entry, or a location that a branch,
/// call or other block end leads to.
#[verifier::opaque]
pub open spec fn blocks_led(blocks: Seq<BasicBlock>, entry: BlockKey) -> bool {
    forall|b: int| 0 <= b < blocks.len() ==> (#[trigger] blocks[b]).key == entry || exists|c: int| #[trigger] led_from(blocks, c, b)
}

/// The locations an instruction leads to whatever the registers hold: its
/// direct target and, where control may come back or go on, the next
/// location; an exchange's register target is left out.
pub open spec fn fixed_successors(ins: Instruction, mapping: ImageMapping) -> Seq<BlockKey> {
    match ins.kind {
        InstructionKind::Arm(ArmOp::BranchExchange { link, .. }) => if link {
            seq![next_key_spec(ins)]
        } else {
            Seq::empty()
        },
        InstructionKind::Thumb(ThumbOp::BranchExchange { .. }) => Seq::empty(),
        _ => successors_spec(ins, Seq::empty(), mapping),
    }
}

/// Every location inside the image that a block's last instruction leads
/// to whatever the registers hold holds an instruction of the graph.
#[verifier::opaque]
pub open spec fn targets_owned(blocks: Seq<BasicBlock>, mapping: ImageMapping) -> bool {
    forall|b: int, k: BlockKey|
        0 <= b < blocks.len() && #[trigger] fixed_successors(blocks[b].instructions@.last(), mapping).contains(k)
            && mapping_contains(mapping, k.address) ==> owned(blocks, k)
}

/// The location the mapping's entry names.
pub open spec fn entry_key_of(mapping: ImageMapping) -> BlockKey {
    BlockKey { address: mapping.entry, mode: mapping.entry_mode }
}

/// A finished discovery from `entry`: every slot processed with its final
/// state, closed under the in-image successors computed from those states,
/// and every slot reached from the entry by a walk its state accounts for.
pub open spec fn discovery_closed(image: Seq<u8>, mapping: ImageMapping, entry: BlockKey, d: discovery::Discovery) -> bool {
    &&& d.wf(image, mapping)
    &&& d.len() >= 1
    &&& d.keys@[0] == entry
    &&& forall|i: int| 0 <= i < d.len() ==> discovery::clean(d.states@[i], #[trigger] d.done@[i])
    &&& forall|i: int| 0 <= i < d.len() ==> discovery::reached_with(image, mapping, entry, #[trigger] d.keys@[i], d.states@[i].regs@)
}

/// The blocks of a discovery: one per leader, in key order, each the
/// maximal fall-through run from its leader, with the edges of its last
/// instruction.
pub open spec fn partition_of(d: discovery::Discovery, entry: BlockKey, leaders: Seq<BlockKey>, bs: Seq<BasicBlock>) -> bool {
    &&& partition::strictly_increasing_keys(leaders)
    &&& forall|k: BlockKey| leaders.contains(k) <==> is_leader(d, entry, k)
    &&& bs.len() == leaders.len()
    &&& forall|b: int| 0 <= b < leaders.len() ==> block_ok(d, leaders, b, #[trigger] bs[b])
}

/// The graph built from a finished discovery of the image fails validation
/// with `e`.
pub open spec fn graph_refused(image: Seq<u8>, mapping: ImageMapping, e: ValidationError) -> bool {
    exists|d: discovery::Discovery, leaders: Seq<BlockKey>, cfg: ControlFlowGraph|
        #[trigger] discovery_closed(image, mapping, entry_key_of(mapping), d) && #[trigger] partition_of(
            d,
            entry_key_of(mapping),
            leaders,
            cfg.blocks@,
        ) && cfg.entry.0 < cfg.blocks@.len() && cfg.blocks@[cfg.entry.0 as int].key == entry_key_of(mapping) && hardening::error_sound(
            cfg,
            d.len(),
            e,
        ) && !cfg_valid(cfg, d.len())
}

/// What a recovered program promises about the image it came from.
pub open spec fn program_faithful(image: Seq<u8>, mapping: ImageMapping, p: Program) -> bool {
    let blocks = p.cfg.blocks@;
    &&& p.image == mapping
    &&& p.address_space.regions@ == gba_regions()
    &&& p.entry == p.cfg.entry
    &&& cfg_valid(p.cfg, total_instructions(blocks, blocks.len() as int))
    &&& blocks[p.entry.0 as int].key == (BlockKey { address: mapping.entry, mode: mapping.entry_mode })
    &&& blocks_maximal(blocks)
    &&& blocks_led(blocks, BlockKey { address: mapping.entry, mode: mapping.entry_mode })
    &&& targets_owned(blocks, mapping)
    &&& exists|d: discovery::Discovery, leaders: Seq<BlockKey>|
        #[trigger] discovery_closed(image, mapping, entry_key_of(mapping), d) && #[trigger] partition_of(d, entry_key_of(mapping), leaders, blocks)
    &&& forall|b: int, m: int| 0 <= b < blocks.len() && 0 <= m < blocks[b].instructions@.len() ==> {
        let ins = #[trigger] blocks[b].instructions@[m];
        &&& decode_at_spec(image, key_of(ins), mapping) == Ok::<Instruction, DecodeError>(ins)
        &&& blocks[b].ir@[m].address == ins.address
        &&& blocks[b].ir@[m].size == ins.size
        &&& blocks[b].ir@[m].ops@ == lower_ops_spec(ins)
    }
}

/// Recovers the control-flow graph of the code reachable from the mapping's
/// entry point. The result is `Ok` unless the mapping is refused, a location
/// reached from the entry does not decode (the `Decode` error names one), or
/// the graph partitioned from the finished discovery fails validation on
/// its instruction count or reachability (`InvalidCfg`; this happens when a
/// location was discovered through an edge that a later, more general
/// register state removed). On success the blocks are the maximal runs of a
/// finished discovery that start at its leaders, in key order.
pub fn analyze_with_mapping(image: &[u8], mapping: ImageMapping) -> (r: Result<Program, AnalysisError>)
    ensures
        (r == Err::<Program, AnalysisError>(AnalysisError::InvalidEntry(mapping.entry))) <==> mapping_refused(image@, mapping),
        r matches Err(AnalysisError::InvalidEntry(e)) ==> e == mapping.entry,
        !(r matches Err(AnalysisError::EntryMismatch { .. })),
        r matches Err(AnalysisError::Decode(e)) ==> !mapping_refused(image@, mapping) && exists|k: BlockKey|
            #[trigger] discovery::reached(image@, mapping, entry_key_of(mapping), k) && mapping_contains(mapping, k.address) && decode_at_spec(
                image@,
                k,
                mapping,
            ) == Err::<Instruction, DecodeError>(e),
        r matches Err(AnalysisError::InvalidCfg(e)) ==> !mapping_refused(image@, mapping) && (e is InstructionCountMismatch
            || e is UnreachableBlock) && graph_refused(image@, mapping, e),
        r matches Ok(p) ==> !mapping_refused(image@, mapping) && program_faithful(image@, mapping, p),
{
    if mapping.size != image.len() as u32 {
        return Err(AnalysisError::InvalidEntry(mapping.entry));
    }
    if !mapping.contains(mapping.entry) {
        return Err(AnalysisError::InvalidEntry(mapping.entry));
    }
    let entry_key = BlockKey { address: mapping.entry, mode: mapping.entry_mode };
    let discovered = match discover_reachable(image, entry_key, mapping) {
        Ok(d) => d,
        Err(e) => {
            return Err(AnalysisError::Decode(e));
        },
    };
    let ghost img = image@;
    proof {
        assert forall|i: int| 0 <= i < discovered.len() implies #[trigger] discovered.nodes@[i] is Some by {
            assert(discovery::clean(discovered.states@[i], discovered.done@[i]));
        }
    }
    let leaders = collect_leaders(&discovered, entry_key, Ghost(img), Ghost(mapping));
    proof {
        assert forall|b: int| 0 <= b < leaders@.len() implies discovered.has_slot(#[trigger] leaders@[b]) by {
            assert(leaders@.contains(leaders@[b]));
            if leaders@[b] == entry_key {
                assert(discovered.keys@[0] == entry_key);
            } else {
                let (i, m) = choose|i: int, m: int| #[trigger] partition::leader_edge(discovered, i, m) && discovered.nodes@[i]->0.successors@[m] == leaders@[b];
            }
        }
    }
    let (blocks, ids) = partition_blocks(&discovered, &leaders, Ghost(img), Ghost(mapping));
    let entry_id = match ids.get(&encode_key(entry_key)) {
        Some(id) => *id,
        None => {
            proof {
                assert(is_leader(discovered, entry_key, entry_key));
                assert(leaders@.contains(entry_key));
                let b = choose|b: int| 0 <= b < leaders@.len() && leaders@[b] == entry_key;
                assert(ids@.contains_key(model::key_code(leaders@[b]) as u64));
            }
            return Err(AnalysisError::EntryMismatch { entry: mapping.entry });
        },
    };
    proof {
        let c = model::key_code(entry_key) as u64;
        let b = choose|b: int| 0 <= b < leaders@.len() && model::key_code(leaders@[b]) == c;
        assert(ids@.contains_key(model::key_code(leaders@[b]) as u64));
        model::lemma_key_code_injective(leaders@[b], entry_key);
    }
    let blocks_len = blocks.len();
    let cfg = ControlFlowGraph { entry: model::BlockId(entry_id), blocks };
    match validate_cfg(&cfg, discovered.keys.len()) {
        Ok(()) => {},
        Err(v) => {
            proof {
                assert(leaders@.contains(entry_key)) by {
                    assert(is_leader(discovered, entry_key, entry_key));
                }
                assert(cfg.blocks@.len() == blocks_len);
                lemma_invalid_cfg_kind(discovered, leaders@, cfg, img, mapping, entry_key, discovered.keys@.len() as nat, v);
                assert(block_ok(discovered, leaders@, entry_id as int, cfg.blocks@[entry_id as int]));
                assert(discovery_closed(img, mapping, entry_key_of(mapping), discovered));
                assert(partition_of(discovered, entry_key_of(mapping), leaders@, cfg.blocks@));
                assert(!cfg_valid(cfg, discovered.len()));
            }
            return Err(AnalysisError::InvalidCfg(v));
        },
    }
    let address_space = AddressSpace::gba();
    let program = Program { entry: model::BlockId(entry_id), cfg, image: mapping, address_space };
    let block_count = program.cfg.blocks.len();
    proof {
        let bs = program.cfg.blocks@;
        assert(bs.len() == block_count);
        assert(block_ok(discovered, leaders@, entry_id as int, bs[entry_id as int]));
        lemma_partition_decoded(discovered, leaders@, bs, img, mapping);
        lemma_partition_shape(discovered, leaders@, bs, img, mapping, entry_key);
        assert(discovery_closed(img, mapping, entry_key_of(mapping), discovered));
        assert(partition_of(discovered, entry_key_of(mapping), leaders@, bs));
    }
    Ok(program)
}

/// The locations of the instructions before position `(n, lm)`.
pub open spec fn keys_before(blocks: Seq<BasicBlock>, n: int, lm: int) -> Set<BlockKey> {
    Set::new(
        |k: BlockKey|
            exists|b: int, m: int|
                hardening::valid_pos(blocks, b, m) && hardening::before_pos(b, m, n, lm) && key_of(#[trigger] blocks[b].instructions@[m])
                    == k,
    )
}

proof fn lemma_keys_before(blocks: Seq<BasicBlock>, n: int, lm: int)
    requires
        hardening::instructions_distinct(blocks),
        0 <= n <= blocks.len(),
        n < blocks.len() ==> 0 <= lm <= blocks[n].instructions@.len(),
        n == blocks.len() ==> lm == 0,
    ensures
        keys_before(blocks, n, lm).finite(),
        keys_before(blocks, n, lm).len() == total_instructions(blocks, n) + lm,
    decreases n, lm,
{
    if lm > 0 {
        lemma_keys_before(blocks, n, lm - 1);
        let k = key_of(blocks[n].instructions@[lm - 1]);
        let prev = keys_before(blocks, n, lm - 1);
        assert(!prev.contains(k)) by {
            if prev.contains(k) {
                let (b, m) = choose|b: int, m: int|
                    hardening::valid_pos(blocks, b, m) && hardening::before_pos(b, m, n, lm - 1) && key_of(#[trigger] blocks[b].instructions@[m]) == k;
                assert(key_of(blocks[b].instructions@[m]) != key_of(blocks[n].instructions@[lm - 1]));
            }
        }
        assert(keys_before(blocks, n, lm) =~= prev.insert(k)) by {
            assert forall|x: BlockKey| keys_before(blocks, n, lm).contains(x) implies prev.insert(k).contains(x) by {
                let (b, m) = choose|b: int, m: int|
                    hardening::valid_pos(blocks, b, m) && hardening::before_pos(b, m, n, lm) && key_of(#[trigger] blocks[b].instructions@[m]) == x;
                if !(b == n && m == lm - 1) {
                    assert(hardening::before_pos(b, m, n, lm - 1));
                }
            }
            assert(hardening::valid_pos(blocks, n, lm - 1) && hardening::before_pos(n, lm - 1, n, lm));
        }
    } else if n > 0 {
        lemma_keys_before(blocks, n - 1, blocks[n - 1].instructions@.len() as int);
        assert(keys_before(blocks, n, 0) =~= keys_before(blocks, n - 1, blocks[n - 1].instructions@.len() as int)) by {
            assert forall|x: BlockKey| keys_before(blocks, n, 0).contains(x) implies keys_before(
                blocks,
                n - 1,
                blocks[n - 1].instructions@.len() as int,
            ).contains(x) by {
                let (b, m) = choose|b: int, m: int|
                    hardening::valid_pos(blocks, b, m) && hardening::before_pos(b, m, n, 0) && key_of(#[trigger] blocks[b].instructions@[m]) == x;
                assert(hardening::before_pos(b, m, n - 1, blocks[n - 1].instructions@.len() as int));
            }
            assert forall|x: BlockKey| keys_before(blocks, n - 1, blocks[n - 1].instructions@.len() as int).contains(x) implies keys_before(
                blocks,
                n,
                0,
            ).contains(x) by {
                let (b, m) = choose|b: int, m: int|
                    hardening::valid_pos(blocks, b, m) && hardening::before_pos(b, m, n - 1, blocks[n - 1].instructions@.len() as int)
                        && key_of(#[trigger] blocks[b].instructions@[m]) == x;
                assert(hardening::before_pos(b, m, n, 0));
            }
        }
    } else {
        assert(keys_before(blocks, 0, 0) =~= Set::empty());
    }
}

/// Once the graph holds as many instructions as were discovered, each at a
/// discovered location and no two at one, every discovered location holds an
/// instruction of the graph.
proof fn lemma_discovered_owned(
    d: discovery::Discovery,
    bs: Seq<BasicBlock>,
    image: Seq<u8>,
    mapping: ImageMapping,
    leaders: Seq<BlockKey>,
)
    requires
        hardening::instructions_distinct(bs),
        total_instructions(bs, bs.len() as int) == d.len(),
        bs.len() == leaders.len(),
        forall|b: int| 0 <= b < leaders.len() ==> block_ok(d, leaders, b, #[trigger] bs[b]),
    ensures
        forall|j: int| 0 <= j < d.len() ==> owned(bs, #[trigger] d.keys@[j]),
{
    reveal(partition::run_ok);
    let n = d.len() as int;
    lemma_keys_before(bs, bs.len() as int, 0);
    let keys = keys_before(bs, bs.len() as int, 0);
    let f = |j: int| d.keys@[j];
    let slots = vstd::set_lib::set_int_range(0, n);
    vstd::set_lib::lemma_int_range(0, n);
    let found = slots.map(f);
    vstd::set_lib::lemma_map_size_bound(slots, found, f);
    assert(keys.subset_of(found)) by {
        assert forall|k: BlockKey| keys.contains(k) implies found.contains(k) by {
            let (b, m) = choose|b: int, m: int|
                hardening::valid_pos(bs, b, m) && hardening::before_pos(b, m, bs.len() as int, 0) && key_of(#[trigger] bs[b].instructions@[m]) == k;
            assert(block_ok(d, leaders, b, bs[b]));
            assert(partition::discovered_at(d, bs[b].instructions@[m]));
            let j = choose|j: int| 0 <= j < d.len() && d.keys@[j] == k;
            assert(slots.contains(j));
            assert(f(j) == k);
        }
    }
    vstd::set_lib::lemma_len_subset(keys, found);
    vstd::set_lib::lemma_subset_equality(keys, found);
    assert forall|j: int| 0 <= j < d.len() implies owned(bs, #[trigger] d.keys@[j]) by {
        assert(slots.contains(j));
        assert(found.contains(f(j)));
        assert(keys.contains(d.keys@[j]));
        let (b, m) = choose|b: int, m: int|
            hardening::valid_pos(bs, b, m) && hardening::before_pos(b, m, bs.len() as int, 0) && key_of(#[trigger] bs[b].instructions@[m]) == d.keys@[j];
    }
}

proof fn lemma_led_one(
    d: discovery::Discovery,
    leaders: Seq<BlockKey>,
    bs: Seq<BasicBlock>,
    image: Seq<u8>,
    mapping: ImageMapping,
    entry: BlockKey,
    b: int,
)
    requires
        d.shaped(image, mapping),
        partition::all_processed(d),
        bs.len() == leaders.len(),
        bs.len() <= usize::MAX,
        0 <= b < bs.len(),
        forall|c: int| 0 <= c < leaders.len() ==> block_ok(d, leaders, c, #[trigger] bs[c]),
        is_leader(d, entry, leaders[b]),
        leaders[b] != entry,
        forall|j: int| 0 <= j < d.len() ==> owned(bs, #[trigger] d.keys@[j]),
    ensures
        exists|c: int| #[trigger] led_from(bs, c, b),
{
    let k = leaders[b];
    let (i, m) = choose|i: int, m: int| #[trigger] partition::leader_edge(d, i, m) && d.nodes@[i]->0.successors@[m] == k;
    assert(node_for(image, d.keys@[i], d.done@[i]->0, mapping, d.nodes@[i]->0));
    let ins = d.nodes@[i]->0.instruction;
    assert(owned(bs, d.keys@[i]));
    let (c, mm) = choose|c: int, mm: int|
        0 <= c < bs.len() && 0 <= mm < bs[c].instructions@.len() && key_of(#[trigger] bs[c].instructions@[mm]) == d.keys@[i];
    assert(block_ok(d, leaders, c, bs[c]));
    let run = bs[c].instructions@;
    assert(partition::discovered_at(d, run[mm])) by {
        reveal(partition::run_ok);
    }
    partition::lemma_slot_unique(d, image, mapping, i);
    assert(run[mm] == ins);
    if mm < run.len() - 1 {
        assert(partition::links(d, leaders, run[mm], run[mm + 1])) by {
            reveal(partition::run_ok);
        }
        assert(false);
    }
    assert(run.last() == ins);
    if runs_on(ins) {
        assert(edges::is_fallthrough_spec(ins, d.nodes@[i]->0.successors@));
        assert(false);
    }
    assert(d.nodes@[i]->0.successors@[m] == leaders[b]);
    assert(partition::slot_of(d, key_of(run.last())) == i);
    assert(partition::node_of(d, key_of(run.last())) == d.nodes@[i]->0);
    assert(d.nodes@[i]->0.successors@.contains(leaders[b]));
    let bu = b as usize;
    assert(bu as int == b);
    assert(partition::block_successors_ok(d, leaders, run.last(), bs[c].successors@));
    assert(bs[c].successors@.contains(BlockId(bu)));
    assert(led_from(bs, c, b));
}

proof fn lemma_partition_led(
    d: discovery::Discovery,
    leaders: Seq<BlockKey>,
    bs: Seq<BasicBlock>,
    image: Seq<u8>,
    mapping: ImageMapping,
    entry: BlockKey,
)
    requires
        d.shaped(image, mapping),
        partition::all_processed(d),
        bs.len() == leaders.len(),
        bs.len() <= usize::MAX,
        forall|b: int| 0 <= b < leaders.len() ==> block_ok(d, leaders, b, #[trigger] bs[b]),
        forall|k: BlockKey| leaders.contains(k) <==> is_leader(d, entry, k),
        forall|j: int| 0 <= j < d.len() ==> owned(bs, #[trigger] d.keys@[j]),
    ensures
        blocks_led(bs, entry),
{
    reveal(blocks_led);
    assert forall|b: int| 0 <= b < bs.len() implies (#[trigger] bs[b]).key == entry || exists|c: int| #[trigger] led_from(bs, c, b) by {
        assert(block_ok(d, leaders, b, bs[b]));
        assert(leaders.contains(leaders[b]));
        if leaders[b] != entry {
            lemma_led_one(d, leaders, bs, image, mapping, entry, b);
        }
    }
}

proof fn lemma_partition_decoded(
    d: discovery::Discovery,
    leaders: Seq<BlockKey>,
    bs: Seq<BasicBlock>,
    image: Seq<u8>,
    mapping: ImageMapping,
)
    requires
        d.shaped(image, mapping),
        bs.len() == leaders.len(),
        forall|b: int| 0 <= b < leaders.len() ==> block_ok(d, leaders, b, #[trigger] bs[b]),
    ensures
        forall|b: int, m: int| 0 <= b < bs.len() && 0 <= m < bs[b].instructions@.len() ==> {
            let ins = #[trigger] bs[b].instructions@[m];
            &&& decode_at_spec(image, key_of(ins), mapping) == Ok::<Instruction, DecodeError>(ins)
            &&& bs[b].ir@[m].address == ins.address
            &&& bs[b].ir@[m].size == ins.size
            &&& bs[b].ir@[m].ops@ == lower_ops_spec(ins)
        },
{
    assert forall|b: int, m: int| 0 <= b < bs.len() && 0 <= m < bs[b].instructions@.len() implies {
        let ins = #[trigger] bs[b].instructions@[m];
        &&& decode_at_spec(image, key_of(ins), mapping) == Ok::<Instruction, DecodeError>(ins)
        &&& bs[b].ir@[m].address == ins.address
        &&& bs[b].ir@[m].size == ins.size
        &&& bs[b].ir@[m].ops@ == lower_ops_spec(ins)
    } by {
        assert(block_ok(d, leaders, b, bs[b]));
        reveal(partition::run_ok);
        let ins = bs[b].instructions@[m];
        assert(discovered_at(d, ins));
        let j = slot_of(d, key_of(ins));
        assert(d.nodes@[j] is Some);
        assert(node_for(image, d.keys@[j], d.done@[j]->0, mapping, d.nodes@[j]->0));
    }
}

proof fn lemma_partition_targets(
    d: discovery::Discovery,
    leaders: Seq<BlockKey>,
    bs: Seq<BasicBlock>,
    image: Seq<u8>,
    mapping: ImageMapping,
)
    requires
        d.wf(image, mapping),
        partition::all_processed(d),
        forall|i: int| 0 <= i < d.len() ==> discovery::clean(d.states@[i], #[trigger] d.done@[i]),
        bs.len() == leaders.len(),
        forall|b: int| 0 <= b < leaders.len() ==> block_ok(d, leaders, b, #[trigger] bs[b]),
        forall|j: int| 0 <= j < d.len() ==> owned(bs, #[trigger] d.keys@[j]),
    ensures
        targets_owned(bs, mapping),
{
    reveal(targets_owned);
    assert forall|b: int, k: BlockKey|
        0 <= b < bs.len() && #[trigger] fixed_successors(bs[b].instructions@.last(), mapping).contains(k) && mapping_contains(
            mapping,
            k.address,
        ) implies owned(bs, k) by {
        assert(block_ok(d, leaders, b, bs[b]));
        let run = bs[b].instructions@;
        let last = run.last();
        assert(partition::discovered_at(d, run[run.len() - 1])) by {
            reveal(partition::run_ok);
        }
        let j = slot_of(d, key_of(last));
        assert(node_for(image, d.keys@[j], d.done@[j]->0, mapping, d.nodes@[j]->0));
        let succ = d.nodes@[j]->0.successors@;
        let fixed = fixed_successors(last, mapping);
        let m = choose|m: int| 0 <= m < fixed.len() && fixed[m] == k;
        assert(succ.contains(k)) by {
            match last.kind {
                InstructionKind::Arm(ArmOp::BranchExchange { link, .. }) => {
                    assert(succ[succ.len() - 1] == k);
                },
                _ => {
                    assert(succ[m] == k);
                },
            }
        }
        let mm = choose|mm: int| 0 <= mm < succ.len() && succ[mm] == k;
        assert(d.closed_at(image, mapping, j));
        let after = abstract_state::transfer_spec(image, d.nodes@[j]->0.instruction, d.states@[j].regs@, mapping);
        assert(mapping_contains(mapping, d.nodes@[j]->0.successors@[mm].address));
        let jj = choose|jj: int|
            0 <= jj < d.len() && d.keys@[jj] == d.nodes@[j]->0.successors@[mm] && discovery::absorbs(d.states@[jj].regs@, after);
        assert(owned(bs, d.keys@[jj]));
    }
}

/// Two positions of the partition holding one location are one position:
/// each step back along a run leads to one location, and a run starts at a
/// leader that no run steps into.
proof fn lemma_position_unique(
    d: discovery::Discovery,
    leaders: Seq<BlockKey>,
    bs: Seq<BasicBlock>,
    image: Seq<u8>,
    mapping: ImageMapping,
    b1: int,
    m1: int,
    b2: int,
    m2: int,
)
    requires
        d.shaped(image, mapping),
        partition::strictly_increasing_keys(leaders),
        bs.len() == leaders.len(),
        forall|b: int| 0 <= b < leaders.len() ==> block_ok(d, leaders, b, #[trigger] bs[b]),
        hardening::valid_pos(bs, b1, m1),
        hardening::valid_pos(bs, b2, m2),
        key_of(bs[b1].instructions@[m1]) == key_of(bs[b2].instructions@[m2]),
    ensures
        b1 == b2 && m1 == m2,
    decreases m1 + m2,
{
    reveal(partition::run_ok);
    assert(block_ok(d, leaders, b1, bs[b1]));
    assert(block_ok(d, leaders, b2, bs[b2]));
    let r1 = bs[b1].instructions@;
    let r2 = bs[b2].instructions@;
    if m1 == 0 && m2 == 0 {
        if b1 != b2 {
            if b1 < b2 {
                assert(model::key_code(leaders[b1]) < model::key_code(leaders[b2]));
            } else {
                assert(model::key_code(leaders[b2]) < model::key_code(leaders[b1]));
            }
        }
    } else if m1 == 0 {
        assert(partition::links(d, leaders, r2[m2 - 1], r2[m2]));
        assert(leaders.contains(leaders[b1]));
        assert(false);
    } else if m2 == 0 {
        assert(partition::links(d, leaders, r1[m1 - 1], r1[m1]));
        assert(leaders.contains(leaders[b2]));
        assert(false);
    } else {
        let p1 = r1[m1 - 1];
        let p2 = r2[m2 - 1];
        assert(partition::links(d, leaders, p1, r1[m1]));
        assert(partition::links(d, leaders, p2, r2[m2]));
        assert(partition::discovered_at(d, p1));
        assert(partition::discovered_at(d, p2));
        let j1 = slot_of(d, key_of(p1));
        let j2 = slot_of(d, key_of(p2));
        partition::lemma_node_shape(d, image, mapping, j1);
        partition::lemma_node_shape(d, image, mapping, j2);
        assert(!is_call_spec(p1) && !is_call_spec(p2));
        assert(p1.mode == p2.mode);
        assert(p1.size == p2.size);
        assert(p1.address.wrapping_add(p1.size as u32) == p2.address.wrapping_add(p2.size as u32));
        assert(p1.address == p2.address);
        lemma_position_unique(d, leaders, bs, image, mapping, b1, m1 - 1, b2, m2 - 1);
    }
}

proof fn lemma_partition_well_formed(
    d: discovery::Discovery,
    leaders: Seq<BlockKey>,
    bs: Seq<BasicBlock>,
    i: int,
)
    requires
        bs.len() == leaders.len(),
        0 <= i < bs.len(),
        block_ok(d, leaders, i, bs[i]),
    ensures
        hardening::block_well_formed(bs[i], bs.len()),
{
    reveal(partition::run_ok);
    let ins = bs[i].instructions@;
    let succ = bs[i].successors@;
    assert forall|m: int| 0 <= m < ins.len() - 1 implies hardening::adjacent(#[trigger] ins[m], ins[m + 1]) by {
        assert(partition::links(d, leaders, ins[m], ins[m + 1]));
    }
    assert(partition::block_successors_ok(d, leaders, ins.last(), succ));
    assert forall|s: int| 0 <= s < succ.len() implies (#[trigger] succ[s]).0 < bs.len() by {
        let c = succ[s].0;
        assert(succ.contains(succ[s]));
        assert(BlockId(c) == succ[s]);
        assert(succ.contains(BlockId(c)));
        assert(succ.contains(BlockId(c)) <==> (c < leaders.len() && partition::node_of(d, key_of(ins.last())).successors@.contains(
            leaders[c as int],
        )));
    }
    assert forall|s: int, t: int| 0 <= s < t < succ.len() implies succ[s] != succ[t] by {
        assert(succ[s].0 < succ[t].0);
    }
}

/// The partition passes every check made on blocks one by one.
proof fn lemma_partition_passes(
    d: discovery::Discovery,
    leaders: Seq<BlockKey>,
    cfg: ControlFlowGraph,
    image: Seq<u8>,
    mapping: ImageMapping,
    entry: BlockKey,
)
    requires
        d.shaped(image, mapping),
        partition::strictly_increasing_keys(leaders),
        leaders.contains(entry),
        cfg.blocks@.len() == leaders.len(),
        cfg.entry.0 < cfg.blocks@.len(),
        forall|b: int| 0 <= b < leaders.len() ==> block_ok(d, leaders, b, #[trigger] cfg.blocks@[b]),
    ensures
        hardening::blocks_pass(cfg),
{
    let bs = cfg.blocks@;
    assert forall|i: int, j: int| 0 <= i < j < bs.len() implies (#[trigger] bs[i]).key != (#[trigger] bs[j]).key by {
        assert(block_ok(d, leaders, i, bs[i]));
        assert(block_ok(d, leaders, j, bs[j]));
        assert(model::key_code(leaders[i]) < model::key_code(leaders[j]));
    }
    assert forall|i: int| 0 <= i < bs.len() implies (#[trigger] bs[i]).id == BlockId(i as usize) by {
        assert(block_ok(d, leaders, i, bs[i]));
    }
    assert forall|i: int| 0 <= i < bs.len() implies hardening::block_well_formed(#[trigger] bs[i], bs.len()) by {
        lemma_partition_well_formed(d, leaders, bs, i);
    }
    assert forall|b1: int, m1: int, b2: int, m2: int|
        0 <= b1 < bs.len() && 0 <= b2 < bs.len() && 0 <= m1 < bs[b1].instructions@.len() && 0 <= m2 < bs[b2].instructions@.len() && (b1
            != b2 || m1 != m2) implies key_of(#[trigger] bs[b1].instructions@[m1]) != key_of(#[trigger] bs[b2].instructions@[m2]) by {
        if key_of(bs[b1].instructions@[m1]) == key_of(bs[b2].instructions@[m2]) {
            lemma_position_unique(d, leaders, bs, image, mapping, b1, m1, b2, m2);
        }
    }
    let e = choose|e: int| 0 <= e < leaders.len() && leaders[e] == entry;
}

/// A graph made by the partition fails validation only on the instruction
/// count or on reachability.
proof fn lemma_invalid_cfg_kind(
    d: discovery::Discovery,
    leaders: Seq<BlockKey>,
    cfg: ControlFlowGraph,
    image: Seq<u8>,
    mapping: ImageMapping,
    entry: BlockKey,
    expected: nat,
    v: ValidationError,
)
    requires
        d.shaped(image, mapping),
        partition::all_processed(d),
        partition::strictly_increasing_keys(leaders),
        forall|k: BlockKey| leaders.contains(k) <==> is_leader(d, entry, k),
        leaders.contains(entry),
        cfg.blocks@.len() == leaders.len(),
        cfg.blocks@.len() <= usize::MAX,
        cfg.entry.0 < cfg.blocks@.len(),
        forall|b: int| 0 <= b < leaders.len() ==> block_ok(d, leaders, b, #[trigger] cfg.blocks@[b]),
        hardening::error_in_order(cfg, expected, v),
        hardening::error_sound(cfg, expected, v),
    ensures
        v is InstructionCountMismatch || v is UnreachableBlock,
{
    lemma_partition_passes(d, leaders, cfg, image, mapping, entry);
    reveal(hardening::error_in_order);
    let bs = cfg.blocks@;
    if v is MissingEdge || v is UnexpectedEdge {
        let i = choose|i: int| 0 <= i < bs.len() && (#[trigger] bs[i]).id == (if v is MissingEdge {
            v->MissingEdge_block
        } else {
            v->UnexpectedEdge_block
        }) && !hardening::edges_ok(bs, bs[i]);
        lemma_block_edges(d, leaders, bs, image, mapping, entry, i);
    }
}

/// A block of the partition has an edge to every leader its last
/// instruction leads to.
proof fn lemma_edge_to_leader(
    d: discovery::Discovery,
    leaders: Seq<BlockKey>,
    bs: Seq<BasicBlock>,
    i: int,
    k: BlockKey,
)
    requires
        bs.len() == leaders.len(),
        bs.len() <= usize::MAX,
        0 <= i < bs.len(),
        forall|b: int| 0 <= b < leaders.len() ==> block_ok(d, leaders, b, #[trigger] bs[b]),
        leaders.contains(k),
        partition::node_of(d, key_of(bs[i].instructions@.last())).successors@.contains(k),
    ensures
        hardening::has_edge_to(bs, bs[i], k),
{
    assert(block_ok(d, leaders, i, bs[i]));
    let c = choose|c: int| 0 <= c < leaders.len() && leaders[c] == k;
    assert(block_ok(d, leaders, c, bs[c]));
    let cu = c as usize;
    assert(cu as int == c);
    let succ = bs[i].successors@;
    assert(succ.contains(BlockId(cu)) <==> (cu < leaders.len() && partition::node_of(d, key_of(bs[i].instructions@.last())).successors@.contains(
        leaders[cu as int],
    )));
    let s = choose|s: int| 0 <= s < succ.len() && succ[s] == BlockId(cu);
    assert(bs[succ[s].0 as int].key == k);
}

/// Every edge of a block of the partition leads to a leader that its last
/// instruction leads to.
proof fn lemma_edge_from_node(
    d: discovery::Discovery,
    leaders: Seq<BlockKey>,
    bs: Seq<BasicBlock>,
    i: int,
    s: int,
)
    requires
        bs.len() == leaders.len(),
        0 <= i < bs.len(),
        forall|b: int| 0 <= b < leaders.len() ==> block_ok(d, leaders, b, #[trigger] bs[b]),
        0 <= s < bs[i].successors@.len(),
    ensures
        partition::node_of(d, key_of(bs[i].instructions@.last())).successors@.contains(hardening::edge_key(bs, bs[i], s)),
        owned(bs, hardening::edge_key(bs, bs[i], s)),
{
    reveal(partition::run_ok);
    assert(block_ok(d, leaders, i, bs[i]));
    let succ = bs[i].successors@;
    let c = succ[s].0;
    assert(succ.contains(BlockId(c)));
    assert(succ.contains(BlockId(c)) <==> (c < leaders.len() && partition::node_of(d, key_of(bs[i].instructions@.last())).successors@.contains(
        leaders[c as int],
    )));
    assert(block_ok(d, leaders, c as int, bs[c as int]));
    let run = bs[c as int].instructions@;
    assert(key_of(run[0]) == leaders[c as int]);
    assert(0 < bs[c as int].instructions@.len());
}

/// An owned location that a block end leads to has an edge from the block.
proof fn lemma_end_edge(
    d: discovery::Discovery,
    leaders: Seq<BlockKey>,
    bs: Seq<BasicBlock>,
    entry: BlockKey,
    i: int,
    k: BlockKey,
)
    requires
        partition::all_processed(d),
        forall|x: BlockKey| leaders.contains(x) <==> is_leader(d, entry, x),
        bs.len() == leaders.len(),
        bs.len() <= usize::MAX,
        0 <= i < bs.len(),
        forall|b: int| 0 <= b < leaders.len() ==> block_ok(d, leaders, b, #[trigger] bs[b]),
        !edges::is_fallthrough_spec(bs[i].instructions@.last(), partition::node_of(d, key_of(bs[i].instructions@.last())).successors@),
        partition::node_of(d, key_of(bs[i].instructions@.last())).successors@.contains(k),
        owned(bs, k),
    ensures
        hardening::has_edge_to(bs, bs[i], k),
{
    reveal(partition::run_ok);
    assert(block_ok(d, leaders, i, bs[i]));
    let run = bs[i].instructions@;
    let last = run.last();
    assert(partition::discovered_at(d, run[run.len() - 1]));
    let j = slot_of(d, key_of(last));
    let succs = d.nodes@[j]->0.successors@;
    let m = choose|m: int| 0 <= m < succs.len() && succs[m] == k;
    let (c, q) = choose|c: int, q: int| 0 <= c < bs.len() && 0 <= q < bs[c].instructions@.len() && key_of(#[trigger] bs[c].instructions@[q]) == k;
    assert(block_ok(d, leaders, c, bs[c]));
    assert(partition::discovered_at(d, bs[c].instructions@[q]));
    assert(partition::leader_edge(d, j, m));
    assert(is_leader(d, entry, k));
    lemma_edge_to_leader(d, leaders, bs, i, k);
}

/// A block of the partition has no more edges than its last instruction
/// has successors.
proof fn lemma_edge_count(d: discovery::Discovery, leaders: Seq<BlockKey>, bs: Seq<BasicBlock>, i: int)
    requires
        partition::strictly_increasing_keys(leaders),
        bs.len() == leaders.len(),
        0 <= i < bs.len(),
        forall|b: int| 0 <= b < leaders.len() ==> block_ok(d, leaders, b, #[trigger] bs[b]),
    ensures
        bs[i].successors@.len() <= partition::node_of(d, key_of(bs[i].instructions@.last())).successors@.len(),
{
    assert(block_ok(d, leaders, i, bs[i]));
    let block = bs[i];
    let succs = partition::node_of(d, key_of(block.instructions@.last())).successors@;
    let t = block.successors@.map_values(|x: BlockId| bs[x.0 as int].key);
    assert(t.no_duplicates()) by {
        assert forall|a: int, b: int| 0 <= a < t.len() && 0 <= b < t.len() && a != b implies t[a] != t[b] by {
            let ca = block.successors@[a].0 as int;
            let cb = block.successors@[b].0 as int;
            lemma_edge_from_node(d, leaders, bs, i, a);
            lemma_edge_from_node(d, leaders, bs, i, b);
            if a < b {
                assert(ca < cb);
            } else {
                assert(cb < ca);
            }
            assert(block_ok(d, leaders, ca, bs[ca]));
            assert(block_ok(d, leaders, cb, bs[cb]));
            if ca < cb {
                assert(model::key_code(leaders[ca]) < model::key_code(leaders[cb]));
            } else {
                assert(model::key_code(leaders[cb]) < model::key_code(leaders[ca]));
            }
        }
    }
    t.unique_seq_to_set();
    assert(t.to_set().subset_of(succs.to_set())) by {
        assert forall|x: BlockKey| t.to_set().contains(x) implies succs.to_set().contains(x) by {
            let a = choose|a: int| 0 <= a < t.len() && t[a] == x;
            lemma_edge_from_node(d, leaders, bs, i, a);
            assert(t[a] == hardening::edge_key(bs, block, a));
        }
    }
    succs.lemma_cardinality_of_set();
    vstd::set_lib::lemma_len_subset(t.to_set(), succs.to_set());
}

/// The edges of each block of the partition are what its last instruction
/// can do.
proof fn lemma_block_edges(
    d: discovery::Discovery,
    leaders: Seq<BlockKey>,
    bs: Seq<BasicBlock>,
    image: Seq<u8>,
    mapping: ImageMapping,
    entry: BlockKey,
    i: int,
)
    requires
        d.shaped(image, mapping),
        partition::all_processed(d),
        partition::strictly_increasing_keys(leaders),
        forall|k: BlockKey| leaders.contains(k) <==> is_leader(d, entry, k),
        bs.len() == leaders.len(),
        bs.len() <= usize::MAX,
        0 <= i < bs.len(),
        forall|b: int| 0 <= b < leaders.len() ==> block_ok(d, leaders, b, #[trigger] bs[b]),
    ensures
        hardening::edges_ok(bs, bs[i]),
{
    assert(block_ok(d, leaders, i, bs[i]));
    let block = bs[i];
    let run = block.instructions@;
    let last = run.last();
    assert(partition::discovered_at(d, run[run.len() - 1])) by {
        reveal(partition::run_ok);
    }
    let j = slot_of(d, key_of(last));
    assert(node_for(image, d.keys@[j], d.done@[j]->0, mapping, d.nodes@[j]->0));
    let succs = partition::node_of(d, key_of(last)).successors@;
    let next = next_key_spec(last);
    let n = block.successors@.len();
    assert forall|s: int| 0 <= s < n implies succs.contains(#[trigger] hardening::edge_key(bs, block, s)) && owned(
        bs,
        hardening::edge_key(bs, block, s),
    ) by {
        lemma_edge_from_node(d, leaders, bs, i, s);
    }
    if runs_on(last) {
        assert(edges::is_fallthrough_spec(last, succs));
        assert(succs =~= seq![next]);
        if owned(bs, next) {
            let (c, q) = choose|c: int, q: int|
                0 <= c < bs.len() && 0 <= q < bs[c].instructions@.len() && key_of(#[trigger] bs[c].instructions@[q]) == next;
            assert(block_ok(d, leaders, c, bs[c]));
            assert(partition::discovered_at(d, bs[c].instructions@[q])) by {
                reveal(partition::run_ok);
            }
            assert(partition::ends_block(d, leaders, last));
            assert(succs[0] == next);
            lemma_edge_to_leader(d, leaders, bs, i, next);
        }
    } else {
        assert(!edges::is_fallthrough_spec(last, succs));
        match last.kind {
            InstructionKind::Arm(ArmOp::BranchExchange { link, .. }) => {
                lemma_edge_count(d, leaders, bs, i);
                if link && owned(bs, next) {
                    assert(succs[succs.len() - 1] == next);
                    lemma_end_edge(d, leaders, bs, entry, i, next);
                }
            },
            InstructionKind::Thumb(ThumbOp::BranchExchange { .. }) => {
                lemma_edge_count(d, leaders, bs, i);
            },
            InstructionKind::Arm(ArmOp::Unknown) | InstructionKind::Thumb(ThumbOp::Unknown) => {
                if n > 0 {
                    assert(succs.contains(hardening::edge_key(bs, block, 0)));
                }
            },
            InstructionKind::Arm(ArmOp::Branch { target, condition, link }) => {
                let to = BlockKey { address: target, mode: Mode::Arm };
                if owned(bs, next) && (condition != Condition::Al || link) {
                    assert(succs[1] == next);
                    lemma_end_edge(d, leaders, bs, entry, i, next);
                }
                if owned(bs, to) {
                    assert(succs[0] == to);
                    lemma_end_edge(d, leaders, bs, entry, i, to);
                }
            },
            InstructionKind::Thumb(ThumbOp::Branch { target, condition }) => {
                let to = BlockKey { address: target, mode: Mode::Thumb };
                if owned(bs, next) && condition != Condition::Al {
                    assert(succs[1] == next);
                    lemma_end_edge(d, leaders, bs, entry, i, next);
                }
                if owned(bs, to) {
                    assert(succs[0] == to);
                    lemma_end_edge(d, leaders, bs, entry, i, to);
                }
            },
            InstructionKind::Thumb(ThumbOp::BranchLink { target }) => {
                let to = BlockKey { address: target, mode: Mode::Thumb };
                if owned(bs, next) {
                    assert(succs[1] == next);
                    lemma_end_edge(d, leaders, bs, entry, i, next);
                }
                if owned(bs, to) {
                    assert(succs[0] == to);
                    lemma_end_edge(d, leaders, bs, entry, i, to);
                }
            },
            _ => {
                assert(succs =~= seq![next]);
                if owned(bs, next) {
                    assert(succs[0] == next);
                    lemma_end_edge(d, leaders, bs, entry, i, next);
                }
            },
        }
    }
}

proof fn lemma_partition_shape(
    d: discovery::Discovery,
    leaders: Seq<BlockKey>,
    bs: Seq<BasicBlock>,
    image: Seq<u8>,
    mapping: ImageMapping,
    entry: BlockKey,
)
    requires
        d.wf(image, mapping),
        forall|i: int| 0 <= i < d.len() ==> discovery::clean(d.states@[i], #[trigger] d.done@[i]),
        d.shaped(image, mapping),
        partition::all_processed(d),
        partition::strictly_increasing_keys(leaders),
        forall|k: BlockKey| leaders.contains(k) <==> is_leader(d, entry, k),
        bs.len() == leaders.len(),
        bs.len() <= usize::MAX,
        forall|b: int| 0 <= b < leaders.len() ==> block_ok(d, leaders, b, #[trigger] bs[b]),
        hardening::instructions_distinct(bs),
        total_instructions(bs, bs.len() as int) == d.len(),
    ensures
        blocks_maximal(bs),
        blocks_led(bs, entry),
        targets_owned(bs, mapping),
{
    lemma_partition_maximal(d, leaders, bs, image, mapping);
    lemma_discovered_owned(d, bs, image, mapping, leaders);
    lemma_partition_led(d, leaders, bs, image, mapping, entry);
    lemma_partition_targets(d, leaders, bs, image, mapping);
}

proof fn lemma_partition_maximal(
    d: discovery::Discovery,
    leaders: Seq<BlockKey>,
    bs: Seq<BasicBlock>,
    image: Seq<u8>,
    mapping: ImageMapping,
)
    requires
        d.shaped(image, mapping),
        partition::all_processed(d),
        partition::strictly_increasing_keys(leaders),
        bs.len() == leaders.len(),
        forall|b: int| 0 <= b < leaders.len() ==> block_ok(d, leaders, b, #[trigger] bs[b]),
    ensures
        blocks_maximal(bs),
{
    reveal(blocks_maximal);
    reveal(partition::run_ok);
    assert forall|i: int, j: int| 0 <= i < j < bs.len() implies key_code((#[trigger] bs[i]).key) < key_code((#[trigger] bs[j]).key) by {
        assert(block_ok(d, leaders, i, bs[i]));
        assert(block_ok(d, leaders, j, bs[j]));
    }
    assert forall|b: int, s: int, t: int|
        0 <= b < bs.len() && 0 <= s < t < bs[b].successors@.len() implies (#[trigger] bs[b].successors@[s]).0
            < (#[trigger] bs[b].successors@[t]).0 by {
        assert(block_ok(d, leaders, b, bs[b]));
    }
    assert forall|b: int, m: int| 0 <= b < bs.len() && 0 <= m < bs[b].instructions@.len() - 1 implies runs_on(
        #[trigger] bs[b].instructions@[m],
    ) && !starts_block(bs, next_key_spec(bs[b].instructions@[m])) by {
        assert(block_ok(d, leaders, b, bs[b]));
        let run = bs[b].instructions@;
        assert(partition::links(d, leaders, run[m], run[m + 1]));
        if starts_block(bs, next_key_spec(run[m])) {
            let c = choose|c: int| 0 <= c < bs.len() && (#[trigger] bs[c]).key == next_key_spec(run[m]);
            assert(block_ok(d, leaders, c, bs[c]));
            assert(leaders.contains(leaders[c]));
        }
    }
    assert forall|b: int| 0 <= b < bs.len() implies {
        let last = (#[trigger] bs[b]).instructions@.last();
        ||| !runs_on(last)
        ||| starts_block(bs, next_key_spec(last))
        ||| !owned(bs, next_key_spec(last))
    } by {
        assert(block_ok(d, leaders, b, bs[b]));
        let run = bs[b].instructions@;
        let last = run.last();
        assert(partition::discovered_at(d, run[run.len() - 1]));
        let j = partition::slot_of(d, key_of(last));
        assert(node_for(image, d.keys@[j], d.done@[j]->0, mapping, d.nodes@[j]->0));
        let nx = next_key_spec(last);
        if runs_on(last) {
            assert(edges::is_fallthrough_spec(last, partition::node_of(d, key_of(last)).successors@));
            if leaders.contains(nx) {
                let c = choose|c: int| 0 <= c < leaders.len() && leaders[c] == nx;
                assert(block_ok(d, leaders, c, bs[c]));
                assert(bs[c].key == nx);
            } else {
                assert(!d.has_slot(nx));
                if owned(bs, nx) {
                    let (c, m) = choose|c: int, m: int|
                        0 <= c < bs.len() && 0 <= m < bs[c].instructions@.len() && key_of(#[trigger] bs[c].instructions@[m]) == nx;
                    assert(block_ok(d, leaders, c, bs[c]));
                    assert(partition::discovered_at(d, bs[c].instructions@[m]));
                }
            }
        }
    }
}

/// Recovers the control-flow graph of a cartridge image mapped at the ROM
/// base, from `entry` in `entry_mode`.
pub fn analyze(rom: &[u8], entry: u32, entry_mode: Mode) -> (r: Result<Program, AnalysisError>)
    ensures
        ({
            let mapping = ImageMapping { kind: ImageKind::CartridgeRom, base: ROM_BASE, size: rom@.len() as u32, entry, entry_mode };
            &&& (r == Err::<Program, AnalysisError>(AnalysisError::InvalidEntry(entry))) <==> mapping_refused(rom@, mapping)
            &&& !(r matches Err(AnalysisError::EntryMismatch { .. }))
            &&& r matches Err(AnalysisError::Decode(e)) ==> exists|k: BlockKey|
                #[trigger] discovery::reached(rom@, mapping, entry_key_of(mapping), k) && mapping_contains(mapping, k.address)
                    && decode_at_spec(rom@, k, mapping) == Err::<Instruction, DecodeError>(e)
            &&& r matches Err(AnalysisError::InvalidCfg(e)) ==> (e is InstructionCountMismatch || e is UnreachableBlock) && graph_refused(
                rom@,
                mapping,
                e,
            )
            &&& r matches Ok(p) ==> program_faithful(rom@, mapping, p)
        }),
{
    analyze_with_mapping(rom, ImageMapping::new(ImageKind::CartridgeRom, ROM_BASE, rom.len() as u32, entry, entry_mode))
}

} // verus!
