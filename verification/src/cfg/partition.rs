//! Splitting discovered instructions into basic blocks.
use vstd::prelude::*;
use std::collections::HashMap;

use crate::address_space::ImageMapping;
use crate::decoder::{Instruction, Mode};
use crate::ir::{lower, lower_ops_spec, IrInstruction};

use super::discovery::{node_for, Discovery};
use super::edges::{is_fallthrough, is_fallthrough_spec, lemma_decoded_shape, next_key, next_key_spec};
use super::model::{encode_key, key_code, key_of, lemma_key_code_injective, BasicBlock, BlockId, BlockKey, DiscoveredInstruction};

verus! {

broadcast use vstd::std_specs::hash::group_hash_axioms;

/// std's `slice::sort_unstable` on words: the same words come back in
/// ascending order.
#[verifier::external_body]
fn sort_words(v: &mut Vec<u64>)
    ensures
        final(v)@.len() == old(v)@.len(),
        final(v)@.to_multiset() == old(v)@.to_multiset(),
        forall|a: int, b: int| 0 <= a <= b < final(v)@.len() ==> final(v)@[a] <= final(v)@[b],
{
    v.sort_unstable();
}

pub open spec fn strictly_increasing(s: Seq<u64>) -> bool {
    forall|a: int, b: int| 0 <= a < b < s.len() ==> s[a] < s[b]
}

/// The distinct words of `v`, ascending.
pub(crate) fn sorted_distinct(v: Vec<u64>) -> (r: Vec<u64>)
    ensures
        strictly_increasing(r@),
        forall|x: u64| r@.contains(x) <==> v@.contains(x),
{
    let mut codes = v;
    let ghost unsorted = codes@;
    sort_words(&mut codes);
    proof {
        assert forall|c: u64| codes@.contains(c) <==> unsorted.contains(c) by {
            assert(codes@.to_multiset().count(c) == unsorted.to_multiset().count(c));
            codes@.to_multiset_ensures();
            unsorted.to_multiset_ensures();
        }
    }
    dedup_sorted(&codes)
}

/// The ascending words of a sorted sequence, each once.
fn dedup_sorted(v: &Vec<u64>) -> (r: Vec<u64>)
    requires
        forall|a: int, b: int| 0 <= a <= b < v@.len() ==> v@[a] <= v@[b],
    ensures
        strictly_increasing(r@),
        forall|x: u64| r@.contains(x) <==> v@.contains(x),
{
    let mut out: Vec<u64> = Vec::new();
    let mut k: usize = 0;
    while k < v.len()
        invariant
            k <= v.len(),
            forall|a: int, b: int| 0 <= a <= b < v@.len() ==> v@[a] <= v@[b],
            strictly_increasing(out@),
            k > 0 ==> out@.len() > 0 && out@.last() == v@[k - 1],
            k == 0 ==> out@.len() == 0,
            forall|j: int| 0 <= j < k ==> out@.contains(#[trigger] v@[j]),
            forall|w: int| 0 <= w < out@.len() ==> exists|j: int| 0 <= j < k && v@[j] == #[trigger] out@[w],
        decreases v.len() - k,
    {
        let x = v[k];
        let ghost before = out@;
        if out.len() == 0 || out[out.len() - 1] != x {
            out.push(x);
            proof {
                assert forall|a: int, b: int| 0 <= a < b < out@.len() implies out@[a] < out@[b] by {
                    if b == out@.len() - 1 {
                        assert(before.last() == v@[k - 1]);
                        assert(before[a] <= before.last());
                    }
                }
                assert forall|j: int| 0 <= j < k + 1 implies out@.contains(#[trigger] v@[j]) by {
                    if j < k {
                        let w = choose|w: int| 0 <= w < before.len() && before[w] == v@[j];
                        assert(out@[w] == v@[j]);
                    } else {
                        assert(out@[out@.len() - 1] == v@[j]);
                    }
                }
                assert forall|w: int| 0 <= w < out@.len() implies exists|j: int| 0 <= j < k + 1 && v@[j] == #[trigger] out@[w] by {
                    if w < before.len() {
                        assert(out@[w] == before[w]);
                    } else {
                        assert(v@[k as int] == out@[w]);
                    }
                }
            }
        } else {
            proof {
                assert forall|j: int| 0 <= j < k + 1 implies out@.contains(#[trigger] v@[j]) by {
                    if j == k {
                        assert(out@[out@.len() - 1] == v@[j]);
                    }
                }
            }
        }
        k = k + 1;
    }
    proof {
        assert forall|x: u64| out@.contains(x) <==> v@.contains(x) by {
            if v@.contains(x) {
                let j = choose|j: int| 0 <= j < v@.len() && v@[j] == x;
                assert(out@.contains(v@[j]));
            }
            if out@.contains(x) {
                let w = choose|w: int| 0 <= w < out@.len() && out@[w] == x;
                let j = choose|j: int| 0 <= j < k && v@[j] == #[trigger] out@[w];
            }
        }
    }
    out
}

/// A successor of a block-ending instruction that was discovered: it starts
/// a block.
pub open spec fn leader_edge(d: Discovery, i: int, m: int) -> bool {
    &&& 0 <= i < d.len()
    &&& d.nodes@[i] is Some
    &&& !is_fallthrough_spec(d.nodes@[i]->0.instruction, d.nodes@[i]->0.successors@)
    &&& 0 <= m < d.nodes@[i]->0.successors@.len()
    &&& d.has_slot(d.nodes@[i]->0.successors@[m])
}

/// The entry and every discovered target of a block-ending instruction.
pub open spec fn is_leader(d: Discovery, entry: BlockKey, k: BlockKey) -> bool {
    k == entry || exists|i: int, m: int| #[trigger] leader_edge(d, i, m) && d.nodes@[i]->0.successors@[m] == k
}

/// A leader found among the successors of slots before `i`, or of slot `i`
/// before its `m`-th successor.
pub open spec fn found_upto(d: Discovery, entry: BlockKey, k: BlockKey, i: int, m: int) -> bool {
    k == entry || exists|ii: int, mm: int|
        (ii < i || (ii == i && mm < m)) && #[trigger] leader_edge(d, ii, mm) && d.nodes@[ii]->0.successors@[mm] == k
}

proof fn lemma_found_step(d: Discovery, entry: BlockKey, before: Seq<BlockKey>, after: Seq<BlockKey>, i: int, m: int)
    requires
        0 <= i < d.len(),
        d.nodes@[i] is Some,
        !is_fallthrough_spec(d.nodes@[i]->0.instruction, d.nodes@[i]->0.successors@),
        0 <= m < d.nodes@[i]->0.successors@.len(),
        forall|k: BlockKey| before.contains(k) <==> found_upto(d, entry, k, i, m),
        after == (if d.has_slot(d.nodes@[i]->0.successors@[m]) {
            before.push(d.nodes@[i]->0.successors@[m])
        } else {
            before
        }),
    ensures
        forall|k: BlockKey| after.contains(k) <==> found_upto(d, entry, k, i, m + 1),
{
    let s = d.nodes@[i]->0.successors@[m];
    assert forall|k: BlockKey| before.contains(k) implies after.contains(k) by {
        let w = choose|w: int| 0 <= w < before.len() && before[w] == k;
        assert(after[w] == k);
    }
    assert forall|k: BlockKey| found_upto(d, entry, k, i, m + 1) implies after.contains(k) by {
        if k == entry {
            assert(found_upto(d, entry, k, i, m));
            assert(before.contains(k));
        } else {
            let (ii, mm) = choose|ii: int, mm: int|
                (ii < i || (ii == i && mm < m + 1)) && #[trigger] leader_edge(d, ii, mm) && d.nodes@[ii]->0.successors@[mm] == k;
            if ii == i && mm == m {
                assert(after[after.len() - 1] == k);
            } else {
                assert(found_upto(d, entry, k, i, m));
                assert(before.contains(k));
            }
        }
    }
    assert forall|k: BlockKey| after.contains(k) implies found_upto(d, entry, k, i, m + 1) by {
        let w = choose|w: int| 0 <= w < after.len() && after[w] == k;
        if w < before.len() {
            assert(before[w] == k);
            assert(before.contains(k));
            assert(found_upto(d, entry, k, i, m));
            if k != entry {
                let (ii, mm) = choose|ii: int, mm: int|
                    (ii < i || (ii == i && mm < m)) && #[trigger] leader_edge(d, ii, mm) && d.nodes@[ii]->0.successors@[mm] == k;
                assert((ii < i || (ii == i && mm < m + 1)) && leader_edge(d, ii, mm) && d.nodes@[ii]->0.successors@[mm] == k);
            }
        } else {
            assert(leader_edge(d, i, m));
        }
    }
}

proof fn lemma_found_next_slot(d: Discovery, entry: BlockKey, i: int)
    requires
        0 <= i < d.len(),
    ensures
        forall|k: BlockKey| #[trigger] found_upto(d, entry, k, i + 1, 0) <==> found_upto(
            d,
            entry,
            k,
            i,
            if d.nodes@[i] is Some { d.nodes@[i]->0.successors@.len() as int } else { 0 },
        ),
{
    let len = if d.nodes@[i] is Some { d.nodes@[i]->0.successors@.len() as int } else { 0 };
    assert forall|k: BlockKey| #[trigger] found_upto(d, entry, k, i + 1, 0) <==> found_upto(d, entry, k, i, len) by {
        if found_upto(d, entry, k, i + 1, 0) && k != entry {
            let (ii, mm) = choose|ii: int, mm: int|
                (ii < i + 1 || (ii == i + 1 && mm < 0)) && #[trigger] leader_edge(d, ii, mm) && d.nodes@[ii]->0.successors@[mm] == k;
        }
    }
}

pub open spec fn key_from_code(c: int) -> BlockKey {
    BlockKey { address: (c / 2) as u32, mode: if c % 2 == 0 { Mode::Arm } else { Mode::Thumb } }
}

proof fn lemma_code_roundtrip(c: int)
    requires
        0 <= c < 0x2_0000_0000,
    ensures
        key_code(key_from_code(c)) == c,
{
}

fn key_from(c: u64) -> (r: BlockKey)
    requires
        c < 0x2_0000_0000,
    ensures
        r == key_from_code(c as int),
{
    BlockKey { address: (c / 2) as u32, mode: if c % 2 == 0 { Mode::Arm } else { Mode::Thumb } }
}

pub open spec fn strictly_increasing_keys(s: Seq<BlockKey>) -> bool {
    forall|a: int, b: int| 0 <= a < b < s.len() ==> key_code(s[a]) < key_code(s[b])
}

/// The block leaders, in address order (ARM before Thumb at one address).
pub fn collect_leaders(d: &Discovery, entry: BlockKey, Ghost(image): Ghost<Seq<u8>>, Ghost(mapping): Ghost<ImageMapping>) -> (r: Vec<BlockKey>)
    requires
        d.shaped(image, mapping),
    ensures
        strictly_increasing_keys(r@),
        forall|k: BlockKey| r@.contains(k) <==> is_leader(*d, entry, k),
{
    let mut found: Vec<BlockKey> = Vec::new();
    found.push(entry);
    proof {
        assert forall|k: BlockKey| found@.contains(k) <==> found_upto(*d, entry, k, 0, 0) by {
            if found@.contains(k) {
                assert(found@[0] == k);
            }
            if k == entry {
                assert(found@[0] == k);
            }
        }
    }
    let mut i: usize = 0;
    while i < d.keys.len()
        invariant
            d.shaped(image, mapping),
            i <= d.len(),
            forall|k: BlockKey| found@.contains(k) <==> found_upto(*d, entry, k, i as int, 0),
        decreases d.len() - i,
    {
        match &d.nodes[i] {
            Some(node) => {
                if !is_fallthrough(node.instruction, &node.successors) {
                    let mut m: usize = 0;
                    while m < node.successors.len()
                        invariant
                            d.shaped(image, mapping),
                            i < d.len(),
                            d.nodes@[i as int] == Some(*node),
                            !is_fallthrough_spec(node.instruction, node.successors@),
                            m <= node.successors.len(),
                            forall|k: BlockKey| found@.contains(k) <==> found_upto(*d, entry, k, i as int, m as int),
                        decreases node.successors.len() - m,
                    {
                        let s = node.successors[m];
                        let slot = d.lookup(s, Ghost(image), Ghost(mapping));
                        let ghost before = found@;
                        if slot.is_some() {
                            found.push(s);
                        }
                        proof {
                            lemma_found_step(*d, entry, before, found@, i as int, m as int);
                        }
                        m = m + 1;
                    }
                } else {
                    proof {
                        assert forall|k: BlockKey| found_upto(*d, entry, k, i as int, 0) <==> found_upto(*d, entry, k, i as int, node.successors@.len() as int) by {
                            if found_upto(*d, entry, k, i as int, node.successors@.len() as int) && k != entry {
                                let (ii, mm) = choose|ii: int, mm: int|
                                    (ii < i || (ii == i && mm < node.successors@.len())) && #[trigger] leader_edge(*d, ii, mm) && d.nodes@[ii]->0.successors@[mm] == k;
                            }
                        }
                    }
                }
            },
            None => {},
        }
        proof {
            lemma_found_next_slot(*d, entry, i as int);
        }
        i = i + 1;
    }
    let mut codes: Vec<u64> = Vec::new();
    let mut w: usize = 0;
    while w < found.len()
        invariant
            w <= found.len(),
            codes@.len() == w,
            forall|j: int| 0 <= j < w ==> codes@[j] == key_code(#[trigger] found@[j]),
        decreases found.len() - w,
    {
        codes.push(encode_key(found[w]));
        w = w + 1;
    }
    let ghost unsorted = codes@;
    sort_words(&mut codes);
    proof {
        assert forall|c: u64| codes@.contains(c) <==> unsorted.contains(c) by {
            assert(codes@.to_multiset().count(c) == unsorted.to_multiset().count(c));
            codes@.to_multiset_ensures();
            unsorted.to_multiset_ensures();
        }
    }
    let uniq = dedup_sorted(&codes);
    let mut out: Vec<BlockKey> = Vec::new();
    let mut k: usize = 0;
    while k < uniq.len()
        invariant
            k <= uniq.len(),
            strictly_increasing(uniq@),
            forall|x: u64| #![trigger uniq@.contains(x)] #![trigger unsorted.contains(x)] uniq@.contains(x) <==> unsorted.contains(x),
            unsorted.len() == found@.len(),
            forall|j: int| 0 <= j < unsorted.len() ==> unsorted[j] == key_code(#[trigger] found@[j]),
            out@.len() == k,
            forall|j: int| 0 <= j < k ==> key_code(#[trigger] out@[j]) == uniq@[j],
        decreases uniq.len() - k,
    {
        let c = uniq[k];
        proof {
            assert(uniq@.contains(c));
            assert(unsorted.contains(c));
            let j = choose|j: int| 0 <= j < unsorted.len() && unsorted[j] == c;
            assert(unsorted[j] == key_code(found@[j]));
            lemma_code_roundtrip(c as int);
        }
        out.push(key_from(c));
        k = k + 1;
    }
    proof {
        assert forall|key: BlockKey| out@.contains(key) <==> is_leader(*d, entry, key) by {
            assert(found@.contains(key) <==> found_upto(*d, entry, key, d.len() as int, 0));
            if out@.contains(key) {
                let j = choose|j: int| 0 <= j < out@.len() && out@[j] == key;
                assert(uniq@.contains(uniq@[j]));
                let jj = choose|jj: int| 0 <= jj < unsorted.len() && unsorted[jj] == uniq@[j];
                assert(unsorted[jj] == key_code(found@[jj]));
                lemma_key_code_injective(key, found@[jj]);
                assert(found@.contains(key));
                if key != entry {
                    let (ii, mm) = choose|ii: int, mm: int|
                        (ii < d.len() || (ii == d.len() && mm < 0)) && #[trigger] leader_edge(*d, ii, mm) && d.nodes@[ii]->0.successors@[mm] == key;
                }
            }
            if is_leader(*d, entry, key) {
                if key != entry {
                    let (ii, mm) = choose|ii: int, mm: int| #[trigger] leader_edge(*d, ii, mm) && d.nodes@[ii]->0.successors@[mm] == key;
                    assert(found_upto(*d, entry, key, d.len() as int, 0));
                }
                assert(found@.contains(key));
                let jj = choose|jj: int| 0 <= jj < found@.len() && found@[jj] == key;
                assert(unsorted[jj] == key_code(key));
                assert(unsorted.contains(unsorted[jj]));
                assert(uniq@.contains(unsorted[jj]));
                let j = choose|j: int| 0 <= j < uniq@.len() && uniq@[j] == unsorted[jj];
                lemma_key_code_injective(key, out@[j]);
            }
        }
        assert forall|a: int, b: int| 0 <= a < b < out@.len() implies key_code(out@[a]) < key_code(out@[b]) by {
            assert(key_code(out@[a]) == uniq@[a]);
            assert(key_code(out@[b]) == uniq@[b]);
        }
    }
    out
}

/// The slot holding location `k`.
pub open spec fn slot_of(d: Discovery, k: BlockKey) -> int {
    choose|j: int| 0 <= j < d.len() && d.keys@[j] == k
}

/// The processed node of location `k`.
pub open spec fn node_of(d: Discovery, k: BlockKey) -> DiscoveredInstruction {
    d.nodes@[slot_of(d, k)]->0
}

pub(crate) proof fn lemma_slot_unique(d: Discovery, image: Seq<u8>, mapping: ImageMapping, j: int)
    requires
        d.shaped(image, mapping),
        0 <= j < d.len(),
    ensures
        slot_of(d, d.keys@[j]) == j,
{
    let k = d.keys@[j];
    let jj = slot_of(d, k);
    assert(d.index@.contains_key(key_code(d.keys@[j]) as u64));
    assert(d.index@.contains_key(key_code(d.keys@[jj]) as u64));
}

/// `ins` is what discovery recorded at the location it was decoded from.
pub open spec fn discovered_at(d: Discovery, ins: Instruction) -> bool {
    d.has_slot(key_of(ins)) && d.nodes@[slot_of(d, key_of(ins))] is Some && node_of(d, key_of(ins)).instruction == ins
}

/// Where a block stops: its last instruction may not fall through, or the
/// next location starts a block or was never reached.
pub open spec fn ends_block(d: Discovery, leaders: Seq<BlockKey>, last: Instruction) -> bool {
    ||| !is_fallthrough_spec(last, node_of(d, key_of(last)).successors@)
    ||| leaders.contains(next_key_spec(last))
    ||| !d.has_slot(next_key_spec(last))
}

/// `b` follows `a` inside one block.
pub open spec fn links(d: Discovery, leaders: Seq<BlockKey>, a: Instruction, b: Instruction) -> bool {
    &&& key_of(b) == next_key_spec(a)
    &&& is_fallthrough_spec(a, node_of(d, key_of(a)).successors@)
    &&& !leaders.contains(next_key_spec(a))
}

/// A fall-through run from `leader` of discovered instructions.
#[verifier::opaque]
pub open spec fn run_ok(d: Discovery, leaders: Seq<BlockKey>, leader: BlockKey, run: Seq<Instruction>) -> bool {
    &&& run.len() > 0 ==> key_of(run[0]) == leader
    &&& forall|m: int| 0 <= m < run.len() ==> discovered_at(d, #[trigger] run[m])
    &&& forall|m: int| 0 <= m < run.len() - 1 ==> links(d, leaders, #[trigger] run[m], run[m + 1])
}

/// The instructions of the block led by `leader`: a maximal fall-through run.
pub open spec fn is_block_run(d: Discovery, leaders: Seq<BlockKey>, leader: BlockKey, run: Seq<Instruction>) -> bool {
    &&& run.len() >= 1
    &&& run_ok(d, leaders, leader, run)
    &&& ends_block(d, leaders, run.last())
}

proof fn lemma_run_push(d: Discovery, leaders: Seq<BlockKey>, leader: BlockKey, run: Seq<Instruction>, ins: Instruction)
    requires
        run_ok(d, leaders, leader, run),
        discovered_at(d, ins),
        run.len() == 0 ==> key_of(ins) == leader,
        run.len() > 0 ==> links(d, leaders, run.last(), ins),
    ensures
        run_ok(d, leaders, leader, run.push(ins)),
{
    reveal(run_ok);
    let r2 = run.push(ins);
    assert forall|m: int| 0 <= m < r2.len() implies discovered_at(d, #[trigger] r2[m]) by {
        if m < run.len() {
            assert(r2[m] == run[m]);
        }
    }
    assert forall|m: int| 0 <= m < r2.len() - 1 implies links(d, leaders, #[trigger] r2[m], r2[m + 1]) by {
        assert(r2[m] == run[m]);
        if m < run.len() - 1 {
            assert(r2[m + 1] == run[m + 1]);
        }
    }
}

pub open spec fn all_processed(d: Discovery) -> bool {
    forall|i: int| 0 <= i < d.len() ==> #[trigger] d.nodes@[i] is Some
}

pub open spec fn wrap32(x: int) -> int {
    if x > 0xffff_ffff {
        x - 0x1_0000_0000
    } else {
        x
    }
}

/// Leader identities: the index of each leader in the sorted leader list.
pub open spec fn ids_of(ids: Map<u64, usize>, leaders: Seq<BlockKey>) -> bool {
    &&& forall|b: int| 0 <= b < leaders.len() ==> #[trigger] ids.contains_key(key_code(leaders[b]) as u64)
        && ids[key_code(leaders[b]) as u64] == b
    &&& forall|c: u64| #[trigger] ids.contains_key(c) ==> exists|b: int| 0 <= b < leaders.len() && key_code(leaders[b]) == c
}

fn leader_index(ids: &HashMap<u64, usize>, leaders: &Vec<BlockKey>, key: BlockKey) -> (r: Option<usize>)
    requires
        ids_of(ids@, leaders@),
    ensures
        match r {
            Some(b) => b < leaders@.len() && leaders@[b as int] == key,
            None => !leaders@.contains(key),
        },
{
    match ids.get(&encode_key(key)) {
        Some(b) => {
            proof {
                let c = key_code(key) as u64;
                let bb = choose|bb: int| 0 <= bb < leaders@.len() && key_code(leaders@[bb]) == c;
                assert(ids@.contains_key(key_code(leaders@[bb]) as u64));
                lemma_key_code_injective(leaders@[bb], key);
            }
            Some(*b)
        },
        None => {
            proof {
                if leaders@.contains(key) {
                    let bb = choose|bb: int| 0 <= bb < leaders@.len() && leaders@[bb] == key;
                    assert(ids@.contains_key(key_code(leaders@[bb]) as u64));
                }
            }
            None
        },
    }
}

pub(crate) proof fn lemma_node_shape(d: Discovery, image: Seq<u8>, mapping: ImageMapping, j: int)
    requires
        d.shaped(image, mapping),
        0 <= j < d.len(),
        d.nodes@[j] is Some,
    ensures
        ({
            let ins = d.nodes@[j]->0.instruction;
            &&& key_of(ins) == d.keys@[j]
            &&& ins.mode == Mode::Arm ==> ins.size == 4
            &&& ins.mode == Mode::Thumb ==> ins.size == 2 || ins.kind is Thumb && ins.kind->Thumb_0 is BranchLink
        }),
{
    assert(node_for(image, d.keys@[j], d.done@[j]->0, mapping, d.nodes@[j]->0));
    lemma_decoded_shape(image, d.keys@[j], mapping, d.nodes@[j]->0.instruction);
}

/// Walks the fall-through run that starts at leader `b`.
#[verifier::rlimit(100)]
fn walk_run(
    d: &Discovery,
    leaders: &Vec<BlockKey>,
    ids: &HashMap<u64, usize>,
    b: usize,
    Ghost(image): Ghost<Seq<u8>>,
    Ghost(mapping): Ghost<ImageMapping>,
) -> (run: Vec<Instruction>)
    requires
        d.shaped(image, mapping),
        all_processed(*d),
        ids_of(ids@, leaders@),
        b < leaders@.len(),
        d.has_slot(leaders@[b as int]),
    ensures
        is_block_run(*d, leaders@, leaders@[b as int], run@),
{
    let leader = leaders[b];
    let mut run: Vec<Instruction> = Vec::new();
    let mut cursor = leader;
    let mut going = true;
    let ghost mut walked: int = 0;
    let ghost step: int = if leader.mode == Mode::Arm { 4 } else { 2 };
    proof {
        reveal(run_ok);
    }
    while going
        invariant
            d.shaped(image, mapping),
            all_processed(*d),
            ids_of(ids@, leaders@),
            b < leaders@.len(),
            leader == leaders@[b as int],
            d.has_slot(leader),
            step == (if leader.mode == Mode::Arm { 4int } else { 2int }),
            cursor.mode == leader.mode,
            cursor.address == wrap32(leader.address + walked),
            0 <= walked < 0x1_0000_0000,
            walked % step == 0,
            going && run@.len() == 0 ==> cursor == leader && walked == 0,
            going && run@.len() > 0 ==> {
                &&& cursor == next_key_spec(run@.last())
                &&& !leaders@.contains(cursor)
                &&& is_fallthrough_spec(run@.last(), node_of(*d, key_of(run@.last())).successors@)
            },
            run_ok(*d, leaders@, leader, run@),
            !going ==> run@.len() >= 1 && ends_block(*d, leaders@, run@.last()),
        decreases 0x1_0000_0000 - walked, if going { 1int } else { 0int },
    {
        match d.lookup(cursor, Ghost(image), Ghost(mapping)) {
            None => {
                proof {
                    if run@.len() == 0 {
                        assert(false);
                    }
                }
                going = false;
            },
            Some(j) => {
                let ghost prev = run@;
                proof {
                    assert(d.nodes@[j as int] is Some);
                    lemma_slot_unique(*d, image, mapping, j as int);
                }
                match &d.nodes[j] {
                    None => {
                        going = false;
                    },
                    Some(node) => {
                        let ins = node.instruction;
                        proof {
                            lemma_node_shape(*d, image, mapping, j as int);
                            assert(key_of(ins) == cursor);
                            assert(discovered_at(*d, ins));
                            lemma_run_push(*d, leaders@, leader, prev, ins);
                        }
                        run.push(ins);
                        if !is_fallthrough(ins, &node.successors) {
                            going = false;
                        } else {
                            let next = next_key(ins);
                            if leader_index(ids, leaders, next).is_some() {
                                going = false;
                            } else {
                                proof {
                                    let w2 = walked + step;
                                    assert(w2 <= 0x1_0000_0000);
                                    if w2 == 0x1_0000_0000 {
                                        assert(next.address == leader.address);
                                        assert(next == leader);
                                        assert(leaders@[b as int] == next);
                                        assert(false);
                                    }
                                    walked = w2;
                                }
                                cursor = next;
                            }
                        }
                    },
                }
            },
        }
    }
    run
}

/// The IR of a run: one lowered instruction per instruction.
pub open spec fn lowers(run: Seq<Instruction>, ir: Seq<IrInstruction>) -> bool {
    &&& ir.len() == run.len()
    &&& forall|m: int| 0 <= m < run.len() ==> {
        &&& (#[trigger] ir[m]).address == run[m].address
        &&& ir[m].size == run[m].size
        &&& ir[m].ops@ == lower_ops_spec(run[m])
    }
}

fn lower_run(run: &Vec<Instruction>) -> (ir: Vec<IrInstruction>)
    ensures
        lowers(run@, ir@),
{
    let mut ir: Vec<IrInstruction> = Vec::new();
    let mut m: usize = 0;
    while m < run.len()
        invariant
            m <= run.len(),
            ir@.len() == m,
            forall|k: int| 0 <= k < m ==> {
                &&& (#[trigger] ir@[k]).address == run@[k].address
                &&& ir@[k].size == run@[k].size
                &&& ir@[k].ops@ == lower_ops_spec(run@[k])
            },
        decreases run.len() - m,
    {
        ir.push(lower(run[m]));
        m = m + 1;
    }
    ir
}

/// The blocks a block's last instruction leads to: the leaders among its
/// successors.
pub open spec fn block_successors_ok(d: Discovery, leaders: Seq<BlockKey>, last: Instruction, succ: Seq<BlockId>) -> bool {
    &&& forall|a: int, b: int| 0 <= a < b < succ.len() ==> succ[a].0 < succ[b].0
    &&& forall|c: usize| #![trigger succ.contains(BlockId(c))] #![trigger leaders[c as int]] succ.contains(BlockId(c)) <==> (c < leaders.len() && node_of(d, key_of(last)).successors@.contains(leaders[c as int]))
}

fn block_successors(
    d: &Discovery,
    leaders: &Vec<BlockKey>,
    ids: &HashMap<u64, usize>,
    last: Instruction,
    Ghost(image): Ghost<Seq<u8>>,
    Ghost(mapping): Ghost<ImageMapping>,
) -> (succ: Vec<BlockId>)
    requires
        d.shaped(image, mapping),
        all_processed(*d),
        ids_of(ids@, leaders@),
        strictly_increasing_keys(leaders@),
        discovered_at(*d, last),
    ensures
        block_successors_ok(*d, leaders@, last, succ@),
{
    let nl = leaders.len();
    let j = match d.lookup(key_of_exec(last), Ghost(image), Ghost(mapping)) {
        Some(j) => j,
        None => {
            return Vec::new();
        },
    };
    proof {
        lemma_slot_unique(*d, image, mapping, j as int);
    }
    let node = match &d.nodes[j] {
        Some(node) => node,
        None => {
            return Vec::new();
        },
    };
    let ghost ns = node.successors@;
    let mut found: Vec<u64> = Vec::new();
    let mut m: usize = 0;
    while m < node.successors.len()
        invariant
            ids_of(ids@, leaders@),
            strictly_increasing_keys(leaders@),
            ns == node.successors@,
            m <= ns.len(),
            leaders@.len() <= usize::MAX,
            forall|c: u64| found@.contains(c) <==> (c < leaders@.len() && ns.subrange(0, m as int).contains(leaders@[c as int])),
        decreases ns.len() - m,
    {
        let s = node.successors[m];
        let ghost before = found@;
        let li = leader_index(ids, leaders, s);
        match li {
            Some(c) => {
                found.push(c as u64);
            },
            None => {},
        }
        proof {
            assert forall|c: u64| found@.contains(c) <==> (c < leaders@.len() && ns.subrange(0, m + 1).contains(leaders@[c as int])) by {
                if c < leaders@.len() && ns.subrange(0, m + 1).contains(leaders@[c as int]) {
                    let w = choose|w: int| 0 <= w < m + 1 && #[trigger] ns.subrange(0, m + 1)[w] == leaders@[c as int];
                    if w < m {
                        assert(ns.subrange(0, m as int)[w] == leaders@[c as int]);
                        assert(before.contains(c));
                        let z = choose|z: int| 0 <= z < before.len() && before[z] == c;
                        assert(found@[z] == c);
                    } else {
                        assert(leaders@.contains(s));
                        let cc = li->0;
                        assert(leaders@[cc as int] == s);
                        if (cc as int) < (c as int) {
                            assert(key_code(leaders@[cc as int]) < key_code(leaders@[c as int]));
                        }
                        if (c as int) < (cc as int) {
                            assert(key_code(leaders@[c as int]) < key_code(leaders@[cc as int]));
                        }
                        assert(found@.last() == c);
                    }
                }
                if found@.contains(c) {
                    let z = choose|z: int| 0 <= z < found@.len() && found@[z] == c;
                    if z < before.len() {
                        assert(before[z] == c);
                        assert(before.contains(c));
                        let w = choose|w: int| 0 <= w < m && #[trigger] ns.subrange(0, m as int)[w] == leaders@[c as int];
                        assert(ns.subrange(0, m + 1)[w] == leaders@[c as int]);
                    } else {
                        assert(ns.subrange(0, m + 1)[m as int] == s);
                    }
                }
            }
        }
        m = m + 1;
    }
    let ghost unsorted = found@;
    sort_words(&mut found);
    proof {
        assert(ns.subrange(0, ns.len() as int) =~= ns);
        assert forall|c: u64| #[trigger] unsorted.contains(c) <==> (c < leaders@.len() && ns.contains(leaders@[c as int])) by {
            assert(unsorted.contains(c) <==> (c < leaders@.len() && ns.subrange(0, m as int).contains(leaders@[c as int])));
        }
        assert forall|c: u64| found@.contains(c) <==> unsorted.contains(c) by {
            assert(found@.to_multiset().count(c) == unsorted.to_multiset().count(c));
            found@.to_multiset_ensures();
            unsorted.to_multiset_ensures();
        }
    }
    let ghost sorted = found@;
    let uniq = dedup_sorted(&found);
    proof {
        assert forall|c: u64| uniq@.contains(c) implies c < leaders@.len() by {
            assert(found@.contains(c));
            assert(unsorted.contains(c));
        }
    }
    let mut out: Vec<BlockId> = Vec::new();
    let mut k: usize = 0;
    while k < uniq.len()
        invariant
            k <= uniq.len(),
            strictly_increasing(uniq@),
            forall|c: u64| uniq@.contains(c) ==> c < leaders@.len(),
            leaders@.len() <= usize::MAX,
            out@.len() == k,
            forall|w: int| 0 <= w < k ==> (#[trigger] out@[w]).0 == uniq@[w],
        decreases uniq.len() - k,
    {
        let c = uniq[k];
        proof {
            assert(uniq@.contains(c));
        }
        out.push(BlockId(c as usize));
        k = k + 1;
    }
    proof {
        assert(strictly_increasing(uniq@));
        assert forall|c: u64| uniq@.contains(c) <==> found@.contains(c) by {}
        assert(node_of(*d, key_of(last)).successors@ == ns);
        assert forall|a: int, b: int| 0 <= a < b < out@.len() implies out@[a].0 < out@[b].0 by {
            assert(out@[a].0 == uniq@[a]);
            assert(out@[b].0 == uniq@[b]);
        }
        assert forall|c: usize| #[trigger] out@.contains(BlockId(c)) implies (c < leaders@.len() && ns.contains(leaders@[c as int])) by {
            let w = choose|w: int| 0 <= w < out@.len() && out@[w] == BlockId(c);
            assert(uniq@.contains(uniq@[w]));
            assert(found@.contains(uniq@[w]));
            assert(unsorted.contains(uniq@[w]));
            assert(uniq@[w] == c);
        }
        assert forall|c: usize| c < leaders@.len() && ns.contains(#[trigger] leaders@[c as int]) implies out@.contains(BlockId(c)) by {
            assert(unsorted.contains(c as u64) <==> ((c as u64) < leaders@.len() && ns.contains(leaders@[(c as u64) as int])));
            assert(unsorted.contains(c as u64));
            assert(found@.contains(c as u64));
            assert(uniq@.contains(c as u64));
            let w = choose|w: int| 0 <= w < uniq@.len() && uniq@[w] == c as u64;
            assert(out@[w] == BlockId(c));
        }
        assert(forall|a: int, b: int| 0 <= a < b < out@.len() ==> out@[a].0 < out@[b].0);
        assert(forall|c: usize| out@.contains(BlockId(c)) <==> (c < leaders@.len() && node_of(*d, key_of(last)).successors@.contains(leaders@[c as int])));
        assert(block_successors_ok(*d, leaders@, last, out@));
    }
    out
}

fn key_of_exec(ins: Instruction) -> (r: BlockKey)
    ensures
        r == key_of(ins),
{
    BlockKey { address: ins.address, mode: ins.mode }
}

/// Block `b` of a partition: led by the `b`-th leader, holding its run, the
/// run's IR and the blocks its last instruction leads to.
pub open spec fn block_ok(d: Discovery, leaders: Seq<BlockKey>, b: int, block: BasicBlock) -> bool {
    &&& block.id == BlockId(b as usize)
    &&& block.key == leaders[b]
    &&& is_block_run(d, leaders, leaders[b], block.instructions@)
    &&& lowers(block.instructions@, block.ir@)
    &&& block_successors_ok(d, leaders, block.instructions@.last(), block.successors@)
}

fn leader_ids(leaders: &Vec<BlockKey>) -> (ids: HashMap<u64, usize>)
    requires
        strictly_increasing_keys(leaders@),
    ensures
        ids_of(ids@, leaders@),
{
    let mut ids: HashMap<u64, usize> = HashMap::new();
    let mut b: usize = 0;
    while b < leaders.len()
        invariant
            b <= leaders@.len(),
            strictly_increasing_keys(leaders@),
            forall|bb: int| 0 <= bb < b ==> #[trigger] ids@.contains_key(key_code(leaders@[bb]) as u64)
                && ids@[key_code(leaders@[bb]) as u64] == bb,
            forall|c: u64| #[trigger] ids@.contains_key(c) ==> exists|bb: int| 0 <= bb < b && key_code(leaders@[bb]) == c,
        decreases leaders@.len() - b,
    {
        let ghost before = ids@;
        ids.insert(encode_key(leaders[b]), b);
        proof {
            assert forall|bb: int| 0 <= bb < b + 1 implies #[trigger] ids@.contains_key(key_code(leaders@[bb]) as u64)
                && ids@[key_code(leaders@[bb]) as u64] == bb by {
                if bb < b {
                    assert(key_code(leaders@[bb]) < key_code(leaders@[b as int]));
                    assert(0 <= key_code(leaders@[bb]) < 0x2_0000_0000);
                    assert(0 <= key_code(leaders@[b as int]) < 0x2_0000_0000);
                    assert(before.contains_key(key_code(leaders@[bb]) as u64));
                }
            }
            assert forall|c: u64| #[trigger] ids@.contains_key(c) implies exists|bb: int| 0 <= bb < b + 1 && key_code(leaders@[bb]) == c by {
                if c != key_code(leaders@[b as int]) as u64 {
                    assert(before.contains_key(c));
                } else {
                    assert(0 <= key_code(leaders@[b as int]) < 0x2_0000_0000);
                }
            }
        }
        b = b + 1;
    }
    ids
}

/// Splits the discovered instructions into one block per leader, in leader
/// order, and returns each leader's block index by key code.
pub fn partition_blocks(
    d: &Discovery,
    leaders: &Vec<BlockKey>,
    Ghost(image): Ghost<Seq<u8>>,
    Ghost(mapping): Ghost<ImageMapping>,
) -> (r: (Vec<BasicBlock>, HashMap<u64, usize>))
    requires
        d.shaped(image, mapping),
        all_processed(*d),
        strictly_increasing_keys(leaders@),
        forall|b: int| 0 <= b < leaders@.len() ==> d.has_slot(#[trigger] leaders@[b]),
    ensures
        ids_of(r.1@, leaders@),
        r.0@.len() == leaders@.len(),
        forall|b: int| 0 <= b < leaders@.len() ==> block_ok(*d, leaders@, b, #[trigger] r.0@[b]),
{
    let ids = leader_ids(leaders);
    let mut blocks: Vec<BasicBlock> = Vec::new();
    let mut b: usize = 0;
    while b < leaders.len()
        invariant
            d.shaped(image, mapping),
            all_processed(*d),
            strictly_increasing_keys(leaders@),
            forall|bb: int| 0 <= bb < leaders@.len() ==> d.has_slot(#[trigger] leaders@[bb]),
            ids_of(ids@, leaders@),
            b <= leaders@.len(),
            blocks@.len() == b,
            forall|bb: int| 0 <= bb < b ==> block_ok(*d, leaders@, bb, #[trigger] blocks@[bb]),
        decreases leaders@.len() - b,
    {
        let run = walk_run(d, leaders, &ids, b, Ghost(image), Ghost(mapping));
        let ir = lower_run(&run);
        let last = run[run.len() - 1];
        proof {
            reveal(run_ok);
            assert(discovered_at(*d, run@[run@.len() - 1]));
        }
        let successors = block_successors(d, leaders, &ids, last, Ghost(image), Ghost(mapping));
        let block = BasicBlock { id: BlockId(b), key: leaders[b], instructions: run, ir, successors };
        blocks.push(block);
        b = b + 1;
    }
    (blocks, ids)
}

} // verus!
