//! Worklist discovery of the instructions reachable from an entry point,
//! with constant propagation to resolve register-indirect branches.
use vstd::prelude::*;
use std::collections::HashMap;

use crate::address_space::{mapping_contains, ImageMapping};
use crate::decoder::{ArmExtended, ArmOp, DecodeError, Instruction, InstructionKind, Operand2, ThumbExtended, ThumbOp};

use super::abstract_state::{
    add_values, forget_list, join_spec, map_not, operand_value_spec, source_value_spec, sub_values, transfer_instruction, transfer_spec,
    AbstractState, AbstractValue,
};
use super::edges::{decode_at, decode_at_spec, instruction_successors, successors_spec};
use super::model::{encode_key, key_code, BlockKey, DiscoveredInstruction};

verus! {

broadcast use vstd::std_specs::hash::group_hash_axioms;

/// Number of registers with a known constant value.
pub open spec fn const_count(s: Seq<AbstractValue>) -> nat
    decreases s.len(),
{
    if s.len() == 0 {
        0
    } else {
        const_count(s.drop_last()) + if s.last() is Constant {
            1nat
        } else {
            0nat
        }
    }
}

/// `a` already accounts for every value of `b`: each register of `a` is
/// either unknown or equal to that of `b`.
pub open spec fn absorbs(a: Seq<AbstractValue>, b: Seq<AbstractValue>) -> bool {
    forall|r: int| 0 <= r < 16 ==> (#[trigger] a[r] is Unknown || a[r] == b[r])
}

/// A slot is clean when it was last processed with its current state.
pub open spec fn clean(state: AbstractState, done: Option<AbstractState>) -> bool {
    done is Some && done->0.regs@ == state.regs@
}

pub open spec fn weight(state: AbstractState, done: Option<AbstractState>) -> nat {
    2 * const_count(state.regs@) + if clean(state, done) {
        0nat
    } else {
        1nat
    }
}

/// Potential of the first `n` slots: it falls whenever a state loses a
/// constant or a stale slot is processed.
pub open spec fn phi(states: Seq<AbstractState>, done: Seq<Option<AbstractState>>, n: nat) -> nat
    decreases n,
{
    if n == 0 {
        0
    } else {
        phi(states, done, (n - 1) as nat) + weight(states[n - 1], done[n - 1])
    }
}

proof fn lemma_count_mono(a: Seq<AbstractValue>, b: Seq<AbstractValue>)
    requires
        a.len() == b.len(),
        forall|r: int| 0 <= r < a.len() && (#[trigger] b[r]) is Constant ==> a[r] is Constant,
    ensures
        const_count(b) <= const_count(a),
        (exists|r: int| 0 <= r < a.len() && a[r] is Constant && #[trigger] b[r] is Unknown) ==> const_count(b) < const_count(a),
    decreases a.len(),
{
    if a.len() > 0 {
        let a1 = a.drop_last();
        let b1 = b.drop_last();
        assert forall|r: int| 0 <= r < a1.len() && (#[trigger] b1[r]) is Constant implies a1[r] is Constant by {
            assert(b1[r] == b[r]);
            assert(a1[r] == a[r]);
        }
        lemma_count_mono(a1, b1);
        if exists|r: int| 0 <= r < a.len() && a[r] is Constant && #[trigger] b[r] is Unknown {
            let r = choose|r: int| 0 <= r < a.len() && a[r] is Constant && #[trigger] b[r] is Unknown;
            if r < a.len() - 1 {
                assert(a1[r] == a[r] && b1[r] == b[r]);
            }
        }
    }
}

proof fn lemma_count_bound(a: Seq<AbstractValue>)
    ensures
        const_count(a) <= a.len(),
    decreases a.len(),
{
    if a.len() > 0 {
        lemma_count_bound(a.drop_last());
    }
}

/// Joining never adds a constant, and a join that changes a state removes one.
proof fn lemma_join_lowers(a: Seq<AbstractValue>, b: Seq<AbstractValue>)
    requires
        a.len() == 16,
        b.len() == 16,
    ensures
        const_count(join_spec(a, b)) <= const_count(a),
        join_spec(a, b) != a ==> const_count(join_spec(a, b)) < const_count(a),
        absorbs(join_spec(a, b), b),
{
    let j = join_spec(a, b);
    assert forall|r: int| 0 <= r < a.len() && (#[trigger] j[r]) is Constant implies a[r] is Constant by {}
    if j != a {
        assert(!(j =~= a));
        let r = choose|r: int| 0 <= r < 16 && j[r] != a[r];
        assert(a[r] is Constant && j[r] is Unknown);
    }
    lemma_count_mono(a, j);
}

proof fn lemma_phi_update(
    states: Seq<AbstractState>,
    done: Seq<Option<AbstractState>>,
    n: nat,
    i: int,
    s: AbstractState,
    d: Option<AbstractState>,
)
    requires
        0 <= i < n,
        n <= states.len(),
        n <= done.len(),
    ensures
        phi(states.update(i, s), done.update(i, d), n) + weight(states[i], done[i]) == phi(states, done, n) + weight(s, d),
    decreases n,
{
    if n - 1 == i {
        lemma_phi_same(states, done, states.update(i, s), done.update(i, d), (n - 1) as nat);
    } else {
        lemma_phi_update(states, done, (n - 1) as nat, i, s, d);
    }
}

proof fn lemma_phi_same(
    states: Seq<AbstractState>,
    done: Seq<Option<AbstractState>>,
    states2: Seq<AbstractState>,
    done2: Seq<Option<AbstractState>>,
    n: nat,
)
    requires
        n <= states.len(),
        n <= done.len(),
        n <= states2.len(),
        n <= done2.len(),
        forall|k: int| 0 <= k < n ==> states2[k] == states[k] && done2[k] == done[k],
    ensures
        phi(states2, done2, n) == phi(states, done, n),
    decreases n,
{
    if n > 0 {
        lemma_phi_same(states, done, states2, done2, (n - 1) as nat);
    }
}

/// The worklist state: one slot per location met so far, found through the
/// index by its key code.
pub struct Discovery {
    pub keys: Vec<BlockKey>,
    pub states: Vec<AbstractState>,
    pub done: Vec<Option<AbstractState>>,
    pub nodes: Vec<Option<DiscoveredInstruction>>,
    pub index: HashMap<u64, usize>,
}

/// What processing a location with `state` records for it.
pub open spec fn node_for(image: Seq<u8>, key: BlockKey, state: AbstractState, mapping: ImageMapping, d: DiscoveredInstruction) -> bool {
    &&& decode_at_spec(image, key, mapping) == Ok::<Instruction, DecodeError>(d.instruction)
    &&& d.successors@ == successors_spec(d.instruction, transfer_spec(image, d.instruction, state.regs@, mapping), mapping)
}

impl Discovery {
    pub open spec fn len(&self) -> nat {
        self.keys@.len()
    }

    pub open spec fn has_slot(&self, key: BlockKey) -> bool {
        exists|j: int| 0 <= j < self.len() && self.keys@[j] == key
    }

    /// Every in-image successor of slot `i` has a slot whose state accounts
    /// for the state after the instruction.
    pub open spec fn closed_at(&self, image: Seq<u8>, mapping: ImageMapping, i: int) -> bool {
        let d = self.nodes@[i]->0;
        let after = transfer_spec(image, d.instruction, self.states@[i].regs@, mapping);
        forall|m: int| 0 <= m < d.successors@.len() && mapping_contains(mapping, #[trigger] d.successors@[m].address) ==>
            exists|j: int| 0 <= j < self.len() && self.keys@[j] == d.successors@[m] && absorbs(self.states@[j].regs@, after)
    }

    pub open spec fn wf(&self, image: Seq<u8>, mapping: ImageMapping) -> bool {
        &&& self.shaped(image, mapping)
        &&& forall|i: int| 0 <= i < self.len() && clean(self.states@[i], #[trigger] self.done@[i]) ==> self.closed_at(image, mapping, i)
    }

    pub open spec fn potential(&self) -> nat {
        phi(self.states@, self.done@, self.len())
    }

    /// The slot of `key`, if it has one.
    pub fn lookup(&self, key: BlockKey, Ghost(image): Ghost<Seq<u8>>, Ghost(mapping): Ghost<ImageMapping>) -> (r: Option<usize>)
        requires
            self.shaped(image, mapping),
        ensures
            match r {
                Some(j) => j < self.len() && self.keys@[j as int] == key,
                None => !self.has_slot(key),
            },
    {
        let code = encode_key(key);
        match self.index.get(&code) {
            Some(j) => {
                let j = *j;
                proof {
                    let i = choose|i: int| 0 <= i < self.len() && key_code(self.keys@[i]) == code;
                    assert(self.index@[key_code(self.keys@[i]) as u64] == i);
                    super::model::lemma_key_code_injective(self.keys@[i], key);
                }
                Some(j)
            },
            None => {
                proof {
                    assert forall|i: int| 0 <= i < self.len() implies self.keys@[i] != key by {
                        assert(self.index@.contains_key(key_code(self.keys@[i]) as u64));
                    }
                }
                None
            },
        }
    }
}

proof fn lemma_codes_bound(keys: Seq<BlockKey>, index: Map<u64, usize>)
    requires
        forall|i: int| 0 <= i < keys.len() ==> #[trigger] index.contains_key(key_code(keys[i]) as u64)
            && index[key_code(keys[i]) as u64] == i,
    ensures
        keys.len() <= 0x2_0000_0000,
{
    let codes = keys.map_values(|k: BlockKey| key_code(k));
    assert forall|a: int, b: int| 0 <= a < codes.len() && 0 <= b < codes.len() && a != b implies codes[a] != codes[b] by {
        assert(index.contains_key(key_code(keys[a]) as u64));
        assert(index.contains_key(key_code(keys[b]) as u64));
        assert(0 <= key_code(keys[a]) < 0x2_0000_0000);
        assert(0 <= key_code(keys[b]) < 0x2_0000_0000);
    }
    assert(codes.no_duplicates());
    codes.unique_seq_to_set();
    vstd::set_lib::lemma_int_range(0, 0x2_0000_0000);
    assert forall|c: int| #[trigger] codes.to_set().contains(c) implies vstd::set_lib::set_int_range(0, 0x2_0000_0000).contains(c) by {
        let a = choose|a: int| 0 <= a < codes.len() && codes[a] == c;
        assert(0 <= key_code(keys[a]) < 0x2_0000_0000);
    }
    vstd::set_lib::lemma_len_subset(codes.to_set(), vstd::set_lib::set_int_range(0, 0x2_0000_0000));
}


proof fn lemma_absorbs_trans(a: Seq<AbstractValue>, b: Seq<AbstractValue>, c: Seq<AbstractValue>)
    requires
        absorbs(a, b),
        absorbs(b, c),
    ensures
        absorbs(a, c),
{
    assert forall|r: int| 0 <= r < 16 implies (#[trigger] a[r] is Unknown || a[r] == c[r]) by {
        assert(b[r] is Unknown || b[r] == c[r]);
    }
}

proof fn lemma_absorbs_antisym(a: Seq<AbstractValue>, b: Seq<AbstractValue>)
    requires
        a.len() == 16,
        b.len() == 16,
        absorbs(a, b),
        absorbs(b, a),
    ensures
        a == b,
{
    assert forall|r: int| 0 <= r < 16 implies a[r] == b[r] by {
        assert(a[r] is Unknown || a[r] == b[r]);
        assert(b[r] is Unknown || b[r] == a[r]);
    }
    assert(a =~= b);
}

/// Every register unknown: the state discovery starts from.
pub open spec fn initial_regs() -> Seq<AbstractValue> {
    Seq::new(16, |i: int| AbstractValue::Unknown)
}

/// One step of a walk: the instruction at `a`'s location decodes, `b`'s
/// state is the state after it, and `b`'s location is one of the in-image
/// successors computed from that state.
pub open spec fn step_ok(image: Seq<u8>, mapping: ImageMapping, a: (BlockKey, Seq<AbstractValue>), b: (BlockKey, Seq<AbstractValue>)) -> bool {
    match decode_at_spec(image, a.0, mapping) {
        Ok(ins) => {
            &&& b.1 == transfer_spec(image, ins, a.1, mapping)
            &&& successors_spec(ins, b.1, mapping).contains(b.0)
            &&& mapping_contains(mapping, b.0.address)
        },
        Err(_) => false,
    }
}

/// A walk from the entry, with all registers unknown, along successors
/// computed from the states met on the walk itself.
pub open spec fn path_ok(image: Seq<u8>, mapping: ImageMapping, entry: BlockKey, p: Seq<(BlockKey, Seq<AbstractValue>)>) -> bool {
    &&& p.len() >= 1
    &&& p[0] == (entry, initial_regs())
    &&& forall|t: int| 0 <= t < p.len() ==> (#[trigger] p[t]).1.len() == 16
    &&& forall|t: int| 0 <= t < p.len() - 1 ==> step_ok(image, mapping, #[trigger] p[t], p[t + 1])
}

/// Location `k` is reached from the entry: some walk ends there.
pub open spec fn reached(image: Seq<u8>, mapping: ImageMapping, entry: BlockKey, k: BlockKey) -> bool {
    exists|p: Seq<(BlockKey, Seq<AbstractValue>)>| #[trigger] path_ok(image, mapping, entry, p) && p.last().0 == k
}

/// Location `k` is reached by a walk whose final state `s` accounts for.
pub open spec fn reached_with(image: Seq<u8>, mapping: ImageMapping, entry: BlockKey, k: BlockKey, s: Seq<AbstractValue>) -> bool {
    exists|p: Seq<(BlockKey, Seq<AbstractValue>)>| #[trigger] path_ok(image, mapping, entry, p) && p.last().0 == k && absorbs(s, p.last().1)
}

/// A more general value: unknown, or the same value.
pub open spec fn covers(a: AbstractValue, b: AbstractValue) -> bool {
    a is Unknown || a == b
}

proof fn lemma_set_mono(s: Seq<AbstractValue>, p: Seq<AbstractValue>, r: u8, a: AbstractValue, b: AbstractValue)
    requires
        absorbs(s, p),
        covers(a, b),
        s.len() == 16,
        p.len() == 16,
    ensures
        absorbs(super::abstract_state::set(s, r, a), super::abstract_state::set(p, r, b)),
{
}

/// Abstract transfer keeps generality: a more general state before the
/// instruction gives a more general state after it.
proof fn lemma_transfer_mono(image: Seq<u8>, ins: Instruction, s: Seq<AbstractValue>, p: Seq<AbstractValue>, mapping: ImageMapping)
    requires
        absorbs(s, p),
        s.len() == 16,
        p.len() == 16,
    ensures
        absorbs(transfer_spec(image, ins, s, mapping), transfer_spec(image, ins, p, mapping)),
        transfer_spec(image, ins, s, mapping).len() == 16,
        transfer_spec(image, ins, p, mapping).len() == 16,
{
    assert forall|r: u8| covers(source_value_spec(s, ins, r), source_value_spec(p, ins, r)) by {
        if r < 16 && r != 15 {
            assert(s[r as int] is Unknown || s[r as int] == p[r as int]);
        }
    }
    assert forall|o: Operand2| covers(operand_value_spec(s, ins, o), operand_value_spec(p, ins, o)) by {
        match o {
            Operand2::Reg { rm, .. } => {
                assert(covers(source_value_spec(s, ins, rm), source_value_spec(p, ins, rm)));
            },
            _ => {},
        }
    }
    assert forall|a1: AbstractValue, b1: AbstractValue, a2: AbstractValue, b2: AbstractValue|
        covers(a1, a2) && covers(b1, b2) implies covers(#[trigger] add_values(a1, b1), #[trigger] add_values(a2, b2)) && covers(
        sub_values(a1, b1),
        sub_values(a2, b2),
    ) by {}
    assert forall|a1: AbstractValue, a2: AbstractValue| covers(a1, a2) implies covers(#[trigger] map_not(a1), #[trigger] map_not(a2)) by {}
    assert forall|m: u16| absorbs(#[trigger] forget_list(s, m), forget_list(p, m)) by {}
    let t = transfer_spec(image, ins, s, mapping);
    let u = transfer_spec(image, ins, p, mapping);
    assert forall|r: int| 0 <= r < 16 implies (#[trigger] t[r] is Unknown || t[r] == u[r]) by {
        match ins.kind {
            InstructionKind::Arm(ArmOp::Mov { rd, op2 }) => {
                lemma_set_mono(s, p, rd, operand_value_spec(s, ins, op2), operand_value_spec(p, ins, op2));
            },
            InstructionKind::Arm(ArmOp::Add { rd, rn, op2 }) => {
                lemma_set_mono(s, p, rd, add_values(source_value_spec(s, ins, rn), operand_value_spec(s, ins, op2)), add_values(source_value_spec(p, ins, rn), operand_value_spec(p, ins, op2)));
            },
            InstructionKind::Arm(ArmOp::Sub { rd, rn, op2 }) => {
                lemma_set_mono(s, p, rd, sub_values(source_value_spec(s, ins, rn), operand_value_spec(s, ins, op2)), sub_values(source_value_spec(p, ins, rn), operand_value_spec(p, ins, op2)));
            },
            InstructionKind::Arm(ArmOp::Extended(ArmExtended::DataProcessing { op, rd, rn, op2, .. })) => {
                let rs = operand_value_spec(s, ins, op2);
                let ls = source_value_spec(s, ins, rn);
                let rp = operand_value_spec(p, ins, op2);
                let lp = source_value_spec(p, ins, rn);
                assert(covers(rs, rp) && covers(ls, lp));
                assert(covers(add_values(ls, rs), add_values(lp, rp)));
                assert(covers(sub_values(ls, rs), sub_values(lp, rp)));
                assert(covers(sub_values(rs, ls), sub_values(rp, lp)));
                assert(covers(map_not(rs), map_not(rp)));
            },
            InstructionKind::Arm(ArmOp::Extended(ArmExtended::BlockTransfer { load, rn, register_list, .. })) => {
                assert(absorbs(forget_list(s, register_list), forget_list(p, register_list)));
            },
            InstructionKind::Thumb(ThumbOp::AddImm { rd, rn, imm }) => {
                assert(covers(source_value_spec(s, ins, rn), source_value_spec(p, ins, rn)));
            },
            InstructionKind::Thumb(ThumbOp::SubImm { rd, rn, imm }) => {
                assert(covers(source_value_spec(s, ins, rn), source_value_spec(p, ins, rn)));
            },
            InstructionKind::Thumb(ThumbOp::Extended(ThumbExtended::MoveShifted { kind, rd, rs, offset })) => {
                assert(covers(source_value_spec(s, ins, rs), source_value_spec(p, ins, rs)));
            },
            InstructionKind::Thumb(ThumbOp::Extended(ThumbExtended::AddSubImmediate { sub, rd, rs, imm })) => {
                assert(covers(source_value_spec(s, ins, rs), source_value_spec(p, ins, rs)));
            },
            InstructionKind::Thumb(ThumbOp::Extended(ThumbExtended::AddSubRegister { sub, rd, rs, rn })) => {
                assert(covers(source_value_spec(s, ins, rs), source_value_spec(p, ins, rs)));
                assert(covers(source_value_spec(s, ins, rn), source_value_spec(p, ins, rn)));
            },
            InstructionKind::Thumb(ThumbOp::Extended(ThumbExtended::HighRegister { op, rd, rs })) => {
                assert(covers(source_value_spec(s, ins, rs), source_value_spec(p, ins, rs)));
            },
            _ => {},
        }
    }
}

/// Successors computed from a more general state are among those computed
/// from a less general one: only a register-resolved exchange depends on the
/// state, and it resolves only where the register is known.
proof fn lemma_successors_mono(ins: Instruction, s: Seq<AbstractValue>, p: Seq<AbstractValue>, mapping: ImageMapping, k: BlockKey)
    requires
        absorbs(s, p),
        s.len() == 16,
        p.len() == 16,
        successors_spec(ins, s, mapping).contains(k),
    ensures
        successors_spec(ins, p, mapping).contains(k),
{
    let a = successors_spec(ins, s, mapping);
    let b = successors_spec(ins, p, mapping);
    let m = choose|m: int| 0 <= m < a.len() && a[m] == k;
    match ins.kind {
        InstructionKind::Arm(ArmOp::BranchExchange { rm, link }) => {
            if rm < 16 {
                assert(s[rm as int] is Unknown || s[rm as int] == p[rm as int]);
            }
            let es = super::edges::exchange_successors(s, rm, mapping);
            let ep = super::edges::exchange_successors(p, rm, mapping);
            if m < es.len() {
                assert(es == ep);
                assert(a[m] == b[m]);
            } else {
                assert(b[b.len() - 1] == k);
            }
        },
        InstructionKind::Thumb(ThumbOp::BranchExchange { rm }) => {
            if rm < 16 {
                assert(s[rm as int] is Unknown || s[rm as int] == p[rm as int]);
            }
            assert(a[m] == b[m]);
        },
        _ => {
            assert(a == b);
        },
    }
}

proof fn lemma_absorbs_refl(a: Seq<AbstractValue>)
    ensures
        absorbs(a, a),
{
}

fn same_state(a: &AbstractState, b: &AbstractState) -> (r: bool)
    ensures
        r == (a.regs@ == b.regs@),
{
    let mut k: usize = 0;
    while k < 16
        invariant
            k <= 16,
            forall|m: int| 0 <= m < k ==> a.regs@[m] == b.regs@[m],
        decreases 16 - k,
    {
        if a.regs[k] != b.regs[k] {
            return false;
        }
        k = k + 1;
    }
    proof {
        assert(a.regs@ =~= b.regs@);
    }
    true
}

fn same_keys(a: &Vec<BlockKey>, b: &Vec<BlockKey>) -> (r: bool)
    ensures
        r == (a@ == b@),
{
    if a.len() != b.len() {
        return false;
    }
    let mut k: usize = 0;
    while k < a.len()
        invariant
            k <= a.len(),
            a.len() == b.len(),
            forall|m: int| 0 <= m < k ==> a@[m] == b@[m],
        decreases a.len() - k,
    {
        if a[k] != b[k] {
            return false;
        }
        k = k + 1;
    }
    proof {
        assert(a@ =~= b@);
    }
    true
}

fn copy_keys(a: &Vec<BlockKey>) -> (r: Vec<BlockKey>)
    ensures
        r@ == a@,
{
    let mut out: Vec<BlockKey> = Vec::new();
    let mut k: usize = 0;
    while k < a.len()
        invariant
            k <= a.len(),
            out@ == a@.subrange(0, k as int),
        decreases a.len() - k,
    {
        out.push(a[k]);
        k = k + 1;
    }
    proof {
        assert(out@ =~= a@);
    }
    out
}

/// `new` comes from `old` by lowering states and appending fresh slots.
pub open spec fn lowered(old: Discovery, new: Discovery) -> bool {
    &&& new.len() >= old.len()
    &&& new.states@.len() == new.len()
    &&& new.done@.len() == new.len()
    &&& new.nodes@.len() == new.len()
    &&& forall|j: int| 0 <= j < old.len() ==> #[trigger] new.keys@[j] == old.keys@[j]
    &&& forall|j: int| 0 <= j < old.len() ==> #[trigger] new.done@[j] == old.done@[j]
    &&& forall|j: int| 0 <= j < old.len() ==> #[trigger] new.nodes@[j] == old.nodes@[j]
    &&& forall|j: int| 0 <= j < old.len() ==> absorbs(#[trigger] new.states@[j].regs@, old.states@[j].regs@)
    &&& forall|j: int| old.len() <= j < new.len() ==> #[trigger] new.done@[j] is None && new.nodes@[j] is None
}

impl Discovery {
    /// States only lose constants after processing.
    pub open spec fn below_done(&self) -> bool {
        forall|i: int| 0 <= i < self.len() && #[trigger] self.done@[i] is Some ==> absorbs(self.states@[i].regs@, self.done@[i]->0.regs@)
    }

    /// Index and bookkeeping shape, without the closure of processed slots.
    pub open spec fn shaped(&self, image: Seq<u8>, mapping: ImageMapping) -> bool {
        &&& self.states@.len() == self.len()
        &&& self.done@.len() == self.len()
        &&& self.nodes@.len() == self.len()
        &&& self.len() <= 0x2_0000_0000
        &&& forall|i: int| 0 <= i < self.len() ==> #[trigger] self.index@.contains_key(key_code(self.keys@[i]) as u64)
            && self.index@[key_code(self.keys@[i]) as u64] == i
        &&& forall|c: u64| #[trigger] self.index@.contains_key(c) ==> exists|i: int| 0 <= i < self.len() && key_code(self.keys@[i]) == c
        &&& forall|i: int| 0 <= i < self.len() ==> (#[trigger] self.done@[i] is Some <==> self.nodes@[i] is Some)
        &&& forall|i: int| 0 <= i < self.len() && #[trigger] self.nodes@[i] is Some ==>
            node_for(image, self.keys@[i], self.done@[i]->0, mapping, self.nodes@[i]->0)
        &&& self.below_done()
    }

    pub fn start(entry: BlockKey, Ghost(image): Ghost<Seq<u8>>, Ghost(mapping): Ghost<ImageMapping>) -> (d: Self)
        ensures
            d.wf(image, mapping),
            d.len() == 1,
            d.keys@[0] == entry,
            !clean(d.states@[0], d.done@[0]),
            d.states@[0].regs@ == initial_regs(),
    {
        let mut keys: Vec<BlockKey> = Vec::new();
        keys.push(entry);
        let mut states: Vec<AbstractState> = Vec::new();
        states.push(AbstractState::unknown());
        let mut done: Vec<Option<AbstractState>> = Vec::new();
        done.push(None);
        let mut nodes: Vec<Option<DiscoveredInstruction>> = Vec::new();
        nodes.push(None);
        let mut index: HashMap<u64, usize> = HashMap::new();
        index.insert(encode_key(entry), 0);
        let d = Discovery { keys, states, done, nodes, index };
        proof {
            assert forall|c: u64| #[trigger] d.index@.contains_key(c) implies exists|i: int| 0 <= i < d.len() && key_code(d.keys@[i]) == c by {
                assert(key_code(d.keys@[0]) == c);
            }
        }
        d
    }

    /// Gives `key` a fresh slot holding `state`.
    pub fn add_slot(&mut self, key: BlockKey, state: AbstractState, Ghost(image): Ghost<Seq<u8>>, Ghost(mapping): Ghost<ImageMapping>) -> (j: usize)
        requires
            old(self).shaped(image, mapping),
            !old(self).has_slot(key),
        ensures
            final(self).shaped(image, mapping),
            j == old(self).len(),
            final(self).keys@ == old(self).keys@.push(key),
            final(self).states@ == old(self).states@.push(state),
            final(self).done@ == old(self).done@.push(None),
            final(self).nodes@ == old(self).nodes@.push(None),
    {
        let j = self.keys.len();
        let code = encode_key(key);
        self.keys.push(key);
        self.states.push(state);
        self.done.push(None);
        self.nodes.push(None);
        self.index.insert(code, j);
        proof {
            let o = old(self);
            assert forall|i: int| 0 <= i < self.len() implies #[trigger] self.index@.contains_key(key_code(self.keys@[i]) as u64)
                && self.index@[key_code(self.keys@[i]) as u64] == i by {
                if i < j {
                    assert(o.index@.contains_key(key_code(o.keys@[i]) as u64));
                    assert(self.keys@[i] != key);
                    super::model::lemma_key_code_injective(self.keys@[i], key);
                    assert(0 <= key_code(key) < 0x2_0000_0000);
                    assert(0 <= key_code(self.keys@[i]) < 0x2_0000_0000);
                }
            }
            assert forall|c: u64| #[trigger] self.index@.contains_key(c) implies exists|i: int| 0 <= i < self.len() && key_code(self.keys@[i]) == c by {
                if c == code {
                    assert(key_code(self.keys@[j as int]) == c);
                } else {
                    assert(o.index@.contains_key(c));
                    let i = choose|i: int| 0 <= i < o.len() && key_code(o.keys@[i]) == c;
                    assert(self.keys@[i] == o.keys@[i]);
                }
            }
            lemma_codes_bound(self.keys@, self.index@);
            assert forall|i: int| 0 <= i < self.len() && #[trigger] self.nodes@[i] is Some implies
                node_for(image, self.keys@[i], self.done@[i]->0, mapping, self.nodes@[i]->0) by {
                assert(o.nodes@[i] is Some);
            }
            assert forall|i: int| 0 <= i < self.len() && #[trigger] self.done@[i] is Some implies absorbs(self.states@[i].regs@, self.done@[i]->0.regs@) by {
                assert(o.done@[i] is Some);
            }
        }
        j
    }
}


/// Closure of processed slots survives lowering states and adding slots.
proof fn lemma_lowered_keeps_closure(old_d: Discovery, new_d: Discovery, image: Seq<u8>, mapping: ImageMapping, skip: int)
    requires
        lowered(old_d, new_d),
        old_d.shaped(image, mapping),
        forall|i: int| 0 <= i < old_d.len() && i != skip && clean(old_d.states@[i], #[trigger] old_d.done@[i]) ==> old_d.closed_at(image, mapping, i),
    ensures
        forall|i: int| 0 <= i < new_d.len() && i != skip && clean(new_d.states@[i], #[trigger] new_d.done@[i]) ==> new_d.closed_at(image, mapping, i),
{
    assert forall|i: int| 0 <= i < new_d.len() && i != skip && clean(new_d.states@[i], #[trigger] new_d.done@[i]) implies new_d.closed_at(image, mapping, i) by {
        assert(i < old_d.len());
        assert(new_d.done@[i] == old_d.done@[i]);
        assert(old_d.done@[i] is Some);
        let dn = old_d.done@[i]->0.regs@;
        assert(absorbs(old_d.states@[i].regs@, dn));
        assert(absorbs(new_d.states@[i].regs@, old_d.states@[i].regs@));
        assert(new_d.states@[i].regs@ == dn);
        lemma_absorbs_antisym(old_d.states@[i].regs@, dn);
        assert(clean(old_d.states@[i], old_d.done@[i]));
        assert(old_d.closed_at(image, mapping, i));
        assert(new_d.nodes@[i] == old_d.nodes@[i]);
        let d = new_d.nodes@[i]->0;
        let after = transfer_spec(image, d.instruction, new_d.states@[i].regs@, mapping);
        assert forall|m: int| 0 <= m < d.successors@.len() && mapping_contains(mapping, #[trigger] d.successors@[m].address) implies
            exists|j: int| 0 <= j < new_d.len() && new_d.keys@[j] == d.successors@[m] && absorbs(new_d.states@[j].regs@, after) by {
            let j = choose|j: int| 0 <= j < old_d.len() && old_d.keys@[j] == d.successors@[m] && absorbs(old_d.states@[j].regs@, after);
            assert(new_d.keys@[j] == old_d.keys@[j]);
            assert(absorbs(new_d.states@[j].regs@, old_d.states@[j].regs@));
            lemma_absorbs_trans(new_d.states@[j].regs@, old_d.states@[j].regs@, after);
        }
    }
}

/// Some successors of the processed slot already have their state accounted for.
pub open spec fn partly_closed(d: Discovery, succs: Seq<BlockKey>, after: Seq<AbstractValue>, mapping: ImageMapping, k: int) -> bool {
    forall|m: int| 0 <= m < k && mapping_contains(mapping, #[trigger] succs[m].address) ==>
        exists|j: int| 0 <= j < d.len() && d.keys@[j] == succs[m] && absorbs(d.states@[j].regs@, after)
}

proof fn lemma_lowered_keeps_partial(old_d: Discovery, new_d: Discovery, succs: Seq<BlockKey>, after: Seq<AbstractValue>, mapping: ImageMapping, k: int)
    requires
        lowered(old_d, new_d),
        partly_closed(old_d, succs, after, mapping, k),
    ensures
        partly_closed(new_d, succs, after, mapping, k),
{
    assert forall|m: int| 0 <= m < k && mapping_contains(mapping, #[trigger] succs[m].address) implies
        exists|j: int| 0 <= j < new_d.len() && new_d.keys@[j] == succs[m] && absorbs(new_d.states@[j].regs@, after) by {
        let j = choose|j: int| 0 <= j < old_d.len() && old_d.keys@[j] == succs[m] && absorbs(old_d.states@[j].regs@, after);
        assert(new_d.keys@[j] == old_d.keys@[j]);
        assert(absorbs(new_d.states@[j].regs@, old_d.states@[j].regs@));
        lemma_absorbs_trans(new_d.states@[j].regs@, old_d.states@[j].regs@, after);
    }
}

/// Every stale slot waits in the unread part of the queue.
pub open spec fn stale_queued(d: Discovery, queue: Seq<usize>, head: int) -> bool {
    forall|i: int| 0 <= i < d.len() && !clean(d.states@[i], #[trigger] d.done@[i]) ==>
        exists|q: int| head <= q < queue.len() && queue[q] == i
}

/// Explores the locations reachable from `entry` until every slot has been
/// processed with its final state. The result is closed: each processed
/// location carries its decoded instruction and the successors computed from
/// its state, and every in-image successor has a slot whose state accounts
/// for the values flowing in.
pub fn discover_reachable(image: &[u8], entry: BlockKey, mapping: ImageMapping) -> (r: Result<Discovery, DecodeError>)
    requires
        mapping_contains(mapping, entry.address),
    ensures
        match r {
            Ok(d) => {
                &&& d.wf(image@, mapping)
                &&& d.len() >= 1
                &&& d.keys@[0] == entry
                &&& forall|i: int| 0 <= i < d.len() ==> clean(d.states@[i], #[trigger] d.done@[i])
            },
            Err(e) => exists|k: BlockKey|
                #[trigger] reached(image@, mapping, entry, k) && mapping_contains(mapping, k.address) && decode_at_spec(image@, k, mapping)
                    == Err::<Instruction, DecodeError>(e),
        },
        r matches Ok(d) ==> forall|j: int| 0 <= j < d.len() ==> reached_with(image@, mapping, entry, #[trigger] d.keys@[j], d.states@[j].regs@),
{
    let ghost img = image@;
    let mut disc = Discovery::start(entry, Ghost(img), Ghost(mapping));
    let mut queue: Vec<usize> = Vec::new();
    queue.push(0);
    let mut head: usize = 0;
    proof {
        assert(queue@[0] == 0);
        let p0 = seq![(entry, initial_regs())];
        assert(disc.states@[0].regs@ =~= initial_regs());
        assert(path_ok(img, mapping, entry, p0));
        lemma_absorbs_refl(initial_regs());
        assert(p0.last().0 == disc.keys@[0] && absorbs(disc.states@[0].regs@, p0.last().1));
    }
    while head < queue.len()
        invariant
            disc.wf(img, mapping),
            img == image@,
            disc.len() >= 1,
            disc.keys@[0] == entry,
            head <= queue.len(),
            forall|q: int| 0 <= q < queue.len() ==> #[trigger] queue@[q] < disc.len(),
            stale_queued(disc, queue@, head as int),
            forall|ii: int| 0 <= ii < disc.len() ==> mapping_contains(mapping, (#[trigger] disc.keys@[ii]).address),
            forall|ii: int| 0 <= ii < disc.len() ==> reached_with(img, mapping, entry, #[trigger] disc.keys@[ii], disc.states@[ii].regs@),
        decreases 0x2_0000_0000 - disc.len(), disc.potential(), queue.len() - head,
    {
        let ghost d0 = disc;
        let ghost phi0 = disc.potential();
        let ghost n0 = disc.len();
        let i = queue[head];
        head = head + 1;
        let ghost qlen1 = queue.len();
        let key = disc.keys[i];
        let state = disc.states[i];
        let ghost pi = choose|p: Seq<(BlockKey, Seq<AbstractValue>)>|
            #[trigger] path_ok(img, mapping, entry, p) && p.last().0 == key && absorbs(state.regs@, p.last().1);
        proof {
            assert(reached_with(img, mapping, entry, disc.keys@[i as int], disc.states@[i as int].regs@));
            assert(path_ok(img, mapping, entry, pi) && pi.last().0 == key && absorbs(state.regs@, pi.last().1));
        }
        let ins = match decode_at(image, key, mapping) {
            Ok(ins) => ins,
            Err(e) => {
                proof {
                    assert(reached(img, mapping, entry, key));
                }
                return Err(e);
            },
        };
        let after = transfer_instruction(image, ins, state, mapping);
        let succs = instruction_successors(ins, &after, mapping);
        let edges_changed = match &disc.nodes[i] {
            Some(node) => !same_keys(&node.successors, &succs),
            None => true,
        };
        proof {
            if clean(d0.states@[i as int], d0.done@[i as int]) {
                assert(d0.nodes@[i as int] is Some);
                assert(node_for(img, key, d0.done@[i as int]->0, mapping, d0.nodes@[i as int]->0));
                assert(!edges_changed);
            }
        }
        disc.done.set(i, Some(state));
        let node = DiscoveredInstruction { instruction: ins, successors: copy_keys(&succs) };
        disc.nodes.set(i, Some(node));
        let ghost phi5 = disc.potential();
        proof {
            assert(d0.states@.update(i as int, state) =~= d0.states@);
            lemma_phi_update(d0.states@, d0.done@, n0, i as int, state, Some(state));
            assert(disc.states@ == d0.states@);
            assert(disc.keys@ == d0.keys@);
            assert forall|ii: int| 0 <= ii < disc.len() implies reached_with(img, mapping, entry, #[trigger] disc.keys@[ii], disc.states@[ii].regs@) by {
                assert(reached_with(img, mapping, entry, d0.keys@[ii], d0.states@[ii].regs@));
            }
            assert forall|ii: int| 0 <= ii < disc.len() && ii != i && clean(disc.states@[ii], #[trigger] disc.done@[ii]) implies disc.closed_at(img, mapping, ii) by {
                assert(disc.done@[ii] == d0.done@[ii]);
                assert(disc.nodes@[ii] == d0.nodes@[ii]);
                assert(d0.closed_at(img, mapping, ii));
            }
            assert forall|ii: int| 0 <= ii < disc.len() && #[trigger] disc.nodes@[ii] is Some implies
                node_for(img, disc.keys@[ii], disc.done@[ii]->0, mapping, disc.nodes@[ii]->0) by {
                if ii != i {
                    assert(d0.nodes@[ii] is Some);
                }
            }
            assert forall|ii: int| 0 <= ii < disc.len() && #[trigger] disc.done@[ii] is Some implies absorbs(disc.states@[ii].regs@, disc.done@[ii]->0.regs@) by {
                if ii != i {
                    assert(d0.done@[ii] is Some);
                }
            }
            assert forall|c: u64| #[trigger] disc.index@.contains_key(c) implies exists|ii: int| 0 <= ii < disc.len() && key_code(disc.keys@[ii]) == c by {
                assert(d0.index@.contains_key(c));
            }
            assert(disc.shaped(img, mapping));
            assert forall|ii: int| 0 <= ii < disc.len() && !clean(disc.states@[ii], #[trigger] disc.done@[ii]) implies
                exists|q: int| head <= q < queue@.len() && queue@[q] == ii by {
                assert(ii != i);
                assert(!clean(d0.states@[ii], d0.done@[ii]));
                let q = choose|q: int| head - 1 <= q < queue@.len() && queue@[q] == ii;
                assert(q != head - 1);
            }
        }
        let mut k: usize = 0;
        while k < succs.len()
            invariant
                img == image@,
                disc.shaped(img, mapping),
                forall|ii: int| 0 <= ii < disc.len() && ii != i && clean(disc.states@[ii], #[trigger] disc.done@[ii]) ==> disc.closed_at(img, mapping, ii),
                partly_closed(disc, succs@, after.regs@, mapping, k as int),
                k <= succs.len(),
                i < disc.len(),
                disc.len() >= n0,
                disc.len() >= 1,
                disc.keys@[0] == entry,
                disc.keys@[i as int] == key,
                disc.done@[i as int] == Some(state),
                disc.nodes@[i as int] is Some,
                disc.nodes@[i as int]->0.instruction == ins,
                disc.nodes@[i as int]->0.successors@ == succs@,
                after.regs@ == transfer_spec(img, ins, state.regs@, mapping),
                head <= qlen1,
                queue.len() >= qlen1,
                forall|q: int| 0 <= q < queue.len() ==> #[trigger] queue@[q] < disc.len(),
                stale_queued(disc, queue@, head as int),
                phi5 <= phi0,
                edges_changed ==> phi5 < phi0,
                disc.len() == n0 ==> disc.potential() <= phi5,
                disc.len() == n0 && queue.len() > qlen1 ==> disc.potential() < phi0,
                forall|ii: int| 0 <= ii < disc.len() ==> mapping_contains(mapping, (#[trigger] disc.keys@[ii]).address),
                forall|ii: int| 0 <= ii < disc.len() ==> reached_with(img, mapping, entry, #[trigger] disc.keys@[ii], disc.states@[ii].regs@),
                path_ok(img, mapping, entry, pi),
                pi.last().0 == key,
                absorbs(state.regs@, pi.last().1),
                decode_at_spec(img, key, mapping) == Ok::<Instruction, DecodeError>(ins),
                succs@ == successors_spec(ins, after.regs@, mapping),
            decreases succs.len() - k,
        {
            let s = succs[k];
            let ghost d1 = disc;
            let ghost q1 = queue@;
            if in_image_key(mapping, s) {
                match disc.lookup(s, Ghost(img), Ghost(mapping)) {
                    Some(j) => {
                        let existing = disc.states[j];
                        let joined = existing.join(after);
                        let changed = !same_state(&joined, &existing);
                        proof {
                            lemma_join_lowers(existing.regs@, after.regs@);
                        }
                        if changed || edges_changed {
                            disc.states.set(j, joined);
                            queue.push(j);
                            proof {
                                let dj = d1.done@[j as int];
                                lemma_phi_update(d1.states@, d1.done@, d1.len(), j as int, joined, dj);
                                assert(d1.done@.update(j as int, dj) =~= d1.done@);
                                lemma_count_bound(joined.regs@);
                                assert forall|jj: int| 0 <= jj < d1.len() implies absorbs(#[trigger] disc.states@[jj].regs@, d1.states@[jj].regs@) by {
                                    if jj == j {
                                        assert(absorbs(join_spec(existing.regs@, after.regs@), existing.regs@)) by {
                                            assert forall|r: int| 0 <= r < 16 implies (#[trigger] join_spec(existing.regs@, after.regs@)[r] is Unknown || join_spec(existing.regs@, after.regs@)[r] == existing.regs@[r]) by {}
                                        }
                                    } else {
                                        lemma_absorbs_refl(d1.states@[jj].regs@);
                                    }
                                }
                                assert(lowered(d1, disc));
                                assert forall|ii: int| 0 <= ii < disc.len() implies reached_with(
                                    img,
                                    mapping,
                                    entry,
                                    #[trigger] disc.keys@[ii],
                                    disc.states@[ii].regs@,
                                ) by {
                                    assert(reached_with(img, mapping, entry, d1.keys@[ii], d1.states@[ii].regs@));
                                    let p = choose|p: Seq<(BlockKey, Seq<AbstractValue>)>|
                                        #[trigger] path_ok(img, mapping, entry, p) && p.last().0 == d1.keys@[ii] && absorbs(d1.states@[ii].regs@, p.last().1);
                                    assert(absorbs(disc.states@[ii].regs@, d1.states@[ii].regs@));
                                    lemma_absorbs_trans(disc.states@[ii].regs@, d1.states@[ii].regs@, p.last().1);
                                    assert(path_ok(img, mapping, entry, p));
                                }
                                lemma_lowered_keeps_closure(d1, disc, img, mapping, i as int);
                                lemma_lowered_keeps_partial(d1, disc, succs@, after.regs@, mapping, k as int);
                                assert forall|ii: int| 0 <= ii < disc.len() && #[trigger] disc.done@[ii] is Some implies absorbs(disc.states@[ii].regs@, disc.done@[ii]->0.regs@) by {
                                    assert(d1.done@[ii] is Some);
                                    lemma_absorbs_trans(disc.states@[ii].regs@, d1.states@[ii].regs@, disc.done@[ii]->0.regs@);
                                }
                                assert forall|c: u64| #[trigger] disc.index@.contains_key(c) implies exists|ii: int| 0 <= ii < disc.len() && key_code(disc.keys@[ii]) == c by {
                                    assert(d1.index@.contains_key(c));
                                }
                                assert forall|ii: int| 0 <= ii < disc.len() && #[trigger] disc.nodes@[ii] is Some implies
                                    node_for(img, disc.keys@[ii], disc.done@[ii]->0, mapping, disc.nodes@[ii]->0) by {
                                    assert(d1.nodes@[ii] is Some);
                                }
                                assert(disc.shaped(img, mapping));
                                assert(absorbs(disc.states@[j as int].regs@, after.regs@));
                                assert(disc.keys@[j as int] == succs@[k as int]);
                                assert(partly_closed(disc, succs@, after.regs@, mapping, k + 1));
                                assert forall|ii: int| 0 <= ii < disc.len() && !clean(disc.states@[ii], #[trigger] disc.done@[ii]) implies
                                    exists|q: int| head <= q < queue@.len() && queue@[q] == ii by {
                                    if ii == j {
                                        assert(queue@[queue@.len() - 1] == ii);
                                    } else {
                                        assert(!clean(d1.states@[ii], d1.done@[ii]));
                                        let q = choose|q: int| head <= q < q1.len() && q1[q] == ii;
                                        assert(queue@[q] == q1[q]);
                                    }
                                }
                            }
                        } else {
                            proof {
                                assert(joined.regs@ == existing.regs@);
                                assert(absorbs(disc.states@[j as int].regs@, after.regs@));
                                assert(partly_closed(disc, succs@, after.regs@, mapping, k + 1));
                            }
                        }
                    },
                    None => {
                        let j = disc.add_slot(s, after, Ghost(img), Ghost(mapping));
                        queue.push(j);
                        proof {
                            assert forall|ii: int| 0 <= ii < disc.len() implies mapping_contains(mapping, (#[trigger] disc.keys@[ii]).address) by {
                                if ii < d1.len() {
                                    assert(disc.keys@[ii] == d1.keys@[ii]);
                                }
                            }
                            let last = pi.last();
                            let pl = transfer_spec(img, ins, last.1, mapping);
                            let pn = pi.push((s, pl));
                            assert(pi[pi.len() - 1].1.len() == 16);
                            assert(state.regs@.len() == 16);
                            lemma_transfer_mono(img, ins, state.regs@, last.1, mapping);
                            assert(succs@.contains(s)) by {
                                assert(succs@[k as int] == s);
                            }
                            lemma_successors_mono(ins, after.regs@, pl, mapping, s);
                            assert(step_ok(img, mapping, pn[pi.len() - 1], pn[pi.len() as int]));
                            assert(path_ok(img, mapping, entry, pn)) by {
                                assert forall|t: int| 0 <= t < pn.len() - 1 implies step_ok(img, mapping, #[trigger] pn[t], pn[t + 1]) by {
                                    if t < pi.len() - 1 {
                                        assert(pn[t] == pi[t] && pn[t + 1] == pi[t + 1]);
                                    }
                                }
                                assert forall|t: int| 0 <= t < pn.len() implies (#[trigger] pn[t]).1.len() == 16 by {
                                    if t < pi.len() {
                                        assert(pn[t] == pi[t]);
                                    }
                                }
                            }
                            assert forall|ii: int| 0 <= ii < disc.len() implies reached_with(img, mapping, entry, #[trigger] disc.keys@[ii], disc.states@[ii].regs@) by {
                                if ii < d1.len() {
                                    assert(disc.keys@[ii] == d1.keys@[ii]);
                                    assert(disc.states@[ii] == d1.states@[ii]);
                                    assert(reached_with(img, mapping, entry, d1.keys@[ii], d1.states@[ii].regs@));
                                } else {
                                    assert(pn.last() == (s, pl));
                                    assert(path_ok(img, mapping, entry, pn) && pn.last().0 == disc.keys@[ii] && absorbs(disc.states@[ii].regs@, pn.last().1));
                                }
                            }
                            assert forall|jj: int| 0 <= jj < d1.len() implies absorbs(#[trigger] disc.states@[jj].regs@, d1.states@[jj].regs@) by {
                                lemma_absorbs_refl(d1.states@[jj].regs@);
                            }
                            assert(lowered(d1, disc));
                            lemma_lowered_keeps_closure(d1, disc, img, mapping, i as int);
                            lemma_lowered_keeps_partial(d1, disc, succs@, after.regs@, mapping, k as int);
                            lemma_absorbs_refl(after.regs@);
                            assert(disc.keys@[j as int] == succs@[k as int]);
                            assert(partly_closed(disc, succs@, after.regs@, mapping, k + 1));
                            assert forall|ii: int| 0 <= ii < disc.len() && !clean(disc.states@[ii], #[trigger] disc.done@[ii]) implies
                                exists|q: int| head <= q < queue@.len() && queue@[q] == ii by {
                                if ii == j {
                                    assert(queue@[queue@.len() - 1] == ii);
                                } else {
                                    assert(!clean(d1.states@[ii], d1.done@[ii]));
                                    let q = choose|q: int| head <= q < q1.len() && q1[q] == ii;
                                    assert(queue@[q] == q1[q]);
                                }
                            }
                        }
                    },
                }
            } else {
                proof {
                    assert(partly_closed(disc, succs@, after.regs@, mapping, k + 1));
                }
            }
            k = k + 1;
        }
        proof {
            if clean(disc.states@[i as int], disc.done@[i as int]) {
                assert(disc.states@[i as int].regs@ == state.regs@);
                assert(disc.closed_at(img, mapping, i as int));
            }
        }
    }
    proof {
        assert forall|ii: int| 0 <= ii < disc.len() implies clean(disc.states@[ii], #[trigger] disc.done@[ii]) by {
            if !clean(disc.states@[ii], disc.done@[ii]) {
                let q = choose|q: int| head <= q < queue@.len() && queue@[q] == ii;
            }
        }
    }
    Ok(disc)
}

fn in_image_key(mapping: ImageMapping, key: BlockKey) -> (r: bool)
    ensures
        r == mapping_contains(mapping, key.address),
{
    mapping.contains(key.address)
}

} // verus!
