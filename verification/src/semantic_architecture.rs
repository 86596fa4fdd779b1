//! The architectural contract of a program: per-instruction effects, blocks
//! of contiguous instructions, and successors that name blocks.
use vstd::prelude::*;
use std::collections::HashSet;

use crate::decoder::Mode;

verus! {

#[derive(Debug, Clone, Copy, PartialEq, Eq, Hash, Structural)]
pub struct InstructionKey {
    pub address: u32,
    pub mode: Mode,
    pub size: u8,
}

#[derive(Debug, Clone, Copy, PartialEq, Eq, Hash, Structural)]
pub enum MemoryWidth {
    Byte,
    Halfword,
    Word,
}

#[derive(Debug, Clone, Copy, PartialEq, Eq, Hash, Structural)]
pub enum MemoryAccess {
    Read,
    Write,
    ReadWrite,
}

#[derive(Debug, Clone, Copy, PartialEq, Eq, Hash, Structural)]
pub struct MemoryEffect {
    pub access: MemoryAccess,
    pub width: MemoryWidth,
    pub base_register: Option<u8>,
    pub dynamic_address: bool,
}

#[derive(Debug, Clone, Copy, PartialEq, Eq, Hash, Structural)]
pub struct FlagEffects {
    pub read_n: bool,
    pub read_z: bool,
    pub read_c: bool,
    pub read_v: bool,
    pub write_n: bool,
    pub write_z: bool,
    pub write_c: bool,
    pub write_v: bool,
}

impl Default for FlagEffects {
    fn default() -> (r: Self)
        ensures
            r == (FlagEffects {
                read_n: false,
                read_z: false,
                read_c: false,
                read_v: false,
                write_n: false,
                write_z: false,
                write_c: false,
                write_v: false,
            }),
    {
        FlagEffects {
            read_n: false,
            read_z: false,
            read_c: false,
            read_v: false,
            write_n: false,
            write_z: false,
            write_c: false,
            write_v: false,
        }
    }
}

#[derive(Debug, Clone, Copy, PartialEq, Eq, Hash, Structural)]
pub enum ControlEffect {
    Fallthrough,
    Branch { target: u32, conditional: bool, link: bool },
    Exchange { register: u8, link: bool },
    Return { register: u8 },
    Exception,
    Unknown,
}

#[derive(Debug)]
pub struct ArchitecturalInstruction {
    pub key: InstructionKey,
    pub reads: HashSet<u8>,
    pub writes: HashSet<u8>,
    pub flags: FlagEffects,
    pub memory: Option<MemoryEffect>,
    pub control: ControlEffect,
}

/// A block: its start, mode, instructions, and the `(address, mode)` of
/// each successor.
#[derive(Debug)]
pub struct ArchitecturalBlock {
    pub address: u32,
    pub mode: Mode,
    pub instructions: Vec<ArchitecturalInstruction>,
    pub successors: Vec<(u32, Mode)>,
}

#[derive(Debug, Clone, Copy, PartialEq, Eq, Structural)]
pub enum ContractError {
    DuplicateInstruction(InstructionKey),
    NonContiguousBlock { block: u32, expected: u32, actual: u32 },
    InvalidSuccessor { block: u32, address: u32, mode: Mode },
    EmptyBlock(u32),
}

/// Blocks keyed by `(address, mode)`; a key names one block.
#[derive(Debug)]
pub struct ArchitecturalProgram {
    pub blocks: Vec<((u32, Mode), ArchitecturalBlock)>,
}

/// `address + size`, wrapping at 2^32.
pub open spec fn wrapping_next(address: u32, size: u8) -> u32 {
    if address + size > u32::MAX {
        (address + size - 0x1_0000_0000) as u32
    } else {
        (address + size) as u32
    }
}

/// Where instruction `i` of a block starting at `start` must begin: after
/// the sizes of those before it.
pub open spec fn expected_at(start: u32, ins: Seq<ArchitecturalInstruction>, i: nat) -> u32
    decreases i,
{
    if i == 0 {
        start
    } else {
        wrapping_next(expected_at(start, ins, (i - 1) as nat), ins[i - 1].key.size)
    }
}

/// Instruction `i` of the block under `key` is where and in the mode the
/// block requires.
pub open spec fn in_place(key: (u32, Mode), ins: Seq<ArchitecturalInstruction>, i: int) -> bool {
    ins[i].key.address == expected_at(key.0, ins, i as nat) && ins[i].key.mode == key.1
}

pub open spec fn has_block(p: Seq<((u32, Mode), ArchitecturalBlock)>, key: (u32, Mode)) -> bool {
    exists|j: int| 0 <= j < p.len() && (#[trigger] p[j]).0 == key
}

/// No block key occurs twice in the program.
pub open spec fn keys_unique(p: Seq<((u32, Mode), ArchitecturalBlock)>) -> bool {
    forall|i: int, j: int| 0 <= i < j < p.len() ==> (#[trigger] p[i]).0 != (#[trigger] p[j]).0
}

/// No instruction key occurs twice in the program.
pub open spec fn instructions_unique(p: Seq<((u32, Mode), ArchitecturalBlock)>) -> bool {
    forall|b1: int, i1: int, b2: int, i2: int|
        0 <= b1 < p.len() && 0 <= i1 < p[b1].1.instructions@.len() && 0 <= b2 < p.len() && 0 <= i2 < p[b2].1.instructions@.len() && (b1
            != b2 || i1 != i2) ==> (#[trigger] p[b1].1.instructions@[i1]).key != (#[trigger] p[b2].1.instructions@[i2]).key
}

/// Every block has an instruction, each in place, no instruction key
/// repeats, and every successor names a block.
pub open spec fn contract_holds(p: Seq<((u32, Mode), ArchitecturalBlock)>) -> bool {
    &&& forall|b: int| 0 <= b < p.len() ==> (#[trigger] p[b]).1.instructions@.len() > 0
    &&& forall|b: int, i: int| 0 <= b < p.len() && 0 <= i < p[b].1.instructions@.len() ==> #[trigger] in_place(p[b].0, p[b].1.instructions@, i)
    &&& instructions_unique(p)
    &&& forall|b: int, s: int| 0 <= b < p.len() && 0 <= s < p[b].1.successors@.len() ==> has_block(p, #[trigger] p[b].1.successors@[s])
}

/// Each error names a real violation.
pub open spec fn contract_error_sound(p: Seq<((u32, Mode), ArchitecturalBlock)>, e: ContractError) -> bool {
    match e {
        ContractError::EmptyBlock(a) => exists|b: int| 0 <= b < p.len() && (#[trigger] p[b]).0.0 == a && p[b].1.instructions@.len() == 0,
        ContractError::DuplicateInstruction(k) => exists|b1: int, i1: int, b2: int, i2: int|
            0 <= b1 < p.len() && 0 <= i1 < p[b1].1.instructions@.len() && 0 <= b2 < p.len() && 0 <= i2 < p[b2].1.instructions@.len() && (b1
                != b2 || i1 != i2) && (#[trigger] p[b1].1.instructions@[i1]).key == k && (#[trigger] p[b2].1.instructions@[i2]).key == k,
        ContractError::NonContiguousBlock { block, expected, actual } => exists|b: int, i: int|
            0 <= b < p.len() && 0 <= i < p[b].1.instructions@.len() && p[b].0.0 == block && !(#[trigger] in_place(p[b].0, p[b].1.instructions@, i))
                && expected == expected_at(block, p[b].1.instructions@, i as nat) && actual == p[b].1.instructions@[i].key.address,
        ContractError::InvalidSuccessor { block, address, mode } => exists|b: int, s: int|
            0 <= b < p.len() && 0 <= s < p[b].1.successors@.len() && p[b].0.0 == block && (#[trigger] p[b].1.successors@[s]) == (address, mode)
                && !has_block(p, (address, mode)),
    }
}

fn next_expected(address: u32, size: u8) -> (r: u32)
    ensures
        r == wrapping_next(address, size),
{
    let s = size as u32;
    if address > u32::MAX - s {
        s - (u32::MAX - address) - 1
    } else {
        address + s
    }
}

/// Block `b`, instruction `i` is checked before block `b0`, instruction `i0`.
pub open spec fn checked_before(p: Seq<((u32, Mode), ArchitecturalBlock)>, b0: int, i0: int, b: int, i: int) -> bool {
    0 <= b < p.len() && 0 <= i < p[b].1.instructions@.len() && (b < b0 || (b == b0 && i < i0))
}

/// What the check knows once the instructions before `(b0, i0)` are
/// checked: each is in place with its key in `seen`, no two share a key,
/// and every key in `seen` is one of theirs.
pub open spec fn checked(p: Seq<((u32, Mode), ArchitecturalBlock)>, b0: int, i0: int, seen: Seq<InstructionKey>) -> bool {
    &&& forall|b: int, i: int|
        #[trigger] checked_before(p, b0, i0, b, i) ==> seen.contains(p[b].1.instructions@[i].key) && in_place(p[b].0, p[b].1.instructions@, i)
    &&& forall|b1: int, i1: int, b2: int, i2: int|
        #[trigger] checked_before(p, b0, i0, b1, i1) && #[trigger] checked_before(p, b0, i0, b2, i2) && (b1 != b2 || i1 != i2) ==> p[b1].1.instructions@[i1].key
            != p[b2].1.instructions@[i2].key
    &&& forall|x: int| 0 <= x < seen.len() ==> #[trigger] key_checked(p, b0, i0, seen[x])
}

/// Some instruction checked before `(b0, i0)` has key `k`.
pub open spec fn key_checked(p: Seq<((u32, Mode), ArchitecturalBlock)>, b0: int, i0: int, k: InstructionKey) -> bool {
    exists|b: int, i: int| #[trigger] checked_before(p, b0, i0, b, i) && p[b].1.instructions@[i].key == k
}

/// Every block before `b` passes the check: it has instructions, each in
/// place, no two instructions before block `b` share a key, and its
/// successors name blocks.
pub open spec fn passed_before(p: Seq<((u32, Mode), ArchitecturalBlock)>, b: int) -> bool {
    &&& forall|x: int| 0 <= x < b ==> (#[trigger] p[x]).1.instructions@.len() > 0
    &&& forall|x: int, s: int| 0 <= x < b && 0 <= s < p[x].1.successors@.len() ==> has_block(p, #[trigger] p[x].1.successors@[s])
    &&& forall|b2: int, i2: int| #[trigger] checked_before(p, b, 0, b2, i2) ==> in_place(p[b2].0, p[b2].1.instructions@, i2)
    &&& forall|b1: int, i1: int, b2: int, i2: int|
        #[trigger] checked_before(p, b, 0, b1, i1) && #[trigger] checked_before(p, b, 0, b2, i2) && (b1 != b2 || i1 != i2) ==> p[b1].1.instructions@[i1].key
            != p[b2].1.instructions@[i2].key
}

/// The error is one that block `b` gives: an empty block, an instruction out
/// of place, an instruction whose key an earlier one has, or a successor
/// naming no block.
pub open spec fn error_at(p: Seq<((u32, Mode), ArchitecturalBlock)>, b: int, e: ContractError) -> bool {
    let key = p[b].0;
    let ins = p[b].1.instructions@;
    match e {
        ContractError::EmptyBlock(a) => a == key.0 && ins.len() == 0,
        ContractError::DuplicateInstruction(k) => exists|i: int, b2: int, i2: int|
            0 <= i < ins.len() && #[trigger] checked_before(p, b, i, b2, i2) && p[b2].1.instructions@[i2].key == k && ins[i].key == k,
        ContractError::NonContiguousBlock { block, expected, actual } => block == key.0 && exists|i: int|
            0 <= i < ins.len() && !(#[trigger] in_place(key, ins, i)) && expected == expected_at(block, ins, i as nat) && actual
                == ins[i].key.address,
        ContractError::InvalidSuccessor { block, address, mode } => block == key.0 && exists|s: int|
            0 <= s < p[b].1.successors@.len() && (#[trigger] p[b].1.successors@[s]) == (address, mode) && !has_block(p, (address, mode)),
    }
}

impl ArchitecturalProgram {
    pub fn new() -> (r: Self)
        ensures
            r.blocks@.len() == 0,
    {
        ArchitecturalProgram { blocks: Vec::new() }
    }

    /// Puts `block` under `key`, replacing the block that had the key.
    pub fn insert_block(&mut self, key: (u32, Mode), block: ArchitecturalBlock)
        ensures
            exists|j: int|
                0 <= j < final(self).blocks@.len() && final(self).blocks@[j] == (key, block) && forall|x: int|
                    0 <= x < j ==> (#[trigger] final(self).blocks@[x]).0 != key,
            forall|k: (u32, Mode)| k != key ==> (has_block(final(self).blocks@, k) <==> has_block(old(self).blocks@, k)),
            has_block(old(self).blocks@, key) ==> exists|j: int|
                0 <= j < old(self).blocks@.len() && (#[trigger] old(self).blocks@[j]).0 == key && (forall|x: int|
                    0 <= x < j ==> (#[trigger] old(self).blocks@[x]).0 != key) && final(self).blocks@ == old(self).blocks@.update(
                    j,
                    (key, block),
                ),
            !has_block(old(self).blocks@, key) ==> final(self).blocks@ == old(self).blocks@.push((key, block)),
            final(self).blocks@.len() == old(self).blocks@.len() + if has_block(old(self).blocks@, key) {
                0int
            } else {
                1int
            },
            keys_unique(old(self).blocks@) ==> keys_unique(final(self).blocks@),
    {
        let mut j: usize = 0;
        while j < self.blocks.len()
            invariant
                j <= self.blocks@.len(),
                self.blocks@ == old(self).blocks@,
                forall|x: int| 0 <= x < j ==> (#[trigger] self.blocks@[x]).0 != key,
            decreases self.blocks@.len() - j,
        {
            if self.blocks[j].0.0 == key.0 && self.blocks[j].0.1 == key.1 {
                let ghost before = self.blocks@;
                self.blocks.set(j, (key, block));
                proof {
                    assert(self.blocks@[j as int] == (key, block));
                    assert(before == old(self).blocks@);
                    assert(old(self).blocks@[j as int].0 == key);
                    assert(self.blocks@ == old(self).blocks@.update(j as int, (key, block)));
                    assert(has_block(old(self).blocks@, key));
                    if keys_unique(before) {
                        assert forall|a: int, c: int| 0 <= a < c < self.blocks@.len() implies (#[trigger] self.blocks@[a]).0
                            != (#[trigger] self.blocks@[c]).0 by {
                            if a != j && c != j {
                                assert(before[a] == self.blocks@[a] && before[c] == self.blocks@[c]);
                            } else if a == j {
                                assert(before[c] == self.blocks@[c]);
                                assert(before[j as int].0 != before[c].0);
                            } else {
                                assert(before[a] == self.blocks@[a]);
                                assert(before[a].0 != before[j as int].0);
                            }
                        }
                    }
                    assert forall|x: int| 0 <= x < j implies (#[trigger] self.blocks@[x]).0 != key by {
                        assert(before[x] == self.blocks@[x]);
                    }
                    assert forall|k: (u32, Mode)| k != key implies (has_block(self.blocks@, k) <==> has_block(before, k)) by {
                        if has_block(self.blocks@, k) {
                            let x = choose|x: int| 0 <= x < self.blocks@.len() && (#[trigger] self.blocks@[x]).0 == k;
                            assert(before[x].0 == k);
                        }
                        if has_block(before, k) {
                            let x = choose|x: int| 0 <= x < before.len() && (#[trigger] before[x]).0 == k;
                            assert(self.blocks@[x].0 == k);
                        }
                    }
                }
                return;
            }
            j = j + 1;
        }
        let ghost before = self.blocks@;
        self.blocks.push((key, block));
        proof {
            let n = before.len() as int;
            assert(self.blocks@[n].0 == key);
            assert forall|k: (u32, Mode)| k != key implies (has_block(self.blocks@, k) <==> has_block(before, k)) by {
                if has_block(self.blocks@, k) {
                    let x = choose|x: int| 0 <= x < self.blocks@.len() && (#[trigger] self.blocks@[x]).0 == k;
                    assert(before[x].0 == k);
                }
                if has_block(before, k) {
                    let x = choose|x: int| 0 <= x < before.len() && (#[trigger] before[x]).0 == k;
                    assert(self.blocks@[x].0 == k);
                }
            }
            assert(self.blocks@[n] == (key, block));
            assert(!has_block(before, key));
            if keys_unique(before) {
                assert forall|a: int, c: int| 0 <= a < c < self.blocks@.len() implies (#[trigger] self.blocks@[a]).0
                    != (#[trigger] self.blocks@[c]).0 by {
                    assert(before[a] == self.blocks@[a]);
                    if c < n {
                        assert(before[c] == self.blocks@[c]);
                    }
                }
            }
            assert forall|x: int| 0 <= x < n implies (#[trigger] self.blocks@[x]).0 != key by {
                assert(before[x] == self.blocks@[x]);
            }
        }
    }

    fn holds_block(&self, key: (u32, Mode)) -> (r: bool)
        ensures
            r == has_block(self.blocks@, key),
    {
        let mut j: usize = 0;
        while j < self.blocks.len()
            invariant
                j <= self.blocks@.len(),
                forall|x: int| 0 <= x < j ==> (#[trigger] self.blocks@[x]).0 != key,
            decreases self.blocks@.len() - j,
        {
            if self.blocks[j].0.0 == key.0 && self.blocks[j].0.1 == key.1 {
                return true;
            }
            j = j + 1;
        }
        false
    }

    /// Checks the contract: the error names the first violation met, going
    /// through the blocks in order.
    pub fn validate(&self) -> (r: Result<(), ContractError>)
        ensures
            r is Ok <==> contract_holds(self.blocks@),
            r matches Err(e) ==> contract_error_sound(self.blocks@, e),
            r matches Err(e) ==> exists|b: int|
                0 <= b < self.blocks@.len() && #[trigger] passed_before(self.blocks@, b) && error_at(self.blocks@, b, e),
    {
        let p = &self.blocks;
        let mut seen: Vec<InstructionKey> = Vec::new();
        let mut b: usize = 0;
        while b < p.len()
            invariant
                *p == self.blocks,
                b <= p@.len(),
                checked(p@, b as int, 0, seen@),
                forall|x: int| 0 <= x < b ==> (#[trigger] p@[x]).1.instructions@.len() > 0,
                forall|x: int, s: int| 0 <= x < b && 0 <= s < p@[x].1.successors@.len() ==> has_block(p@, #[trigger] p@[x].1.successors@[s]),
            decreases p@.len() - b,
        {
            let key = p[b].0;
            let block = &p[b].1;
            proof {
                assert(passed_before(p@, b as int));
            }
            if block.instructions.len() == 0 {
                proof {
                    assert(p@[b as int].1.instructions@.len() == 0);
                    assert(p@ == self.blocks@);
                    assert(!contract_holds(self.blocks@));
                }
                return Err(ContractError::EmptyBlock(key.0));
            }
            let mut expected = key.0;
            let mut i: usize = 0;
            while i < block.instructions.len()
                invariant
                    *p == self.blocks,
                    b < p@.len(),
                    key == p@[b as int].0,
                    *block == p@[b as int].1,
                    i <= block.instructions@.len(),
                    expected == expected_at(key.0, block.instructions@, i as nat),
                    checked(p@, b as int, i as int, seen@),
                    passed_before(p@, b as int),
                decreases block.instructions@.len() - i,
            {
                let ik = block.instructions[i].key;
                let mut m: usize = 0;
                while m < seen.len()
                    invariant
                        *p == self.blocks,
                        b < p@.len(),
                        i < p@[b as int].1.instructions@.len(),
                        ik == p@[b as int].1.instructions@[i as int].key,
                        checked(p@, b as int, i as int, seen@),
                        m <= seen@.len(),
                        forall|x: int| 0 <= x < m ==> seen@[x] != ik,
                        passed_before(p@, b as int),
                    decreases seen@.len() - m,
                {
                    if seen[m].address == ik.address && seen[m].mode == ik.mode && seen[m].size == ik.size {
                        proof {
                            assert(key_checked(p@, b as int, i as int, seen@[m as int]));
                            let (b2, i2) = choose|b2: int, i2: int|
                                #[trigger] checked_before(p@, b as int, i as int, b2, i2) && p@[b2].1.instructions@[i2].key == seen@[m as int];
                            assert(p@[b as int].1.instructions@[i as int].key == ik);
                            assert(b2 != b || i2 != i);
                            assert(p@[b2].1.instructions@[i2].key == p@[b as int].1.instructions@[i as int].key);
                            assert(!instructions_unique(p@));
                            assert(error_at(p@, b as int, ContractError::DuplicateInstruction(ik)));
                            assert(p@ == self.blocks@);
                            assert(!contract_holds(self.blocks@));
                        }
                        return Err(ContractError::DuplicateInstruction(ik));
                    }
                    m = m + 1;
                }
                if ik.address != expected || ik.mode != key.1 {
                    proof {
                        assert(!in_place(key, block.instructions@, i as int));
                        assert(!in_place(p@[b as int].0, p@[b as int].1.instructions@, i as int));
                        assert(p@ == self.blocks@);
                        assert(!contract_holds(self.blocks@));
                    }
                    return Err(ContractError::NonContiguousBlock { block: key.0, expected, actual: ik.address });
                }
                let ghost before = seen@;
                seen.push(ik);
                proof {
                    assert(in_place(key, block.instructions@, i as int));
                    assert(p@[b as int].1.instructions@[i as int].key == ik);
                    assert forall|b2: int, i2: int| #[trigger] checked_before(p@, b as int, i + 1, b2, i2) implies seen@.contains(
                        p@[b2].1.instructions@[i2].key,
                    ) && in_place(p@[b2].0, p@[b2].1.instructions@, i2) by {
                        if b2 == b && i2 == i {
                            assert(seen@[before.len() as int] == ik);
                        } else {
                            assert(checked_before(p@, b as int, i as int, b2, i2));
                            let x = choose|x: int| 0 <= x < before.len() && before[x] == p@[b2].1.instructions@[i2].key;
                            assert(seen@[x] == before[x]);
                        }
                    }
                    assert forall|b1: int, i1: int, b2: int, i2: int|
                        #[trigger] checked_before(p@, b as int, i + 1, b1, i1) && #[trigger] checked_before(p@, b as int, i + 1, b2, i2) && (b1 != b2
                            || i1 != i2) implies p@[b1].1.instructions@[i1].key != p@[b2].1.instructions@[i2].key by {
                        if b1 == b && i1 == i {
                            assert(checked_before(p@, b as int, i as int, b2, i2));
                            assert(before.contains(p@[b2].1.instructions@[i2].key));
                        } else if b2 == b && i2 == i {
                            assert(checked_before(p@, b as int, i as int, b1, i1));
                            assert(before.contains(p@[b1].1.instructions@[i1].key));
                        } else {
                            assert(checked_before(p@, b as int, i as int, b1, i1));
                            assert(checked_before(p@, b as int, i as int, b2, i2));
                        }
                    }
                    assert forall|x: int| 0 <= x < seen@.len() implies #[trigger] key_checked(p@, b as int, i + 1, seen@[x]) by {
                        if x == before.len() {
                            assert(checked_before(p@, b as int, i + 1, b as int, i as int));
                        } else {
                            assert(seen@[x] == before[x]);
                            assert(key_checked(p@, b as int, i as int, before[x]));
                            let (b2, i2) = choose|b2: int, i2: int|
                                #[trigger] checked_before(p@, b as int, i as int, b2, i2) && p@[b2].1.instructions@[i2].key == before[x];
                            assert(checked_before(p@, b as int, i + 1, b2, i2));
                        }
                    }
                }
                expected = next_expected(expected, ik.size);
                i = i + 1;
            }
            let mut s: usize = 0;
            while s < block.successors.len()
                invariant
                    *p == self.blocks,
                    b < p@.len(),
                    key == p@[b as int].0,
                    *block == p@[b as int].1,
                    s <= block.successors@.len(),
                    forall|y: int| 0 <= y < s ==> has_block(p@, #[trigger] block.successors@[y]),
                    passed_before(p@, b as int),
                decreases block.successors@.len() - s,
            {
                let (target, mode) = block.successors[s];
                if !self.holds_block((target, mode)) {
                    proof {
                        assert(block.successors@[s as int] == (target, mode));
                        assert(p@[b as int].1.successors@[s as int] == (target, mode));
                        assert(p@ == self.blocks@);
                        assert(!contract_holds(self.blocks@));
                    }
                    return Err(ContractError::InvalidSuccessor { block: key.0, address: target, mode });
                }
                s = s + 1;
            }
            proof {
                assert forall|b2: int, i2: int| #[trigger] checked_before(p@, b + 1, 0, b2, i2) implies checked_before(p@, b as int, i as int, b2, i2) by {}
                assert forall|b2: int, i2: int| #[trigger] checked_before(p@, b as int, i as int, b2, i2) implies checked_before(p@, b + 1, 0, b2, i2) by {}
                assert forall|x: int| 0 <= x < seen@.len() implies #[trigger] key_checked(p@, b + 1, 0, seen@[x]) by {
                    assert(key_checked(p@, b as int, i as int, seen@[x]));
                    let (b2, i2) = choose|b2: int, i2: int| #[trigger] checked_before(p@, b as int, i as int, b2, i2) && p@[b2].1.instructions@[i2].key == seen@[x];
                    assert(checked_before(p@, b + 1, 0, b2, i2));
                }
                assert forall|b2: int, i2: int| #[trigger] checked_before(p@, b + 1, 0, b2, i2) implies seen@.contains(
                    p@[b2].1.instructions@[i2].key,
                ) && in_place(p@[b2].0, p@[b2].1.instructions@, i2) by {
                    assert(checked_before(p@, b as int, i as int, b2, i2));
                }
                assert forall|b1: int, i1: int, b2: int, i2: int|
                    #[trigger] checked_before(p@, b + 1, 0, b1, i1) && #[trigger] checked_before(p@, b + 1, 0, b2, i2) && (b1 != b2 || i1 != i2) implies p@[b1].1.instructions@[i1].key
                    != p@[b2].1.instructions@[i2].key by {
                    assert(checked_before(p@, b as int, i as int, b1, i1));
                    assert(checked_before(p@, b as int, i as int, b2, i2));
                }
                assert(checked(p@, b + 1, 0, seen@));
            }
            b = b + 1;
        }
        proof {
            let n = p@.len() as int;
            assert forall|b1: int, i1: int, b2: int, i2: int|
                0 <= b1 < p@.len() && 0 <= i1 < p@[b1].1.instructions@.len() && 0 <= b2 < p@.len() && 0 <= i2 < p@[b2].1.instructions@.len() && (b1
                    != b2 || i1 != i2) implies (#[trigger] p@[b1].1.instructions@[i1]).key != (#[trigger] p@[b2].1.instructions@[i2]).key by {
                assert(checked_before(p@, n, 0, b1, i1));
                assert(checked_before(p@, n, 0, b2, i2));
            }
            assert forall|b2: int, i2: int| 0 <= b2 < p@.len() && 0 <= i2 < p@[b2].1.instructions@.len() implies #[trigger] in_place(
                p@[b2].0,
                p@[b2].1.instructions@,
                i2,
            ) by {
                assert(checked_before(p@, n, 0, b2, i2));
            }
        }
        Ok(())
    }
}

impl Default for ArchitecturalProgram {
    fn default() -> (r: Self)
        ensures
            r.blocks@.len() == 0,
    {
        ArchitecturalProgram::new()
    }
}

} // verus!
