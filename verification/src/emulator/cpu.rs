//! The interpreter's ARM7TDMI core: sixteen registers and the status
//! register, stepping one ARM or Thumb instruction at a time.
use vstd::prelude::*;

use super::bus::{bus_wf, read16_model, read32_model, read8_model, write32_model, write8_model, Bus, BusView};

verus! {

pub const FLAG_N: u32 = 0x8000_0000;

pub const FLAG_Z: u32 = 0x4000_0000;

pub const FLAG_C: u32 = 0x2000_0000;

pub const FLAG_V: u32 = 0x1000_0000;

/// The Thumb state bit.
pub const FLAG_T: u32 = 0x20;

pub struct Cpu {
    pub r: [u32; 16],
    pub cpsr: u32,
    pub halted: bool,
}

/// The registers, the status register and the halt flag.
pub struct CpuView {
    pub r: Seq<u32>,
    pub cpsr: u32,
    pub halted: bool,
}

impl View for Cpu {
    type V = CpuView;

    open spec fn view(&self) -> CpuView {
        CpuView { r: self.r@, cpsr: self.cpsr, halted: self.halted }
    }
}

/// The status register with N and Z set from `v`.
pub open spec fn nz_model(cpsr: u32, v: u32) -> u32 {
    (cpsr & !(FLAG_N | FLAG_Z)) | (if v & FLAG_N != 0 {
        FLAG_N
    } else {
        0
    }) | (if v == 0 {
        FLAG_Z
    } else {
        0
    })
}

/// The status register after `r = a + b`: N and Z from the result, C from the
/// unsigned carry, V from the signed overflow.
pub open spec fn add_flags_model(cpsr: u32, a: u32, b: u32, r: u32) -> u32 {
    (cpsr & !(FLAG_N | FLAG_Z | FLAG_C | FLAG_V)) | (if r & FLAG_N != 0 {
        FLAG_N
    } else {
        0
    }) | (if r == 0 {
        FLAG_Z
    } else {
        0
    }) | (if r < a {
        FLAG_C
    } else {
        0
    }) | (if ((!(a ^ b) & (a ^ r)) >> 31) & 1 != 0 {
        FLAG_V
    } else {
        0
    })
}

/// The status register after `r = a - b`: C set when no borrow occurs.
pub open spec fn sub_flags_model(cpsr: u32, a: u32, b: u32, r: u32) -> u32 {
    (cpsr & !(FLAG_N | FLAG_Z | FLAG_C | FLAG_V)) | (if r & FLAG_N != 0 {
        FLAG_N
    } else {
        0
    }) | (if r == 0 {
        FLAG_Z
    } else {
        0
    }) | (if a >= b {
        FLAG_C
    } else {
        0
    }) | (if (((a ^ b) & (a ^ r)) >> 31) & 1 != 0 {
        FLAG_V
    } else {
        0
    })
}

/// Whether condition `c` holds under the status register's flags.
pub open spec fn cond_model(cpsr: u32, c: u8) -> bool {
    let z = cpsr & FLAG_Z != 0;
    let n = cpsr & FLAG_N != 0;
    let cv = cpsr & FLAG_C != 0;
    let v = cpsr & FLAG_V != 0;
    if c == 0 {
        z
    } else if c == 1 {
        !z
    } else if c == 2 {
        cv
    } else if c == 3 {
        !cv
    } else if c == 4 {
        n
    } else if c == 5 {
        !n
    } else if c == 6 {
        v
    } else if c == 7 {
        !v
    } else if c == 8 {
        cv && !z
    } else if c == 9 {
        !cv || z
    } else if c == 10 {
        n == v
    } else if c == 11 {
        n != v
    } else if c == 12 {
        !z && n == v
    } else if c == 13 {
        z || n != v
    } else {
        c == 14
    }
}

/// The software interrupts the core handles itself: 0x05 clears r0, the
/// rest do nothing.
pub open spec fn swi_model(c: CpuView, imm: u8) -> CpuView {
    if imm == 0x05 {
        CpuView { r: c.r.update(0, 0), ..c }
    } else {
        c
    }
}

/// `x` rotated right by `n` places.
pub open spec fn rotr(x: u32, n: u32) -> u32 {
    if n % 32 == 0 {
        x
    } else {
        (x >> (n % 32)) | (x << ((32 - n % 32) as u32))
    }
}

/// An ARM data-processing instruction: tests set the flags only; the others
/// write their result to `rd`, set N and Z with the S bit, and keep a
/// written PC word-aligned.
pub open spec fn arm_dp_model(c: CpuView, op: u32) -> CpuView {
    let i = (op >> 25) & 1;
    let opcode = (op >> 21) & 15;
    let rn = ((op >> 16) & 15) as int;
    let rd = ((op >> 12) & 15) as int;
    let a = c.r[rn];
    let b = if i != 0 {
        rotr(op & 255, (((op >> 8) & 15) * 2) as u32)
    } else {
        c.r[(op & 15) as int]
    };
    let oldc = c.cpsr & FLAG_C != 0;
    if opcode == 8 {
        CpuView { cpsr: nz_model(c.cpsr, a & b), ..c }
    } else if opcode == 9 {
        CpuView { cpsr: nz_model(c.cpsr, a ^ b), ..c }
    } else if opcode == 10 {
        CpuView { cpsr: sub_flags_model(c.cpsr, a, b, a.wrapping_sub(b)), ..c }
    } else if opcode == 11 {
        CpuView { cpsr: sub_flags_model(c.cpsr, b, a, b.wrapping_sub(a)), ..c }
    } else {
        let res: u32 = if opcode == 0 {
            a & b
        } else if opcode == 1 {
            a ^ b
        } else if opcode == 2 {
            a.wrapping_sub(b)
        } else if opcode == 3 {
            b.wrapping_sub(a)
        } else if opcode == 4 {
            a.wrapping_add(b)
        } else if opcode == 5 {
            a.wrapping_add(b).wrapping_add(if oldc {
                1
            } else {
                0
            })
        } else if opcode == 6 {
            a.wrapping_sub(b).wrapping_sub(if oldc {
                0
            } else {
                1
            })
        } else if opcode == 12 {
            a | b
        } else if opcode == 13 {
            b
        } else if opcode == 14 {
            a & !b
        } else if opcode == 15 {
            !b
        } else {
            0
        };
        let r1 = c.r.update(rd, res);
        let cpsr = if op & 0x10_0000 != 0 {
            nz_model(c.cpsr, res)
        } else {
            c.cpsr
        };
        let r2 = if rd == 15 {
            r1.update(15, r1[15] & !3u32)
        } else {
            r1
        };
        CpuView { r: r2, cpsr, halted: c.halted }
    }
}

impl Cpu {
    /// The state after reset into the cartridge: System mode with IRQ and FIQ
    /// masked, the stack at the top of work RAM, the PC at the cartridge.
    pub fn new() -> (c: Cpu)
        ensures
            c@.r == Seq::new(16, |i: int| if i == 13 {
                0x0300_7F00u32
            } else if i == 15 {
                0x0800_0000u32
            } else {
                0u32
            }),
            c.cpsr == 0xD3,
            !c.halted,
    {
        let mut c = Cpu { r: [0; 16], cpsr: 0x0000_00D3, halted: false };
        c.r[13] = 0x0300_7F00;
        c.r[15] = 0x0800_0000;
        proof {
            assert(c@.r =~= Seq::new(16, |i: int| if i == 13 {
                0x0300_7F00u32
            } else if i == 15 {
                0x0800_0000u32
            } else {
                0u32
            }));
        }
        c
    }

    /// The core runs Thumb code.
    fn thumb(&self) -> (t: bool)
        ensures
            t == (self.cpsr & FLAG_T != 0),
    {
        self.cpsr & FLAG_T != 0
    }

    fn set_nz(&mut self, v: u32)
        ensures
            final(self).cpsr == nz_model(old(self).cpsr, v),
            final(self).r == old(self).r,
            final(self).halted == old(self).halted,
    {
        let n = if v & FLAG_N != 0 {
            FLAG_N
        } else {
            0
        };
        let z = if v == 0 {
            FLAG_Z
        } else {
            0
        };
        self.cpsr = (self.cpsr & !(FLAG_N | FLAG_Z)) | n | z;
    }

    fn set_add_flags(&mut self, a: u32, b: u32, r: u32)
        ensures
            final(self).cpsr == add_flags_model(old(self).cpsr, a, b, r),
            final(self).r == old(self).r,
            final(self).halted == old(self).halted,
    {
        let n = if r & FLAG_N != 0 {
            FLAG_N
        } else {
            0
        };
        let z = if r == 0 {
            FLAG_Z
        } else {
            0
        };
        let c = if r < a {
            FLAG_C
        } else {
            0
        };
        let v = if ((!(a ^ b) & (a ^ r)) >> 31) & 1 != 0 {
            FLAG_V
        } else {
            0
        };
        self.cpsr = (self.cpsr & !(FLAG_N | FLAG_Z | FLAG_C | FLAG_V)) | n | z | c | v;
    }

    fn set_sub_flags(&mut self, a: u32, b: u32, r: u32)
        ensures
            final(self).cpsr == sub_flags_model(old(self).cpsr, a, b, r),
            final(self).r == old(self).r,
            final(self).halted == old(self).halted,
    {
        let n = if r & FLAG_N != 0 {
            FLAG_N
        } else {
            0
        };
        let z = if r == 0 {
            FLAG_Z
        } else {
            0
        };
        let c = if a >= b {
            FLAG_C
        } else {
            0
        };
        let v = if (((a ^ b) & (a ^ r)) >> 31) & 1 != 0 {
            FLAG_V
        } else {
            0
        };
        self.cpsr = (self.cpsr & !(FLAG_N | FLAG_Z | FLAG_C | FLAG_V)) | n | z | c | v;
    }

    /// Whether condition `c` holds.
    fn cond(&self, c: u8) -> (r: bool)
        ensures
            r == cond_model(self.cpsr, c),
    {
        let z = self.cpsr & FLAG_Z != 0;
        let n = self.cpsr & FLAG_N != 0;
        let cv = self.cpsr & FLAG_C != 0;
        let v = self.cpsr & FLAG_V != 0;
        match c {
            0 => z,
            1 => !z,
            2 => cv,
            3 => !cv,
            4 => n,
            5 => !n,
            6 => v,
            7 => !v,
            8 => cv && !z,
            9 => !cv || z,
            10 => n == v,
            11 => n != v,
            12 => !z && (n == v),
            13 => z || (n != v),
            14 => true,
            _ => false,
        }
    }

    fn swi(&mut self, imm: u8) -> (cycles: u32)
        ensures
            final(self)@ == swi_model(old(self)@, imm),
            cycles == 3,
    {
        if imm == 0x05 {
            self.r[0] = 0;
        }
        proof {
            assert(final(self)@.r =~= swi_model(old(self)@, imm).r);
        }
        3
    }

    fn arm_dp(&mut self, op: u32) -> (cycles: u32)
        ensures
            final(self)@ == arm_dp_model(old(self)@, op),
            cycles == 1,
    {
        let i = (op >> 25) & 1;
        let opcode = (op >> 21) & 15;
        let rn = ((op >> 16) & 15) as usize;
        let rd = ((op >> 12) & 15) as usize;
        proof {
            assert((op >> 16) & 15 < 16 && (op >> 12) & 15 < 16 && op & 15 < 16 && (op >> 8) & 15 < 16) by (bit_vector);
        }
        let a = self.r[rn];
        let b = if i != 0 {
            rotate_right(op & 255, ((op >> 8) & 15) * 2)
        } else {
            self.r[(op & 15) as usize]
        };
        let oldc = self.cpsr & FLAG_C != 0;
        if opcode == 8 {
            self.set_nz(a & b);
            return 1;
        }
        if opcode == 9 {
            self.set_nz(a ^ b);
            return 1;
        }
        if opcode == 10 {
            let r = a.wrapping_sub(b);
            self.set_sub_flags(a, b, r);
            return 1;
        }
        if opcode == 11 {
            let r = b.wrapping_sub(a);
            self.set_sub_flags(b, a, r);
            return 1;
        }
        let r: u32 = if opcode == 0 {
            a & b
        } else if opcode == 1 {
            a ^ b
        } else if opcode == 2 {
            a.wrapping_sub(b)
        } else if opcode == 3 {
            b.wrapping_sub(a)
        } else if opcode == 4 {
            a.wrapping_add(b)
        } else if opcode == 5 {
            a.wrapping_add(b).wrapping_add(if oldc {
                1
            } else {
                0
            })
        } else if opcode == 6 {
            a.wrapping_sub(b).wrapping_sub(if oldc {
                0
            } else {
                1
            })
        } else if opcode == 12 {
            a | b
        } else if opcode == 13 {
            b
        } else if opcode == 14 {
            a & !b
        } else if opcode == 15 {
            !b
        } else {
            0
        };
        self.r[rd] = r;
        if op & 0x10_0000 != 0 {
            self.set_nz(r);
        }
        if rd == 15 {
            self.r[15] = self.r[15] & !3u32;
        }
        proof {
            assert(final(self)@.r =~= arm_dp_model(old(self)@, op).r);
        }
        1
    }
}

/// `x` rotated right by `n` places.
fn rotate_right(x: u32, n: u32) -> (r: u32)
    ensures
        r == rotr(x, n),
{
    let k = n % 32;
    if k == 0 {
        x
    } else {
        (x >> k) | (x << (32 - k))
    }
}

/// The register's value, in a register file.
pub open spec fn reg(c: CpuView, i: u32) -> u32 {
    c.r[(i & 15) as int]
}

/// The offset of a single data transfer, negated when the U bit is clear.
pub open spec fn transfer_offset(c: CpuView, op: u32) -> u32 {
    let off = if op & 0x0200_0000 != 0 {
        reg(c, op)
    } else {
        op & 0xfff
    };
    if op & 0x0080_0000 == 0 {
        (!off + 1) as u32
    } else {
        off
    }
}

/// A single data transfer can be carried out: a negated offset is not zero,
/// and a word access fits below the top of the address space.
pub open spec fn ldrstr_ok(c: CpuView, op: u32) -> bool {
    let off = if op & 0x0200_0000 != 0 {
        reg(c, op)
    } else {
        op & 0xfff
    };
    let addr = reg(c, op >> 16).wrapping_add(transfer_offset(c, op));
    &&& op & 0x0080_0000 == 0 ==> off != 0
    &&& op & 0x0040_0000 == 0 ==> addr <= u32::MAX - 3
}

/// A single data transfer: a byte or word load into `rd` or store from it,
/// at the base plus the offset, writing the address back with the W bit.
pub open spec fn ldrstr_model(c: CpuView, m: BusView, op: u32) -> (CpuView, BusView) {
    let rn = ((op >> 16) & 15) as int;
    let rd = ((op >> 12) & 15) as int;
    let addr = c.r[rn].wrapping_add(transfer_offset(c, op));
    let byte = op & 0x0040_0000 != 0;
    let (c1, m1) = if op & 0x0010_0000 != 0 {
        let v: u32 = if byte {
            read8_model(m, addr) as u32
        } else {
            read32_model(m, addr) as u32
        };
        (CpuView { r: c.r.update(rd, v), ..c }, m)
    } else {
        (c, if byte {
            write8_model(m, addr, (c.r[rd] % 256) as u8)
        } else {
            write32_model(m, addr, c.r[rd])
        })
    };
    if op & 0x0020_0000 != 0 {
        (CpuView { r: c1.r.update(rn, addr), ..c1 }, m1)
    } else {
        (c1, m1)
    }
}

/// The number of registers among `0..16` from `i` on that the list names.
pub open spec fn listed_count(regs: u32, i: int) -> nat
    decreases 16 - i,
{
    if i >= 16 || i < 0 {
        0
    } else {
        (if (regs >> (i as u32)) & 1 != 0 {
            1nat
        } else {
            0nat
        }) + listed_count(regs, i + 1)
    }
}

/// The transfers of a block transfer for registers `i..16`, from `addr` up.
pub open spec fn block_loop(c: CpuView, m: BusView, regs: u32, load: bool, i: int, addr: u32) -> (CpuView, BusView, u32)
    decreases 16 - i,
{
    if i >= 16 || i < 0 {
        (c, m, addr)
    } else if (regs >> (i as u32)) & 1 != 0 {
        let (c1, m1) = if load {
            (CpuView { r: c.r.update(i, read32_model(m, addr) as u32), ..c }, m)
        } else {
            (c, write32_model(m, addr, c.r[i]))
        };
        block_loop(c1, m1, regs, load, i + 1, (addr + 4) as u32)
    } else {
        block_loop(c, m, regs, load, i + 1, addr)
    }
}

/// Every transfer of the loop fits below the top of the address space.
pub open spec fn block_loop_ok(regs: u32, i: int, addr: u32) -> bool
    decreases 16 - i,
{
    if i >= 16 || i < 0 {
        true
    } else if (regs >> (i as u32)) & 1 != 0 {
        addr <= u32::MAX - 4 && block_loop_ok(regs, i + 1, (addr + 4) as u32)
    } else {
        block_loop_ok(regs, i + 1, addr)
    }
}

/// Where the transfers of a block transfer start.
pub open spec fn block_start(c: CpuView, op: u32) -> int {
    let addr = reg(c, op >> 16);
    let count = listed_count(op & 0xffff, 0);
    if op & 0x0080_0000 != 0 {
        if op & 0x0100_0000 != 0 {
            addr + 4
        } else {
            addr as int
        }
    } else if op & 0x0100_0000 != 0 {
        addr - 4
    } else {
        addr - 4 * count
    }
}

/// A block transfer can be carried out: its addresses and the written-back
/// base stay within the address space.
pub open spec fn arm_block_ok(c: CpuView, m: BusView, op: u32) -> bool {
    let regs = op & 0xffff;
    let load = op & 0x0010_0000 != 0;
    let start = block_start(c, op);
    let count = listed_count(regs, 0);
    let after = block_loop(c, m, regs, load, 0, start as u32).0;
    let base = after.r[((op >> 16) & 15) as int];
    &&& 0 <= start <= u32::MAX
    &&& block_loop_ok(regs, 0, start as u32)
    &&& op & 0x0020_0000 != 0 ==> if op & 0x0080_0000 != 0 {
        base + 4 * count <= u32::MAX
    } else {
        base - 4 * count >= 0
    }
}

/// A block transfer: the listed registers loaded from or stored to
/// ascending words, with the base written back by four bytes a register.
pub open spec fn arm_block_model(c: CpuView, m: BusView, op: u32) -> (CpuView, BusView, u32) {
    let rn = ((op >> 16) & 15) as int;
    let regs = op & 0xffff;
    let load = op & 0x0010_0000 != 0;
    let count = listed_count(regs, 0);
    let (c1, m1, _end) = block_loop(c, m, regs, load, 0, block_start(c, op) as u32);
    let c2 = if op & 0x0020_0000 != 0 {
        CpuView {
            r: c1.r.update(
                rn,
                if op & 0x0080_0000 != 0 {
                    (c1.r[rn] + 4 * count) as u32
                } else {
                    (c1.r[rn] - 4 * count) as u32
                },
            ),
            ..c1
        }
    } else {
        c1
    };
    (c2, m1, (2 + count) as u32)
}

/// Bits `shift..shift + 4` of `op`, a register number.
fn field4(op: u32, shift: u32) -> (r: usize)
    requires
        shift < 32,
    ensures
        r < 16,
        r == (op >> shift) & 15,
{
    assert((op >> shift) & 15 < 16) by (bit_vector);
    ((op >> shift) & 15) as usize
}

/// The number of registers the list names.
fn count_listed(regs: u32) -> (n: u32)
    ensures
        n == listed_count(regs, 0),
        n <= 16,
{
    let mut n: u32 = 0;
    let mut i: u32 = 0;
    while i < 16
        invariant
            i <= 16,
            n <= i,
            n + listed_count(regs, i as int) == listed_count(regs, 0),
        decreases 16 - i,
    {
        if (regs >> i) & 1 != 0 {
            n = n + 1;
        }
        i = i + 1;
    }
    n
}

/// The state of an ARM step once the PC has moved past the instruction.
pub open spec fn arm_fetched(c: CpuView) -> CpuView {
    CpuView { r: c.r.update(15, c.r[15].wrapping_add(4)), ..c }
}

/// The instruction an ARM step executes.
pub open spec fn arm_op(c: CpuView, m: BusView) -> u32 {
    read32_model(m, c.r[15]) as u32
}

/// An ARM step can be carried out.
pub open spec fn step_arm_ok(c: CpuView, m: BusView) -> bool {
    let op = arm_op(c, m);
    let c1 = arm_fetched(c);
    &&& c.r[15] <= u32::MAX - 3
    &&& !(op & 0x0fff_fff0 == 0x012f_ff10) && !((op >> 25) & 7 == 5) && !(op & 0x0f00_0000 == 0x0f00_0000) && op & 0x0c00_0000
        == 0x0400_0000 ==> ldrstr_ok(c1, op)
    &&& !(op & 0x0fff_fff0 == 0x012f_ff10) && !((op >> 25) & 7 == 5) && !(op & 0x0f00_0000 == 0x0f00_0000) && !(op & 0x0c00_0000
        == 0x0400_0000) && op & 0x0e00_0000 == 0x0800_0000 ==> arm_block_ok(c1, m, op)
}

/// One ARM instruction: branch and exchange, branch (with link), software
/// interrupt, single and block data transfer, data processing; anything else
/// only moves the PC on.
pub open spec fn step_arm_model(c: CpuView, m: BusView) -> (CpuView, BusView, u32) {
    let pc = c.r[15];
    let op = arm_op(c, m);
    let c1 = arm_fetched(c);
    if op & 0x0fff_fff0 == 0x012f_ff10 {
        let t = reg(c1, op);
        (
            CpuView {
                r: c1.r.update(15, t & !1u32),
                cpsr: (c1.cpsr & !FLAG_T) | (if t & 1 != 0 {
                    FLAG_T
                } else {
                    0
                }),
                ..c1
            },
            m,
            3,
        )
    } else if (op >> 25) & 7 == 5 {
        let imm = (op & 0xff_ffff) << 2;
        let off: u32 = if imm & 0x0200_0000 != 0 {
            imm | 0xfc00_0000
        } else {
            imm
        };
        let r1 = if op & 0x0100_0000 != 0 {
            c1.r.update(14, pc.wrapping_add(4))
        } else {
            c1.r
        };
        (CpuView { r: r1.update(15, pc.wrapping_add(4).wrapping_add(off)), ..c1 }, m, 3)
    } else if op & 0x0f00_0000 == 0x0f00_0000 {
        (swi_model(c1, (op & 0xff) as u8), m, 3)
    } else if op & 0x0c00_0000 == 0x0400_0000 {
        let (c2, m2) = ldrstr_model(c1, m, op);
        (c2, m2, 2)
    } else if op & 0x0e00_0000 == 0x0800_0000 {
        arm_block_model(c1, m, op)
    } else if op & 0x0c00_0000 == 0 {
        (arm_dp_model(c1, op), m, 1)
    } else {
        (c1, m, 1)
    }
}

impl Cpu {
    #[verifier::spinoff_prover]
    #[verifier::rlimit(40)]
    fn arm_ldrstr(&mut self, bus: &mut Bus, op: u32) -> (cycles: u32)
        requires
            bus_wf(old(bus)@),
            ldrstr_ok(old(self)@, op),
        ensures
            (final(self)@, final(bus)@) == ldrstr_model(old(self)@, old(bus)@, op),
            bus_wf(final(bus)@),
            final(bus).cart.title@ == old(bus).cart.title@,
            cycles == 2,
    {
        let rn = field4(op, 16);
        let rd = field4(op, 12);
        proof {
            assert((op >> 0u32) & 15 == op & 15) by (bit_vector);
            assert((op >> 16u32) & 15 == (op >> 16u32) & 15);
        }
        let mut off = if op & 0x0200_0000 != 0 {
            self.r[field4(op, 0)]
        } else {
            op & 0xfff
        };
        if op & 0x0080_0000 == 0 {
            assert(off != 0 ==> !off < u32::MAX) by (bit_vector);
            off = !off + 1;
        }
        let addr = self.r[rn].wrapping_add(off);
        let byte = op & 0x0040_0000 != 0;
        let load = op & 0x0010_0000 != 0;
        if load {
            self.r[rd] = if byte {
                bus.read8(addr) as u32
            } else {
                bus.read32(addr)
            };
        } else {
            if byte {
                bus.write8(addr, (self.r[rd] % 256) as u8);
            } else {
                bus.write32(addr, self.r[rd]);
            }
            proof {
                super::bus::law_read_after_write(old(bus)@, addr, (old(self)@.r[rd as int] % 256) as u8);
            }
        }
        if op & 0x0020_0000 != 0 {
            self.r[rn] = addr;
        }
        proof {
            let (c2, m2) = ldrstr_model(old(self)@, old(bus)@, op);
            assert(final(self)@.r =~= c2.r);
        }
        2
    }

    fn arm_block(&mut self, bus: &mut Bus, op: u32) -> (cycles: u32)
        requires
            bus_wf(old(bus)@),
            arm_block_ok(old(self)@, old(bus)@, op),
        ensures
            (final(self)@, final(bus)@, cycles) == arm_block_model(old(self)@, old(bus)@, op),
            bus_wf(final(bus)@),
            final(bus).cart.title@ == old(bus).cart.title@,
    {
        let ghost c0 = self@;
        let ghost m0 = bus@;
        let rn = field4(op, 16);
        let regs = op & 0xffff;
        let up = op & 0x0080_0000 != 0;
        let before = op & 0x0100_0000 != 0;
        let load = op & 0x0010_0000 != 0;
        let count = count_listed(regs);
        let mut addr = self.r[rn];
        if up {
            if before {
                addr = addr + 4;
            }
        } else {
            if before {
                addr = addr - 4;
            } else {
                addr = addr - 4 * count;
            }
        }
        let ghost start = addr;
        let mut i: u32 = 0;
        while i < 16
            invariant
                i <= 16,
                bus_wf(bus@),
                bus.cart.title@ == old(bus).cart.title@,
                block_loop(self@, bus@, regs, load, i as int, addr) == block_loop(c0, m0, regs, load, 0, start),
                block_loop_ok(regs, i as int, addr),
            decreases 16 - i,
        {
            if (regs >> i) & 1 != 0 {
                let ghost m1 = bus@;
                if load {
                    self.r[i as usize] = bus.read32(addr);
                } else {
                    bus.write32(addr, self.r[i as usize]);
                    proof {
                        lemma_word_write_wf(m1, addr, self.r[i as int]);
                    }
                }
                addr = addr + 4;
            }
            i = i + 1;
        }
        if op & 0x0020_0000 != 0 {
            if up {
                self.r[rn] = self.r[rn] + 4 * count;
            } else {
                self.r[rn] = self.r[rn] - 4 * count;
            }
        }
        proof {
            let (c2, m2, cy) = arm_block_model(c0, m0, op);
            assert(self@.r =~= c2.r);
        }
        2 + count
    }
}

/// A word write keeps the bus well formed.
proof fn lemma_word_write_wf(m: BusView, addr: u32, v: u32)
    requires
        bus_wf(m),
    ensures
        bus_wf(write32_model(m, addr, v)),
{
    let m1 = write8_model(m, addr, (v % 0x100) as u8);
    super::bus::law_read_after_write(m, addr, (v % 0x100) as u8);
    let m2 = write8_model(m1, (addr + 1) as u32, ((v / 0x100) % 0x100) as u8);
    super::bus::law_read_after_write(m1, (addr + 1) as u32, ((v / 0x100) % 0x100) as u8);
    let m3 = write8_model(m2, (addr + 2) as u32, ((v / 0x1_0000) % 0x100) as u8);
    super::bus::law_read_after_write(m2, (addr + 2) as u32, ((v / 0x1_0000) % 0x100) as u8);
    super::bus::law_read_after_write(m3, (addr + 3) as u32, (v / 0x100_0000) as u8);
}

impl Cpu {
    fn step_arm(&mut self, bus: &mut Bus) -> (cycles: u32)
        requires
            bus_wf(old(bus)@),
            step_arm_ok(old(self)@, old(bus)@),
        ensures
            (final(self)@, final(bus)@, cycles) == step_arm_model(old(self)@, old(bus)@),
            bus_wf(final(bus)@),
            final(bus).cart.title@ == old(bus).cart.title@,
    {
        let pc = self.r[15];
        let op = bus.read32(pc);
        self.r[15] = pc.wrapping_add(4);
        proof {
            assert(self@ == arm_fetched(old(self)@));
            assert((op >> 0u32) & 15 == op & 15) by (bit_vector);
        }
        if op & 0x0fff_fff0 == 0x012f_ff10 {
            let t = self.r[field4(op, 0)];
            self.cpsr = (self.cpsr & !FLAG_T) | (if t & 1 != 0 {
                FLAG_T
            } else {
                0
            });
            self.r[15] = t & !1u32;
            proof {
                assert(self@.r =~= step_arm_model(old(self)@, old(bus)@).0.r);
            }
            return 3;
        }
        if (op >> 25) & 7 == 5 {
            let imm = (op & 0xff_ffff) << 2;
            let off: u32 = if imm & 0x0200_0000 != 0 {
                imm | 0xfc00_0000
            } else {
                imm
            };
            if op & 0x0100_0000 != 0 {
                self.r[14] = pc.wrapping_add(4);
            }
            self.r[15] = pc.wrapping_add(4).wrapping_add(off);
            proof {
                assert(self@.r =~= step_arm_model(old(self)@, old(bus)@).0.r);
            }
            return 3;
        }
        if op & 0x0f00_0000 == 0x0f00_0000 {
            return self.swi((op & 0xff) as u8);
        }
        if op & 0x0c00_0000 == 0x0400_0000 {
            return self.arm_ldrstr(bus, op);
        }
        if op & 0x0e00_0000 == 0x0800_0000 {
            return self.arm_block(bus, op);
        }
        if op & 0x0c00_0000 == 0 {
            return self.arm_dp(op);
        }
        1
    }
}

/// Thumb instruction fields: `(op >> shift) & 7`, a low register.
pub open spec fn low(op: u16, shift: u16) -> int {
    ((op >> shift) & 7) as int
}

/// Arithmetic shift right of a word by `n < 32` places.
pub open spec fn asr(a: u32, n: u32) -> u32 {
    if a & 0x8000_0000 != 0 {
        !((!a) >> n)
    } else {
        a >> n
    }
}

/// A Thumb ALU operation on `a` (the destination) and `b` (the source).
pub open spec fn thumb_alu(code: u16, a: u32, b: u32) -> u32 {
    if code == 0 {
        a & b
    } else if code == 1 {
        a ^ b
    } else if code == 2 {
        a.wrapping_sub(b)
    } else if code == 3 {
        a.wrapping_add(b)
    } else if code == 4 {
        a << (b & 31)
    } else if code == 5 {
        rotr(a, b & 31)
    } else if code == 6 {
        a >> (b & 31)
    } else if code == 7 {
        asr(a, b & 31)
    } else if code == 8 {
        a & b
    } else if code == 9 {
        0u32.wrapping_sub(b)
    } else if code == 10 {
        a.wrapping_sub(b)
    } else if code == 11 {
        a.wrapping_add(b)
    } else if code == 12 {
        a | b
    } else if code == 13 {
        a.wrapping_mul(b)
    } else if code == 14 {
        a & !b
    } else {
        !b
    }
}

/// The eleven-bit branch offset, doubled and sign-extended.
pub open spec fn branch_offset(op: u16) -> int {
    let v = ((op & 0x7ff) as int) * 2;
    if v >= 0x800 {
        v - 0x1000
    } else {
        v
    }
}

/// The eight-bit conditional branch offset, doubled and sign-extended.
pub open spec fn cond_offset(op: u16) -> int {
    let v = (op & 255) as int;
    if v >= 128 {
        (v - 256) * 2
    } else {
        v * 2
    }
}

/// The PC after a relative branch taken from `pc` by `off`, computed as a
/// signed word.
pub open spec fn relative(pc: u32, off: int) -> u32 {
    ((pc as i32) as int + off) as u32
}

pub open spec fn relative_ok(pc: u32, off: int) -> bool {
    i32::MIN <= (pc as i32) as int + off <= i32::MAX
}

/// The pushes of registers `i..8` the list names, from `sp` down.
pub open spec fn push_loop(c: CpuView, m: BusView, regs: u16, i: int, sp: u32) -> (BusView, u32)
    decreases 8 - i,
{
    if i >= 8 || i < 0 {
        (m, sp)
    } else if (regs >> (i as u16)) & 1 != 0 {
        push_loop(c, write32_model(m, (sp - 4) as u32, c.r[i]), regs, i + 1, (sp - 4) as u32)
    } else {
        push_loop(c, m, regs, i + 1, sp)
    }
}

pub open spec fn push_loop_ok(regs: u16, i: int, sp: u32) -> bool
    decreases 8 - i,
{
    if i >= 8 || i < 0 {
        true
    } else if (regs >> (i as u16)) & 1 != 0 {
        sp >= 4 && push_loop_ok(regs, i + 1, (sp - 4) as u32)
    } else {
        push_loop_ok(regs, i + 1, sp)
    }
}

/// The pops into registers `i..8` the list names, from `sp` up.
pub open spec fn pop_loop(c: CpuView, m: BusView, regs: u16, i: int, sp: u32) -> (CpuView, u32)
    decreases 8 - i,
{
    if i >= 8 || i < 0 {
        (c, sp)
    } else if (regs >> (i as u16)) & 1 != 0 {
        pop_loop(CpuView { r: c.r.update(i, read32_model(m, sp) as u32), ..c }, m, regs, i + 1, (sp + 4) as u32)
    } else {
        pop_loop(c, m, regs, i + 1, sp)
    }
}

pub open spec fn pop_loop_ok(regs: u16, i: int, sp: u32) -> bool
    decreases 8 - i,
{
    if i >= 8 || i < 0 {
        true
    } else if (regs >> (i as u16)) & 1 != 0 {
        sp <= u32::MAX - 4 && pop_loop_ok(regs, i + 1, (sp + 4) as u32)
    } else {
        pop_loop_ok(regs, i + 1, sp)
    }
}

/// The state of a Thumb step once the PC has moved past the instruction.
pub open spec fn thumb_fetched(c: CpuView) -> CpuView {
    CpuView { r: c.r.update(15, (c.r[15] + 2) as u32), ..c }
}

/// The instruction a Thumb step executes.
pub open spec fn thumb_op(c: CpuView, m: BusView) -> u16 {
    read16_model(m, c.r[15]) as u16
}

/// The address a PC-relative load reads.
pub open spec fn literal_address(c1: CpuView, op: u16) -> int {
    (c1.r[15] & !2u32) + (op & 255) * 4
}

/// The word offset of a load or store with an immediate offset.
pub open spec fn imm_address(c1: CpuView, op: u16) -> int {
    c1.r[low(op, 3)] + ((op >> 6) & 31) * 4
}

/// A Thumb step can be carried out: the PC moves on, every word access fits
/// below the top of the address space, the stack stays within it and taken
/// branches stay signed words.
pub open spec fn step_thumb_ok(c: CpuView, m: BusView) -> bool {
    let op = thumb_op(c, m);
    let c1 = thumb_fetched(c);
    let regs = op & 0xff;
    &&& c.r[15] <= u32::MAX - 2
    &&& 0x4800 <= op <= 0x4fff ==> literal_address(c1, op) <= u32::MAX - 3
    &&& 0x5000 <= op <= 0x5fff ==> c1.r[low(op, 3)].wrapping_add(c1.r[low(op, 6)]) <= u32::MAX - 3
    &&& 0x6000 <= op <= 0x7fff ==> imm_address(c1, op) <= u32::MAX - 3
    &&& 0xb400 <= op <= 0xb5ff ==> push_loop_ok(regs, 0, c1.r[13]) && (op & 0x100 != 0 ==> push_loop(c1, m, regs, 0, c1.r[13]).1 >= 4)
    &&& 0xbc00 <= op <= 0xbdff ==> pop_loop_ok(regs, 0, c1.r[13]) && (op & 0x100 != 0 ==> pop_loop(c1, m, regs, 0, c1.r[13]).1 <= u32::MAX - 4)
    &&& 0xd000 <= op <= 0xdfff && (op >> 8) & 15 != 14 && cond_model(c1.cpsr, ((op >> 8) & 15) as u8) ==> relative_ok(c1.r[15], cond_offset(op))
    &&& 0xe000 <= op <= 0xe7ff ==> relative_ok(c1.r[15], branch_offset(op))
}

/// Shift left by an immediate; N and Z from the result.
pub open spec fn t_shift(c1: CpuView, op: u16) -> CpuView {
    let v = c1.r[low(op, 3)] << (((op >> 6) & 31) as u32);
    CpuView { r: c1.r.update(low(op, 0), v), cpsr: nz_model(c1.cpsr, v), ..c1 }
}

/// Register add or subtract, with all four flags.
pub open spec fn t_addsub(c1: CpuView, op: u16) -> CpuView {
    let a = c1.r[low(op, 3)];
    let b = c1.r[low(op, 6)];
    if op & 0x200 != 0 {
        let v = a.wrapping_sub(b);
        CpuView { r: c1.r.update(low(op, 0), v), cpsr: sub_flags_model(c1.cpsr, a, b, v), ..c1 }
    } else {
        let v = a.wrapping_add(b);
        CpuView { r: c1.r.update(low(op, 0), v), cpsr: add_flags_model(c1.cpsr, a, b, v), ..c1 }
    }
}

/// An operation with an eight-bit immediate, chosen by bits 11 and 12.
pub open spec fn t_imm(c1: CpuView, op: u16) -> CpuView {
    let rd = low(op, 8);
    let imm = (op & 255) as u32;
    let k = (op >> 11) & 3;
    let v = if k == 0 {
        imm
    } else if k == 1 {
        c1.r[rd].wrapping_add(imm)
    } else if k == 2 {
        c1.r[rd].wrapping_sub(imm)
    } else {
        c1.r[rd]
    };
    CpuView { r: c1.r.update(rd, v), cpsr: nz_model(c1.cpsr, v), ..c1 }
}

/// An ALU operation between low registers; N and Z from the result.
pub open spec fn t_alu(c1: CpuView, op: u16) -> CpuView {
    let v = thumb_alu((op >> 6) & 15, c1.r[low(op, 0)], c1.r[low(op, 3)]);
    CpuView { r: c1.r.update(low(op, 0), v), cpsr: nz_model(c1.cpsr, v), ..c1 }
}

/// High-register add, or branch and exchange.
pub open spec fn t_hi(c1: CpuView, op: u16) -> CpuView {
    let rs = low(op, 3) + 8 * (((op >> 6) & 1) as int);
    let rd = low(op, 0) + 8 * (((op >> 7) & 1) as int);
    if (op >> 8) & 3 == 3 {
        let t = c1.r[rs];
        CpuView {
            r: c1.r.update(15, t & !1u32),
            cpsr: (c1.cpsr & !FLAG_T) | (if t & 1 != 0 {
                FLAG_T
            } else {
                0
            }),
            ..c1
        }
    } else {
        let r1 = c1.r.update(rd, c1.r[rd].wrapping_add(c1.r[rs]));
        let r2 = if rd == 15 {
            r1.update(15, r1[15] & !1u32)
        } else {
            r1
        };
        CpuView { r: r2, ..c1 }
    }
}

/// Register-offset transfer.
pub open spec fn t_reg_transfer(c1: CpuView, m: BusView, op: u16) -> (CpuView, BusView) {
    let a = c1.r[low(op, 3)].wrapping_add(c1.r[low(op, 6)]);
    if op & 0x1000 != 0 {
        (c1, write32_model(m, a, c1.r[low(op, 0)]))
    } else {
        (CpuView { r: c1.r.update(low(op, 0), read32_model(m, a) as u32), ..c1 }, m)
    }
}

/// Immediate-offset transfer.
pub open spec fn t_imm_transfer(c1: CpuView, m: BusView, op: u16) -> (CpuView, BusView) {
    let a = imm_address(c1, op) as u32;
    if op & 0x800 != 0 {
        (CpuView { r: c1.r.update(low(op, 0), read32_model(m, a) as u32), ..c1 }, m)
    } else {
        (c1, write32_model(m, a, c1.r[low(op, 0)]))
    }
}

/// Push of the listed low registers, then the link register with bit 8.
pub open spec fn t_push(c1: CpuView, m: BusView, op: u16) -> (CpuView, BusView) {
    let (m1, sp1) = push_loop(c1, m, op & 0xff, 0, c1.r[13]);
    if op & 0x100 != 0 {
        (CpuView { r: c1.r.update(13, (sp1 - 4) as u32), ..c1 }, write32_model(m1, (sp1 - 4) as u32, c1.r[14]))
    } else {
        (CpuView { r: c1.r.update(13, sp1), ..c1 }, m1)
    }
}

/// Pop into the listed low registers, then the PC with bit 8.
pub open spec fn t_pop(c1: CpuView, m: BusView, op: u16) -> CpuView {
    let (c2, sp1) = pop_loop(c1, m, op & 0xff, 0, c1.r[13]);
    if op & 0x100 != 0 {
        CpuView { r: c2.r.update(15, (read32_model(m, sp1) as u32) & !1u32).update(13, (sp1 + 4) as u32), ..c2 }
    } else {
        CpuView { r: c2.r.update(13, sp1), ..c2 }
    }
}

/// Conditional branch, or a software interrupt for condition 14.
pub open spec fn t_cond(c1: CpuView, op: u16) -> (CpuView, u32) {
    let cond = ((op >> 8) & 15) as u8;
    if cond == 14 {
        (swi_model(c1, (op & 0xff) as u8), 3)
    } else if cond_model(c1.cpsr, cond) {
        (CpuView { r: c1.r.update(15, relative(c1.r[15], cond_offset(op))), ..c1 }, 1)
    } else {
        (c1, 1)
    }
}

/// One Thumb instruction: shift by immediate, register add and subtract,
/// immediate operations, ALU operations, high-register operations and branch
/// exchange, PC-relative load, register- and immediate-offset transfers,
/// push and pop, conditional branch or software interrupt, and branch;
/// anything else only moves the PC on.
pub open spec fn step_thumb_model(c: CpuView, m: BusView) -> (CpuView, BusView, u32) {
    let op = thumb_op(c, m);
    let c1 = thumb_fetched(c);
    if op <= 0x07ff {
        (t_shift(c1, op), m, 1)
    } else if 0x1800 <= op <= 0x1fff {
        (t_addsub(c1, op), m, 1)
    } else if 0x2000 <= op <= 0x3fff {
        (t_imm(c1, op), m, 1)
    } else if 0x4000 <= op <= 0x43ff {
        (t_alu(c1, op), m, 1)
    } else if 0x4400 <= op <= 0x47ff {
        (t_hi(c1, op), m, 1)
    } else if 0x4800 <= op <= 0x4fff {
        (CpuView { r: c1.r.update(low(op, 8), read32_model(m, literal_address(c1, op) as u32) as u32), ..c1 }, m, 2)
    } else if 0x5000 <= op <= 0x5fff {
        let (c2, m2) = t_reg_transfer(c1, m, op);
        (c2, m2, 2)
    } else if 0x6000 <= op <= 0x7fff {
        let (c2, m2) = t_imm_transfer(c1, m, op);
        (c2, m2, 2)
    } else if 0xb400 <= op <= 0xb5ff {
        let (c2, m2) = t_push(c1, m, op);
        (c2, m2, 2)
    } else if 0xbc00 <= op <= 0xbdff {
        (t_pop(c1, m, op), m, 2)
    } else if 0xd000 <= op <= 0xdfff {
        let (c2, cy) = t_cond(c1, op);
        (c2, m, cy)
    } else if 0xe000 <= op <= 0xe7ff {
        (CpuView { r: c1.r.update(15, relative(c1.r[15], branch_offset(op))), ..c1 }, m, 1)
    } else {
        (c1, m, 1)
    }
}

/// Bits `shift..shift + 3` of `op`, a low register.
fn lowf(op: u16, shift: u16) -> (r: usize)
    requires
        shift < 16,
    ensures
        r < 8,
        r == low(op, shift),
{
    assert((op >> shift) & 7 < 8) by (bit_vector);
    ((op >> shift) & 7) as usize
}

fn asr_exec(a: u32, n: u32) -> (r: u32)
    requires
        n < 32,
    ensures
        r == asr(a, n),
{
    if a & 0x8000_0000 != 0 {
        !((!a) >> n)
    } else {
        a >> n
    }
}

fn alu(code: u16, a: u32, b: u32) -> (r: u32)
    ensures
        r == thumb_alu(code, a, b),
{
    let n = b & 31;
    assert(b & 31 < 32) by (bit_vector);
    if code == 0 {
        a & b
    } else if code == 1 {
        a ^ b
    } else if code == 2 {
        a.wrapping_sub(b)
    } else if code == 3 {
        a.wrapping_add(b)
    } else if code == 4 {
        a << n
    } else if code == 5 {
        rotate_right(a, n)
    } else if code == 6 {
        a >> n
    } else if code == 7 {
        asr_exec(a, n)
    } else if code == 8 {
        a & b
    } else if code == 9 {
        0u32.wrapping_sub(b)
    } else if code == 10 {
        a.wrapping_sub(b)
    } else if code == 11 {
        a.wrapping_add(b)
    } else if code == 12 {
        a | b
    } else if code == 13 {
        a.wrapping_mul(b)
    } else if code == 14 {
        a & !b
    } else {
        !b
    }
}

fn relative_exec(pc: u32, off: i32) -> (r: u32)
    requires
        relative_ok(pc, off as int),
    ensures
        r == relative(pc, off as int),
{
    ((pc as i32) + off) as u32
}

impl Cpu {
    fn t_shift_exec(&mut self, op: u16)
        ensures
            final(self)@ == t_shift(old(self)@, op),
    {
        let rs = lowf(op, 3);
        let rd = lowf(op, 0);
        assert((op >> 6u16) & 31 < 32) by (bit_vector);
        let v = self.r[rs] << (((op >> 6) & 31) as u32);
        self.r[rd] = v;
        self.set_nz(v);
        proof {
            assert(final(self)@.r =~= t_shift(old(self)@, op).r);
        }
    }

    fn t_addsub_exec(&mut self, op: u16)
        ensures
            final(self)@ == t_addsub(old(self)@, op),
    {
        let a = self.r[lowf(op, 3)];
        let b = self.r[lowf(op, 6)];
        let rd = lowf(op, 0);
        if op & 0x200 != 0 {
            let v = a.wrapping_sub(b);
            self.r[rd] = v;
            self.set_sub_flags(a, b, v);
        } else {
            let v = a.wrapping_add(b);
            self.r[rd] = v;
            self.set_add_flags(a, b, v);
        }
        proof {
            assert(final(self)@.r =~= t_addsub(old(self)@, op).r);
        }
    }

    fn t_imm_exec(&mut self, op: u16)
        ensures
            final(self)@ == t_imm(old(self)@, op),
    {
        let rd = lowf(op, 8);
        let imm = (op & 255) as u32;
        let k = (op >> 11) & 3;
        let v = if k == 0 {
            imm
        } else if k == 1 {
            self.r[rd].wrapping_add(imm)
        } else if k == 2 {
            self.r[rd].wrapping_sub(imm)
        } else {
            self.r[rd]
        };
        self.r[rd] = v;
        self.set_nz(v);
        proof {
            assert(final(self)@.r =~= t_imm(old(self)@, op).r);
        }
    }

    fn t_alu_exec(&mut self, op: u16)
        ensures
            final(self)@ == t_alu(old(self)@, op),
    {
        let rs = lowf(op, 3);
        let rd = lowf(op, 0);
        let v = alu((op >> 6) & 15, self.r[rd], self.r[rs]);
        self.r[rd] = v;
        self.set_nz(v);
        proof {
            assert(final(self)@.r =~= t_alu(old(self)@, op).r);
        }
    }

    fn t_hi_exec(&mut self, op: u16)
        ensures
            final(self)@ == t_hi(old(self)@, op),
    {
        assert((op >> 6u16) & 1 < 2 && (op >> 7u16) & 1 < 2) by (bit_vector);
        let rs = lowf(op, 3) + 8 * (((op >> 6) & 1) as usize);
        let rd = lowf(op, 0) + 8 * (((op >> 7) & 1) as usize);
        if (op >> 8) & 3 == 3 {
            let t = self.r[rs];
            self.cpsr = (self.cpsr & !FLAG_T) | (if t & 1 != 0 {
                FLAG_T
            } else {
                0
            });
            self.r[15] = t & !1u32;
        } else {
            self.r[rd] = self.r[rd].wrapping_add(self.r[rs]);
            if rd == 15 {
                self.r[15] = self.r[15] & !1u32;
            }
        }
        proof {
            assert(final(self)@.r =~= t_hi(old(self)@, op).r);
        }
    }

    fn t_reg_transfer_exec(&mut self, bus: &mut Bus, op: u16)
        requires
            bus_wf(old(bus)@),
            old(self)@.r[low(op, 3)].wrapping_add(old(self)@.r[low(op, 6)]) <= u32::MAX - 3,
        ensures
            (final(self)@, final(bus)@) == t_reg_transfer(old(self)@, old(bus)@, op),
            bus_wf(final(bus)@),
            final(bus).cart.title@ == old(bus).cart.title@,
    {
        let rd = lowf(op, 0);
        let a = self.r[lowf(op, 3)].wrapping_add(self.r[lowf(op, 6)]);
        if op & 0x1000 != 0 {
            bus.write32(a, self.r[rd]);
            proof {
                lemma_word_write_wf(old(bus)@, a, self.r[rd as int]);
            }
        } else {
            self.r[rd] = bus.read32(a);
        }
        proof {
            assert(final(self)@.r =~= t_reg_transfer(old(self)@, old(bus)@, op).0.r);
        }
    }

    fn t_imm_transfer_exec(&mut self, bus: &mut Bus, op: u16)
        requires
            bus_wf(old(bus)@),
            imm_address(old(self)@, op) <= u32::MAX - 3,
        ensures
            (final(self)@, final(bus)@) == t_imm_transfer(old(self)@, old(bus)@, op),
            bus_wf(final(bus)@),
            final(bus).cart.title@ == old(bus).cart.title@,
    {
        let rd = lowf(op, 0);
        assert((op >> 6u16) & 31 < 32) by (bit_vector);
        let a = self.r[lowf(op, 3)] + (((op >> 6) & 31) as u32) * 4;
        if op & 0x800 != 0 {
            self.r[rd] = bus.read32(a);
        } else {
            bus.write32(a, self.r[rd]);
            proof {
                lemma_word_write_wf(old(bus)@, a, self.r[rd as int]);
            }
        }
        proof {
            assert(final(self)@.r =~= t_imm_transfer(old(self)@, old(bus)@, op).0.r);
        }
    }

    fn t_push_exec(&mut self, bus: &mut Bus, op: u16)
        requires
            bus_wf(old(bus)@),
            push_loop_ok(op & 0xff, 0, old(self)@.r[13]),
            op & 0x100 != 0 ==> push_loop(old(self)@, old(bus)@, op & 0xff, 0, old(self)@.r[13]).1 >= 4,
        ensures
            (final(self)@, final(bus)@) == t_push(old(self)@, old(bus)@, op),
            bus_wf(final(bus)@),
            final(bus).cart.title@ == old(bus).cart.title@,
    {
        let ghost c0 = self@;
        let ghost m0 = bus@;
        let regs = op & 0xff;
        let mut sp = self.r[13];
        let mut i: u16 = 0;
        while i < 8
            invariant
                i <= 8,
                self@ == c0,
                bus_wf(bus@),
                bus.cart.title@ == old(bus).cart.title@,
                push_loop(c0, bus@, regs, i as int, sp) == push_loop(c0, m0, regs, 0, c0.r[13]),
                push_loop_ok(regs, i as int, sp),
            decreases 8 - i,
        {
            if (regs >> i) & 1 != 0 {
                sp = sp - 4;
                let ghost m1 = bus@;
                bus.write32(sp, self.r[i as usize]);
                proof {
                    lemma_word_write_wf(m1, sp, c0.r[i as int]);
                }
            }
            i = i + 1;
        }
        if op & 0x100 != 0 {
            sp = sp - 4;
            let ghost m1 = bus@;
            bus.write32(sp, self.r[14]);
            proof {
                lemma_word_write_wf(m1, sp, c0.r[14]);
            }
        }
        self.r[13] = sp;
        proof {
            assert(final(self)@.r =~= t_push(c0, m0, op).0.r);
        }
    }

    fn t_pop_exec(&mut self, bus: &Bus, op: u16)
        requires
            bus_wf(bus@),
            pop_loop_ok(op & 0xff, 0, old(self)@.r[13]),
            op & 0x100 != 0 ==> pop_loop(old(self)@, bus@, op & 0xff, 0, old(self)@.r[13]).1 <= u32::MAX - 4,
        ensures
            final(self)@ == t_pop(old(self)@, bus@, op),
    {
        let ghost c0 = self@;
        let regs = op & 0xff;
        let mut sp = self.r[13];
        let mut i: u16 = 0;
        while i < 8
            invariant
                i <= 8,
                bus_wf(bus@),
                pop_loop(self@, bus@, regs, i as int, sp) == pop_loop(c0, bus@, regs, 0, c0.r[13]),
                pop_loop_ok(regs, i as int, sp),
            decreases 8 - i,
        {
            if (regs >> i) & 1 != 0 {
                self.r[i as usize] = bus.read32(sp);
                sp = sp + 4;
            }
            i = i + 1;
        }
        if op & 0x100 != 0 {
            self.r[15] = bus.read32(sp) & !1u32;
            sp = sp + 4;
        }
        self.r[13] = sp;
        proof {
            assert(final(self)@.r =~= t_pop(c0, bus@, op).r);
        }
    }

    fn t_cond_exec(&mut self, op: u16) -> (cycles: u32)
        requires
            (op >> 8) & 15 != 14 && cond_model(old(self).cpsr, ((op >> 8) & 15) as u8) ==> relative_ok(old(self)@.r[15], cond_offset(op)),
        ensures
            (final(self)@, cycles) == t_cond(old(self)@, op),
    {
        let cond = ((op >> 8) & 15) as u8;
        if cond == 14 {
            return self.swi((op & 0xff) as u8);
        }
        if self.cond(cond) {
            let v = (op & 255) as i32;
            let off: i32 = if v >= 128 {
                (v - 256) * 2
            } else {
                v * 2
            };
            self.r[15] = relative_exec(self.r[15], off);
            proof {
                assert(final(self)@.r =~= t_cond(old(self)@, op).0.r);
            }
        }
        1
    }

    fn t_branch_exec(&mut self, op: u16)
        requires
            relative_ok(old(self)@.r[15], branch_offset(op)),
        ensures
            final(self)@ == (CpuView { r: old(self)@.r.update(15, relative(old(self)@.r[15], branch_offset(op))), ..old(self)@ }),
    {
        let v = ((op & 0x7ff) as i32) * 2;
        let off: i32 = if v >= 0x800 {
            v - 0x1000
        } else {
            v
        };
        self.r[15] = relative_exec(self.r[15], off);
        proof {
            assert(final(self)@.r =~= old(self)@.r.update(15, relative(old(self)@.r[15], branch_offset(op))));
        }
    }

    #[verifier::rlimit(40)]
    fn step_thumb(&mut self, bus: &mut Bus) -> (cycles: u32)
        requires
            bus_wf(old(bus)@),
            step_thumb_ok(old(self)@, old(bus)@),
        ensures
            (final(self)@, final(bus)@, cycles) == step_thumb_model(old(self)@, old(bus)@),
            bus_wf(final(bus)@),
            final(bus).cart.title@ == old(bus).cart.title@,
    {
        let pc = self.r[15];
        let op = bus.read16(pc);
        self.r[15] = pc + 2;
        proof {
            assert(self@ == thumb_fetched(old(self)@));
        }
        if op <= 0x07ff {
            self.t_shift_exec(op);
            1
        } else if 0x1800 <= op && op <= 0x1fff {
            self.t_addsub_exec(op);
            1
        } else if 0x2000 <= op && op <= 0x3fff {
            self.t_imm_exec(op);
            1
        } else if 0x4000 <= op && op <= 0x43ff {
            self.t_alu_exec(op);
            1
        } else if 0x4400 <= op && op <= 0x47ff {
            self.t_hi_exec(op);
            1
        } else if 0x4800 <= op && op <= 0x4fff {
            let rd = lowf(op, 8);
            let a = (self.r[15] & !2u32) + ((op & 255) as u32) * 4;
            self.r[rd] = bus.read32(a);
            proof {
                assert(final(self)@.r =~= step_thumb_model(old(self)@, old(bus)@).0.r);
            }
            2
        } else if 0x5000 <= op && op <= 0x5fff {
            self.t_reg_transfer_exec(bus, op);
            2
        } else if 0x6000 <= op && op <= 0x7fff {
            self.t_imm_transfer_exec(bus, op);
            2
        } else if 0xb400 <= op && op <= 0xb5ff {
            self.t_push_exec(bus, op);
            2
        } else if 0xbc00 <= op && op <= 0xbdff {
            self.t_pop_exec(bus, op);
            2
        } else if 0xd000 <= op && op <= 0xdfff {
            self.t_cond_exec(op)
        } else if 0xe000 <= op && op <= 0xe7ff {
            self.t_branch_exec(op);
            1
        } else {
            1
        }
    }
}

/// A step can be carried out: a halted core idles, else the instruction of
/// the current state can.
pub open spec fn step_ok(c: CpuView, m: BusView) -> bool {
    c.halted || (if c.cpsr & FLAG_T != 0 {
        step_thumb_ok(c, m)
    } else {
        step_arm_ok(c, m)
    })
}

/// One step: a halted core idles for a cycle, else it executes one Thumb or
/// ARM instruction as the T bit says. The result holds the cycles taken.
#[verifier::opaque]
pub open spec fn step_model(c: CpuView, m: BusView) -> (CpuView, BusView, u32) {
    if c.halted {
        (c, m, 1)
    } else if c.cpsr & FLAG_T != 0 {
        step_thumb_model(c, m)
    } else {
        step_arm_model(c, m)
    }
}

proof fn lemma_listed_count_bound(regs: u32, i: int)
    ensures
        listed_count(regs, i) <= 16,
        0 <= i <= 16 ==> listed_count(regs, i) <= 16 - i,
    decreases 16 - i,
{
    if 0 <= i < 16 {
        lemma_listed_count_bound(regs, i + 1);
    }
}

proof fn lemma_arm_cycles(c: CpuView, m: BusView)
    ensures
        step_arm_model(c, m).2 >= 1,
{
    let op = arm_op(c, m);
    let c1 = arm_fetched(c);
    if !(op & 0x0fff_fff0 == 0x012f_ff10) && !((op >> 25) & 7 == 5) && !(op & 0x0f00_0000 == 0x0f00_0000) && !(op & 0x0c00_0000
        == 0x0400_0000) && op & 0x0e00_0000 == 0x0800_0000 {
        lemma_listed_count_bound(op & 0xffff, 0);
        assert(arm_block_model(c1, m, op).2 >= 2);
    }
}

proof fn lemma_thumb_cycles(c: CpuView, m: BusView)
    ensures
        step_thumb_model(c, m).2 >= 1,
{
    let op = thumb_op(c, m);
    let c1 = thumb_fetched(c);
    if 0xd000 <= op <= 0xdfff {
        assert(t_cond(c1, op).1 >= 1);
    }
}

/// Every step takes at least one cycle.
pub proof fn law_step_takes_time(c: CpuView, m: BusView)
    ensures
        step_model(c, m).2 >= 1,
{
    reveal(step_model);
    lemma_arm_cycles(c, m);
    lemma_thumb_cycles(c, m);
}

impl Cpu {
    /// Executes one instruction, or idles when halted; returns the cycles
    /// taken.
    pub fn step(&mut self, bus: &mut Bus) -> (cycles: u32)
        requires
            bus_wf(old(bus)@),
            step_ok(old(self)@, old(bus)@),
        ensures
            (final(self)@, final(bus)@, cycles) == step_model(old(self)@, old(bus)@),
            bus_wf(final(bus)@),
            final(bus).cart.title@ == old(bus).cart.title@,
    {
        reveal(step_model);
        if self.halted {
            return 1;
        }
        if self.thumb() {
            self.step_thumb(bus)
        } else {
            self.step_arm(bus)
        }
    }
}

} // verus!
