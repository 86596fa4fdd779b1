//! GBA system bus: region classification and little-endian byte, halfword and
//! word access to backing memories, with unaligned-word rotation.
use vstd::prelude::*;

use crate::architecture::{rotate_right32, rotr};
use crate::decoder::memory::word_le;

verus! {

pub const BIOS_START: u32 = 0x0000_0000;
pub const BIOS_END: u32 = 0x0000_3fff;
pub const EWRAM_START: u32 = 0x0200_0000;
pub const EWRAM_END: u32 = 0x0203_ffff;
pub const IWRAM_START: u32 = 0x0300_0000;
pub const IWRAM_END: u32 = 0x0300_7fff;
pub const IO_START: u32 = 0x0400_0000;
pub const IO_END: u32 = 0x0400_03ff;
pub const PALETTE_START: u32 = 0x0500_0000;
pub const PALETTE_END: u32 = 0x0500_03ff;
pub const VRAM_START: u32 = 0x0600_0000;
pub const VRAM_END: u32 = 0x0601_7fff;
pub const OAM_START: u32 = 0x0700_0000;
pub const OAM_END: u32 = 0x0700_03ff;
pub const ROM0_START: u32 = 0x0800_0000;
pub const ROM0_END: u32 = 0x09ff_ffff;
pub const SRAM_START: u32 = 0x0e00_0000;
pub const SRAM_END: u32 = 0x0fff_ffff;

#[derive(Debug, Clone, Copy, PartialEq, Eq, Structural)]
pub enum Region {
    Bios,
    Ewram,
    Iwram,
    Io,
    Palette,
    Vram,
    Oam,
    Rom,
    Save,
    Unmapped,
}

/// Inclusive address bounds of a mapped region.
pub open spec fn region_bounds(region: Region) -> (u32, u32) {
    match region {
        Region::Bios => (BIOS_START, BIOS_END),
        Region::Ewram => (EWRAM_START, EWRAM_END),
        Region::Iwram => (IWRAM_START, IWRAM_END),
        Region::Io => (IO_START, IO_END),
        Region::Palette => (PALETTE_START, PALETTE_END),
        Region::Vram => (VRAM_START, VRAM_END),
        Region::Oam => (OAM_START, OAM_END),
        Region::Rom => (ROM0_START, ROM0_END),
        Region::Save => (SRAM_START, SRAM_END),
        Region::Unmapped => (0, 0xffff_ffff),
    }
}

pub open spec fn region_contains(region: Region, address: u32) -> bool {
    region_bounds(region).0 <= address <= region_bounds(region).1
}

pub open spec fn region_base(region: Region) -> Option<u32> {
    match region {
        Region::Unmapped => None,
        _ => Some(region_bounds(region).0),
    }
}

impl Region {
    /// Whether `address` lies in the region; every address lies in `Unmapped`.
    pub fn contains(self, address: u32) -> (r: bool)
        ensures
            r == region_contains(self, address),
    {
        match self {
            Region::Bios => BIOS_START <= address && address <= BIOS_END,
            Region::Ewram => EWRAM_START <= address && address <= EWRAM_END,
            Region::Iwram => IWRAM_START <= address && address <= IWRAM_END,
            Region::Io => IO_START <= address && address <= IO_END,
            Region::Palette => PALETTE_START <= address && address <= PALETTE_END,
            Region::Vram => VRAM_START <= address && address <= VRAM_END,
            Region::Oam => OAM_START <= address && address <= OAM_END,
            Region::Rom => ROM0_START <= address && address <= ROM0_END,
            Region::Save => SRAM_START <= address && address <= SRAM_END,
            Region::Unmapped => true,
        }
    }

    /// First address of a mapped region.
    pub fn base(self) -> (r: Option<u32>)
        ensures
            r == region_base(self),
    {
        match self {
            Region::Bios => Some(BIOS_START),
            Region::Ewram => Some(EWRAM_START),
            Region::Iwram => Some(IWRAM_START),
            Region::Io => Some(IO_START),
            Region::Palette => Some(PALETTE_START),
            Region::Vram => Some(VRAM_START),
            Region::Oam => Some(OAM_START),
            Region::Rom => Some(ROM0_START),
            Region::Save => Some(SRAM_START),
            Region::Unmapped => None,
        }
    }
}

/// The mapped region holding `address`, or `Unmapped`.
pub open spec fn classify_spec(address: u32) -> Region {
    if region_contains(Region::Bios, address) {
        Region::Bios
    } else if region_contains(Region::Ewram, address) {
        Region::Ewram
    } else if region_contains(Region::Iwram, address) {
        Region::Iwram
    } else if region_contains(Region::Io, address) {
        Region::Io
    } else if region_contains(Region::Palette, address) {
        Region::Palette
    } else if region_contains(Region::Vram, address) {
        Region::Vram
    } else if region_contains(Region::Oam, address) {
        Region::Oam
    } else if region_contains(Region::Rom, address) {
        Region::Rom
    } else if region_contains(Region::Save, address) {
        Region::Save
    } else {
        Region::Unmapped
    }
}

pub fn classify(address: u32) -> (r: Region)
    ensures
        r == classify_spec(address),
{
    if Region::Bios.contains(address) {
        Region::Bios
    } else if Region::Ewram.contains(address) {
        Region::Ewram
    } else if Region::Iwram.contains(address) {
        Region::Iwram
    } else if Region::Io.contains(address) {
        Region::Io
    } else if Region::Palette.contains(address) {
        Region::Palette
    } else if Region::Vram.contains(address) {
        Region::Vram
    } else if Region::Oam.contains(address) {
        Region::Oam
    } else if Region::Rom.contains(address) {
        Region::Rom
    } else if Region::Save.contains(address) {
        Region::Save
    } else {
        Region::Unmapped
    }
}

#[derive(Debug, Clone, Copy, PartialEq, Eq, Structural)]
pub enum AccessWidth {
    Byte,
    Halfword,
    Word,
}

pub open spec fn width_bytes(width: AccessWidth) -> u32 {
    match width {
        AccessWidth::Byte => 1,
        AccessWidth::Halfword => 2,
        AccessWidth::Word => 4,
    }
}

impl AccessWidth {
    /// Number of bytes accessed.
    pub fn bytes(self) -> (r: u32)
        ensures
            r == width_bytes(self),
    {
        match self {
            AccessWidth::Byte => 1,
            AccessWidth::Halfword => 2,
            AccessWidth::Word => 4,
        }
    }
}

#[derive(Debug, Clone, Copy, PartialEq, Eq, Structural)]
pub enum BusError {
    Unmapped { address: u32 },
    CrossesRegion { address: u32, width: AccessWidth },
}

/// A memory-mapped device addressed by byte offset.
pub trait BusDevice {
    fn read8(&mut self, offset: usize) -> u8;

    fn write8(&mut self, offset: usize, value: u8);
}

/// Backing memories of the GBA address space.
#[derive(Debug, Clone)]
pub struct GbaBus {
    pub bios: Vec<u8>,
    pub ewram: Vec<u8>,
    pub iwram: Vec<u8>,
    pub io: Vec<u8>,
    pub palette: Vec<u8>,
    pub vram: Vec<u8>,
    pub oam: Vec<u8>,
    pub rom: Vec<u8>,
    pub save: Vec<u8>,
}

/// Contents of the nine backing memories.
pub struct BusState {
    pub bios: Seq<u8>,
    pub ewram: Seq<u8>,
    pub iwram: Seq<u8>,
    pub io: Seq<u8>,
    pub palette: Seq<u8>,
    pub vram: Seq<u8>,
    pub oam: Seq<u8>,
    pub rom: Seq<u8>,
    pub save: Seq<u8>,
}

impl View for GbaBus {
    type V = BusState;

    open spec fn view(&self) -> BusState {
        BusState {
            bios: self.bios@,
            ewram: self.ewram@,
            iwram: self.iwram@,
            io: self.io@,
            palette: self.palette@,
            vram: self.vram@,
            oam: self.oam@,
            rom: self.rom@,
            save: self.save@,
        }
    }
}

pub open spec fn memory_of(s: BusState, region: Region) -> Seq<u8> {
    match region {
        Region::Bios => s.bios,
        Region::Ewram => s.ewram,
        Region::Iwram => s.iwram,
        Region::Io => s.io,
        Region::Palette => s.palette,
        Region::Vram => s.vram,
        Region::Oam => s.oam,
        Region::Rom => s.rom,
        Region::Save => s.save,
        Region::Unmapped => Seq::empty(),
    }
}

pub open spec fn with_memory(s: BusState, region: Region, m: Seq<u8>) -> BusState {
    match region {
        Region::Bios => BusState { bios: m, ..s },
        Region::Ewram => BusState { ewram: m, ..s },
        Region::Iwram => BusState { iwram: m, ..s },
        Region::Io => BusState { io: m, ..s },
        Region::Palette => BusState { palette: m, ..s },
        Region::Vram => BusState { vram: m, ..s },
        Region::Oam => BusState { oam: m, ..s },
        Region::Rom => BusState { rom: m, ..s },
        Region::Save => BusState { save: m, ..s },
        Region::Unmapped => s,
    }
}

/// Index into a region's backing memory of the byte at `offset` from its base:
/// fixed-size memories mirror by their size, ROM and save by their length.
pub open spec fn slot_index(s: BusState, region: Region, offset: u32) -> int {
    match region {
        Region::Bios => offset as int,
        Region::Ewram => (offset & 0x1ffff) as int,
        Region::Iwram => (offset & 0x7fff) as int,
        Region::Io => (offset & 0x3ff) as int,
        Region::Palette => (offset & 0x3ff) as int,
        Region::Vram => (offset & 0x17fff) as int,
        Region::Oam => (offset & 0x3ff) as int,
        Region::Rom => offset as int % (if s.rom.len() == 0 { 1 } else { s.rom.len() as int }),
        Region::Save => offset as int % (if s.save.len() == 0 { 1 } else { s.save.len() as int }),
        Region::Unmapped => 0,
    }
}

/// Region and offset of an access, or why it is refused.
pub open spec fn resolve_spec(address: u32, width: AccessWidth) -> Result<(Region, u32), BusError> {
    let region = classify_spec(address);
    let last_int = address + width_bytes(width) - 1;
    let last: u32 = if last_int > 0xffff_ffff { 0xffff_ffff } else { last_int as u32 };
    if region == Region::Unmapped {
        Err(BusError::Unmapped { address })
    } else if classify_spec(last) != region {
        Err(BusError::CrossesRegion { address, width })
    } else {
        Ok((region, (address - region_bounds(region).0) as u32))
    }
}

pub open spec fn byte_at(m: Seq<u8>, i: int) -> u8 {
    if 0 <= i < m.len() {
        m[i]
    } else {
        0
    }
}

/// The byte read at `address`; bytes beyond a short backing memory read as 0.
pub open spec fn read8_spec(s: BusState, address: u32) -> Result<u8, BusError> {
    match resolve_spec(address, AccessWidth::Byte) {
        Err(e) => Err(e),
        Ok((region, offset)) => Ok(byte_at(memory_of(s, region), slot_index(s, region, offset))),
    }
}

/// Halfword read: refused when the halfword leaves its region, else the two
/// bytes little-endian.
pub open spec fn read16_spec(s: BusState, address: u32) -> Result<u16, BusError> {
    match resolve_spec(address, AccessWidth::Halfword) {
        Err(e) => Err(e),
        Ok(_) => match read8_spec(s, address) {
            Err(e) => Err(e),
            Ok(lo) => match read8_spec(s, address.wrapping_add(1)) {
                Err(e) => Err(e),
                Ok(hi) => Ok((lo + hi * 0x100) as u16),
            },
        },
    }
}

/// Word read: the aligned word, rotated right by the byte misalignment.
pub open spec fn read32_spec(s: BusState, address: u32) -> Result<u32, BusError> {
    let aligned = address & 0xffff_fffc;
    match read8_spec(s, aligned) {
        Err(e) => Err(e),
        Ok(b0) => match read8_spec(s, (aligned + 1) as u32) {
            Err(e) => Err(e),
            Ok(b1) => match read8_spec(s, (aligned + 2) as u32) {
                Err(e) => Err(e),
                Ok(b2) => match read8_spec(s, (aligned + 3) as u32) {
                    Err(e) => Err(e),
                    Ok(b3) => Ok(
                        rotr(
                            (b0 + b1 * 0x100 + b2 * 0x1_0000 + b3 * 0x100_0000) as u32,
                            ((address & 3) * 8) as u32,
                        ),
                    ),
                },
            },
        },
    }
}

/// State after a byte write and its outcome. BIOS and ROM ignore writes, as do
/// slots beyond a short backing memory.
pub open spec fn write8_spec(s: BusState, address: u32, value: u8) -> (BusState, Result<(), BusError>) {
    match resolve_spec(address, AccessWidth::Byte) {
        Err(e) => (s, Err(e)),
        Ok((region, offset)) => {
            if region == Region::Bios || region == Region::Rom {
                (s, Ok(()))
            } else {
                let m = memory_of(s, region);
                let i = slot_index(s, region, offset);
                if 0 <= i < m.len() {
                    (with_memory(s, region, m.update(i, value)), Ok(()))
                } else {
                    (s, Ok(()))
                }
            }
        },
    }
}

/// Halfword write: the low byte, then the high byte at the next address;
/// a refused byte ends the write with its error, the bytes before it stay
/// written.
pub open spec fn write16_spec(s: BusState, address: u32, value: u16) -> (BusState, Result<(), BusError>) {
    let (s1, r1) = write8_spec(s, address, (value & 0xff) as u8);
    match r1 {
        Err(e) => (s1, Err(e)),
        Ok(_) => write8_spec(s1, address.wrapping_add(1), (value >> 8u16) as u8),
    }
}

/// Byte `i` of the little-endian encoding of `value`.
pub open spec fn le_byte(value: u32, i: int) -> u8 {
    ((value >> ((8 * i) as u32)) & 0xff) as u8
}

/// State after writing bytes `i..4` of `value` at `address + i ..`, stopping
/// at the first refused byte.
pub open spec fn write32_from(s: BusState, address: u32, value: u32, i: nat) -> (BusState, Result<(), BusError>)
    decreases 4 - i,
{
    if i >= 4 {
        (s, Ok(()))
    } else {
        let (s1, r1) = write8_spec(s, address.wrapping_add(i as u32), le_byte(value, i as int));
        match r1 {
            Err(e) => (s1, Err(e)),
            Ok(_) => write32_from(s1, address, value, i + 1),
        }
    }
}

/// Word write: the four little-endian bytes one by one from `address`; a
/// refused byte ends the write with its error, the bytes before it stay
/// written.
pub open spec fn write32_spec(s: BusState, address: u32, value: u32) -> (BusState, Result<(), BusError>) {
    write32_from(s, address, value, 0)
}

impl GbaBus {
    pub fn new(
        bios: Vec<u8>,
        ewram: usize,
        iwram: usize,
        io: usize,
        palette: usize,
        vram: usize,
        oam: usize,
        rom: Vec<u8>,
        save: usize,
    ) -> (r: Self)
        ensures
            r.bios@ == bios@,
            r.rom@ == rom@,
            r.ewram@ == Seq::new(ewram as nat, |i: int| 0u8),
            r.iwram@ == Seq::new(iwram as nat, |i: int| 0u8),
            r.io@ == Seq::new(io as nat, |i: int| 0u8),
            r.palette@ == Seq::new(palette as nat, |i: int| 0u8),
            r.vram@ == Seq::new(vram as nat, |i: int| 0u8),
            r.oam@ == Seq::new(oam as nat, |i: int| 0u8),
            r.save@ == Seq::new(save as nat, |i: int| 0u8),
    {
        GbaBus {
            bios,
            ewram: zeroed(ewram),
            iwram: zeroed(iwram),
            io: zeroed(io),
            palette: zeroed(palette),
            vram: zeroed(vram),
            oam: zeroed(oam),
            rom,
            save: zeroed(save),
        }
    }

    fn resolve(&self, address: u32, width: AccessWidth) -> (r: Result<(Region, u32), BusError>)
        ensures
            r == resolve_spec(address, width),
    {
        let region = classify(address);
        if matches!(region, Region::Unmapped) {
            return Err(BusError::Unmapped { address });
        }
        let last = address.saturating_add(width.bytes() - 1);
        if classify(last) != region {
            return Err(BusError::CrossesRegion { address, width });
        }
        let base = match region.base() {
            Some(base) => base,
            None => 0,
        };
        Ok((region, address - base))
    }

    fn slot(&self, region: Region, offset: u32) -> (r: usize)
        requires
            region != Region::Unmapped,
        ensures
            r as int == slot_index(self@, region, offset),
    {
        match region {
            Region::Bios => offset as usize,
            Region::Ewram => (offset & 0x1ffff) as usize,
            Region::Iwram => (offset & 0x7fff) as usize,
            Region::Io => (offset & 0x3ff) as usize,
            Region::Palette => (offset & 0x3ff) as usize,
            Region::Vram => (offset & 0x17fff) as usize,
            Region::Oam => (offset & 0x3ff) as usize,
            Region::Rom => {
                let len = if self.rom.len() == 0 { 1 } else { self.rom.len() };
                (offset as usize) % len
            },
            _ => {
                let len = if self.save.len() == 0 { 1 } else { self.save.len() };
                (offset as usize) % len
            },
        }
    }

    fn memory(&self, region: Region) -> (r: &Vec<u8>)
        ensures
            region != Region::Unmapped ==> r@ == memory_of(self@, region),
    {
        match region {
            Region::Bios => &self.bios,
            Region::Ewram => &self.ewram,
            Region::Iwram => &self.iwram,
            Region::Io => &self.io,
            Region::Palette => &self.palette,
            Region::Vram => &self.vram,
            Region::Oam => &self.oam,
            Region::Rom => &self.rom,
            _ => &self.save,
        }
    }

    pub fn read8(&self, address: u32) -> (r: Result<u8, BusError>)
        ensures
            r == read8_spec(self@, address),
    {
        let (region, offset) = self.resolve(address, AccessWidth::Byte)?;
        let index = self.slot(region, offset);
        let data = self.memory(region);
        if index < data.len() {
            Ok(data[index])
        } else {
            Ok(0)
        }
    }

    pub fn read16(&self, address: u32) -> (r: Result<u16, BusError>)
        ensures
            r == read16_spec(self@, address),
    {
        self.resolve(address, AccessWidth::Halfword)?;
        let lo = self.read8(address)?;
        let hi = self.read8(address.wrapping_add(1))?;
        Ok(crate::decoder::memory::halfword_le(lo, hi))
    }

    pub fn read32(&self, address: u32) -> (r: Result<u32, BusError>)
        ensures
            r == read32_spec(self@, address),
    {
        let aligned = address & 0xffff_fffc;
        proof {
            assert(address & 0xffff_fffc <= 0xffff_fffc) by (bit_vector);
            assert(address & 3 <= 3) by (bit_vector);
        }
        let b0 = self.read8(aligned)?;
        let b1 = self.read8(aligned + 1)?;
        let b2 = self.read8(aligned + 2)?;
        let b3 = self.read8(aligned + 3)?;
        let raw = word_le(b0, b1, b2, b3);
        Ok(rotate_right32(raw, (address & 3) * 8))
    }

    fn store(&mut self, region: Region, index: usize, value: u8)
        requires
            region != Region::Unmapped,
            index < memory_of(old(self)@, region).len(),
        ensures
            final(self)@ == with_memory(old(self)@, region, memory_of(old(self)@, region).update(index as int, value)),
    {
        match region {
            Region::Bios => self.bios.set(index, value),
            Region::Ewram => self.ewram.set(index, value),
            Region::Iwram => self.iwram.set(index, value),
            Region::Io => self.io.set(index, value),
            Region::Palette => self.palette.set(index, value),
            Region::Vram => self.vram.set(index, value),
            Region::Oam => self.oam.set(index, value),
            Region::Rom => self.rom.set(index, value),
            _ => self.save.set(index, value),
        }
    }

    pub fn write8(&mut self, address: u32, value: u8) -> (r: Result<(), BusError>)
        ensures
            (final(self)@, r) == write8_spec(old(self)@, address, value),
    {
        let (region, offset) = self.resolve(address, AccessWidth::Byte)?;
        if matches!(region, Region::Bios) || matches!(region, Region::Rom) {
            return Ok(());
        }
        let index = self.slot(region, offset);
        if index < self.memory(region).len() {
            self.store(region, index, value);
        }
        Ok(())
    }

    pub fn write16(&mut self, address: u32, value: u16) -> (r: Result<(), BusError>)
        ensures
            (final(self)@, r) == write16_spec(old(self)@, address, value),
    {
        self.write8(address, (value & 0xff) as u8)?;
        self.write8(address.wrapping_add(1), (value >> 8u16) as u8)?;
        Ok(())
    }

    pub fn write32(&mut self, address: u32, value: u32) -> (r: Result<(), BusError>)
        ensures
            (final(self)@, r) == write32_spec(old(self)@, address, value),
    {
        let ghost start = self@;
        let mut i: u32 = 0;
        while i < 4
            invariant
                i <= 4,
                start == old(self)@,
                write32_spec(start, address, value) == write32_from(self@, address, value, i as nat),
            decreases 4 - i,
        {
            let byte = ((value >> (8 * i)) & 0xff) as u8;
            assert(byte == le_byte(value, i as int));
            let ghost before = self@;
            let r = self.write8(address.wrapping_add(i), byte);
            assert(write32_from(before, address, value, i as nat) == (match write8_spec(before, address.wrapping_add(i), byte).1 {
                Err(e) => (write8_spec(before, address.wrapping_add(i), byte).0, Err(e)),
                Ok(_) => write32_from(write8_spec(before, address.wrapping_add(i), byte).0, address, value, (i + 1) as nat),
            }));
            match r {
                Err(e) => {
                    assert(write32_spec(start, address, value) == (self@, Err::<(), BusError>(e)));
                    return Err(e);
                },
                Ok(_) => {},
            }
            i = i + 1;
        }
        Ok(())
    }
}

fn zeroed(n: usize) -> (r: Vec<u8>)
    ensures
        r@ == Seq::new(n as nat, |i: int| 0u8),
{
    let mut v: Vec<u8> = Vec::new();
    let mut i: usize = 0;
    while i < n
        invariant
            i <= n,
            v@ == Seq::new(i as nat, |k: int| 0u8),
        decreases n - i,
    {
        v.push(0);
        proof {
            assert(v@ =~= Seq::new((i + 1) as nat, |k: int| 0u8));
        }
        i = i + 1;
    }
    v
}

impl Default for GbaBus {
    fn default() -> (r: Self)
        ensures
            r.bios@.len() == 0,
            r.rom@.len() == 0,
            r.ewram@ == Seq::new(0x20000, |i: int| 0u8),
            r.iwram@ == Seq::new(0x8000, |i: int| 0u8),
            r.io@ == Seq::new(0x400, |i: int| 0u8),
            r.palette@ == Seq::new(0x400, |i: int| 0u8),
            r.vram@ == Seq::new(0x18000, |i: int| 0u8),
            r.oam@ == Seq::new(0x400, |i: int| 0u8),
            r.save@ == Seq::new(0x8000, |i: int| 0u8),
    {
        let r = GbaBus::new(Vec::new(), 0x20000, 0x8000, 0x400, 0x400, 0x18000, 0x400, Vec::new(), 0x8000);
        proof {
            assert(r.ewram@ =~= Seq::new(0x20000, |i: int| 0u8));
            assert(r.iwram@ =~= Seq::new(0x8000, |i: int| 0u8));
            assert(r.io@ =~= Seq::new(0x400, |i: int| 0u8));
            assert(r.palette@ =~= Seq::new(0x400, |i: int| 0u8));
            assert(r.vram@ =~= Seq::new(0x18000, |i: int| 0u8));
            assert(r.oam@ =~= Seq::new(0x400, |i: int| 0u8));
            assert(r.save@ =~= Seq::new(0x8000, |i: int| 0u8));
        }
        r
    }
}

/// A byte written to a writable mapped address, within the backing memory,
/// is the byte read back from that address.
pub proof fn law_write_then_read_byte(s: BusState, address: u32, value: u8)
    requires
        resolve_spec(address, AccessWidth::Byte) is Ok,
        classify_spec(address) != Region::Bios,
        classify_spec(address) != Region::Rom,
        0 <= slot_index(s, classify_spec(address), (address - region_bounds(classify_spec(address)).0) as u32)
            < memory_of(s, classify_spec(address)).len(),
    ensures
        write8_spec(s, address, value).1 == Ok::<(), BusError>(()),
        read8_spec(write8_spec(s, address, value).0, address) == Ok::<u8, BusError>(value),
{
    let region = classify_spec(address);
    let s2 = write8_spec(s, address, value).0;
    assert(memory_of(s2, region).len() == memory_of(s, region).len());
    assert(slot_index(s2, region, (address - region_bounds(region).0) as u32) == slot_index(
        s,
        region,
        (address - region_bounds(region).0) as u32,
    ));
}

/// Writing one region leaves every other region's memory unchanged.
pub proof fn law_write_touches_one_region(s: BusState, address: u32, value: u8, other: Region)
    requires
        other != classify_spec(address),
    ensures
        memory_of(write8_spec(s, address, value).0, other) == memory_of(s, other),
{
}

} // verus!
