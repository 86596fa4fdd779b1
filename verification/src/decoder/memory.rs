//! Little-endian instruction fetch from an image mapped at a base address.
use vstd::prelude::*;

verus! {

/// Base address of cartridge ROM in the GBA memory map.
pub const ROM_BASE: u32 = 0x0800_0000;

#[derive(Debug, Clone, Copy, PartialEq, Eq, Structural)]
pub enum DecodeError {
    /// The address lies below the image base.
    OutOfRange(u32),
    /// The instruction does not fit in the image.
    Truncated(u32),
}

/// Little-endian halfword at byte offset `o` of `s`.
pub open spec fn le16(s: Seq<u8>, o: int) -> u16 {
    (s[o] + s[o + 1] * 0x100) as u16
}

/// Little-endian word at byte offset `o` of `s`.
pub open spec fn le32(s: Seq<u8>, o: int) -> u32 {
    (s[o] + s[o + 1] * 0x100 + s[o + 2] * 0x1_0000 + s[o + 3] * 0x100_0000) as u32
}

/// Where an instruction of `width` bytes at `address` lies in an image of
/// `len` bytes mapped at `base`, or why it cannot be fetched.
pub open spec fn fetch_offset(len: nat, base: u32, address: u32, width: nat) -> Result<int, DecodeError> {
    if address < base {
        Err(DecodeError::OutOfRange(address))
    } else if (address - base) + width > len {
        Err(DecodeError::Truncated(address))
    } else {
        Ok(address - base)
    }
}

pub open spec fn read_arm_at_spec(rom: Seq<u8>, base: u32, address: u32) -> Result<u32, DecodeError> {
    match fetch_offset(rom.len(), base, address, 4) {
        Ok(o) => Ok(le32(rom, o)),
        Err(e) => Err(e),
    }
}

pub open spec fn read_thumb_at_spec(rom: Seq<u8>, base: u32, address: u32) -> Result<u16, DecodeError> {
    match fetch_offset(rom.len(), base, address, 2) {
        Ok(o) => Ok(le16(rom, o)),
        Err(e) => Err(e),
    }
}

pub open spec fn read_thumb_bl_at_spec(rom: Seq<u8>, base: u32, address: u32) -> Result<(u16, u16), DecodeError> {
    match fetch_offset(rom.len(), base, address, 4) {
        Ok(o) => Ok((le16(rom, o), le16(rom, o + 2))),
        Err(e) => Err(e),
    }
}

fn offset_for(rom: &[u8], base: u32, address: u32, width: usize) -> (r: Result<usize, DecodeError>)
    requires
        width <= 4,
    ensures
        match r {
            Ok(o) => fetch_offset(rom@.len(), base, address, width as nat) == Ok::<int, DecodeError>(o as int),
            Err(e) => fetch_offset(rom@.len(), base, address, width as nat) == Err::<int, DecodeError>(e),
        },
{
    if address < base {
        return Err(DecodeError::OutOfRange(address));
    }
    let offset = address - base;
    if offset as u64 + width as u64 > rom.len() as u64 {
        return Err(DecodeError::Truncated(address));
    }
    Ok(offset as usize)
}

/// Assembles a little-endian halfword.
pub fn halfword_le(b0: u8, b1: u8) -> (r: u16)
    ensures
        r == b0 + b1 * 0x100,
{
    let r = (b0 as u16) | ((b1 as u16) << 8u16);
    proof {
        assert((b0 as u16) | ((b1 as u16) << 8u16) == b0 + b1 * 0x100) by (bit_vector);
    }
    r
}

/// Assembles a little-endian word.
pub fn word_le(b0: u8, b1: u8, b2: u8, b3: u8) -> (r: u32)
    ensures
        r == b0 + b1 * 0x100 + b2 * 0x1_0000 + b3 * 0x100_0000,
{
    let r = (b0 as u32) | ((b1 as u32) << 8u32) | ((b2 as u32) << 16u32) | ((b3 as u32) << 24u32);
    proof {
        assert((b0 as u32) | ((b1 as u32) << 8u32) | ((b2 as u32) << 16u32) | ((b3 as u32) << 24u32)
            == b0 + b1 * 0x100 + b2 * 0x1_0000 + b3 * 0x100_0000) by (bit_vector);
    }
    r
}

pub fn read_arm_at(rom: &[u8], base: u32, address: u32) -> (r: Result<u32, DecodeError>)
    ensures
        r == read_arm_at_spec(rom@, base, address),
{
    let offset = offset_for(rom, base, address, 4)?;
    Ok(word_le(rom[offset], rom[offset + 1], rom[offset + 2], rom[offset + 3]))
}

pub fn read_thumb_at(rom: &[u8], base: u32, address: u32) -> (r: Result<u16, DecodeError>)
    ensures
        r == read_thumb_at_spec(rom@, base, address),
{
    let offset = offset_for(rom, base, address, 2)?;
    Ok(halfword_le(rom[offset], rom[offset + 1]))
}

pub fn read_thumb_bl_at(rom: &[u8], base: u32, address: u32) -> (r: Result<(u16, u16), DecodeError>)
    ensures
        r == read_thumb_bl_at_spec(rom@, base, address),
{
    let offset = offset_for(rom, base, address, 4)?;
    Ok((halfword_le(rom[offset], rom[offset + 1]), halfword_le(rom[offset + 2], rom[offset + 3])))
}

pub fn read_arm(rom: &[u8], address: u32) -> (r: Result<u32, DecodeError>)
    ensures
        r == read_arm_at_spec(rom@, ROM_BASE, address),
{
    read_arm_at(rom, ROM_BASE, address)
}

pub fn read_thumb(rom: &[u8], address: u32) -> (r: Result<u16, DecodeError>)
    ensures
        r == read_thumb_at_spec(rom@, ROM_BASE, address),
{
    read_thumb_at(rom, ROM_BASE, address)
}

pub fn read_thumb_bl(rom: &[u8], address: u32) -> (r: Result<(u16, u16), DecodeError>)
    ensures
        r == read_thumb_bl_at_spec(rom@, ROM_BASE, address),
{
    read_thumb_bl_at(rom, ROM_BASE, address)
}

} // verus!
