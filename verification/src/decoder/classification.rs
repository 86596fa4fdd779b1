//! Instruction-family classification of raw ARM words and Thumb halfwords.
use vstd::prelude::*;

use super::common::{arm_matches, thumb_matches};

verus! {

#[derive(Debug, Clone, Copy, PartialEq, Eq, Structural)]
pub enum ArmClass {
    Nop,
    BranchExchange,
    Swap,
    Branch,
    SoftwareInterrupt,
    Mrs,
    Msr,
    Multiply,
    MultiplyLong,
    BlockTransfer,
    SingleDataTransfer,
    HalfwordTransfer,
    DataProcessing,
    CoprocessorRegisterTransfer,
    CoprocessorTransfer,
    CoprocessorData,
    Unknown,
}

#[derive(Debug, Clone, Copy, PartialEq, Eq, Structural)]
pub enum ThumbClass {
    Nop,
    MoveShifted,
    AddSub,
    MovImmediate,
    CmpImmediate,
    AddImmediate,
    SubImmediate,
    Alu,
    BranchExchange,
    HighRegister,
    PcRelativeLoad,
    LoadStoreRegister,
    LoadStoreSignHalf,
    LoadStoreImmediate,
    LoadStoreHalfword,
    SpRelativeLoadStore,
    Address,
    AddSp,
    PushPop,
    MultipleLoadStore,
    ConditionalBranch,
    SoftwareInterrupt,
    Branch,
    Unknown,
}

/// The ARM7TDMI encoding family of `raw`, tried in priority order.
pub open spec fn classify_arm_spec(raw: u32) -> ArmClass {
    if raw == 0xE1A0_0000 {
        ArmClass::Nop
    } else if raw & 0x0FFF_FFF0 == 0x012F_FF30 || raw & 0x0FFF_FFF0 == 0x012F_FF10 {
        ArmClass::BranchExchange
    } else if raw & 0x0F00_00F0 == 0x0100_0090 && raw & 0x0200_0000 == 0 {
        ArmClass::Swap
    } else if raw & 0x0E00_0000 == 0x0A00_0000 {
        ArmClass::Branch
    } else if (raw >> 28u32) != 0xF && raw & 0x0F00_0000 == 0x0F00_0000 {
        ArmClass::SoftwareInterrupt
    } else if raw & 0x0FBF_0FFF == 0x010F_0000 {
        ArmClass::Mrs
    } else if raw & 0x0DB0_F000 == 0x0120_F000 {
        ArmClass::Msr
    } else if raw & 0x0FC0_00F0 == 0x0000_0090 {
        ArmClass::Multiply
    } else if raw & 0x0F80_00F0 == 0x0080_0090 {
        ArmClass::MultiplyLong
    } else if raw & 0x0E00_0000 == 0x0800_0000 {
        ArmClass::BlockTransfer
    } else if raw & 0x0C00_0000 == 0x0400_0000 {
        ArmClass::SingleDataTransfer
    } else if raw & 0x0E00_0090 == 0x0000_0090 {
        ArmClass::HalfwordTransfer
    } else if raw & 0x0C00_0000 == 0x0000_0000 {
        ArmClass::DataProcessing
    } else if raw & 0x0C00_0010 == 0x0000_0010 {
        ArmClass::CoprocessorRegisterTransfer
    } else if raw & 0x0E00_0000 == 0x0C00_0000 {
        ArmClass::CoprocessorTransfer
    } else if raw & 0x0F00_0010 == 0x0E00_0000 || raw & 0x0F00_0010 == 0x0E00_0010 {
        ArmClass::CoprocessorData
    } else {
        ArmClass::Unknown
    }
}

proof fn lemma_patterns_within_masks()
    ensures
        0x012F_FF30u32 & !0x0FFF_FFF0u32 == 0,
        0x012F_FF10u32 & !0x0FFF_FFF0u32 == 0,
        0x0100_0090u32 & !0x0F00_00F0u32 == 0,
        0x0A00_0000u32 & !0x0E00_0000u32 == 0,
        0x0F00_0000u32 & !0x0F00_0000u32 == 0,
        0x010F_0000u32 & !0x0FBF_0FFFu32 == 0,
        0x0120_F000u32 & !0x0DB0_F000u32 == 0,
        0x0000_0090u32 & !0x0FC0_00F0u32 == 0,
        0x0080_0090u32 & !0x0F80_00F0u32 == 0,
        0x0800_0000u32 & !0x0E00_0000u32 == 0,
        0x0400_0000u32 & !0x0C00_0000u32 == 0,
        0x0000_0090u32 & !0x0E00_0090u32 == 0,
        0x0000_0000u32 & !0x0C00_0000u32 == 0,
        0x0000_0010u32 & !0x0C00_0010u32 == 0,
        0x0C00_0000u32 & !0x0E00_0000u32 == 0,
        0x0E00_0000u32 & !0x0F00_0010u32 == 0,
        0x0E00_0010u32 & !0x0F00_0010u32 == 0,
{
    assert(
        0x012F_FF30u32 & !0x0FFF_FFF0u32 == 0 &&
        0x012F_FF10u32 & !0x0FFF_FFF0u32 == 0 &&
        0x0100_0090u32 & !0x0F00_00F0u32 == 0 &&
        0x0A00_0000u32 & !0x0E00_0000u32 == 0 &&
        0x0F00_0000u32 & !0x0F00_0000u32 == 0 &&
        0x010F_0000u32 & !0x0FBF_0FFFu32 == 0 &&
        0x0120_F000u32 & !0x0DB0_F000u32 == 0 &&
        0x0000_0090u32 & !0x0FC0_00F0u32 == 0 &&
        0x0080_0090u32 & !0x0F80_00F0u32 == 0 &&
        0x0800_0000u32 & !0x0E00_0000u32 == 0 &&
        0x0400_0000u32 & !0x0C00_0000u32 == 0 &&
        0x0000_0090u32 & !0x0E00_0090u32 == 0 &&
        0x0000_0000u32 & !0x0C00_0000u32 == 0 &&
        0x0000_0010u32 & !0x0C00_0010u32 == 0 &&
        0x0C00_0000u32 & !0x0E00_0000u32 == 0 &&
        0x0E00_0000u32 & !0x0F00_0010u32 == 0 &&
        0x0E00_0010u32 & !0x0F00_0010u32 == 0
    ) by (bit_vector);
}

pub fn classify_arm(raw: u32) -> (r: ArmClass)
    ensures
        r == classify_arm_spec(raw),
{
    proof {
        lemma_patterns_within_masks();
    }
    if raw == 0xE1A0_0000 {
        return ArmClass::Nop;
    }
    if arm_matches(raw, 0x0FFF_FFF0, 0x012F_FF30) || arm_matches(raw, 0x0FFF_FFF0, 0x012F_FF10) {
        return ArmClass::BranchExchange;
    }
    if arm_matches(raw, 0x0F00_00F0, 0x0100_0090) && raw & 0x0200_0000 == 0 {
        return ArmClass::Swap;
    }
    if arm_matches(raw, 0x0E00_0000, 0x0A00_0000) {
        return ArmClass::Branch;
    }
    // Condition 0b1111 is the ARMv5 unconditional space, never an ARM7TDMI SWI.
    if (raw >> 28u32) != 0xF && arm_matches(raw, 0x0F00_0000, 0x0F00_0000) {
        return ArmClass::SoftwareInterrupt;
    }
    if arm_matches(raw, 0x0FBF_0FFF, 0x010F_0000) {
        return ArmClass::Mrs;
    }
    if arm_matches(raw, 0x0DB0_F000, 0x0120_F000) {
        return ArmClass::Msr;
    }
    if arm_matches(raw, 0x0FC0_00F0, 0x0000_0090) {
        return ArmClass::Multiply;
    }
    if arm_matches(raw, 0x0F80_00F0, 0x0080_0090) {
        return ArmClass::MultiplyLong;
    }
    if arm_matches(raw, 0x0E00_0000, 0x0800_0000) {
        return ArmClass::BlockTransfer;
    }
    if arm_matches(raw, 0x0C00_0000, 0x0400_0000) {
        return ArmClass::SingleDataTransfer;
    }
    if arm_matches(raw, 0x0E00_0090, 0x0000_0090) {
        return ArmClass::HalfwordTransfer;
    }
    if arm_matches(raw, 0x0C00_0000, 0x0000_0000) {
        return ArmClass::DataProcessing;
    }
    if arm_matches(raw, 0x0C00_0010, 0x0000_0010) {
        return ArmClass::CoprocessorRegisterTransfer;
    }
    if arm_matches(raw, 0x0E00_0000, 0x0C00_0000) {
        return ArmClass::CoprocessorTransfer;
    }
    if arm_matches(raw, 0x0F00_0010, 0x0E00_0000) || arm_matches(raw, 0x0F00_0010, 0x0E00_0010) {
        return ArmClass::CoprocessorData;
    }
    ArmClass::Unknown
}

/// The Thumb (ARMv4T) format of `raw`, tried in priority order.
pub open spec fn classify_thumb_spec(raw: u16) -> ThumbClass {
    if raw == 0x46C0 {
        ThumbClass::Nop
    } else if raw & 0xE000 == 0x0000 {
        ThumbClass::MoveShifted
    } else if raw & 0xF800 == 0x1800 {
        ThumbClass::AddSub
    } else if raw & 0xF800 == 0x2000 {
        ThumbClass::MovImmediate
    } else if raw & 0xF800 == 0x2800 {
        ThumbClass::CmpImmediate
    } else if raw & 0xF800 == 0x3000 {
        ThumbClass::AddImmediate
    } else if raw & 0xF800 == 0x3800 {
        ThumbClass::SubImmediate
    } else if raw & 0xFC00 == 0x4000 {
        ThumbClass::Alu
    } else if raw & 0xFF87 == 0x4700 {
        ThumbClass::BranchExchange
    } else if raw & 0xFC00 == 0x4400 {
        ThumbClass::HighRegister
    } else if raw & 0xF800 == 0x4800 {
        ThumbClass::PcRelativeLoad
    } else if raw & 0xF000 == 0x5000 {
        if ((raw >> 9u16) & 7) < 4 {
            ThumbClass::LoadStoreRegister
        } else {
            ThumbClass::LoadStoreSignHalf
        }
    } else if raw & 0xE000 == 0x6000 {
        ThumbClass::LoadStoreImmediate
    } else if raw & 0xF000 == 0x8000 {
        ThumbClass::LoadStoreHalfword
    } else if raw & 0xF000 == 0x9000 {
        ThumbClass::SpRelativeLoadStore
    } else if raw & 0xF000 == 0xA000 {
        ThumbClass::Address
    } else if raw & 0xFF80 == 0xB000 {
        ThumbClass::AddSp
    } else if raw & 0xFE00 == 0xB400 || raw & 0xFE00 == 0xBC00 {
        ThumbClass::PushPop
    } else if raw & 0xF000 == 0xC000 {
        ThumbClass::MultipleLoadStore
    } else if raw & 0xF000 == 0xD000 && raw & 0x0F00 != 0x0F00 {
        ThumbClass::ConditionalBranch
    } else if raw & 0xFF00 == 0xDF00 {
        ThumbClass::SoftwareInterrupt
    } else if raw & 0xF800 == 0xE000 {
        ThumbClass::Branch
    } else {
        ThumbClass::Unknown
    }
}

proof fn lemma_thumb_patterns_within_masks()
    ensures
        0x0000u16 & !0xE000u16 == 0,
        0x1800u16 & !0xF800u16 == 0,
        0x2000u16 & !0xF800u16 == 0,
        0x2800u16 & !0xF800u16 == 0,
        0x3000u16 & !0xF800u16 == 0,
        0x3800u16 & !0xF800u16 == 0,
        0x4000u16 & !0xFC00u16 == 0,
        0x4700u16 & !0xFF87u16 == 0,
        0x4400u16 & !0xFC00u16 == 0,
        0x4800u16 & !0xF800u16 == 0,
        0x5000u16 & !0xF000u16 == 0,
        0x6000u16 & !0xE000u16 == 0,
        0x8000u16 & !0xF000u16 == 0,
        0x9000u16 & !0xF000u16 == 0,
        0xA000u16 & !0xF000u16 == 0,
        0xB000u16 & !0xFF80u16 == 0,
        0xB400u16 & !0xFE00u16 == 0,
        0xBC00u16 & !0xFE00u16 == 0,
        0xC000u16 & !0xF000u16 == 0,
        0xD000u16 & !0xF000u16 == 0,
        0x0F00u16 & !0x0F00u16 == 0,
        0xDF00u16 & !0xFF00u16 == 0,
        0xE000u16 & !0xF800u16 == 0,
{
    assert(
        0x0000u16 & !0xE000u16 == 0 &&
        0x1800u16 & !0xF800u16 == 0 &&
        0x2000u16 & !0xF800u16 == 0 &&
        0x2800u16 & !0xF800u16 == 0 &&
        0x3000u16 & !0xF800u16 == 0 &&
        0x3800u16 & !0xF800u16 == 0 &&
        0x4000u16 & !0xFC00u16 == 0 &&
        0x4700u16 & !0xFF87u16 == 0 &&
        0x4400u16 & !0xFC00u16 == 0 &&
        0x4800u16 & !0xF800u16 == 0 &&
        0x5000u16 & !0xF000u16 == 0 &&
        0x6000u16 & !0xE000u16 == 0 &&
        0x8000u16 & !0xF000u16 == 0 &&
        0x9000u16 & !0xF000u16 == 0 &&
        0xA000u16 & !0xF000u16 == 0 &&
        0xB000u16 & !0xFF80u16 == 0 &&
        0xB400u16 & !0xFE00u16 == 0 &&
        0xBC00u16 & !0xFE00u16 == 0 &&
        0xC000u16 & !0xF000u16 == 0 &&
        0xD000u16 & !0xF000u16 == 0 &&
        0x0F00u16 & !0x0F00u16 == 0 &&
        0xDF00u16 & !0xFF00u16 == 0 &&
        0xE000u16 & !0xF800u16 == 0
    ) by (bit_vector);
}

pub fn classify_thumb(raw: u16) -> (r: ThumbClass)
    ensures
        r == classify_thumb_spec(raw),
{
    proof {
        lemma_thumb_patterns_within_masks();
    }
    if raw == 0x46C0 {
        return ThumbClass::Nop;
    }
    if thumb_matches(raw, 0xE000, 0x0000) {
        return ThumbClass::MoveShifted;
    }
    if thumb_matches(raw, 0xF800, 0x1800) {
        return ThumbClass::AddSub;
    }
    if thumb_matches(raw, 0xF800, 0x2000) {
        return ThumbClass::MovImmediate;
    }
    if thumb_matches(raw, 0xF800, 0x2800) {
        return ThumbClass::CmpImmediate;
    }
    if thumb_matches(raw, 0xF800, 0x3000) {
        return ThumbClass::AddImmediate;
    }
    if thumb_matches(raw, 0xF800, 0x3800) {
        return ThumbClass::SubImmediate;
    }
    if thumb_matches(raw, 0xFC00, 0x4000) {
        return ThumbClass::Alu;
    }
    if thumb_matches(raw, 0xFF87, 0x4700) {
        return ThumbClass::BranchExchange;
    }
    if thumb_matches(raw, 0xFC00, 0x4400) {
        return ThumbClass::HighRegister;
    }
    if thumb_matches(raw, 0xF800, 0x4800) {
        return ThumbClass::PcRelativeLoad;
    }
    if thumb_matches(raw, 0xF000, 0x5000) {
        return if ((raw >> 9u16) & 7) < 4 {
            ThumbClass::LoadStoreRegister
        } else {
            ThumbClass::LoadStoreSignHalf
        };
    }
    if thumb_matches(raw, 0xE000, 0x6000) {
        return ThumbClass::LoadStoreImmediate;
    }
    if thumb_matches(raw, 0xF000, 0x8000) {
        return ThumbClass::LoadStoreHalfword;
    }
    if thumb_matches(raw, 0xF000, 0x9000) {
        return ThumbClass::SpRelativeLoadStore;
    }
    if thumb_matches(raw, 0xF000, 0xA000) {
        return ThumbClass::Address;
    }
    if thumb_matches(raw, 0xFF80, 0xB000) {
        return ThumbClass::AddSp;
    }
    if thumb_matches(raw, 0xFE00, 0xB400) || thumb_matches(raw, 0xFE00, 0xBC00) {
        return ThumbClass::PushPop;
    }
    if thumb_matches(raw, 0xF000, 0xC000) {
        return ThumbClass::MultipleLoadStore;
    }
    if thumb_matches(raw, 0xF000, 0xD000) && !thumb_matches(raw, 0x0F00, 0x0F00) {
        return ThumbClass::ConditionalBranch;
    }
    if thumb_matches(raw, 0xFF00, 0xDF00) {
        return ThumbClass::SoftwareInterrupt;
    }
    if thumb_matches(raw, 0xF800, 0xE000) {
        return ThumbClass::Branch;
    }
    ThumbClass::Unknown
}

} // verus!
