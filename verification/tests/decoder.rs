use gba_recompiler::decoder::classification::{classify_arm, classify_thumb, ArmClass, ThumbClass};
use gba_recompiler::decoder::common::{arm_matches, arm_operand2, thumb_matches};
use gba_recompiler::decoder::semantic_arm;
use gba_recompiler::decoder::semantic_thumb;
use gba_recompiler::decoder::{
    decode_arm, decode_arm_from_rom, decode_thumb, decode_thumb_bl, decode_thumb_bl_from_rom, decode_thumb_from_rom, read_arm,
    read_thumb, read_thumb_bl, ArmExtended, ArmOp, DecodeError, InstructionKind, Mode, Operand2, ThumbOp, ROM_BASE,
};

const ARM_DATA_PROCESSING: [u32; 16] = [
    0xE0000000, 0xE0200000, 0xE0400000, 0xE0600000, 0xE0800000, 0xE0A00000, 0xE0C00000, 0xE0E00000, 0xE1100000, 0xE1300000,
    0xE1500000, 0xE1700000, 0xE1800000, 0xE1A00000, 0xE1C00000, 0xE1E00000,
];

const ARM_SYSTEM_AND_MEMORY: [u32; 10] = [
    0xE0000090, 0xE0800090, 0xE1000090, 0xE1400090, 0xE4000000, 0xE4800000, 0xE8000000, 0xEF000000, 0xEC000000, 0xEE000000,
];

const THUMB_MAJOR: [u16; 19] = [
    0x0000, 0x1800, 0x2000, 0x3000, 0x4000, 0x4400, 0x4700, 0x4800, 0x5000, 0x6000, 0x8000, 0x9000, 0xA000, 0xB000, 0xB400,
    0xC000, 0xD000, 0xDF00, 0xE000,
];

#[test]
fn decoder_decodes_arm_data_processing_families() {
    for raw in ARM_DATA_PROCESSING {
        assert!(!matches!(decode_arm(ROM_BASE, raw).kind, InstructionKind::Arm(ArmOp::Unknown)), "raw={raw:#010x}");
    }
}

#[test]
fn mod_decodes_arm_data_processing_families() {
    for raw in ARM_DATA_PROCESSING {
        assert!(!matches!(decode_arm(ROM_BASE, raw).kind, InstructionKind::Arm(ArmOp::Unknown)), "raw={raw:#010x}");
    }
}

#[test]
fn decoder_decodes_arm_system_and_memory_families() {
    for raw in ARM_SYSTEM_AND_MEMORY {
        assert!(!matches!(decode_arm(ROM_BASE, raw).kind, InstructionKind::Arm(ArmOp::Unknown)), "raw={raw:#010x}");
    }
}

#[test]
fn mod_decodes_arm_system_and_memory_families() {
    for raw in ARM_SYSTEM_AND_MEMORY {
        assert!(!matches!(decode_arm(ROM_BASE, raw).kind, InstructionKind::Arm(ArmOp::Unknown)), "raw={raw:#010x}");
    }
}

#[test]
fn decoder_decodes_thumb_major_families() {
    for raw in THUMB_MAJOR {
        assert!(!matches!(decode_thumb(ROM_BASE, raw).kind, InstructionKind::Thumb(ThumbOp::Unknown)), "raw={raw:#06x}");
    }
}

#[test]
fn mod_decodes_thumb_major_families() {
    for raw in THUMB_MAJOR {
        assert!(!matches!(decode_thumb(ROM_BASE, raw).kind, InstructionKind::Thumb(ThumbOp::Unknown)), "raw={raw:#06x}");
    }
}

#[test]
fn mod_decodes_thumb_bx_as_control_flow() {
    assert_eq!(decode_thumb(ROM_BASE, 0x4700).kind, InstructionKind::Thumb(ThumbOp::BranchExchange { rm: 0 }));
}

#[test]
fn decoder_decodes_arm_blx_and_bx() {
    assert_eq!(decode_arm(ROM_BASE, 0xE12F_FF31).kind, InstructionKind::Arm(ArmOp::BranchExchange { rm: 1, link: true }));
    assert_eq!(decode_arm(ROM_BASE, 0xE12F_FF11).kind, InstructionKind::Arm(ArmOp::BranchExchange { rm: 1, link: false }));
}

#[test]
fn mod_decodes_arm_blx_and_bx() {
    assert_eq!(decode_arm(ROM_BASE, 0xE12F_FF31).kind, InstructionKind::Arm(ArmOp::BranchExchange { rm: 1, link: true }));
    assert_eq!(decode_arm(ROM_BASE, 0xE12F_FF11).kind, InstructionKind::Arm(ArmOp::BranchExchange { rm: 1, link: false }));
}

#[test]
fn decoder_decodes_thumb_bl() {
    let instruction = decode_thumb_bl(ROM_BASE, 0xF000, 0xF800);
    assert_eq!(instruction.size, 4);
    assert!(matches!(instruction.kind, InstructionKind::Thumb(ThumbOp::BranchLink { .. })));
}

#[test]
fn mod_decodes_thumb_bl() {
    let instruction = decode_thumb_bl(ROM_BASE, 0xF000, 0xF800);
    assert_eq!(instruction.size, 4);
    assert!(matches!(instruction.kind, InstructionKind::Thumb(ThumbOp::BranchLink { .. })));
}

#[test]
fn arm_single_transfer_class_accepts_both_offset_encodings() {
    assert_eq!(classify_arm(0xE5C0_1004), ArmClass::SingleDataTransfer);
    assert_eq!(classify_arm(0xE7C0_1004), ArmClass::SingleDataTransfer);
}

#[test]
fn arm_swi_requires_a_valid_condition_field() {
    assert_eq!(classify_arm(0xEF00_0012), ArmClass::SoftwareInterrupt);
    assert_ne!(classify_arm(0xFF00_0012), ArmClass::SoftwareInterrupt);
    assert_eq!(classify_arm(0xFFFFFFFF), ArmClass::Unknown);
}

#[test]
fn rejects_patterns_that_escape_the_mask() {
    assert!(arm_matches(0x1234_5678, 0xFFFF_FFFF, 0x1234_5678));
    assert!(thumb_matches(0xB400, 0xFE00, 0xB400));
}

#[test]
fn decodes_all_operand2_shift_fields() {
    let raw = (0b10 << 5) | (1 << 4) | (7 << 8) | 3;
    assert_eq!(arm_operand2(raw), Operand2::Reg { rm: 3, shift: 0, shift_kind: 2, by_register: true, shift_register: 7 });
}

#[test]
fn semantic_arm_path_keeps_extended_memory_ops() {
    let instruction = decode_arm(0x0800_0000, 0xE1D1_20B0);
    assert!(matches!(instruction.kind, InstructionKind::Arm(ArmOp::Extended(ArmExtended::HalfwordTransfer { .. }))));
}

#[test]
fn semantic_unknown_is_explicit() {
    assert!(matches!(
        decode_arm(0x0800_0000, 0xE7AF_2558).kind,
        InstructionKind::Arm(ArmOp::Extended(ArmExtended::SingleDataTransfer { .. }))
    ));
    assert!(matches!(decode_thumb(0x0800_0000, 0xBE00).kind, InstructionKind::Thumb(ThumbOp::Unknown)));
}

#[test]
fn rom_wrappers_preserve_instruction_identity() {
    let rom = 0xE3A0_0001u32.to_le_bytes().to_vec();
    let instruction = decode_arm_from_rom(&rom, 0x0800_0000).expect("ARM decode");
    assert_eq!(instruction.address, 0x0800_0000);
    assert_eq!(instruction.size, 4);
    assert_eq!(instruction.mode, Mode::Arm);
}

#[test]
fn family_decoders_preserve_representative_arm_semantics() {
    for raw in [0xE1A0_0000, 0xE281_2004, 0xE401_2004, 0xE1D1_20B0, 0xEA00_0001, 0xE12F_FF11, 0xEF00_0001, 0xE800_0000, 0xEE00_0010] {
        let class = classify_arm(raw);
        let instruction = semantic_arm::decode(0x0800_0000, raw, class);
        assert!(!matches!(instruction.kind, InstructionKind::Arm(ArmOp::Unknown)), "{raw:#010x}");
    }
}

#[test]
fn single_data_transfer_immediate_offset_is_not_decoded_as_shifted_register() {
    let raw = 0xE5C0_1004;
    let class = classify_arm(raw);
    let instruction = semantic_arm::decode(0x0800_0000, raw, class);
    match instruction.kind {
        InstructionKind::Arm(ArmOp::Extended(ArmExtended::SingleDataTransfer { offset, .. })) => {
            assert_eq!(offset, Operand2::Imm(4));
        }
        other => panic!("unexpected decode: {other:?}"),
    }
}

#[test]
fn single_data_transfer_register_offset_keeps_barrel_shifter_semantics() {
    let raw = 0xE7C0_1004;
    let class = classify_arm(raw);
    let instruction = semantic_arm::decode(0x0800_0000, raw, class);
    match instruction.kind {
        InstructionKind::Arm(ArmOp::Extended(ArmExtended::SingleDataTransfer { offset, .. })) => {
            assert!(matches!(offset, Operand2::Reg { rm: 4, .. }));
        }
        other => panic!("unexpected decode: {other:?}"),
    }
}

#[test]
fn family_decoders_cover_major_thumb_classes() {
    for raw in [
        0x0000, 0x1800, 0x2000, 0x2800, 0x3000, 0x4000, 0x4400, 0x4700, 0x4800, 0x5000, 0x6000, 0x8000, 0x9000, 0xA000, 0xB000,
        0xB400, 0xC000, 0xD000, 0xDF00, 0xE000,
    ] {
        let class = classify_thumb(raw);
        let instruction = semantic_thumb::decode(0x0800_0000, raw, class);
        assert!(!matches!(instruction.kind, InstructionKind::Thumb(ThumbOp::Unknown)), "{raw:#06x}");
    }
}

#[test]
fn decodes_thumb_cmp_immediate() {
    let instruction = semantic_thumb::decode(0x0800_0990, 0x2A5F, ThumbClass::CmpImmediate);
    assert_eq!(instruction.kind, InstructionKind::Thumb(ThumbOp::CmpImm { rn: 2, imm: 0x5F }));
    assert_eq!(instruction.raw, 0x2A5F);
    assert_eq!(instruction.size, 2);
}

#[test]
fn push_and_pop_use_disjoint_masks() {
    assert!(thumb_matches(0xB400, 0xFE00, 0xB400));
    assert!(thumb_matches(0xBC00, 0xFE00, 0xBC00));
    assert!(!thumb_matches(0xBE00, 0xFE00, 0xB400));
    assert!(!thumb_matches(0xBE00, 0xFE00, 0xBC00));
}

#[test]
fn rom_reads_report_out_of_range_and_truncation() {
    let rom = vec![0x01, 0x02, 0x03];
    assert_eq!(read_arm(&rom, 0x0700_0000), Err(DecodeError::OutOfRange(0x0700_0000)));
    assert_eq!(read_arm(&rom, ROM_BASE), Err(DecodeError::Truncated(ROM_BASE)));
    assert_eq!(read_thumb(&rom, ROM_BASE), Ok(0x0201));
    assert_eq!(read_thumb_bl(&rom, ROM_BASE), Err(DecodeError::Truncated(ROM_BASE)));
    assert_eq!(decode_thumb_from_rom(&rom, ROM_BASE + 2), Err(DecodeError::Truncated(ROM_BASE + 2)));
}

#[test]
fn thumb_bl_from_rom_needs_both_halves() {
    let rom = vec![0x00, 0xF0, 0x00, 0xF8];
    let instruction = decode_thumb_bl_from_rom(&rom, ROM_BASE).unwrap();
    assert_eq!(instruction.kind, InstructionKind::Thumb(ThumbOp::BranchLink { target: ROM_BASE + 4 }));
    let not_pair = vec![0x00, 0xF0, 0xC0, 0x46];
    let instruction = decode_thumb_bl_from_rom(&not_pair, ROM_BASE).unwrap();
    assert_eq!(instruction.size, 2);
}
