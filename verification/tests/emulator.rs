use gba_recompiler::emulator::bus::FRAME_CYCLES;
use gba_recompiler::emulator::cpu::FLAG_T;
use gba_recompiler::emulator::{Bus, Cartridge, Cpu, Gba, HEIGHT, WIDTH};

fn cart(rom: Vec<u8>, save: Vec<u8>) -> Cartridge {
    Cartridge { title: "TEST".to_string(), rom, save }
}

fn arm_rom(words: &[u32]) -> Vec<u8> {
    words.iter().flat_map(|word| word.to_le_bytes()).collect()
}

fn thumb_rom(halves: &[u16]) -> Vec<u8> {
    halves.iter().flat_map(|half| half.to_le_bytes()).collect()
}

#[test]
fn dimensions_are_gba() {
    assert_eq!((WIDTH, HEIGHT), (240, 160));
}

#[test]
fn work_ram_reads_back_what_was_written_through_its_mirrors() {
    let mut bus = Bus::new(cart(vec![0; 4], Vec::new()));
    bus.write8(0x0200_0010, 0xab);
    assert_eq!(bus.read8(0x0200_0010), 0xab);
    assert_eq!(bus.read8(0x0204_0010), 0xab);
    bus.write32(0x0300_0000, 0x1234_5678);
    assert_eq!(bus.read32(0x0300_0000), 0x1234_5678);
    assert_eq!(bus.read16(0x0300_0002), 0x1234);
    assert_eq!(bus.read8(0x0300_0000), 0x78);
}

#[test]
fn rom_repeats_and_ignores_writes() {
    let mut bus = Bus::new(cart(vec![1, 2, 3, 4], Vec::new()));
    assert_eq!(bus.read8(0x0800_0005), 2);
    bus.write8(0x0800_0000, 9);
    assert_eq!(bus.read8(0x0800_0000), 1);
    assert_eq!(bus.read8(0x1000_0000), 0);
}

#[test]
fn save_memory_reads_ff_when_absent() {
    let mut bus = Bus::new(cart(vec![0], Vec::new()));
    assert_eq!(bus.read8(0x0e00_0000), 0xff);
    let mut with_save = Bus::new(cart(vec![0], vec![0; 8]));
    with_save.write8(0x0e00_0009, 7);
    assert_eq!(with_save.read8(0x0e00_0001), 7);
    bus.write8(0x0e00_0000, 7);
    assert_eq!(bus.read8(0x0e00_0000), 0xff);
}

#[test]
fn a_finished_frame_renders_mode_three() {
    let mut bus = Bus::new(cart(vec![0], Vec::new()));
    bus.write16(0x0400_0000, 3);
    bus.write16(0x0600_0000, 0x7fff);
    bus.write16(0x0600_0002, 0x001f);
    bus.tick(FRAME_CYCLES - 1);
    assert_eq!(bus.frame, 0);
    assert_eq!(bus.framebuffer[0], 0);
    bus.tick(2);
    assert_eq!(bus.frame, 1);
    assert_eq!(bus.cycles, 1);
    assert_eq!(bus.framebuffer[0], 0x7fff);
    assert_eq!(bus.framebuffer[1], 0x001f);
}

#[test]
fn mode_four_looks_pixels_up_in_the_palette() {
    let mut bus = Bus::new(cart(vec![0], Vec::new()));
    bus.write16(0x0400_0000, 4);
    bus.write8(0x0600_0000, 2);
    bus.write16(0x0500_0004, 0x1234);
    bus.tick(FRAME_CYCLES);
    assert_eq!(bus.framebuffer[0], 0x1234);
    assert_eq!(bus.framebuffer[1], 0);
}

#[test]
fn reset_state_enters_the_cartridge() {
    let cpu = Cpu::new();
    assert_eq!(cpu.r[15], 0x0800_0000);
    assert_eq!(cpu.r[13], 0x0300_7f00);
    assert_eq!(cpu.cpsr, 0xd3);
    assert!(!cpu.halted);
}

#[test]
fn arm_data_processing_and_branch() {
    // mov r0, #1; add r0, r0, #2; b back to the first instruction (the
    // target is the branch's address plus four plus the offset).
    let mut bus = Bus::new(cart(arm_rom(&[0xE3A0_0001, 0xE280_0002, 0xEAFF_FFFD]), Vec::new()));
    let mut cpu = Cpu::new();
    assert_eq!(cpu.step(&mut bus), 1);
    assert_eq!(cpu.r[0], 1);
    assert_eq!(cpu.step(&mut bus), 1);
    assert_eq!(cpu.r[0], 3);
    assert_eq!(cpu.step(&mut bus), 3);
    assert_eq!(cpu.r[15], 0x0800_0000);
}

#[test]
fn arm_compare_sets_flags_and_store_load_round_trip() {
    // mov r1, #0x03000000; mov r0, #5; cmp r0, #5; str r0, [r1]; ldr r2, [r1]
    let words = [0xE3A0_1403, 0xE3A0_0005, 0xE350_0005, 0xE581_0000, 0xE591_2000];
    let mut bus = Bus::new(cart(arm_rom(&words), Vec::new()));
    let mut cpu = Cpu::new();
    for _ in 0..5 {
        cpu.step(&mut bus);
    }
    assert_eq!(cpu.r[1], 0x0300_0000);
    assert_ne!(cpu.cpsr & 0x4000_0000, 0, "Z is set after comparing equal values");
    assert_ne!(cpu.cpsr & 0x2000_0000, 0, "C is set when no borrow occurs");
    assert_eq!(bus.read32(0x0300_0000), 5);
    assert_eq!(cpu.r[2], 5);
}

#[test]
fn branch_and_exchange_enters_thumb() {
    // mov r0, #0x08000000; add r0, r0, #13; bx r0
    let mut rom = arm_rom(&[0xE3A0_0302, 0xE280_000D, 0xE12F_FF10]);
    rom.extend_from_slice(&thumb_rom(&[0x2007, 0x1840]));
    let mut bus = Bus::new(cart(rom, Vec::new()));
    let mut cpu = Cpu::new();
    cpu.step(&mut bus);
    cpu.step(&mut bus);
    assert_eq!(cpu.r[0], 0x0800_000D);
    assert_eq!(cpu.step(&mut bus), 3);
    assert_ne!(cpu.cpsr & FLAG_T, 0);
    assert_eq!(cpu.r[15], 0x0800_000C);
    // Thumb: mov r0, #7; add r0, r0, r1 (r1 is zero).
    cpu.step(&mut bus);
    cpu.step(&mut bus);
    assert_eq!(cpu.r[0], 7);
    assert_eq!(cpu.r[15], 0x0800_0010);
}

#[test]
fn thumb_push_then_pop_restores_registers() {
    // Thumb at the cartridge: mov r0, #0x2a; push {r0}; mov r0, #0; pop {r1}
    let rom = thumb_rom(&[0x202a, 0xb401, 0x2000, 0xbc02]);
    let mut bus = Bus::new(cart(rom, Vec::new()));
    let mut cpu = Cpu::new();
    cpu.cpsr |= FLAG_T;
    for _ in 0..4 {
        cpu.step(&mut bus);
    }
    assert_eq!(cpu.r[0], 0);
    assert_eq!(cpu.r[1], 0x2a);
    assert_eq!(cpu.r[13], 0x0300_7f00);
    assert_eq!(bus.read32(0x0300_7efc), 0x2a);
}

#[test]
fn a_halted_core_idles_one_cycle() {
    let mut bus = Bus::new(cart(vec![0; 4], Vec::new()));
    let mut cpu = Cpu::new();
    cpu.halted = true;
    assert_eq!(cpu.step(&mut bus), 1);
    assert_eq!(cpu.r[15], 0x0800_0000);
}

#[test]
fn running_a_frame_advances_the_frame_counter() {
    // A branch to itself keeps the core busy for the whole frame.
    let mut gba = Gba::load(cart(arm_rom(&[0xEAFF_FFFF]), Vec::new()));
    assert_eq!(gba.title(), "TEST");
    gba.run_frame();
    assert_eq!(gba.bus.frame, 1);
    assert_eq!(gba.cpu.r[15], 0x0800_0000);
    assert_eq!(gba.framebuffer().len(), WIDTH * HEIGHT);
}
