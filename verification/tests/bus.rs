use gba_recompiler::bus::{classify, AccessWidth, BusError, GbaBus, Region, EWRAM_END};

#[test]
fn classifies_the_core_gba_regions() {
    assert_eq!(classify(0x0200_0000), Region::Ewram);
    assert_eq!(classify(0x0300_0000), Region::Iwram);
    assert_eq!(classify(0x0400_0000), Region::Io);
    assert_eq!(classify(0x0600_0000), Region::Vram);
    assert_eq!(classify(0x0800_0000), Region::Rom);
    assert_eq!(classify(0x0e00_0000), Region::Save);
}

#[test]
fn preserves_little_endian_and_unaligned_word_rotation() {
    let mut bus = GbaBus::default();
    bus.write32(0x0200_0000, 0x1122_3344).unwrap();
    assert_eq!(bus.read16(0x0200_0000).unwrap(), 0x3344);
    assert_eq!(bus.read32(0x0200_0001).unwrap(), 0x4411_2233);
}

#[test]
fn rejects_cross_region_access() {
    let bus = GbaBus::default();
    assert_eq!(bus.read16(EWRAM_END).unwrap_err(), BusError::CrossesRegion { address: EWRAM_END, width: AccessWidth::Halfword });
}

#[test]
fn unmapped_addresses_are_refused() {
    let mut bus = GbaBus::default();
    assert_eq!(bus.read8(0x0100_0000), Err(BusError::Unmapped { address: 0x0100_0000 }));
    assert_eq!(bus.write8(0x1000_0000, 1), Err(BusError::Unmapped { address: 0x1000_0000 }));
    assert_eq!(classify(0x0100_0000), Region::Unmapped);
}

#[test]
fn a_written_byte_reads_back_and_rom_ignores_writes() {
    let mut bus = GbaBus::default();
    bus.write8(0x0300_0010, 0xAB).unwrap();
    assert_eq!(bus.read8(0x0300_0010), Ok(0xAB));
    assert_eq!(bus.read8(0x0200_0010), Ok(0));
    bus.write8(0x0800_0000, 0xCD).unwrap();
    assert_eq!(bus.read8(0x0800_0000), Ok(0));
}

#[test]
fn a_word_write_leaving_its_region_stops_at_the_first_refused_byte() {
    let mut bus = GbaBus::default();
    let crossing = bus.write32(EWRAM_END - 1, 0xAABB_CCDD);
    assert_eq!(crossing, Err(BusError::Unmapped { address: EWRAM_END + 1 }));
    assert_eq!(bus.read8(EWRAM_END - 1), Ok(0xDD));
    let mut bus = GbaBus::default();
    assert_eq!(bus.write32(0x0000_4000, 0xAABB_CCDD), Err(BusError::Unmapped { address: 0x0000_4000 }));
    assert_eq!(AccessWidth::Word.bytes(), 4);
    assert_eq!(Region::Ewram.base(), Some(0x0200_0000));
    assert_eq!(Region::Unmapped.base(), None);
}
