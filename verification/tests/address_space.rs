use gba_recompiler::address_space::{AddressRange, AddressRegion, AddressSpace, ImageKind, ImageMapping, MappingError};
use gba_recompiler::decoder::Mode;

#[test]
fn gba_address_space_classifies_core_regions() {
    let space = AddressSpace::gba();
    assert_eq!(space.region_at(0x0000_0000), AddressRegion::Bios);
    assert_eq!(space.region_at(0x0200_0000), AddressRegion::Ewram);
    assert_eq!(space.region_at(0x0300_0000), AddressRegion::Iwram);
    assert_eq!(space.region_at(0x0400_0000), AddressRegion::Io);
    assert_eq!(space.region_at(0x0800_0000), AddressRegion::CartridgeRom);
    assert_eq!(space.region_at(0x0E00_0000), AddressRegion::CartridgeRam);
    assert_eq!(space.region_at(0x0100_0000), AddressRegion::Unmapped);
}

#[test]
fn image_mapping_tracks_base_and_entry() {
    let mapping = ImageMapping::bios(0x4000);
    assert_eq!(mapping.range(), AddressRange::new(0, 0x4000));
    assert!(mapping.contains(0x3FFC));
    assert!(!mapping.contains(0x4000));
    assert_eq!(mapping.entry_mode, Mode::Arm);
}

#[test]
fn mapping_image_rejects_overlap() {
    let mut space = AddressSpace { regions: Vec::new() };
    space.map_image(ImageMapping::new(ImageKind::Bios, 0x0000_0000, 0x4000, 0, Mode::Arm)).unwrap();
    let error = space.map_image(ImageMapping::new(ImageKind::CartridgeRom, 0x0000_2000, 0x4000, 0x2000, Mode::Arm)).unwrap_err();
    assert_eq!(error, MappingError::OverlapsRegion { image: ImageKind::CartridgeRom, region: AddressRegion::Bios });
}

#[test]
fn mapped_images_stay_ordered_and_empty_images_are_refused() {
    let mut space = AddressSpace { regions: Vec::new() };
    space.map_image(ImageMapping::cartridge_rom(0x100)).unwrap();
    space.map_image(ImageMapping::bios(0x4000)).unwrap();
    let regions = space.regions();
    assert_eq!(regions.len(), 2);
    assert_eq!(regions[0].region, AddressRegion::Bios);
    assert_eq!(regions[1].region, AddressRegion::CartridgeRom);
    assert_eq!(space.region_at(0x0800_00FF), AddressRegion::CartridgeRom);
    assert_eq!(space.region_at(0x0800_0100), AddressRegion::Unmapped);
    assert_eq!(space.map_image(ImageMapping::new(ImageKind::Bios, 0x0300_0000, 0, 0x0300_0000, Mode::Arm)), Err(MappingError::EmptyImage));
    assert_eq!(ImageKind::Bios.region(), AddressRegion::Bios);
    assert!(AddressRange::new(4, 8).contains(4));
    assert!(!AddressRange::new(4, 8).contains(8));
}
