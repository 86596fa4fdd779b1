use gba_recompiler::address_space::ImageKind;
use gba_recompiler::cli::{image_mapping, parse_args, parse_count, CountError, ImageArg};
use gba_recompiler::decoder::Mode;
use gba_recompiler::real_rom::{self, mapping, CARTRIDGE_BASE};

fn strings(values: &[&str]) -> Vec<String> {
    values.iter().map(|value| value.to_string()).collect()
}

#[test]
fn bios_mapping_keeps_entry_at_zero() {
    let mapping = image_mapping(ImageArg::Bios, 0x4000);
    assert_eq!(mapping.kind, ImageKind::Bios);
    assert_eq!(mapping.base, 0);
    assert_eq!(mapping.entry, 0);
    assert_eq!(mapping.entry_mode, Mode::Arm);
}

#[test]
fn maps_real_rom_at_cartridge_base() {
    let mapping = mapping(0x200);
    assert_eq!(mapping.kind, ImageKind::CartridgeRom);
    assert_eq!(mapping.base, CARTRIDGE_BASE);
    assert_eq!(mapping.entry, CARTRIDGE_BASE);
    assert_eq!(mapping.entry_mode, Mode::Arm);
}

#[test]
fn rom_mapping_starts_at_the_cartridge_and_keeps_the_size() {
    let mapping = image_mapping(ImageArg::Rom, 0x1234);
    assert_eq!(mapping.kind, ImageKind::CartridgeRom);
    assert_eq!(mapping.base, 0x0800_0000);
    assert_eq!(mapping.entry, 0x0800_0000);
    assert_eq!(mapping.size, 0x1234);
}

#[test]
fn image_kinds_round_trip_through_their_names() {
    for kind in [ImageArg::Rom, ImageArg::Bios] {
        assert_eq!(ImageArg::parse(kind.as_str()), Ok(kind));
    }
    assert_eq!(ImageArg::parse("cart"), Err("unknown --image kind: cart (expected rom or bios)".to_string()));
}

#[test]
fn counts_are_decimal_with_an_optional_plus() {
    assert_eq!(parse_count("512"), Ok(512));
    assert_eq!(parse_count("+7"), Ok(7));
    assert_eq!(parse_count("18446744073709551615"), Ok(u64::MAX));
    assert_eq!(parse_count(""), Err(CountError::Empty));
    assert_eq!(parse_count("+"), Err(CountError::InvalidDigit));
    assert_eq!(parse_count("-1"), Err(CountError::InvalidDigit));
    assert_eq!(parse_count("12a"), Err(CountError::InvalidDigit));
    assert_eq!(parse_count("18446744073709551616"), Err(CountError::Overflow));
    assert_eq!(CountError::Overflow.message(), "number too large to fit in target type");
}

#[test]
fn recompiler_arguments_have_defaults() {
    let args = parse_args(&strings(&[])).unwrap();
    assert_eq!(args.rom_path, "roms/1636 - Pokemon Fire Red (U)(Squirrels).gba");
    assert!(!args.execute);
    assert_eq!(args.max_steps, 100_000);
    assert_eq!(args.image, ImageArg::Rom);
}

#[test]
fn recompiler_arguments_are_read_in_any_order() {
    let args = parse_args(&strings(&["--image", "bios", "bios.bin", "--execute", "--max-steps", "42"])).unwrap();
    assert_eq!(args.rom_path, "bios.bin");
    assert!(args.execute);
    assert_eq!(args.max_steps, 42);
    assert_eq!(args.image, ImageArg::Bios);
}

#[test]
fn recompiler_arguments_report_each_mistake() {
    assert_eq!(parse_args(&strings(&["--max-steps"])).unwrap_err(), "--max-steps requires a value");
    assert_eq!(parse_args(&strings(&["--max-steps", "x"])).unwrap_err(), "invalid digit found in string");
    assert_eq!(parse_args(&strings(&["--image"])).unwrap_err(), "--image requires rom or bios");
    assert_eq!(parse_args(&strings(&["--image", "gb"])).unwrap_err(), "unknown --image kind: gb (expected rom or bios)");
    assert_eq!(parse_args(&strings(&["--fast"])).unwrap_err(), "unknown option: --fast");
    assert_eq!(parse_args(&strings(&["a.gba", "b.gba"])).unwrap_err(), "unexpected argument: b.gba");
}

#[test]
fn real_rom_arguments_need_a_path_and_a_positive_limit() {
    let args = real_rom::parse_args(&strings(&["game.gba"])).unwrap();
    assert_eq!(args.rom, "game.gba");
    assert_eq!(args.max_steps, 512);
    let args = real_rom::parse_args(&strings(&["--max-steps", "9", "game.gba"])).unwrap();
    assert_eq!(args.max_steps, 9);
    assert_eq!(real_rom::parse_args(&strings(&[])).unwrap_err(), "missing ROM path");
    assert_eq!(real_rom::parse_args(&strings(&["game.gba", "--max-steps", "0"])).unwrap_err(), "--max-steps must be greater than zero");
    assert_eq!(real_rom::parse_args(&strings(&["-v"])).unwrap_err(), "unknown option: -v");
}
