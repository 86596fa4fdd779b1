//! Command-line arguments of the recompiler tools: which image to analyse,
//! how it is mapped, and how many steps an execution may take.
use vstd::prelude::*;
use vstd::string::StringExecFns;

use crate::address_space::{ImageKind, ImageMapping};
use crate::codegen::common::same_text;
use crate::decoder::Mode;

verus! {

/// The kind of image named on the command line.
#[derive(Debug, Clone, Copy, PartialEq, Eq, Structural)]
pub enum ImageArg {
    Rom,
    Bios,
}

pub open spec fn image_named(value: Seq<char>) -> Option<ImageArg> {
    if value == "rom"@ {
        Some(ImageArg::Rom)
    } else if value == "bios"@ {
        Some(ImageArg::Bios)
    } else {
        None
    }
}

pub open spec fn unknown_image_message(value: Seq<char>) -> Seq<char> {
    "unknown --image kind: "@ + value + " (expected rom or bios)"@
}

impl ImageArg {
    /// `rom` or `bios`; anything else is refused.
    pub fn parse(value: &str) -> (r: Result<ImageArg, String>)
        ensures
            match r {
                Ok(k) => image_named(value@) == Some(k),
                Err(e) => image_named(value@) is None && e@ == unknown_image_message(value@),
            },
    {
        if same_text(value, "rom") {
            Ok(ImageArg::Rom)
        } else if same_text(value, "bios") {
            Ok(ImageArg::Bios)
        } else {
            let mut e = String::from_str("unknown --image kind: ");
            e.append(value);
            e.append(" (expected rom or bios)");
            Err(e)
        }
    }

    /// The name that `parse` accepts for this kind.
    pub fn as_str(self) -> (r: &'static str)
        ensures
            image_named(r@) == Some(self),
    {
        proof {
            reveal_strlit("rom");
            reveal_strlit("bios");
            assert("bios"@.len() != "rom"@.len());
        }
        match self {
            ImageArg::Rom => "rom",
            ImageArg::Bios => "bios",
        }
    }
}

/// Why a count could not be read.
#[derive(Debug, Clone, Copy, PartialEq, Eq, Structural)]
pub enum CountError {
    Empty,
    InvalidDigit,
    Overflow,
}

pub open spec fn is_digit(c: char) -> bool {
    '0' <= c <= '9'
}

pub open spec fn digit_of(c: char) -> int {
    c as int - '0' as int
}

/// Reads the digits `s[i..]` after `acc`, left to right; the first character
/// that is no digit, or the first digit that overflows a `u64`, decides.
pub open spec fn scan_count(s: Seq<char>, i: int, acc: int) -> Result<int, CountError>
    decreases s.len() - i,
{
    if i >= s.len() {
        Ok(acc)
    } else if !is_digit(s[i]) {
        Err(CountError::InvalidDigit)
    } else if acc * 10 + digit_of(s[i]) > u64::MAX {
        Err(CountError::Overflow)
    } else {
        scan_count(s, i + 1, acc * 10 + digit_of(s[i]))
    }
}

/// A decimal `u64`, with an optional leading `+`.
pub open spec fn count_of(s: Seq<char>) -> Result<int, CountError> {
    if s.len() == 0 {
        Err(CountError::Empty)
    } else if s[0] == '+' {
        if s.len() == 1 {
            Err(CountError::InvalidDigit)
        } else {
            scan_count(s, 1, 0)
        }
    } else {
        scan_count(s, 0, 0)
    }
}

pub open spec fn count_message(e: CountError) -> Seq<char> {
    match e {
        CountError::Empty => "cannot parse integer from empty string"@,
        CountError::InvalidDigit => "invalid digit found in string"@,
        CountError::Overflow => "number too large to fit in target type"@,
    }
}

impl CountError {
    /// The message for this error.
    pub fn message(self) -> (r: &'static str)
        ensures
            r@ == count_message(self),
    {
        match self {
            CountError::Empty => "cannot parse integer from empty string",
            CountError::InvalidDigit => "invalid digit found in string",
            CountError::Overflow => "number too large to fit in target type",
        }
    }
}

/// Reads a decimal `u64`, with an optional leading `+`.
pub fn parse_count(s: &str) -> (r: Result<u64, CountError>)
    ensures
        match r {
            Ok(v) => count_of(s@) == Ok::<int, CountError>(v as int),
            Err(e) => count_of(s@) == Err::<int, CountError>(e),
        },
{
    let n = s.unicode_len();
    if n == 0 {
        return Err(CountError::Empty);
    }
    let mut i: usize = 0;
    if s.get_char(0) == '+' {
        if n == 1 {
            return Err(CountError::InvalidDigit);
        }
        i = 1;
    }
    let ghost start = i as int;
    let mut acc: u64 = 0;
    while i < n
        invariant
            n == s@.len(),
            0 <= start <= i <= n,
            start == (if s@[0] == '+' { 1int } else { 0int }),
            scan_count(s@, start, 0) == scan_count(s@, i as int, acc as int),
        decreases n - i,
    {
        let c = s.get_char(i);
        if !('0' <= c && c <= '9') {
            return Err(CountError::InvalidDigit);
        }
        let d = (c as u32 - '0' as u32) as u64;
        if acc > (u64::MAX - d) / 10 {
            proof {
                assert(acc * 10 + d > u64::MAX) by (nonlinear_arith)
                    requires
                        acc > (u64::MAX - d) / 10,
                        d <= 9,
                ;
            }
            return Err(CountError::Overflow);
        }
        proof {
            assert(acc * 10 + d <= u64::MAX) by (nonlinear_arith)
                requires
                    acc <= (u64::MAX - d) / 10,
                    d <= 9,
            ;
        }
        acc = acc * 10 + d;
        i = i + 1;
    }
    Ok(acc)
}

/// What the recompiler was asked to do.
#[derive(Debug)]
pub struct Args {
    pub rom_path: String,
    pub execute: bool,
    pub max_steps: u64,
    pub image: ImageArg,
}

pub open spec fn default_rom_path() -> Seq<char> {
    "roms/1636 - Pokemon Fire Red (U)(Squirrels).gba"@
}

pub open spec fn starts_with_dash(a: Seq<char>) -> bool {
    a.len() > 0 && a[0] == '-'
}

/// The arguments `args[i..]` read into the state so far: the image path, the
/// execute switch, the step limit and the image kind.
pub open spec fn parse_from(
    args: Seq<Seq<char>>,
    i: int,
    rom: Option<Seq<char>>,
    execute: bool,
    max_steps: u64,
    image: ImageArg,
) -> Result<(Seq<char>, bool, u64, ImageArg), Seq<char>>
    decreases args.len() - i,
{
    if i >= args.len() || i < 0 {
        Ok(
            (
                match rom {
                    Some(p) => p,
                    None => default_rom_path(),
                },
                execute,
                max_steps,
                image,
            ),
        )
    } else {
        let a = args[i];
        if a == "--execute"@ {
            parse_from(args, i + 1, rom, true, max_steps, image)
        } else if a == "--max-steps"@ {
            if i + 1 >= args.len() {
                Err("--max-steps requires a value"@)
            } else {
                match count_of(args[i + 1]) {
                    Ok(v) => parse_from(args, i + 2, rom, execute, v as u64, image),
                    Err(e) => Err(count_message(e)),
                }
            }
        } else if a == "--image"@ {
            if i + 1 >= args.len() {
                Err("--image requires rom or bios"@)
            } else {
                match image_named(args[i + 1]) {
                    Some(k) => parse_from(args, i + 2, rom, execute, max_steps, k),
                    None => Err(unknown_image_message(args[i + 1])),
                }
            }
        } else if starts_with_dash(a) {
            Err("unknown option: "@ + a)
        } else if rom is None {
            parse_from(args, i + 1, Some(a), execute, max_steps, image)
        } else {
            Err("unexpected argument: "@ + a)
        }
    }
}

pub open spec fn texts(args: Seq<String>) -> Seq<Seq<char>> {
    args.map_values(|s: String| s@)
}

pub open spec fn text_of(o: Option<String>) -> Option<Seq<char>> {
    match o {
        Some(s) => Some(s@),
        None => None,
    }
}

fn starts_dash(a: &str) -> (r: bool)
    ensures
        r == starts_with_dash(a@),
{
    a.unicode_len() > 0 && a.get_char(0) == '-'
}

fn with_suffix(prefix: &str, value: &str) -> (r: String)
    ensures
        r@ == prefix@ + value@,
{
    let mut e = String::from_str(prefix);
    e.append(value);
    e
}

/// Reads the recompiler's arguments (without the program name): an optional
/// image path, `--execute`, `--max-steps N` and `--image rom|bios`.
pub fn parse_args(args: &Vec<String>) -> (r: Result<Args, String>)
    ensures
        match r {
            Ok(a) => parse_from(texts(args@), 0, None, false, 100_000, ImageArg::Rom) == Ok::<
                (Seq<char>, bool, u64, ImageArg),
                Seq<char>,
            >((a.rom_path@, a.execute, a.max_steps, a.image)),
            Err(e) => parse_from(texts(args@), 0, None, false, 100_000, ImageArg::Rom) == Err::<
                (Seq<char>, bool, u64, ImageArg),
                Seq<char>,
            >(e@),
        },
{
    let ghost all = texts(args@);
    let mut rom: Option<String> = None;
    let mut execute = false;
    let mut max_steps: u64 = 100_000;
    let mut image = ImageArg::Rom;
    let mut i: usize = 0;
    while i < args.len()
        invariant
            all == texts(args@),
            i <= args@.len(),
            parse_from(all, 0, None, false, 100_000, ImageArg::Rom) == parse_from(all, i as int, text_of(rom), execute, max_steps, image),
        decreases args@.len() - i,
    {
        let a = args[i].as_str();
        assert(all[i as int] == a@);
        if same_text(a, "--execute") {
            execute = true;
            i = i + 1;
        } else if same_text(a, "--max-steps") {
            if i + 1 >= args.len() {
                return Err(String::from_str("--max-steps requires a value"));
            }
            assert(all[i + 1] == args@[i + 1]@);
            match parse_count(args[i + 1].as_str()) {
                Ok(v) => {
                    max_steps = v;
                },
                Err(e) => {
                    return Err(String::from_str(e.message()));
                },
            }
            i = i + 2;
        } else if same_text(a, "--image") {
            if i + 1 >= args.len() {
                return Err(String::from_str("--image requires rom or bios"));
            }
            assert(all[i + 1] == args@[i + 1]@);
            match ImageArg::parse(args[i + 1].as_str()) {
                Ok(k) => {
                    image = k;
                },
                Err(e) => {
                    return Err(e);
                },
            }
            i = i + 2;
        } else if starts_dash(a) {
            return Err(with_suffix("unknown option: ", a));
        } else if rom.is_none() {
            rom = Some(args[i].clone());
            i = i + 1;
        } else {
            return Err(with_suffix("unexpected argument: ", a));
        }
    }
    let rom_path = match rom {
        Some(p) => p,
        None => String::from_str("roms/1636 - Pokemon Fire Red (U)(Squirrels).gba"),
    };
    Ok(Args { rom_path, execute, max_steps, image })
}

pub open spec fn image_mapping_spec(image: ImageArg, size: usize) -> ImageMapping {
    match image {
        ImageArg::Rom => ImageMapping {
            kind: ImageKind::CartridgeRom,
            base: 0x0800_0000,
            size: size as u32,
            entry: 0x0800_0000,
            entry_mode: Mode::Arm,
        },
        ImageArg::Bios => ImageMapping { kind: ImageKind::Bios, base: 0, size: size as u32, entry: 0, entry_mode: Mode::Arm },
    }
}

/// Where an image of `size` bytes is mapped and entered: a ROM at the
/// cartridge base, the BIOS at zero, both in ARM state. The size is taken
/// modulo 2^32.
pub fn image_mapping(image: ImageArg, size: usize) -> (r: ImageMapping)
    ensures
        r == image_mapping_spec(image, size),
{
    match image {
        ImageArg::Rom => ImageMapping::new(ImageKind::CartridgeRom, 0x0800_0000, size as u32, 0x0800_0000, Mode::Arm),
        ImageArg::Bios => ImageMapping::new(ImageKind::Bios, 0, size as u32, 0, Mode::Arm),
    }
}

} // verus!
