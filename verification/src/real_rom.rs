//! Arguments of the tool that recompiles a real cartridge ROM and runs it for
//! a bounded number of steps.
use vstd::prelude::*;
use vstd::string::StringExecFns;

use crate::address_space::{ImageKind, ImageMapping};
use crate::cli::{count_message, count_of, parse_count, starts_with_dash, texts};
use crate::codegen::common::same_text;
use crate::decoder::Mode;

verus! {

/// Where cartridge ROM is mapped.
pub const CARTRIDGE_BASE: u32 = 0x0800_0000;

/// The step limit when none is given.
pub const DEFAULT_MAX_STEPS: u64 = 512;

/// The ROM to run and how many steps it may take.
#[derive(Debug)]
pub struct Args {
    pub rom: String,
    pub max_steps: u64,
}

/// The arguments `args[i..]` read into the state so far.
pub open spec fn parse_from(args: Seq<Seq<char>>, i: int, rom: Option<Seq<char>>, max_steps: u64) -> Result<(Seq<char>, u64), Seq<char>>
    decreases args.len() - i,
{
    if i >= args.len() || i < 0 {
        match rom {
            Some(p) => Ok((p, max_steps)),
            None => Err("missing ROM path"@),
        }
    } else {
        let a = args[i];
        if a == "--max-steps"@ {
            if i + 1 >= args.len() {
                Err("--max-steps requires a value"@)
            } else {
                match count_of(args[i + 1]) {
                    Ok(v) => if v == 0 {
                        Err("--max-steps must be greater than zero"@)
                    } else {
                        parse_from(args, i + 2, rom, v as u64)
                    },
                    Err(e) => Err(count_message(e)),
                }
            }
        } else if starts_with_dash(a) {
            Err("unknown option: "@ + a)
        } else if rom is None {
            parse_from(args, i + 1, Some(a), max_steps)
        } else {
            Err("unexpected argument: "@ + a)
        }
    }
}

/// Reads the tool's arguments (without the program name): the ROM path and
/// an optional `--max-steps N` with `N` above zero.
pub fn parse_args(args: &Vec<String>) -> (r: Result<Args, String>)
    ensures
        match r {
            Ok(a) => parse_from(texts(args@), 0, None, DEFAULT_MAX_STEPS) == Ok::<(Seq<char>, u64), Seq<char>>((a.rom@, a.max_steps)),
            Err(e) => parse_from(texts(args@), 0, None, DEFAULT_MAX_STEPS) == Err::<(Seq<char>, u64), Seq<char>>(e@),
        },
{
    let ghost all = texts(args@);
    let mut rom: Option<String> = None;
    let mut max_steps: u64 = DEFAULT_MAX_STEPS;
    let mut i: usize = 0;
    while i < args.len()
        invariant
            all == texts(args@),
            i <= args@.len(),
            parse_from(all, 0, None, DEFAULT_MAX_STEPS) == parse_from(
                all,
                i as int,
                match rom {
                    Some(p) => Some(p@),
                    None => None,
                },
                max_steps,
            ),
        decreases args@.len() - i,
    {
        let a = args[i].as_str();
        assert(all[i as int] == a@);
        if same_text(a, "--max-steps") {
            if i + 1 >= args.len() {
                return Err(String::from_str("--max-steps requires a value"));
            }
            assert(all[i + 1] == args@[i + 1]@);
            match parse_count(args[i + 1].as_str()) {
                Ok(v) => {
                    if v == 0 {
                        return Err(String::from_str("--max-steps must be greater than zero"));
                    }
                    max_steps = v;
                },
                Err(e) => {
                    return Err(String::from_str(e.message()));
                },
            }
            i = i + 2;
        } else if a.unicode_len() > 0 && a.get_char(0) == '-' {
            let mut e = String::from_str("unknown option: ");
            e.append(a);
            return Err(e);
        } else if rom.is_none() {
            rom = Some(args[i].clone());
            i = i + 1;
        } else {
            let mut e = String::from_str("unexpected argument: ");
            e.append(a);
            return Err(e);
        }
    }
    match rom {
        Some(p) => Ok(Args { rom: p, max_steps }),
        None => Err(String::from_str("missing ROM path")),
    }
}

/// A cartridge ROM of `size` bytes, mapped and entered at the cartridge base
/// in ARM state; the size is taken modulo 2^32.
pub fn mapping(size: usize) -> (r: ImageMapping)
    ensures
        r == (ImageMapping { kind: ImageKind::CartridgeRom, base: CARTRIDGE_BASE, size: size as u32, entry: CARTRIDGE_BASE, entry_mode: Mode::Arm }),
{
    ImageMapping::new(ImageKind::CartridgeRom, CARTRIDGE_BASE, size as u32, CARTRIDGE_BASE, Mode::Arm)
}

} // verus!
