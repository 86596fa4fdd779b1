# gba_recompiler

A static recompiler for Game Boy Advance cartridges and BIOS images, with its
logic proved in Verus.

The library (`src/`) decodes ARM and Thumb instructions, discovers basic
blocks and functions by abstract interpretation over the image, lowers them
to an intermediate form and to SSA form, checks the result, and writes Rust
source that runs the recompiled blocks. Public functions carry contracts
over spec functions of the data they compute; where a contract leaves
something open (which message a validator reports, whether control-flow
analysis of an accepted image succeeds), its doc comment says so. The laws
that relate several functions stand as public proof functions beside them.

- `decoder`, `architecture`, `execution`: instruction decoding and the ARM
  flag and shift rules.
- `address_space`, `bus`: where images and memory regions lie.
- `cfg`, `function`, `exception_graph`: control-flow discovery.
- `ir`, `semantic_ir`, `semantic_architecture`, `ssa`: the intermediate forms
  and their validation.
- `codegen`, `linker`, `text`: generated source and block linking.
- `cli`, `real_rom`: argument handling for the command-line tools.
- `emulator`: a small interpreter of the CPU and bus.

`app/` holds the command-line program: it reads files, calls the library and
writes the generated module. `tests/` runs the library on concrete images.
