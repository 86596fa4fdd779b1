//! The interpreter's memory bus: work RAM, I/O, palette, video and object
//! memory, the cartridge, and the screen rendered once a frame.
use vstd::arithmetic::div_mod::lemma_fundamental_div_mod_converse;
use vstd::prelude::*;

verus! {

/// Screen width in pixels.
pub const WIDTH: usize = 240;

/// Screen height in pixels.
pub const HEIGHT: usize = 160;

/// CPU cycles in one frame: 228 lines of 1232 cycles.
pub const FRAME_CYCLES: u64 = 280_896;

pub const EWRAM_SIZE: usize = 0x40000;

pub const IWRAM_SIZE: usize = 0x8000;

pub const IO_SIZE: usize = 0x400;

pub const PAL_SIZE: usize = 0x400;

pub const VRAM_SIZE: usize = 0x18000;

pub const OAM_SIZE: usize = 0x400;

/// A cartridge: its title, its ROM and its save memory.
pub struct Cartridge {
    pub title: String,
    pub rom: Vec<u8>,
    pub save: Vec<u8>,
}

pub struct Bus {
    pub ewram: Vec<u8>,
    pub iwram: Vec<u8>,
    pub io: Vec<u8>,
    pub palette: Vec<u8>,
    pub vram: Vec<u8>,
    pub oam: Vec<u8>,
    pub cart: Cartridge,
    pub framebuffer: Vec<u16>,
    pub cycles: u64,
    pub frame: u64,
}

/// What the bus holds.
pub struct BusView {
    pub ewram: Seq<u8>,
    pub iwram: Seq<u8>,
    pub io: Seq<u8>,
    pub palette: Seq<u8>,
    pub vram: Seq<u8>,
    pub oam: Seq<u8>,
    pub rom: Seq<u8>,
    pub save: Seq<u8>,
    pub framebuffer: Seq<u16>,
    pub cycles: u64,
    pub frame: u64,
}

impl View for Bus {
    type V = BusView;

    open spec fn view(&self) -> BusView {
        BusView {
            ewram: self.ewram@,
            iwram: self.iwram@,
            io: self.io@,
            palette: self.palette@,
            vram: self.vram@,
            oam: self.oam@,
            rom: self.cart.rom@,
            save: self.cart.save@,
            framebuffer: self.framebuffer@,
            cycles: self.cycles,
            frame: self.frame,
        }
    }
}

/// Every memory has its size and the screen has a pixel for every place.
pub open spec fn bus_shaped(m: BusView) -> bool {
    &&& m.ewram.len() == EWRAM_SIZE
    &&& m.iwram.len() == IWRAM_SIZE
    &&& m.io.len() == IO_SIZE
    &&& m.palette.len() == PAL_SIZE
    &&& m.vram.len() == VRAM_SIZE
    &&& m.oam.len() == OAM_SIZE
    &&& m.framebuffer.len() == WIDTH * HEIGHT
}

/// A bus the machine can run on: shaped, with a cartridge that has some
/// ROM (reads of the cartridge window wrap through it).
pub open spec fn bus_wf(m: BusView) -> bool {
    &&& bus_shaped(m)
    &&& m.rom.len() > 0
}

/// The byte a read at `addr` gives: the memories repeat through their
/// windows, I/O does not, the save memory reads 0xff when there is none, and
/// unmapped addresses read zero.
pub open spec fn read8_model(m: BusView, addr: u32) -> u8 {
    if 0x0200_0000 <= addr <= 0x02ff_ffff {
        m.ewram[(addr - 0x0200_0000) % (EWRAM_SIZE as int)]
    } else if 0x0300_0000 <= addr <= 0x03ff_ffff {
        m.iwram[(addr - 0x0300_0000) % (IWRAM_SIZE as int)]
    } else if 0x0400_0000 <= addr <= 0x0400_03ff {
        m.io[addr - 0x0400_0000]
    } else if 0x0500_0000 <= addr <= 0x05ff_ffff {
        m.palette[(addr - 0x0500_0000) % (PAL_SIZE as int)]
    } else if 0x0600_0000 <= addr <= 0x06ff_ffff {
        m.vram[(addr - 0x0600_0000) % (VRAM_SIZE as int)]
    } else if 0x0700_0000 <= addr <= 0x07ff_ffff {
        m.oam[(addr - 0x0700_0000) % (OAM_SIZE as int)]
    } else if 0x0800_0000 <= addr <= 0x0dff_ffff {
        m.rom[(addr - 0x0800_0000) % (m.rom.len() as int)]
    } else if 0x0e00_0000 <= addr <= 0x0fff_ffff {
        if m.save.len() == 0 {
            0xff
        } else {
            m.save[(addr - 0x0e00_0000) % (m.save.len() as int)]
        }
    } else {
        0
    }
}

/// The bus after a byte write at `addr`: the writable memories take it at
/// the place a read there would give; the ROM, I/O-free space and unmapped
/// addresses ignore it.
pub open spec fn write8_model(m: BusView, addr: u32, v: u8) -> BusView {
    if 0x0200_0000 <= addr <= 0x02ff_ffff {
        BusView { ewram: m.ewram.update((addr - 0x0200_0000) % (EWRAM_SIZE as int), v), ..m }
    } else if 0x0300_0000 <= addr <= 0x03ff_ffff {
        BusView { iwram: m.iwram.update((addr - 0x0300_0000) % (IWRAM_SIZE as int), v), ..m }
    } else if 0x0400_0000 <= addr <= 0x0400_03ff {
        BusView { io: m.io.update(addr - 0x0400_0000, v), ..m }
    } else if 0x0500_0000 <= addr <= 0x05ff_ffff {
        BusView { palette: m.palette.update((addr - 0x0500_0000) % (PAL_SIZE as int), v), ..m }
    } else if 0x0600_0000 <= addr <= 0x06ff_ffff {
        BusView { vram: m.vram.update((addr - 0x0600_0000) % (VRAM_SIZE as int), v), ..m }
    } else if 0x0700_0000 <= addr <= 0x07ff_ffff {
        BusView { oam: m.oam.update((addr - 0x0700_0000) % (OAM_SIZE as int), v), ..m }
    } else if 0x0e00_0000 <= addr <= 0x0fff_ffff && m.save.len() > 0 {
        BusView { save: m.save.update((addr - 0x0e00_0000) % (m.save.len() as int), v), ..m }
    } else {
        m
    }
}

/// A little-endian halfword read at `addr`.
pub open spec fn read16_model(m: BusView, addr: u32) -> int {
    read8_model(m, addr) + 256 * read8_model(m, (addr + 1) as u32)
}

/// A little-endian word read at `addr`.
pub open spec fn read32_model(m: BusView, addr: u32) -> int {
    read8_model(m, addr) + 0x100 * read8_model(m, (addr + 1) as u32) + 0x1_0000 * read8_model(m, (addr + 2) as u32) + 0x100_0000
        * read8_model(m, (addr + 3) as u32)
}

pub open spec fn write16_model(m: BusView, addr: u32, v: u16) -> BusView {
    write8_model(write8_model(m, addr, (v % 256) as u8), (addr + 1) as u32, (v / 256) as u8)
}

pub open spec fn write32_model(m: BusView, addr: u32, v: u32) -> BusView {
    let m1 = write8_model(m, addr, (v % 0x100) as u8);
    let m2 = write8_model(m1, (addr + 1) as u32, ((v / 0x100) % 0x100) as u8);
    let m3 = write8_model(m2, (addr + 2) as u32, ((v / 0x1_0000) % 0x100) as u8);
    write8_model(m3, (addr + 3) as u32, (v / 0x100_0000) as u8)
}

/// An address a byte write changes and a read gives back.
pub open spec fn writable(m: BusView, addr: u32) -> bool {
    ||| 0x0200_0000 <= addr <= 0x07ff_ffff && !(0x0400_0400 <= addr <= 0x04ff_ffff)
    ||| 0x0e00_0000 <= addr <= 0x0fff_ffff && m.save.len() > 0
}

/// A read gives back what a write to the same writable address wrote, and a
/// write leaves the bus well formed.
pub proof fn law_read_after_write(m: BusView, addr: u32, v: u8)
    requires
        bus_wf(m),
    ensures
        bus_wf(write8_model(m, addr, v)),
        writable(m, addr) ==> read8_model(write8_model(m, addr, v), addr) == v,
        !writable(m, addr) ==> write8_model(m, addr, v) == m,
{
}

/// The screen a frame shows: in mode 3 the video memory read as one pixel a
/// halfword; in mode 4 a byte a pixel, from the page bit 4 selects, looked up
/// in the palette; blank in every other mode.
pub open spec fn render_model(m: BusView) -> Seq<u16> {
    let dispcnt = read16_model(m, 0x0400_0000);
    let mode = dispcnt % 8;
    let base: int = if (dispcnt / 16) % 2 == 1 {
        0xA000
    } else {
        0
    };
    Seq::new(
        (WIDTH * HEIGHT) as nat,
        |i: int|
            if mode == 3 {
                (m.vram[2 * i] + 256 * m.vram[2 * i + 1]) as u16
            } else if mode == 4 {
                (m.palette[2 * m.vram[base + i]] + 256 * m.palette[2 * m.vram[base + i] + 1]) as u16
            } else {
                0u16
            },
    )
}

/// The bus after `cycles` more cycles: whole frames counted and rendered.
pub open spec fn tick_model(m: BusView, cycles: u64) -> BusView {
    let total = m.cycles + cycles;
    BusView {
        cycles: (total % (FRAME_CYCLES as int)) as u64,
        frame: (m.frame + total / (FRAME_CYCLES as int)) as u64,
        framebuffer: if total / (FRAME_CYCLES as int) > 0 {
            render_model(m)
        } else {
            m.framebuffer
        },
        ..m
    }
}

/// A tick of `cycles` keeps the cycle and frame counters within 64 bits.
pub open spec fn tick_ok(m: BusView, cycles: u64) -> bool {
    m.cycles + cycles <= u64::MAX && m.frame + (m.cycles + cycles) / (FRAME_CYCLES as int) <= u64::MAX
}

pub open spec fn same_but_screen(a: BusView, b: BusView) -> bool {
    &&& a.ewram == b.ewram
    &&& a.iwram == b.iwram
    &&& a.io == b.io
    &&& a.palette == b.palette
    &&& a.vram == b.vram
    &&& a.oam == b.oam
    &&& a.rom == b.rom
    &&& a.save == b.save
}

impl Bus {
    /// A bus with zeroed memories and a blank screen, holding the cartridge.
    pub fn new(cart: Cartridge) -> (b: Bus)
        ensures
            bus_shaped(b@),
            bus_wf(b@) <==> cart.rom@.len() > 0,
            b@.ewram == Seq::new(EWRAM_SIZE as nat, |i: int| 0u8),
            b@.iwram == Seq::new(IWRAM_SIZE as nat, |i: int| 0u8),
            b@.io == Seq::new(IO_SIZE as nat, |i: int| 0u8),
            b@.palette == Seq::new(PAL_SIZE as nat, |i: int| 0u8),
            b@.vram == Seq::new(VRAM_SIZE as nat, |i: int| 0u8),
            b@.oam == Seq::new(OAM_SIZE as nat, |i: int| 0u8),
            b@.framebuffer == Seq::new((WIDTH * HEIGHT) as nat, |i: int| 0u16),
            b@.rom == cart.rom@,
            b@.save == cart.save@,
            b.cart.title@ == cart.title@,
            b.cycles == 0,
            b.frame == 0,
    {
        Bus {
            ewram: zeroed(EWRAM_SIZE),
            iwram: zeroed(IWRAM_SIZE),
            io: zeroed(IO_SIZE),
            palette: zeroed(PAL_SIZE),
            vram: zeroed(VRAM_SIZE),
            oam: zeroed(OAM_SIZE),
            cart,
            framebuffer: blank(WIDTH * HEIGHT),
            cycles: 0,
            frame: 0,
        }
    }

    /// The byte at `addr`.
    pub fn read8(&self, addr: u32) -> (r: u8)
        requires
            bus_wf(self@),
        ensures
            r == read8_model(self@, addr),
    {
        if 0x0200_0000 <= addr && addr <= 0x02ff_ffff {
            self.ewram[((addr - 0x0200_0000) as usize) % EWRAM_SIZE]
        } else if 0x0300_0000 <= addr && addr <= 0x03ff_ffff {
            self.iwram[((addr - 0x0300_0000) as usize) % IWRAM_SIZE]
        } else if 0x0400_0000 <= addr && addr <= 0x0400_03ff {
            self.io[(addr - 0x0400_0000) as usize]
        } else if 0x0500_0000 <= addr && addr <= 0x05ff_ffff {
            self.palette[((addr - 0x0500_0000) as usize) % PAL_SIZE]
        } else if 0x0600_0000 <= addr && addr <= 0x06ff_ffff {
            self.vram[((addr - 0x0600_0000) as usize) % VRAM_SIZE]
        } else if 0x0700_0000 <= addr && addr <= 0x07ff_ffff {
            self.oam[((addr - 0x0700_0000) as usize) % OAM_SIZE]
        } else if 0x0800_0000 <= addr && addr <= 0x0dff_ffff {
            self.cart.rom[((addr - 0x0800_0000) as usize) % self.cart.rom.len()]
        } else if 0x0e00_0000 <= addr && addr <= 0x0fff_ffff {
            let n = self.cart.save.len();
            if n == 0 {
                0xff
            } else {
                self.cart.save[((addr - 0x0e00_0000) as usize) % n]
            }
        } else {
            0
        }
    }

    /// The little-endian halfword at `addr`.
    pub fn read16(&self, a: u32) -> (r: u16)
        requires
            bus_wf(self@),
            a < u32::MAX,
        ensures
            r == read16_model(self@, a),
    {
        let lo = self.read8(a);
        let hi = self.read8(a + 1);
        lo as u16 + (hi as u16) * 256
    }

    /// The little-endian word at `a`.
    pub fn read32(&self, a: u32) -> (r: u32)
        requires
            bus_wf(self@),
            a <= u32::MAX - 3,
        ensures
            r == read32_model(self@, a),
    {
        let b0 = self.read8(a);
        let b1 = self.read8(a + 1);
        let b2 = self.read8(a + 2);
        let b3 = self.read8(a + 3);
        b0 as u32 + (b1 as u32) * 0x100 + (b2 as u32) * 0x1_0000 + (b3 as u32) * 0x100_0000
    }

    /// Writes the byte at `addr`; ROM and unmapped addresses ignore it.
    pub fn write8(&mut self, addr: u32, v: u8)
        requires
            bus_wf(old(self)@),
        ensures
            final(self)@ == write8_model(old(self)@, addr, v),
            final(self).cart.title@ == old(self).cart.title@,
    {
        if 0x0200_0000 <= addr && addr <= 0x02ff_ffff {
            self.ewram.set(((addr - 0x0200_0000) as usize) % EWRAM_SIZE, v);
        } else if 0x0300_0000 <= addr && addr <= 0x03ff_ffff {
            self.iwram.set(((addr - 0x0300_0000) as usize) % IWRAM_SIZE, v);
        } else if 0x0400_0000 <= addr && addr <= 0x0400_03ff {
            self.io.set((addr - 0x0400_0000) as usize, v);
        } else if 0x0500_0000 <= addr && addr <= 0x05ff_ffff {
            self.palette.set(((addr - 0x0500_0000) as usize) % PAL_SIZE, v);
        } else if 0x0600_0000 <= addr && addr <= 0x06ff_ffff {
            self.vram.set(((addr - 0x0600_0000) as usize) % VRAM_SIZE, v);
        } else if 0x0700_0000 <= addr && addr <= 0x07ff_ffff {
            self.oam.set(((addr - 0x0700_0000) as usize) % OAM_SIZE, v);
        } else if 0x0e00_0000 <= addr && addr <= 0x0fff_ffff {
            let n = self.cart.save.len();
            if n != 0 {
                self.cart.save.set(((addr - 0x0e00_0000) as usize) % n, v);
            }
        }
    }

    /// Writes the little-endian halfword at `a`.
    pub fn write16(&mut self, a: u32, v: u16)
        requires
            bus_wf(old(self)@),
            a < u32::MAX,
        ensures
            final(self)@ == write16_model(old(self)@, a, v),
            final(self).cart.title@ == old(self).cart.title@,
    {
        self.write8(a, (v % 256) as u8);
        proof {
            law_read_after_write(old(self)@, a, (v % 256) as u8);
        }
        self.write8(a + 1, (v / 256) as u8);
    }

    /// Writes the little-endian word at `a`.
    pub fn write32(&mut self, a: u32, v: u32)
        requires
            bus_wf(old(self)@),
            a <= u32::MAX - 3,
        ensures
            final(self)@ == write32_model(old(self)@, a, v),
            final(self).cart.title@ == old(self).cart.title@,
    {
        let ghost m0 = self@;
        self.write8(a, (v % 0x100) as u8);
        proof {
            law_read_after_write(m0, a, (v % 0x100) as u8);
        }
        let ghost m1 = self@;
        self.write8(a + 1, ((v / 0x100) % 0x100) as u8);
        proof {
            law_read_after_write(m1, (a + 1) as u32, ((v / 0x100) % 0x100) as u8);
        }
        let ghost m2 = self@;
        self.write8(a + 2, ((v / 0x1_0000) % 0x100) as u8);
        proof {
            law_read_after_write(m2, (a + 2) as u32, ((v / 0x1_0000) % 0x100) as u8);
        }
        self.write8(a + 3, (v / 0x100_0000) as u8);
    }
}

impl Bus {
    /// Runs the bus for `cycles` more cycles, rendering the screen at the end
    /// of every frame that completes.
    pub fn tick(&mut self, cycles: u64)
        requires
            bus_wf(old(self)@),
            old(self).cycles + cycles <= u64::MAX,
            old(self).frame + (old(self).cycles + cycles) / (FRAME_CYCLES as int) <= u64::MAX,
        ensures
            bus_wf(final(self)@),
            same_but_screen(final(self)@, old(self)@),
            final(self).cart.title@ == old(self).cart.title@,
            final(self).cycles == (old(self).cycles + cycles) % (FRAME_CYCLES as int),
            final(self).frame == old(self).frame + (old(self).cycles + cycles) / (FRAME_CYCLES as int),
            final(self)@.framebuffer == if (old(self).cycles + cycles) / (FRAME_CYCLES as int) > 0 {
                render_model(old(self)@)
            } else {
                old(self)@.framebuffer
            },
            final(self)@ == tick_model(old(self)@, cycles),
    {
        let ghost m0 = self@;
        let ghost total = self.cycles + cycles;
        self.cycles = self.cycles + cycles;
        while self.cycles >= FRAME_CYCLES
            invariant
                bus_wf(self@),
                same_but_screen(self@, m0),
                self.cart.title@ == old(self).cart.title@,
                self.frame >= m0.frame,
                self.cycles + FRAME_CYCLES * (self.frame - m0.frame) == total,
                m0.frame + total / (FRAME_CYCLES as int) <= u64::MAX,
                self@.framebuffer == if self.frame > m0.frame {
                    render_model(m0)
                } else {
                    m0.framebuffer
                },
            decreases self.cycles,
        {
            self.cycles = self.cycles - FRAME_CYCLES;
            proof {
                assert(self.frame - m0.frame + 1 <= total / (FRAME_CYCLES as int)) by {
                    lemma_quotient_at_least(total, (self.frame - m0.frame + 1) as int, self.cycles as int);
                }
            }
            self.frame = self.frame + 1;
            self.render();
            proof {
                lemma_render_reads_memory(self@, m0);
            }
        }
        proof {
            lemma_fundamental_div_mod_converse(total, FRAME_CYCLES as int, (self.frame - m0.frame) as int, self.cycles as int);
        }
    }

    /// Draws the frame the display control register selects.
    fn render(&mut self)
        requires
            bus_wf(old(self)@),
        ensures
            bus_wf(final(self)@),
            same_but_screen(final(self)@, old(self)@),
            final(self).cart.title@ == old(self).cart.title@,
            final(self).cycles == old(self).cycles,
            final(self).frame == old(self).frame,
            final(self)@.framebuffer == render_model(old(self)@),
    {
        let ghost m = self@;
        let dispcnt = self.read16(0x0400_0000);
        let n = WIDTH * HEIGHT;
        let mut i: usize = 0;
        while i < n
            invariant
                n == WIDTH * HEIGHT,
                i <= n,
                bus_wf(self@),
                same_but_screen(self@, m),
                self.cart.title@ == old(self).cart.title@,
                self.cycles == m.cycles,
                self.frame == m.frame,
                dispcnt == read16_model(m, 0x0400_0000),
                forall|j: int| 0 <= j < i ==> self@.framebuffer[j] == #[trigger] render_model(m)[j],
            decreases n - i,
        {
            let pixel: u16 = if dispcnt % 8 == 3 {
                self.vram[2 * i] as u16 + (self.vram[2 * i + 1] as u16) * 256
            } else if dispcnt % 8 == 4 {
                let base: usize = if (dispcnt / 16) % 2 == 1 {
                    0xA000
                } else {
                    0
                };
                let idx = self.vram[base + i] as usize;
                self.palette[idx * 2] as u16 + (self.palette[idx * 2 + 1] as u16) * 256
            } else {
                0
            };
            self.framebuffer.set(i, pixel);
            i = i + 1;
        }
        proof {
            assert(self@.framebuffer =~= render_model(m));
        }
    }
}

/// Having subtracted `k` frames from `total` and kept `rest >= 0`, at least
/// `k` frames fit in `total`.
proof fn lemma_quotient_at_least(total: int, k: int, rest: int)
    requires
        total >= 0,
        k >= 1,
        rest >= 0,
        rest + FRAME_CYCLES * k == total,
    ensures
        k <= total / (FRAME_CYCLES as int),
{
    vstd::arithmetic::div_mod::lemma_fundamental_div_mod(total, FRAME_CYCLES as int);
    if total / (FRAME_CYCLES as int) < k {
        assert(FRAME_CYCLES * (total / (FRAME_CYCLES as int)) <= FRAME_CYCLES * (k - 1)) by (nonlinear_arith)
            requires
                total / (FRAME_CYCLES as int) <= k - 1,
        ;
    }
}

/// Rendering reads only the memories, not the screen.
proof fn lemma_render_reads_memory(a: BusView, b: BusView)
    requires
        same_but_screen(a, b),
    ensures
        render_model(a) == render_model(b),
{
    assert(read8_model(a, 0x0400_0000) == read8_model(b, 0x0400_0000));
    assert(read8_model(a, 0x0400_0001) == read8_model(b, 0x0400_0001));
    assert(render_model(a) =~= render_model(b));
}

fn zeroed(n: usize) -> (v: Vec<u8>)
    ensures
        v@ == Seq::new(n as nat, |i: int| 0u8),
{
    let mut v: Vec<u8> = Vec::new();
    let mut i: usize = 0;
    while i < n
        invariant
            i <= n,
            v@ == Seq::new(i as nat, |j: int| 0u8),
        decreases n - i,
    {
        v.push(0);
        proof {
            assert(v@ =~= Seq::new((i + 1) as nat, |j: int| 0u8));
        }
        i = i + 1;
    }
    v
}

fn blank(n: usize) -> (v: Vec<u16>)
    ensures
        v@ == Seq::new(n as nat, |i: int| 0u16),
{
    let mut v: Vec<u16> = Vec::new();
    let mut i: usize = 0;
    while i < n
        invariant
            i <= n,
            v@ == Seq::new(i as nat, |j: int| 0u16),
        decreases n - i,
    {
        v.push(0);
        proof {
            assert(v@ =~= Seq::new((i + 1) as nat, |j: int| 0u16));
        }
        i = i + 1;
    }
    v
}

} // verus!
