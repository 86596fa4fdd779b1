//! A small interpreter of the machine: a memory bus with its regions and
//! screen, an ARM7TDMI core, and the frame loop that drives them.
pub mod bus;
pub mod cpu;

pub use bus::{Bus, Cartridge, HEIGHT, WIDTH};
pub use cpu::Cpu;

use vstd::prelude::*;

use bus::{bus_shaped, bus_wf, tick_model, tick_ok, BusView};
use cpu::{step_model, step_ok, CpuView};

verus! {

/// The machine: the core and its bus.
pub struct Gba {
    pub cpu: Cpu,
    pub bus: Bus,
}

/// The machine run from `(c, m)` until the frame counter leaves `start`,
/// stepping and ticking the bus by the cycles each step takes; `None` where
/// a step or a tick cannot be carried out within `fuel` steps.
pub open spec fn run_frame_model(c: CpuView, m: BusView, start: u64, fuel: nat) -> Option<(CpuView, BusView)>
    decreases fuel,
{
    if m.frame != start {
        Some((c, m))
    } else if fuel == 0 || !bus_wf(m) || !step_ok(c, m) {
        None
    } else {
        let (c2, m2, cycles) = step_model(c, m);
        if !tick_ok(m2, cycles as u64) {
            None
        } else {
            run_frame_model(c2, tick_model(m2, cycles as u64), start, (fuel - 1) as nat)
        }
    }
}

impl Gba {
    /// A machine reset into the cartridge.
    pub fn load(cart: Cartridge) -> (g: Gba)
        ensures
            bus_shaped(g.bus@),
            bus_wf(g.bus@) <==> cart.rom@.len() > 0,
            g.cpu.cpsr == 0xD3,
            !g.cpu.halted,
            g.cpu@.r[13] == 0x0300_7F00,
            g.cpu@.r[15] == 0x0800_0000,
            g.bus@.rom == cart.rom@,
            g.bus@.save == cart.save@,
            g.bus.cart.title@ == cart.title@,
            g.bus.cycles == 0,
            g.bus.frame == 0,
    {
        Gba { cpu: Cpu::new(), bus: Bus::new(cart) }
    }

    /// Runs the machine until the bus finishes the current frame.
    pub fn run_frame(&mut self)
        requires
            bus_wf(old(self).bus@),
            exists|fuel: nat| (#[trigger] run_frame_model(old(self).cpu@, old(self).bus@, old(self).bus.frame, fuel)) is Some,
        ensures
            forall|fuel: nat|
                (#[trigger] run_frame_model(old(self).cpu@, old(self).bus@, old(self).bus.frame, fuel)) is Some ==> run_frame_model(
                    old(self).cpu@,
                    old(self).bus@,
                    old(self).bus.frame,
                    fuel,
                ) == Some((final(self).cpu@, final(self).bus@)),
    {
        let start = self.bus.frame;
        let ghost c0 = self.cpu@;
        let ghost m0 = self.bus@;
        let ghost mut fuel: nat = choose|fuel: nat| (#[trigger] run_frame_model(c0, m0, start, fuel)) is Some;
        proof {
            lemma_more_fuel_same(c0, m0, start);
        }
        while self.bus.frame == start
            invariant
                bus_wf(self.bus@),
                run_frame_model(self.cpu@, self.bus@, start, fuel) is Some,
                forall|f: nat|
                    (#[trigger] run_frame_model(c0, m0, start, f)) is Some ==> run_frame_model(c0, m0, start, f) == run_frame_model(
                        self.cpu@,
                        self.bus@,
                        start,
                        fuel,
                    ),
            decreases fuel,
        {
            let cycles = self.cpu.step(&mut self.bus);
            self.bus.tick(cycles as u64);
            proof {
                fuel = (fuel - 1) as nat;
            }
        }
    }

    /// The screen, a pixel a halfword, row by row.
    pub fn framebuffer(&self) -> (r: &[u16])
        ensures
            r@ == self.bus.framebuffer@,
    {
        self.bus.framebuffer.as_slice()
    }

    /// The cartridge's title.
    pub fn title(&self) -> (r: &str)
        ensures
            r@ == self.bus.cart.title@,
    {
        self.bus.cart.title.as_str()
    }
}

/// A run that finishes with some fuel finishes the same way with more.
proof fn lemma_more_fuel(c: CpuView, m: BusView, start: u64, a: nat, b: nat)
    requires
        run_frame_model(c, m, start, a) is Some,
        a <= b,
    ensures
        run_frame_model(c, m, start, b) == run_frame_model(c, m, start, a),
    decreases a,
{
    if m.frame != start {
    } else {
        let (c2, m2, cycles) = step_model(c, m);
        lemma_more_fuel(c2, tick_model(m2, cycles as u64), start, (a - 1) as nat, (b - 1) as nat);
    }
}

/// Any two amounts of fuel that finish a run give the same result.
proof fn lemma_more_fuel_same(c: CpuView, m: BusView, start: u64)
    ensures
        forall|a: nat, b: nat|
            (#[trigger] run_frame_model(c, m, start, a)) is Some && (#[trigger] run_frame_model(c, m, start, b)) is Some ==> run_frame_model(
                c,
                m,
                start,
                a,
            ) == run_frame_model(c, m, start, b),
{
    assert forall|a: nat, b: nat|
        (#[trigger] run_frame_model(c, m, start, a)) is Some && (#[trigger] run_frame_model(c, m, start, b)) is Some implies run_frame_model(
        c,
        m,
        start,
        a,
    ) == run_frame_model(c, m, start, b) by {
        if a <= b {
            lemma_more_fuel(c, m, start, a, b);
        } else {
            lemma_more_fuel(c, m, start, b, a);
        }
    }
}

} // verus!
