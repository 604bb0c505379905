use vstd::prelude::*;

use crate::bus::{bus_wf, Bus, BusView};
use crate::cpu::{cpu_wf, step_rel, Cpu, CpuView, ExecError};
use crate::display::zero_screen;
use crate::ram::{font, MEM_SIZE, PROGRAM_START};

verus! {

/// Mathematical view of the whole machine: the register file and the bus.
#[verifier::ext_equal]
pub ghost struct Chip8View {
    pub cpu: CpuView,
    pub bus: BusView,
}

/// A well-formed machine has a well-formed register file and bus.
pub open spec fn chip8_wf(m: Chip8View) -> bool {
    &&& cpu_wf(m.cpu)
    &&& bus_wf(m.bus)
}

/// The whole machine: the interpreter together with the peripheral bus it
/// drives. The driver loads a program, then repeatedly steps it, feeding key
/// state in and sampling the display between steps.
#[derive(Debug)]
pub struct Chip8 {
    cpu: Cpu,
    bus: Bus,
}

impl View for Chip8 {
    type V = Chip8View;

    closed spec fn view(&self) -> Chip8View {
        Chip8View { cpu: self.cpu@, bus: self.bus@ }
    }
}

impl Chip8 {
    /// A fresh machine, ready to have a program loaded: all registers zero,
    /// the program counter at the fixed load offset, an empty call stack,
    /// the glyph sprites in low memory and zeroes everywhere else, a dark
    /// screen, no key pressed, and an expired timer.
    pub fn new() -> (r: Chip8)
        ensures
            chip8_wf(r@),
            r@.cpu.pc == PROGRAM_START,
            r@.cpu.i == 0u16,
            r@.cpu.ret == Seq::<u16>::empty(),
            forall|k: int| 0 <= k < 16 ==> r@.cpu.vx[k] == 0u8,
            forall|a: int| 0 <= a < 80 ==> r@.bus.ram[a] == font()[a],
            forall|a: int| 80 <= a < MEM_SIZE ==> r@.bus.ram[a] == 0u8,
            r@.bus.screen == zero_screen(),
            r@.bus.key == Option::<u8>::None,
            r@.bus.timer.value == 0,
    {
        Chip8 { cpu: Cpu::new(), bus: Bus::new() }
    }

    /// Load a program image verbatim at the fixed load offset.
    pub fn load_rom(&mut self, data: &Vec<u8>)
        requires
            chip8_wf(old(self)@),
            PROGRAM_START + data@.len() <= MEM_SIZE,
        ensures
            chip8_wf(final(self)@),
            final(self)@.cpu == old(self)@.cpu,
            final(self)@.bus.key == old(self)@.bus.key,
            final(self)@.bus.screen == old(self)@.bus.screen,
            final(self)@.bus.timer == old(self)@.bus.timer,
            forall|a: int|
                0 <= a < MEM_SIZE ==> final(self)@.bus.ram[a] == (if PROGRAM_START <= a
                    < PROGRAM_START + data@.len() {
                    data@[a - PROGRAM_START]
                } else {
                    old(self)@.bus.ram[a]
                }),
    {
        self.bus.load_rom(data);
    }

    /// Perform exactly one instruction.
    pub fn run_instruction(&mut self) -> (r: Result<(), ExecError>)
        requires
            chip8_wf(old(self)@),
        ensures
            chip8_wf(final(self)@),
            step_rel(old(self)@.cpu, old(self)@.bus, final(self)@.cpu, final(self)@.bus, r),
    {
        self.cpu.run_instruction(&mut self.bus)
    }

    /// Record which key, if any, is currently pressed (driver input).
    pub fn set_key_pressed(&mut self, key: Option<u8>)
        ensures
            final(self)@.cpu == old(self)@.cpu,
            final(self)@.bus == (BusView { key: key, ..old(self)@.bus }),
    {
        self.bus.set_key_pressed(key);
    }

    /// Read-only view of the pixel grid, row-major, for presentation.
    pub fn get_display_buffer(&self) -> (r: &[u8])
        ensures
            r@ == self@.bus.screen,
    {
        self.bus.get_display_buffer()
    }
}

} // verus!
