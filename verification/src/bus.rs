use vstd::prelude::*;

use crate::display::{blit_row, row_collision, screen_wf, zero_screen, Display};
use crate::keyboard::Keyboard;
use crate::ram::{font, ram_wf, Ram, MEM_SIZE, PROGRAM_START};
use crate::timer::{timer_observed, Timer, TimerView};

verus! {

/// Mathematical view of the whole peripheral bus: memory contents, the
/// designated pressed key, the pixel grid, and the countdown timer.
pub ghost struct BusView {
    pub ram: Seq<u8>,
    pub key: Option<u8>,
    pub screen: Seq<u8>,
    pub timer: TimerView,
}

/// A well-formed bus has full-size memory and a well-formed screen.
pub open spec fn bus_wf(b: BusView) -> bool {
    &&& ram_wf(b.ram)
    &&& screen_wf(b.screen)
}

/// The sole mediator the interpreter talks to: composes memory, keyboard,
/// display and timer behind one interface, holding no decode logic of its
/// own. Every side effect is exactly that of the component invoked.
#[derive(Debug)]
pub struct Bus {
    ram: Ram,
    keyboard: Keyboard,
    display: Display,
    timer: Timer,
}

impl View for Bus {
    type V = BusView;

    closed spec fn view(&self) -> BusView {
        BusView { ram: self.ram@, key: self.keyboard@, screen: self.display@, timer: self.timer@ }
    }
}

impl Bus {
    /// A fresh machine: glyph sprites in low memory, the rest zeroed, no key
    /// pressed, a dark screen, and an expired timer.
    pub fn new() -> (r: Bus)
        ensures
            bus_wf(r@),
            forall|a: int| 0 <= a < 80 ==> r@.ram[a] == font()[a],
            forall|a: int| 80 <= a < MEM_SIZE ==> r@.ram[a] == 0u8,
            r@.key == Option::<u8>::None,
            r@.screen == zero_screen(),
            r@.timer.value == 0,
    {
        Bus { ram: Ram::new(), keyboard: Keyboard::new(), display: Display::new(), timer: Timer::new() }
    }

    /// The byte of memory at `address`.
    pub fn ram_read_byte(&self, address: u16) -> (r: u8)
        requires
            bus_wf(self@),
            address < MEM_SIZE,
        ensures
            r == self@.ram[address as int],
    {
        self.ram.read_byte(address)
    }

    /// Store `value` in memory at `address`.
    pub fn ram_write_byte(&mut self, address: u16, value: u8)
        requires
            bus_wf(old(self)@),
            address < MEM_SIZE,
        ensures
            bus_wf(final(self)@),
            final(self)@ == (BusView { ram: old(self)@.ram.update(address as int, value), ..old(self)@ }),
    {
        self.ram.write_byte(address, value);
    }

    /// Record which key, if any, is currently pressed.
    pub fn set_key_pressed(&mut self, key: Option<u8>)
        ensures
            final(self)@ == (BusView { key: key, ..old(self)@ }),
    {
        self.keyboard.set_key_pressed(key);
    }

    /// The currently recorded pressed key, if any.
    pub fn get_key_pressed(&self) -> (r: Option<u8>)
        ensures
            r == self@.key,
    {
        self.keyboard.get_key_pressed()
    }

    /// Whether `key_code` is the currently recorded pressed key.
    pub fn is_key_pressed(&self, key_code: u8) -> (r: bool)
        ensures
            r == (self@.key == Some(key_code)),
    {
        self.keyboard.is_key_pressed(key_code)
    }

    /// Set the countdown timer; its wall-clock reference instant becomes now.
    pub fn set_delay_timer(&mut self, value: u8)
        ensures
            final(self)@.timer.value == value,
            final(self)@.ram == old(self)@.ram,
            final(self)@.key == old(self)@.key,
            final(self)@.screen == old(self)@.screen,
    {
        self.timer.set(value);
    }

    /// The observed countdown value, derived from wall-clock time elapsed
    /// since the timer was last set.
    pub fn get_delay_timer(&self) -> (r: u8)
        ensures
            exists|now_ms: u64| r == timer_observed(self@.timer.value, self@.timer.set_ms, now_ms),
            r <= self@.timer.value,
            self@.timer.value == 0 ==> r == 0,
    {
        let r = self.timer.observed();
        proof {
            let now = choose|now_ms: u64|
                r == timer_observed(self.timer@.value, self.timer@.set_ms, now_ms);
            assert(r == timer_observed(self@.timer.value, self@.timer.set_ms, now));
        }
        r
    }

    /// Reset every pixel of the display to dark.
    pub fn clear_screen(&mut self)
        ensures
            final(self)@ == (BusView { screen: zero_screen(), ..old(self)@ }),
            screen_wf(final(self)@.screen),
    {
        self.display.clear();
    }

    /// XOR-blit one sprite row at `(x, y)` on the display, wrapping at the
    /// screen edges; reports whether some lit pixel was erased.
    pub fn debug_draw_byte(&mut self, byte: u8, x: u8, y: u8) -> (erased: bool)
        requires
            screen_wf(old(self)@.screen),
        ensures
            final(self)@ == (BusView {
                screen: blit_row(old(self)@.screen, byte, x as int, y as int),
                ..old(self)@
            }),
            screen_wf(final(self)@.screen),
            erased == row_collision(old(self)@.screen, byte, x as int, y as int),
    {
        self.display.draw_byte(byte, x, y)
    }

    /// Read-only view of the pixel grid, row-major, for presentation.
    pub fn get_display_buffer(&self) -> (r: &[u8])
        ensures
            r@ == self@.screen,
    {
        self.display.get_display_buffer()
    }

    /// Load a program image verbatim into memory at the fixed load offset.
    pub fn load_rom(&mut self, data: &Vec<u8>)
        requires
            bus_wf(old(self)@),
            PROGRAM_START + data@.len() <= MEM_SIZE,
        ensures
            bus_wf(final(self)@),
            final(self)@.key == old(self)@.key,
            final(self)@.screen == old(self)@.screen,
            final(self)@.timer == old(self)@.timer,
            forall|a: int|
                0 <= a < MEM_SIZE ==> final(self)@.ram[a] == (if PROGRAM_START <= a
                    < PROGRAM_START + data@.len() {
                    data@[a - PROGRAM_START]
                } else {
                    old(self)@.ram[a]
                }),
    {
        let mut k: usize = 0;
        while k < data.len()
            invariant
                bus_wf(self@),
                PROGRAM_START + data@.len() <= MEM_SIZE,
                k <= data@.len(),
                self@.key == old(self)@.key,
                self@.screen == old(self)@.screen,
                self@.timer == old(self)@.timer,
                forall|a: int|
                    0 <= a < MEM_SIZE ==> self@.ram[a] == (if PROGRAM_START <= a < PROGRAM_START
                        + k {
                        data@[a - PROGRAM_START]
                    } else {
                        old(self)@.ram[a]
                    }),
            decreases data@.len() - k,
        {
            let address: u16 = PROGRAM_START + (k as u16);
            self.ram.write_byte(address, data[k]);
            k = k + 1;
        }
    }
}

} // verus!
