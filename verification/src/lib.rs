//! A verified interpreter for a small 8-bit virtual machine: a fixed 16-bit
//! instruction set operating on byte-addressable memory, sixteen general
//! registers, a monochrome XOR-blit display, a 16-key input device and a
//! wall-clock countdown timer, all mediated by a bus.

pub mod bus;
pub mod chip8;
pub mod cpu;
pub mod display;
pub mod keyboard;
pub mod ram;
pub mod timer;
