//! A verified interpreter for a small fixed-instruction-set machine:
//! sixteen 8-bit registers, a 16-bit address space, a return-address
//! stack, two countdown timers, a 64x32 monochrome framebuffer and a
//! 16-key input device.

pub mod cpu;
pub mod semantics;
pub mod chip8;
pub mod laws;
pub mod font;
mod util;
