//! A verified interpreter for an 8-bit fantasy CPU with a 64x32 monochrome
//! display, a 16-key input latch, and two 60 Hz timers.
//!
//! The machine core lives in [`chip8`]: memory, registers, the call stack
//! and the fetch-decode-execute step, whose contract relates each machine
//! state to the next, instruction by instruction. The display surface and
//! its XOR sprite compositing live in [`display`], the input latch in
//! [`keymap`]. Host concerns — windowing, audio, key-event translation and
//! file loading — stay outside the library and talk to it through plain
//! values.

pub mod chip8;
pub mod cli;
pub mod color;
pub mod display;
pub mod keymap;
