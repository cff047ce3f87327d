//! A discrete-event emulation kernel with a CHIP-8 / SUPER-CHIP interpreter.
//!
//! The kernel advances a monotonic virtual clock by stepping components
//! (CPU, timers, audio generator) over a shared address bus; the interpreter
//! implements the CHIP-8 instruction set with configurable behavioural quirks.

pub mod audio;
pub mod backend;
pub mod bus;
pub mod chip8;
pub mod component;
pub mod clock;
pub mod cpu;
pub mod error;
pub mod graphics;
pub mod input;
pub mod keypad;
pub mod memory;
pub mod ringbuffer;
pub mod text;
pub mod timer;

pub use clock::{Duration, Instant};
