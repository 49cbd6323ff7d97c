//! A verified CHIP-8 interpreter core: a monochrome XOR-compositing display
//! buffer and a CPU that fetches, decodes and executes the classic 16-bit
//! instruction words over 4096 bytes of memory, 16 registers, a call stack
//! and two countdown timers.

pub mod display;
pub mod keyboard;
pub mod cpu;
