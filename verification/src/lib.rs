//! Gate-level simulator of a simple synchronous 16-bit computer.
//!
//! Everything is built up from a single boolean primitive (`nand`):
//! combinational gates, a two-phase clock with a D-flip-flop, registers,
//! a hierarchical RAM, a read-only program store, an ALU, a CPU and a
//! top-level fetch-execute loop.

pub mod alu;
pub mod arithmetic;
pub mod computer;
pub mod cpu;
pub mod dff;
pub mod keyboard;
pub mod logic;
pub mod numeric;
pub mod pc;
pub mod ram;
pub mod rom;
pub mod screen;
pub mod util;
pub mod register;
