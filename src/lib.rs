//! An 8-bit breadboard computer: a microcoded accumulator machine with 16 bytes
//! of memory, a shared bus, and an assembler for its instruction set.
use vstd::prelude::*;

pub mod assembler;
pub mod control;
pub mod cpu;

verus! {

} // verus!
