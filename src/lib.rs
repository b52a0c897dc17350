use vstd::prelude::*;

pub mod chip8;
pub mod cpu;
pub mod keyboard;
pub mod memory;
pub mod memview;
pub mod op;
pub mod screen;

verus! {

} // verus!
