//! Static recompilation core: a small intermediate representation of machine
//! operations, per-architecture encoders and decoders, a reference executor and
//! the round-trip verifier, together with the firmware, report and contract
//! generators built on top of the hardware model.

pub mod text;
pub mod target;
pub mod sir;
pub mod encode;
pub mod decode;
pub mod roundtrip;
pub mod semexec;
pub mod verify;
pub mod emit;
pub mod lift;
pub mod elf;
pub mod temporal;
pub mod smt;
pub mod lab_gate;
pub mod hw;
pub mod fw;
pub mod graphviz;
pub mod mmio;
pub mod classify;
pub mod bir;
