//! Dynamic linking and the guest/host control-transfer protocol of a
//! high-level emulator for 32-bit ARM guest code.
//!
//! Calls that guest binaries make through their symbol stubs are redirected
//! either to host implementations (through supervisor-call trap codes) or to
//! code exported by other loaded guest binaries.

pub mod abi;
pub mod mem;
pub mod mach_o;
pub mod symbol;
pub mod cpu;
pub mod dyld;
pub mod lemmas;
