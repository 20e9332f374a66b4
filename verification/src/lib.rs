//! Bootstrap core of a bare-metal multi-core kernel: physical memory
//! management, translation-table construction, spinlocks, and the
//! secondary-core bring-up handshake, with machine-checked contracts.
//!
//! Everything that touches hardware (MMIO registers, wait/wake
//! instructions, the boot trampoline) lives outside this crate; the
//! functions here compute the values those layers install and keep the
//! bookkeeping that makes the boot protocol safe.

pub mod cpu;
pub mod dt;
pub mod emcon;
pub mod fb;
pub mod font;
pub mod gpio;
pub mod mbox;
pub mod mm;
pub mod pa;
pub mod page;
pub mod raspi;
pub mod smp;
pub mod spin;
pub mod system;
pub mod uart;

pub use pa::NonNullPhysicalAddress;
pub use pa::PhysicalAddress;
