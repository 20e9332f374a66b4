//! Board identification.
//!
//! The boot path reads the main identification register once and maps
//! it to a machine type; the machine type fixes where the MMIO window
//! sits in physical space.  The register read belongs to the hardware
//! layer; the two mappings are verified here.

use vstd::prelude::*;

verus! {

/// The boards this kernel knows.
#[derive(Debug, Clone, Copy, PartialEq, Eq, Structural)]
pub enum MachineType {
    Unknown,
    RPi3,
    RPi4,
}

/// The machine type encoded in the part-number field of the main
/// identification register.
pub fn machine_type_of(midr: u64) -> (r: MachineType)
    ensures
        r == (if (midr >> 4) & 0xFFF == 0xD03 {
            MachineType::RPi3
        } else if (midr >> 4) & 0xFFF == 0xD08 {
            MachineType::RPi4
        } else {
            MachineType::Unknown
        }),
{
    let part = (midr >> 4u64) & 0xFFF;
    if part == 0xD03 {
        MachineType::RPi3
    } else if part == 0xD08 {
        MachineType::RPi4
    } else {
        MachineType::Unknown
    }
}

/// Base of the memory-mapped peripheral window for a board.
pub fn mmio_base(machine: MachineType) -> (r: u64)
    ensures
        r == (match machine {
            MachineType::Unknown => 0x2000_0000u64,
            MachineType::RPi3 => 0x3F00_0000u64,
            MachineType::RPi4 => 0xFE00_0000u64,
        }),
{
    match machine {
        MachineType::Unknown => 0x2000_0000,
        MachineType::RPi3 => 0x3F00_0000,
        MachineType::RPi4 => 0xFE00_0000,
    }
}

/// The highest physical address the boards carry memory or devices
/// at, used as the floor when sizing translation tables.
pub fn max_pa() -> (r: crate::pa::PhysicalAddress)
    ensures
        r.spec_u64() == 0x1_0000_0000,
{
    crate::pa::PhysicalAddress::new(0x1_0000_0000)
}

} // verus!
