//! Serial-port helpers.
//!
//! The UARTs themselves are rings of MMIO registers the hardware
//! layer pokes; what is verified here is the baud-rate divisor
//! arithmetic both mini-UART variants share.

use vstd::prelude::*;

verus! {

/// The mini UART.
pub struct Uart;

impl Uart {
    /// The core clock the mini UART divides down from.
    pub const CLOCK: u32 = 500_000_000;

    /// One shared port; the struct carries no state of its own.
    pub fn shared() -> Uart {
        Uart {  }
    }

    /// The divisor register value for a baud rate: the clock divided
    /// by eight times the rate, less one; zero when the rate is zero
    /// and no divisor exists.
    pub fn baud(baud: u32) -> (r: u32)
        requires
            baud == 0 || baud * 8 <= 500_000_000,
        ensures
            r == if baud == 0 {
                0u32
            } else {
                (500_000_000int / (baud * 8) - 1) as u32
            },
    {
        proof {
            if baud > 0 {
                vstd::arithmetic::div_mod::lemma_div_is_ordered(
                    baud * 8,
                    500_000_000,
                    baud * 8,
                );
                vstd::arithmetic::div_mod::lemma_div_by_multiple(1, baud * 8);
            }
        }
        match Self::CLOCK.checked_div(baud * 8) {
            Some(v) => v - 1,
            None => 0,
        }
    }

    /// The same divisor, for callers that work in machine words.
    pub fn mu_baud(baud: usize) -> (r: u32)
        requires
            baud == 0 || baud * 8 <= 500_000_000,
        ensures
            r == if baud == 0 {
                0u32
            } else {
                (500_000_000int / (baud * 8) - 1) as u32
            },
    {
        Self::baud(baud as u32)
    }
}

} // verus!
