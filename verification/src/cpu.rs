//! Per-core helpers: interlocked bit operations on shared words.
//!
//! On the hardware these run as single atomic read-modify-write
//! updates; the wait, wake and interrupt-mask instructions that
//! surround them in the boot path belong to the architecture layer.

use vstd::prelude::*;

verus! {

pub struct Cpu;

impl Cpu {
    /// Atomically sets the bit at `position` and reports whether it
    /// was already set: every other bit is left alone.
    pub fn interlocked_test_and_set(p: &mut usize, position: usize) -> (r: bool)
        requires
            position < usize::BITS,
        ensures
            r == ((*old(p) >> position) & 1 == 1),
            *final(p) == (*old(p) | (1usize << position)),
    {
        let test = 1usize << position;
        proof {
            let w = *p;
            let pos = position;
            assert(((w & (1usize << pos)) != 0) == ((w >> pos) & 1 == 1)) by (bit_vector)
                requires
                    pos < usize::BITS,
            ;
        }
        let result = (*p & test) != 0;
        *p = *p | test;
        result
    }

    /// Atomically clears the bit at `position` and reports whether it
    /// was set: every other bit is left alone.
    pub fn interlocked_test_and_clear(p: &mut usize, position: usize) -> (r: bool)
        requires
            position < usize::BITS,
        ensures
            r == ((*old(p) >> position) & 1 == 1),
            *final(p) == (*old(p) & !(1usize << position)),
    {
        let test = 1usize << position;
        proof {
            let w = *p;
            let pos = position;
            assert(((w & (1usize << pos)) != 0) == ((w >> pos) & 1 == 1)) by (bit_vector)
                requires
                    pos < usize::BITS,
            ;
        }
        let result = (*p & test) != 0;
        *p = *p & !test;
        result
    }
}

} // verus!
