//! GPIO pin selection.
//!
//! Each pin's mode lives in a small bit field of one of a row of
//! 32-bit registers; which register and which bits is pure arithmetic
//! on the pin number and the field width, and is verified here.  The
//! read-modify-write of the register itself, and the clock pulses
//! that latch pull settings, belong to the hardware layer.

use vstd::prelude::*;

verus! {

/// The 54 general-purpose pins.
#[derive(Debug, Clone, Copy, PartialEq, Eq, Structural)]
pub enum Gpio {
    Pin00,
    Pin01,
    Pin02,
    Pin03,
    Pin04,
    Pin05,
    Pin06,
    Pin07,
    Pin08,
    Pin09,
    Pin10,
    Pin11,
    Pin12,
    Pin13,
    Pin14,
    Pin15,
    Pin16,
    Pin17,
    Pin18,
    Pin19,
    Pin20,
    Pin21,
    Pin22,
    Pin23,
    Pin24,
    Pin25,
    Pin26,
    Pin27,
    Pin28,
    Pin29,
    Pin30,
    Pin31,
    Pin32,
    Pin33,
    Pin34,
    Pin35,
    Pin36,
    Pin37,
    Pin38,
    Pin39,
    Pin40,
    Pin41,
    Pin42,
    Pin43,
    Pin44,
    Pin45,
    Pin46,
    Pin47,
    Pin48,
    Pin49,
    Pin50,
    Pin51,
    Pin52,
    Pin53,
}

impl Gpio {
    /// Function-select value: the pin drives its output latch.
    pub const FUNCTION_OUT: u32 = 1;

    /// Alternate functions as the function-select field encodes them.
    pub const FUNCTION_ALT5: u32 = 2;

    pub const FUNCTION_ALT3: u32 = 7;

    pub const FUNCTION_ALT0: u32 = 4;

    /// Pull settings of the pull-control field.
    pub const PULL_NONE: u32 = 0;

    pub const PULL_DOWN: u32 = 1;

    pub const PULL_UP: u32 = 2;

    /// The pins the mini UART sits on.
    pub const UART0_TXD: Gpio = Gpio::Pin14;

    pub const UART0_RXD: Gpio = Gpio::Pin15;

    pub open spec fn spec_pin(self) -> u32 {
        match self {
            Gpio::Pin00 => 0,
            Gpio::Pin01 => 1,
            Gpio::Pin02 => 2,
            Gpio::Pin03 => 3,
            Gpio::Pin04 => 4,
            Gpio::Pin05 => 5,
            Gpio::Pin06 => 6,
            Gpio::Pin07 => 7,
            Gpio::Pin08 => 8,
            Gpio::Pin09 => 9,
            Gpio::Pin10 => 10,
            Gpio::Pin11 => 11,
            Gpio::Pin12 => 12,
            Gpio::Pin13 => 13,
            Gpio::Pin14 => 14,
            Gpio::Pin15 => 15,
            Gpio::Pin16 => 16,
            Gpio::Pin17 => 17,
            Gpio::Pin18 => 18,
            Gpio::Pin19 => 19,
            Gpio::Pin20 => 20,
            Gpio::Pin21 => 21,
            Gpio::Pin22 => 22,
            Gpio::Pin23 => 23,
            Gpio::Pin24 => 24,
            Gpio::Pin25 => 25,
            Gpio::Pin26 => 26,
            Gpio::Pin27 => 27,
            Gpio::Pin28 => 28,
            Gpio::Pin29 => 29,
            Gpio::Pin30 => 30,
            Gpio::Pin31 => 31,
            Gpio::Pin32 => 32,
            Gpio::Pin33 => 33,
            Gpio::Pin34 => 34,
            Gpio::Pin35 => 35,
            Gpio::Pin36 => 36,
            Gpio::Pin37 => 37,
            Gpio::Pin38 => 38,
            Gpio::Pin39 => 39,
            Gpio::Pin40 => 40,
            Gpio::Pin41 => 41,
            Gpio::Pin42 => 42,
            Gpio::Pin43 => 43,
            Gpio::Pin44 => 44,
            Gpio::Pin45 => 45,
            Gpio::Pin46 => 46,
            Gpio::Pin47 => 47,
            Gpio::Pin48 => 48,
            Gpio::Pin49 => 49,
            Gpio::Pin50 => 50,
            Gpio::Pin51 => 51,
            Gpio::Pin52 => 52,
            Gpio::Pin53 => 53,
        }
    }

    pub fn pin_number(self) -> (r: u32)
        ensures
            r == self.spec_pin(),
    {
        match self {
            Gpio::Pin00 => 0,
            Gpio::Pin01 => 1,
            Gpio::Pin02 => 2,
            Gpio::Pin03 => 3,
            Gpio::Pin04 => 4,
            Gpio::Pin05 => 5,
            Gpio::Pin06 => 6,
            Gpio::Pin07 => 7,
            Gpio::Pin08 => 8,
            Gpio::Pin09 => 9,
            Gpio::Pin10 => 10,
            Gpio::Pin11 => 11,
            Gpio::Pin12 => 12,
            Gpio::Pin13 => 13,
            Gpio::Pin14 => 14,
            Gpio::Pin15 => 15,
            Gpio::Pin16 => 16,
            Gpio::Pin17 => 17,
            Gpio::Pin18 => 18,
            Gpio::Pin19 => 19,
            Gpio::Pin20 => 20,
            Gpio::Pin21 => 21,
            Gpio::Pin22 => 22,
            Gpio::Pin23 => 23,
            Gpio::Pin24 => 24,
            Gpio::Pin25 => 25,
            Gpio::Pin26 => 26,
            Gpio::Pin27 => 27,
            Gpio::Pin28 => 28,
            Gpio::Pin29 => 29,
            Gpio::Pin30 => 30,
            Gpio::Pin31 => 31,
            Gpio::Pin32 => 32,
            Gpio::Pin33 => 33,
            Gpio::Pin34 => 34,
            Gpio::Pin35 => 35,
            Gpio::Pin36 => 36,
            Gpio::Pin37 => 37,
            Gpio::Pin38 => 38,
            Gpio::Pin39 => 39,
            Gpio::Pin40 => 40,
            Gpio::Pin41 => 41,
            Gpio::Pin42 => 42,
            Gpio::Pin43 => 43,
            Gpio::Pin44 => 44,
            Gpio::Pin45 => 45,
            Gpio::Pin46 => 46,
            Gpio::Pin47 => 47,
            Gpio::Pin48 => 48,
            Gpio::Pin49 => 49,
            Gpio::Pin50 => 50,
            Gpio::Pin51 => 51,
            Gpio::Pin52 => 52,
            Gpio::Pin53 => 53,
        }
    }
}

/// One register update the hardware layer must perform: read the
/// register at `reg_offset` from the GPIO block, clear `mask` shifted
/// up by `shift`, set `value` there instead, and write it back.
pub struct GpioFieldWrite {
    pub reg_offset: u32,
    pub shift: u32,
    pub mask: u32,
    pub value: u32,
}

impl Gpio {
    /// Where and how this pin's field of `field_size` bits sits in the
    /// register row starting at `row_offset`: registers hold
    /// `32 / field_size` fields each.
    pub fn field_write(self, row_offset: u32, value: u32, field_size: u32) -> (r: GpioFieldWrite)
        requires
            1 <= field_size <= 3,
            row_offset <= 0x100,
        ensures
            ({
                let num_fields: int = 32int / (field_size as int);
                &&& r.reg_offset == row_offset + ((self.spec_pin() as int) / num_fields) * 4
                &&& r.shift == ((self.spec_pin() as int) % num_fields) * field_size
                &&& r.mask == (if field_size == 1 {
                    1u32
                } else if field_size == 2 {
                    3u32
                } else {
                    7u32
                })
                &&& r.value == value
                &&& r.shift + field_size <= 32
            }),
    {
        let pin = self.pin_number();
        proof {
            assert((1u32 << 1) - 1 == 1 && (1u32 << 2) - 1 == 3 && (1u32 << 3) - 1 == 7)
                by (bit_vector);
        }
        let field_mask = (1u32 << field_size) - 1;
        let num_fields = 32 / field_size;
        let reg_offset = row_offset + (pin / num_fields) * 4;
        let shift = (pin % num_fields) * field_size;
        proof {
            assert(((self.spec_pin() as int) % (32int / (field_size as int))) * field_size
                + field_size <= 32) by (nonlinear_arith)
                requires
                    1 <= field_size <= 3,
            ;
        }
        GpioFieldWrite { reg_offset, shift, mask: field_mask, value }
    }

    /// The register value after a field write is applied.
    pub fn apply_field_write(cur: u32, w: &GpioFieldWrite) -> (r: u32)
        requires
            w.shift < 32,
        ensures
            r == (cur & !(w.mask << w.shift)) | (w.value << w.shift),
    {
        (cur & !(w.mask << w.shift)) | (w.value << w.shift)
    }

    /// The two field writes that hand this pin to alternate function
    /// five: pull off, then the function select.
    pub fn use_as_alt5(self) -> (r: (GpioFieldWrite, GpioFieldWrite))
        ensures
            r.0.value == 0 && r.0.mask == 3,
            r.1.value == 2 && r.1.mask == 7,
    {
        (self.field_write(0xE4, Self::PULL_NONE, 2), self.field_write(0, Self::FUNCTION_ALT5, 3))
    }

    /// Likewise for alternate function three.
    pub fn use_as_alt3(self) -> (r: (GpioFieldWrite, GpioFieldWrite))
        ensures
            r.0.value == 0 && r.0.mask == 3,
            r.1.value == 7 && r.1.mask == 7,
    {
        (self.field_write(0xE4, Self::PULL_NONE, 2), self.field_write(0, Self::FUNCTION_ALT3, 3))
    }

    /// Likewise for alternate function zero.
    pub fn use_as_alt0(self) -> (r: (GpioFieldWrite, GpioFieldWrite))
        ensures
            r.0.value == 0 && r.0.mask == 3,
            r.1.value == 4 && r.1.mask == 7,
    {
        (self.field_write(0xE4, Self::PULL_NONE, 2), self.field_write(0, Self::FUNCTION_ALT0, 3))
    }

    /// The writes that make this pin a plain output with no pull.
    pub fn init_output_pin_with_pull_none(self) -> (r: (GpioFieldWrite, GpioFieldWrite))
        ensures
            r.0.value == 0 && r.0.mask == 3,
            r.1.value == 1 && r.1.mask == 7,
    {
        (self.field_write(0xE4, Self::PULL_NONE, 2), self.field_write(0, Self::FUNCTION_OUT, 3))
    }

    /// The single-bit write that drives or clears this pin's output:
    /// the set row sits at offset 0x1C, the clear row at 0x28.
    pub fn set_output(self, val: bool) -> (r: GpioFieldWrite)
        ensures
            r.value == 1,
            r.mask == 1,
            r.shift == ((self.spec_pin() as int) % 32),
            val ==> r.reg_offset == 0x1C + (self.spec_pin() / 32) * 4,
            !val ==> r.reg_offset == 0x28 + (self.spec_pin() / 32) * 4,
    {
        if val {
            self.field_write(0x1C, 1, 1)
        } else {
            self.field_write(0x28, 1, 1)
        }
    }
}

} // verus!
