//! Property-mailbox messages.
//!
//! The firmware mailbox takes a 16-byte-aligned buffer of 32-bit
//! words: a byte length, a request code, a run of tags and a
//! terminator.  Building that buffer is pure computation and is
//! verified here word by word; ringing the mailbox and reading the
//! response status are register operations that belong to the
//! hardware layer.

use vstd::prelude::*;

verus! {

/// The mailbox channels.
#[allow(non_camel_case_types)]
#[derive(Debug, Clone, Copy, PartialEq, Eq, Structural)]
pub enum Mbox {
    POWER,
    FB,
    VUART,
    VCHIQ,
    LEDS,
    BTNS,
    TOUCH,
    COUNT,
    PROP,
}

impl Mbox {
    /// The channel number carried in the low bits of the ring value.
    pub open spec fn spec_channel(self) -> u32 {
        match self {
            Mbox::POWER => 0,
            Mbox::FB => 1,
            Mbox::VUART => 2,
            Mbox::VCHIQ => 3,
            Mbox::LEDS => 4,
            Mbox::BTNS => 5,
            Mbox::TOUCH => 6,
            Mbox::COUNT => 7,
            Mbox::PROP => 8,
        }
    }

    pub fn channel(self) -> (r: u32)
        ensures
            r == self.spec_channel(),
    {
        match self {
            Mbox::POWER => 0,
            Mbox::FB => 1,
            Mbox::VUART => 2,
            Mbox::VCHIQ => 3,
            Mbox::LEDS => 4,
            Mbox::BTNS => 5,
            Mbox::TOUCH => 6,
            Mbox::COUNT => 7,
            Mbox::PROP => 8,
        }
    }

    /// A fresh message buffer of `n` words on this channel.
    pub fn mbox(&self, n: usize) -> (r: Option<MboxContext>)
        requires
            n <= 0x1000_0000,
        ensures
            n < 3 <==> r is None,
            r matches Some(m) ==> m.wf() && m.spec_chan() == *self && m.words().len() == n
                && m.words()[0] == 12 && m.words()[1] == 0 && m.words()[2] == 0,
    {
        MboxContext::new(*self, n)
    }
}

/// A property-message buffer under construction.
pub struct MboxContext {
    payload: Payload,
    chan: Mbox,
}

/// The backing words of a message buffer; the unsafe layer gives the
/// real one its 16-byte alignment.
pub struct Payload(pub Vec<u32>);

impl MboxContext {
    /// Request code: this buffer asks, the firmware answers.
    pub const REQUEST: u32 = 0x0000_0000;

    /// Response code the firmware writes on success.
    pub const RESPONSE: u32 = 0x8000_0000;

    /// Status-register bit: the mailbox cannot take another message.
    pub const FULL: u32 = 0x8000_0000;

    /// Status-register bit: the mailbox has nothing to read.
    pub const EMPTY: u32 = 0x4000_0000;

    /// The words of the buffer, for use in contracts.
    pub closed spec fn words(self) -> Seq<u32> {
        self.payload.0@
    }

    pub closed spec fn spec_chan(self) -> Mbox {
        self.chan
    }

    /// A buffer always holds at least its three header words and
    /// stays small enough for its byte length to fit one word.
    pub open spec fn wf(self) -> bool {
        3 <= self.words().len() <= 0x1000_0000
    }

    /// A fresh buffer: byte length 12, request code, terminator, and
    /// poison words after them.  Refused when it could not even hold
    /// the header.
    pub fn new(chan: Mbox, n: usize) -> (r: Option<Self>)
        requires
            n <= 0x1000_0000,
        ensures
            n < 3 <==> r is None,
            r matches Some(m) ==> m.wf() && m.spec_chan() == chan && m.words().len() == n
                && m.words()[0] == 12 && m.words()[1] == 0 && m.words()[2] == 0,
    {
        if n < 3 {
            return None;
        }
        let mut words: Vec<u32> = Vec::new();
        while words.len() < n
            invariant
                words@.len() <= n,
            decreases n - words.len(),
        {
            words.push(0xdeadbeef);
        }
        words.set(0, 12);
        words.set(1, Self::REQUEST);
        words.set(2, 0);
        Some(MboxContext { payload: Payload(words), chan })
    }

    /// Appends one tag to the buffer; the result, on success, is the
    /// index where the tag's value words begin, so the caller can read
    /// the firmware's answer back out.
    pub fn append(&mut self, tag: Tag) -> (r: Result<usize, ()>)
        requires
            old(self).wf(),
            old(self).words()[0] >= 4,
            old(self).words()[0] % 4 == 0,
        ensures
            final(self).wf(),
            final(self).spec_chan() == old(self).spec_chan(),
            ({
                let len0 = old(self).words()[0] / 4 - 1;
                let written = tag.spec_words();
                if len0 + written.len() <= old(self).words().len() {
                    &&& r == Ok::<usize, ()>((len0 + 3) as usize)
                    &&& final(self).words().len() == old(self).words().len()
                    &&& final(self).words()[0] == (len0 + written.len()) * 4
                    &&& forall|i: int|
                        len0 <= i < len0 + written.len() && 0 < i ==> final(self).words()[i]
                            == written[i - len0]
                    &&& forall|i: int|
                        0 < i < len0 || len0 + written.len() <= i < old(self).words().len()
                            ==> final(self).words()[i] == old(self).words()[i]
                } else {
                    r is Err && final(self).words() == old(self).words()
                }
            }),
    {
        tag.append_to(&mut self.payload.0)
    }

    /// A read-only view of the buffer's words.
    pub fn slice(&self) -> (r: &Vec<u32>)
        ensures
            r@ == self.words(),
    {
        &self.payload.0
    }

    /// The value written to the mailbox write register: the buffer's
    /// 16-byte-aligned physical address with the channel number in the
    /// low four bits.  The unsafe layer supplies the address the
    /// buffer was placed at.
    pub fn mbox_addr(&self, buffer_addr: u32) -> (r: u32)
        ensures
            r == (buffer_addr | self.spec_chan().spec_channel()),
    {
        buffer_addr | self.chan.channel()
    }
}

/// The raw tag identifiers of the property interface.
#[allow(non_camel_case_types)]
#[derive(Debug, Clone, Copy, PartialEq, Eq, Structural)]
pub enum RawTag {
    LAST,
    GETSERIAL,
    SETPOWER,
    GetClockState,
    SetClockState,
    GetClockRate,
    SETCLKRATE,
    SETPHYWH,
    SETVIRTWH,
    SETVIRTOFF,
    SETDEPTH,
    SETPXLORDR,
    GETFB,
    GETPITCH,
}

impl RawTag {
    pub open spec fn spec_u32(self) -> u32 {
        match self {
            RawTag::LAST => 0,
            RawTag::GETSERIAL => 0x10004,
            RawTag::SETPOWER => 0x28001,
            RawTag::GetClockState => 0x0003_0001,
            RawTag::SetClockState => 0x0003_8001,
            RawTag::GetClockRate => 0x0003_0002,
            RawTag::SETCLKRATE => 0x38002,
            RawTag::SETPHYWH => 0x48003,
            RawTag::SETVIRTWH => 0x48004,
            RawTag::SETVIRTOFF => 0x48009,
            RawTag::SETDEPTH => 0x48005,
            RawTag::SETPXLORDR => 0x48006,
            RawTag::GETFB => 0x40001,
            RawTag::GETPITCH => 0x40008,
        }
    }

    pub fn as_u32(&self) -> (r: u32)
        ensures
            r == self.spec_u32(),
    {
        match self {
            RawTag::LAST => 0,
            RawTag::GETSERIAL => 0x10004,
            RawTag::SETPOWER => 0x28001,
            RawTag::GetClockState => 0x0003_0001,
            RawTag::SetClockState => 0x0003_8001,
            RawTag::GetClockRate => 0x0003_0002,
            RawTag::SETCLKRATE => 0x38002,
            RawTag::SETPHYWH => 0x48003,
            RawTag::SETVIRTWH => 0x48004,
            RawTag::SETVIRTOFF => 0x48009,
            RawTag::SETDEPTH => 0x48005,
            RawTag::SETPXLORDR => 0x48006,
            RawTag::GETFB => 0x40001,
            RawTag::GETPITCH => 0x40008,
        }
    }
}

/// Clock identifiers of the clock-rate tags.
#[allow(non_camel_case_types)]
#[derive(Debug, Clone, Copy, PartialEq, Eq, Structural)]
pub enum ClockId {
    UART,
    ARM,
    CORE,
    V3D,
    H264,
    ISP,
    SDRAM,
    PIXEL,
    PWM,
    HEVC,
    EMMC2,
    M2MC,
    PIXEL_BVB,
}

impl ClockId {
    pub open spec fn spec_u32(self) -> u32 {
        match self {
            ClockId::UART => 2,
            ClockId::ARM => 3,
            ClockId::CORE => 4,
            ClockId::V3D => 5,
            ClockId::H264 => 6,
            ClockId::ISP => 7,
            ClockId::SDRAM => 8,
            ClockId::PIXEL => 9,
            ClockId::PWM => 10,
            ClockId::HEVC => 11,
            ClockId::EMMC2 => 12,
            ClockId::M2MC => 13,
            ClockId::PIXEL_BVB => 14,
        }
    }

    pub fn as_u32(&self) -> (r: u32)
        ensures
            r == self.spec_u32(),
    {
        match self {
            ClockId::UART => 2,
            ClockId::ARM => 3,
            ClockId::CORE => 4,
            ClockId::V3D => 5,
            ClockId::H264 => 6,
            ClockId::ISP => 7,
            ClockId::SDRAM => 8,
            ClockId::PIXEL => 9,
            ClockId::PWM => 10,
            ClockId::HEVC => 11,
            ClockId::EMMC2 => 12,
            ClockId::M2MC => 13,
            ClockId::PIXEL_BVB => 14,
        }
    }
}

/// One property tag with its arguments.
#[allow(non_camel_case_types)]
#[derive(Debug, Clone, Copy, PartialEq, Eq, Structural)]
pub enum Tag {
    SET_CLKRATE(ClockId, u32, u32),
    SET_PHYWH(u32, u32),
    SET_VIRTWH(u32, u32),
    SET_VIRTOFF(u32, u32),
    SET_DEPTH(u32),
    SET_PXLORDR(u32),
    GET_FB(u32, u32),
    GET_PITCH,
}

impl Tag {
    /// Identifier, value-word count, and response-word count of the
    /// tag.
    pub open spec fn spec_info(self) -> (RawTag, u32, u32) {
        match self {
            Tag::SET_CLKRATE(_, _, _) => (RawTag::SETCLKRATE, 3, 2),
            Tag::SET_PHYWH(_, _) => (RawTag::SETPHYWH, 2, 0),
            Tag::SET_VIRTWH(_, _) => (RawTag::SETVIRTWH, 2, 2),
            Tag::SET_VIRTOFF(_, _) => (RawTag::SETVIRTOFF, 2, 2),
            Tag::SET_DEPTH(_) => (RawTag::SETDEPTH, 1, 1),
            Tag::SET_PXLORDR(_) => (RawTag::SETPXLORDR, 1, 1),
            Tag::GET_FB(_, _) => (RawTag::GETFB, 2, 2),
            Tag::GET_PITCH => (RawTag::GETPITCH, 1, 1),
        }
    }

    pub fn info(&self) -> (r: (RawTag, u32, u32))
        ensures
            r == self.spec_info(),
    {
        match *self {
            Tag::SET_CLKRATE(_, _, _) => (RawTag::SETCLKRATE, 3, 2),
            Tag::SET_PHYWH(_, _) => (RawTag::SETPHYWH, 2, 0),
            Tag::SET_VIRTWH(_, _) => (RawTag::SETVIRTWH, 2, 2),
            Tag::SET_VIRTOFF(_, _) => (RawTag::SETVIRTOFF, 2, 2),
            Tag::SET_DEPTH(_) => (RawTag::SETDEPTH, 1, 1),
            Tag::SET_PXLORDR(_) => (RawTag::SETPXLORDR, 1, 1),
            Tag::GET_FB(_, _) => (RawTag::GETFB, 2, 2),
            Tag::GET_PITCH => (RawTag::GETPITCH, 1, 1),
        }
    }

    /// The tag's value words, in buffer order.
    pub open spec fn spec_values(self) -> Seq<u32> {
        match self {
            Tag::SET_CLKRATE(x, y, z) => seq![x.spec_u32(), y, z],
            Tag::SET_PHYWH(x, y) => seq![x, y],
            Tag::SET_VIRTWH(x, y) => seq![x, y],
            Tag::SET_VIRTOFF(x, y) => seq![x, y],
            Tag::SET_DEPTH(x) => seq![x],
            Tag::SET_PXLORDR(x) => seq![x],
            Tag::GET_FB(x, y) => seq![x, y],
            Tag::GET_PITCH => seq![0],
        }
    }

    /// Everything the tag adds to the buffer: identifier, value-byte
    /// count, response-byte count, the value words, and the
    /// terminator that reseals the message.
    pub open spec fn spec_words(self) -> Seq<u32> {
        let (raw, len1, len2) = self.spec_info();
        seq![raw.spec_u32(), (len1 * 4) as u32, (len2 * 4) as u32] + self.spec_values() + seq![0u32]
    }

    /// Writes `val` at `index`, reporting the next free index; a write
    /// past the end fails and changes nothing.
    pub fn _push(slice: &mut Vec<u32>, index: usize, val: u32) -> (r: Result<usize, ()>)
        ensures
            if index < old(slice)@.len() {
                &&& r == Ok::<usize, ()>((index + 1) as usize)
                &&& final(slice)@ == old(slice)@.update(index as int, val)
            } else {
                r is Err && final(slice)@ == old(slice)@
            },
    {
        if index < slice.len() {
            slice.set(index, val);
            Ok(index + 1)
        } else {
            Err(())
        }
    }

    /// Writes a run of words starting at `index`; on failure the words
    /// that fit have already been written, exactly as the one-word
    /// writes left them.
    pub fn _push_slice(slice: &mut Vec<u32>, index: usize, data: &[u32]) -> (r: Result<usize, ()>)
        ensures
            final(slice)@.len() == old(slice)@.len(),
            if data@.len() == 0 || index + data@.len() <= old(slice)@.len() {
                &&& r == Ok::<usize, ()>((index + data@.len()) as usize)
                &&& forall|i: int|
                    0 <= i < old(slice)@.len() ==> final(slice)@[i] == (if index <= i < index
                        + data@.len() {
                        data@[i - index]
                    } else {
                        old(slice)@[i]
                    })
            } else {
                &&& r is Err
                &&& forall|i: int|
                    0 <= i < old(slice)@.len() ==> final(slice)@[i] == (if index <= i {
                        data@[i - index]
                    } else {
                        old(slice)@[i]
                    })
            },
    {
        let sl = slice.len();
        let ghost s0 = slice@;
        let mut k: usize = 0;
        let n = data.len();
        let mut cur = index;
        let ghost index0 = index as int;
        while k < n
            invariant
                old(slice)@ == s0,
                index0 == index,
                n == data@.len(),
                s0.len() == sl,
                0 <= k <= n,
                cur == index0 + k,
                slice@.len() == s0.len(),
                k > 0 ==> index0 + k <= s0.len(),
                forall|i: int|
                    0 <= i < s0.len() ==> #[trigger] slice@[i] == (if index0 <= i < index0 + k {
                        data@[i - index0]
                    } else {
                        s0[i]
                    }),
            decreases n - k,
        {
            let w = *vstd::slice::slice_index_get(data, k);
            match Self::_push(slice, cur, w) {
                Ok(next) => {
                    cur = next;
                },
                Err(_) => {
                    proof {
                        assert(s0.len() <= index0 + k);
                        assert forall|i: int| 0 <= i < s0.len() implies #[trigger] slice@[i] == (
                        if index0 <= i {
                            data@[i - index0]
                        } else {
                            s0[i]
                        }) by {
                            assert(slice@[i] == (if index0 <= i < index0 + k {
                                data@[i - index0]
                            } else {
                                s0[i]
                            }));
                        }
                    }
                    return Err(());
                },
            }
            k = k + 1;
        }
        Ok(cur)
    }

    /// Appends this tag to a message buffer: reads the running byte
    /// length from word zero, writes the tag header, the value words
    /// and a new terminator after the existing content, and updates
    /// the byte length.  Fails, leaving the buffer unchanged, when the
    /// tag does not fit.
    pub fn append_to(&self, slice: &mut Vec<u32>) -> (r: Result<usize, ()>)
        requires
            1 <= old(slice)@.len() <= 0x1000_0000,
            old(slice)@[0] >= 4,
            old(slice)@[0] % 4 == 0,
        ensures
            ({
                let len0 = old(slice)@[0] / 4 - 1;
                let written = self.spec_words();
                if len0 + written.len() <= old(slice)@.len() {
                    &&& r == Ok::<usize, ()>((len0 + 3) as usize)
                    &&& final(slice)@.len() == old(slice)@.len()
                    &&& final(slice)@[0] == (len0 + written.len()) * 4
                    &&& forall|i: int|
                        len0 <= i < len0 + written.len() && 0 < i ==> final(slice)@[i]
                            == written[i - len0]
                    &&& forall|i: int|
                        0 < i < len0 || len0 + written.len() <= i < old(slice)@.len()
                            ==> final(slice)@[i] == old(slice)@[i]
                } else {
                    r is Err && final(slice)@ == old(slice)@
                }
            }),
    {
        let ghost s0 = slice@;
        let (raw, len1, len2) = self.info();
        let w0 = slice[0];
        let len0 = (w0 / 4 - 1) as usize;
        let ghost written = self.spec_words();
        let tag_words = (len1 as usize) + 4;
        if len0 > slice.len() || tag_words > slice.len() - len0 {
            return Err(());
        }
        let new_len = len0 + tag_words;
        proof {
            assert(written.len() == len1 + 4);
        }
        let index = len0;
        let index = match Self::_push(slice, index, raw.as_u32()) {
            Ok(i) => i,
            Err(_) => {
                return Err(());
            },
        };
        let index = match Self::_push(slice, index, len1 * 4) {
            Ok(i) => i,
            Err(_) => {
                return Err(());
            },
        };
        let index = match Self::_push(slice, index, len2 * 4) {
            Ok(i) => i,
            Err(_) => {
                return Err(());
            },
        };
        let result = index;
        let index = match *self {
            Tag::SET_CLKRATE(x, y, z) => {
                let vals = [x.as_u32(), y, z];
                proof {
                    assert(vals@ =~= self.spec_values());
                }
                match Self::_push_slice(slice, index, vals.as_slice()) {
                    Ok(i) => i,
                    Err(_) => {
                        return Err(());
                    },
                }
            },
            Tag::SET_PHYWH(x, y) => {
                let vals = [x, y];
                proof {
                    assert(vals@ =~= self.spec_values());
                }
                match Self::_push_slice(slice, index, vals.as_slice()) {
                    Ok(i) => i,
                    Err(_) => {
                        return Err(());
                    },
                }
            },
            Tag::SET_VIRTWH(x, y) => {
                let vals = [x, y];
                proof {
                    assert(vals@ =~= self.spec_values());
                }
                match Self::_push_slice(slice, index, vals.as_slice()) {
                    Ok(i) => i,
                    Err(_) => {
                        return Err(());
                    },
                }
            },
            Tag::SET_VIRTOFF(x, y) => {
                let vals = [x, y];
                proof {
                    assert(vals@ =~= self.spec_values());
                }
                match Self::_push_slice(slice, index, vals.as_slice()) {
                    Ok(i) => i,
                    Err(_) => {
                        return Err(());
                    },
                }
            },
            Tag::SET_DEPTH(x) => {
                match Self::_push(slice, index, x) {
                    Ok(i) => i,
                    Err(_) => {
                        return Err(());
                    },
                }
            },
            Tag::SET_PXLORDR(x) => {
                match Self::_push(slice, index, x) {
                    Ok(i) => i,
                    Err(_) => {
                        return Err(());
                    },
                }
            },
            Tag::GET_FB(x, y) => {
                let vals = [x, y];
                proof {
                    assert(vals@ =~= self.spec_values());
                }
                match Self::_push_slice(slice, index, vals.as_slice()) {
                    Ok(i) => i,
                    Err(_) => {
                        return Err(());
                    },
                }
            },
            Tag::GET_PITCH => {
                match Self::_push(slice, index, 0) {
                    Ok(i) => i,
                    Err(_) => {
                        return Err(());
                    },
                }
            },
        };
        let index = match Self::_push(slice, index, 0) {
            Ok(i) => i,
            Err(_) => {
                return Err(());
            },
        };
        slice.set(0, (index as u32) * 4);
        proof {
            assert forall|i: int|
                len0 <= i < len0 + written.len() && 0 < i implies slice@[i] == written[i - len0] by {
            }
        }
        Ok(result)
    }
}

/// The mailbox's MMIO registers, as offsets from its base; the reads
/// and writes through them belong to the hardware layer.
#[allow(non_camel_case_types)]
#[derive(Debug, Clone, Copy, PartialEq, Eq, Structural)]
pub enum Regs {
    READ,
    POLL,
    SENDER,
    STATUS,
    CONFIG,
    WRITE,
}

impl Regs {
    pub open spec fn spec_offset(self) -> u64 {
        match self {
            Regs::READ => 0x00,
            Regs::POLL => 0x10,
            Regs::SENDER => 0x14,
            Regs::STATUS => 0x18,
            Regs::CONFIG => 0x1C,
            Regs::WRITE => 0x20,
        }
    }

    pub fn offset(self) -> (r: u64)
        ensures
            r == self.spec_offset(),
    {
        match self {
            Regs::READ => 0x00,
            Regs::POLL => 0x10,
            Regs::SENDER => 0x14,
            Regs::STATUS => 0x18,
            Regs::CONFIG => 0x1C,
            Regs::WRITE => 0x20,
        }
    }

    /// Where the mailbox register block sits inside the MMIO window.
    pub fn base_addr(mmio_base: u64) -> (r: u64)
        requires
            mmio_base + 0xB880 <= u64::MAX,
        ensures
            r == mmio_base + 0xB880,
    {
        mmio_base + 0xB880
    }

    /// The absolute address of this register.
    pub fn addr(self, mmio_base: u64) -> (r: u64)
        requires
            mmio_base + 0xB880 + 0x20 <= u64::MAX,
        ensures
            r == mmio_base + 0xB880 + self.spec_offset(),
    {
        Self::base_addr(mmio_base) + self.offset()
    }
}

} // verus!
