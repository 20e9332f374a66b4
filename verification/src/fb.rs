//! Framebuffer negotiation.
//!
//! The framebuffer comes from the firmware through one property
//! message: physical and virtual extents, depth and pixel order are
//! set, and the buffer address and pitch are asked back.  Building
//! that message and decoding the answer are verified here; ringing
//! the mailbox between the two is the hardware layer's single step.

use crate::mbox::{Mbox, MboxContext, Tag};
use vstd::prelude::*;

verus! {

pub struct Fb;

impl Fb {
    /// Builds the framebuffer-init message for a `width` x `height`
    /// screen.  Returns the message and the word indexes where the
    /// firmware's answers will sit: virtual extent, buffer address,
    /// and pitch.
    pub fn build_init_request(width: u32, height: u32) -> (r: Option<
        (MboxContext, usize, usize, usize),
    >)
        ensures
            r is Some,
            r matches Some(p) ==> p.0.wf() && p.0.words().len() == 36 && p.1 == 10 && p.2 == 28
                && p.3 == 33 && p.0.words()[10] == width && p.0.words()[11] == height,
    {
        let mut mbox = match Mbox::PROP.mbox(36) {
            Some(m) => m,
            None => {
                return None;
            },
        };
        if mbox.append(Tag::SET_PHYWH(width, height)).is_err() {
            return None;
        }
        let index_vwh = match mbox.append(Tag::SET_VIRTWH(width, height)) {
            Ok(i) => i,
            Err(_) => {
                return None;
            },
        };
        if mbox.append(Tag::SET_VIRTOFF(0, 0)).is_err() {
            return None;
        }
        if mbox.append(Tag::SET_DEPTH(32)).is_err() {
            return None;
        }
        if mbox.append(Tag::SET_PXLORDR(0)).is_err() {
            return None;
        }
        let index_fb = match mbox.append(Tag::GET_FB(4096, 0)) {
            Ok(i) => i,
            Err(_) => {
                return None;
            },
        };
        let index_pitch = match mbox.append(Tag::GET_PITCH) {
            Ok(i) => i,
            Err(_) => {
                return None;
            },
        };
        Some((mbox, index_vwh, index_fb, index_pitch))
    }

    /// Decodes the firmware's framebuffer answer out of a completed
    /// message: the bus address is masked down to its physical alias,
    /// and the pitch in bytes becomes a stride in pixels.
    pub fn parse_init_response(
        mbox: &MboxContext,
        index_vwh: usize,
        index_fb: usize,
        index_pitch: usize,
    ) -> (r: (u32, u32, u32, u32))
        requires
            index_vwh + 1 < mbox.words().len(),
            index_fb < mbox.words().len(),
            index_pitch < mbox.words().len(),
        ensures
            r.0 == mbox.words()[index_fb as int] & 0x3FFF_FFFF,
            r.1 == mbox.words()[index_vwh as int],
            r.2 == mbox.words()[index_vwh as int + 1],
            r.3 == mbox.words()[index_pitch as int] / 4,
    {
        let words = mbox.slice();
        let n = words.len();
        let ptr = words[index_fb] & 0x3FFF_FFFF;
        let w = words[index_vwh];
        let h = words[index_vwh + 1];
        let stride = words[index_pitch] / 4;
        (ptr, w, h, stride)
    }

    /// Builds the one-tag message that asks where the framebuffer
    /// lives, returning the message and the answer's word index.
    pub fn build_get_fb_request() -> (r: Option<(MboxContext, usize)>)
        ensures
            r is Some,
            r matches Some(p) ==> p.0.wf() && p.0.words().len() == 36 && p.1 == 5,
    {
        let mut mbox = match Mbox::PROP.mbox(36) {
            Some(m) => m,
            None => {
                return None;
            },
        };
        let index_fb = match mbox.append(Tag::GET_FB(0, 0)) {
            Ok(i) => i,
            Err(_) => {
                return None;
            },
        };
        Some((mbox, index_fb))
    }

    /// Decodes the framebuffer address and size out of a completed
    /// `get` message.
    pub fn parse_get_fb_response(mbox: &MboxContext, index_fb: usize) -> (r: (u32, u32))
        requires
            index_fb + 1 < mbox.words().len(),
        ensures
            r.0 == mbox.words()[index_fb as int] & 0x3FFF_FFFF,
            r.1 == mbox.words()[index_fb as int + 1],
    {
        let words = mbox.slice();
        let n = words.len();
        (words[index_fb] & 0x3FFF_FFFF, words[index_fb + 1])
    }
}

} // verus!
