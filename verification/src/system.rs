//! Kernel-wide identity and the boot-time singleton state.
//!
//! The kernel keeps one `System` for its whole life, built during
//! boot and never torn down.  The unsafe layer owns that instance;
//! everything it stores and answers is verified here.

use crate::dt::{spec_find_root_prop, DeviceTree};
use vstd::prelude::*;
use vstd::string::StringSliceAdditionalSpecFns;

verus! {

/// A packed version number with a release suffix.
#[derive(Debug, Clone, Copy, PartialEq, Eq)]
pub struct Version<'a> {
    versions: u32,
    rel: &'a str,
}

impl<'a> Version<'a> {
    pub closed spec fn spec_versions(self) -> u32 {
        self.versions
    }

    pub closed spec fn spec_rel(self) -> Seq<char> {
        self.rel@
    }

    /// Major, minor and patch numbers packed into one word.
    pub fn new(maj: u8, min: u8, patch: u16, rel: &'a str) -> (r: Version<'a>)
        ensures
            r.spec_versions() == maj * 0x100_0000 + min * 0x1_0000 + patch,
            r.spec_rel() == rel@,
    {
        proof {
            let m = maj;
            let n = min;
            let p = patch;
            assert(((m as u32) << 24 | (n as u32) << 16 | (p as u32)) == m * 0x100_0000 + n
                * 0x1_0000 + p) by (bit_vector);
        }
        let versions = ((maj as u32) << 24u32) | ((min as u32) << 16u32) | (patch as u32);
        Version { versions, rel }
    }

    pub fn as_u32(&self) -> (r: u32)
        ensures
            r == self.spec_versions(),
    {
        self.versions
    }

    /// The major number back out of the packed word.
    pub fn maj(&self) -> (r: usize)
        ensures
            r == (self.spec_versions() / 0x100_0000) % 0x100,
    {
        proof {
            let v = self.versions;
            assert(((v >> 24) & 0xFF) == (v / 0x100_0000) % 0x100) by (bit_vector);
        }
        ((self.versions >> 24u32) & 0xFF) as usize
    }

    /// The minor number back out of the packed word.
    pub fn min(&self) -> (r: usize)
        ensures
            r == (self.spec_versions() / 0x1_0000) % 0x100,
    {
        proof {
            let v = self.versions;
            assert(((v >> 16) & 0xFF) == (v / 0x1_0000) % 0x100) by (bit_vector);
        }
        ((self.versions >> 16u32) & 0xFF) as usize
    }

    /// The patch number back out of the packed word.
    pub fn patch(&self) -> (r: usize)
        ensures
            r == self.spec_versions() % 0x1_0000,
    {
        proof {
            let v = self.versions;
            assert((v & 0xFFFF) == v % 0x1_0000) by (bit_vector);
        }
        (self.versions & 0xFFFF) as usize
    }

    /// The release suffix.
    pub fn rel(&self) -> (r: &str)
        ensures
            r@ == self.spec_rel(),
    {
        self.rel
    }
}

/// The kernel-wide system state: what boot discovered and keeps.
pub struct System {
    device_tree: Option<DeviceTree>,
}

impl System {
    /// A system that has not yet seen its device tree.
    pub fn new() -> (r: Self)
        ensures
            r.spec_device_tree() is None,
    {
        System { device_tree: None }
    }

    pub closed spec fn spec_device_tree(self) -> Option<DeviceTree> {
        self.device_tree
    }

    /// Name of the current system.
    pub fn name() -> (r: &'static str)
        ensures
            r@ == ("rydia")@,
    {
        "rydia"
    }

    /// Codename of the current system.
    pub fn codename() -> (r: &'static str)
        ensures
            r@ == ("RYDIA")@,
    {
        "RYDIA"
    }

    /// Abbreviated name of the current system.
    pub fn short_name() -> (r: &'static str)
        ensures
            r@ == ("rydia")@,
    {
        "rydia"
    }

    /// Version of the current system.
    pub fn version() -> (r: Version<'static>)
        ensures
            r.spec_versions() == 0x0000_0001,
            r.spec_rel() == ("")@,
    {
        Version::new(0, 0, 1, "")
    }

    /// Boot hands the parsed device tree over once.
    pub fn attach_device_tree(&mut self, dt: DeviceTree)
        requires
            dt.wf(),
        ensures
            final(self).spec_device_tree() == Some(dt),
    {
        self.device_tree = Some(dt);
    }

    /// The device tree boot found, if any.
    pub fn device_tree(&self) -> (r: Option<&DeviceTree>)
        ensures
            match self.spec_device_tree() {
                Some(dt) => r matches Some(p) && *p == dt,
                None => r is None,
            },
    {
        self.device_tree.as_ref()
    }

    /// Whether the stored device tree is well formed; holds for every
    /// tree that `attach_device_tree` accepts.
    pub open spec fn dt_wf(self) -> bool {
        self.spec_device_tree() matches Some(dt) ==> dt.wf()
    }

    /// The board model the firmware reported, read from the device
    /// tree's root `model` property.
    pub fn model_name<'a>(&'a self) -> (r: Option<&'a str>)
        requires
            self.dt_wf(),
        ensures
            self.spec_device_tree() is None ==> r is None,
            (self.spec_device_tree() matches Some(dt) ==> match spec_find_root_prop(
                dt.spec_tokens(),
                dt.blob(),
                ("model").spec_bytes(),
            ) {
                Some((o, l)) => {
                    if l > 1 && o + l <= dt.blob().len() && vstd::utf8::valid_utf8(
                        dt.blob().subrange(o, o + l - 1),
                    ) {
                        r matches Some(s) && s.spec_bytes() == dt.blob().subrange(o, o + l - 1)
                    } else {
                        r is None
                    }
                },
                None => r is None,
            }),
    {
        match &self.device_tree {
            Some(dt) => dt.root_model(),
            None => None,
        }
    }
}

} // verus!
