//! Translation-table bootstrap.
//!
//! The whole detected physical address space is mapped identically at
//! 2 MiB block granularity, differentiated only by memory-attribute
//! class: a second-level table holds one block descriptor per 2 MiB of
//! physical space, and a first-level table holds one "next level"
//! descriptor per 4 KiB chunk of the second-level table.  The tables
//! are built once, single-threaded, before any secondary core runs;
//! each core then programs its own translation registers from the
//! same read-only structure.
//!
//! This module computes the tables and register values exactly; the
//! unsafe layer copies the words to their physical homes and issues
//! the register writes and barriers.

use crate::mm::MemoryManager;
use crate::pa::{spec_round_up, PhysicalAddress};
use vstd::prelude::*;

verus! {

/// Index into the memory-attribute indirection register: which class
/// of memory a mapping is.
#[derive(Debug, Clone, Copy, PartialEq, Eq, Structural)]
pub enum AttributeIndex {
    /// Normal cacheable RAM.
    Normal,
    /// Normal non-cacheable.
    NoCache,
    /// Device MMIO.
    Device,
    /// Framebuffer memory.
    Vram,
}

impl AttributeIndex {
    pub open spec fn spec_value(self) -> u64 {
        match self {
            AttributeIndex::Normal => 0,
            AttributeIndex::NoCache => 1,
            AttributeIndex::Device => 2,
            AttributeIndex::Vram => 3,
        }
    }

    pub fn value(self) -> (r: u64)
        ensures
            r == self.spec_value(),
    {
        match self {
            AttributeIndex::Normal => 0,
            AttributeIndex::NoCache => 1,
            AttributeIndex::Device => 2,
            AttributeIndex::Vram => 3,
        }
    }
}

/// Shareability domain of a mapping.
#[derive(Debug, Clone, Copy, PartialEq, Eq, Structural)]
pub enum Shareable {
    Outer,
    Inner,
}

impl Shareable {
    pub open spec fn spec_value(self) -> u64 {
        match self {
            Shareable::Outer => 2,
            Shareable::Inner => 3,
        }
    }

    pub fn value(self) -> (r: u64)
        ensures
            r == self.spec_value(),
    {
        match self {
            Shareable::Outer => 2,
            Shareable::Inner => 3,
        }
    }
}

/// Cacheability of a translation-table walk.
#[derive(Debug, Clone, Copy, PartialEq, Eq, Structural)]
pub enum Cacheable {
    WriteBack,
    WriteThru,
    WriteBackNoCache,
}

impl Cacheable {
    pub open spec fn spec_value(self) -> u64 {
        match self {
            Cacheable::WriteBack => 1,
            Cacheable::WriteThru => 2,
            Cacheable::WriteBackNoCache => 3,
        }
    }

    pub fn value(self) -> (r: u64)
        ensures
            r == self.spec_value(),
    {
        match self {
            Cacheable::WriteBack => 1,
            Cacheable::WriteThru => 2,
            Cacheable::WriteBackNoCache => 3,
        }
    }
}

/// Granule size for the lower address range.
#[derive(Debug, Clone, Copy, PartialEq, Eq, Structural)]
#[allow(non_camel_case_types)]
pub enum TcrGranule0 {
    _4KB,
    _64KB,
    _16KB,
}

impl TcrGranule0 {
    pub open spec fn spec_value(self) -> u64 {
        match self {
            TcrGranule0::_4KB => 0,
            TcrGranule0::_64KB => 1,
            TcrGranule0::_16KB => 2,
        }
    }

    pub fn value(self) -> (r: u64)
        ensures
            r == self.spec_value(),
    {
        match self {
            TcrGranule0::_4KB => 0,
            TcrGranule0::_64KB => 1,
            TcrGranule0::_16KB => 2,
        }
    }
}

/// Granule size for the upper address range.
#[derive(Debug, Clone, Copy, PartialEq, Eq, Structural)]
#[allow(non_camel_case_types)]
pub enum TcrGranule1 {
    _16KB,
    _4KB,
    _64KB,
}

impl TcrGranule1 {
    pub open spec fn spec_value(self) -> u64 {
        match self {
            TcrGranule1::_16KB => 1,
            TcrGranule1::_4KB => 2,
            TcrGranule1::_64KB => 3,
        }
    }

    pub fn value(self) -> (r: u64)
        ensures
            r == self.spec_value(),
    {
        match self {
            TcrGranule1::_16KB => 1,
            TcrGranule1::_4KB => 2,
            TcrGranule1::_64KB => 3,
        }
    }
}

/// Intermediate physical address size.
#[derive(Debug, Clone, Copy, PartialEq, Eq, Structural)]
#[allow(non_camel_case_types)]
pub enum TcrIps {
    /// 32 bits, 4 GB
    _32bit,
    /// 36 bits, 64 GB
    _36bit,
    /// 40 bits, 1 TB
    _40bit,
    /// 42 bits, 4 TB
    _42bit,
    /// 44 bits, 16 TB
    _44bit,
    /// 48 bits, 256 TB
    _48bit,
    /// 52 bits, 4 PB
    _52bit,
}

impl TcrIps {
    pub open spec fn spec_value(self) -> u64 {
        match self {
            TcrIps::_32bit => 0,
            TcrIps::_36bit => 1,
            TcrIps::_40bit => 2,
            TcrIps::_42bit => 3,
            TcrIps::_44bit => 4,
            TcrIps::_48bit => 5,
            TcrIps::_52bit => 6,
        }
    }

    pub fn value(self) -> (r: u64)
        ensures
            r == self.spec_value(),
    {
        match self {
            TcrIps::_32bit => 0,
            TcrIps::_36bit => 1,
            TcrIps::_40bit => 2,
            TcrIps::_42bit => 3,
            TcrIps::_44bit => 4,
            TcrIps::_48bit => 5,
            TcrIps::_52bit => 6,
        }
    }
}

/// Attribute bits of a translation-table descriptor, below the output
/// address field.
#[derive(Debug, Clone, Copy, PartialEq, Eq, Structural)]
pub struct PageAttributes(u64);

impl PageAttributes {
    /// Descriptor points to a next-level table.
    pub const TABLE: u64 = 0x2;

    /// Access flag: the mapping has been "accessed" from the start, so
    /// no access-flag fault is ever taken.
    pub const AF: u64 = 0x400;

    pub closed spec fn spec_bits(self) -> u64 {
        self.0
    }

    /// Attributes of a block mapping: access flag, shareability and
    /// attribute index.  All of it sits below the output-address field.
    pub fn block(sh: Option<Shareable>, attr_index: AttributeIndex) -> (r: Self)
        ensures
            r.spec_bits() == (0x400u64 | ((match sh {
                Some(v) => v.spec_value(),
                None => 0,
            }) << 8) | (attr_index.spec_value() << 2)),
            r.spec_bits() < 0x1000,
    {
        let sh_val: u64 = match sh {
            Some(v) => v.value(),
            None => 0,
        };
        let idx = attr_index.value();
        proof {
            let s = sh_val;
            let x = idx;
            assert(s <= 3 && x <= 3 ==> (0x400u64 | (s << 8) | (x << 2)) < 0x1000)
                by (bit_vector);
        }
        PageAttributes(0x400u64 | (sh_val << 8) | (idx << 2))
    }

    /// Attributes of a "points to next-level table" descriptor.
    pub fn table() -> (r: Self)
        ensures
            r.spec_bits() == 2,
            r.spec_bits() < 0x1000,
    {
        PageAttributes(Self::TABLE)
    }

    pub fn bits(&self) -> (r: u64)
        ensures
            r == self.spec_bits(),
    {
        self.0
    }
}

/// A 64-bit hardware translation-table descriptor: output address,
/// attribute bits, validity bit.
#[derive(Debug, Clone, Copy, PartialEq, Eq, Structural)]
pub struct TranslationTableDescriptor(u64);

/// The word a descriptor is built from: the 48-bit page-aligned output
/// address, the attribute bits, and the validity bit.
pub open spec fn spec_descriptor(oa: u64, attr: u64) -> u64 {
    (oa & 0xFFFF_FFFF_F000) | attr | 1
}

impl TranslationTableDescriptor {
    /// Mask of the 48-bit output address field.
    pub const OA48_MASK: u64 = 0xFFFF_FFFF_F000;

    pub closed spec fn spec_bits(self) -> u64 {
        self.0
    }

    pub open spec fn spec_is_valid(self) -> bool {
        self.spec_bits() & 1 == 1
    }

    /// An invalid (empty) descriptor: any access through it faults.
    pub fn empty() -> (r: Self)
        ensures
            r.spec_bits() == 0,
            !r.spec_is_valid(),
    {
        proof {
            assert(0u64 & 1 == 0) by (bit_vector);
        }
        TranslationTableDescriptor(0)
    }

    /// A valid descriptor mapping to `oa` with the given attributes.
    pub fn new(oa: PhysicalAddress, attr: PageAttributes) -> (r: Self)
        ensures
            r.spec_bits() == spec_descriptor(oa.spec_u64(), attr.spec_bits()),
            r.spec_is_valid(),
    {
        let v = (oa.as_u64() & Self::OA48_MASK) | attr.bits() | 1;
        proof {
            let w = v;
            assert(w | 1 == w ==> w & 1 == 1) by (bit_vector);
            let o = oa.spec_u64();
            let a = attr.spec_bits();
            assert(((o & 0xFFFF_FFFF_F000) | a | 1) & 1 == 1) by (bit_vector);
        }
        TranslationTableDescriptor(v)
    }

    pub fn is_valid(&self) -> (r: bool)
        ensures
            r == self.spec_is_valid(),
    {
        proof {
            let w = self.0;
            assert(((w & 1) == 1) == (w & 1 == 1)) by (bit_vector);
        }
        (self.0 & 1) == 1
    }

    /// The output address field of the descriptor.
    pub fn oa48(&self) -> (r: PhysicalAddress)
        ensures
            r.spec_u64() == self.spec_bits() & 0xFFFF_FFFF_F000,
    {
        PhysicalAddress::new(self.0 & Self::OA48_MASK)
    }

    pub fn bits(&self) -> (r: u64)
        ensures
            r == self.spec_bits(),
    {
        self.0
    }
}

/// Replacing one bit field of a register value.
pub open spec fn spec_with_field(bits: u64, mask: u64, val: u64, shift: u64) -> u64 {
    (bits & !mask) | (val << shift)
}

/// All eleven fields of the translation-control register applied in
/// the order `config` sets them.
pub open spec fn spec_tcr_config(
    bits: u64,
    ips: TcrIps,
    t0sz: u64,
    tg0: TcrGranule0,
    sh0: Shareable,
    irgn0: Cacheable,
    orgn0: Cacheable,
    t1sz: u64,
    tg1: TcrGranule1,
    sh1: Shareable,
    irgn1: Cacheable,
    orgn1: Cacheable,
) -> u64 {
    let b = spec_with_field(bits, 0x7_0000_0000, ips.spec_value(), 32);
    let b = spec_with_field(b, 0x3F, t0sz, 0);
    let b = spec_with_field(b, 0xC000, tg0.spec_value(), 14);
    let b = spec_with_field(b, 0x3000, sh0.spec_value(), 12);
    let b = spec_with_field(b, 0x300, irgn0.spec_value(), 8);
    let b = spec_with_field(b, 0xC00, orgn0.spec_value(), 10);
    let b = spec_with_field(b, 0x3F_0000, t1sz, 16);
    let b = spec_with_field(b, 0xC000_0000, tg1.spec_value(), 30);
    let b = spec_with_field(b, 0x3000_0000, sh1.spec_value(), 28);
    let b = spec_with_field(b, 0x300_0000, irgn1.spec_value(), 24);
    spec_with_field(b, 0xC00_0000, orgn1.spec_value(), 26)
}

/// The translation-control register, assembled field by field.
#[derive(Debug, Clone, Copy, PartialEq, Eq, Structural)]
pub struct TranslationControlRegister(u64);

impl TranslationControlRegister {
    pub const T0SZ_MASK: u64 = 0x3F;

    pub const IRGN0_MASK: u64 = 0x300;

    pub const ORGN0_MASK: u64 = 0xC00;

    pub const SH0_MASK: u64 = 0x3000;

    pub const TG0_MASK: u64 = 0xC000;

    pub const T1SZ_MASK: u64 = 0x3F_0000;

    pub const IRGN1_MASK: u64 = 0x300_0000;

    pub const ORGN1_MASK: u64 = 0xC00_0000;

    pub const SH1_MASK: u64 = 0x3000_0000;

    pub const TG1_MASK: u64 = 0xC000_0000;

    pub const IPS_MASK: u64 = 0x7_0000_0000;

    pub closed spec fn spec_bits(self) -> u64 {
        self.0
    }

    /// A register with every field zero.
    pub fn empty() -> (r: Self)
        ensures
            r.spec_bits() == 0,
    {
        TranslationControlRegister(0)
    }

    pub fn bits(&self) -> (r: u64)
        ensures
            r == self.spec_bits(),
    {
        self.0
    }

    pub fn tg0(&self, val: TcrGranule0) -> (r: Self)
        ensures
            r.spec_bits() == spec_with_field(self.spec_bits(), 0xC000, val.spec_value(), 14),
    {
        TranslationControlRegister((self.0 & !Self::TG0_MASK) | (val.value() << 14u64))
    }

    pub fn sh0(&self, val: Shareable) -> (r: Self)
        ensures
            r.spec_bits() == spec_with_field(self.spec_bits(), 0x3000, val.spec_value(), 12),
    {
        TranslationControlRegister((self.0 & !Self::SH0_MASK) | (val.value() << 12u64))
    }

    pub fn orgn0(&self, val: Cacheable) -> (r: Self)
        ensures
            r.spec_bits() == spec_with_field(self.spec_bits(), 0xC00, val.spec_value(), 10),
    {
        TranslationControlRegister((self.0 & !Self::ORGN0_MASK) | (val.value() << 10u64))
    }

    pub fn irgn0(&self, val: Cacheable) -> (r: Self)
        ensures
            r.spec_bits() == spec_with_field(self.spec_bits(), 0x300, val.spec_value(), 8),
    {
        TranslationControlRegister((self.0 & !Self::IRGN0_MASK) | (val.value() << 8u64))
    }

    pub fn t0sz(&self, val: u64) -> (r: Self)
        requires
            val < 0x40,
        ensures
            r.spec_bits() == spec_with_field(self.spec_bits(), 0x3F, val, 0),
    {
        proof {
            let v = val;
            assert(v << 0u64 == v) by (bit_vector);
        }
        TranslationControlRegister((self.0 & !Self::T0SZ_MASK) | val)
    }

    pub fn tg1(&self, val: TcrGranule1) -> (r: Self)
        ensures
            r.spec_bits() == spec_with_field(self.spec_bits(), 0xC000_0000, val.spec_value(), 30),
    {
        TranslationControlRegister((self.0 & !Self::TG1_MASK) | (val.value() << 30u64))
    }

    pub fn sh1(&self, val: Shareable) -> (r: Self)
        ensures
            r.spec_bits() == spec_with_field(self.spec_bits(), 0x3000_0000, val.spec_value(), 28),
    {
        TranslationControlRegister((self.0 & !Self::SH1_MASK) | (val.value() << 28u64))
    }

    pub fn orgn1(&self, val: Cacheable) -> (r: Self)
        ensures
            r.spec_bits() == spec_with_field(self.spec_bits(), 0xC00_0000, val.spec_value(), 26),
    {
        TranslationControlRegister((self.0 & !Self::ORGN1_MASK) | (val.value() << 26u64))
    }

    pub fn irgn1(&self, val: Cacheable) -> (r: Self)
        ensures
            r.spec_bits() == spec_with_field(self.spec_bits(), 0x300_0000, val.spec_value(), 24),
    {
        TranslationControlRegister((self.0 & !Self::IRGN1_MASK) | (val.value() << 24u64))
    }

    pub fn t1sz(&self, val: u64) -> (r: Self)
        requires
            val < 0x40,
        ensures
            r.spec_bits() == spec_with_field(self.spec_bits(), 0x3F_0000, val, 16),
    {
        TranslationControlRegister((self.0 & !Self::T1SZ_MASK) | (val << 16u64))
    }

    pub fn ips(&self, val: TcrIps) -> (r: Self)
        ensures
            r.spec_bits() == spec_with_field(self.spec_bits(), 0x7_0000_0000, val.spec_value(), 32),
    {
        TranslationControlRegister((self.0 & !Self::IPS_MASK) | (val.value() << 32u64))
    }

    /// Every field set in one pass, lower and upper address ranges
    /// alike.
    pub fn config(
        &self,
        ips: TcrIps,
        t0sz: u64,
        tg0: TcrGranule0,
        sh0: Shareable,
        irgn0: Cacheable,
        orgn0: Cacheable,
        t1sz: u64,
        tg1: TcrGranule1,
        sh1: Shareable,
        irgn1: Cacheable,
        orgn1: Cacheable,
    ) -> (r: Self)
        requires
            t0sz < 0x40,
            t1sz < 0x40,
        ensures
            r.spec_bits() == spec_tcr_config(
                self.spec_bits(),
                ips,
                t0sz,
                tg0,
                sh0,
                irgn0,
                orgn0,
                t1sz,
                tg1,
                sh1,
                irgn1,
                orgn1,
            ),
    {
        self.ips(ips).t0sz(t0sz).tg0(tg0).sh0(sh0).irgn0(irgn0).orgn0(orgn0).t1sz(t1sz).tg1(
            tg1,
        ).sh1(sh1).irgn1(irgn1).orgn1(orgn1)
    }

    /// The fixed boot configuration: 64 GB intermediate physical
    /// space, 39-bit virtual ranges, 4 KB granules, inner-shareable
    /// write-through walks on both ranges.
    pub fn boot_value() -> (r: Self)
        ensures
            r.spec_bits() == 0x1_BA19_3A19,
    {
        let r = Self::empty().config(
            TcrIps::_36bit,
            25,
            TcrGranule0::_4KB,
            Shareable::Inner,
            Cacheable::WriteThru,
            Cacheable::WriteThru,
            25,
            TcrGranule1::_4KB,
            Shareable::Inner,
            Cacheable::WriteThru,
            Cacheable::WriteThru,
        );
        proof {
            assert(spec_tcr_config(
                0u64,
                TcrIps::_36bit,
                25,
                TcrGranule0::_4KB,
                Shareable::Inner,
                Cacheable::WriteThru,
                Cacheable::WriteThru,
                25,
                TcrGranule1::_4KB,
                Shareable::Inner,
                Cacheable::WriteThru,
                Cacheable::WriteThru,
            ) == 0x1_BA19_3A19u64) by (bit_vector);
        }
        r
    }
}

impl Default for TranslationControlRegister {
    /// The boot configuration is the default register value.
    fn default() -> (r: Self)
        ensures
            r.spec_bits() == 0x1_BA19_3A19,
    {
        Self::boot_value()
    }
}

/// The memory-attribute indirection register: four attribute entries —
/// normal write-back, normal non-cacheable, device nGnRnE, and the
/// framebuffer's write-through class — packed one byte each.
#[derive(Debug, Clone, Copy, PartialEq, Eq, Structural)]
pub struct MemmoryAttributeIndirectionRegister(u64);

impl MemmoryAttributeIndirectionRegister {
    pub closed spec fn spec_bits(self) -> u64 {
        self.0
    }

    pub fn bits(&self) -> (r: u64)
        ensures
            r == self.spec_bits(),
    {
        self.0
    }

    /// The fixed boot value.
    pub fn boot_value() -> (r: Self)
        ensures
            r.spec_bits() == 0x4e_00_44_ff,
    {
        MemmoryAttributeIndirectionRegister(0x4e_00_44_ff)
    }
}

impl Default for MemmoryAttributeIndirectionRegister {
    fn default() -> (r: Self)
        ensures
            r.spec_bits() == 0x4e_00_44_ff,
    {
        Self::boot_value()
    }
}

/// Block indices a range occupies: from the 2 MiB block holding its
/// first byte up to the block past its last.
pub open spec fn in_block_range(r: (PhysicalAddress, u64), i: int) -> bool {
    r.1 > 0 && r.0.spec_u64() / 0x20_0000 <= i < (r.0.spec_u64() + r.1 + 0x1F_FFFF) / 0x20_0000
}

/// Whether one of the first `n` ranges occupies block `i`.
pub open spec fn blocks_covered_upto(rs: Seq<(PhysicalAddress, u64)>, n: int, i: int) -> bool {
    exists|j: int| 0 <= j < n && in_block_range(#[trigger] rs[j], i)
}

/// Whether any range of the list occupies block `i`.
pub open spec fn blocks_covered(rs: Seq<(PhysicalAddress, u64)>, i: int) -> bool {
    blocks_covered_upto(rs, rs.len() as int, i)
}

/// The descriptor word of an identity-mapped 2 MiB block.
pub open spec fn spec_block_word(i: int, attr: u64) -> u64 {
    spec_descriptor((i * 0x20_0000) as u64, attr)
}

/// The finished second-level entry for block `i`: device mappings win
/// over framebuffer mappings, which win over normal RAM; uncovered
/// blocks stay invalid.
pub open spec fn spec_l2_word(
    ram: Seq<(PhysicalAddress, u64)>,
    vram: Seq<(PhysicalAddress, u64)>,
    device: Seq<(PhysicalAddress, u64)>,
    i: int,
) -> u64 {
    if blocks_covered(device, i) {
        spec_block_word(i, 0x408)
    } else if blocks_covered(vram, i) {
        spec_block_word(i, 0x60C)
    } else if blocks_covered(ram, i) {
        spec_block_word(i, 0x700)
    } else {
        0
    }
}

/// The largest end address among the first `n` ranges.
pub open spec fn spec_max_end(rs: Seq<(PhysicalAddress, u64)>, n: int) -> int
    decreases n,
{
    if n <= 0 {
        0
    } else if spec_max_end(rs, n - 1) >= rs[n - 1].0.spec_u64() + rs[n - 1].1 {
        spec_max_end(rs, n - 1)
    } else {
        rs[n - 1].0.spec_u64() + rs[n - 1].1
    }
}

proof fn lemma_covered_extend(rs: Seq<(PhysicalAddress, u64)>, n: int, i: int)
    requires
        0 <= n < rs.len(),
    ensures
        blocks_covered_upto(rs, n + 1, i) == (blocks_covered_upto(rs, n, i) || in_block_range(
            rs[n],
            i,
        )),
{
    if blocks_covered_upto(rs, n + 1, i) {
        let j = choose|j: int| 0 <= j < n + 1 && in_block_range(rs[j], i);
        if j < n {
            assert(blocks_covered_upto(rs, n, i));
        }
    }
    if blocks_covered_upto(rs, n, i) {
        let j = choose|j: int| 0 <= j < n && in_block_range(rs[j], i);
        assert(0 <= j < n + 1 && in_block_range(rs[j], i));
        assert(blocks_covered_upto(rs, n + 1, i));
    }
    if in_block_range(rs[n], i) {
        assert(blocks_covered_upto(rs, n + 1, i));
    }
}

proof fn lemma_covered_extend_all(rs: Seq<(PhysicalAddress, u64)>, n: int)
    requires
        0 <= n < rs.len(),
    ensures
        forall|i: int|
            #[trigger] blocks_covered_upto(rs, n + 1, i) == (blocks_covered_upto(rs, n, i)
                || in_block_range(rs[n], i)),
{
    assert forall|i: int|
        #[trigger] blocks_covered_upto(rs, n + 1, i) == (blocks_covered_upto(rs, n, i)
            || in_block_range(rs[n], i)) by {
        lemma_covered_extend(rs, n, i);
    }
}

/// Writes the block descriptors of every range in `ranges` into the
/// second-level table, all with the same attributes; blocks no range
/// occupies keep their previous contents.
fn fill_blocks(l2: &mut Vec<u64>, ranges: &Vec<(PhysicalAddress, u64)>, attr: PageAttributes)
    requires
        forall|j: int|
            0 <= j < ranges@.len() ==> (#[trigger] ranges@[j]).0.spec_u64() + ranges@[j].1
                <= 0x100_0000_0000,
        forall|j: int|
            0 <= j < ranges@.len() ==> ((#[trigger] ranges@[j]).1 > 0 ==> (ranges@[j].0.spec_u64()
                + ranges@[j].1 + 0x1F_FFFF) / 0x20_0000 <= old(l2)@.len()),
        old(l2)@.len() <= 0x8_0000,
    ensures
        final(l2)@.len() == old(l2)@.len(),
        forall|i: int|
            0 <= i < final(l2)@.len() ==> final(l2)@[i] == if blocks_covered(ranges@, i) {
                spec_block_word(i, attr.spec_bits())
            } else {
                old(l2)@[i]
            },
{
    let ghost l2_0 = l2@;
    let ghost rs = ranges@;
    let mut r: usize = 0;
    while r < ranges.len()
        invariant
            rs == ranges@,
            forall|j: int|
                0 <= j < rs.len() ==> (#[trigger] rs[j]).0.spec_u64() + rs[j].1
                    <= 0x100_0000_0000,
            forall|j: int|
                0 <= j < rs.len() ==> ((#[trigger] rs[j]).1 > 0 ==> (rs[j].0.spec_u64() + rs[j].1
                    + 0x1F_FFFF) / 0x20_0000 <= l2_0.len()),
            l2_0.len() <= 0x8_0000,
            0 <= r <= rs.len(),
            l2@.len() == l2_0.len(),
            forall|i: int|
                0 <= i < l2@.len() ==> l2@[i] == if blocks_covered_upto(rs, r as int, i) {
                    spec_block_word(i, attr.spec_bits())
                } else {
                    l2_0[i]
                },
        decreases rs.len() - r,
    {
        let (base, size) = ranges[r];
        if size > 0 {
            let lo = (base.as_u64() / 0x20_0000) as usize;
            let hi = ((base.as_u64() + size + 0x1F_FFFF) / 0x20_0000) as usize;
            let mut i = lo;
            while i < hi
                invariant
                    rs == ranges@,
                    l2_0.len() <= 0x8_0000,
                    0 <= r < rs.len(),
                    rs[r as int] == (base, size),
                    size > 0,
                    lo == base.spec_u64() / 0x20_0000,
                    hi == (base.spec_u64() + size + 0x1F_FFFF) / 0x20_0000,
                    hi <= l2_0.len(),
                    lo <= i <= hi,
                    l2@.len() == l2_0.len(),
                    forall|t: int|
                        0 <= t < l2@.len() ==> l2@[t] == if blocks_covered_upto(rs, r as int, t)
                            || (lo <= t < i) {
                            spec_block_word(t, attr.spec_bits())
                        } else {
                            l2_0[t]
                        },
                decreases hi - i,
            {
                let d = TranslationTableDescriptor::new(
                    PhysicalAddress::new((i as u64) * 0x20_0000),
                    attr,
                );
                l2.set(i, d.bits());
                i = i + 1;
            }
            proof {
                assert(i == hi);
                assert(rs[r as int].0 == base && rs[r as int].1 == size);
                lemma_covered_extend_all(rs, r as int);
                assert(forall|t: int|
                    #[trigger] blocks_covered_upto(rs, r as int + 1, t) == (blocks_covered_upto(
                        rs,
                        r as int,
                        t,
                    ) || (lo <= t < hi)));
                assert(forall|t: int|
                    0 <= t < l2@.len() ==> #[trigger] l2@[t] == if blocks_covered_upto(
                        rs,
                        r as int,
                        t,
                    ) || (lo <= t < hi) {
                        spec_block_word(t, attr.spec_bits())
                    } else {
                        l2_0[t]
                    });
                assert(forall|t: int|
                    0 <= t < l2@.len() && blocks_covered_upto(rs, r as int + 1, t) ==> #[trigger] l2@[t]
                        == spec_block_word(t, attr.spec_bits()));
                assert(forall|t: int|
                    0 <= t < l2@.len() && !blocks_covered_upto(rs, r as int + 1, t)
                        ==> #[trigger] l2@[t] == l2_0[t]);
                assert(forall|t: int|
                    0 <= t < l2@.len() ==> l2@[t] == if blocks_covered_upto(rs, r as int + 1, t) {
                        spec_block_word(t, attr.spec_bits())
                    } else {
                        l2_0[t]
                    });
            }
        } else {
            proof {
                lemma_covered_extend_all(rs, r as int);
                assert(forall|t: int|
                    #[trigger] blocks_covered_upto(rs, r as int + 1, t) == blocks_covered_upto(
                        rs,
                        r as int,
                        t,
                    ));
                assert(forall|t: int|
                    0 <= t < l2@.len() ==> l2@[t] == if blocks_covered_upto(rs, r as int + 1, t) {
                        spec_block_word(t, attr.spec_bits())
                    } else {
                        l2_0[t]
                    });
            }
        }
        r = r + 1;
    }
}

/// The translation structure the primary core builds once at boot:
/// the physical homes of the two tables, their contents, and the
/// register values every core programs.
pub struct BootTranslationTables {
    /// Physical address the second-level table is installed at.
    pub l2_base: PhysicalAddress,
    /// Second-level block descriptors, one per 2 MiB of physical space.
    pub l2: Vec<u64>,
    /// Physical address the first-level table is installed at.
    pub l1_base: PhysicalAddress,
    /// First-level descriptors, one per 4 KiB chunk of the second
    /// level.
    pub l1: Vec<u64>,
    /// Translation-table base register value: the first-level table.
    pub ttbr0: u64,
    /// System-control register value that switches translation on.
    pub sctlr: u64,
}

pub struct PageManager;

impl PageManager {
    pub const PAGE_SIZE_MIN: usize = 0x1000;

    pub const PAGE_SIZE_2M: usize = 0x20_0000;

    pub const PAGE_SIZE_1G: usize = 0x4000_0000;

    /// The pointer corresponding to a physical address: this design
    /// maps the whole space identically.
    pub fn direct_mapped(val: PhysicalAddress) -> (r: u64)
        ensures
            r == val.spec_u64(),
    {
        val.as_u64()
    }

    /// Builds the boot translation structure: sizes the two tables
    /// from the largest reported physical address (rounded up to a
    /// 1 GiB block, never below `max_pa_floor`), takes their storage
    /// from the early allocator, fills one block descriptor per 2 MiB
    /// of RAM, framebuffer and device space, and points one
    /// first-level entry at each 4 KiB chunk of the second level.
    /// Returns `None` — and the kernel then runs against the
    /// hardware's flat default mapping — when the early window cannot
    /// hold the tables.
    pub fn init_early(
        mm: &mut MemoryManager,
        ram: &Vec<(PhysicalAddress, u64)>,
        vram: &Vec<(PhysicalAddress, u64)>,
        device: &Vec<(PhysicalAddress, u64)>,
        max_pa_floor: PhysicalAddress,
    ) -> (r: Option<BootTranslationTables>)
        requires
            old(mm).wf(),
            old(mm).spec_early_end() <= 0x1_0000_0000_0000,
            max_pa_floor.spec_u64() <= 0x100_0000_0000,
            forall|j: int|
                0 <= j < ram@.len() ==> (#[trigger] ram@[j]).0.spec_u64() + ram@[j].1
                    <= 0x100_0000_0000,
            forall|j: int|
                0 <= j < vram@.len() ==> (#[trigger] vram@[j]).0.spec_u64() + vram@[j].1
                    <= max_pa_floor.spec_u64(),
            forall|j: int|
                0 <= j < device@.len() ==> (#[trigger] device@[j]).0.spec_u64() + device@[j].1
                    <= max_pa_floor.spec_u64(),
        ensures
            final(mm).wf(),
            final(mm).regions() == old(mm).regions(),
            final(mm).spec_free_size() == old(mm).spec_free_size(),
            final(mm).spec_early_end() == old(mm).spec_early_end(),
            ({
                let floor = max_pa_floor.spec_u64() as int;
                let top = if floor >= spec_max_end(ram@, ram@.len() as int) {
                    floor
                } else {
                    spec_max_end(ram@, ram@.len() as int)
                };
                let maxpa = spec_round_up(top, 0x4000_0000);
                let size_l2 = (maxpa / 0x4000_0000) * 0x1000;
                let l1_bytes = spec_round_up((maxpa / 0x4000_0000) * 8, 0x1000);
                let a1 = spec_round_up(old(mm).spec_early_start() as int, 0x1000);
                let window = old(mm).spec_early_end();
                &&& (r is None <==> a1 + size_l2 + l1_bytes > window)
                &&& (r is None && a1 + size_l2 > window ==> final(mm).spec_early_start() == old(
                    mm,
                ).spec_early_start())
                &&& (r is None && a1 + size_l2 <= window ==> final(mm).spec_early_start() == a1
                    + size_l2)
                &&& match r {
                    Some(t) => {
                        &&& t.l2@.len() == maxpa / 0x20_0000
                        &&& forall|i: int|
                            0 <= i < t.l2@.len() ==> t.l2@[i] == spec_l2_word(
                                ram@,
                                vram@,
                                device@,
                                i,
                            )
                        &&& t.l1@.len() == maxpa / 0x4000_0000
                        &&& forall|j: int|
                            0 <= j < t.l1@.len() ==> t.l1@[j] == spec_descriptor(
                                (t.l2_base.spec_u64() + j * 0x1000) as u64,
                                2,
                            )
                        &&& t.l2_base.spec_u64() == a1
                        &&& t.l1_base.spec_u64() == a1 + size_l2
                        &&& final(mm).spec_early_start() == a1 + size_l2 + l1_bytes
                        &&& t.l2_base.spec_u64() % 0x1000 == 0
                        &&& t.l1_base.spec_u64() % 0x1000 == 0
                        &&& t.ttbr0 == t.l1_base.spec_u64()
                        &&& t.sctlr == 0x00C0_181F
                    },
                    None => true,
                }
            }),
    {
        let ghost old_regions = old(mm).regions();
        // size the tables from the top of physical memory
        let mut top: u64 = max_pa_floor.as_u64();
        let mut j: usize = 0;
        while j < ram.len()
            invariant
                0 <= j <= ram@.len(),
                forall|t: int|
                    0 <= t < ram@.len() ==> (#[trigger] ram@[t]).0.spec_u64() + ram@[t].1
                        <= 0x100_0000_0000,
                max_pa_floor.spec_u64() <= 0x100_0000_0000,
                top == if max_pa_floor.spec_u64() as int >= spec_max_end(ram@, j as int) {
                    max_pa_floor.spec_u64() as int
                } else {
                    spec_max_end(ram@, j as int)
                },
                top <= 0x100_0000_0000,
            decreases ram@.len() - j,
        {
            let end = ram[j].0.as_u64() + ram[j].1;
            if end > top {
                top = end;
            }
            j = j + 1;
        }
        proof {
            vstd::arithmetic::power2::lemma2_to64();
            assert(0x4000_0000u64 == vstd::arithmetic::power2::pow2(30));
            assert(0x1000u64 == vstd::arithmetic::power2::pow2(12));
        }
        let max_pa = PhysicalAddress::new(top).rounding_up(0x4000_0000);
        let ghost maxpa = max_pa.spec_u64() as int;
        let n_gigs = max_pa.as_u64() / 0x4000_0000;
        let n_l2: u64 = max_pa.as_u64() / 0x20_0000;
        proof {
            assert(maxpa % 0x4000_0000 == 0 && maxpa <= 0x100_0000_0000 + 0x4000_0000);
            lemma_fundamental_div_mod_wrap(maxpa, 0x4000_0000);
            lemma_fundamental_div_mod_wrap(maxpa, 0x20_0000);
        }
        let size_l2: u64 = n_gigs * 0x1000;
        let size_l1_bytes: u64 = n_gigs * 8;
        let alloc_l1_size: u64 = crate::pa::round_up_u64(size_l1_bytes, 0x1000);
        let ghost a1 = spec_round_up(old(mm).spec_early_start() as int, 0x1000);
        proof {
            vstd::arithmetic::div_mod::lemma_mod_multiples_basic(
                (old(mm).spec_early_start() + 0xFFF) as int / 0x1000,
                0x1000,
            );
            vstd::arithmetic::div_mod::lemma_mod_multiples_basic(n_gigs as int, 0x1000);
        }
        let l2_base = match mm.early_alloc(size_l2, 0x1000) {
            Some(p) => p,
            None => {
                return None;
            },
        };
        proof {
            assert((a1 + size_l2) % 0x1000 == 0) by (nonlinear_arith)
                requires
                    a1 % 0x1000 == 0,
                    size_l2 % 0x1000 == 0,
            ;
            crate::pa::lemma_round_up_aligned(a1 + size_l2, 0x1000);
        }
        let l1_base = match mm.early_alloc(alloc_l1_size, 0x1000) {
            Some(p) => p,
            None => {
                return None;
            },
        };
        // second level: one block descriptor per 2 MiB, invalid unless
        // some reported range covers it
        let mut l2: Vec<u64> = Vec::new();
        while l2.len() < n_l2 as usize
            invariant
                n_l2 <= 0x8_0000,
                l2@.len() <= n_l2,
                forall|i: int| 0 <= i < l2@.len() ==> l2@[i] == 0,
            decreases n_l2 - l2.len(),
        {
            l2.push(0);
        }
        let normal = PageAttributes::block(Some(Shareable::Inner), AttributeIndex::Normal);
        let vram_attr = PageAttributes::block(Some(Shareable::Outer), AttributeIndex::Vram);
        let device_attr = PageAttributes::block(None, AttributeIndex::Device);
        proof {
            assert((0x400u64 | (3u64 << 8) | (0u64 << 2)) == 0x700) by (bit_vector);
            assert((0x400u64 | (2u64 << 8) | (3u64 << 2)) == 0x60C) by (bit_vector);
            assert((0x400u64 | (0u64 << 8) | (2u64 << 2)) == 0x408) by (bit_vector);
            lemma_range_blocks_bounded(ram@, maxpa);
            lemma_range_blocks_bounded_floor(vram@, max_pa_floor.spec_u64() as int, maxpa);
            lemma_range_blocks_bounded_floor(device@, max_pa_floor.spec_u64() as int, maxpa);
        }
        fill_blocks(&mut l2, ram, normal);
        fill_blocks(&mut l2, vram, vram_attr);
        fill_blocks(&mut l2, device, device_attr);
        // first level: one table descriptor per 4 KiB chunk of the
        // second level
        let table_attr = PageAttributes::table();
        let mut l1: Vec<u64> = Vec::new();
        let mut k: u64 = 0;
        while k < n_gigs
            invariant
                n_gigs <= 0x401,
                l2_base.spec_u64() <= 0x1_0000_0000_0000,
                0 <= k <= n_gigs,
                l1@.len() == k,
                table_attr.spec_bits() == 2,
                forall|t: int|
                    0 <= t < l1@.len() ==> l1@[t] == spec_descriptor(
                        (l2_base.spec_u64() + t * 0x1000) as u64,
                        2,
                    ),
            decreases n_gigs - k,
        {
            let oa = PhysicalAddress::new(l2_base.as_u64() + k * 0x1000);
            let d = TranslationTableDescriptor::new(oa, table_attr);
            l1.push(d.bits());
            k = k + 1;
        }
        let ttbr0 = l1_base.as_u64();
        Some(
            BootTranslationTables {
                l2_base,
                l2,
                l1_base,
                l1,
                ttbr0,
                sctlr: 0x00C0_181F,
            },
        )
    }
}

/// Dividing a multiple of `d` plus a remainder under `d` gives the
/// multiple back.
proof fn lemma_fundamental_div_mod_wrap(x: int, d: int)
    requires
        0 < d,
        0 <= x,
    ensures
        x % d == 0 ==> (x / d) * d == x,
        (x + d - 1) / d >= x / d,
{
    vstd::arithmetic::div_mod::lemma_fundamental_div_mod(x, d);
    if x % d == 0 {
        assert(d * (x / d) == (x / d) * d) by (nonlinear_arith);
    }
    vstd::arithmetic::div_mod::lemma_div_is_ordered(x, x + d - 1, d);
}

/// The running maximum dominates every range it has passed.
proof fn lemma_max_end_ge(rs: Seq<(PhysicalAddress, u64)>, j: int, n: int)
    requires
        0 <= j < n <= rs.len(),
    ensures
        rs[j].0.spec_u64() + rs[j].1 <= spec_max_end(rs, n),
    decreases n,
{
    if j < n - 1 {
        lemma_max_end_ge(rs, j, n - 1);
    }
}

/// Ranges ending at or below the (1 GiB aligned) table top occupy only
/// blocks inside the table.
proof fn lemma_range_blocks_bounded(rs: Seq<(PhysicalAddress, u64)>, maxpa: int)
    requires
        maxpa % 0x4000_0000 == 0,
        0 <= maxpa,
        spec_max_end(rs, rs.len() as int) <= maxpa,
    ensures
        forall|j: int|
            0 <= j < rs.len() ==> ((#[trigger] rs[j]).1 > 0 ==> (rs[j].0.spec_u64() + rs[j].1
                + 0x1F_FFFF) / 0x20_0000 <= maxpa / 0x20_0000),
{
    assert forall|j: int|
        0 <= j < rs.len() && (#[trigger] rs[j]).1 > 0 implies (rs[j].0.spec_u64() + rs[j].1
        + 0x1F_FFFF) / 0x20_0000 <= maxpa / 0x20_0000 by {
        let e = rs[j].0.spec_u64() + rs[j].1;
        lemma_max_end_ge(rs, j, rs.len() as int);
        vstd::arithmetic::div_mod::lemma_div_is_ordered(e + 0x1F_FFFF, maxpa + 0x1F_FFFF, 0x20_0000);
        vstd::arithmetic::div_mod::lemma_fundamental_div_mod(maxpa, 0x20_0000);
        assert(maxpa % 0x20_0000 == 0) by (nonlinear_arith)
            requires
                maxpa % 0x4000_0000 == 0,
                0 <= maxpa,
        ;
        lemma_ceil_of_multiple(maxpa, 0x20_0000);
    }
}

/// Same bound, for lists capped by the floor value.
proof fn lemma_range_blocks_bounded_floor(rs: Seq<(PhysicalAddress, u64)>, floor: int, maxpa: int)
    requires
        maxpa % 0x4000_0000 == 0,
        0 <= floor <= maxpa,
        forall|j: int|
            0 <= j < rs.len() ==> (#[trigger] rs[j]).0.spec_u64() + rs[j].1 <= floor,
    ensures
        forall|j: int|
            0 <= j < rs.len() ==> ((#[trigger] rs[j]).1 > 0 ==> (rs[j].0.spec_u64() + rs[j].1
                + 0x1F_FFFF) / 0x20_0000 <= maxpa / 0x20_0000),
{
    assert forall|j: int|
        0 <= j < rs.len() && (#[trigger] rs[j]).1 > 0 implies (rs[j].0.spec_u64() + rs[j].1
        + 0x1F_FFFF) / 0x20_0000 <= maxpa / 0x20_0000 by {
        let e = rs[j].0.spec_u64() + rs[j].1;
        vstd::arithmetic::div_mod::lemma_div_is_ordered(e + 0x1F_FFFF, maxpa + 0x1F_FFFF, 0x20_0000);
        assert(maxpa % 0x20_0000 == 0) by (nonlinear_arith)
            requires
                maxpa % 0x4000_0000 == 0,
                0 <= maxpa,
        ;
        lemma_ceil_of_multiple(maxpa, 0x20_0000);
    }
}

/// Rounding a multiple of `d` up to `d` granularity changes nothing.
proof fn lemma_ceil_of_multiple(x: int, d: int)
    requires
        1 < d,
        0 <= x,
        x % d == 0,
    ensures
        (x + d - 1) / d == x / d,
{
    vstd::arithmetic::div_mod::lemma_fundamental_div_mod(x, d);
    let q = x / d;
    assert(x == d * q);
    assert((d * q + d - 1) / d == q) by (nonlinear_arith)
        requires
            1 < d,
            0 <= q,
    ;
}

} // verus!
