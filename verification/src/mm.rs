//! Physical free-list allocator.
//!
//! Free physical memory is tracked as a bounded collection of
//! [`MemFreePair`] entries, each packing a page-granular (base, count)
//! span into one 64-bit word.  An early bump allocator serves requests
//! before the free list is seeded; afterwards [`MemoryManager::alloc_pages`]
//! carves pages out of the first region that fits and
//! [`MemoryManager::dealloc_pages`] merges freed spans back in.
//!
//! The well-formedness invariant [`MemoryManager::wf`] ties the free
//! byte counter to the sum over the collection and keeps the free
//! regions pairwise disjoint; every operation preserves it.

use crate::dt::DeviceTree;
use crate::pa::{is_pow2, lemma_pa_ext, lemma_pa_value, spec_pa, spec_round_up, PhysicalAddress};
use vstd::arithmetic::div_mod::{
    lemma_fundamental_div_mod, lemma_mod_bound, lemma_mod_multiples_basic,
};
use vstd::prelude::*;

verus! {

/// Smallest page granularity: every span the allocator hands out or
/// takes back is a whole number of these.
pub const PAGE_SIZE_MIN: usize = 0x1000;

/// Capacity of the free-region collection; exceeding it on
/// deallocation degrades to tracking the span as lost, never to a
/// fault.
pub const MAX_FREE_PAIRS: usize = 1024;

/// One free span of physical pages, packed so base and count share a
/// single machine word: the low 32 bits hold the base page number, the
/// high 32 bits the page count.
#[derive(Debug, Clone, Copy, PartialEq, Eq, Structural)]
pub struct MemFreePair(u64);

/// Packing `(base page, page count)` into the word layout above.
pub closed spec fn spec_pack(b: int, c: int) -> MemFreePair {
    MemFreePair((b + c * 0x1_0000_0000) as u64)
}

/// The packed fields come back out unchanged.
pub broadcast proof fn lemma_pack_fields(b: int, c: int)
    requires
        0 <= b,
        0 <= c,
        b + c * 0x1_0000_0000 <= u64::MAX,
    ensures
        b < 0x1_0000_0000 ==> (#[trigger] spec_pack(b, c)).base_page() == b,
        b < 0x1_0000_0000 ==> spec_pack(b, c).count() == c,
{
    if b < 0x1_0000_0000 {
        let v = (b + c * 0x1_0000_0000) as u64;
        assert(c < 0x1_0000_0000) by (nonlinear_arith)
            requires
                0 <= b,
                0 <= c,
                b + c * 0x1_0000_0000 <= u64::MAX,
        ;
        assert(v & 0xFFFF_FFFF == v % 0x1_0000_0000) by (bit_vector);
        assert(v >> 32 == v / 0x1_0000_0000) by (bit_vector);
        assert(v % 0x1_0000_0000 == b && v / 0x1_0000_0000 == c) by (nonlinear_arith)
            requires
                v == b + c * 0x1_0000_0000,
                0 <= b < 0x1_0000_0000,
                0 <= c < 0x1_0000_0000,
        ;
    }
}

impl MemFreePair {
    /// First page of the span.
    pub closed spec fn base_page(self) -> u64 {
        self.0 & 0xFFFF_FFFF
    }

    /// Number of pages in the span.
    pub closed spec fn count(self) -> u64 {
        self.0 >> 32
    }

    /// One past the last page of the span.
    pub open spec fn end_page(self) -> int {
        self.base_page() + self.count()
    }

    /// Bytes covered by the span.
    pub open spec fn size_bytes(self) -> int {
        self.count() * (PAGE_SIZE_MIN as int)
    }

    /// The packed fields stay inside the 32-bit address-plane: the span
    /// never runs past page number `u32::MAX`.
    pub open spec fn wf(self) -> bool {
        self.base_page() + self.count() < 0x1_0000_0000
    }

    /// Both fields are 32-bit values by construction.
    pub broadcast proof fn lemma_field_bounds(self)
        ensures
            0 <= #[trigger] self.base_page() < 0x1_0000_0000,
            0 <= #[trigger] self.count() < 0x1_0000_0000,
    {
        let v = self.0;
        assert(v & 0xFFFF_FFFF < 0x1_0000_0000) by (bit_vector);
        assert(v >> 32 < 0x1_0000_0000) by (bit_vector);
    }

    /// A span with no pages at page number zero.
    pub fn empty() -> (r: Self)
        ensures
            r.base_page() == 0,
            r.count() == 0,
            r.wf(),
    {
        proof {
            assert(0u64 & 0xFFFF_FFFF == 0 && 0u64 >> 32 == 0) by (bit_vector);
        }
        MemFreePair(0)
    }

    pub fn new(base: PhysicalAddress, size: u64) -> (r: Self)
        requires
            base.spec_u64() % 0x1000 == 0,
            size % 0x1000 == 0,
            base.spec_u64() / 0x1000 + size / 0x1000 < 0x1_0000_0000,
        ensures
            r.base_page() == base.spec_u64() / 0x1000,
            r.count() == size / 0x1000,
            r.wf(),
    {
        let b = base.as_u64() / 0x1000;
        let c = size / 0x1000;
        let v = b | (c << 32);
        proof {
            assert(b < 0x1_0000_0000 && c < 0x1_0000_0000 ==> (b | (c << 32)) & 0xFFFF_FFFF == b
                && (b | (c << 32)) >> 32 == c) by (bit_vector);
        }
        MemFreePair(v)
    }

    /// The raw packed word.
    pub fn raw(&self) -> (r: u64)
        ensures
            r == self.base_page() + self.count() * 0x1_0000_0000,
    {
        proof {
            let v = self.0;
            assert(v == (v & 0xFFFF_FFFF) + (v >> 32) * 0x1_0000_0000) by (bit_vector);
        }
        self.0
    }

    /// Base address of the span.
    pub fn base(&self) -> (r: PhysicalAddress)
        ensures
            r.spec_u64() == self.base_page() * 0x1000,
    {
        proof {
            self.lemma_field_bounds();
        }
        PhysicalAddress::new(self.base_u32() * 0x1000)
    }

    /// Bytes covered by the span.
    pub fn size(&self) -> (r: u64)
        ensures
            r == self.size_bytes(),
    {
        proof {
            self.lemma_field_bounds();
        }
        self.count_u32() * 0x1000
    }

    fn base_u32(&self) -> (r: u64)
        ensures
            r == self.base_page(),
    {
        self.0 & 0xFFFF_FFFF
    }

    fn count_u32(&self) -> (r: u64)
        ensures
            r == self.count(),
    {
        self.0 >> 32
    }

    /// Carves `size` bytes (rounded up to whole pages) off the front of
    /// the span: the base advances, the count shrinks, and the old base
    /// is returned.  Fails, leaving the span unchanged, when the span
    /// is too small.
    pub fn carve(&mut self, size: u64) -> (r: Result<PhysicalAddress, ()>)
        requires
            old(self).wf(),
            size + 0xFFF <= u64::MAX,
        ensures
            final(self).wf(),
            ({
                let pages = (size + 0xFFF) / 0x1000;
                if old(self).count() >= pages {
                    &&& r matches Ok(a)
                    &&& a.spec_u64() == old(self).base_page() * 0x1000
                    &&& final(self).base_page() == old(self).base_page() + pages
                    &&& final(self).count() == old(self).count() - pages
                } else {
                    r is Err && *final(self) == *old(self)
                }
            }),
    {
        let pages = (size + 0xFFF) / 0x1000;
        proof {
            self.lemma_field_bounds();
        }
        let limit = self.count_u32();
        if limit < pages {
            return Err(());
        }
        let base = self.base_u32();
        let new_count = limit - pages;
        let new_base = base + pages;
        let v = new_base | (new_count << 32);
        proof {
            assert(new_base < 0x1_0000_0000 && new_count < 0x1_0000_0000 ==> (new_base
                | (new_count << 32)) & 0xFFFF_FFFF == new_base && (new_base | (new_count << 32))
                >> 32 == new_count) by (bit_vector);
        }
        *self = MemFreePair(v);
        Ok(PhysicalAddress::new(base * 0x1000))
    }

    /// Whether `other` sits immediately before or immediately after
    /// this span.
    pub open spec fn spec_adjacent(self, other: MemFreePair) -> bool {
        self.end_page() == other.base_page() || other.end_page() == self.base_page()
    }

    /// Absorbs `other` when the two spans are adjacent, lowering the
    /// fragment count of the collection that holds them; fails, leaving
    /// the span unchanged, otherwise.
    pub fn try_merge(&mut self, other: Self) -> (r: Result<(), ()>)
        requires
            old(self).wf(),
            other.wf(),
            old(self).count() + other.count() < 0x1_0000_0000,
        ensures
            final(self).wf(),
            if old(self).spec_adjacent(other) {
                &&& r is Ok
            } else {
                &&& r is Err
                &&& *final(self) == *old(self)
            },
            old(self).end_page() == other.base_page() ==> final(self).base_page() == old(
                self,
            ).base_page() && final(self).count() == old(self).count() + other.count(),
            old(self).end_page() != other.base_page() && other.end_page() == old(self).base_page()
                ==> final(self).base_page() == other.base_page() && final(self).count() == old(
                self,
            ).count() + other.count(),
    {
        proof {
            self.lemma_field_bounds();
            other.lemma_field_bounds();
        }
        let base0 = self.base_u32();
        let size0 = self.count_u32();
        let base1 = other.base_u32();
        let size1 = other.count_u32();
        let total = size0 + size1;
        if base0 + size0 == base1 {
            let v = base0 | (total << 32);
            proof {
                assert(base0 < 0x1_0000_0000 && total < 0x1_0000_0000 ==> (base0 | (total << 32))
                    & 0xFFFF_FFFF == base0 && (base0 | (total << 32)) >> 32 == total)
                    by (bit_vector);
            }
            *self = MemFreePair(v);
            Ok(())
        } else if base1 + size1 == base0 {
            let v = base1 | (total << 32);
            proof {
                assert(base1 < 0x1_0000_0000 && total < 0x1_0000_0000 ==> (base1 | (total << 32))
                    & 0xFFFF_FFFF == base1 && (base1 | (total << 32)) >> 32 == total)
                    by (bit_vector);
            }
            *self = MemFreePair(v);
            Ok(())
        } else {
            Err(())
        }
    }
}

/// Sum of the bytes covered by a sequence of free spans.
pub open spec fn total_free_bytes(rs: Seq<MemFreePair>) -> int
    decreases rs.len(),
{
    if rs.len() == 0 {
        0
    } else {
        rs[0].size_bytes() + total_free_bytes(rs.drop_first())
    }
}

/// Two spans share no page; a span with no pages overlaps nothing.
pub open spec fn spans_disjoint(b1: int, c1: int, b2: int, c2: int) -> bool {
    c1 == 0 || c2 == 0 || b1 + c1 <= b2 || b2 + c2 <= b1
}

/// The span `[b, b + c)` shares no page with any entry of `rs`.
pub open spec fn span_free_of(rs: Seq<MemFreePair>, b: int, c: int) -> bool {
    forall|i: int|
        0 <= i < rs.len() ==> spans_disjoint(
            rs[i].base_page() as int,
            rs[i].count() as int,
            b,
            c,
        )
}

/// The entries of `rs` are pairwise disjoint.
pub open spec fn regions_disjoint(rs: Seq<MemFreePair>) -> bool {
    forall|i: int, j: int|
        0 <= i < rs.len() && 0 <= j < rs.len() && i != j ==> spans_disjoint(
            #[trigger] rs[i].base_page() as int,
            rs[i].count() as int,
            #[trigger] rs[j].base_page() as int,
            rs[j].count() as int,
        )
}

/// Every entry is a well-formed packed span.
pub open spec fn regions_wf(rs: Seq<MemFreePair>) -> bool {
    forall|i: int| 0 <= i < rs.len() ==> (#[trigger] rs[i]).wf()
}

/// No entry sits at page zero: address 0 is the null sentinel and is
/// never tracked as free, so no allocation can ever return it.
pub open spec fn regions_no_null(rs: Seq<MemFreePair>) -> bool {
    forall|i: int| 0 <= i < rs.len() ==> (#[trigger] rs[i]).base_page() > 0
}

proof fn lemma_total_nonneg(rs: Seq<MemFreePair>)
    ensures
        total_free_bytes(rs) >= 0,
    decreases rs.len(),
{
    if rs.len() > 0 {
        rs[0].lemma_field_bounds();
        lemma_total_nonneg(rs.drop_first());
    }
}

/// Summing after replacing one entry adjusts the total by the
/// difference at that entry.
proof fn lemma_total_update(rs: Seq<MemFreePair>, i: int, p: MemFreePair)
    requires
        0 <= i < rs.len(),
    ensures
        total_free_bytes(rs.update(i, p)) == total_free_bytes(rs) - rs[i].size_bytes()
            + p.size_bytes(),
    decreases rs.len(),
{
    if i == 0 {
        assert(rs.update(0, p).drop_first() =~= rs.drop_first());
    } else {
        assert(rs.update(i, p).drop_first() =~= rs.drop_first().update(i - 1, p));
        lemma_total_update(rs.drop_first(), i - 1, p);
    }
}

/// Summing after appending adds the new entry's bytes.
proof fn lemma_total_push(rs: Seq<MemFreePair>, p: MemFreePair)
    ensures
        total_free_bytes(rs.push(p)) == total_free_bytes(rs) + p.size_bytes(),
    decreases rs.len(),
{
    if rs.len() == 0 {
        assert(rs.push(p).drop_first() =~= rs);
    } else {
        assert(rs.push(p).drop_first() =~= rs.drop_first().push(p));
        lemma_total_push(rs.drop_first(), p);
    }
}

/// The total is at least as large as any single entry.
proof fn lemma_total_ge_entry(rs: Seq<MemFreePair>, i: int)
    requires
        0 <= i < rs.len(),
    ensures
        total_free_bytes(rs) >= rs[i].size_bytes(),
    decreases rs.len(),
{
    rs[0].lemma_field_bounds();
    if i == 0 {
        lemma_total_nonneg(rs.drop_first());
    } else {
        lemma_total_ge_entry(rs.drop_first(), i - 1);
    }
}

/// Index of the first entry with at least `pages` free pages, the
/// entry that a first-fit scan starting at index `i` settles on.
pub open spec fn first_fit_from(rs: Seq<MemFreePair>, pages: int, i: int) -> Option<int>
    decreases rs.len() - i,
{
    if i < 0 || i >= rs.len() {
        None
    } else if rs[i].count() >= pages {
        Some(i)
    } else {
        first_fit_from(rs, pages, i + 1)
    }
}

/// Index of the first entry adjacent to the span `[b, b + c)`, the
/// entry that a merge scan starting at index `i` settles on.
pub open spec fn first_adjacent_from(rs: Seq<MemFreePair>, b: int, c: int, i: int) -> Option<int>
    decreases rs.len() - i,
{
    if i < 0 || i >= rs.len() {
        None
    } else if rs[i].end_page() == b || b + c == rs[i].base_page() {
        Some(i)
    } else {
        first_adjacent_from(rs, b, c, i + 1)
    }
}

/// Two packed spans with the same fields are the same word.
pub broadcast proof fn lemma_pair_ext(p: MemFreePair, q: MemFreePair)
    requires
        #[trigger] p.base_page() == #[trigger] q.base_page(),
        p.count() == q.count(),
    ensures
        p == q,
{
    let v1 = p.0;
    let v2 = q.0;
    assert(v1 & 0xFFFF_FFFF == v2 & 0xFFFF_FFFF && v1 >> 32 == v2 >> 32 ==> v1 == v2)
        by (bit_vector);
}

/// Every well-formed collection's total stays under the count bound
/// times the largest span.
proof fn lemma_total_upper(rs: Seq<MemFreePair>)
    requires
        regions_wf(rs),
    ensures
        total_free_bytes(rs) <= rs.len() * 0x1_0000_0000_0000,
    decreases rs.len(),
{
    if rs.len() > 0 {
        assert(regions_wf(rs.drop_first())) by {
            assert(forall|i: int|
                0 <= i < rs.drop_first().len() ==> rs.drop_first()[i] == rs[i + 1]);
        }
        lemma_total_upper(rs.drop_first());
    }
}

/// A first-fit scan that has rejected everything before `i` settles on
/// the same entry as one starting from `i`.
proof fn lemma_first_fit_skip(rs: Seq<MemFreePair>, pages: int, i: int)
    requires
        0 <= i <= rs.len(),
        forall|j: int| 0 <= j < i ==> (#[trigger] rs[j]).count() < pages,
    ensures
        first_fit_from(rs, pages, 0) == first_fit_from(rs, pages, i),
    decreases i,
{
    if i > 0 {
        lemma_first_fit_skip(rs, pages, i - 1);
        assert(first_fit_from(rs, pages, i - 1) == first_fit_from(rs, pages, i));
    }
}

/// A first-fit scan that finds nothing leaves every entry too small.
proof fn lemma_first_fit_none(rs: Seq<MemFreePair>, pages: int, i: int)
    requires
        0 <= i <= rs.len(),
        first_fit_from(rs, pages, i) is None,
    ensures
        forall|j: int| i <= j < rs.len() ==> (#[trigger] rs[j]).count() < pages,
    decreases rs.len() - i,
{
    if i < rs.len() {
        lemma_first_fit_none(rs, pages, i + 1);
    }
}

/// Likewise for the merge scan.
proof fn lemma_first_adjacent_skip(rs: Seq<MemFreePair>, b: int, c: int, i: int)
    requires
        0 <= i <= rs.len(),
        forall|j: int|
            0 <= j < i ==> !((#[trigger] rs[j]).end_page() == b || b + c == rs[j].base_page()),
    ensures
        first_adjacent_from(rs, b, c, 0) == first_adjacent_from(rs, b, c, i),
    decreases i,
{
    if i > 0 {
        lemma_first_adjacent_skip(rs, b, c, i - 1);
    }
}

/// The entry a span merges into: the span glues to the entry's end or
/// to its start.
pub open spec fn spec_merged(p: MemFreePair, b: int, c: int) -> MemFreePair {
    if p.end_page() == b {
        spec_pack(p.base_page() as int, p.count() + c)
    } else {
        spec_pack(b, p.count() + c)
    }
}

/// What allocation does to the free-region collection: the first entry
/// with room loses `pages` pages off its front; the allocation is that
/// entry's old base page.  With no entry large enough, nothing changes.
pub open spec fn spec_alloc_regions(rs: Seq<MemFreePair>, pages: int) -> (Seq<MemFreePair>, Option<
    int,
>) {
    match first_fit_from(rs, pages, 0) {
        Some(k) => (
            rs.update(k, spec_pack(rs[k].base_page() + pages, rs[k].count() - pages)),
            Some(rs[k].base_page() as int),
        ),
        None => (rs, None),
    }
}

/// What deallocation does to the collection: the span merges into the
/// first adjacent entry, else it is appended, else — with the
/// collection full — the collection is left alone and the span is
/// lost.  The flag says whether the span was absorbed.
pub open spec fn spec_dealloc_regions(rs: Seq<MemFreePair>, b: int, c: int) -> (
    Seq<MemFreePair>,
    bool,
) {
    match first_adjacent_from(rs, b, c, 0) {
        Some(k) => (rs.update(k, spec_merged(rs[k], b, c)), true),
        None => if rs.len() < MAX_FREE_PAIRS {
            (rs.push(spec_pack(b, c)), true)
        } else {
            (rs, false)
        },
    }
}

/// Clipping a firmware-reported memory range against the end of the
/// kernel image (already rounded up to a page boundary): ranges above
/// the kernel pass through, ranges inside it vanish, ranges straddling
/// it keep only their upper part.
pub open spec fn spec_clip(b: int, s: int, e: int) -> (int, int) {
    if b >= e {
        (b, s)
    } else if b + s < e {
        (0, 0)
    } else {
        (e, s - (e - b))
    }
}

/// The free regions seeded from a list of firmware ranges: each range
/// is clipped against the kernel image and, when anything is left,
/// becomes one entry, in the order reported.
pub open spec fn seed_regions(ranges: Seq<(PhysicalAddress, u64)>, e: int) -> Seq<MemFreePair>
    decreases ranges.len(),
{
    if ranges.len() == 0 {
        Seq::empty()
    } else {
        let clip = spec_clip(ranges[0].0.spec_u64() as int, ranges[0].1 as int, e);
        let rest = seed_regions(ranges.drop_first(), e);
        if clip.1 > 0 {
            seq![spec_pack(clip.0 / 0x1000, clip.1 / 0x1000)] + rest
        } else {
            rest
        }
    }
}

/// Sum of the byte sizes of a list of firmware ranges.
pub open spec fn sum_sizes(ranges: Seq<(PhysicalAddress, u64)>) -> int
    decreases ranges.len(),
{
    if ranges.len() == 0 {
        0
    } else {
        ranges[0].1 + sum_sizes(ranges.drop_first())
    }
}

/// One firmware range is acceptable input for seeding: page-aligned,
/// inside the 32-bit page plane, and free of address overflow.
pub open spec fn range_ok(r: (PhysicalAddress, u64)) -> bool {
    &&& r.0.spec_u64() % 0x1000 == 0
    &&& r.1 % 0x1000 == 0
    &&& r.0.spec_u64() + r.1 <= u64::MAX
    &&& r.0.spec_u64() / 0x1000 + r.1 / 0x1000 < 0x1_0000_0000
}

/// The byte spans of two firmware ranges share nothing.
pub open spec fn ranges_disjoint(a: (PhysicalAddress, u64), b: (PhysicalAddress, u64)) -> bool {
    a.1 == 0 || b.1 == 0 || a.0.spec_u64() + a.1 <= b.0.spec_u64() || b.0.spec_u64() + b.1
        <= a.0.spec_u64()
}

/// Acceptable seeding input: every range acceptable and the ranges
/// pairwise disjoint.
pub open spec fn ranges_ok(ranges: Seq<(PhysicalAddress, u64)>) -> bool {
    &&& forall|i: int| 0 <= i < ranges.len() ==> range_ok(#[trigger] ranges[i])
    &&& forall|i: int, j: int|
        0 <= i < ranges.len() && 0 <= j < ranges.len() && i != j ==> ranges_disjoint(
            #[trigger] ranges[i],
            #[trigger] ranges[j],
        )
}

/// Dividing a sum of page-aligned values distributes over the parts.
proof fn lemma_aligned_div_sum(x: int, y: int)
    requires
        x % 0x1000 == 0,
        y % 0x1000 == 0,
    ensures
        (x + y) / 0x1000 == x / 0x1000 + y / 0x1000,
{
    lemma_fundamental_div_mod(x, 0x1000);
    lemma_fundamental_div_mod(y, 0x1000);
    let p = x / 0x1000;
    let q = y / 0x1000;
    assert((0x1000 * p + 0x1000 * q) == 0x1000 * (p + q)) by (nonlinear_arith);
    vstd::arithmetic::div_mod::lemma_div_multiples_vanish(p + q, 0x1000);
}

/// A page-aligned value is its page count times the page size.
proof fn lemma_aligned_div_exact(x: int)
    requires
        x % 0x1000 == 0,
    ensures
        (x / 0x1000) * 0x1000 == x,
{
    lemma_fundamental_div_mod(x, 0x1000);
    assert(0x1000 * (x / 0x1000) == (x / 0x1000) * 0x1000) by (nonlinear_arith);
}

/// Division by the page size keeps order.
proof fn lemma_div_ordered(x: int, y: int)
    requires
        x <= y,
    ensures
        x / 0x1000 <= y / 0x1000,
{
    vstd::arithmetic::div_mod::lemma_div_is_ordered(x, y, 0x1000);
}

/// The entry covers only pages inside the byte span of `r`.
pub open spec fn entry_within(p: MemFreePair, r: (PhysicalAddress, u64)) -> bool {
    &&& r.0.spec_u64() <= p.base_page() * 0x1000
    &&& p.end_page() * 0x1000 <= r.0.spec_u64() + r.1
}

/// Seeding from acceptable ranges yields a well-formed, pairwise
/// disjoint collection, no larger than its input and covering no more
/// bytes, with every entry inside the range it came from.
proof fn lemma_seed_props(ranges: Seq<(PhysicalAddress, u64)>, e: int)
    requires
        ranges_ok(ranges),
        e % 0x1000 == 0,
        0 <= e,
    ensures
        regions_wf(seed_regions(ranges, e)),
        regions_disjoint(seed_regions(ranges, e)),
        0x1000 <= e ==> regions_no_null(seed_regions(ranges, e)),
        seed_regions(ranges, e).len() <= ranges.len(),
        total_free_bytes(seed_regions(ranges, e)) <= sum_sizes(ranges),
        forall|t: int|
            0 <= t < seed_regions(ranges, e).len() ==> exists|j: int|
                0 <= j < ranges.len() && entry_within(#[trigger] seed_regions(ranges, e)[t], ranges[j]),
    decreases ranges.len(),
{
    let rs = seed_regions(ranges, e);
    if ranges.len() > 0 {
        let b = ranges[0].0.spec_u64() as int;
        let s = ranges[0].1 as int;
        let clip = spec_clip(b, s, e);
        let rest = seed_regions(ranges.drop_first(), e);
        assert(ranges_ok(ranges.drop_first())) by {
            assert(forall|i: int|
                0 <= i < ranges.drop_first().len() ==> ranges.drop_first()[i] == ranges[i + 1]);
        }
        lemma_seed_props(ranges.drop_first(), e);
        assert(sum_sizes(ranges.drop_first()) >= 0) by {
            lemma_sum_nonneg(ranges.drop_first());
        }
        if clip.1 > 0 {
            let cb = clip.0;
            let cs = clip.1;
            assert(cb % 0x1000 == 0 && cs % 0x1000 == 0 && cb + cs <= b + s && b <= cb);
            lemma_aligned_div_sum(cb, cs);
            lemma_aligned_div_sum(b, s);
            lemma_div_ordered(cb + cs, b + s);
            lemma_div_ordered(b, cb);
            let head = spec_pack(cb / 0x1000, cs / 0x1000);
            lemma_pack_fields(cb / 0x1000, cs / 0x1000);
            if 0x1000 <= e {
                lemma_div_ordered(0x1000, cb);
                assert(head.base_page() >= 1);
            }
            assert(rs =~= seq![head] + rest);
            assert(rs[0] == head);
            assert(rs.drop_first() =~= rest);
            lemma_aligned_div_exact(cb);
            lemma_aligned_div_exact(cs);
            lemma_aligned_div_exact(b);
            lemma_aligned_div_exact(s);
            assert(entry_within(head, ranges[0])) by {
                lemma_aligned_div_sum(cb, cs);
            }
            // every rest entry lies inside a later range, which is
            // disjoint from range 0, hence from the head entry
            assert forall|t: int| 0 <= t < rs.len() implies exists|j: int|
                0 <= j < ranges.len() && entry_within(#[trigger] rs[t], ranges[j]) by {
                if t == 0 {
                    assert(entry_within(rs[0], ranges[0]));
                } else {
                    let j = choose|j: int|
                        0 <= j < ranges.drop_first().len() && entry_within(
                            rest[t - 1],
                            ranges.drop_first()[j],
                        );
                    assert(ranges.drop_first()[j] == ranges[j + 1]);
                    assert(entry_within(rs[t], ranges[j + 1]));
                }
            }
            assert forall|x: int, y: int|
                0 <= x < rs.len() && 0 <= y < rs.len() && x != y implies spans_disjoint(
                #[trigger] rs[x].base_page() as int,
                rs[x].count() as int,
                #[trigger] rs[y].base_page() as int,
                rs[y].count() as int,
            ) by {
                if x != 0 && y != 0 {
                    assert(spans_disjoint(
                        rest[x - 1].base_page() as int,
                        rest[x - 1].count() as int,
                        rest[y - 1].base_page() as int,
                        rest[y - 1].count() as int,
                    ));
                } else {
                    let t = if x == 0 {
                        y
                    } else {
                        x
                    };
                    let j = choose|j: int|
                        0 <= j < ranges.drop_first().len() && entry_within(
                            rest[t - 1],
                            ranges.drop_first()[j],
                        );
                    let rj = ranges[j + 1];
                    assert(entry_within(rs[t], rj));
                    assert(ranges_disjoint(ranges[0], rj));
                    rs[t].lemma_field_bounds();
                    if rs[t].count() > 0 && head.count() > 0 {
                        lemma_aligned_div_exact(rj.0.spec_u64() as int);
                        if b + s <= rj.0.spec_u64() {
                            lemma_div_ordered(cb + cs, rj.0.spec_u64() as int);
                            lemma_div_ordered(b + s, rs[t].base_page() * 0x1000);
                        } else {
                            assert(rj.0.spec_u64() + rj.1 <= b);
                            lemma_div_ordered(rs[t].end_page() * 0x1000, b);
                            lemma_aligned_div_exact(rs[t].end_page() * 0x1000);
                        }
                    }
                }
            }
        } else {
            assert(rs =~= rest);
            assert forall|t: int| 0 <= t < rs.len() implies exists|j: int|
                0 <= j < ranges.len() && entry_within(#[trigger] rs[t], ranges[j]) by {
                let j = choose|j: int|
                    0 <= j < ranges.drop_first().len() && entry_within(
                        rest[t],
                        ranges.drop_first()[j],
                    );
                assert(ranges.drop_first()[j] == ranges[j + 1]);
                assert(entry_within(rs[t], ranges[j + 1]));
            }
        }
    }
}

proof fn lemma_sum_nonneg(ranges: Seq<(PhysicalAddress, u64)>)
    ensures
        sum_sizes(ranges) >= 0,
    decreases ranges.len(),
{
    if ranges.len() > 0 {
        lemma_sum_nonneg(ranges.drop_first());
    }
}

/// A prefix of the ranges never sums to more than the whole.
proof fn lemma_sum_prefix_bound(ranges: Seq<(PhysicalAddress, u64)>, i: int)
    requires
        0 <= i <= ranges.len(),
    ensures
        sum_sizes(ranges.subrange(0, i)) <= sum_sizes(ranges),
    decreases ranges.len() - i,
{
    if i < ranges.len() {
        assert(ranges.subrange(0, i + 1) =~= ranges.subrange(0, i).push(ranges[i]));
        lemma_seed_push(ranges.subrange(0, i), ranges[i], 0);
        lemma_sum_prefix_bound(ranges, i + 1);
    } else {
        assert(ranges.subrange(0, i) =~= ranges);
    }
}

/// Appending one range extends the seed by that range's entry, if any.
proof fn lemma_seed_push(ranges: Seq<(PhysicalAddress, u64)>, r: (PhysicalAddress, u64), e: int)
    ensures
        ({
            let clip = spec_clip(r.0.spec_u64() as int, r.1 as int, e);
            if clip.1 > 0 {
                seed_regions(ranges.push(r), e) =~= seed_regions(ranges, e).push(
                    spec_pack(clip.0 / 0x1000, clip.1 / 0x1000),
                )
            } else {
                seed_regions(ranges.push(r), e) =~= seed_regions(ranges, e)
            }
        }),
        sum_sizes(ranges.push(r)) == sum_sizes(ranges) + r.1,
    decreases ranges.len(),
{
    if ranges.len() == 0 {
        assert(ranges.push(r)[0] == r);
        assert(ranges.push(r).drop_first() =~= ranges);
    } else {
        assert(ranges.push(r)[0] == ranges[0]);
        assert(ranges.push(r).drop_first() =~= ranges.drop_first().push(r));
        lemma_seed_push(ranges.drop_first(), r, e);
        let clip = spec_clip(r.0.spec_u64() as int, r.1 as int, e);
        if clip.1 > 0 {
            let p = spec_pack(clip.0 / 0x1000, clip.1 / 0x1000);
            let clip0 = spec_clip(ranges[0].0.spec_u64() as int, ranges[0].1 as int, e);
            if clip0.1 > 0 {
                let head = spec_pack(clip0.0 / 0x1000, clip0.1 / 0x1000);
                assert(seed_regions(ranges.push(r), e) =~= seq![head] + seed_regions(
                    ranges.drop_first(),
                    e,
                ).push(p));
                assert(seq![head] + seed_regions(ranges.drop_first(), e).push(p) =~= (seq![head]
                    + seed_regions(ranges.drop_first(), e)).push(p));
            }
        }
    }
}

/// Memory manager state: the early bump cursor, the free-region
/// collection, and the counters the rest of the kernel reads.
pub struct MemoryManager {
    reserved_memory_size: u64,
    page_size_min: usize,
    lost_size: u64,
    free_pages: u64,
    n_fragments: usize,
    mem_list: Vec<MemFreePair>,
    last_alloc_ptr: u64,
    early_start: PhysicalAddress,
    early_end: PhysicalAddress,
}

impl MemoryManager {
    pub const PAGE_SIZE_MIN: usize = 0x1000;

    /// The free-region collection, for use in contracts.
    pub closed spec fn regions(self) -> Seq<MemFreePair> {
        self.mem_list@
    }

    pub closed spec fn spec_free_size(self) -> int {
        self.free_pages as int
    }

    pub closed spec fn spec_lost_size(self) -> int {
        self.lost_size as int
    }

    pub closed spec fn spec_reserved_size(self) -> int {
        self.reserved_memory_size as int
    }

    pub closed spec fn spec_n_fragments(self) -> int {
        self.n_fragments as int
    }

    pub closed spec fn spec_early_start(self) -> u64 {
        self.early_start.spec_u64()
    }

    pub closed spec fn spec_early_end(self) -> u64 {
        self.early_end.spec_u64()
    }

    pub closed spec fn spec_page_size_ok(self) -> bool {
        self.page_size_min == 0x1000
    }

    /// Well-formedness: the collection is bounded, its entries are
    /// packed correctly and pairwise disjoint, the free byte counter
    /// equals the sum over the collection, and the early cursor has
    /// not run past its window.
    pub open spec fn wf(self) -> bool {
        &&& self.regions().len() <= MAX_FREE_PAIRS
        &&& regions_wf(self.regions())
        &&& regions_disjoint(self.regions())
        &&& regions_no_null(self.regions())
        &&& self.spec_free_size() == total_free_bytes(self.regions())
        &&& self.spec_early_start() <= self.spec_early_end()
        &&& self.spec_page_size_ok()
    }

    /// A manager with no free memory, no early window, and empty
    /// counters; memory arrives later through `init_early` and
    /// `init_with_ranges`.
    pub fn new() -> (r: Self)
        ensures
            r.wf(),
            r.regions().len() == 0,
            r.spec_free_size() == 0,
            r.spec_lost_size() == 0,
            r.spec_reserved_size() == 0,
            r.spec_early_start() == 0,
            r.spec_early_end() == 0,
    {
        MemoryManager {
            reserved_memory_size: 0,
            page_size_min: 0x1000,
            lost_size: 0,
            free_pages: 0,
            n_fragments: 0,
            mem_list: Vec::new(),
            last_alloc_ptr: 0,
            early_start: PhysicalAddress::null(),
            early_end: PhysicalAddress::null(),
        }
    }

    pub fn page_size_min(&self) -> (r: usize)
        requires
            self.wf(),
        ensures
            r == 0x1000,
    {
        self.page_size_min
    }

    /// Bytes tracked as free across the whole collection.
    pub fn free_memory_size(&self) -> (r: u64)
        ensures
            r == self.spec_free_size(),
    {
        self.free_pages
    }

    pub fn reserved_memory_size(&self) -> (r: u64)
        ensures
            r == self.spec_reserved_size(),
    {
        self.reserved_memory_size
    }

    /// Bytes that were freed but could not be recorded because the
    /// collection was full; tracked, never reused.
    pub fn lost_size(&self) -> (r: u64)
        ensures
            r == self.spec_lost_size(),
    {
        self.lost_size
    }

    pub fn n_fragments(&self) -> (r: usize)
        ensures
            r == self.spec_n_fragments(),
    {
        self.n_fragments
    }

    pub closed spec fn spec_last_alloc_ptr(self) -> u64 {
        self.last_alloc_ptr
    }

    /// The address of the most recent general-purpose allocation.
    pub fn last_alloc_ptr(&self) -> (r: u64)
        ensures
            r == self.spec_last_alloc_ptr(),
    {
        self.last_alloc_ptr
    }

    /// Hands the early bump allocator its one-time window; called once
    /// at boot before any allocation.
    pub fn init_early(&mut self, start: PhysicalAddress, len: u64)
        requires
            old(self).wf(),
            start.spec_u64() + len <= u64::MAX,
        ensures
            final(self).wf(),
            final(self).spec_early_start() == start.spec_u64(),
            final(self).spec_early_end() == start.spec_u64() + len,
            final(self).regions() == old(self).regions(),
            final(self).spec_free_size() == old(self).spec_free_size(),
            final(self).spec_lost_size() == old(self).spec_lost_size(),
    {
        self.early_start = start;
        self.early_end = start.add_offset(len);
    }

    /// Advances the monotonic early cursor, rounded up to the requested
    /// alignment (minimum page alignment), and returns the aligned
    /// cursor; fails without moving the cursor when the advanced cursor
    /// would leave the reserved early window.  Valid only before the
    /// general allocator is seeded; the window is never reclaimed.
    pub fn early_alloc(&mut self, size: u64, align: u64) -> (r: Option<PhysicalAddress>)
        requires
            old(self).wf(),
            is_pow2(align),
            old(self).spec_early_end() + align + size + 0x1000 <= u64::MAX,
        ensures
            final(self).wf(),
            final(self).regions() == old(self).regions(),
            final(self).spec_free_size() == old(self).spec_free_size(),
            final(self).spec_last_alloc_ptr() == old(self).spec_last_alloc_ptr(),
            ({
                let a = if align >= 0x1000 {
                    align as int
                } else {
                    0x1000
                };
                let aligned = spec_round_up(old(self).spec_early_start() as int, a);
                if aligned + size <= old(self).spec_early_end() {
                    &&& r matches Some(p)
                    &&& p.spec_u64() == aligned
                    &&& final(self).spec_early_start() == aligned + size
                    &&& final(self).spec_early_end() == old(self).spec_early_end()
                } else {
                    r is None && *final(self) == *old(self)
                }
            }),
    {
        let a: u64 = if align >= 0x1000 {
            align
        } else {
            0x1000
        };
        proof {
            if align < 0x1000 {
                vstd::arithmetic::power2::lemma2_to64();
                assert(0x1000u64 == vstd::arithmetic::power2::pow2(12));
            }
        }
        let start = crate::pa::round_up_u64(self.early_start.as_u64(), a);
        let new_start = start + size;
        if new_start <= self.early_end.as_u64() {
            self.early_start = PhysicalAddress::new(new_start);
            Some(PhysicalAddress::new(start))
        } else {
            None
        }
    }

    /// Index of the first free region with at least `pages` pages.
    fn find_first_fit(&self, pages: u64) -> (r: Option<usize>)
        ensures
            match r {
                Some(k) => k < self.regions().len() && first_fit_from(
                    self.regions(),
                    pages as int,
                    0,
                ) == Some(k as int) && self.regions()[k as int].count() >= pages,
                None => first_fit_from(self.regions(), pages as int, 0) is None,
            },
    {
        let ghost rs = self.mem_list@;
        let n = self.mem_list.len();
        let mut i: usize = 0;
        while i < n
            invariant
                n == rs.len(),
                rs == self.mem_list@,
                0 <= i <= n,
                forall|j: int| 0 <= j < i ==> (#[trigger] rs[j]).count() < pages,
            decreases n - i,
        {
            if self.mem_list[i].count_u32() >= pages {
                proof {
                    lemma_first_fit_skip(rs, pages as int, i as int);
                }
                return Some(i);
            }
            i = i + 1;
        }
        proof {
            lemma_first_fit_skip(rs, pages as int, rs.len() as int);
        }
        None
    }

    /// Index of the first free region adjacent to the span starting at
    /// page `page_base` with `pages` pages.
    fn find_first_adjacent(&self, page_base: u64, pages: u64) -> (r: Option<usize>)
        requires
            page_base + pages < 0x1_0000_0000,
        ensures
            match r {
                Some(k) => k < self.regions().len() && first_adjacent_from(
                    self.regions(),
                    page_base as int,
                    pages as int,
                    0,
                ) == Some(k as int) && (self.regions()[k as int].end_page() == page_base
                    || page_base + pages == self.regions()[k as int].base_page()),
                None => first_adjacent_from(
                    self.regions(),
                    page_base as int,
                    pages as int,
                    0,
                ) is None,
            },
    {
        let ghost rs = self.mem_list@;
        let n = self.mem_list.len();
        let mut i: usize = 0;
        while i < n
            invariant
                n == rs.len(),
                rs == self.mem_list@,
                0 <= i <= n,
                page_base + pages < 0x1_0000_0000,
                forall|j: int|
                    0 <= j < i ==> !((#[trigger] rs[j]).end_page() == page_base || page_base + pages
                        == rs[j].base_page()),
            decreases n - i,
        {
            let p = self.mem_list[i];
            proof {
                p.lemma_field_bounds();
            }
            if p.base_u32() + p.count_u32() == page_base || page_base + pages == p.base_u32() {
                proof {
                    lemma_first_adjacent_skip(rs, page_base as int, pages as int, i as int);
                }
                return Some(i);
            }
            i = i + 1;
        }
        proof {
            lemma_first_adjacent_skip(rs, page_base as int, pages as int, rs.len() as int);
        }
        None
    }

    /// Rounds `size` up to page granularity and carves that many pages
    /// off the first free region with sufficient capacity, returning
    /// the carved-out base address.  Returns `None` — out of memory —
    /// exactly when no region suffices; the collection is then left
    /// unchanged.  The caller owns the returned span: it is disjoint
    /// from every region still in the collection.  The unsafe layer
    /// zero-fills the span before handing it on, so stale data never
    /// leaks across allocation boundaries.
    pub fn alloc_pages(&mut self, size: usize) -> (r: Option<PhysicalAddress>)
        requires
            old(self).wf(),
            size + 0xFFF <= u64::MAX,
        ensures
            final(self).wf(),
            final(self).spec_lost_size() == old(self).spec_lost_size(),
            final(self).spec_early_start() == old(self).spec_early_start(),
            final(self).spec_early_end() == old(self).spec_early_end(),
            final(self).spec_n_fragments() == old(self).spec_n_fragments(),
            final(self).spec_last_alloc_ptr() == old(self).spec_last_alloc_ptr(),
            ({
                let pages = ((size + 0xFFF) / 0x1000) as int;
                let step = spec_alloc_regions(old(self).regions(), pages);
                &&& final(self).regions() == step.0
                &&& match step.1 {
                    Some(bp) => {
                        &&& r matches Some(a)
                        &&& a.spec_u64() == bp * 0x1000
                        &&& a.spec_u64() != 0
                        &&& final(self).spec_free_size() == old(self).spec_free_size() - pages
                            * 0x1000
                        &&& span_free_of(final(self).regions(), bp, pages)
                    },
                    None => {
                        &&& r is None
                        &&& *final(self) == *old(self)
                        &&& forall|j: int|
                            0 <= j < old(self).regions().len() ==> (#[trigger] old(
                                self,
                            ).regions()[j]).count() < pages
                    },
                }
            }),
    {
        let pages: u64 = (size as u64 + 0xFFF) / 0x1000;
        let ghost rs = self.mem_list@;
        let found = self.find_first_fit(pages);
        proof {
            if found is None {
                lemma_first_fit_none(rs, pages as int, 0);
            }
        }
        match found {
            Some(k) => {
                let mut pair = self.mem_list[k];
                proof {
                    pair.lemma_field_bounds();
                }
                let addr = match pair.carve(size as u64) {
                    Ok(a) => a,
                    Err(_) => {
                        proof {
                            assert(false);
                        }
                        PhysicalAddress::null()
                    },
                };
                proof {
                    lemma_pack_fields(rs[k as int].base_page() + pages, rs[k as int].count() - pages);
                    lemma_pair_ext(
                        pair,
                        spec_pack(rs[k as int].base_page() + pages, rs[k as int].count() - pages),
                    );
                }
                self.mem_list.set(k, pair);
                proof {
                    lemma_total_update(rs, k as int, pair);
                    lemma_total_ge_entry(rs, k as int);
                    assert(pages * 0x1000 <= rs[k as int].count() * 0x1000) by (nonlinear_arith)
                        requires
                            pages <= rs[k as int].count(),
                            0 <= pages,
                    ;
                }
                self.free_pages = self.free_pages - pages * 0x1000;
                proof {
                    let b = rs[k as int].base_page() as int;
                    let c = rs[k as int].count() as int;
                    let rs1 = self.mem_list@;
                    assert forall|j: int| 0 <= j < rs1.len() implies spans_disjoint(
                        rs1[j].base_page() as int,
                        rs1[j].count() as int,
                        b,
                        pages as int,
                    ) by {
                        if j != k {
                            assert(spans_disjoint(
                                rs[j].base_page() as int,
                                rs[j].count() as int,
                                b,
                                c,
                            ));
                        }
                    }
                    assert forall|x: int, y: int|
                        0 <= x < rs1.len() && 0 <= y < rs1.len() && x != y implies spans_disjoint(
                        #[trigger] rs1[x].base_page() as int,
                        rs1[x].count() as int,
                        #[trigger] rs1[y].base_page() as int,
                        rs1[y].count() as int,
                    ) by {
                        assert(spans_disjoint(
                            rs[x].base_page() as int,
                            rs[x].count() as int,
                            rs[y].base_page() as int,
                            rs[y].count() as int,
                        ));
                    }
                }
                Some(addr)
            },
            None => None,
        }
    }

    /// Returns the span `[base, base + size)` (rounded up to whole
    /// pages) to the free collection: it merges into the first adjacent
    /// region when one exists, lowering fragmentation, else it becomes
    /// a new region.  When the collection is already full the span is
    /// recorded as lost — tracked, not reusable — rather than faulting.
    pub fn dealloc_pages(&mut self, base: PhysicalAddress, size: usize)
        requires
            old(self).wf(),
            base.spec_u64() % 0x1000 == 0,
            base.spec_u64() != 0,
            size + 0xFFF <= u64::MAX,
            base.spec_u64() / 0x1000 + (size + 0xFFF) / 0x1000 < 0x1_0000_0000,
            old(self).spec_lost_size() + ((size + 0xFFF) / 0x1000) * 0x1000 <= u64::MAX,
            span_free_of(
                old(self).regions(),
                base.spec_u64() as int / 0x1000,
                ((size + 0xFFF) / 0x1000) as int,
            ),
        ensures
            final(self).wf(),
            final(self).spec_early_start() == old(self).spec_early_start(),
            final(self).spec_early_end() == old(self).spec_early_end(),
            final(self).spec_n_fragments() == final(self).regions().len(),
            final(self).spec_last_alloc_ptr() == old(self).spec_last_alloc_ptr(),
            ({
                let b = base.spec_u64() as int / 0x1000;
                let c = ((size + 0xFFF) / 0x1000) as int;
                let step = spec_dealloc_regions(old(self).regions(), b, c);
                &&& final(self).regions() == step.0
                &&& step.1 ==> final(self).spec_free_size() == old(self).spec_free_size() + c
                    * 0x1000 && final(self).spec_lost_size() == old(self).spec_lost_size()
                &&& !step.1 ==> final(self).spec_free_size() == old(self).spec_free_size()
                    && final(self).spec_lost_size() == old(self).spec_lost_size() + c * 0x1000
                    && final(self).regions() == old(self).regions()
            }),
    {
        let pages: u64 = (size as u64 + 0xFFF) / 0x1000;
        let ghost b = base.spec_u64() as int / 0x1000;
        let ghost c = pages as int;
        let page_base = base.as_u64() / 0x1000;
        let new_entry_word = page_base | (pages << 32);
        proof {
            assert(page_base < 0x1_0000_0000 && pages < 0x1_0000_0000 ==> (page_base | (pages
                << 32)) & 0xFFFF_FFFF == page_base && (page_base | (pages << 32)) >> 32 == pages)
                by (bit_vector);
            lemma_pack_fields(b, c);
            lemma_pair_ext(MemFreePair(new_entry_word), spec_pack(b, c));
        }
        let new_entry = MemFreePair(new_entry_word);
        let ghost rs = self.mem_list@;
        match self.find_first_adjacent(page_base, pages) {
            Some(k) => {
                let mut pair = self.mem_list[k];
                proof {
                    pair.lemma_field_bounds();
                    assert(spans_disjoint(pair.base_page() as int, pair.count() as int, b, c));
                }
                let merged = pair.try_merge(new_entry);
                proof {
                    assert(merged is Ok);
                    lemma_pack_fields(rs[k as int].base_page() as int, rs[k as int].count() + c);
                    lemma_pack_fields(b, rs[k as int].count() + c);
                    lemma_pair_ext(pair, spec_merged(rs[k as int], b, c));
                }
                self.mem_list.set(k, pair);
                proof {
                    lemma_total_update(rs, k as int, pair);
                    lemma_total_upper(rs);
                }
                self.free_pages = self.free_pages + pages * 0x1000;
                self.n_fragments = self.mem_list.len();
                proof {
                    let rs1 = self.mem_list@;
                    assert forall|x: int, y: int|
                        0 <= x < rs1.len() && 0 <= y < rs1.len() && x != y implies spans_disjoint(
                        #[trigger] rs1[x].base_page() as int,
                        rs1[x].count() as int,
                        #[trigger] rs1[y].base_page() as int,
                        rs1[y].count() as int,
                    ) by {
                        assert(spans_disjoint(
                            rs[x].base_page() as int,
                            rs[x].count() as int,
                            rs[y].base_page() as int,
                            rs[y].count() as int,
                        ));
                        if x == k {
                            assert(spans_disjoint(b, c, rs[y].base_page() as int, rs[y].count() as int));
                        }
                        if y == k {
                            assert(spans_disjoint(b, c, rs[x].base_page() as int, rs[x].count() as int));
                        }
                    }
                }
            },
            None => {
                if self.mem_list.len() < MAX_FREE_PAIRS {
                    self.mem_list.push(new_entry);
                    proof {
                        lemma_total_push(rs, new_entry);
                        lemma_total_upper(rs);
                    }
                    self.free_pages = self.free_pages + pages * 0x1000;
                    self.n_fragments = self.mem_list.len();
                } else {
                    proof {
                        lemma_total_upper(rs);
                    }
                    self.lost_size = self.lost_size + pages * 0x1000;
                    self.n_fragments = self.mem_list.len();
                }
            },
        }
    }

    /// General-purpose kernel allocation: small fixed-size requests
    /// would go to a slab sub-allocator, but none is mounted in this
    /// boot core, so every request falls back to whole-page
    /// allocation.  Alignments beyond page granularity are unsupported
    /// and refused.  Returns the directly mapped address of the
    /// carved-out span and records it as the most recent allocation.
    pub fn zalloc(&mut self, size: usize, align: usize) -> (r: Option<u64>)
        requires
            old(self).wf(),
            size + 0xFFF <= u64::MAX,
        ensures
            final(self).wf(),
            final(self).spec_lost_size() == old(self).spec_lost_size(),
            final(self).spec_early_start() == old(self).spec_early_start(),
            final(self).spec_early_end() == old(self).spec_early_end(),
            align > 0x1000 ==> r is None && *final(self) == *old(self),
            align <= 0x1000 ==> ({
                let pages = ((size + 0xFFF) / 0x1000) as int;
                let step = spec_alloc_regions(old(self).regions(), pages);
                &&& final(self).regions() == step.0
                &&& match step.1 {
                    Some(bp) => r == Some((bp * 0x1000) as u64) && bp * 0x1000 != 0
                        && final(self).spec_free_size() == old(self).spec_free_size() - pages
                        * 0x1000 && final(self).spec_last_alloc_ptr() == bp * 0x1000,
                    None => r is None && final(self).spec_free_size() == old(self).spec_free_size()
                        && final(self).spec_last_alloc_ptr() == old(self).spec_last_alloc_ptr(),
                }
            }),
    {
        if align > 0x1000 {
            return None;
        }
        match self.alloc_pages(size) {
            Some(pa) => {
                let addr = pa.as_u64();
                self.last_alloc_ptr = addr;
                Some(addr)
            },
            None => None,
        }
    }

    /// Deallocation counterpart of `zalloc`.  Freed memory is
    /// overwritten with a sentinel byte by the unsafe layer before the
    /// block is considered released; a slab sub-allocator would take
    /// small blocks back first, but none is mounted in this boot core,
    /// so every block returns to the page allocator.  Freeing nothing
    /// is a no-op.
    pub fn zfree(&mut self, base: Option<u64>, size: usize) -> (r: Result<(), DeallocationError>)
        requires
            old(self).wf(),
            size + 0xFFF <= u64::MAX,
            (base matches Some(b) ==> b % 0x1000 == 0 && b != 0 && b / 0x1000 + (size + 0xFFF)
                / 0x1000 < 0x1_0000_0000 && old(self).spec_lost_size() + ((size + 0xFFF) / 0x1000)
                * 0x1000 <= u64::MAX && span_free_of(
                old(self).regions(),
                b as int / 0x1000,
                ((size + 0xFFF) / 0x1000) as int,
            )),
        ensures
            final(self).wf(),
            r is Ok,
            base is None ==> *final(self) == *old(self),
            (base matches Some(b) ==> ({
                let c = ((size + 0xFFF) / 0x1000) as int;
                let step = spec_dealloc_regions(old(self).regions(), b as int / 0x1000, c);
                &&& final(self).regions() == step.0
                &&& step.1 ==> final(self).spec_free_size() == old(self).spec_free_size() + c
                    * 0x1000 && final(self).spec_lost_size() == old(self).spec_lost_size()
                &&& !step.1 ==> final(self).spec_free_size() == old(self).spec_free_size()
                    && final(self).spec_lost_size() == old(self).spec_lost_size() + c * 0x1000
                    && final(self).regions() == old(self).regions()
            })),
    {
        match base {
            None => Ok(()),
            Some(b) => {
                self.dealloc_pages(PhysicalAddress::new(b), size);
                Ok(())
            },
        }
    }

    /// One-shot initialization of the general allocator from a boot
    /// memory source.  With a device tree, the reported memory ranges
    /// — clipped against the kernel image — become the free regions;
    /// malformed or missing range data degrades to an error, never to
    /// a fault.  Firmware memory maps belong to other ports of this
    /// kernel and are refused here.
    pub fn init(&mut self, via: InitializationSource, kernel_end: PhysicalAddress) -> (r: Result<
        (),
        AllocationError,
    >)
        requires
            old(self).wf(),
            old(self).regions().len() == 0,
            1 <= kernel_end.spec_u64(),
            kernel_end.spec_u64() + 0xFFF <= u64::MAX,
            (via matches InitializationSource::DeviceTree(dt) ==> dt.wf()),
        ensures
            final(self).wf(),
            match via {
                InitializationSource::Uefi(_) => r == Err::<(), AllocationError>(
                    AllocationError::Unsupported,
                ) && *final(self) == *old(self),
                InitializationSource::DeviceTree(dt) => match dt.spec_memory_ranges() {
                    None => r == Err::<(), AllocationError>(AllocationError::InvalidArgument)
                        && *final(self) == *old(self),
                    Some(pairs) => {
                        let ranges = pairs_as_ranges(pairs);
                        if ranges_ok(ranges) && ranges.len() <= MAX_FREE_PAIRS && sum_sizes(ranges)
                            <= u64::MAX {
                            &&& r is Ok
                            &&& final(self).regions() == seed_regions(
                                ranges,
                                spec_round_up(kernel_end.spec_u64() as int, 0x1000),
                            )
                            &&& final(self).spec_free_size() == total_free_bytes(
                                final(self).regions(),
                            )
                            &&& final(self).spec_n_fragments() == final(self).regions().len()
                        } else {
                            r == Err::<(), AllocationError>(AllocationError::InvalidArgument)
                                && *final(self) == *old(self)
                        }
                    },
                },
            },
    {
        match via {
            InitializationSource::Uefi(_) => Err(AllocationError::Unsupported),
            InitializationSource::DeviceTree(dt) => {
                let ranges = match dt.memory_ranges() {
                    Some(v) => v,
                    None => {
                        return Err(AllocationError::InvalidArgument);
                    },
                };
                proof {
                    let pairs = dt.spec_memory_ranges().unwrap();
                    assert forall|i: int| 0 <= i < ranges@.len() implies ranges@[i]
                        == pairs_as_ranges(pairs)[i] by {
                        lemma_pa_value(pairs[i].0 as u64);
                        lemma_pa_ext(ranges@[i].0, spec_pa(pairs[i].0 as u64));
                    }
                    assert(ranges@ =~= pairs_as_ranges(pairs));
                }
                if !ranges_acceptable(&ranges) {
                    return Err(AllocationError::InvalidArgument);
                }
                self.init_with_ranges(&ranges, kernel_end);
                Ok(())
            },
        }
    }

    /// Clips a firmware memory range against the kernel image so the
    /// allocator never hands out the kernel's own pages: `kernel_end`
    /// is rounded up to a page boundary and everything below it is
    /// withheld.
    pub fn fix_memlist(base: PhysicalAddress, size: u64, kernel_end: PhysicalAddress) -> (r: (
        PhysicalAddress,
        u64,
    ))
        requires
            base.spec_u64() + size <= u64::MAX,
            kernel_end.spec_u64() + 0xFFF <= u64::MAX,
        ensures
            ({
                let e = spec_round_up(kernel_end.spec_u64() as int, 0x1000);
                let clip = spec_clip(base.spec_u64() as int, size as int, e);
                r.0.spec_u64() == clip.0 && r.1 == clip.1
            }),
    {
        proof {
            vstd::arithmetic::power2::lemma2_to64();
            assert(0x1000u64 == vstd::arithmetic::power2::pow2(12));
        }
        let end = kernel_end.rounding_up(0x1000);
        let area_end = base.as_u64() + size;
        if base.as_u64() >= end.as_u64() {
            (base, size)
        } else if area_end < end.as_u64() {
            (PhysicalAddress::null(), 0)
        } else {
            let diff = end.as_u64() - base.as_u64();
            (end, size - diff)
        }
    }

    /// Seeds the free-region collection from firmware-reported memory
    /// ranges, one entry per range that still holds pages once the
    /// kernel image is clipped out; the free byte counter becomes the
    /// sum over the collection.  One-shot: runs on a manager whose
    /// collection is still empty.
    pub fn init_with_ranges(
        &mut self,
        ranges: &Vec<(PhysicalAddress, u64)>,
        kernel_end: PhysicalAddress,
    )
        requires
            old(self).wf(),
            old(self).regions().len() == 0,
            ranges_ok(ranges@),
            ranges@.len() <= MAX_FREE_PAIRS,
            sum_sizes(ranges@) <= u64::MAX,
            1 <= kernel_end.spec_u64(),
            kernel_end.spec_u64() + 0xFFF <= u64::MAX,
        ensures
            final(self).wf(),
            final(self).regions() == seed_regions(
                ranges@,
                spec_round_up(kernel_end.spec_u64() as int, 0x1000),
            ),
            final(self).spec_free_size() == total_free_bytes(final(self).regions()),
            final(self).spec_n_fragments() == final(self).regions().len(),
            final(self).spec_lost_size() == old(self).spec_lost_size(),
            final(self).spec_early_start() == old(self).spec_early_start(),
            final(self).spec_early_end() == old(self).spec_early_end(),
    {
        let ghost e = spec_round_up(kernel_end.spec_u64() as int, 0x1000);
        let ghost all = ranges@;
        let ghost early0 = self.early_start;
        let ghost early1 = self.early_end;
        let ghost lost0 = self.lost_size;
        let ghost reserved0 = self.reserved_memory_size;
        proof {
            vstd::arithmetic::power2::lemma2_to64();
            assert(0x1000u64 == vstd::arithmetic::power2::pow2(12));
            vstd::arithmetic::div_mod::lemma_mod_multiples_basic(
                (kernel_end.spec_u64() + 0xFFF) as int / 0x1000,
                0x1000,
            );
            vstd::arithmetic::div_mod::lemma_div_is_ordered(
                0x1000,
                kernel_end.spec_u64() + 0xFFF,
                0x1000,
            );
            assert(e >= 0x1000) by (nonlinear_arith)
                requires
                    e == ((kernel_end.spec_u64() + 0xFFF) as int / 0x1000) * 0x1000,
                    (kernel_end.spec_u64() + 0xFFF) as int / 0x1000 >= 1,
            ;
        }
        let mut free: u64 = 0;
        let mut i: usize = 0;
        while i < ranges.len()
            invariant
                ranges@ == all,
                ranges_ok(all),
                sum_sizes(all) <= u64::MAX,
                all.len() <= MAX_FREE_PAIRS,
                kernel_end.spec_u64() + 0xFFF <= u64::MAX,
                e == spec_round_up(kernel_end.spec_u64() as int, 0x1000),
                e % 0x1000 == 0,
                0 <= e,
                0 <= i <= all.len(),
                self.mem_list@ == seed_regions(all.subrange(0, i as int), e),
                free == total_free_bytes(self.mem_list@),
                free <= sum_sizes(all.subrange(0, i as int)),
                self.early_start == early0,
                self.early_end == early1,
                self.lost_size == lost0,
                self.reserved_memory_size == reserved0,
                self.spec_page_size_ok(),
            decreases all.len() - i,
        {
            let (cb, cs) = Self::fix_memlist(ranges[i].0, ranges[i].1, kernel_end);
            let ghost prefix = all.subrange(0, i as int);
            proof {
                assert(all.subrange(0, i as int + 1) =~= prefix.push(all[i as int]));
                lemma_seed_push(prefix, all[i as int], e);
                lemma_sum_prefix_bound(all, i as int + 1);
            }
            if cs > 0 {
                proof {
                    let b = all[i as int].0.spec_u64() as int;
                    let s = all[i as int].1 as int;
                    assert(cb.spec_u64() % 0x1000 == 0 && cs % 0x1000 == 0);
                    lemma_aligned_div_sum(cb.spec_u64() as int, cs as int);
                    lemma_aligned_div_sum(b, s);
                    lemma_div_ordered(cb.spec_u64() + cs, b + s);
                }
                let pair = MemFreePair::new(cb, cs);
                proof {
                    lemma_pack_fields(cb.spec_u64() as int / 0x1000, cs as int / 0x1000);
                    lemma_pair_ext(pair, spec_pack(cb.spec_u64() as int / 0x1000, cs as int / 0x1000));
                    lemma_total_push(self.mem_list@, pair);
                    lemma_aligned_div_exact(cs as int);
                }
                self.mem_list.push(pair);
                free = free + cs;
            }
            i = i + 1;
        }
        proof {
            assert(all.subrange(0, all.len() as int) =~= all);
            lemma_seed_props(all, e);
        }
        self.free_pages = free;
        self.n_fragments = self.mem_list.len();
    }
}

/// A first-fit result points at a real entry with room.
proof fn lemma_first_fit_valid(rs: Seq<MemFreePair>, pages: int, i: int, k: int)
    requires
        0 <= i,
        first_fit_from(rs, pages, i) == Some(k),
    ensures
        i <= k < rs.len(),
        rs[k].count() >= pages,
        forall|j: int| i <= j < k ==> (#[trigger] rs[j]).count() < pages,
    decreases rs.len() - i,
{
    if i < rs.len() && rs[i].count() < pages {
        lemma_first_fit_valid(rs, pages, i + 1, k);
    }
}

/// A merge-scan result points at a real, adjacent entry.
proof fn lemma_first_adjacent_valid(rs: Seq<MemFreePair>, b: int, c: int, i: int, k: int)
    requires
        0 <= i,
        first_adjacent_from(rs, b, c, i) == Some(k),
    ensures
        i <= k < rs.len(),
        rs[k].end_page() == b || b + c == rs[k].base_page(),
    decreases rs.len() - i,
{
    if i < rs.len() && !(rs[i].end_page() == b || b + c == rs[i].base_page()) {
        lemma_first_adjacent_valid(rs, b, c, i + 1, k);
    }
}

/// A merge scan that finds nothing leaves no entry adjacent.
proof fn lemma_first_adjacent_none(rs: Seq<MemFreePair>, b: int, c: int, i: int)
    requires
        0 <= i <= rs.len(),
        first_adjacent_from(rs, b, c, i) is None,
    ensures
        forall|j: int|
            i <= j < rs.len() ==> !((#[trigger] rs[j]).end_page() == b || b + c
                == rs[j].base_page()),
    decreases rs.len() - i,
{
    if i < rs.len() {
        lemma_first_adjacent_none(rs, b, c, i + 1);
    }
}

/// What one allocation step does to a well-formed collection: entries
/// stay well formed and pairwise disjoint, the collection keeps its
/// length, and the total drops by exactly the pages carved out.
pub proof fn lemma_alloc_step(rs: Seq<MemFreePair>, pages: int)
    requires
        regions_wf(rs),
        regions_disjoint(rs),
        0 <= pages,
    ensures
        ({
            let (rs1, r) = spec_alloc_regions(rs, pages);
            &&& regions_wf(rs1)
            &&& regions_disjoint(rs1)
            &&& rs1.len() == rs.len()
            &&& match r {
                Some(bp) => total_free_bytes(rs1) == total_free_bytes(rs) - pages * 0x1000
                    && span_free_of(rs1, bp, pages),
                None => rs1 == rs,
            }
        }),
{
    let (rs1, r) = spec_alloc_regions(rs, pages);
    match first_fit_from(rs, pages, 0) {
        Some(k) => {
            lemma_first_fit_valid(rs, pages, 0, k);
            rs[k].lemma_field_bounds();
            let b = rs[k].base_page() as int;
            let c = rs[k].count() as int;
            lemma_pack_fields(b + pages, c - pages);
            let p1 = spec_pack(b + pages, c - pages);
            lemma_total_update(rs, k, p1);
            assert(p1.size_bytes() == rs[k].size_bytes() - pages * 0x1000) by (nonlinear_arith)
                requires
                    p1.count() == c - pages,
                    rs[k].count() == c,
                    p1.size_bytes() == p1.count() * 0x1000,
                    rs[k].size_bytes() == rs[k].count() * 0x1000,
            ;
            assert forall|x: int, y: int|
                0 <= x < rs1.len() && 0 <= y < rs1.len() && x != y implies spans_disjoint(
                #[trigger] rs1[x].base_page() as int,
                rs1[x].count() as int,
                #[trigger] rs1[y].base_page() as int,
                rs1[y].count() as int,
            ) by {
                assert(spans_disjoint(
                    rs[x].base_page() as int,
                    rs[x].count() as int,
                    rs[y].base_page() as int,
                    rs[y].count() as int,
                ));
            }
            assert forall|j: int| 0 <= j < rs1.len() implies spans_disjoint(
                rs1[j].base_page() as int,
                rs1[j].count() as int,
                b,
                pages,
            ) by {
                if j != k {
                    assert(spans_disjoint(rs[j].base_page() as int, rs[j].count() as int, b, c));
                }
            }
        },
        None => {},
    }
}

/// What one deallocation step does to a well-formed collection, given
/// that the span being freed is not already tracked as free.
pub proof fn lemma_dealloc_step(rs: Seq<MemFreePair>, b: int, c: int)
    requires
        regions_wf(rs),
        regions_disjoint(rs),
        rs.len() <= MAX_FREE_PAIRS,
        0 <= b,
        0 <= c,
        b + c < 0x1_0000_0000,
        span_free_of(rs, b, c),
    ensures
        ({
            let (rs1, absorbed) = spec_dealloc_regions(rs, b, c);
            &&& regions_wf(rs1)
            &&& regions_disjoint(rs1)
            &&& rs1.len() <= MAX_FREE_PAIRS
            &&& absorbed ==> total_free_bytes(rs1) == total_free_bytes(rs) + c * 0x1000
            &&& !absorbed ==> rs1 == rs
            &&& absorbed == (first_adjacent_from(rs, b, c, 0) is Some || rs.len() < MAX_FREE_PAIRS)
        }),
{
    let (rs1, absorbed) = spec_dealloc_regions(rs, b, c);
    match first_adjacent_from(rs, b, c, 0) {
        Some(k) => {
            lemma_first_adjacent_valid(rs, b, c, 0, k);
            rs[k].lemma_field_bounds();
            let kb = rs[k].base_page() as int;
            let kc = rs[k].count() as int;
            let m = spec_merged(rs[k], b, c);
            if rs[k].end_page() == b {
                lemma_pack_fields(kb, kc + c);
            } else {
                lemma_pack_fields(b, kc + c);
            }
            lemma_total_update(rs, k, m);
            assert(m.size_bytes() == rs[k].size_bytes() + c * 0x1000) by (nonlinear_arith)
                requires
                    m.count() == kc + c,
                    rs[k].count() == kc,
                    m.size_bytes() == m.count() * 0x1000,
                    rs[k].size_bytes() == rs[k].count() * 0x1000,
            ;
            assert(spans_disjoint(kb, kc, b, c));
            assert forall|x: int, y: int|
                0 <= x < rs1.len() && 0 <= y < rs1.len() && x != y implies spans_disjoint(
                #[trigger] rs1[x].base_page() as int,
                rs1[x].count() as int,
                #[trigger] rs1[y].base_page() as int,
                rs1[y].count() as int,
            ) by {
                assert(spans_disjoint(
                    rs[x].base_page() as int,
                    rs[x].count() as int,
                    rs[y].base_page() as int,
                    rs[y].count() as int,
                ));
                if x == k {
                    assert(spans_disjoint(b, c, rs[y].base_page() as int, rs[y].count() as int));
                }
                if y == k {
                    assert(spans_disjoint(b, c, rs[x].base_page() as int, rs[x].count() as int));
                }
            }
        },
        None => {
            if rs.len() < MAX_FREE_PAIRS {
                lemma_pack_fields(b, c);
                lemma_total_push(rs, spec_pack(b, c));
                assert(spec_pack(b, c).size_bytes() == c * 0x1000) by (nonlinear_arith)
                    requires
                        spec_pack(b, c).count() == c,
                        spec_pack(b, c).size_bytes() == spec_pack(b, c).count() * 0x1000,
                ;
                assert forall|x: int, y: int|
                    0 <= x < rs1.len() && 0 <= y < rs1.len() && x != y implies spans_disjoint(
                    #[trigger] rs1[x].base_page() as int,
                    rs1[x].count() as int,
                    #[trigger] rs1[y].base_page() as int,
                    rs1[y].count() as int,
                ) by {
                    if x < rs.len() && y < rs.len() {
                        assert(spans_disjoint(
                            rs[x].base_page() as int,
                            rs[x].count() as int,
                            rs[y].base_page() as int,
                            rs[y].count() as int,
                        ));
                    } else if x < rs.len() {
                        assert(spans_disjoint(rs[x].base_page() as int, rs[x].count() as int, b, c));
                    } else {
                        assert(spans_disjoint(rs[y].base_page() as int, rs[y].count() as int, b, c));
                    }
                }
            }
        },
    }
}

/// One operation against the allocator, as it acts on the free-region
/// collection.
pub enum MemOp {
    /// Allocate this many pages.
    Alloc { pages: int },
    /// Free the span `[base_page, base_page + pages)`.
    Free { base_page: int, pages: int },
}

/// The collection after one operation.
pub open spec fn step_regions(rs: Seq<MemFreePair>, op: MemOp) -> Seq<MemFreePair> {
    match op {
        MemOp::Alloc { pages } => spec_alloc_regions(rs, pages).0,
        MemOp::Free { base_page, pages } => spec_dealloc_regions(rs, base_page, pages).0,
    }
}

/// The collection after a whole sequence of operations.
pub open spec fn run_ops(rs: Seq<MemFreePair>, ops: Seq<MemOp>) -> Seq<MemFreePair>
    decreases ops.len(),
{
    if ops.len() == 0 {
        rs
    } else {
        run_ops(step_regions(rs, ops[0]), ops.drop_first())
    }
}

/// An operation sequence is valid when every allocation asks for a
/// sensible count and every free returns a span the collection does
/// not already hold, judged against the state the operation meets.
pub open spec fn ops_valid(rs: Seq<MemFreePair>, ops: Seq<MemOp>) -> bool
    decreases ops.len(),
{
    if ops.len() == 0 {
        true
    } else {
        let ok = match ops[0] {
            MemOp::Alloc { pages } => 0 <= pages,
            MemOp::Free { base_page, pages } => 0 <= base_page && 0 <= pages && base_page + pages
                < 0x1_0000_0000 && span_free_of(rs, base_page, pages),
        };
        ok && ops_valid(step_regions(rs, ops[0]), ops.drop_first())
    }
}

/// Bytes the sequence takes out of the collection: each allocation
/// that found room counts fully, failed ones count nothing.
pub open spec fn taken_bytes(rs: Seq<MemFreePair>, ops: Seq<MemOp>) -> int
    decreases ops.len(),
{
    if ops.len() == 0 {
        0
    } else {
        let here = match ops[0] {
            MemOp::Alloc { pages } => if spec_alloc_regions(rs, pages).1 is Some {
                pages * 0x1000
            } else {
                0
            },
            MemOp::Free { .. } => 0,
        };
        here + taken_bytes(step_regions(rs, ops[0]), ops.drop_first())
    }
}

/// Bytes the sequence puts back: each free that was absorbed counts
/// fully, spans lost to a full collection count nothing.
pub open spec fn returned_bytes(rs: Seq<MemFreePair>, ops: Seq<MemOp>) -> int
    decreases ops.len(),
{
    if ops.len() == 0 {
        0
    } else {
        let here = match ops[0] {
            MemOp::Alloc { .. } => 0,
            MemOp::Free { base_page, pages } => if spec_dealloc_regions(
                rs,
                base_page,
                pages,
            ).1 {
                pages * 0x1000
            } else {
                0
            },
        };
        here + returned_bytes(step_regions(rs, ops[0]), ops.drop_first())
    }
}

/// Conservation: across any valid sequence of allocations and
/// deallocations, the free byte total moves by exactly what was taken
/// out minus what was put back — no span is counted twice and none
/// leaks.  Since `free_memory_size` equals this total on every
/// well-formed manager, the counter obeys the same law.
pub proof fn lemma_total_conservation(rs: Seq<MemFreePair>, ops: Seq<MemOp>)
    requires
        regions_wf(rs),
        regions_disjoint(rs),
        rs.len() <= MAX_FREE_PAIRS,
        ops_valid(rs, ops),
    ensures
        ({
            let rs1 = run_ops(rs, ops);
            &&& regions_wf(rs1)
            &&& regions_disjoint(rs1)
            &&& rs1.len() <= MAX_FREE_PAIRS
            &&& total_free_bytes(rs1) == total_free_bytes(rs) - taken_bytes(rs, ops)
                + returned_bytes(rs, ops)
        }),
    decreases ops.len(),
{
    if ops.len() > 0 {
        let rs1 = step_regions(rs, ops[0]);
        match ops[0] {
            MemOp::Alloc { pages } => {
                lemma_alloc_step(rs, pages);
            },
            MemOp::Free { base_page, pages } => {
                lemma_dealloc_step(rs, base_page, pages);
            },
        }
        lemma_total_conservation(rs1, ops.drop_first());
    }
}

/// Full deallocation restores the initial free size: when every byte a
/// sequence took out was eventually returned and absorbed, the free
/// total ends exactly where initialization left it.
pub proof fn lemma_free_size_restored(rs: Seq<MemFreePair>, ops: Seq<MemOp>)
    requires
        regions_wf(rs),
        regions_disjoint(rs),
        rs.len() <= MAX_FREE_PAIRS,
        ops_valid(rs, ops),
        taken_bytes(rs, ops) == returned_bytes(rs, ops),
    ensures
        total_free_bytes(run_ops(rs, ops)) == total_free_bytes(rs),
{
    lemma_total_conservation(rs, ops);
}

/// Ledger entries are sensible spans inside the 32-bit page plane.
pub open spec fn live_ok(live: Seq<(int, int)>) -> bool {
    forall|t: int|
        0 <= t < live.len() ==> 0 <= (#[trigger] live[t]).0 && 0 <= live[t].1 && live[t].0
            + live[t].1 < 0x1_0000_0000
}

/// An allocation ledger: the spans handed out and not yet returned.
/// They are pairwise disjoint and foreign to every free region.
pub open spec fn separated(rs: Seq<MemFreePair>, live: Seq<(int, int)>) -> bool {
    &&& forall|t: int| 0 <= t < live.len() ==> span_free_of(rs, (#[trigger] live[t]).0, live[t].1)
    &&& forall|t1: int, t2: int|
        0 <= t1 < live.len() && 0 <= t2 < live.len() && t1 != t2 ==> spans_disjoint(
            (#[trigger] live[t1]).0,
            live[t1].1,
            (#[trigger] live[t2]).0,
            live[t2].1,
        )
}

/// No allocation overlaps another outstanding one: a span that
/// allocation hands out is disjoint from every span already handed out
/// and not yet returned, and the ledger extended by it is separated
/// again — so by induction no two live allocations ever share a page.
pub proof fn lemma_alloc_no_overlap(rs: Seq<MemFreePair>, live: Seq<(int, int)>, pages: int)
    requires
        regions_wf(rs),
        regions_disjoint(rs),
        separated(rs, live),
        live_ok(live),
        0 <= pages,
        spec_alloc_regions(rs, pages).1 is Some,
    ensures
        ({
            let (rs1, r) = spec_alloc_regions(rs, pages);
            let span = (r.unwrap(), pages);
            &&& forall|t: int|
                0 <= t < live.len() ==> spans_disjoint(
                    span.0,
                    span.1,
                    (#[trigger] live[t]).0,
                    live[t].1,
                )
            &&& separated(rs1, live.push(span))
            &&& live_ok(live.push(span))
        }),
{
    let (rs1, r) = spec_alloc_regions(rs, pages);
    let k = match first_fit_from(rs, pages, 0) {
        Some(k) => k,
        None => 0,
    };
    lemma_first_fit_valid(rs, pages, 0, k);
    lemma_alloc_step(rs, pages);
    rs[k].lemma_field_bounds();
    let b = rs[k].base_page() as int;
    let c = rs[k].count() as int;
    let span = (b, pages);
    assert forall|t: int| 0 <= t < live.len() implies spans_disjoint(
        span.0,
        span.1,
        (#[trigger] live[t]).0,
        live[t].1,
    ) by {
        assert(spans_disjoint(b, c, live[t].0, live[t].1));
    }
    assert forall|t: int| 0 <= t < live.push(span).len() implies span_free_of(
        rs1,
        (#[trigger] live.push(span)[t]).0,
        live.push(span)[t].1,
    ) by {
        if t < live.len() {
            assert(span_free_of(rs, live[t].0, live[t].1));
            assert forall|j: int| 0 <= j < rs1.len() implies spans_disjoint(
                rs1[j].base_page() as int,
                rs1[j].count() as int,
                live[t].0,
                live[t].1,
            ) by {
                assert(spans_disjoint(
                    rs[j].base_page() as int,
                    rs[j].count() as int,
                    live[t].0,
                    live[t].1,
                ));
                if j == k {
                    lemma_pack_fields(b + pages, c - pages);
                }
            }
        } else {
            assert(live.push(span)[t] == span);
        }
    }
}

/// Returning a span removes it from the ledger and leaves the rest
/// separated: freed memory keeps clear of all still-live allocations.
pub proof fn lemma_dealloc_keeps_separation(
    rs: Seq<MemFreePair>,
    live: Seq<(int, int)>,
    t: int,
)
    requires
        regions_wf(rs),
        regions_disjoint(rs),
        rs.len() <= MAX_FREE_PAIRS,
        separated(rs, live),
        live_ok(live),
        0 <= t < live.len(),
    ensures
        separated(spec_dealloc_regions(rs, live[t].0, live[t].1).0, live.remove(t)),
        live_ok(live.remove(t)),
{
    let b = live[t].0;
    let c = live[t].1;
    let rs1 = spec_dealloc_regions(rs, b, c).0;
    lemma_dealloc_step(rs, b, c);
    let rest = live.remove(t);
    assert forall|u: int| 0 <= u < rest.len() implies span_free_of(
        rs1,
        (#[trigger] rest[u]).0,
        rest[u].1,
    ) by {
        let v = if u < t {
            u
        } else {
            u + 1
        };
        assert(rest[u] == live[v]);
        assert(span_free_of(rs, live[v].0, live[v].1));
        assert(spans_disjoint(b, c, live[v].0, live[v].1));
        assert forall|j: int| 0 <= j < rs1.len() implies spans_disjoint(
            rs1[j].base_page() as int,
            rs1[j].count() as int,
            live[v].0,
            live[v].1,
        ) by {
            match first_adjacent_from(rs, b, c, 0) {
                Some(k) => {
                    lemma_first_adjacent_valid(rs, b, c, 0, k);
                    rs[k].lemma_field_bounds();
                    assert(spans_disjoint(
                        rs[j].base_page() as int,
                        rs[j].count() as int,
                        live[v].0,
                        live[v].1,
                    ));
                    if j == k {
                        let kb = rs[k].base_page() as int;
                        let kc = rs[k].count() as int;
                        let m = spec_merged(rs[k], b, c);
                        let lv0 = live[v].0;
                        let lv1 = live[v].1;
                        if rs[k].end_page() == b {
                            lemma_pack_fields(kb, kc + c);
                            assert(m.base_page() == kb && m.count() == kc + c);
                            assert(kb + kc == b);
                        } else {
                            lemma_pack_fields(b, kc + c);
                            assert(m.base_page() as int == b && m.count() == kc + c);
                            assert(b + c == kb);
                        }
                        assert(spans_disjoint(kb, kc, lv0, lv1));
                        assert(spans_disjoint(b, c, lv0, lv1));
                        assert(spans_disjoint(m.base_page() as int, m.count() as int, lv0, lv1));
                    }
                },
                None => {
                    if rs.len() < MAX_FREE_PAIRS {
                        if j < rs.len() {
                            assert(spans_disjoint(
                                rs[j].base_page() as int,
                                rs[j].count() as int,
                                live[v].0,
                                live[v].1,
                            ));
                        } else {
                            lemma_pack_fields(b, c);
                        }
                    } else {
                        assert(spans_disjoint(
                            rs[j].base_page() as int,
                            rs[j].count() as int,
                            live[v].0,
                            live[v].1,
                        ));
                    }
                },
            }
        }
    }
}

/// Entries with pages in them never sit end-to-start against each
/// other.
pub open spec fn no_adjacent_pairs(rs: Seq<MemFreePair>) -> bool {
    forall|i: int, j: int|
        0 <= i < rs.len() && 0 <= j < rs.len() && i != j && (#[trigger] rs[i]).count() > 0 && (
        #[trigger] rs[j]).count() > 0 ==> rs[i].end_page() != rs[j].base_page()
}

/// A span with an adjacent region always merges: deallocation then
/// adds no entry to the collection.
pub proof fn lemma_dealloc_merges(rs: Seq<MemFreePair>, b: int, c: int)
    requires
        first_adjacent_from(rs, b, c, 0) is Some,
    ensures
        spec_dealloc_regions(rs, b, c).0.len() == rs.len(),
        spec_dealloc_regions(rs, b, c).1,
{
    match first_adjacent_from(rs, b, c, 0) {
        Some(k) => {
            lemma_first_adjacent_valid(rs, b, c, 0, k);
        },
        None => {
            assert(false);
        },
    }
}

/// Deallocating a span that touches at most one region keeps the
/// collection free of mutually adjacent entries.  (A span that exactly
/// bridges the gap between two regions merges into the first of them
/// and then touches the second; such spans are left out here.)
pub proof fn lemma_dealloc_no_adjacent(rs: Seq<MemFreePair>, b: int, c: int)
    requires
        regions_wf(rs),
        regions_disjoint(rs),
        rs.len() <= MAX_FREE_PAIRS,
        no_adjacent_pairs(rs),
        span_free_of(rs, b, c),
        0 <= b,
        0 < c,
        b + c < 0x1_0000_0000,
        forall|i: int, j: int|
            0 <= i < rs.len() && 0 <= j < rs.len() && i != j ==> !((#[trigger] rs[i]).spec_adjacent(
                spec_pack(b, c),
            ) && (#[trigger] rs[j]).spec_adjacent(spec_pack(b, c))),
    ensures
        no_adjacent_pairs(spec_dealloc_regions(rs, b, c).0),
{
    lemma_pack_fields(b, c);
    let rs1 = spec_dealloc_regions(rs, b, c).0;
    match first_adjacent_from(rs, b, c, 0) {
        Some(k) => {
            lemma_first_adjacent_valid(rs, b, c, 0, k);
            rs[k].lemma_field_bounds();
            let kb = rs[k].base_page() as int;
            let kc = rs[k].count() as int;
            let m = spec_merged(rs[k], b, c);
            if rs[k].end_page() == b {
                lemma_pack_fields(kb, kc + c);
            } else {
                lemma_pack_fields(b, kc + c);
            }
            assert forall|i: int, j: int|
                0 <= i < rs1.len() && 0 <= j < rs1.len() && i != j && (#[trigger] rs1[i]).count()
                    > 0 && (#[trigger] rs1[j]).count() > 0 implies rs1[i].end_page()
                != rs1[j].base_page() by {
                if i != k && j != k {
                    assert(rs1[i] == rs[i] && rs1[j] == rs[j]);
                } else if i == k {
                    // the merged entry ends where the span or the old
                    // entry ended; a region starting there would be a
                    // second adjacency or an old adjacency
                    rs[j].lemma_field_bounds();
                    if rs1[i].end_page() == rs1[j].base_page() {
                        if rs[k].end_page() == b {
                            assert(m.end_page() == b + c);
                            assert(rs[j].spec_adjacent(spec_pack(b, c)));
                            assert(rs[k].spec_adjacent(spec_pack(b, c)));
                        } else {
                            assert(m.end_page() == rs[k].end_page());
                            if rs[k].count() > 0 {
                                assert(rs[k].end_page() != rs[j].base_page());
                            } else {
                                assert(m.end_page() == b + c);
                                assert(rs[j].spec_adjacent(spec_pack(b, c)));
                            }
                        }
                    }
                } else {
                    rs[i].lemma_field_bounds();
                    if rs1[i].end_page() == rs1[j].base_page() {
                        if rs[k].end_page() == b {
                            assert(m.base_page() == rs[k].base_page());
                            if rs[k].count() > 0 {
                                assert(rs[i].end_page() != rs[k].base_page());
                            } else {
                                assert(m.base_page() as int == b);
                                assert(rs[i].spec_adjacent(spec_pack(b, c)));
                                assert(rs[k].spec_adjacent(spec_pack(b, c)));
                            }
                        } else {
                            assert(m.base_page() as int == b);
                            assert(rs[i].spec_adjacent(spec_pack(b, c)));
                            assert(rs[k].spec_adjacent(spec_pack(b, c)));
                        }
                    }
                }
            }
        },
        None => {
            lemma_first_adjacent_none(rs, b, c, 0);
            if rs.len() < MAX_FREE_PAIRS {
                assert forall|i: int, j: int|
                    0 <= i < rs1.len() && 0 <= j < rs1.len() && i != j && (#[trigger] rs1[i]).count()
                        > 0 && (#[trigger] rs1[j]).count() > 0 implies rs1[i].end_page()
                    != rs1[j].base_page() by {
                    if i < rs.len() && j < rs.len() {
                        assert(rs1[i] == rs[i] && rs1[j] == rs[j]);
                    } else if i < rs.len() {
                        assert(!(rs[i].end_page() == b || b + c == rs[i].base_page()));
                    } else {
                        assert(!(rs[j].end_page() == b || b + c == rs[j].base_page()));
                    }
                }
            }
        },
    }
}

/// Why an allocation request was refused.
#[derive(Debug, Clone, Copy, PartialEq, Eq, Structural)]
pub enum AllocationError {
    Unexpected,
    OutOfMemory,
    InvalidArgument,
    Unsupported,
}

/// Why a deallocation request was refused.
#[derive(Debug, Clone, Copy, PartialEq, Eq, Structural)]
pub enum DeallocationError {
    Unexpected,
    InvalidArgument,
    Unsupported,
}

/// Where the memory manager's free regions come from at boot.
pub enum InitializationSource<'a> {
    /// The firmware-provided device tree.
    DeviceTree(&'a DeviceTree),
    /// A firmware memory map; outside this boot core.
    Uefi(usize),
}

/// The decoded device-tree pairs as allocator seeding input.
pub open spec fn pairs_as_ranges(pairs: Seq<(int, int)>) -> Seq<(PhysicalAddress, u64)> {
    Seq::new(pairs.len(), |i: int| (spec_pa(pairs[i].0 as u64), pairs[i].1 as u64))
}

/// Whether a list of ranges is acceptable seeding input, decided at
/// run time: page-aligned, bounded, pairwise disjoint, within the
/// collection's capacity, and with a representable byte total.
fn ranges_acceptable(ranges: &Vec<(PhysicalAddress, u64)>) -> (r: bool)
    ensures
        r == (ranges_ok(ranges@) && ranges@.len() <= MAX_FREE_PAIRS && sum_sizes(ranges@)
            <= u64::MAX),
{
    let ghost rs = ranges@;
    let n = ranges.len();
    if n > MAX_FREE_PAIRS {
        return false;
    }
    let mut i: usize = 0;
    while i < n
        invariant
            rs == ranges@,
            n == rs.len(),
            0 <= i <= n,
            forall|j: int| 0 <= j < i ==> range_ok(#[trigger] rs[j]),
        decreases n - i,
    {
        let (b, sz) = ranges[i];
        let bv = b.as_u64();
        if bv % 0x1000 != 0 || sz % 0x1000 != 0 || sz > u64::MAX - bv || bv / 0x1000 + sz / 0x1000
            >= 0x1_0000_0000 {
            return false;
        }
        i = i + 1;
    }
    let mut i: usize = 0;
    while i < n
        invariant
            rs == ranges@,
            n == rs.len(),
            0 <= i <= n,
            forall|x: int, y: int|
                0 <= x < i && 0 <= y < n && x != y ==> ranges_disjoint(
                    #[trigger] rs[x],
                    #[trigger] rs[y],
                ),
        decreases n - i,
    {
        let mut j: usize = 0;
        while j < n
            invariant
                rs == ranges@,
                n == rs.len(),
                0 <= i < n,
                0 <= j <= n,
                forall|x: int, y: int|
                    0 <= x < i && 0 <= y < n && x != y ==> ranges_disjoint(
                        #[trigger] rs[x],
                        #[trigger] rs[y],
                    ),
                forall|y: int| 0 <= y < j && y != i ==> ranges_disjoint(rs[i as int], #[trigger] rs[y]),
            decreases n - j,
        {
            if j != i {
                let (bi, si) = ranges[i];
                let (bj, sj) = ranges[j];
                if !(si == 0 || sj == 0 || (si <= u64::MAX - bi.as_u64() && bi.as_u64() + si
                    <= bj.as_u64()) || (sj <= u64::MAX - bj.as_u64() && bj.as_u64() + sj
                    <= bi.as_u64())) {
                    return false;
                }
            }
            j = j + 1;
        }
        proof {
            assert forall|x: int, y: int|
                0 <= x < i + 1 && 0 <= y < n && x != y implies ranges_disjoint(
                #[trigger] rs[x],
                #[trigger] rs[y],
            ) by {
                if x == i {
                    assert(ranges_disjoint(rs[i as int], rs[y]));
                } else if y == i {
                    assert(ranges_disjoint(rs[i as int], rs[x]));
                }
            }
        }
        i = i + 1;
    }
    let mut total: u64 = 0;
    let mut i: usize = 0;
    while i < n
        invariant
            rs == ranges@,
            n == rs.len(),
            0 <= i <= n,
            total == sum_sizes(rs.subrange(0, i as int)),
        decreases n - i,
    {
        proof {
            assert(rs.subrange(0, i as int + 1) =~= rs.subrange(0, i as int).push(rs[i as int]));
            lemma_seed_push(rs.subrange(0, i as int), rs[i as int], 0);
            lemma_sum_prefix_bound(rs, i as int + 1);
        }
        let (_, sz) = ranges[i];
        if sz > u64::MAX - total {
            return false;
        }
        total = total + sz;
        i = i + 1;
    }
    proof {
        assert(rs.subrange(0, n as int) =~= rs);
    }
    true
}

} // verus!
