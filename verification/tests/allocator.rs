//! Allocator behaviour on concrete boot scenarios.

use rydia::mm::{MemFreePair, MemoryManager};
use rydia::pa::{NonNullPhysicalAddress, PhysicalAddress};

/// A manager seeded with one free region of base 0x1000 and nine
/// pages, as if firmware had reported that single range and the
/// kernel image ended below it.
fn seeded_manager() -> MemoryManager {
    let mut mm = MemoryManager::new();
    let ranges = vec![(PhysicalAddress::new(0x1000), 0x9000u64)];
    mm.init_with_ranges(&ranges, PhysicalAddress::new(1));
    mm
}

#[test]
fn allocate_then_free_coalesces_to_initial_region() {
    let mut mm = seeded_manager();
    assert_eq!(mm.free_memory_size(), 0x9000);
    assert_eq!(mm.n_fragments(), 1);

    let a = mm.alloc_pages(0x3000).expect("three pages fit");
    assert_eq!(a.as_u64(), 0x1000);
    assert_eq!(mm.free_memory_size(), 0x6000);

    mm.dealloc_pages(a, 0x3000);
    assert_eq!(mm.free_memory_size(), 0x9000);
    assert_eq!(mm.n_fragments(), 1);
}

#[test]
fn early_alloc_exhausts_its_window() {
    let mut mm = MemoryManager::new();
    mm.init_early(PhysicalAddress::new(0x8000), 0x1000);

    let first = mm.early_alloc(0x800, 0x1000);
    assert_eq!(first.expect("first half fits").as_u64(), 0x8000);

    let second = mm.early_alloc(0x800, 0x1000);
    assert!(second.is_none(), "window is exhausted after the first cut");
}

#[test]
fn rounding_up_is_idempotent() {
    let a = PhysicalAddress::new(0x1234);
    let once = a.rounding_up(0x1000);
    let twice = once.rounding_up(0x1000);
    assert_eq!(once.as_u64(), 0x2000);
    assert_eq!(twice.as_u64(), once.as_u64());
}

#[test]
fn rounding_up_keeps_aligned_addresses() {
    let a = PhysicalAddress::new(0x4000);
    assert_eq!(a.rounding_up(0x1000).as_u64(), 0x4000);
    assert_eq!(a.rounding_up(0x4000).as_u64(), 0x4000);
}

#[test]
fn allocation_rounds_to_whole_pages() {
    let mut mm = seeded_manager();
    let a = mm.alloc_pages(0x1001).expect("two pages fit");
    assert_eq!(a.as_u64(), 0x1000);
    assert_eq!(mm.free_memory_size(), 0x7000);
}

#[test]
fn allocations_never_overlap() {
    let mut mm = seeded_manager();
    let a = mm.alloc_pages(0x2000).expect("fits");
    let b = mm.alloc_pages(0x3000).expect("fits");
    let a_end = a.as_u64() + 0x2000;
    let b_end = b.as_u64() + 0x3000;
    assert!(a_end <= b.as_u64() || b_end <= a.as_u64());
}

#[test]
fn allocation_fails_when_no_region_suffices() {
    let mut mm = seeded_manager();
    assert!(mm.alloc_pages(0xA000).is_none());
    assert_eq!(mm.free_memory_size(), 0x9000, "a refused request changes nothing");
}

#[test]
fn freed_span_with_no_neighbor_becomes_new_region() {
    let mut mm = seeded_manager();
    let a = mm.alloc_pages(0x2000).expect("fits");
    let b = mm.alloc_pages(0x2000).expect("fits");
    let _keep = mm.alloc_pages(0x1000).expect("fits");
    assert_eq!(a.as_u64(), 0x1000);
    assert_eq!(b.as_u64(), 0x3000);
    // freeing the first span leaves a hole before the still-live pages
    mm.dealloc_pages(a, 0x2000);
    assert_eq!(mm.n_fragments(), 2);
    assert_eq!(mm.free_memory_size(), 0x6000);
}

#[test]
fn adjacent_free_regions_merge() {
    let mut mm = seeded_manager();
    let a = mm.alloc_pages(0x2000).expect("fits");
    let b = mm.alloc_pages(0x2000).expect("fits");
    mm.dealloc_pages(a, 0x2000);
    assert_eq!(mm.n_fragments(), 2);
    // the second span glues the hole back onto the free tail
    mm.dealloc_pages(b, 0x2000);
    assert_eq!(mm.n_fragments(), 2);
    assert_eq!(mm.free_memory_size(), 0x9000);
}

#[test]
fn zalloc_and_zfree_round_trip() {
    let mut mm = seeded_manager();
    let p = mm.zalloc(0x1000, 0x8).expect("page-aligned request succeeds");
    assert_eq!(p, 0x1000);
    assert_ne!(p, 0, "a successful allocation is never the null address");
    assert_eq!(mm.last_alloc_ptr(), 0x1000);
    assert_eq!(mm.free_memory_size(), 0x8000);
    assert!(mm.zalloc(0x1000, 0x2000).is_none(), "alignment beyond a page is unsupported");
    assert!(mm.zfree(Some(p), 0x1000).is_ok());
    assert_eq!(mm.free_memory_size(), 0x9000, "the freed block returns to the page allocator");
    assert_eq!(mm.n_fragments(), 1, "and coalesces back into the region it came from");
    assert!(mm.zfree(None, 0x1000).is_ok(), "freeing nothing is a no-op");
    assert_eq!(mm.free_memory_size(), 0x9000);
}

#[test]
fn fix_memlist_clips_the_kernel_image() {
    // range entirely above the kernel: untouched
    let (b, s) = MemoryManager::fix_memlist(
        PhysicalAddress::new(0x10_0000),
        0x4000,
        PhysicalAddress::new(0x8000),
    );
    assert_eq!((b.as_u64(), s), (0x10_0000, 0x4000));
    // range inside the kernel: vanishes
    let (b, s) = MemoryManager::fix_memlist(
        PhysicalAddress::new(0x1000),
        0x2000,
        PhysicalAddress::new(0x8000),
    );
    assert_eq!((b.as_u64(), s), (0, 0));
    // straddling range: keeps only its upper part
    let (b, s) = MemoryManager::fix_memlist(
        PhysicalAddress::new(0x4000),
        0x8000,
        PhysicalAddress::new(0x7123),
    );
    assert_eq!((b.as_u64(), s), (0x8000, 0x4000));
}

#[test]
fn init_skips_ranges_the_kernel_occupies() {
    let mut mm = MemoryManager::new();
    let ranges = vec![
        (PhysicalAddress::new(0x0), 0x8000u64),
        (PhysicalAddress::new(0x10_0000), 0x10_000u64),
    ];
    mm.init_with_ranges(&ranges, PhysicalAddress::new(0x8000));
    // the first range is exactly the kernel image and vanishes
    assert_eq!(mm.n_fragments(), 1);
    assert_eq!(mm.free_memory_size(), 0x10_000);
}

#[test]
fn non_null_address_refuses_the_sentinel() {
    assert!(NonNullPhysicalAddress::new(PhysicalAddress::new(0)).is_none());
    let p = NonNullPhysicalAddress::new(PhysicalAddress::new(0x1000)).unwrap();
    assert_eq!(p.get().as_u64(), 0x1000);
}

#[test]
fn address_arithmetic_is_exact() {
    let a = PhysicalAddress::new(0x2000);
    assert_eq!(a.add_offset(0x500).as_u64(), 0x2500);
    assert_eq!(a.sub_offset(0x800).as_u64(), 0x1800);
    assert_eq!(a.diff(&PhysicalAddress::new(0x1000)), 0x1000);
    assert!(PhysicalAddress::null().is_null());
    assert_eq!(a.as_usize(), 0x2000);
    assert_eq!(PhysicalAddress::from_usize(7).as_u64(), 7);
}

#[test]
fn free_pair_packs_base_and_count() {
    let p = MemFreePair::new(PhysicalAddress::new(0x5000), 0x3000);
    assert_eq!(p.base().as_u64(), 0x5000);
    assert_eq!(p.size(), 0x3000);
    assert_eq!(p.raw(), 0x5 | (0x3 << 32));
    let e = MemFreePair::empty();
    assert_eq!(e.size(), 0);
}

#[test]
fn free_pair_carves_from_the_front() {
    let mut p = MemFreePair::new(PhysicalAddress::new(0x5000), 0x3000);
    let got = p.carve(0x1000).expect("one page fits");
    assert_eq!(got.as_u64(), 0x5000);
    assert_eq!(p.base().as_u64(), 0x6000);
    assert_eq!(p.size(), 0x2000);
    assert!(p.carve(0x3000).is_err());
}

#[test]
fn free_pair_merges_either_side() {
    let mut p = MemFreePair::new(PhysicalAddress::new(0x5000), 0x2000);
    let after = MemFreePair::new(PhysicalAddress::new(0x7000), 0x1000);
    assert!(p.try_merge(after).is_ok());
    assert_eq!((p.base().as_u64(), p.size()), (0x5000, 0x3000));
    let before = MemFreePair::new(PhysicalAddress::new(0x4000), 0x1000);
    assert!(p.try_merge(before).is_ok());
    assert_eq!((p.base().as_u64(), p.size()), (0x4000, 0x4000));
    let far = MemFreePair::new(PhysicalAddress::new(0x9000), 0x1000);
    assert!(p.try_merge(far).is_err());
}

#[test]
fn overflowing_the_bookkeeping_loses_the_span_safely() {
    // a region large enough for 2100 pages, fully allocated
    let mut mm = MemoryManager::new();
    let ranges = vec![(PhysicalAddress::new(0x1000), 2100 * 0x1000u64)];
    mm.init_with_ranges(&ranges, PhysicalAddress::new(1));
    let base = mm.alloc_pages(2100 * 0x1000).expect("whole region fits").as_u64();
    assert_eq!(mm.free_memory_size(), 0);

    // freeing every other page creates one fragment each time; the
    // collection holds 1024 entries (one is the drained seed region)
    for i in 0..1023u64 {
        mm.dealloc_pages(PhysicalAddress::new(base + i * 2 * 0x1000), 0x1000);
    }
    assert_eq!(mm.n_fragments(), 1024);
    assert_eq!(mm.free_memory_size(), 1023 * 0x1000);
    assert_eq!(mm.lost_size(), 0);

    // the next isolated page cannot be recorded: it is lost, the
    // collection and the free count stay sound
    mm.dealloc_pages(PhysicalAddress::new(base + 2048 * 0x1000), 0x1000);
    assert_eq!(mm.n_fragments(), 1024);
    assert_eq!(mm.free_memory_size(), 1023 * 0x1000);
    assert_eq!(mm.lost_size(), 0x1000);

    // an adjacent span still merges fine afterwards
    mm.dealloc_pages(PhysicalAddress::new(base + 1 * 0x1000), 0x1000);
    assert_eq!(mm.n_fragments(), 1024);
    assert_eq!(mm.free_memory_size(), 1024 * 0x1000);
}
