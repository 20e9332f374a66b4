//! Translation-table construction scenarios.

use rydia::mm::MemoryManager;
use rydia::pa::PhysicalAddress;
use rydia::page::{
    AttributeIndex, Cacheable, MemmoryAttributeIndirectionRegister, PageAttributes, PageManager,
    Shareable, TcrGranule0, TcrGranule1, TcrIps, TranslationControlRegister,
    TranslationTableDescriptor,
};

#[test]
fn block_descriptors_carry_address_attributes_and_validity() {
    let attr = PageAttributes::block(Some(Shareable::Inner), AttributeIndex::Normal);
    assert_eq!(attr.bits(), 0x700);
    let d = TranslationTableDescriptor::new(PhysicalAddress::new(0x0020_0000), attr);
    assert_eq!(d.bits(), 0x0020_0000 | 0x700 | 1);
    assert!(d.is_valid());
    assert_eq!(d.oa48().as_u64(), 0x0020_0000);
    assert!(!TranslationTableDescriptor::empty().is_valid());
}

#[test]
fn attribute_classes_encode_their_fields() {
    assert_eq!(PageAttributes::block(Some(Shareable::Outer), AttributeIndex::Vram).bits(), 0x60C);
    assert_eq!(PageAttributes::block(None, AttributeIndex::Device).bits(), 0x408);
    assert_eq!(PageAttributes::table().bits(), 2);
}

#[test]
fn the_boot_translation_control_value_is_fixed() {
    let tcr = TranslationControlRegister::boot_value();
    assert_eq!(tcr.bits(), 0x1_BA19_3A19);
    assert_eq!(TranslationControlRegister::default().bits(), tcr.bits());
    let built = TranslationControlRegister::empty().config(
        TcrIps::_36bit,
        25,
        TcrGranule0::_4KB,
        Shareable::Inner,
        Cacheable::WriteThru,
        Cacheable::WriteThru,
        25,
        TcrGranule1::_4KB,
        Shareable::Inner,
        Cacheable::WriteThru,
        Cacheable::WriteThru,
    );
    assert_eq!(built.bits(), tcr.bits());
}

#[test]
fn the_attribute_indirection_value_is_fixed() {
    assert_eq!(MemmoryAttributeIndirectionRegister::boot_value().bits(), 0x4e_00_44_ff);
    assert_eq!(MemmoryAttributeIndirectionRegister::default().bits(), 0x4e_00_44_ff);
}

#[test]
fn boot_tables_cover_the_whole_space_by_class() {
    let mut mm = MemoryManager::new();
    // a generous early window for the tables themselves
    mm.init_early(PhysicalAddress::new(0x8_0000), 0x40_0000);

    let ram = vec![(PhysicalAddress::new(0), 0x4000_0000u64)];
    let vram = vec![(PhysicalAddress::new(0x3E00_0000), 0x0100_0000u64)];
    let device = vec![(PhysicalAddress::new(0x3F00_0000), 0x0100_0000u64)];
    let t = PageManager::init_early(
        &mut mm,
        &ram,
        &vram,
        &device,
        PhysicalAddress::new(0x4000_0000),
    )
    .expect("the early window holds the tables");

    // one gigabyte of space: 512 block entries, one first-level entry
    assert_eq!(t.l2.len(), 512);
    assert_eq!(t.l1.len(), 1);
    assert_eq!(t.sctlr, 0x00C0_181F);
    assert_eq!(t.ttbr0, t.l1_base.as_u64());
    assert_eq!(t.l1[0], (t.l2_base.as_u64() & 0xFFFF_FFFF_F000) | 2 | 1);

    // plain RAM below the framebuffer: normal attributes
    assert_eq!(t.l2[0], 0x700 | 1);
    assert_eq!(t.l2[10], (10 * 0x20_0000) | 0x700 | 1);
    // the framebuffer window wins over RAM
    assert_eq!(t.l2[0x1F0], (0x3E00_0000 | 0x60C | 1) as u64);
    // the MMIO window wins over everything
    assert_eq!(t.l2[0x1F8], (0x3F00_0000 | 0x408 | 1) as u64);
}

#[test]
fn table_construction_degrades_without_early_memory() {
    let mut mm = MemoryManager::new();
    let ram = vec![(PhysicalAddress::new(0), 0x4000_0000u64)];
    let r = PageManager::init_early(
        &mut mm,
        &ram,
        &Vec::new(),
        &Vec::new(),
        PhysicalAddress::new(0x4000_0000),
    );
    assert!(r.is_none(), "no early window, no tables; boot continues flat");
}

#[test]
fn direct_mapping_is_the_identity() {
    assert_eq!(PageManager::direct_mapped(PhysicalAddress::new(0x1234_5000)), 0x1234_5000);
}
