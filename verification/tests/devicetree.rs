//! Device-tree parsing against a hand-assembled blob.

use rydia::dt::{DeviceTree, Header, NodeName, PropName, Token};
use rydia::mm::{AllocationError, InitializationSource, MemoryManager};
use rydia::pa::PhysicalAddress;

fn push_be32(out: &mut Vec<u8>, v: u32) {
    out.extend_from_slice(&v.to_be_bytes());
}

fn push_be64(out: &mut Vec<u8>, v: u64) {
    out.extend_from_slice(&v.to_be_bytes());
}

/// Pushes a NUL-terminated name padded to a cell boundary.
fn push_name(out: &mut Vec<u8>, name: &str) {
    out.extend_from_slice(name.as_bytes());
    out.push(0);
    while out.len() % 4 != 0 {
        out.push(0);
    }
}

const FDT_BEGIN_NODE: u32 = 1;
const FDT_END_NODE: u32 = 2;
const FDT_PROP: u32 = 3;
const FDT_END: u32 = 9;

// Offsets into the strings block below.
const STR_ADDRESS_CELLS: u32 = 0;
const STR_SIZE_CELLS: u32 = 15;
const STR_REG: u32 = 27;
const STR_MODEL: u32 = 31;

/// A minimal blob: one reserved range, a root with cell counts and a
/// model, and a `memory@1000` node carrying one two-plus-one-cell
/// range (base 0x1000, size 0x9000).
fn sample_blob() -> Vec<u8> {
    let strings = b"#address-cells\0#size-cells\0reg\0model\0";

    let mut structure: Vec<u8> = Vec::new();
    push_be32(&mut structure, FDT_BEGIN_NODE);
    push_name(&mut structure, "");
    push_be32(&mut structure, FDT_PROP);
    push_be32(&mut structure, 4);
    push_be32(&mut structure, STR_ADDRESS_CELLS);
    push_be32(&mut structure, 2);
    push_be32(&mut structure, FDT_PROP);
    push_be32(&mut structure, 4);
    push_be32(&mut structure, STR_SIZE_CELLS);
    push_be32(&mut structure, 1);
    push_be32(&mut structure, FDT_PROP);
    push_be32(&mut structure, 5);
    push_be32(&mut structure, STR_MODEL);
    push_name(&mut structure, "Test");
    push_be32(&mut structure, FDT_BEGIN_NODE);
    push_name(&mut structure, "memory@1000");
    push_be32(&mut structure, FDT_PROP);
    push_be32(&mut structure, 12);
    push_be32(&mut structure, STR_REG);
    push_be32(&mut structure, 0);
    push_be32(&mut structure, 0x1000);
    push_be32(&mut structure, 0x9000);
    push_be32(&mut structure, FDT_END_NODE);
    push_be32(&mut structure, FDT_END_NODE);
    push_be32(&mut structure, FDT_END);

    let off_mem_rsvmap = 40u32;
    let off_dt_struct = off_mem_rsvmap + 32;
    let off_dt_strings = off_dt_struct + structure.len() as u32;
    let totalsize = off_dt_strings + strings.len() as u32;

    let mut blob: Vec<u8> = Vec::new();
    push_be32(&mut blob, 0xD00DFEED);
    push_be32(&mut blob, totalsize);
    push_be32(&mut blob, off_dt_struct);
    push_be32(&mut blob, off_dt_strings);
    push_be32(&mut blob, off_mem_rsvmap);
    push_be32(&mut blob, 0x11);
    push_be32(&mut blob, 0x10);
    push_be32(&mut blob, 0);
    push_be32(&mut blob, strings.len() as u32);
    push_be32(&mut blob, structure.len() as u32);
    // reserved map: one entry, then the zero terminator
    push_be64(&mut blob, 0x100);
    push_be64(&mut blob, 0x200);
    push_be64(&mut blob, 0);
    push_be64(&mut blob, 0);
    blob.extend_from_slice(&structure);
    blob.extend_from_slice(strings);
    blob
}

#[test]
fn header_fields_decode_from_the_wire() {
    let blob = sample_blob();
    let h = Header::parse(&blob).expect("blob holds a header");
    assert!(h.is_valid());
    assert_eq!(h.magic(), 0xD00DFEED);
    assert_eq!(h.version(), 0x11);
    assert_eq!(h.last_comp_version(), 0x10);
    assert_eq!(h.off_mem_rsvmap(), 40);
    assert_eq!(h.off_dt_struct(), 72);
    assert_eq!(h.total_size(), blob.len());
}

#[test]
fn truncated_or_alien_blobs_are_refused() {
    assert!(Header::parse(&vec![0u8; 12]).is_none());
    assert!(DeviceTree::parse(vec![0u8; 64]).is_err(), "wrong magic");
    let mut blob = sample_blob();
    blob[23] = 0xFF;
    assert!(DeviceTree::parse(blob).is_err(), "corrupt version word");
}

#[test]
fn reserved_maps_stop_at_the_terminator() {
    let blob = sample_blob();
    let h = Header::parse(&blob).unwrap();
    assert_eq!(h.reserved_maps(&blob), vec![(0x100u64, 0x200u64)]);
}

#[test]
fn the_token_stream_walks_the_structure_block() {
    let dt = DeviceTree::parse(sample_blob()).expect("valid blob");
    let tokens = dt.tokens();
    assert_eq!(tokens.len(), 8);
    assert!(matches!(tokens[0], Token::BeginNode { name_len: 0, .. }));
    assert!(matches!(tokens[1], Token::Prop { data_len: 4, .. }));
    assert!(matches!(tokens[4], Token::BeginNode { name_len: 11, .. }));
    assert!(matches!(tokens[5], Token::Prop { data_len: 12, .. }));
    assert!(matches!(tokens[6], Token::EndNode));
    assert!(matches!(tokens[7], Token::EndNode));
}

#[test]
fn root_properties_are_found_and_children_are_not() {
    let dt = DeviceTree::parse(sample_blob()).expect("valid blob");
    let (_, len) = dt.find_root_prop(&PropName::new("model")).expect("model exists");
    assert_eq!(len, 5);
    assert!(dt.find_root_prop(&PropName::new("reg")).is_none(), "reg lives in a child node");
    assert!(dt.find_root_prop(&PropName::new("missing")).is_none());
}

#[test]
fn first_level_search_strips_unit_addresses() {
    let dt = DeviceTree::parse(sample_blob()).expect("valid blob");
    let (_, len) = dt
        .find_first_level_prop(&NodeName::new("memory"), &PropName::new("reg"))
        .expect("memory@1000 matches the bare name");
    assert_eq!(len, 12);
    assert!(dt.find_first_level_prop(&NodeName::new("cpus"), &PropName::new("reg")).is_none());
}

#[test]
fn model_comes_back_as_a_string() {
    let dt = DeviceTree::parse(sample_blob()).expect("valid blob");
    assert_eq!(dt.root_model(), Some("Test"));
}

#[test]
fn memory_ranges_decode_the_reg_cells() {
    let dt = DeviceTree::parse(sample_blob()).expect("valid blob");
    let ranges = dt.memory_ranges().expect("cell counts and reg are present");
    assert_eq!(ranges.len(), 1);
    assert_eq!(ranges[0].0.as_u64(), 0x1000);
    assert_eq!(ranges[0].1, 0x9000);
}

#[test]
fn node_names_strip_their_unit_address() {
    let n = NodeName::new("memory@1000");
    assert_eq!(n.without_unit().as_str(), "memory");
    let plain = NodeName::new("chosen");
    assert_eq!(plain.without_unit().as_str(), "chosen");
    assert_eq!(PropName::new("reg").as_str(), "reg");
}

#[test]
fn the_allocator_seeds_itself_from_the_tree() {
    let dt = DeviceTree::parse(sample_blob()).expect("valid blob");
    let mut mm = MemoryManager::new();
    mm.init(InitializationSource::DeviceTree(&dt), PhysicalAddress::new(1))
        .expect("well-formed ranges seed the free list");
    assert_eq!(mm.free_memory_size(), 0x9000);
    assert_eq!(mm.n_fragments(), 1);
    let a = mm.alloc_pages(0x3000).expect("three pages fit");
    assert_eq!(a.as_u64(), 0x1000);
}

#[test]
fn firmware_memory_maps_are_not_supported_here() {
    let mut mm = MemoryManager::new();
    let r = mm.init(InitializationSource::Uefi(0), PhysicalAddress::new(1));
    assert_eq!(r, Err(AllocationError::Unsupported));
}

#[test]
fn nop_cells_are_skipped_by_the_scan() {
    const FDT_NOP: u32 = 4;
    let strings = b"model\0";
    let mut st: Vec<u8> = Vec::new();
    push_be32(&mut st, FDT_BEGIN_NODE);
    push_name(&mut st, "");
    push_be32(&mut st, FDT_NOP);
    push_be32(&mut st, FDT_NOP);
    push_be32(&mut st, FDT_PROP);
    push_be32(&mut st, 3);
    push_be32(&mut st, 0);
    st.extend_from_slice(b"hi\0\0");
    push_be32(&mut st, FDT_END_NODE);
    push_be32(&mut st, FDT_END);
    let mut blob: Vec<u8> = Vec::new();
    push_be32(&mut blob, 0xD00DFEED);
    push_be32(&mut blob, 72 + st.len() as u32 + strings.len() as u32);
    push_be32(&mut blob, 72);
    push_be32(&mut blob, 72 + st.len() as u32);
    push_be32(&mut blob, 40);
    push_be32(&mut blob, 0x11);
    push_be32(&mut blob, 0x10);
    push_be32(&mut blob, 0);
    push_be32(&mut blob, strings.len() as u32);
    push_be32(&mut blob, st.len() as u32);
    blob.extend_from_slice(&[0u8; 32]);
    blob.extend_from_slice(&st);
    blob.extend_from_slice(strings);

    let dt = DeviceTree::parse(blob).expect("valid blob");
    let tokens = dt.tokens();
    assert_eq!(tokens.len(), 3, "the NOP cells yield no token");
    assert!(matches!(tokens[1], Token::Prop { data_len: 3, .. }));
    assert_eq!(dt.root_model(), Some("hi"));
}
