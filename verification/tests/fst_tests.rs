//! File system table parsing and path lookup.

use nod::fst::{parse_fst, FstHeader, NodeKind, PartHeader};
use nod::{DiscFormatReason, Error};

fn fst_record(flag: u8, name_off: u32, offset: u32, length: u32) -> Vec<u8> {
    let mut r = Vec::new();
    r.push(flag);
    r.extend_from_slice(&name_off.to_be_bytes()[1..4]);
    r.extend_from_slice(&offset.to_be_bytes());
    r.extend_from_slice(&length.to_be_bytes());
    r
}

/// Root with end index 5; one file in the root; a subdirectory spanning
/// indices 2 to 4 holding two files.
fn five_node_table() -> Vec<u8> {
    let mut data = Vec::new();
    data.extend_from_slice(&fst_record(1, 0, 0, 5));
    data.extend_from_slice(&fst_record(0, 1, 0x100, 4)); // "X"
    data.extend_from_slice(&fst_record(1, 3, 0, 5)); // "SUB"
    data.extend_from_slice(&fst_record(0, 7, 0x200, 8)); // "A"
    data.extend_from_slice(&fst_record(0, 9, 0x300, 12)); // "B"
    data.extend_from_slice(b"\0X\0SUB\0A\0B\0");
    data
}

#[test]
fn fst_reconstruction_resolves_nested_paths() {
    let h = parse_fst(&five_node_table()).unwrap();
    assert_eq!(h.nodes.len(), 5);
    let root = h.root_node();
    assert!(matches!(root.kind, NodeKind::Directory));
    assert_eq!(root.length, 5);

    let a = h.find_node("/SUB/A").expect("A resolves");
    assert!(matches!(a.kind, NodeKind::File));
    assert_eq!(a.name, b"A".to_vec());
    assert_eq!(a.offset, 0x200);
    assert_eq!(a.length, 8);

    let b = h.find_node("/SUB/B").expect("B resolves");
    assert_eq!(b.offset, 0x300);
    assert_eq!(b.length, 12);

    assert!(h.find_node("/SUB/C").is_none());
}

#[test]
fn find_node_matches_case_sensitively_per_level() {
    let h = parse_fst(&five_node_table()).unwrap();
    assert!(h.find_node("/X").is_some());
    assert!(h.find_node("/x").is_none());
    assert!(h.find_node("/sub/A").is_none());
    // A file matched before the final segment resolves nothing.
    assert!(h.find_node("/X/Y").is_none());
    // The subdirectory itself resolves as a directory.
    let sub = h.find_node("/SUB").unwrap();
    assert!(matches!(sub.kind, NodeKind::Directory));
}

#[test]
fn find_node_skips_empty_segments() {
    let h = parse_fst(&five_node_table()).unwrap();
    assert!(h.find_node("//SUB//A/").is_some());
    assert!(h.find_node("SUB/A").is_some());
    // Nothing but separators resolves to the root.
    let r = h.find_node("/").unwrap();
    assert!(matches!(r.kind, NodeKind::Directory));
    assert_eq!(r.length, 5);
}

#[test]
fn truncated_table_is_rejected() {
    let data = vec![1u8, 0, 0, 0];
    assert_eq!(
        parse_fst(&data).unwrap_err(),
        Error::DiscFormat(DiscFormatReason::FstTruncated)
    );
    // Announces more nodes than the region holds.
    let mut data = fst_record(1, 0, 0, 100);
    data.push(0);
    assert_eq!(
        parse_fst(&data).unwrap_err(),
        Error::DiscFormat(DiscFormatReason::FstTruncated)
    );
}

#[test]
fn root_that_is_not_a_directory_is_rejected() {
    let mut data = fst_record(0, 0, 0, 1);
    data.push(0);
    assert_eq!(
        parse_fst(&data).unwrap_err(),
        Error::DiscFormat(DiscFormatReason::FstBadNodeKind)
    );
}

#[test]
fn unknown_node_tag_is_rejected() {
    let mut data = fst_record(1, 0, 0, 2);
    data.extend_from_slice(&fst_record(7, 1, 0, 0));
    data.extend_from_slice(b"\0F\0");
    assert_eq!(
        parse_fst(&data).unwrap_err(),
        Error::DiscFormat(DiscFormatReason::FstBadNodeKind)
    );
}

#[test]
fn name_offset_past_string_table_is_rejected() {
    let mut data = fst_record(1, 0, 0, 2);
    data.extend_from_slice(&fst_record(0, 0x50, 0, 0));
    data.extend_from_slice(b"\0F\0");
    assert_eq!(
        parse_fst(&data).unwrap_err(),
        Error::DiscFormat(DiscFormatReason::FstBadNameOffset)
    );
}

#[test]
fn name_without_terminator_is_rejected() {
    let mut data = fst_record(1, 0, 0, 2);
    data.extend_from_slice(&fst_record(0, 1, 0, 0));
    data.extend_from_slice(b"\0FG"); // no closing zero
    assert_eq!(
        parse_fst(&data).unwrap_err(),
        Error::DiscFormat(DiscFormatReason::FstBadNameOffset)
    );
}

#[test]
fn non_monotonic_directory_indices_are_rejected() {
    // A directory whose end index does not exceed its own index.
    let mut data = fst_record(1, 0, 0, 2);
    data.extend_from_slice(&fst_record(1, 1, 0, 1));
    data.extend_from_slice(b"\0D\0");
    assert_eq!(
        parse_fst(&data).unwrap_err(),
        Error::DiscFormat(DiscFormatReason::FstBadIndices)
    );
    // A directory whose end index exceeds the node count.
    let mut data = fst_record(1, 0, 0, 2);
    data.extend_from_slice(&fst_record(1, 1, 0, 3));
    data.extend_from_slice(b"\0D\0");
    assert_eq!(
        parse_fst(&data).unwrap_err(),
        Error::DiscFormat(DiscFormatReason::FstBadIndices)
    );
}

#[test]
fn zero_node_count_is_rejected() {
    let mut data = fst_record(1, 0, 0, 0);
    data.push(0);
    assert_eq!(
        parse_fst(&data).unwrap_err(),
        Error::DiscFormat(DiscFormatReason::FstBadIndices)
    );
}

#[test]
fn nodes_arena_is_exposed_in_table_order() {
    let h: FstHeader = parse_fst(&five_node_table()).unwrap();
    assert_eq!(h.nodes[1].name, b"X".to_vec());
    assert_eq!(h.nodes[2].name, b"SUB".to_vec());
    assert!(matches!(h.nodes[2].kind, NodeKind::Directory));
    assert_eq!(h.nodes[2].length, 5);
    assert_eq!(h.nodes[3].name, b"A".to_vec());
    assert_eq!(h.nodes[4].name, b"B".to_vec());
}
