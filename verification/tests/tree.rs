use objstore::tree::{entry_line, list_tree, padded_mode, parse_tree};
use objstore::{Corrupt, Error, Kind, Object, TreeEntry};

fn h1() -> Vec<u8> {
    (0u8..20).collect()
}

fn h2() -> Vec<u8> {
    (0u8..20).map(|i| 0xff - i).collect()
}

fn listing() -> Vec<u8> {
    let mut content = Vec::new();
    content.extend_from_slice(b"100644 a.txt\0");
    content.extend_from_slice(&h1());
    content.extend_from_slice(b"040000 dir\0");
    content.extend_from_slice(&h2());
    content
}

#[test]
fn tree_parse_two_entries_in_order() {
    let entries = parse_tree(&listing()).unwrap();
    assert_eq!(entries.len(), 2);
    assert_eq!(entries[0].mode, b"100644".to_vec());
    assert_eq!(entries[0].name, b"a.txt".to_vec());
    assert_eq!(entries[0].child_hash, b"000102030405060708090a0b0c0d0e0f10111213".to_vec());
    assert_eq!(entries[1].mode, b"040000".to_vec());
    assert_eq!(entries[1].name, b"dir".to_vec());
    assert_eq!(entries[1].child_hash, b"fffefdfcfbfaf9f8f7f6f5f4f3f2f1f0efeeedec".to_vec());
}

#[test]
fn tree_parse_empty_content() {
    assert_eq!(parse_tree(b"").unwrap().len(), 0);
}

#[test]
fn tree_parse_truncated_hash() {
    let mut content = listing();
    content.truncate(content.len() - 10);
    let r = parse_tree(&content);
    assert!(matches!(r, Err(Error::CorruptObject(Corrupt::TruncatedTreeEntry))));
    let mut content = listing();
    content.truncate(content.len() - 1);
    let r = parse_tree(&content);
    assert!(matches!(r, Err(Error::CorruptObject(Corrupt::TruncatedTreeEntry))));
    let mut content = listing();
    content.truncate(content.len() - 20);
    let r = parse_tree(&content);
    assert!(matches!(r, Err(Error::CorruptObject(Corrupt::TruncatedTreeEntry))));
}

#[test]
fn tree_parse_truncated_before_nul() {
    let r = parse_tree(b"100644 a.tx");
    assert!(matches!(r, Err(Error::CorruptObject(Corrupt::TruncatedTreeEntry))));
}

#[test]
fn tree_parse_entry_without_space() {
    let mut content = Vec::new();
    content.extend_from_slice(b"100644a.txt\0");
    content.extend_from_slice(&h1());
    let r = parse_tree(&content);
    assert!(matches!(r, Err(Error::CorruptObject(Corrupt::MalformedTreeEntry))));
}

#[test]
fn tree_parse_name_is_raw_bytes() {
    let mut content = Vec::new();
    content.extend_from_slice(b"100755 a b\xff\xfe\0");
    content.extend_from_slice(&[0u8; 20]);
    let entries = parse_tree(&content).unwrap();
    assert_eq!(entries.len(), 1);
    assert_eq!(entries[0].mode, b"100755".to_vec());
    assert_eq!(entries[0].name, b"a b\xff\xfe".to_vec());
    assert_eq!(entries[0].child_hash, vec![b'0'; 40]);
}

#[test]
fn tree_parse_hash_may_hold_nul_and_space() {
    let mut content = Vec::new();
    content.extend_from_slice(b"40000 d\0");
    content.extend_from_slice(&[0u8, 32u8, 0u8, 32u8, 0, 0, 0, 0, 0, 0, 0, 0, 0, 0, 0, 0, 0, 0, 0, 1]);
    content.extend_from_slice(b"100644 f\0");
    content.extend_from_slice(&h1());
    let entries = parse_tree(&content).unwrap();
    assert_eq!(entries.len(), 2);
    assert_eq!(entries[0].child_hash, b"0020002000000000000000000000000000000001".to_vec());
    assert_eq!(entries[1].name, b"f".to_vec());
}

#[test]
fn tree_parse_is_repeatable() {
    let content = listing();
    let a = parse_tree(&content).unwrap();
    let b = parse_tree(&content).unwrap();
    assert_eq!(a.len(), b.len());
    for i in 0..a.len() {
        assert_eq!(a[i].mode, b[i].mode);
        assert_eq!(a[i].name, b[i].name);
        assert_eq!(a[i].child_hash, b[i].child_hash);
    }
}

#[test]
fn list_tree_wants_a_tree() {
    let content = listing();
    let tree = Object { kind: Kind::Tree, expected_size: content.len() as u64, content: content.clone() };
    assert_eq!(list_tree(&tree).unwrap().len(), 2);
    let blob = Object { kind: Kind::Blob, expected_size: content.len() as u64, content: content.clone() };
    assert!(matches!(list_tree(&blob), Err(Error::UnsupportedKind(Kind::Blob))));
    let commit = Object { kind: Kind::Commit, expected_size: content.len() as u64, content };
    assert!(matches!(list_tree(&commit), Err(Error::UnsupportedKind(Kind::Commit))));
}

#[test]
fn padded_mode_fills_to_six() {
    assert_eq!(padded_mode(b"40000"), b"040000".to_vec());
    assert_eq!(padded_mode(b"100644"), b"100644".to_vec());
    assert_eq!(padded_mode(b""), b"000000".to_vec());
    assert_eq!(padded_mode(b"1234567"), b"1234567".to_vec());
}

#[test]
fn entry_line_with_and_without_kind() {
    let entry = TreeEntry {
        mode: b"40000".to_vec(),
        name: b"dir".to_vec(),
        child_hash: b"fffefdfcfbfaf9f8f7f6f5f4f3f2f1f0efeeedec".to_vec(),
    };
    assert_eq!(entry_line(&entry, None), b"dir\n".to_vec());
    assert_eq!(
        entry_line(&entry, Some(Kind::Tree)),
        b"040000 tree fffefdfcfbfaf9f8f7f6f5f4f3f2f1f0efeeedecdir\n".to_vec()
    );
}

#[test]
fn tree_parse_hash_is_lower_case_hex_high_half_first() {
    let mut content = Vec::new();
    content.extend_from_slice(b"100644 f\0");
    content.extend_from_slice(&[
        0x00, 0x0f, 0xf0, 0xab, 0x19, 0xff, 0x9a, 0xa9, 0x10, 0x01, 0xde, 0xad, 0xbe, 0xef, 0x7f,
        0x80, 0xc0, 0x0c, 0x5a, 0xa5,
    ]);
    let entries = parse_tree(&content).unwrap();
    assert_eq!(entries[0].child_hash, b"000ff0ab19ff9aa91001deadbeef7f80c00c5aa5".to_vec());
}
