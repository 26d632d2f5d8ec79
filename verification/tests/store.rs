use objstore::bytes::{bytes_eq, copy_range, find_byte};
use objstore::hash::{is_valid_object_id, object_id, object_path};
use objstore::store::{get, hash_object, put};
use objstore::{Corrupt, Error, Kind, Object};
use std::io::Write;

fn compress(raw: &[u8]) -> Vec<u8> {
    let mut e = flate2::write::ZlibEncoder::new(Vec::new(), flate2::Compression::default());
    e.write_all(raw).unwrap();
    e.finish().unwrap()
}

#[test]
fn write_then_inspect() {
    let stored = put(Kind::Blob, 5, b"hello").unwrap();
    let object = get(Some(&stored.data)).unwrap();
    assert_eq!(object.kind, Kind::Blob);
    assert_eq!(object.expected_size, 5);
    assert_eq!(object.content, b"hello".to_vec());
}

#[test]
fn put_gives_the_sha1_of_the_record() {
    let stored = put(Kind::Blob, 5, b"hello").unwrap();
    assert_eq!(stored.hash, b"b6fc4c620b67d95f953a5c1c1230aaab5db5a1b0".to_vec());
    assert_eq!(
        stored.path,
        b"objects/b6/fc4c620b67d95f953a5c1c1230aaab5db5a1b0".to_vec()
    );
    let stored = put(Kind::Blob, 0, b"").unwrap();
    assert_eq!(stored.hash, b"e69de29bb2d1d6434b8b29ae775ad8c2e48c5391".to_vec());
    let stored = put(Kind::Blob, 6, b"hello\n").unwrap();
    assert_eq!(stored.hash, b"ce013625030ba8dba906f756967f9e9ca394464a".to_vec());
    let stored = put(Kind::Tree, 0, b"").unwrap();
    assert_eq!(stored.hash, b"4b825dc642cb6eb9a060e54bf8d69288fbee4904".to_vec());
}

#[test]
fn put_data_is_the_compressed_record() {
    let stored = put(Kind::Commit, 3, b"abc").unwrap();
    assert_eq!(stored.data, compress(b"commit 3\0abc"));
    assert_ne!(stored.data, b"commit 3\0abc".to_vec());
}

#[test]
fn round_trip_every_kind() {
    for kind in [Kind::Blob, Kind::Tree, Kind::Commit] {
        for content in [&b""[..], &b"x"[..], &b"a\0b c\n"[..], &[0u8; 5000][..]] {
            let stored = put(kind, content.len() as u64, content).unwrap();
            let object = Object::read_object(Some(&stored.data)).unwrap();
            assert_eq!(object.kind, kind);
            assert_eq!(object.expected_size, content.len() as u64);
            assert_eq!(object.content, content.to_vec());
            let record = objstore::codec::encode_record(kind, content.len() as u64, content).unwrap();
            assert_eq!(stored.hash, object_id(&record));
        }
    }
}

#[test]
fn put_twice_is_put_once() {
    let first = put(Kind::Blob, 11, b"same content").err();
    assert!(matches!(first, Some(Error::SizeMismatch)));
    let first = put(Kind::Blob, 12, b"same content").unwrap();
    let second = put(Kind::Blob, 12, b"same content").unwrap();
    assert_eq!(first.hash, second.hash);
    assert_eq!(first.path, second.path);
    assert_eq!(first.data, second.data);
}

#[test]
fn kind_is_part_of_the_hash() {
    let blob = put(Kind::Blob, 3, b"abc").unwrap();
    let commit = put(Kind::Commit, 3, b"abc").unwrap();
    assert_ne!(blob.hash, commit.hash);
}

#[test]
fn hash_object_is_puts_hash() {
    let hash = hash_object(Kind::Blob, 5, b"hello").unwrap();
    assert_eq!(hash, b"b6fc4c620b67d95f953a5c1c1230aaab5db5a1b0".to_vec());
    assert!(matches!(hash_object(Kind::Blob, 4, b"hello"), Err(Error::SizeMismatch)));
}

#[test]
fn corruption_detection() {
    let file = compress(b"blob 3\0hello");
    let r = get(Some(&file));
    assert!(matches!(r, Err(Error::CorruptObject(Corrupt::OversizedContent))));
}

#[test]
fn short_content_is_a_size_mismatch() {
    let file = compress(b"blob 9\0hello");
    let r = get(Some(&file));
    assert!(matches!(r, Err(Error::SizeMismatch)));
}

#[test]
fn get_header_grammar() {
    let r = get(Some(&compress(b"blob 5hello")));
    assert!(matches!(r, Err(Error::CorruptObject(Corrupt::MissingHeaderTerminator))));
    let r = get(Some(&compress(b"blob5\0hello")));
    assert!(matches!(r, Err(Error::CorruptObject(Corrupt::MalformedHeader))));
    let r = get(Some(&compress(b"blob abc\0hello")));
    assert!(matches!(r, Err(Error::CorruptObject(Corrupt::InvalidSize))));
    let r = get(Some(&compress(b"blub 5\0hello")));
    assert!(matches!(r, Err(Error::CorruptObject(Corrupt::UnknownKind(_)))));
}

#[test]
fn get_nothing_is_not_found() {
    assert!(matches!(get(None), Err(Error::NotFound)));
    assert!(matches!(Object::read_object(None), Err(Error::NotFound)));
}

#[test]
fn get_broken_stream_is_io_failure() {
    assert!(matches!(get(Some(b"not a zlib stream")), Err(Error::IoFailure)));
    assert!(matches!(get(Some(b"")), Err(Error::IoFailure)));
    let mut file = compress(b"blob 5\0hello");
    file.truncate(file.len() - 3);
    assert!(matches!(get(Some(&file)), Err(Error::IoFailure)));
}

#[test]
fn object_id_is_forty_hex_digits() {
    let id = object_id(b"blob 0\0");
    assert_eq!(id, b"e69de29bb2d1d6434b8b29ae775ad8c2e48c5391".to_vec());
    assert!(is_valid_object_id(&id));
    assert_ne!(id, b"blob 0\0".to_vec());
}

#[test]
fn object_id_validation() {
    assert!(is_valid_object_id(b"b6fc4c620b67d95f953a5c1c1230aaab5db5a1b0"));
    assert!(!is_valid_object_id(b"b6fc4c6"));
    assert!(!is_valid_object_id(b""));
    assert!(!is_valid_object_id(b"B6FC4C620B67D95F953A5C1C1230AAAB5DB5A1B0"));
    assert!(!is_valid_object_id(b"g6fc4c620b67d95f953a5c1c1230aaab5db5a1b0"));
    assert!(!is_valid_object_id(b"b6fc4c620b67d95f953a5c1c1230aaab5db5a1b0a"));
    assert!(!is_valid_object_id(b"b6fc4c620b67d95f953a5c1c1230aaab5db5a1b/"));
}

#[test]
fn object_path_shards_by_two_digits() {
    let path = object_path(b"0123456789abcdef0123456789abcdef01234567");
    assert_eq!(path, b"objects/01/23456789abcdef0123456789abcdef01234567".to_vec());
}

#[test]
fn byte_helpers() {
    assert_eq!(find_byte(b"abc\0def\0", 0, 0), Some(3));
    assert_eq!(find_byte(b"abc\0def\0", 4, 0), Some(3));
    assert_eq!(find_byte(b"abc\0def\0", 8, 0), None);
    assert_eq!(find_byte(b"abc", 0, 0), None);
    assert_eq!(find_byte(b"", 0, 0), None);
    assert!(bytes_eq(b"abc", b"abc"));
    assert!(!bytes_eq(b"abc", b"abd"));
    assert!(!bytes_eq(b"abc", b"ab"));
    assert!(bytes_eq(b"", b""));
    assert_eq!(copy_range(b"hello", 1, 4), b"ell".to_vec());
    assert_eq!(copy_range(b"hello", 2, 2), Vec::<u8>::new());
    let mut out = b"ab".to_vec();
    objstore::bytes::append(&mut out, b"cd");
    assert_eq!(out, b"abcd".to_vec());
}
