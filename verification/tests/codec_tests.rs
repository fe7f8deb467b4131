use std::io::Read;
use std::io::Write;

use rgit::error::Error;
use rgit::objects::{cat_file, read_object, Object, ObjectType};

fn zlib(payload: &[u8]) -> Vec<u8> {
    let mut enc = flate2::write::ZlibEncoder::new(Vec::new(), flate2::Compression::default());
    enc.write_all(payload).unwrap();
    enc.finish().unwrap()
}

#[test]
fn round_trip_blob() {
    let o = Object::new(ObjectType::Blob, b"hello\n".to_vec());
    let s = o.write().unwrap();
    let back = read_object(&s.compressed).unwrap();
    assert_eq!(back.kind, ObjectType::Blob);
    assert_eq!(back.expected_size, 6);
    assert_eq!(back.body, b"hello\n".to_vec());
}

#[test]
fn round_trip_empty_body() {
    let o = Object::new(ObjectType::Tree, Vec::new());
    let s = o.write().unwrap();
    let back = read_object(&s.compressed).unwrap();
    assert_eq!(back.kind, ObjectType::Tree);
    assert_eq!(back.expected_size, 0);
    assert!(back.body.is_empty());
}

#[test]
fn round_trip_binary_body() {
    let body: Vec<u8> = (0u16..256).map(|b| b as u8).collect();
    let o = Object::new(ObjectType::Commit, body.clone());
    let s = o.write().unwrap();
    let back = read_object(&s.compressed).unwrap();
    assert_eq!(back.kind, ObjectType::Commit);
    assert_eq!(back.expected_size, 256);
    assert_eq!(back.body, body);
}

#[test]
fn known_blob_digest() {
    // the digest of "blob 6\0hello\n"
    let o = Object::new(ObjectType::Blob, b"hello\n".to_vec());
    let s = o.write().unwrap();
    assert_eq!(s.hash_hex, b"ce013625030ba8dba906f756967f9e9ca394464a".to_vec());
    assert_eq!(s.hash.len(), 20);
    assert_eq!(hex::encode(&s.hash).into_bytes(), s.hash_hex);
}

#[test]
fn hash_is_deterministic() {
    let a = Object::new(ObjectType::Blob, b"same content".to_vec()).write().unwrap();
    let b = Object::new(ObjectType::Blob, b"same content".to_vec()).write().unwrap();
    assert_eq!(a.hash_hex, b.hash_hex);
    assert_eq!(a.compressed, b.compressed);
    let c = Object::new(ObjectType::Blob, b"other content".to_vec()).write().unwrap();
    assert_ne!(a.hash_hex, c.hash_hex);
    let d = Object::new(ObjectType::Tree, b"same content".to_vec()).write().unwrap();
    assert_ne!(a.hash_hex, d.hash_hex);
}

#[test]
fn unknown_kind_is_refused_on_write() {
    let o = Object::new(ObjectType::Unknown, b"x".to_vec());
    assert_eq!(o.write().unwrap_err(), Error::UnsupportedKind);
}

#[test]
fn size_mismatch_is_refused_on_write() {
    let o = Object { kind: ObjectType::Blob, expected_size: 7, body: b"hello\n".to_vec() };
    assert_eq!(o.write().unwrap_err(), Error::SizeMismatch);
}

#[test]
fn truncated_stream_is_corrupt() {
    let s = Object::new(ObjectType::Blob, b"hello\n".to_vec()).write().unwrap();
    let mut cut = s.compressed.clone();
    cut.pop();
    assert_eq!(read_object(&cut).unwrap_err(), Error::Corrupt);
}

#[test]
fn garbage_stream_is_corrupt() {
    assert_eq!(read_object(&b"not zlib at all".to_vec()).unwrap_err(), Error::Corrupt);
}

#[test]
fn header_without_nul_is_malformed() {
    assert_eq!(read_object(&zlib(b"blob 6")).unwrap_err(), Error::MalformedHeader);
}

#[test]
fn header_without_space_is_malformed() {
    assert_eq!(read_object(&zlib(b"blob6\0xxxxxx")).unwrap_err(), Error::MalformedHeader);
}

#[test]
fn header_with_bad_size_is_malformed() {
    assert_eq!(read_object(&zlib(b"blob 12x\0y")).unwrap_err(), Error::MalformedHeader);
    assert_eq!(read_object(&zlib(b"blob \0y")).unwrap_err(), Error::MalformedHeader);
    assert_eq!(
        read_object(&zlib(b"blob 99999999999999999999\0y")).unwrap_err(),
        Error::MalformedHeader
    );
}

#[test]
fn size_with_leading_zeros_parses() {
    let back = read_object(&zlib(b"blob 007\0x")).unwrap();
    assert_eq!(back.expected_size, 7);
}

#[test]
fn size_at_u64_max_parses() {
    let back = read_object(&zlib(b"blob 18446744073709551615\0")).unwrap();
    assert_eq!(back.expected_size, u64::MAX);
    assert!(back.body.is_empty());
}

#[test]
fn header_with_unknown_kind_decodes_to_unknown() {
    let back = read_object(&zlib(b"wibble 3\0abc")).unwrap();
    assert_eq!(back.kind, ObjectType::Unknown);
    assert_eq!(back.expected_size, 3);
    assert_eq!(back.body, b"abc".to_vec());
}

#[test]
fn header_with_invalid_utf8_is_malformed() {
    assert_eq!(read_object(&zlib(b"wib\xff 3\0abc")).unwrap_err(), Error::MalformedHeader);
}

#[test]
fn header_with_multibyte_utf8_kind_decodes_to_unknown() {
    // "wíb" is valid UTF-8, just not a known kind
    assert_eq!(read_object(&zlib(b"w\xc3\xadb 3\0abc")).unwrap().kind, ObjectType::Unknown);
}

#[test]
fn cat_file_returns_exact_body() {
    let s = Object::new(ObjectType::Blob, b"hello\n".to_vec()).write().unwrap();
    assert_eq!(cat_file(&s.compressed).unwrap(), b"hello\n".to_vec());
}

#[test]
fn cat_file_rejects_trailing_bytes() {
    assert_eq!(cat_file(&zlib(b"blob 3\0abcd")).unwrap_err(), Error::Corrupt);
}

#[test]
fn cat_file_rejects_short_body() {
    assert_eq!(cat_file(&zlib(b"blob 4\0abc")).unwrap_err(), Error::Corrupt);
}

#[test]
fn cat_file_rejects_unknown_kind() {
    assert_eq!(cat_file(&zlib(b"wibble 3\0abc")).unwrap_err(), Error::UnsupportedKind);
}

#[test]
fn cat_file_accepts_tree_and_commit_kinds() {
    let t = Object::new(ObjectType::Tree, b"x".to_vec()).write().unwrap();
    assert_eq!(cat_file(&t.compressed).unwrap(), b"x".to_vec());
    let c = Object::new(ObjectType::Commit, b"y".to_vec()).write().unwrap();
    assert_eq!(cat_file(&c.compressed).unwrap(), b"y".to_vec());
}

#[test]
fn compressed_bytes_are_real_zlib() {
    // the stored stream must round-trip through an independent inflater
    let s = Object::new(ObjectType::Blob, b"hello\n".to_vec()).write().unwrap();
    let mut dec = flate2::read::ZlibDecoder::new(s.compressed.as_slice());
    let mut out = Vec::new();
    dec.read_to_end(&mut out).unwrap();
    assert_eq!(out, b"blob 6\0hello\n".to_vec());
}
