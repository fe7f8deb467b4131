use rgit::error::Error;
use rgit::ls_tree::{get_formatted_mode, get_full_output, get_mode_and_name, get_name, parse_tree};
use rgit::objects::{read_object, Object, ObjectType};
use rgit::tree::{entry_le, get_mode, write_tree, EntryMode, TreeEntry};

fn entry(mode: EntryMode, name: &[u8], hash_byte: u8) -> TreeEntry {
    TreeEntry { mode, name: name.to_vec(), child_hash: Some(vec![hash_byte; 20]) }
}

fn tree_names(entries: &Vec<TreeEntry>) -> Vec<Vec<u8>> {
    let stored = write_tree(entries, &b".rgit".to_vec()).unwrap();
    let o = read_object(&stored.compressed).unwrap();
    assert_eq!(o.kind, ObjectType::Tree);
    parse_tree(&o.body).unwrap().into_iter().map(|e| e.name).collect()
}

#[test]
fn file_foo_sorts_before_foo_txt() {
    let entries = vec![
        entry(EntryMode::Regular, b"foo.txt", 1),
        entry(EntryMode::Regular, b"foo", 2),
    ];
    assert_eq!(tree_names(&entries), vec![b"foo".to_vec(), b"foo.txt".to_vec()]);
}

#[test]
fn dir_foo_sorts_after_foo_txt() {
    let entries = vec![
        entry(EntryMode::Directory, b"foo", 1),
        entry(EntryMode::Regular, b"foo.txt", 2),
    ];
    assert_eq!(tree_names(&entries), vec![b"foo.txt".to_vec(), b"foo".to_vec()]);
}

#[test]
fn entry_le_matches_the_tie_break() {
    let foo_file = entry(EntryMode::Regular, b"foo", 1);
    let foo_dir = entry(EntryMode::Directory, b"foo", 1);
    let foo_txt = entry(EntryMode::Regular, b"foo.txt", 2);
    assert!(entry_le(&foo_file, &foo_txt));
    assert!(!entry_le(&foo_txt, &foo_file));
    assert!(entry_le(&foo_txt, &foo_dir));
    assert!(!entry_le(&foo_dir, &foo_txt));
}

#[test]
fn empty_directory_yields_no_tree() {
    let entries: Vec<TreeEntry> = Vec::new();
    assert!(write_tree(&entries, &b".rgit".to_vec()).is_none());
}

#[test]
fn directory_of_empty_subdirectories_yields_no_tree() {
    let entries = vec![
        TreeEntry { mode: EntryMode::Directory, name: b"a".to_vec(), child_hash: None },
        TreeEntry { mode: EntryMode::Directory, name: b"b".to_vec(), child_hash: None },
    ];
    assert!(write_tree(&entries, &b".rgit".to_vec()).is_none());
}

#[test]
fn reserved_directory_is_skipped() {
    let entries = vec![
        entry(EntryMode::Directory, b".rgit", 1),
        entry(EntryMode::Regular, b"kept", 2),
    ];
    assert_eq!(tree_names(&entries), vec![b"kept".to_vec()]);
}

#[test]
fn only_reserved_entries_yield_no_tree() {
    let entries = vec![entry(EntryMode::Directory, b".rgit", 1)];
    assert!(write_tree(&entries, &b".rgit".to_vec()).is_none());
}

#[test]
fn single_file_tree_body_is_exact() {
    // a directory holding one file "a.txt" with content "hello\n"
    let blob = Object::new(ObjectType::Blob, b"hello\n".to_vec()).write().unwrap();
    assert_eq!(blob.hash_hex, b"ce013625030ba8dba906f756967f9e9ca394464a".to_vec());
    let entries = vec![TreeEntry {
        mode: EntryMode::Regular,
        name: b"a.txt".to_vec(),
        child_hash: Some(blob.hash.clone()),
    }];
    let stored = write_tree(&entries, &b".rgit".to_vec()).unwrap();
    let o = read_object(&stored.compressed).unwrap();
    let mut expected = b"100644 a.txt\0".to_vec();
    expected.extend_from_slice(&blob.hash);
    assert_eq!(o.body, expected);
    assert_eq!(o.expected_size, expected.len() as u64);
}

#[test]
fn modes_are_serialized_by_kind() {
    let entries = vec![
        entry(EntryMode::Directory, b"d", 1),
        entry(EntryMode::Executable, b"x", 2),
        entry(EntryMode::Symlink, b"l", 3),
        entry(EntryMode::Regular, b"r", 4),
    ];
    let stored = write_tree(&entries, &b".rgit".to_vec()).unwrap();
    let o = read_object(&stored.compressed).unwrap();
    let parsed = parse_tree(&o.body).unwrap();
    let modes: Vec<Vec<u8>> = parsed.iter().map(|e| e.mode.clone()).collect();
    let names: Vec<Vec<u8>> = parsed.iter().map(|e| e.name.clone()).collect();
    assert_eq!(names, vec![b"d".to_vec(), b"l".to_vec(), b"r".to_vec(), b"x".to_vec()]);
    assert_eq!(
        modes,
        vec![b"40000".to_vec(), b"120000".to_vec(), b"100644".to_vec(), b"100755".to_vec()]
    );
}

#[test]
fn get_mode_follows_metadata() {
    assert_eq!(get_mode(true, false, 0o755), EntryMode::Directory);
    assert_eq!(get_mode(false, true, 0o777), EntryMode::Symlink);
    assert_eq!(get_mode(false, false, 0o755), EntryMode::Executable);
    assert_eq!(get_mode(false, false, 0o100), EntryMode::Executable);
    assert_eq!(get_mode(false, false, 0o644), EntryMode::Regular);
}

#[test]
fn parse_tree_round_trips_entries() {
    let entries = vec![
        entry(EntryMode::Regular, b"name with spaces", 7),
        entry(EntryMode::Directory, b"sub", 9),
    ];
    let stored = write_tree(&entries, &b".rgit".to_vec()).unwrap();
    let o = read_object(&stored.compressed).unwrap();
    let parsed = parse_tree(&o.body).unwrap();
    assert_eq!(parsed.len(), 2);
    assert_eq!(parsed[0].name, b"name with spaces".to_vec());
    assert_eq!(parsed[0].hash, vec![7u8; 20]);
    assert_eq!(parsed[1].name, b"sub".to_vec());
    assert_eq!(parsed[1].hash, vec![9u8; 20]);
}

#[test]
fn parse_tree_rejects_truncated_hash() {
    let mut body = b"100644 a\0".to_vec();
    body.extend_from_slice(&[1u8; 19]);
    assert_eq!(parse_tree(&body).unwrap_err(), Error::Corrupt);
}

#[test]
fn parse_tree_rejects_missing_nul() {
    assert_eq!(parse_tree(&b"100644 a".to_vec()).unwrap_err(), Error::Corrupt);
}

#[test]
fn parse_tree_rejects_missing_space() {
    let mut body = b"100644a\0".to_vec();
    body.extend_from_slice(&[1u8; 20]);
    assert_eq!(parse_tree(&body).unwrap_err(), Error::Corrupt);
}

#[test]
fn parse_tree_accepts_empty_body() {
    assert!(parse_tree(&Vec::new()).unwrap().is_empty());
}

#[test]
fn formatted_mode_pads_to_six_digits() {
    assert_eq!(get_formatted_mode(b"40000".to_vec()), b"040000".to_vec());
    assert_eq!(get_formatted_mode(b"100644".to_vec()), b"100644".to_vec());
    assert_eq!(get_formatted_mode(Vec::new()), b"000000".to_vec());
}

#[test]
fn mode_and_name_split_at_first_space() {
    let (mode, name) = get_mode_and_name(&b"100644 a b".to_vec()).unwrap();
    assert_eq!(mode, b"100644".to_vec());
    assert_eq!(name, b"a b".to_vec());
    assert_eq!(get_name(&b"40000 sub".to_vec()).unwrap(), b"sub".to_vec());
    assert_eq!(get_mode_and_name(&b"nospace".to_vec()).unwrap_err(), Error::Corrupt);
}

#[test]
fn full_output_line_is_exact() {
    let hash = vec![0xceu8; 20];
    let line = get_full_output(&b"40000 sub".to_vec(), &hash, ObjectType::Tree).unwrap();
    let mut expected = b"040000 tree ".to_vec();
    expected.extend_from_slice(hex::encode(&hash).as_bytes());
    expected.push(b'\t');
    expected.extend_from_slice(b"sub");
    assert_eq!(line, expected);
}
