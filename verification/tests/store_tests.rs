use std::collections::HashMap;

use rgit::objects::{read_object, Object, ObjectType};
use rgit::store::object_path;

#[test]
fn object_path_splits_hash() {
    let dir = b".rgit/objects".to_vec();
    let hash = b"ce013625030ba8dba906f756967f9e9ca394464a".to_vec();
    assert_eq!(
        object_path(&dir, &hash),
        b".rgit/objects/ce/013625030ba8dba906f756967f9e9ca394464a".to_vec()
    );
}

#[test]
fn put_then_get_round_trips() {
    // the store modeled as a map from path to file bytes
    let mut disk: HashMap<Vec<u8>, Vec<u8>> = HashMap::new();
    let dir = b".rgit/objects".to_vec();

    let s = Object::new(ObjectType::Blob, b"stored content".to_vec()).write().unwrap();
    let path = object_path(&dir, &s.hash_hex);
    disk.insert(path.clone(), s.compressed.clone());

    let file = disk.get(&path).unwrap();
    let back = read_object(file).unwrap();
    assert_eq!(back.kind, ObjectType::Blob);
    assert_eq!(back.expected_size, 14);
    assert_eq!(back.body, b"stored content".to_vec());
}

#[test]
fn put_twice_is_idempotent() {
    let mut disk: HashMap<Vec<u8>, Vec<u8>> = HashMap::new();
    let dir = b".rgit/objects".to_vec();

    let first = Object::new(ObjectType::Blob, b"same".to_vec()).write().unwrap();
    let second = Object::new(ObjectType::Blob, b"same".to_vec()).write().unwrap();
    assert_eq!(first.hash_hex, second.hash_hex);

    let path1 = object_path(&dir, &first.hash_hex);
    let path2 = object_path(&dir, &second.hash_hex);
    assert_eq!(path1, path2);

    disk.insert(path1.clone(), first.compressed.clone());
    let before = disk.get(&path1).unwrap().clone();
    disk.insert(path2, second.compressed);
    let after = disk.get(&path1).unwrap();
    // the rewrite stored identical bytes: nothing was corrupted
    assert_eq!(&before, after);
    let back = read_object(after).unwrap();
    assert_eq!(back.body, b"same".to_vec());
}
