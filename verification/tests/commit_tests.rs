use rgit::commit::{commit_tree, i64_to_dec, write_commit};
use rgit::objects::{read_object, ObjectType};

#[test]
fn commit_body_without_parent() {
    let tree = b"aaaaaaaaaaaaaaaaaaaaaaaaaaaaaaaaaaaaaaaa".to_vec();
    let author = b"A U Thor <author@example.com>".to_vec();
    let s = write_commit(&tree, &None, &b"init".to_vec(), &author, 1700000000, &b"+0000".to_vec());
    let o = read_object(&s.compressed).unwrap();
    assert_eq!(o.kind, ObjectType::Commit);
    let expected = b"tree aaaaaaaaaaaaaaaaaaaaaaaaaaaaaaaaaaaaaaaa\n\
author A U Thor <author@example.com> 1700000000 +0000\n\
committer A U Thor <author@example.com> 1700000000 +0000\n\
\n\
init\n"
        .to_vec();
    assert_eq!(o.body, expected);
    // "tree T\n" is immediately followed by the author line: no parent line
    assert!(o.body.starts_with(b"tree aaaaaaaaaaaaaaaaaaaaaaaaaaaaaaaaaaaaaaaa\nauthor "));
}

#[test]
fn commit_body_with_parent() {
    let tree = b"aaaaaaaaaaaaaaaaaaaaaaaaaaaaaaaaaaaaaaaa".to_vec();
    let parent = b"bbbbbbbbbbbbbbbbbbbbbbbbbbbbbbbbbbbbbbbb".to_vec();
    let author = b"A U Thor <author@example.com>".to_vec();
    let s = write_commit(
        &tree,
        &Some(parent),
        &b"second\n".to_vec(),
        &author,
        0,
        &b"-0130".to_vec(),
    );
    let o = read_object(&s.compressed).unwrap();
    let expected = b"tree aaaaaaaaaaaaaaaaaaaaaaaaaaaaaaaaaaaaaaaa\n\
parent bbbbbbbbbbbbbbbbbbbbbbbbbbbbbbbbbbbbbbbb\n\
author A U Thor <author@example.com> 0 -0130\n\
committer A U Thor <author@example.com> 0 -0130\n\
\n\
second\n\n"
        .to_vec();
    assert_eq!(o.body, expected);
}

#[test]
fn timestamps_render_in_decimal() {
    assert_eq!(i64_to_dec(0), b"0".to_vec());
    assert_eq!(i64_to_dec(1700000000), b"1700000000".to_vec());
    assert_eq!(i64_to_dec(-62), b"-62".to_vec());
    assert_eq!(i64_to_dec(i64::MIN), b"-9223372036854775808".to_vec());
}

#[test]
fn commit_tree_uses_the_clock() {
    let tree = b"cccccccccccccccccccccccccccccccccccccccc".to_vec();
    let author = b"A U Thor <author@example.com>".to_vec();
    let s = commit_tree(tree, None, b"msg".to_vec(), author);
    let o = read_object(&s.compressed).unwrap();
    assert_eq!(o.kind, ObjectType::Commit);
    let body = o.body;
    assert!(body.starts_with(b"tree cccccccccccccccccccccccccccccccccccccccc\nauthor "));
    // the author line ends in " <epoch seconds> <sign><4 digits>\n"
    let lines: Vec<&[u8]> = body.split(|&b| b == b'\n').collect();
    let author_line = lines[1];
    let fields: Vec<&[u8]> = author_line.split(|&b| b == b' ').collect();
    let tz = fields[fields.len() - 1];
    assert_eq!(tz.len(), 5);
    assert!(tz[0] == b'+' || tz[0] == b'-');
    assert!(tz[1..].iter().all(|b| b.is_ascii_digit()));
    let epoch = fields[fields.len() - 2];
    assert!(!epoch.is_empty());
    assert!(epoch.iter().all(|b| b.is_ascii_digit()));
}
