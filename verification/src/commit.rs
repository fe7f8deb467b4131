use vstd::prelude::*;

use crate::bytes::{dec_digits, push_all, u64_to_dec};
use crate::ext::local_time_parts;
use crate::objects::{Object, ObjectType, StoredObject};

verus! {

// ----------------------------------------------------------------------------
// The textual commit body
// ----------------------------------------------------------------------------

pub open spec fn tree_tag() -> Seq<u8> {
    seq![116u8, 114, 101, 101, 32]  // "tree "
}

pub open spec fn parent_tag() -> Seq<u8> {
    seq![112u8, 97, 114, 101, 110, 116, 32]  // "parent "
}

pub open spec fn author_tag() -> Seq<u8> {
    seq![97u8, 117, 116, 104, 111, 114, 32]  // "author "
}

pub open spec fn committer_tag() -> Seq<u8> {
    seq![99u8, 111, 109, 109, 105, 116, 116, 101, 114, 32]  // "committer "
}

/// The decimal rendering of a signed timestamp: a minus sign and the
/// magnitude for negative values.
pub open spec fn dec_i64(t: i64) -> Seq<u8> {
    if t >= 0 {
        dec_digits(t as nat)
    } else {
        seq![45u8] + dec_digits((-(t as int)) as nat)
    }
}

/// One identity line: tag, identity, space, epoch seconds, space, UTC-offset,
/// newline.
pub open spec fn person_line(tag: Seq<u8>, who: Seq<u8>, t: i64, tz: Seq<u8>) -> Seq<u8> {
    tag + who + seq![32u8] + dec_i64(t) + seq![32u8] + tz + seq![10u8]
}

pub open spec fn opt_view(o: Option<Vec<u8>>) -> Option<Seq<u8>> {
    match o {
        Some(v) => Some(v@),
        None => None,
    }
}

/// The exact text of a commit body: the tree line; the parent line only when
/// a parent is present; author and committer lines identical in content; a
/// blank line; the message and a final newline.
pub open spec fn commit_text_of(
    tree: Seq<u8>,
    parent: Option<Seq<u8>>,
    author: Seq<u8>,
    t: i64,
    tz: Seq<u8>,
    message: Seq<u8>,
) -> Seq<u8> {
    tree_tag() + tree + seq![10u8] + (match parent {
        Some(p) => parent_tag() + p + seq![10u8],
        None => Seq::empty(),
    }) + person_line(author_tag(), author, t, tz) + person_line(committer_tag(), author, t, tz)
        + seq![10u8] + message + seq![10u8]
}

/// Renders a signed timestamp in decimal.
pub fn i64_to_dec(t: i64) -> (r: Vec<u8>)
    ensures
        r@ == dec_i64(t),
{
    if t >= 0 {
        let r = u64_to_dec(t as u64);
        proof {
            assert((t as u64) as nat == t as nat);
        }
        r
    } else {
        let mag: u64 = if t == i64::MIN {
            9223372036854775808u64
        } else {
            (-t) as u64
        };
        proof {
            assert(mag as nat == (-(t as int)) as nat);
        }
        let mut r: Vec<u8> = Vec::new();
        r.push(45);
        let d = u64_to_dec(mag);
        push_all(&mut r, &d);
        proof {
            assert(r@ =~= dec_i64(t));
        }
        r
    }
}

/// Builds the commit body for an explicit clock reading and encodes it as a
/// `Commit` object. No validation is performed that the tree or parent hash
/// exists in the store: referential integrity is the caller's concern.
#[verifier::rlimit(60)]
pub fn write_commit(
    tree_hash: &Vec<u8>,
    parent_hash: &Option<Vec<u8>>,
    message: &Vec<u8>,
    author: &Vec<u8>,
    timestamp: i64,
    tz_offset: &Vec<u8>,
) -> (r: StoredObject)
    ensures
        r.is_encoding_of(
            ObjectType::Commit,
            commit_text_of(
                tree_hash@,
                opt_view(*parent_hash),
                author@,
                timestamp,
                tz_offset@,
                message@,
            ),
        ),
{
    let mut body: Vec<u8> = Vec::new();
    body.push(116);  // "tree "
    body.push(114);
    body.push(101);
    body.push(101);
    body.push(32);
    push_all(&mut body, tree_hash);
    body.push(10);
    let ghost part1 = tree_tag() + tree_hash@ + seq![10u8];
    proof {
        assert(body@ =~= part1);
    }
    if let Some(p) = parent_hash {
        body.push(112);  // "parent "
        body.push(97);
        body.push(114);
        body.push(101);
        body.push(110);
        body.push(116);
        body.push(32);
        push_all(&mut body, p);
        body.push(10);
    }
    let ghost part2 = part1 + (match opt_view(*parent_hash) {
        Some(p) => parent_tag() + p + seq![10u8],
        None => Seq::<u8>::empty(),
    });
    proof {
        assert(body@ =~= part2);
    }
    body.push(97);  // "author "
    body.push(117);
    body.push(116);
    body.push(104);
    body.push(111);
    body.push(114);
    body.push(32);
    push_all(&mut body, author);
    body.push(32);
    let ts = i64_to_dec(timestamp);
    push_all(&mut body, &ts);
    body.push(32);
    push_all(&mut body, tz_offset);
    body.push(10);
    let ghost part3 = part2 + person_line(author_tag(), author@, timestamp, tz_offset@);
    proof {
        assert(body@ =~= part3);
    }
    body.push(99);  // "committer "
    body.push(111);
    body.push(109);
    body.push(109);
    body.push(105);
    body.push(116);
    body.push(116);
    body.push(101);
    body.push(114);
    body.push(32);
    push_all(&mut body, author);
    body.push(32);
    let ts2 = i64_to_dec(timestamp);
    push_all(&mut body, &ts2);
    body.push(32);
    push_all(&mut body, tz_offset);
    body.push(10);
    let ghost part4 = part3 + person_line(committer_tag(), author@, timestamp, tz_offset@);
    proof {
        assert(body@ =~= part4);
    }
    body.push(10);
    push_all(&mut body, message);
    body.push(10);
    proof {
        assert(body@ =~= part4 + seq![10u8] + message@ + seq![10u8]);
        assert(body@ =~= commit_text_of(
            tree_hash@,
            opt_view(*parent_hash),
            author@,
            timestamp,
            tz_offset@,
            message@,
        ));
    }
    let obj = Object::new(ObjectType::Commit, body);
    match obj.write() {
        Ok(s) => s,
        Err(_) => {
            proof {
                assert(false);
            }
            vstd::pervasive::unreached()
        },
    }
}

/// Builds and encodes a commit object using the machine's current local
/// time. Whatever instant the clock yields, the result is the encoding of the
/// canonical commit text for that instant and this tree, parent, author and
/// message.
pub fn commit_tree(
    tree_hash: Vec<u8>,
    parent_hash: Option<Vec<u8>>,
    message: Vec<u8>,
    author: Vec<u8>,
) -> (r: StoredObject)
    ensures
        exists|t: i64, tz: Seq<u8>|
            #![auto]
            tz.len() == 5 && r.is_encoding_of(
                ObjectType::Commit,
                commit_text_of(tree_hash@, opt_view(parent_hash), author@, t, tz, message@),
            ),
{
    let (timestamp, tz_offset) = local_time_parts();
    let s = write_commit(&tree_hash, &parent_hash, &message, &author, timestamp, &tz_offset);
    proof {
        assert(tz_offset@.len() == 5 && s.is_encoding_of(
            ObjectType::Commit,
            commit_text_of(
                tree_hash@,
                opt_view(parent_hash),
                author@,
                timestamp,
                tz_offset@,
                message@,
            ),
        ));
    }
    s
}

} // verus!
