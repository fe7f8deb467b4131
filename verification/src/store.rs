use vstd::prelude::*;

use crate::bytes::{push_all, subvec};
use crate::ext::{hex_lower_of, inflate_of, sha1_of};
use crate::objects::{
    decode_payload, lemma_decode_of_payload, payload_of, ObjectModel, ObjectType, StoredObject,
};

verus! {

// ----------------------------------------------------------------------------
// The two-level storage layout: objects/<2 hex>/<38 hex>
// ----------------------------------------------------------------------------

/// The relative path of a stored object: the objects directory, a slash, the
/// first two hex digits of the hash, a slash, and the remaining digits.
pub open spec fn object_path_spec(objects_dir: Seq<u8>, hash_hex: Seq<u8>) -> Seq<u8> {
    objects_dir + seq![47u8] + hash_hex.take(2) + seq![47u8] + hash_hex.skip(2)
}

/// Derives the storage path of a 40-digit hex hash under the given objects
/// directory.
pub fn object_path(objects_dir: &Vec<u8>, hash_hex: &Vec<u8>) -> (r: Vec<u8>)
    requires
        hash_hex@.len() == 40,
    ensures
        r@ == object_path_spec(objects_dir@, hash_hex@),
{
    let mut r = subvec(objects_dir, 0, objects_dir.len());
    proof {
        assert(r@ =~= objects_dir@);
    }
    r.push(47);
    let head = subvec(hash_hex, 0, 2);
    push_all(&mut r, &head);
    r.push(47);
    let tail = subvec(hash_hex, 2, hash_hex.len());
    push_all(&mut r, &tail);
    proof {
        assert(r@ =~= object_path_spec(objects_dir@, hash_hex@));
    }
    r
}

/// A `get` of what `put` stored yields the object back: inflating the stored
/// bytes gives the exact payload, and decoding that payload reproduces the
/// kind, the body's exact length, and the body. Moreover the storage key is a
/// function of kind and body alone, so a second `put` of identical content
/// addresses the identical path with identical bytes: it can only rewrite the
/// stored file, never corrupt it.
pub proof fn lemma_put_get_round_trip(s: StoredObject, kind: ObjectType, body: Seq<u8>)
    requires
        kind.is_known(),
        body.len() <= u64::MAX,
        s.is_encoding_of(kind, body),
    ensures
        inflate_of(s.compressed@) == Some(payload_of(kind, body)),
        decode_payload(payload_of(kind, body)) == Some(
            ObjectModel { kind, size: body.len() as u64, body },
        ),
        s.hash_hex@ == hex_lower_of(sha1_of(payload_of(kind, body))),
{
    lemma_decode_of_payload(kind, body);
}

} // verus!
