use vstd::prelude::*;

use crate::bytes::{
    dec_digits, dec_parse, find_byte, first_pos, is_digit, is_utf8, lemma_ascii_is_utf8,
    lemma_dec_digits_wf, lemma_dec_round_trip, lemma_first_pos_is, parse_dec, push_all, subvec,
    u64_to_dec, utf8_check,
};
use crate::error::Error;
use crate::ext::{
    deflate_of, hex_encode, hex_lower_of, inflate_of, sha1_digest, sha1_of, zlib_compress,
    zlib_decompress,
};

verus! {

// ----------------------------------------------------------------------------
// The object model
// ----------------------------------------------------------------------------

/// The closed set of object kinds. Unrecognized kind names decode to
/// `Unknown`; failure is deferred to the point where a known kind is required.
#[derive(Clone, Copy, Debug, PartialEq, Eq, Structural)]
pub enum ObjectType {
    Blob,
    Tree,
    Commit,
    Unknown,
}

impl ObjectType {
    pub open spec fn is_known(self) -> bool {
        self != ObjectType::Unknown
    }

    /// The lowercase kind name written in object headers.
    pub open spec fn name_spec(self) -> Seq<u8> {
        match self {
            ObjectType::Blob => seq![98u8, 108, 111, 98],  // "blob"
            ObjectType::Tree => seq![116u8, 114, 101, 101],  // "tree"
            ObjectType::Commit => seq![99u8, 111, 109, 109, 105, 116],  // "commit"
            ObjectType::Unknown => seq![117u8, 110, 107, 110, 111, 119, 110],  // "unknown"
        }
    }

    pub fn name(&self) -> (r: Vec<u8>)
        ensures
            r@ == self.name_spec(),
    {
        let mut r: Vec<u8> = Vec::new();
        match self {
            ObjectType::Blob => {
                r.push(98);
                r.push(108);
                r.push(111);
                r.push(98);
            },
            ObjectType::Tree => {
                r.push(116);
                r.push(114);
                r.push(101);
                r.push(101);
            },
            ObjectType::Commit => {
                r.push(99);
                r.push(111);
                r.push(109);
                r.push(109);
                r.push(105);
                r.push(116);
            },
            ObjectType::Unknown => {
                r.push(117);
                r.push(110);
                r.push(107);
                r.push(110);
                r.push(111);
                r.push(119);
                r.push(110);
            },
        }
        proof {
            assert(r@ =~= self.name_spec());
        }
        r
    }
}

/// Which kind a decoded header's kind-name bytes denote.
pub open spec fn kind_of_name(s: Seq<u8>) -> ObjectType {
    if s == ObjectType::Blob.name_spec() {
        ObjectType::Blob
    } else if s == ObjectType::Tree.name_spec() {
        ObjectType::Tree
    } else if s == ObjectType::Commit.name_spec() {
        ObjectType::Commit
    } else {
        ObjectType::Unknown
    }
}

pub fn kind_from_name(name: &Vec<u8>) -> (r: ObjectType)
    ensures
        r == kind_of_name(name@),
{
    if name.len() == 4 && name[0] == 98 && name[1] == 108 && name[2] == 111 && name[3] == 98 {
        proof {
            assert(name@ =~= ObjectType::Blob.name_spec());
        }
        ObjectType::Blob
    } else if name.len() == 4 && name[0] == 116 && name[1] == 114 && name[2] == 101 && name[3]
        == 101 {
        proof {
            assert(name@ =~= ObjectType::Tree.name_spec());
        }
        ObjectType::Tree
    } else if name.len() == 6 && name[0] == 99 && name[1] == 111 && name[2] == 109 && name[3]
        == 109 && name[4] == 105 && name[5] == 116 {
        proof {
            assert(name@ =~= ObjectType::Commit.name_spec());
        }
        ObjectType::Commit
    } else {
        ObjectType::Unknown
    }
}

/// The mathematical content of an object: its kind, declared size, and body
/// bytes. The declared size of a decoded object need not match the body; the
/// codec reports the mismatch where a caller requires exact consumption.
pub ghost struct ObjectModel {
    pub kind: ObjectType,
    pub size: u64,
    pub body: Seq<u8>,
}

/// The unit of storage: a kind, a declared body size, and the body bytes.
#[derive(Debug)]
pub struct Object {
    pub kind: ObjectType,
    pub expected_size: u64,
    pub body: Vec<u8>,
}

impl View for Object {
    type V = ObjectModel;

    open spec fn view(&self) -> ObjectModel {
        ObjectModel { kind: self.kind, size: self.expected_size, body: self.body@ }
    }
}

impl Object {
    /// The declared size matches the body exactly.
    pub open spec fn size_ok(self) -> bool {
        self.expected_size == self.body@.len()
    }

    pub fn new(kind: ObjectType, body: Vec<u8>) -> (r: Object)
        ensures
            r.kind == kind,
            r.body@ == body@,
            r.size_ok(),
    {
        let expected_size = body.len() as u64;
        Object { kind, expected_size, body }
    }
}

// ----------------------------------------------------------------------------
// The canonical serialization: "<kind> <size>\0<body>"
// ----------------------------------------------------------------------------

/// The textual header of an object of the given kind and size (the NUL
/// terminator excluded).
pub open spec fn header_of(kind: ObjectType, size: nat) -> Seq<u8> {
    kind.name_spec() + seq![32u8] + dec_digits(size)
}

/// The exact bytes that are hashed and compressed: header, NUL, body.
pub open spec fn payload_of(kind: ObjectType, body: Seq<u8>) -> Seq<u8> {
    header_of(kind, body.len()) + seq![0u8] + body
}

/// What decoding a decompressed payload yields: the object's model, or
/// nothing when the header is malformed (no NUL, not valid UTF-8, no space
/// separator, or a size that is not an unsigned 64-bit decimal number).
pub open spec fn decode_payload(p: Seq<u8>) -> Option<ObjectModel> {
    let h = first_pos(p, 0);
    if h == p.len() {
        None
    } else {
        let header = p.take(h);
        if !is_utf8(header) {
            None
        } else {
            let sp = first_pos(header, 32);
            if sp == header.len() {
                None
            } else {
                match parse_dec(header.skip(sp + 1)) {
                    Some(size) => Some(
                        ObjectModel { kind: kind_of_name(header.take(sp)), size, body: p.skip(h + 1) },
                    ),
                    None => None,
                }
            }
        }
    }
}

/// The result of encoding an object: its content digest, the digest in hex,
/// and the compressed bytes as they are stored on disk.
#[derive(Debug)]
pub struct StoredObject {
    /// The raw 20-byte content digest.
    pub hash: Vec<u8>,
    /// The digest as 40 lowercase hex digits; the storage key.
    pub hash_hex: Vec<u8>,
    /// The zlib-compressed payload.
    pub compressed: Vec<u8>,
}

impl StoredObject {
    /// This value is exactly the encoding of an object of the given kind and
    /// body bytes.
    pub open spec fn is_encoding_of(self, kind: ObjectType, body: Seq<u8>) -> bool {
        &&& self.hash@ == sha1_of(payload_of(kind, body))
        &&& self.hash@.len() == 20
        &&& self.hash_hex@ == hex_lower_of(self.hash@)
        &&& self.compressed@ == deflate_of(payload_of(kind, body))
        &&& inflate_of(self.compressed@) == Some(payload_of(kind, body))
    }
}

impl Object {
    /// Encodes this object: builds the header+body payload, hashes it, and
    /// compresses it. Fails with `UnsupportedKind` for an `Unknown` kind and
    /// with `SizeMismatch` when the declared size does not equal the body's
    /// length; succeeds on every other input.
    pub fn write(&self) -> (r: Result<StoredObject, Error>)
        ensures
            !self.kind.is_known() ==> r == Err::<StoredObject, Error>(Error::UnsupportedKind),
            self.kind.is_known() && !self.size_ok() ==> r == Err::<StoredObject, Error>(
                Error::SizeMismatch,
            ),
            self.kind.is_known() && self.size_ok() ==> (r matches Ok(s) && s.is_encoding_of(
                self.kind,
                self.body@,
            )),
    {
        if matches!(self.kind, ObjectType::Unknown) {
            return Err(Error::UnsupportedKind);
        }
        if self.expected_size != self.body.len() as u64 {
            return Err(Error::SizeMismatch);
        }
        let mut payload = self.kind.name();
        payload.push(32);
        let size_dec = u64_to_dec(self.expected_size);
        push_all(&mut payload, &size_dec);
        payload.push(0);
        push_all(&mut payload, &self.body);
        proof {
            assert(payload@ =~= payload_of(self.kind, self.body@));
        }
        let hash = sha1_digest(&payload);
        let hash_hex = hex_encode(&hash);
        let compressed = zlib_compress(&payload);
        Ok(StoredObject { hash, hash_hex, compressed })
    }
}

/// Decodes a compressed object stream: inflates it, then parses the header up
/// to the first NUL. Fails with `Corrupt` when inflation fails and with
/// `MalformedHeader` when the header is not of the form
/// `<kind-name> <decimal-size>` in valid UTF-8; otherwise returns the object,
/// whose body is everything after the header's NUL.
pub fn read_object(compressed: &Vec<u8>) -> (r: Result<Object, Error>)
    ensures
        match inflate_of(compressed@) {
            Option::None => r == Err::<Object, Error>(Error::Corrupt),
            Option::Some(p) => match decode_payload(p) {
                Option::None => r == Err::<Object, Error>(Error::MalformedHeader),
                Option::Some(m) => r matches Ok(o) && o@ == m,
            },
        },
{
    let p = match zlib_decompress(compressed) {
        Some(p) => p,
        None => {
            return Err(Error::Corrupt);
        },
    };
    let h = find_byte(&p, 0);
    if h == p.len() {
        return Err(Error::MalformedHeader);
    }
    let header = subvec(&p, 0, h);
    proof {
        assert(header@ =~= p@.take(h as int));
    }
    if !utf8_check(&header) {
        return Err(Error::MalformedHeader);
    }
    let sp = find_byte(&header, 32);
    if sp == header.len() {
        return Err(Error::MalformedHeader);
    }
    let kind_name = subvec(&header, 0, sp);
    let size_bytes = subvec(&header, sp + 1, header.len());
    proof {
        assert(kind_name@ =~= header@.take(sp as int));
        assert(size_bytes@ =~= header@.skip(sp + 1));
    }
    let size = match dec_parse(&size_bytes) {
        Some(s) => s,
        None => {
            return Err(Error::MalformedHeader);
        },
    };
    let kind = kind_from_name(&kind_name);
    let body = subvec(&p, h + 1, p.len());
    proof {
        assert(body@ =~= p@.skip(h + 1));
    }
    Ok(Object { kind, expected_size: size, body })
}

/// What the raw object-reading operation yields for a compressed stream: the
/// body bytes of a known-kind object whose declared size is exactly the
/// number of body bytes present, or the precise error otherwise.
pub open spec fn cat_file_spec(c: Seq<u8>) -> Result<Seq<u8>, Error> {
    match inflate_of(c) {
        Option::None => Err(Error::Corrupt),
        Option::Some(p) => match decode_payload(p) {
            Option::None => Err(Error::MalformedHeader),
            Option::Some(m) => if !m.kind.is_known() {
                Err(Error::UnsupportedKind)
            } else if m.size != m.body.len() {
                Err(Error::Corrupt)
            } else {
                Ok(m.body)
            },
        },
    }
}

/// Decodes a compressed object stream and returns its body, requiring a known
/// kind and validating exact consumption: a body shorter or longer than the
/// declared size is `Corrupt`, never a silent partial result.
pub fn cat_file(compressed: &Vec<u8>) -> (r: Result<Vec<u8>, Error>)
    ensures
        match cat_file_spec(compressed@) {
            Ok(b) => r matches Ok(v) && v@ == b,
            Err(e) => r == Err::<Vec<u8>, Error>(e),
        },
{
    let o = match read_object(compressed) {
        Ok(o) => o,
        Err(e) => {
            return Err(e);
        },
    };
    if matches!(o.kind, ObjectType::Unknown) {
        return Err(Error::UnsupportedKind);
    }
    if o.expected_size != o.body.len() as u64 {
        return Err(Error::Corrupt);
    }
    Ok(o.body)
}

// ----------------------------------------------------------------------------
// Round-trip and determinism laws
// ----------------------------------------------------------------------------

/// The header bytes of a known kind are NUL-free, space-free after the kind
/// name, and pure ASCII.
proof fn lemma_name_bytes(kind: ObjectType)
    requires
        kind.is_known(),
    ensures
        forall|i: int|
            0 <= i < kind.name_spec().len() ==> {
                &&& #[trigger] kind.name_spec()[i] != 0
                &&& kind.name_spec()[i] != 32
                &&& kind.name_spec()[i] < 0x80
            },
{
    if kind == ObjectType::Blob {
        assert forall|i: int| 0 <= i < kind.name_spec().len() implies {
            &&& #[trigger] kind.name_spec()[i] != 0
            &&& kind.name_spec()[i] != 32
            &&& kind.name_spec()[i] < 0x80
        } by {}
    } else if kind == ObjectType::Tree {
        assert forall|i: int| 0 <= i < kind.name_spec().len() implies {
            &&& #[trigger] kind.name_spec()[i] != 0
            &&& kind.name_spec()[i] != 32
            &&& kind.name_spec()[i] < 0x80
        } by {}
    } else {
        assert forall|i: int| 0 <= i < kind.name_spec().len() implies {
            &&& #[trigger] kind.name_spec()[i] != 0
            &&& kind.name_spec()[i] != 32
            &&& kind.name_spec()[i] < 0x80
        } by {}
    }
}

/// Round trip: decoding the payload that `encode` builds for a known kind and
/// a body reproduces the kind, the body's exact length, and the body.
pub proof fn lemma_decode_of_payload(kind: ObjectType, body: Seq<u8>)
    requires
        kind.is_known(),
        body.len() <= u64::MAX,
    ensures
        decode_payload(payload_of(kind, body)) == Some(
            ObjectModel { kind, size: body.len() as u64, body },
        ),
{
    let p = payload_of(kind, body);
    let name = kind.name_spec();
    let digits = dec_digits(body.len());
    let header = header_of(kind, body.len());
    lemma_dec_digits_wf(body.len());
    lemma_dec_round_trip(body.len());
    lemma_name_bytes(kind);
    assert forall|i: int| 0 <= i < header.len() implies #[trigger] header[i] != 0 && header[i]
        < 0x80 by {
        if i < name.len() {
            assert(header[i] == name[i]);
        } else if i == name.len() {
            assert(header[i] == 32);
        } else {
            assert(header[i] == digits[i - name.len() - 1]);
            assert(is_digit(digits[i - name.len() - 1]));
        }
    }
    assert(p[header.len() as int] == 0);
    assert forall|i: int| 0 <= i < header.len() implies p[i] != 0 by {
        assert(p[i] == header[i]);
    }
    lemma_first_pos_is(p, 0, header.len() as int);
    assert(p.take(header.len() as int) =~= header);
    lemma_ascii_is_utf8(header);
    assert forall|i: int| 0 <= i < name.len() implies header[i] != 32 by {
        assert(header[i] == name[i]);
    }
    assert(header[name.len() as int] == 32);
    lemma_first_pos_is(header, 32, name.len() as int);
    assert(header.take(name.len() as int) =~= name);
    assert(header.skip(name.len() + 1 as int) =~= digits);
    assert(parse_dec(digits) == Some(body.len() as u64));
    assert(kind_of_name(name) == kind);
    assert(p.skip(header.len() + 1 as int) =~= body);
}

/// The payload is injective in (kind, body): distinct inputs give distinct
/// digest inputs, so equal digests can only come from hash collisions of the
/// digest function itself.
pub proof fn lemma_payload_injective(k1: ObjectType, b1: Seq<u8>, k2: ObjectType, b2: Seq<u8>)
    requires
        k1.is_known(),
        k2.is_known(),
        b1.len() <= u64::MAX,
        b2.len() <= u64::MAX,
        payload_of(k1, b1) == payload_of(k2, b2),
    ensures
        k1 == k2,
        b1 == b2,
{
    lemma_decode_of_payload(k1, b1);
    lemma_decode_of_payload(k2, b2);
}

/// Hashing is deterministic: the digest, its hex form, and the compressed
/// stream are functions of the kind and body alone, so encoding identical
/// content twice yields identical results.
pub proof fn lemma_encode_deterministic(s1: StoredObject, s2: StoredObject, kind: ObjectType, body: Seq<u8>)
    requires
        s1.is_encoding_of(kind, body),
        s2.is_encoding_of(kind, body),
    ensures
        s1.hash@ == s2.hash@,
        s1.hash_hex@ == s2.hash_hex@,
        s1.compressed@ == s2.compressed@,
{
}

} // verus!
