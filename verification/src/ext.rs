use vstd::prelude::*;

verus! {

// ----------------------------------------------------------------------------
// The calls into outside crates that the codec relies on. Each function here
// is trusted: its contract is believed, not proved, and says no more than the
// crate's own source and documentation show.
// ----------------------------------------------------------------------------

/// The SHA-1 digest of a byte sequence: a function of the bytes alone.
pub uninterp spec fn sha1_of(s: Seq<u8>) -> Seq<u8>;

/// The zlib stream that deflate produces, at the default compression level,
/// for a byte sequence: a function of the bytes alone.
pub uninterp spec fn deflate_of(s: Seq<u8>) -> Seq<u8>;

/// What zlib inflation of a byte sequence yields: the decompressed bytes, or
/// nothing when the input does not carry a complete well-formed stream.
pub uninterp spec fn inflate_of(s: Seq<u8>) -> Option<Seq<u8>>;

pub open spec fn hex_digit(n: u8) -> u8 {
    if n < 10 {
        (48 + n) as u8  // '0'..'9'
    } else {
        (87 + n) as u8  // 'a'..'f'
    }
}

/// Lowercase hex rendering: two digits per byte, high nibble first.
pub open spec fn hex_lower_of(s: Seq<u8>) -> Seq<u8>
    decreases s.len(),
{
    if s.len() == 0 {
        Seq::empty()
    } else {
        hex_lower_of(s.drop_last()) + seq![hex_digit(s.last() / 16), hex_digit(s.last() % 16)]
    }
}

/// Relies on sha1::Sha1 (RustCrypto): the digest depends on the input bytes
/// alone and is 20 bytes long.
#[verifier::external_body]
pub(crate) fn sha1_digest(data: &Vec<u8>) -> (r: Vec<u8>)
    ensures
        r@ == sha1_of(data@),
        r@.len() == 20,
{
    let mut hasher = <sha1::Sha1 as sha1::Digest>::new();
    sha1::Digest::update(&mut hasher, data.as_slice());
    sha1::Digest::finalize(hasher).to_vec()
}

/// Relies on flate2's ZlibEncoder at the default compression level: writing
/// into a Vec cannot fail, the compressed stream depends on the input bytes
/// alone, and inflating it yields the input again (zlib is lossless).
#[verifier::external_body]
pub(crate) fn zlib_compress(data: &Vec<u8>) -> (r: Vec<u8>)
    ensures
        r@ == deflate_of(data@),
        inflate_of(r@) == Some(data@),
{
    let mut encoder = flate2::write::ZlibEncoder::new(
        Vec::new(),
        flate2::Compression::default(),
    );
    std::io::Write::write_all(&mut encoder, data.as_slice()).expect("a Vec accepts all writes");
    encoder.finish().expect("a Vec accepts all writes")
}

/// Relies on flate2's ZlibDecoder: inflation depends on the input bytes alone,
/// and reading it to the end fails exactly when the input does not begin with
/// a complete well-formed zlib stream.
#[verifier::external_body]
pub(crate) fn zlib_decompress(data: &Vec<u8>) -> (r: Option<Vec<u8>>)
    ensures
        match r {
            Some(v) => inflate_of(data@) == Some(v@),
            None => inflate_of(data@) is None,
        },
{
    let mut decoder = flate2::read::ZlibDecoder::new(data.as_slice());
    let mut out = Vec::new();
    match std::io::Read::read_to_end(&mut decoder, &mut out) {
        Ok(_) => Some(out),
        Err(_) => None,
    }
}

/// Relies on hex::encode: two lowercase hex digits per byte, high nibble first.
#[verifier::external_body]
pub(crate) fn hex_encode(data: &Vec<u8>) -> (r: Vec<u8>)
    ensures
        r@ == hex_lower_of(data@),
{
    hex::encode(data.as_slice()).into_bytes()
}

/// Relies on chrono's Local::now: the timestamp is whole seconds since the
/// Unix epoch, and the "%z" rendering of the local offset is a sign byte
/// followed by four ASCII digits.
#[verifier::external_body]
pub(crate) fn local_time_parts() -> (r: (i64, Vec<u8>))
    ensures
        r.1@.len() == 5,
        r.1@[0] == 43 || r.1@[0] == 45,
{
    let now = chrono::Local::now();
    let offset = now.format("%z").to_string().into_bytes();
    (now.timestamp(), offset)
}

} // verus!
