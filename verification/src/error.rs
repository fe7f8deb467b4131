use vstd::prelude::*;

verus! {

/// The failure taxonomy of the object store.
///
/// `IoError` and `NotFound` arise only at the filesystem edge (outside this
/// library); the codec itself produces `Corrupt`, `MalformedHeader`,
/// `SizeMismatch` and `UnsupportedKind`.
#[derive(Clone, Copy, Debug, PartialEq, Eq, Structural)]
pub enum Error {
    /// A filesystem or compression failure.
    IoError,
    /// A read of a hash with no backing object file.
    NotFound,
    /// Decompression failed, or the decompressed bytes do not form a whole object.
    Corrupt,
    /// The object header has no space separator, is not valid UTF-8, or its
    /// size field is not an unsigned 64-bit decimal number.
    MalformedHeader,
    /// The declared size of an object does not match its body's byte length.
    SizeMismatch,
    /// A known object kind was required but the object's kind is not recognized.
    UnsupportedKind,
}

} // verus!
