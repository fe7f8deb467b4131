//! A minimal content-addressable object store: blobs, trees and commits are
//! serialized to a canonical `"<kind> <size>\0<body>"` payload, identified by
//! the SHA-1 digest of that payload, and persisted zlib-compressed under a
//! path derived from the hex digest. The codec, the storage-path derivation,
//! the canonical tree-entry ordering and serialization, and the commit text
//! are verified; the filesystem edge around them lives outside the library.
use vstd::prelude::*;

pub mod bytes;
pub mod cli;
pub mod commit;
pub mod error;
pub mod ext;
pub mod ls_tree;
pub mod objects;
pub mod store;
pub mod tree;

verus! {

} // verus!
