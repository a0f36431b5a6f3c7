//! Compression kinds. Only the uncompressed pass is produced.

use vstd::prelude::*;

verus! {

/// The compression applied to chunk data. One byte on disk; only
/// `UNCOMPRESSED` is produced by this writer.
#[derive(Copy, Clone, Eq, PartialEq, Structural, Debug)]
pub enum CompressionType {
    UNCOMPRESSED,
}

impl CompressionType {
    /// The one-byte tag of the compression kind.
    pub fn serialize(&self) -> (r: u8)
        ensures
            r == 0,
    {
        0
    }
}

} // verus!
