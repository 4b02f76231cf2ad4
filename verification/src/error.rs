use vstd::prelude::*;

verus! {

/// The codec that the image declares for its compressed clusters.
#[derive(Clone, Copy, Debug, PartialEq, Eq, Structural)]
pub enum CompressionType {
    /// No codec is declared: the image stores its clusters as they are.
    Uncompressed,
    Zlib,
    Zstd,
}

impl Default for CompressionType {
    fn default() -> (r: Self)
        ensures
            r == CompressionType::Uncompressed,
    {
        CompressionType::Uncompressed
    }
}

/// Why a read or a seek on the guest disk failed.
#[derive(Clone, Copy, Debug, PartialEq, Eq, Structural)]
pub enum ReadError {
    /// The position lies outside the first-level table, its second-level
    /// table cannot be materialized, or a computed position does not fit
    /// the 64-bit position space.
    OutOfRange,
    /// The cluster is allocated but its payload cannot be decoded: it is
    /// compressed, and this library carries no codec. The field is the
    /// codec that the image declares.
    DecodeFailure(CompressionType),
    /// The host image ends before the end of the cluster's payload.
    HostIOFailure,
}

} // verus!
