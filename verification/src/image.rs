//! What the reader needs to know of an image: its geometry, its size, the
//! codec it declares, and its first-level table.

use vstd::prelude::*;
use crate::error::CompressionType;
use crate::geometry::{check_cluster_bits, cluster_size, cluster_size_of, valid_cluster_bits};
use crate::levels::L1Entry;

verus! {

/// The part of the header that only version 3 of the format has.
#[derive(Clone, Copy, Debug, PartialEq, Eq, Structural)]
pub struct Version3Header {
    pub compression_type: CompressionType,
}

/// The header fields that govern reading.
#[derive(Clone, Copy, Debug, PartialEq, Eq, Structural)]
pub struct QcowHeader {
    /// A cluster holds `2^cluster_bits` bytes.
    pub cluster_bits: u32,
    /// Size of the guest disk in bytes.
    pub size: u64,
    pub v3_header: Option<Version3Header>,
}

/// An image: its header and its first-level table.
#[derive(Debug)]
pub struct Qcow2 {
    pub header: QcowHeader,
    pub l1_table: Vec<L1Entry>,
}

impl Qcow2 {
    /// The geometry is one this library can read.
    pub open spec fn wf(&self) -> bool {
        valid_cluster_bits(self.header.cluster_bits)
    }

    /// Tells whether the geometry is one this library can read.
    pub fn is_well_formed(&self) -> (ok: bool)
        ensures
            ok == self.wf(),
    {
        check_cluster_bits(self.header.cluster_bits)
    }

    /// Bytes in a cluster of this image.
    pub open spec fn spec_cluster_size(&self) -> nat {
        cluster_size_of(self.header.cluster_bits)
    }

    /// Bytes in a cluster of this image.
    pub fn cluster_size(&self) -> (size: u64)
        requires
            self.wf(),
        ensures
            size == self.spec_cluster_size(),
    {
        cluster_size(self.header.cluster_bits)
    }

    /// The codec that the image declares; none where the header has no
    /// version 3 part.
    pub open spec fn spec_compression_type(&self) -> CompressionType {
        match self.header.v3_header {
            Some(v3) => v3.compression_type,
            None => CompressionType::Uncompressed,
        }
    }

    /// The codec that the image declares; none where the header has no
    /// version 3 part.
    #[verifier::when_used_as_spec(spec_compression_type)]
    pub fn compression_type(&self) -> (comp_type: CompressionType)
        ensures
            comp_type == self.spec_compression_type(),
    {
        match self.header.v3_header {
            Some(v3) => v3.compression_type,
            None => CompressionType::default(),
        }
    }
}

} // verus!
