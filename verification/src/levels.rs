//! The two levels of the address table, and how each slot is read from
//! the host image.
//!
//! Every slot is a 64-bit big-endian record. A first-level slot locates a
//! second-level table, which fills one cluster of the host image; a
//! second-level slot locates the payload of one guest cluster.

use vstd::prelude::*;
use crate::error::{CompressionType, ReadError};
use crate::geometry::{cluster_size, cluster_size_of, l2_entries_of, lemma_cluster_size_bounds,
    valid_cluster_bits, ENTRY_SIZE};

verus! {

/// The bits of a record that hold a host offset.
pub const OFFSET_MASK: u64 = 0x00ff_ffff_ffff_fe00;

/// The bit of a second-level record that marks a compressed payload.
pub const COMPRESSED_FLAG: u64 = 0x4000_0000_0000_0000;

/// `len` zero bytes: what a sparse cluster reads as.
pub open spec fn zeros(len: nat) -> Seq<u8> {
    Seq::new(len, |i: int| 0u8)
}

/// The number that eight bytes spell, most significant byte first.
pub open spec fn be_value(bytes: Seq<u8>) -> nat
    recommends
        bytes.len() == 8,
{
    (bytes[0] * 0x0100_0000_0000_0000 + bytes[1] * 0x0001_0000_0000_0000 + bytes[2]
        * 0x0000_0100_0000_0000 + bytes[3] * 0x0000_0001_0000_0000 + bytes[4] * 0x0100_0000
        + bytes[5] * 0x0001_0000 + bytes[6] * 0x0100 + bytes[7]) as nat
}

/// Reads the record that starts at `at`.
pub fn read_record(host: &[u8], at: usize) -> (raw: u64)
    requires
        at + 8 <= host@.len(),
    ensures
        raw == be_value(host@.subrange(at as int, at + 8)),
{
    let mut raw: u64 = host[at] as u64;
    raw = raw * 256 + host[at + 1] as u64;
    raw = raw * 256 + host[at + 2] as u64;
    raw = raw * 256 + host[at + 3] as u64;
    raw = raw * 256 + host[at + 4] as u64;
    raw = raw * 256 + host[at + 5] as u64;
    raw = raw * 256 + host[at + 6] as u64;
    raw = raw * 256 + host[at + 7] as u64;
    raw
}

/// Overwrites every byte of `buf` with zero.
pub(crate) fn fill_zero(buf: &mut [u8])
    ensures
        final(buf)@ == zeros(old(buf)@.len()),
{
    let len: usize = buf.len();
    let mut i: usize = 0;
    while i < len
        invariant
            i <= len,
            buf@.len() == len,
            forall|j: int| 0 <= j < i ==> buf@[j] == 0u8,
        decreases len - i,
    {
        buf[i] = 0;
        i += 1;
    }
    assert(buf@ =~= zeros(len as nat));
}

/// Copies `count` bytes of `src`, from index `start` on, over the bytes of
/// `dst` from index `at` on.
pub(crate) fn copy_into(dst: &mut [u8], at: usize, src: &[u8], start: usize, count: usize)
    requires
        at + count <= old(dst)@.len(),
        start + count <= src@.len(),
    ensures
        final(dst)@ == old(dst)@.subrange(0, at as int) + src@.subrange(
            start as int,
            start + count,
        ) + old(dst)@.subrange(at + count, old(dst)@.len() as int),
{
    let mut i: usize = 0;
    while i < count
        invariant
            i <= count,
            at + count <= dst.len() == dst@.len(),
            dst@.len() == old(dst)@.len(),
            start + count <= src.len() == src@.len(),
            forall|j: int| 0 <= j < at ==> dst@[j] == old(dst)@[j],
            forall|j: int| at <= j < at + i ==> dst@[j] == src@[start + j - at],
            forall|j: int| at + i <= j < dst@.len() ==> dst@[j] == old(dst)@[j],
        decreases count - i,
    {
        dst[at + i] = src[start + i];
        i += 1;
    }
    assert(dst@ =~= old(dst)@.subrange(0, at as int) + src@.subrange(start as int, start + count)
        + old(dst)@.subrange(at + count, old(dst)@.len() as int));
}

/// A slot of the second-level table: where one guest cluster is stored.
#[derive(Clone, Copy, Debug, PartialEq, Eq, Structural)]
pub struct L2Entry {
    /// Host offset of the payload; zero where the cluster is not allocated.
    pub host_offset: u64,
    /// Whether the payload is stored compressed.
    pub compressed: bool,
}

impl L2Entry {
    /// The slot of a cluster that has no payload.
    pub open spec fn unallocated() -> L2Entry {
        L2Entry { host_offset: 0, compressed: false }
    }

    /// What the record `raw` says.
    pub open spec fn of_record(raw: u64) -> L2Entry {
        L2Entry { host_offset: raw & OFFSET_MASK, compressed: raw & COMPRESSED_FLAG != 0 }
    }

    /// Decodes a record.
    pub fn from_raw(raw: u64) -> (entry: L2Entry)
        ensures
            entry == Self::of_record(raw),
    {
        L2Entry { host_offset: raw & OFFSET_MASK, compressed: raw & COMPRESSED_FLAG != 0 }
    }

    /// The `len` bytes of the guest cluster that this slot describes, as the
    /// host image `host` stores them under the declared codec `comp_type`.
    pub open spec fn contents(self, host: Seq<u8>, len: nat, comp_type: CompressionType) -> Result<
        Seq<u8>,
        ReadError,
    > {
        if self.compressed {
            Err(ReadError::DecodeFailure(comp_type))
        } else if self.host_offset == 0 {
            Ok(zeros(len))
        } else if self.host_offset + len <= host.len() {
            Ok(host.subrange(self.host_offset as int, self.host_offset + len))
        } else {
            Err(ReadError::HostIOFailure)
        }
    }

    /// Decodes the cluster into `buf`, whose length is the cluster size.
    /// On failure `buf` is left as it was.
    pub fn read_contents(&self, host: &[u8], buf: &mut [u8], comp_type: CompressionType) -> (r:
        Result<(), ReadError>)
        ensures
            final(buf)@.len() == old(buf)@.len(),
            match self.contents(host@, old(buf)@.len(), comp_type) {
                Ok(bytes) => r is Ok && final(buf)@ == bytes,
                Err(e) => r == Err::<(), ReadError>(e) && final(buf)@ == old(buf)@,
            },
    {
        if self.compressed {
            return Err(ReadError::DecodeFailure(comp_type));
        }
        if self.host_offset == 0 {
            fill_zero(buf);
            return Ok(());
        }
        let len: usize = buf.len();
        let host_len: usize = host.len();
        if host_len < len || self.host_offset > (host_len - len) as u64 {
            return Err(ReadError::HostIOFailure);
        }
        copy_into(buf, 0, host, self.host_offset as usize, len);
        assert(buf@ =~= host@.subrange(self.host_offset as int, self.host_offset + len));
        Ok(())
    }
}

/// A slot of the first-level table: where one second-level table is stored.
#[derive(Clone, Copy, Debug, PartialEq, Eq, Structural)]
pub struct L1Entry {
    /// Host offset of the second-level table; zero where the whole range
    /// that this slot governs is sparse.
    pub l2_offset: u64,
}

impl L1Entry {
    /// Whether a second-level table is stored for this slot.
    pub open spec fn allocated(self) -> bool {
        self.l2_offset != 0
    }

    /// The second-level table of this slot, as `host` stores it: one slot
    /// for each cluster of the range, all unallocated where the range is
    /// sparse. `None` where the host image ends before the table does.
    pub open spec fn l2_table(self, host: Seq<u8>, cluster_bits: u32) -> Option<Seq<L2Entry>> {
        if self.l2_offset == 0 {
            Some(Seq::new(l2_entries_of(cluster_bits), |i: int| L2Entry::unallocated()))
        } else if self.l2_offset + cluster_size_of(cluster_bits) <= host.len() {
            Some(
                Seq::new(
                    l2_entries_of(cluster_bits),
                    |i: int|
                        L2Entry::of_record(
                            be_value(
                                host.subrange(self.l2_offset + 8 * i, self.l2_offset + 8 * i + 8),
                            ) as u64,
                        ),
                ),
            )
        } else {
            None
        }
    }

    /// Materializes the second-level table of this slot.
    pub fn read_l2(&self, host: &[u8], cluster_bits: u32) -> (r: Option<Vec<L2Entry>>)
        requires
            valid_cluster_bits(cluster_bits),
        ensures
            match self.l2_table(host@, cluster_bits) {
                Some(table) => r is Some && r->0@ == table,
                None => r is None,
            },
    {
        proof {
            lemma_cluster_size_bounds(cluster_bits);
        }
        let size: u64 = cluster_size(cluster_bits);
        let count: usize = (size / ENTRY_SIZE) as usize;
        let host_len: u64 = host.len() as u64;
        if self.l2_offset != 0 && (host_len < size || self.l2_offset > host_len - size) {
            return None;
        }
        let base: usize = self.l2_offset as usize;
        let mut table: Vec<L2Entry> = Vec::with_capacity(count);
        let mut i: usize = 0;
        while i < count
            invariant
                i <= count,
                count == l2_entries_of(cluster_bits),
                8 * count == cluster_size_of(cluster_bits),
                base == self.l2_offset,
                base != 0 ==> base + 8 * count <= host@.len() <= usize::MAX,
                8 * count <= usize::MAX,
                table@.len() == i,
                forall|j: int|
                    0 <= j < i ==> table@[j] == (#[trigger] self.l2_table(
                        host@,
                        cluster_bits,
                    )->0[j]),
                self.l2_table(host@, cluster_bits) is Some,
            decreases count - i,
        {
            let entry = if base == 0 {
                L2Entry { host_offset: 0, compressed: false }
            } else {
                L2Entry::from_raw(read_record(host, base + 8 * i))
            };
            table.push(entry);
            i += 1;
        }
        assert(table@ =~= self.l2_table(host@, cluster_bits)->0);
        Some(table)
    }
}

} // verus!
