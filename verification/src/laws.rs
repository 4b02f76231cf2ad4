//! Laws of reading and seeking, each proved from the model of the guest
//! disk that the contracts of [`crate::reader::Reader`] are stated over.

use vstd::prelude::*;
use crate::disk::{guest_bytes, guest_cluster, lemma_guest_bytes_split,
    lemma_read_is_guest_bytes, read_span, readable};
use crate::error::ReadError;
use crate::geometry::{cluster_size_of, l1_index_of, lemma_cluster_size_bounds, offset_in_cluster};
use crate::image::Qcow2;
use crate::levels::zeros;
use crate::reader::{seek_target, SeekFrom};

verus! {

/// What reads return, one after the other, from `pos` on until `len` bytes
/// are read: each takes from the cluster of its position up to the end of
/// that cluster, or the bytes still wanted if they are fewer.
pub open spec fn repeated_reads(qcow: Qcow2, host: Seq<u8>, pos: nat, len: nat) -> Seq<u8>
    decreases len,
{
    let bits = qcow.header.cluster_bits;
    let count = read_span(bits, pos, len);
    let start = offset_in_cluster(bits, pos);
    if count == 0 {
        Seq::empty()
    } else {
        guest_cluster(qcow, host, pos)->Ok_0.subrange(start as int, (start + count) as int)
            + repeated_reads(qcow, host, pos + count, (len - count) as nat)
    }
}

/// A read never spans two clusters, and returns at least one byte where
/// the buffer holds one.
pub proof fn law_read_stays_in_cluster(bits: u32, pos: nat, cap: nat)
    requires
        3 <= bits < 64,
    ensures
        offset_in_cluster(bits, pos) + read_span(bits, pos, cap) <= cluster_size_of(bits),
        read_span(bits, pos, cap) <= cap,
        cap > 0 ==> read_span(bits, pos, cap) > 0,
{
    lemma_cluster_size_bounds(bits);
}

/// Reading again and again from any position reconstructs the guest disk
/// from that position on, as far as it can be read.
pub proof fn law_reads_reconstruct_disk(qcow: Qcow2, host: Seq<u8>, pos: nat, len: nat)
    requires
        qcow.wf(),
        readable(qcow, host, pos, pos + len),
    ensures
        repeated_reads(qcow, host, pos, len) == guest_bytes(qcow, host, pos, len),
    decreases len,
{
    let bits = qcow.header.cluster_bits;
    let count = read_span(bits, pos, len);
    law_read_stays_in_cluster(bits, pos, len);
    if count == 0 {
        assert(guest_bytes(qcow, host, pos, len) =~= Seq::<u8>::empty());
    } else {
        assert(guest_cluster(qcow, host, pos) is Ok);
        lemma_read_is_guest_bytes(qcow, host, pos, count);
        law_reads_reconstruct_disk(qcow, host, pos + count, (len - count) as nat);
        lemma_guest_bytes_split(qcow, host, pos, count, (len - count) as nat);
    }
}

/// Seeking to `k` and reading to the end gives what reading everything
/// from offset 0 gives, less its first `k` bytes.
pub proof fn law_seek_then_read(qcow: Qcow2, host: Seq<u8>, k: nat, size: nat)
    requires
        qcow.wf(),
        k <= size,
        readable(qcow, host, 0, size),
    ensures
        repeated_reads(qcow, host, k, (size - k) as nat) == repeated_reads(
            qcow,
            host,
            0,
            size,
        ).subrange(k as int, size as int),
{
    law_reads_reconstruct_disk(qcow, host, 0, size);
    law_reads_reconstruct_disk(qcow, host, k, (size - k) as nat);
    assert(guest_bytes(qcow, host, k, (size - k) as nat) =~= guest_bytes(
        qcow,
        host,
        0,
        size,
    ).subrange(k as int, size as int));
}

/// A seek by distance 0 from the current position asks for the current
/// position.
pub proof fn law_seek_current_zero(pos: u64, size: u64)
    ensures
        seek_target(SeekFrom::Current(0), pos, size) == Some(pos),
{
}

/// A seek by distance 0 from the end asks for the size of the guest disk.
pub proof fn law_seek_end_zero(pos: u64, size: u64)
    ensures
        seek_target(SeekFrom::End(0), pos, size) == Some(size),
{
}

/// A relative seek has a target exactly where the sum of base and distance
/// fits 64 unsigned bits; the target is then that sum.
pub proof fn law_seek_range(pos: u64, size: u64, distance: i64)
    ensures
        seek_target(SeekFrom::Current(distance), pos, size) is None <==> (pos + distance < 0 || pos
            + distance > u64::MAX),
        seek_target(SeekFrom::End(distance), pos, size) is None <==> (size + distance < 0 || size
            + distance > u64::MAX),
        seek_target(SeekFrom::Current(distance), pos, size) matches Some(t) ==> t == pos + distance,
        seek_target(SeekFrom::End(distance), pos, size) matches Some(t) ==> t == size + distance,
{
}

/// A cluster under a sparse first-level slot reads as a cluster of zeros.
pub proof fn law_sparse_cluster_is_zero(qcow: Qcow2, host: Seq<u8>, pos: nat)
    requires
        l1_index_of(qcow.header.cluster_bits, pos) < qcow.l1_table@.len(),
        !qcow.l1_table@[l1_index_of(qcow.header.cluster_bits, pos) as int].allocated(),
    ensures
        guest_cluster(qcow, host, pos) == Ok::<Seq<u8>, ReadError>(
            zeros(cluster_size_of(qcow.header.cluster_bits)),
        ),
{
}

/// A position whose first-level slot lies beyond the table is out of range.
pub proof fn law_beyond_table_is_out_of_range(qcow: Qcow2, host: Seq<u8>, pos: nat)
    requires
        l1_index_of(qcow.header.cluster_bits, pos) >= qcow.l1_table@.len(),
    ensures
        guest_cluster(qcow, host, pos) == Err::<Seq<u8>, ReadError>(ReadError::OutOfRange),
{
}

} // verus!
