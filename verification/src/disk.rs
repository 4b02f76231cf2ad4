//! The guest disk as a mathematical object: which bytes an image and its
//! host file spell at each guest offset.

use vstd::prelude::*;
use crate::error::ReadError;
use crate::geometry::{cluster_size_of, l1_index_of, l2_index_of, lemma_within_cluster,
    offset_in_cluster};
use crate::image::Qcow2;
use crate::levels::zeros;

verus! {

/// The whole guest cluster that holds offset `pos`, or why it cannot be
/// read. A cluster under a sparse first-level slot is all zero.
pub open spec fn guest_cluster(qcow: Qcow2, host: Seq<u8>, pos: nat) -> Result<Seq<u8>, ReadError> {
    let bits = qcow.header.cluster_bits;
    let l1_index = l1_index_of(bits, pos);
    if l1_index >= qcow.l1_table@.len() {
        Err(ReadError::OutOfRange)
    } else {
        let l1 = qcow.l1_table@[l1_index as int];
        match l1.l2_table(host, bits) {
            None => Err(ReadError::OutOfRange),
            Some(table) => if !l1.allocated() {
                Ok(zeros(cluster_size_of(bits)))
            } else {
                table[l2_index_of(bits, pos) as int].contents(
                    host,
                    cluster_size_of(bits),
                    qcow.spec_compression_type(),
                )
            },
        }
    }
}

/// The guest byte at offset `pos`, where its cluster can be read.
pub open spec fn guest_byte(qcow: Qcow2, host: Seq<u8>, pos: nat) -> u8 {
    guest_cluster(qcow, host, pos)->Ok_0[offset_in_cluster(qcow.header.cluster_bits, pos) as int]
}

/// Every guest offset from `from` up to, not including, `to` can be read.
pub open spec fn readable(qcow: Qcow2, host: Seq<u8>, from: nat, to: nat) -> bool {
    forall|p: nat| from <= p < to ==> (#[trigger] guest_cluster(qcow, host, p)) is Ok
}

/// The `len` guest bytes from offset `from` on.
pub open spec fn guest_bytes(qcow: Qcow2, host: Seq<u8>, from: nat, len: nat) -> Seq<u8> {
    Seq::new(len, |i: int| guest_byte(qcow, host, (from + i) as nat))
}

/// The guest bytes of a range are those of its first part followed by those
/// of the rest.
pub proof fn lemma_guest_bytes_split(qcow: Qcow2, host: Seq<u8>, from: nat, a: nat, b: nat)
    ensures
        guest_bytes(qcow, host, from, a + b) == guest_bytes(qcow, host, from, a) + guest_bytes(
            qcow,
            host,
            from + a,
            b,
        ),
{
    assert(guest_bytes(qcow, host, from, a + b) =~= guest_bytes(qcow, host, from, a) + guest_bytes(
        qcow,
        host,
        from + a,
        b,
    ));
}

/// A guest cluster that can be read is as long as a cluster.
pub proof fn lemma_cluster_len(qcow: Qcow2, host: Seq<u8>, pos: nat)
    requires
        guest_cluster(qcow, host, pos) is Ok,
    ensures
        guest_cluster(qcow, host, pos)->Ok_0.len() == cluster_size_of(qcow.header.cluster_bits),
{
}

/// The bytes that one read takes from the decoded cluster of `pos` are the
/// guest bytes from `pos` on.
pub proof fn lemma_read_is_guest_bytes(
    qcow: Qcow2,
    host: Seq<u8>,
    pos: nat,
    count: nat,
)
    requires
        qcow.wf(),
        guest_cluster(qcow, host, pos) is Ok,
        offset_in_cluster(qcow.header.cluster_bits, pos) + count <= cluster_size_of(
            qcow.header.cluster_bits,
        ),
    ensures
        guest_cluster(qcow, host, pos)->Ok_0.subrange(
            offset_in_cluster(qcow.header.cluster_bits, pos) as int,
            (offset_in_cluster(qcow.header.cluster_bits, pos) + count) as int,
        ) == guest_bytes(qcow, host, pos, count),
        readable(qcow, host, pos, pos + count),
{
    let bits = qcow.header.cluster_bits;
    lemma_cluster_len(qcow, host, pos);
    let bytes = guest_cluster(qcow, host, pos)->Ok_0.subrange(
        offset_in_cluster(bits, pos) as int,
        (offset_in_cluster(bits, pos) + count) as int,
    );
    assert(bytes =~= guest_bytes(qcow, host, pos, count)) by {
        assert forall|i: int| 0 <= i < count implies bytes[i] == guest_bytes(
            qcow,
            host,
            pos,
            count,
        )[i] by {
            lemma_within_cluster(bits, pos, i as nat);
        }
    }
    assert forall|p: nat| pos <= p < pos + count implies (#[trigger] guest_cluster(
        qcow,
        host,
        p,
    )) is Ok by {
        lemma_within_cluster(bits, pos, (p - pos) as nat);
        assert(p == pos + (p - pos) as nat);
    }
}

/// How many bytes one read at `pos` into a buffer of `cap` bytes returns:
/// up to the end of the cluster, and no more than the buffer holds.
pub open spec fn read_span(bits: u32, pos: nat, cap: nat) -> nat {
    let rest = (cluster_size_of(bits) - offset_in_cluster(bits, pos)) as nat;
    if rest <= cap {
        rest
    } else {
        cap
    }
}

} // verus!
