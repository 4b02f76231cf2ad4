//! Address arithmetic: how a guest offset splits into table indices.

use vstd::prelude::*;
use vstd::arithmetic::power2::*;
use vstd::arithmetic::div_mod::{lemma_fundamental_div_mod, lemma_fundamental_div_mod_converse};
use vstd::bits::*;

verus! {

/// Bytes in one slot of an address table.
pub const ENTRY_SIZE: u64 = 8;

/// The exponents this library reads: a cluster holds at least one table slot
/// and fits in memory.
pub open spec fn valid_cluster_bits(bits: u32) -> bool {
    3 <= bits < 64 && pow2(bits as nat) <= usize::MAX
}

/// Bytes in a cluster.
pub open spec fn cluster_size_of(bits: u32) -> nat {
    pow2(bits as nat)
}

/// Slots in a second-level table, which fills exactly one cluster.
pub open spec fn l2_entries_of(bits: u32) -> nat {
    cluster_size_of(bits) / 8
}

/// The cluster that holds guest offset `pos`.
pub open spec fn cluster_index_of(bits: u32, pos: nat) -> nat {
    pos / cluster_size_of(bits)
}

/// The first-level slot that governs guest offset `pos`.
pub open spec fn l1_index_of(bits: u32, pos: nat) -> nat {
    cluster_index_of(bits, pos) / l2_entries_of(bits)
}

/// The second-level slot of guest offset `pos` within its table.
pub open spec fn l2_index_of(bits: u32, pos: nat) -> nat {
    cluster_index_of(bits, pos) % l2_entries_of(bits)
}

/// The distance of guest offset `pos` from the start of its cluster.
pub open spec fn offset_in_cluster(bits: u32, pos: nat) -> nat {
    pos % cluster_size_of(bits)
}

/// A cluster is a positive multiple of the slot size, and fits in `u64`.
pub proof fn lemma_cluster_size_bounds(bits: u32)
    requires
        3 <= bits < 64,
    ensures
        8 <= cluster_size_of(bits) <= u64::MAX,
        cluster_size_of(bits) == 8 * l2_entries_of(bits),
        1 <= l2_entries_of(bits),
{
    lemma_u64_pow2_no_overflow(bits as nat);
    lemma_pow2_adds(3, (bits - 3) as nat);
    lemma_pow2_pos((bits - 3) as nat);
    lemma2_to64();
    assert(pow2(bits as nat) == 8 * pow2((bits - 3) as nat));
}

/// Guest offset 0 is the start of cluster 0, under the first slot of both
/// table levels.
pub proof fn lemma_offset_zero(bits: u32)
    requires
        3 <= bits < 64,
    ensures
        cluster_index_of(bits, 0) == 0,
        l1_index_of(bits, 0) == 0,
        l2_index_of(bits, 0) == 0,
        offset_in_cluster(bits, 0) == 0,
{
    lemma_cluster_size_bounds(bits);
    let size = cluster_size_of(bits) as int;
    let entries = l2_entries_of(bits) as int;
    lemma_fundamental_div_mod_converse(0, size, 0, 0);
    lemma_fundamental_div_mod_converse(0, entries, 0, 0);
}

/// Offsets short of the end of a cluster lie in that cluster: `pos + i` has
/// the cluster of `pos`, and lies `i` further into it.
pub proof fn lemma_within_cluster(bits: u32, pos: nat, i: nat)
    requires
        3 <= bits < 64,
        offset_in_cluster(bits, pos) + i < cluster_size_of(bits),
    ensures
        cluster_index_of(bits, pos + i) == cluster_index_of(bits, pos),
        l1_index_of(bits, pos + i) == l1_index_of(bits, pos),
        l2_index_of(bits, pos + i) == l2_index_of(bits, pos),
        offset_in_cluster(bits, pos + i) == offset_in_cluster(bits, pos) + i,
{
    lemma_cluster_size_bounds(bits);
    let size = cluster_size_of(bits) as int;
    lemma_fundamental_div_mod(pos as int, size);
    lemma_fundamental_div_mod_converse(
        (pos + i) as int,
        size,
        pos as int / size,
        pos as int % size + i,
    );
}

/// Tells whether a cluster of `2^bits` bytes can be addressed and held.
pub fn check_cluster_bits(bits: u32) -> (ok: bool)
    ensures
        ok == valid_cluster_bits(bits),
{
    if bits < 3 || bits >= 64 {
        return false;
    }
    let size: u64 = cluster_size(bits);
    size <= usize::MAX as u64
}

/// Bytes in a cluster of `2^bits` bytes.
pub fn cluster_size(bits: u32) -> (size: u64)
    requires
        bits < 64,
    ensures
        size == cluster_size_of(bits),
{
    proof {
        lemma_u64_pow2_no_overflow(bits as nat);
        lemma_u64_shl_is_mul(1, bits as u64);
    }
    1u64 << bits
}

} // verus!
