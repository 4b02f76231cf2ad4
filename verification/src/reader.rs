//! The reader: a cursor over the guest disk with cached address tables.

use vstd::prelude::*;
use crate::disk::{guest_bytes, guest_cluster, lemma_guest_bytes_split, lemma_read_is_guest_bytes,
    read_span, readable};
use crate::error::ReadError;
use crate::geometry::{cluster_index_of, cluster_size_of, l1_index_of, l2_entries_of,
    lemma_cluster_size_bounds, lemma_offset_zero, offset_in_cluster, ENTRY_SIZE};
use crate::image::Qcow2;
use crate::levels::{copy_into, fill_zero, zeros, L1Entry, L2Entry};

verus! {

/// Where a seek counts from.
#[derive(Clone, Copy, Debug, PartialEq, Eq, Structural)]
pub enum SeekFrom {
    /// An absolute guest offset.
    Start(u64),
    /// A signed distance from the end of the guest disk.
    End(i64),
    /// A signed distance from the current position.
    Current(i64),
}

/// The position that a seek asks for, where it fits the 64-bit position
/// space.
pub open spec fn seek_target(from: SeekFrom, pos: u64, size: u64) -> Option<u64> {
    let target: int = match from {
        SeekFrom::Start(offset) => offset as int,
        SeekFrom::End(distance) => size + distance,
        SeekFrom::Current(distance) => pos + distance,
    };
    if 0 <= target <= u64::MAX {
        Some(target as u64)
    } else {
        None
    }
}

/// Adds a signed distance to a position in a range wide enough for every
/// sum, and gives the sum where it fits 64 unsigned bits.
pub fn offset_position(base: u64, distance: i64) -> (r: Option<u64>)
    ensures
        r == (if 0 <= base + distance <= u64::MAX {
            Some((base + distance) as u64)
        } else {
            None
        }),
{
    let wide: i128 = base as i128 + distance as i128;
    if 0 <= wide && wide <= u64::MAX as i128 {
        Some(wide as u64)
    } else {
        None
    }
}

/// What a reader is to its user: the image, the host bytes under it, and
/// the cursor. The caches do not show.
pub struct ReaderView {
    pub qcow: Qcow2,
    pub host: Seq<u8>,
    pub pos: u64,
}

/// A reader of the guest disk of an image. Made by [`Qcow2::reader`].
pub struct Reader<'qcow, 'reader> {
    qcow: &'qcow Qcow2,
    /// The bytes of the host file that holds the image.
    host: &'reader [u8],
    /// Current position within the guest disk.
    pos: u64,
    /// The first-level slot that `l1_cache` and `l2_table_cache` were read from.
    l1_key: u64,
    l1_cache: &'qcow L1Entry,
    l2_table_cache: Vec<L2Entry>,
    /// The cluster that `l2_cache` belongs to.
    l2_key: u64,
    l2_cache: L2Entry,
    /// Decoded bytes of a cluster; as long as a cluster at all times.
    current_cluster: Vec<u8>,
}

impl<'qcow, 'reader> View for Reader<'qcow, 'reader> {
    type V = ReaderView;

    closed spec fn view(&self) -> ReaderView {
        ReaderView { qcow: *self.qcow, host: self.host@, pos: self.pos }
    }
}

impl Qcow2 {
    /// Creates a reader of the guest disk, positioned at offset 0, over the
    /// bytes `host` of the host file. The cluster at offset 0 is resolved
    /// and decoded at once, so it has to be readable.
    pub fn reader<'qcow, 'reader>(&'qcow self, host: &'reader [u8]) -> (r: Reader<
        'qcow,
        'reader,
    >)
        requires
            self.wf(),
            guest_cluster(*self, host@, 0) is Ok,
        ensures
            r.wf(),
            r.decoded(),
            r@ == (ReaderView { qcow: *self, host: host@, pos: 0 }),
    {
        proof {
            lemma_cluster_size_bounds(self.header.cluster_bits);
            lemma_offset_zero(self.header.cluster_bits);
        }
        let pos: u64 = 0;
        let l1_key: u64 = 0;
        let l2_key: u64 = 0;
        let qcow = self;
        let l1_cache = &self.l1_table[0];
        let l2_table_cache = l1_cache.read_l2(host, qcow.header.cluster_bits).unwrap();
        let l2_cache = l2_table_cache[0];

        let mut current_cluster: Vec<u8> = vec![0u8; self.cluster_size() as usize];
        l2_cache.read_contents(
            host,
            current_cluster.as_mut_slice(),
            qcow.compression_type(),
        ).unwrap();

        Reader {
            qcow,
            host,
            pos,
            l1_cache,
            l2_table_cache,
            l2_cache,
            l1_key,
            l2_key,
            current_cluster,
        }
    }

    /// Creates a reader as [`Qcow2::reader`] does where the cluster at
    /// offset 0 can be read, and says why it cannot where it cannot.
    pub fn try_reader<'qcow, 'reader>(&'qcow self, host: &'reader [u8]) -> (r: Result<
        Reader<'qcow, 'reader>,
        ReadError,
    >)
        requires
            self.wf(),
        ensures
            match guest_cluster(*self, host@, 0) {
                Ok(_) => r is Ok && r->Ok_0.wf() && r->Ok_0.decoded() && r->Ok_0@ == (ReaderView {
                    qcow: *self,
                    host: host@,
                    pos: 0,
                }),
                Err(e) => r is Err && r->Err_0 == e,
            },
    {
        proof {
            lemma_cluster_size_bounds(self.header.cluster_bits);
            lemma_offset_zero(self.header.cluster_bits);
        }
        if self.l1_table.len() == 0 {
            return Err(ReadError::OutOfRange);
        }
        let l1 = &self.l1_table[0];
        match l1.read_l2(host, self.header.cluster_bits) {
            None => Err(ReadError::OutOfRange),
            Some(table) => {
                let mut scratch: Vec<u8> = vec![0u8; self.cluster_size() as usize];
                let entry = table[0];
                match entry.read_contents(
                    host,
                    scratch.as_mut_slice(),
                    self.compression_type(),
                ) {
                    Err(e) => Err(e),
                    Ok(()) => Ok(self.reader(host)),
                }
            },
        }
    }
}

impl<'qcow, 'reader> Reader<'qcow, 'reader> {
    /// The first-level cache holds what its key says.
    pub closed spec fn l1_valid(&self) -> bool {
        let bits = self.qcow.header.cluster_bits;
        &&& self.qcow.wf()
        &&& self.current_cluster@.len() == cluster_size_of(bits)
        &&& self.l1_key < self.qcow.l1_table@.len()
        &&& *self.l1_cache == self.qcow.l1_table@[self.l1_key as int]
        &&& self.l1_cache.l2_table(self.host@, bits) == Some(self.l2_table_cache@)
    }

    /// Both cache levels hold what their keys say, and the first-level key
    /// governs the cluster of the second-level key. Under a sparse
    /// first-level slot the cached second-level slot may be stale: it is
    /// never consulted there.
    pub closed spec fn wf(&self) -> bool {
        let entries = l2_entries_of(self.qcow.header.cluster_bits);
        &&& self.l1_valid()
        &&& self.l1_key == self.l2_key as nat / entries
        &&& self.l1_cache.allocated() ==> self.l2_cache == self.l2_table_cache@[(self.l2_key as nat
            % entries) as int]
    }

    /// The cluster buffer holds the decoded guest cluster of the current
    /// position.
    pub closed spec fn decoded(&self) -> bool {
        &&& self.l2_key == cluster_index_of(self.qcow.header.cluster_bits, self.pos as nat)
        &&& guest_cluster(*self.qcow, self.host@, self.pos as nat) == Ok::<Seq<u8>, ReadError>(
            self.current_cluster@,
        )
    }

    /// What the cluster buffer holds.
    pub closed spec fn cluster_buffer(&self) -> Seq<u8> {
        self.current_cluster@
    }

    /// The cluster buffer is as long as a cluster at all times.
    pub proof fn lemma_buffer_len(&self)
        requires
            self.wf(),
        ensures
            self.cluster_buffer().len() == cluster_size_of(self@.qcow.header.cluster_bits),
    {
    }

    /// A decoded cluster buffer holds the guest cluster of the position:
    /// zeros where the first-level slot of the position is sparse.
    pub proof fn lemma_decoded_buffer(&self)
        requires
            self.wf(),
            self.decoded(),
        ensures
            guest_cluster(self@.qcow, self@.host, self@.pos as nat) == Ok::<Seq<u8>, ReadError>(
                self.cluster_buffer(),
            ),
            !self@.qcow.l1_table@[l1_index_of(
                self@.qcow.header.cluster_bits,
                self@.pos as nat,
            ) as int].allocated() ==> self.cluster_buffer() == zeros(
                cluster_size_of(self@.qcow.header.cluster_bits),
            ),
    {
    }

    /// Returns the current read position within the guest disk.
    pub fn guest_pos(&self) -> (pos: u64)
        ensures
            pos == self@.pos,
    {
        self.pos
    }

    /// Makes the first-level cache current for the position. Where the
    /// governing slot lies outside the table, or its second-level table
    /// cannot be materialized, nothing changes.
    fn update_l1_cache(&mut self) -> (r: Result<(), ReadError>)
        requires
            old(self).l1_valid(),
        ensures
            final(self).l1_valid(),
            final(self)@ == old(self)@,
            final(self).l2_key == old(self).l2_key,
            final(self).l2_cache == old(self).l2_cache,
            final(self).current_cluster == old(self).current_cluster,
            match r {
                Ok(_) => final(self).l1_key == l1_index_of(
                    old(self)@.qcow.header.cluster_bits,
                    old(self)@.pos as nat,
                ),
                Err(e) => {
                    &&& e == ReadError::OutOfRange
                    &&& *final(self) == *old(self)
                    &&& guest_cluster(old(self)@.qcow, old(self)@.host, old(self)@.pos as nat)
                        == Err::<Seq<u8>, ReadError>(ReadError::OutOfRange)
                },
            },
    {
        proof {
            lemma_cluster_size_bounds(self.qcow.header.cluster_bits);
        }
        let cluster_size: u64 = self.qcow.cluster_size();
        let l2_entries: u64 = cluster_size / ENTRY_SIZE;
        let l1_key: u64 = (self.pos / cluster_size) / l2_entries;

        if self.l1_key != l1_key {
            let qcow = self.qcow;
            if l1_key >= qcow.l1_table.len() as u64 {
                return Err(ReadError::OutOfRange);
            }
            let l1_cache = &qcow.l1_table[l1_key as usize];
            match l1_cache.read_l2(self.host, qcow.header.cluster_bits) {
                None => {
                    return Err(ReadError::OutOfRange);
                },
                Some(table) => {
                    self.l1_key = l1_key;
                    self.l1_cache = l1_cache;
                    self.l2_table_cache = table;
                },
            }
        }
        Ok(())
    }

    /// Makes both cache levels current for the position, then decodes the
    /// cluster of the position into the cluster buffer: zeros under a sparse
    /// first-level slot, else what the cached second-level slot yields.
    fn update_l2_cache(&mut self) -> (r: Result<(), ReadError>)
        requires
            old(self).wf(),
        ensures
            final(self).wf(),
            final(self)@ == old(self)@,
            match guest_cluster(old(self)@.qcow, old(self)@.host, old(self)@.pos as nat) {
                Ok(bytes) => {
                    &&& r is Ok
                    &&& final(self).current_cluster@ == bytes
                    &&& final(self).decoded()
                },
                Err(e) => r == Err::<(), ReadError>(e),
            },
    {
        proof {
            lemma_cluster_size_bounds(self.qcow.header.cluster_bits);
        }
        let cluster_size: u64 = self.qcow.cluster_size();
        let l2_entries: u64 = cluster_size / ENTRY_SIZE;
        let l2_key: u64 = self.pos / cluster_size;
        let l2_index: u64 = l2_key % l2_entries;

        if self.l2_key != l2_key {
            match self.update_l1_cache() {
                Err(e) => {
                    return Err(e);
                },
                Ok(_) => {},
            }
            if self.l1_cache.l2_offset != 0 {
                self.l2_cache = self.l2_table_cache[l2_index as usize];
            }
            self.l2_key = l2_key;
        }
        if self.l1_cache.l2_offset == 0 {
            // sparse range: the cluster reads as zeros
            fill_zero(self.current_cluster.as_mut_slice());
        } else {
            let entry = self.l2_cache;
            let comp_type = self.qcow.compression_type();
            match entry.read_contents(self.host, self.current_cluster.as_mut_slice(), comp_type) {
                Err(e) => {
                    return Err(e);
                },
                Ok(_) => {},
            }
        }
        Ok(())
    }

    /// Reads from the current position into `buf`: as many bytes as `buf`
    /// holds, but none beyond the end of the cluster of the position. The
    /// position moves past the bytes read, and the cluster it then lies in
    /// is decoded ahead of the next call; a failure of that is not reported
    /// here. Where the cluster of the position cannot be read, or the new
    /// position would not fit 64 bits, nothing is read and the position
    /// stays.
    pub fn read(&mut self, buf: &mut [u8]) -> (r: Result<usize, ReadError>)
        requires
            old(self).wf(),
        ensures
            final(self).wf(),
            final(self)@.qcow == old(self)@.qcow,
            final(self)@.host == old(self)@.host,
            final(buf)@.len() == old(buf)@.len(),
            l1_index_of(old(self)@.qcow.header.cluster_bits, old(self)@.pos as nat) >= old(
                self,
            )@.qcow.l1_table@.len() ==> r == Err::<usize, ReadError>(ReadError::OutOfRange),
            match guest_cluster(old(self)@.qcow, old(self)@.host, old(self)@.pos as nat) {
                Err(e) => {
                    &&& r == Err::<usize, ReadError>(e)
                    &&& final(self)@.pos == old(self)@.pos
                    &&& final(buf)@ == old(buf)@
                },
                Ok(cluster) => {
                    let bits = old(self)@.qcow.header.cluster_bits;
                    let start = offset_in_cluster(bits, old(self)@.pos as nat);
                    let count = read_span(bits, old(self)@.pos as nat, old(buf)@.len());
                    if old(self)@.pos + count > u64::MAX {
                        &&& r == Err::<usize, ReadError>(ReadError::OutOfRange)
                        &&& final(self)@.pos == old(self)@.pos
                        &&& final(buf)@ == old(buf)@
                    } else {
                        &&& r == Ok::<usize, ReadError>(count as usize)
                        &&& start + count <= cluster_size_of(bits)
                        &&& final(self)@.pos == old(self)@.pos + count
                        &&& final(buf)@ == cluster.subrange(start as int, (start + count) as int) + old(
                            buf,
                        )@.subrange(count as int, old(buf)@.len() as int)
                        &&& final(buf)@.subrange(0, count as int) == guest_bytes(
                            old(self)@.qcow,
                            old(self)@.host,
                            old(self)@.pos as nat,
                            count,
                        )
                        &&& guest_cluster(
                            old(self)@.qcow,
                            old(self)@.host,
                            (old(self)@.pos + count) as nat,
                        ) is Ok ==> final(self).decoded()
                    }
                },
            },
    {
        proof {
            lemma_cluster_size_bounds(self.qcow.header.cluster_bits);
        }
        match self.update_l2_cache() {
            Err(e) => {
                return Err(e);
            },
            Ok(_) => {},
        }
        let cluster_size: u64 = self.cluster_size();
        let pos_in_cluster: u64 = self.pos % cluster_size;
        let bytes_remaining_in_cluster: u64 = cluster_size - pos_in_cluster;
        let buf_len: usize = buf.len();
        let read_len: u64 = if bytes_remaining_in_cluster <= buf_len as u64 {
            bytes_remaining_in_cluster
        } else {
            buf_len as u64
        };
        let new_pos: u64 = match self.pos.checked_add(read_len) {
            None => {
                return Err(ReadError::OutOfRange);
            },
            Some(new_pos) => new_pos,
        };
        copy_into(
            buf,
            0,
            self.current_cluster.as_slice(),
            pos_in_cluster as usize,
            read_len as usize,
        );
        proof {
            lemma_read_is_guest_bytes(self@.qcow, self@.host, self.pos as nat, read_len as nat);
            assert(buf@.subrange(0, read_len as int) =~= self.current_cluster@.subrange(
                pos_in_cluster as int,
                pos_in_cluster + read_len,
            ));
            assert(buf@ =~= self.current_cluster@.subrange(
                pos_in_cluster as int,
                pos_in_cluster + read_len,
            ) + old(buf)@.subrange(read_len as int, old(buf)@.len() as int));
        }
        self.pos = new_pos;
        let _ = self.update_l2_cache();

        Ok(read_len as usize)
    }

    /// Fills `buf` from the current position on by reading again and again,
    /// each read ending at a cluster boundary or at the end of `buf`. It
    /// stops at the first failing read: the position is then where that
    /// read began, and `buf` holds what was read before it.
    pub fn read_exact(&mut self, buf: &mut [u8]) -> (r: Result<(), ReadError>)
        requires
            old(self).wf(),
        ensures
            final(self).wf(),
            final(self)@.qcow == old(self)@.qcow,
            final(self)@.host == old(self)@.host,
            final(buf)@.len() == old(buf)@.len(),
            old(self)@.pos <= final(self)@.pos <= old(self)@.pos + old(buf)@.len(),
            readable(
                old(self)@.qcow,
                old(self)@.host,
                old(self)@.pos as nat,
                final(self)@.pos as nat,
            ),
            final(buf)@.subrange(0, final(self)@.pos - old(self)@.pos) == guest_bytes(
                old(self)@.qcow,
                old(self)@.host,
                old(self)@.pos as nat,
                (final(self)@.pos - old(self)@.pos) as nat,
            ),
            final(buf)@.subrange(final(self)@.pos - old(self)@.pos, old(buf)@.len() as int) == old(
                buf,
            )@.subrange(final(self)@.pos - old(self)@.pos, old(buf)@.len() as int),
            match r {
                Ok(_) => final(self)@.pos == old(self)@.pos + old(buf)@.len(),
                Err(e) => {
                    &&& final(self)@.pos < old(self)@.pos + old(buf)@.len()
                    &&& match guest_cluster(
                        old(self)@.qcow,
                        old(self)@.host,
                        final(self)@.pos as nat,
                    ) {
                        Err(cause) => e == cause,
                        Ok(_) => e == ReadError::OutOfRange && old(self)@.pos + old(buf)@.len()
                            > u64::MAX,
                    }
                },
            },
            r is Ok <==> readable(
                old(self)@.qcow,
                old(self)@.host,
                old(self)@.pos as nat,
                (old(self)@.pos + old(buf)@.len()) as nat,
            ) && old(self)@.pos + old(buf)@.len() <= u64::MAX,
    {
        proof {
            lemma_cluster_size_bounds(self.qcow.header.cluster_bits);
        }
        let len: usize = buf.len();
        assert(buf@.subrange(0, 0) =~= guest_bytes(self@.qcow, self@.host, self@.pos as nat, 0));
        if len == 0 {
            return Ok(());
        }
        let cluster_size: u64 = self.cluster_size();
        let scratch_len: usize = if len as u64 <= cluster_size {
            len
        } else {
            cluster_size as usize
        };
        let mut scratch: Vec<u8> = vec![0u8; scratch_len];
        let mut filled: usize = 0;
        while filled < len
            invariant
                self.wf(),
                self@.qcow == old(self)@.qcow,
                self@.host == old(self)@.host,
                3 <= self@.qcow.header.cluster_bits < 64,
                filled <= len,
                buf@.len() == len,
                old(buf)@.len() == len,
                1 <= scratch@.len(),
                self@.pos == old(self)@.pos + filled,
                readable(self@.qcow, self@.host, old(self)@.pos as nat, self@.pos as nat),
                buf@.subrange(0, filled as int) == guest_bytes(
                    self@.qcow,
                    self@.host,
                    old(self)@.pos as nat,
                    filled as nat,
                ),
                buf@.subrange(filled as int, len as int) == old(buf)@.subrange(
                    filled as int,
                    len as int,
                ),
            decreases len - filled,
        {
            let remaining: usize = len - filled;
            if remaining < scratch.len() {
                scratch.truncate(remaining);
            }
            let ghost before = buf@;
            let ghost at = self@.pos as nat;
            proof {
                lemma_cluster_size_bounds(self@.qcow.header.cluster_bits);
            }
            let count: usize = match self.read(scratch.as_mut_slice()) {
                Ok(count) => count,
                Err(e) => {
                    return Err(e);
                },
            };
            copy_into(buf, filled, scratch.as_slice(), 0, count);
            proof {
                lemma_guest_bytes_split(
                    self@.qcow,
                    self@.host,
                    old(self)@.pos as nat,
                    filled as nat,
                    count as nat,
                );
                assert(scratch@.subrange(0, count as int) == guest_bytes(
                    self@.qcow,
                    self@.host,
                    at,
                    count as nat,
                ));
                assert(buf@.subrange(0, filled + count) =~= before.subrange(0, filled as int)
                    + scratch@.subrange(0, count as int));
                assert(buf@.subrange(filled + count, len as int) =~= old(buf)@.subrange(
                    filled + count,
                    len as int,
                )) by {
                    assert forall|j: int| filled + count <= j < len implies buf@[j] == old(
                        buf,
                    )@[j] by {
                        assert(before.subrange(filled as int, len as int)[j - filled] == old(
                            buf,
                        )@.subrange(filled as int, len as int)[j - filled]);
                    }
                }
                lemma_read_is_guest_bytes(self@.qcow, self@.host, at, count as nat);
            }
            filled += count;
        }
        assert(buf@.subrange(0, len as int) =~= buf@);
        Ok(())
    }

    /// Moves the position: to an absolute offset, or by a signed distance
    /// from the current position or from the end of the guest disk. A
    /// target outside the 64-bit position space is refused and leaves the
    /// reader as it was. Otherwise the position is the target, and the
    /// cluster there is decoded at once: where that fails the failure is
    /// returned, and the position stays at the target.
    pub fn seek(&mut self, pos: SeekFrom) -> (r: Result<u64, ReadError>)
        requires
            old(self).wf(),
        ensures
            final(self).wf(),
            final(self)@.qcow == old(self)@.qcow,
            final(self)@.host == old(self)@.host,
            match seek_target(pos, old(self)@.pos, old(self)@.qcow.header.size) {
                None => {
                    &&& r == Err::<u64, ReadError>(ReadError::OutOfRange)
                    &&& *final(self) == *old(self)
                },
                Some(target) => {
                    &&& final(self)@.pos == target
                    &&& match guest_cluster(old(self)@.qcow, old(self)@.host, target as nat) {
                        Ok(_) => r == Ok::<u64, ReadError>(target) && final(self).decoded(),
                        Err(e) => r == Err::<u64, ReadError>(e),
                    }
                    &&& l1_index_of(old(self)@.qcow.header.cluster_bits, target as nat) >= old(
                        self,
                    )@.qcow.l1_table@.len() ==> r == Err::<u64, ReadError>(ReadError::OutOfRange)
                },
            },
            pos == SeekFrom::Current(0) ==> final(self)@.pos == old(self)@.pos,
            pos == SeekFrom::End(0) ==> final(self)@.pos == old(self)@.qcow.header.size,
    {
        let target: Option<u64> = match pos {
            SeekFrom::Start(new_pos) => Some(new_pos),
            SeekFrom::Current(rel_offset) => offset_position(self.pos, rel_offset),
            SeekFrom::End(from_end) => offset_position(self.qcow.header.size, from_end),
        };
        match target {
            None => Err(ReadError::OutOfRange),
            Some(new_pos) => {
                self.pos = new_pos;
                match self.update_l2_cache() {
                    Ok(_) => Ok(self.pos),
                    Err(e) => Err(e),
                }
            },
        }
    }

    /// Get the size of a cluster of the image.
    pub fn cluster_size(&self) -> (size: u64)
        requires
            self.wf(),
        ensures
            size == cluster_size_of(self@.qcow.header.cluster_bits),
    {
        self.qcow.cluster_size()
    }

    /// Get the number of cluster bits of the image.
    pub fn cluster_bits(&self) -> (bits: u32)
        ensures
            bits == self@.qcow.header.cluster_bits,
    {
        self.qcow.header.cluster_bits
    }
}

} // verus!
