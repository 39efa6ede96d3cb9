//! The GUID Partition Table: the 92-byte header at LBA 1 and the partition
//! entry array it points at.
//!
//! Every multi-byte field is little-endian; the two GUIDs of an entry and
//! the disk GUID of the header go through the GUID codec. An entry whose
//! type GUID is all zero is a vacant slot: it stays in the decoded sequence
//! (slot positions are significant) but is left out of the active view.

use crate::codec::{le_val, lemma_le_val_bound, lemma_pow256_values, read_u16_at, read_u32_at, read_u64_at};
use crate::error::DecodeError;
use crate::geometry::BlockDeviceGeometry;
use crate::guid::{fresh_guid, guid_matches, Guid};
use crate::text::{utf16_chars, utf16_to_string};
use vstd::arithmetic::mul::lemma_mul_inequality;
use vstd::prelude::*;
use vstd::slice::slice_subrange;

verus! {

/// ASCII `"EFI PART"` read as a little-endian 64-bit integer.
pub const GPT_SIGNATURE: u64 = 0x5452415020494645;

/// The revision a synthesized header declares.
pub const GPT_REVISION: u32 = 0x00010000;

/// The byte size of the header proper.
pub const GPT_HEADERSIZE: u32 = 92;

/// The entry count a synthesized header declares.
pub const GPT_MAX_PART: u32 = 128;

/// The per-entry byte size a synthesized header declares.
pub const GPT_PARTITION_SIZE: u32 = 128;

/// True exactly when the eight bytes at `lba_size` — the start of LBA 1 of
/// a buffer that begins at LBA 0 — spell the GPT signature.
pub fn is_gpt(buffer: &[u8], lba_size: usize) -> (r: bool)
    requires
        lba_size + 8 <= buffer@.len(),
    ensures
        r == (le_val(buffer@.subrange(lba_size as int, lba_size + 8)) == GPT_SIGNATURE),
{
    read_u64_at(buffer, lba_size) == GPT_SIGNATURE
}

/// Decodes a 16-byte mixed-endian GUID, as every GUID field of a GPT
/// structure stores one.
pub fn uuid_from_le_bytes(bytes: &[u8]) -> (g: Guid)
    requires
        bytes@.len() == 16,
    ensures
        guid_matches(g, bytes@),
{
    Guid::from_le_bytes(bytes)
}

/// Decodes the disk GUID of the header at LBA 1 of a buffer that begins at
/// LBA 0: the 16 bytes at offset 56 of that header.
pub fn get_disk_guid(buffer: &[u8], lba_size: usize) -> (g: Guid)
    requires
        lba_size + 72 <= buffer@.len(),
    ensures
        guid_matches(g, buffer@.subrange(lba_size + 56, lba_size + 72)),
{
    let blen: usize = buffer.len();
    proof {
        assert(lba_size + 72 <= blen);
    }
    let sub = slice_subrange(buffer, lba_size + 56, lba_size + 72);
    Guid::from_le_bytes(sub)
}

/// A decoded GPT header.
#[derive(Clone, Copy, Debug, PartialEq, Eq)]
pub struct GPTHeader {
    pub signature: u64,
    pub revision: u32,
    pub header_size: u32,
    pub header_crc32: u32,
    pub reserved: u32,
    pub current_lba: u64,
    pub backup_lba: u64,
    pub first_usable_lba: u64,
    pub last_usable_lba: u64,
    pub guid: Guid,
    pub number_of_partitions: u32,
    pub partition_entry_lba: u64,
    pub size_of_partition: u32,
    pub partition_entry_crc32: u32,
}

/// `h` is the decoding of the 92-byte header window `s`.
pub open spec fn header_matches(h: GPTHeader, s: Seq<u8>) -> bool {
    &&& s.len() >= 92
    &&& h.signature as nat == le_val(s.subrange(0, 8))
    &&& h.revision as nat == le_val(s.subrange(8, 12))
    &&& h.header_size as nat == le_val(s.subrange(12, 16))
    &&& h.header_crc32 as nat == le_val(s.subrange(16, 20))
    &&& h.reserved as nat == le_val(s.subrange(20, 24))
    &&& h.current_lba as nat == le_val(s.subrange(24, 32))
    &&& h.backup_lba as nat == le_val(s.subrange(32, 40))
    &&& h.first_usable_lba as nat == le_val(s.subrange(40, 48))
    &&& h.last_usable_lba as nat == le_val(s.subrange(48, 56))
    &&& guid_matches(h.guid, s.subrange(56, 72))
    &&& h.partition_entry_lba as nat == le_val(s.subrange(72, 80))
    &&& h.number_of_partitions as nat == le_val(s.subrange(80, 84))
    &&& h.size_of_partition as nat == le_val(s.subrange(84, 88))
    &&& h.partition_entry_crc32 as nat == le_val(s.subrange(88, 92))
}

impl GPTHeader {
    /// Decodes the header held in the first 92 bytes of `data`. A shorter
    /// buffer, or one whose header-size field claims less than the 92 bytes
    /// a header occupies, is rejected as truncated.
    pub fn from_slice(data: &[u8]) -> (r: Result<GPTHeader, DecodeError>)
        ensures
            match r {
                Ok(h) => {
                    &&& data@.len() >= 92
                    &&& header_matches(h, data@)
                    &&& h.header_size >= 92
                },
                Err(e) => {
                    &&& (data@.len() < 92 || le_val(data@.subrange(12, 16)) < 92)
                    &&& e == DecodeError::TruncatedInput
                },
            },
    {
        if data.len() < 92 {
            return Err(DecodeError::TruncatedInput);
        }
        let header_size = read_u32_at(data, 12);
        if header_size < GPT_HEADERSIZE {
            return Err(DecodeError::TruncatedInput);
        }
        let h = GPTHeader {
            signature: read_u64_at(data, 0),
            revision: read_u32_at(data, 8),
            header_size,
            header_crc32: read_u32_at(data, 16),
            reserved: read_u32_at(data, 20),
            current_lba: read_u64_at(data, 24),
            backup_lba: read_u64_at(data, 32),
            first_usable_lba: read_u64_at(data, 40),
            last_usable_lba: read_u64_at(data, 48),
            guid: Guid::from_le_bytes(slice_subrange(data, 56, 72)),
            partition_entry_lba: read_u64_at(data, 72),
            number_of_partitions: read_u32_at(data, 80),
            size_of_partition: read_u32_at(data, 84),
            partition_entry_crc32: read_u32_at(data, 88),
        };
        Ok(h)
    }

    /// Synthesizes a fresh header for the given geometry, for
    /// table-creation use: the standard signature and sizes, a newly drawn
    /// random disk GUID, checksum fields left zero, and the first usable
    /// LBA placed after the room the full entry array needs, rounded up to
    /// whole blocks.
    pub fn new(geometry: &BlockDeviceGeometry) -> (h: GPTHeader)
        requires
            geometry.logical_block_size > 0,
            geometry.logical_blocks >= 2,
        ensures
            h.signature == GPT_SIGNATURE,
            h.revision == GPT_REVISION,
            h.header_size == GPT_HEADERSIZE,
            h.header_crc32 == 0,
            h.reserved == 0,
            h.current_lba == 1,
            h.backup_lba == geometry.logical_blocks - 1,
            h.first_usable_lba == (GPT_MAX_PART * GPT_PARTITION_SIZE) as u64
                / geometry.logical_block_size + (if (GPT_MAX_PART * GPT_PARTITION_SIZE) as u64
                % geometry.logical_block_size == 0 {
                0int
            } else {
                1int
            }),
            h.last_usable_lba == geometry.logical_blocks - 2,
            h.guid.d3 / 0x1000 == 4,
            h.guid.d4@[0] / 64 == 2,
            h.partition_entry_lba == 2,
            h.number_of_partitions == GPT_MAX_PART,
            h.size_of_partition == GPT_PARTITION_SIZE,
            h.partition_entry_crc32 == 0,
    {
        let array_bytes: u64 = (GPT_MAX_PART * GPT_PARTITION_SIZE) as u64;
        let quotient = array_bytes / geometry.logical_block_size;
        let first_usable = if array_bytes % geometry.logical_block_size == 0 {
            quotient
        } else {
            quotient + 1
        };
        GPTHeader {
            signature: GPT_SIGNATURE,
            revision: GPT_REVISION,
            header_size: GPT_HEADERSIZE,
            header_crc32: 0,
            reserved: 0,
            current_lba: 1,
            backup_lba: geometry.logical_blocks - 1,
            first_usable_lba: first_usable,
            last_usable_lba: geometry.logical_blocks - 2,
            guid: fresh_guid(),
            partition_entry_lba: 2,
            number_of_partitions: GPT_MAX_PART,
            size_of_partition: GPT_PARTITION_SIZE,
            partition_entry_crc32: 0,
        }
    }
}

/// The code units of a partition name, taken from the name field at offset
/// 56 of the entry window `s`: little-endian 16-bit units, stopping at the
/// first zero unit or after 36 units, whichever comes first. `i` units have
/// already been taken.
pub open spec fn name_units_from(s: Seq<u8>, i: nat) -> Seq<u16>
    decreases 36 - i,
{
    if i >= 36 {
        Seq::empty()
    } else {
        let u = le_val(s.subrange(56 + 2 * (i as int), 58 + 2 * (i as int))) as u16;
        if u == 0 {
            Seq::empty()
        } else {
            seq![u] + name_units_from(s, i + 1)
        }
    }
}

/// The full code-unit sequence of the name field of entry window `s`.
pub open spec fn name_units(s: Seq<u8>) -> Seq<u16> {
    name_units_from(s, 0)
}

/// One decoded partition entry.
#[derive(Debug)]
pub struct GPTPartitionEntry {
    pub partition_type_guid: Guid,
    pub unique_partition_guid: Guid,
    pub starting_lba: u64,
    pub ending_lba: u64,
    pub attributes: u64,
    pub partition_name: String,
}

/// `e` is the decoding of the entry window `s` (its first 128 bytes).
pub open spec fn entry_matches(e: GPTPartitionEntry, s: Seq<u8>) -> bool {
    &&& s.len() >= 128
    &&& guid_matches(e.partition_type_guid, s.subrange(0, 16))
    &&& guid_matches(e.unique_partition_guid, s.subrange(16, 32))
    &&& e.starting_lba as nat == le_val(s.subrange(32, 40))
    &&& e.ending_lba as nat == le_val(s.subrange(40, 48))
    &&& e.attributes as nat == le_val(s.subrange(48, 56))
    &&& e.partition_name@ == utf16_chars(name_units(s))
}

impl GPTPartitionEntry {
    /// Decodes one partition entry from the first 128 bytes of `data`; a
    /// shorter window is rejected as truncated.
    pub fn from_slice(data: &[u8]) -> (r: Result<GPTPartitionEntry, DecodeError>)
        ensures
            match r {
                Ok(e) => data@.len() >= 128 && entry_matches(e, data@),
                Err(e) => data@.len() < 128 && e == DecodeError::TruncatedInput,
            },
    {
        if data.len() < 128 {
            return Err(DecodeError::TruncatedInput);
        }
        let mut units: Vec<u16> = Vec::new();
        let mut j: usize = 0;
        let mut stop = false;
        proof {
            assert(units@ + name_units_from(data@, 0) =~= name_units(data@));
        }
        while j < 36 && !stop
            invariant
                j <= 36,
                data@.len() >= 128,
                stop ==> units@ == name_units(data@),
                !stop ==> units@ + name_units_from(data@, j as nat) == name_units(data@),
            decreases 36 - j, (if stop { 0int } else { 1int }),
        {
            let u = read_u16_at(data, 56 + 2 * j);
            proof {
                let sub = data@.subrange(56 + 2 * (j as int), 58 + 2 * (j as int));
                lemma_le_val_bound(sub);
                lemma_pow256_values();
                assert(u == le_val(sub) as u16);
            }
            if u == 0 {
                stop = true;
                proof {
                    assert(name_units_from(data@, j as nat) =~= Seq::<u16>::empty());
                    assert(units@ =~= name_units(data@));
                }
            } else {
                units.push(u);
                j = j + 1;
                proof {
                    assert(units@ + name_units_from(data@, j as nat) =~= name_units(data@));
                }
            }
        }
        proof {
            if !stop {
                assert(name_units_from(data@, 36) =~= Seq::<u16>::empty());
                assert(units@ =~= name_units(data@));
            }
        }
        let e = GPTPartitionEntry {
            partition_type_guid: Guid::from_le_bytes(slice_subrange(data, 0, 16)),
            unique_partition_guid: Guid::from_le_bytes(slice_subrange(data, 16, 32)),
            starting_lba: read_u64_at(data, 32),
            ending_lba: read_u64_at(data, 40),
            attributes: read_u64_at(data, 48),
            partition_name: utf16_to_string(&units),
        };
        Ok(e)
    }
}

/// The slot indices of the entries that hold a partition — a non-nil type
/// GUID — in slot order.
pub open spec fn active_indices(s: Seq<GPTPartitionEntry>) -> Seq<int>
    decreases s.len(),
{
    if s.len() == 0 {
        Seq::empty()
    } else if s.last().partition_type_guid.spec_is_nil() {
        active_indices(s.drop_last())
    } else {
        active_indices(s.drop_last()).push(s.len() - 1)
    }
}

/// The decoded entry array: every declared slot, vacant ones included, in
/// on-disk order.
#[derive(Debug)]
pub struct GPTPartitionEntryArray {
    pub partitions: Vec<GPTPartitionEntry>,
}

/// `v` holds the decodings of `count` windows of `size` bytes each, cut
/// from `table` back to back.
pub open spec fn entries_match(v: Seq<GPTPartitionEntry>, table: Seq<u8>, count: nat, size: nat) -> bool {
    &&& v.len() == count
    &&& forall|k: int|
        0 <= k < count ==> entry_matches(
            v[k],
            table.subrange(k * size, k * size + size),
        )
}

impl GPTPartitionEntryArray {
    /// Decodes the whole entry array from a buffer holding the raw entry
    /// table. The header says how many entries there are and how many bytes
    /// each occupies; a table shorter than that, or an entry size below the
    /// 128 bytes an entry needs, is rejected as truncated.
    pub fn from_slice(table: &[u8], header: &GPTHeader) -> (r: Result<
        GPTPartitionEntryArray,
        DecodeError,
    >)
        ensures
            match r {
                Ok(a) => {
                    &&& header.size_of_partition >= 128
                    &&& table@.len() >= header.number_of_partitions
                        * header.size_of_partition
                    &&& entries_match(
                        a.partitions@,
                        table@,
                        header.number_of_partitions as nat,
                        header.size_of_partition as nat,
                    )
                },
                Err(e) => {
                    &&& (header.size_of_partition < 128 || table@.len()
                        < header.number_of_partitions * header.size_of_partition)
                    &&& e == DecodeError::TruncatedInput
                },
            },
    {
        let count = header.number_of_partitions;
        let size = header.size_of_partition;
        if size < 128 {
            return Err(DecodeError::TruncatedInput);
        }
        proof {
            assert((count as int) * (size as int) < 0x1_0000_0000_0000_0000) by (nonlinear_arith)
                requires
                    count as int <= 0xFFFF_FFFF,
                    size as int <= 0xFFFF_FFFF,
            ;
        }
        let total: u64 = (count as u64) * (size as u64);
        let tlen: usize = table.len();
        if (tlen as u64) < total {
            return Err(DecodeError::TruncatedInput);
        }
        let mut entries: Vec<GPTPartitionEntry> = Vec::new();
        let mut n: usize = 0;
        while n < (count as usize)
            invariant
                n <= count,
                size >= 128,
                table@.len() >= count as nat * size as nat,
                table@.len() <= usize::MAX,
                entries@.len() == n,
                forall|k: int|
                    0 <= k < n ==> entry_matches(
                        entries@[k],
                        table@.subrange(k * (size as int), k * (size as int) + size),
                    ),
            decreases count - n,
        {
            proof {
                lemma_mul_inequality(n as int + 1, count as int, size as int);
                assert((n as int + 1) * (size as int) == n as int * (size as int)
                    + size as int) by (nonlinear_arith);
                assert(n as int * (size as int) >= 0) by (nonlinear_arith)
                    requires
                        n as int >= 0,
                        size as int >= 0,
                ;
            }
            let off = n * (size as usize);
            let window = slice_subrange(table, off, off + (size as usize));
            match GPTPartitionEntry::from_slice(window) {
                Ok(e) => {
                    entries.push(e);
                },
                Err(_) => {
                    proof {
                        assert(false);
                    }
                    return Err(DecodeError::TruncatedInput);
                },
            }
            n = n + 1;
        }
        Ok(GPTPartitionEntryArray { partitions: entries })
    }

    /// The active view: how many slots hold a partition, and references to
    /// those entries in slot order. Vacant slots stay behind in
    /// `partitions`; nothing is reordered or removed.
    pub fn active_partitions(&self) -> (r: (usize, Vec<&GPTPartitionEntry>))
        ensures
            r.0 == active_indices(self.partitions@).len(),
            r.1@.len() == r.0,
            forall|j: int|
                0 <= j < r.1@.len() ==> *r.1@[j] == self.partitions@[active_indices(
                    self.partitions@,
                )[j]],
    {
        let n = self.partitions.len();
        let mut active: Vec<&GPTPartitionEntry> = Vec::new();
        let mut i: usize = 0;
        while i < n
            invariant
                i <= n,
                n == self.partitions@.len(),
                active@.len() == active_indices(self.partitions@.subrange(0, i as int)).len(),
                forall|j: int|
                    0 <= j < active@.len() ==> *active@[j] == self.partitions@[active_indices(
                        self.partitions@.subrange(0, i as int),
                    )[j]],
            decreases n - i,
        {
            let ghost prefix = self.partitions@.subrange(0, i as int);
            let ghost next_prefix = self.partitions@.subrange(0, i + 1);
            proof {
                assert(next_prefix.drop_last() =~= prefix);
                assert(next_prefix.last() == self.partitions@[i as int]);
            }
            if !self.partitions[i].partition_type_guid.is_nil() {
                active.push(&self.partitions[i]);
            }
            i = i + 1;
        }
        proof {
            assert(self.partitions@.subrange(0, n as int) =~= self.partitions@);
        }
        let count = active.len();
        (count, active)
    }

    /// Decodes the entry array out of a buffer that starts at LBA 0 of the
    /// disk: the table begins at the byte offset the header's entry LBA and
    /// the block size give, and runs for as many bytes as the declared
    /// entries need. A buffer that does not reach that far is rejected as
    /// truncated.
    pub fn from_buffer(disk: &[u8], header: &GPTHeader, lba_size: usize) -> (r: Result<
        GPTPartitionEntryArray,
        DecodeError,
    >)
        ensures
            match r {
                Ok(a) => {
                    &&& header.size_of_partition >= 128
                    &&& header.partition_entry_lba * lba_size + header.number_of_partitions
                        * header.size_of_partition <= disk@.len()
                    &&& entries_match(
                        a.partitions@,
                        disk@.subrange(
                            header.partition_entry_lba * lba_size,
                            header.partition_entry_lba * lba_size
                                + header.number_of_partitions * header.size_of_partition,
                        ),
                        header.number_of_partitions as nat,
                        header.size_of_partition as nat,
                    )
                },
                Err(e) => {
                    &&& (header.size_of_partition < 128 || header.partition_entry_lba * lba_size
                        + header.number_of_partitions * header.size_of_partition
                        > disk@.len())
                    &&& e == DecodeError::TruncatedInput
                },
            },
    {
        if header.size_of_partition < 128 {
            return Err(DecodeError::TruncatedInput);
        }
        let dlen: usize = disk.len();
        proof {
            assert((header.number_of_partitions as int) * (header.size_of_partition as int)
                < 0x1_0000_0000_0000_0000) by (nonlinear_arith)
                requires
                    header.number_of_partitions as int <= 0xFFFF_FFFF,
                    header.size_of_partition as int <= 0xFFFF_FFFF,
            ;
        }
        let total: u64 = (header.number_of_partitions as u64) * (header.size_of_partition as u64);
        let off: u64 = match header.partition_entry_lba.checked_mul(lba_size as u64) {
            Some(v) => v,
            None => {
                proof {
                    lemma_mul_off_bound(
                        header.partition_entry_lba as int,
                        lba_size as int,
                        dlen as int,
                    );
                }
                return Err(DecodeError::TruncatedInput);
            },
        };
        let end: u64 = match off.checked_add(total) {
            Some(v) => v,
            None => {
                return Err(DecodeError::TruncatedInput);
            },
        };
        if (dlen as u64) < end {
            return Err(DecodeError::TruncatedInput);
        }
        let table = slice_subrange(disk, off as usize, end as usize);
        match GPTPartitionEntryArray::from_slice(table, header) {
            Ok(a) => Ok(a),
            Err(_) => {
                proof {
                    assert(false);
                }
                Err(DecodeError::TruncatedInput)
            },
        }
    }
}

/// When a product of two non-negative numbers overflows `u64`, it certainly
/// exceeds a length that fits one.
proof fn lemma_mul_off_bound(a: int, b: int, len: int)
    requires
        a >= 0,
        b >= 0,
        a * b > u64::MAX,
        len <= u64::MAX,
    ensures
        a * b > len,
{
}

} // verus!
