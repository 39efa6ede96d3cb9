//! The legacy Master Boot Record, decoded from the first 512 bytes of a
//! disk.
//!
//! An MBR carries four 16-byte partition records at the fixed offsets 446,
//! 462, 478 and 494, a 32-bit disk signature at offset 424 and the 2-byte
//! boot signature `0x55 0xAA` at offset 510. A protective MBR — the first
//! record typed `0xEE` — signals that a GUID partition table owns the disk.

use crate::codec::{
    le_bytes_of, le_val, lemma_le_val_2, read_u16_at, read_u24_at, read_u32_at, write_le,
};
use crate::error::DecodeError;
use vstd::prelude::*;
use vstd::slice::slice_subrange;

verus! {

/// The boot-signature word at offset 510, read little-endian.
pub const MBR_SIGNATURE: u16 = 0xaa55;

/// The partition type a protective MBR gives its single record.
pub const PROTECTIVE_MBR_OSTYPE: u8 = 0xee;

/// True exactly when the 512-byte sector ends in the boot signature.
pub fn has_mbr(buffer: &[u8]) -> (r: bool)
    requires
        buffer@.len() >= 512,
    ensures
        r == (le_val(buffer@.subrange(510, 512)) == MBR_SIGNATURE),
{
    read_u16_at(buffer, 510) == MBR_SIGNATURE
}

/// True exactly when the type byte of the first partition record — byte 450
/// of the sector — is the protective marker.
pub fn is_mbr_protective(buffer: &[u8]) -> (r: bool)
    requires
        buffer@.len() >= 451,
    ensures
        r == (buffer@[450] == PROTECTIVE_MBR_OSTYPE),
{
    buffer[450] == PROTECTIVE_MBR_OSTYPE
}

/// One of the four fixed partition records of an MBR.
#[derive(Clone, Copy, Debug, PartialEq, Eq, Structural)]
pub struct MBRPartition {
    pub boot_indicator: u8,
    pub starting_chs: u32,
    pub os_type: u8,
    pub ending_chs: u32,
    pub starting_lba: u32,
    pub size_in_lba: u32,
}

/// `p` is the decoding of the 16-byte record `s`.
pub open spec fn record_matches(p: MBRPartition, s: Seq<u8>) -> bool {
    &&& s.len() == 16
    &&& p.boot_indicator == s[0]
    &&& p.starting_chs as nat == le_val(s.subrange(1, 4))
    &&& p.os_type == s[4]
    &&& p.ending_chs as nat == le_val(s.subrange(5, 8))
    &&& p.starting_lba as nat == le_val(s.subrange(8, 12))
    &&& p.size_in_lba as nat == le_val(s.subrange(12, 16))
}

/// The 16-byte wire form of a record.
pub open spec fn record_le_bytes(p: MBRPartition) -> Seq<u8> {
    seq![p.boot_indicator] + le_bytes_of(p.starting_chs as nat, 3) + seq![p.os_type]
        + le_bytes_of(p.ending_chs as nat, 3) + le_bytes_of(p.starting_lba as nat, 4)
        + le_bytes_of(p.size_in_lba as nat, 4)
}

/// Re-encoding a decoded partition record reproduces its 16 wire bytes.
pub proof fn lemma_record_round_trip(p: MBRPartition, s: Seq<u8>)
    requires
        record_matches(p, s),
    ensures
        record_le_bytes(p) == s,
{
    crate::codec::lemma_le_roundtrip(s.subrange(1, 4));
    crate::codec::lemma_le_roundtrip(s.subrange(5, 8));
    crate::codec::lemma_le_roundtrip(s.subrange(8, 12));
    crate::codec::lemma_le_roundtrip(s.subrange(12, 16));
    assert(record_le_bytes(p) =~= s);
}

impl MBRPartition {
    /// Decodes one 16-byte partition record.
    pub fn new(data: &[u8]) -> (p: MBRPartition)
        requires
            data@.len() == 16,
        ensures
            record_matches(p, data@),
    {
        MBRPartition {
            boot_indicator: data[0],
            starting_chs: read_u24_at(data, 1),
            os_type: data[4],
            ending_chs: read_u24_at(data, 5),
            starting_lba: read_u32_at(data, 8),
            size_in_lba: read_u32_at(data, 12),
        }
    }

    /// Re-encodes the record into its 16-byte wire form.
    pub fn to_le_bytes(&self) -> (r: Vec<u8>)
        ensures
            r@ == record_le_bytes(*self),
    {
        let mut out: Vec<u8> = Vec::new();
        out.push(self.boot_indicator);
        write_le(&mut out, self.starting_chs as u64, 3);
        out.push(self.os_type);
        write_le(&mut out, self.ending_chs as u64, 3);
        write_le(&mut out, self.starting_lba as u64, 4);
        write_le(&mut out, self.size_in_lba as u64, 4);
        proof {
            assert(out@ =~= record_le_bytes(*self));
        }
        out
    }
}

/// A decoded Master Boot Record.
#[derive(Clone, Copy, Debug, PartialEq, Eq)]
pub struct MBR {
    pub disk_signature: u32,
    pub unknown: u16,
    pub partition_records: [MBRPartition; 4],
    pub sig: u16,
}

/// `m` is the decoding of the 512-byte sector `s`.
pub open spec fn mbr_matches(m: MBR, s: Seq<u8>) -> bool {
    &&& s.len() >= 512
    &&& m.disk_signature as nat == le_val(s.subrange(424, 428))
    &&& m.unknown as nat == le_val(s.subrange(428, 430))
    &&& forall|i: int|
        0 <= i < 4 ==> record_matches(
            m.partition_records@[i],
            s.subrange(446 + 16 * i, 462 + 16 * i),
        )
    &&& m.sig as nat == le_val(s.subrange(510, 512))
}

impl MBR {
    /// Decodes the MBR held in the first 512 bytes of `data`; a shorter
    /// buffer is rejected as truncated.
    pub fn new(data: &[u8]) -> (r: Result<MBR, DecodeError>)
        ensures
            match r {
                Ok(m) => data@.len() >= 512 && mbr_matches(m, data@),
                Err(e) => data@.len() < 512 && e == DecodeError::TruncatedInput,
            },
    {
        if data.len() < 512 {
            return Err(DecodeError::TruncatedInput);
        }
        let r0 = MBRPartition::new(slice_subrange(data, 446, 462));
        let r1 = MBRPartition::new(slice_subrange(data, 462, 478));
        let r2 = MBRPartition::new(slice_subrange(data, 478, 494));
        let r3 = MBRPartition::new(slice_subrange(data, 494, 510));
        let m = MBR {
            disk_signature: read_u32_at(data, 424),
            unknown: read_u16_at(data, 428),
            partition_records: [r0, r1, r2, r3],
            sig: read_u16_at(data, 510),
        };
        proof {
            assert forall|i: int| 0 <= i < 4 implies record_matches(
                m.partition_records@[i],
                data@.subrange(446 + 16 * i, 462 + 16 * i),
            ) by {
                if i == 0 {
                    assert(m.partition_records@[0] == r0);
                } else if i == 1 {
                    assert(m.partition_records@[1] == r1);
                } else if i == 2 {
                    assert(m.partition_records@[2] == r2);
                } else {
                    assert(m.partition_records@[3] == r3);
                }
            }
        }
        Ok(m)
    }

    /// True exactly when the boot-signature field equals `0xAA55`, the
    /// little-endian reading of the trailing bytes `0x55 0xAA`.
    pub fn is_structurally_valid(&self) -> (r: bool)
        ensures
            r == (self.sig == MBR_SIGNATURE),
    {
        self.sig == MBR_SIGNATURE
    }

    /// True exactly when the first partition record carries the protective
    /// type byte, whatever the other records hold.
    pub fn is_protective(&self) -> (r: bool)
        ensures
            r == (self.partition_records@[0].os_type == PROTECTIVE_MBR_OSTYPE),
    {
        self.partition_records[0].os_type == PROTECTIVE_MBR_OSTYPE
    }
}

/// A decoded MBR is structurally valid exactly when bytes 510 and 511 of
/// its sector are `0x55` and `0xAA`.
pub proof fn lemma_structurally_valid_iff(m: MBR, s: Seq<u8>)
    requires
        mbr_matches(m, s),
    ensures
        (m.sig == MBR_SIGNATURE) <==> (s[510] == 0x55 && s[511] == 0xaa),
{
    let sub = s.subrange(510, 512);
    lemma_le_val_2(sub);
    assert(sub[0] == s[510] && sub[1] == s[511]);
}

/// A decoded MBR is protective exactly when byte 450 of its sector — the
/// type byte of the first record — is `0xEE`.
pub proof fn lemma_protective_iff(m: MBR, s: Seq<u8>)
    requires
        mbr_matches(m, s),
    ensures
        (m.partition_records@[0].os_type == PROTECTIVE_MBR_OSTYPE) <==> (s[450] == 0xee),
{
    assert(record_matches(m.partition_records@[0], s.subrange(446, 462)));
    assert(s.subrange(446, 462)[4] == s[450]);
}

/// Re-encoding the four decoded partition records reproduces the 64 record
/// bytes of the sector exactly.
pub proof fn lemma_mbr_records_round_trip(m: MBR, s: Seq<u8>)
    requires
        mbr_matches(m, s),
    ensures
        record_le_bytes(m.partition_records@[0]) + record_le_bytes(m.partition_records@[1])
            + record_le_bytes(m.partition_records@[2]) + record_le_bytes(m.partition_records@[3])
            == s.subrange(446, 510),
{
    lemma_record_round_trip(m.partition_records@[0], s.subrange(446, 462));
    lemma_record_round_trip(m.partition_records@[1], s.subrange(462, 478));
    lemma_record_round_trip(m.partition_records@[2], s.subrange(478, 494));
    lemma_record_round_trip(m.partition_records@[3], s.subrange(494, 510));
    assert(record_le_bytes(m.partition_records@[0]) + record_le_bytes(m.partition_records@[1])
        + record_le_bytes(m.partition_records@[2]) + record_le_bytes(m.partition_records@[3])
        =~= s.subrange(446, 510));
}

} // verus!
