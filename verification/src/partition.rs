//! The logical plan of a partition table, before it is written to a device.

use crate::fs::FileSystem;
use crate::size::Size;
use vstd::prelude::*;

verus! {

/// The supported partition-table formats.
#[derive(Debug, Clone, Copy, PartialEq, Eq, Structural)]
pub enum TableFormat {
    GPT,
    MBR,
}

impl Default for TableFormat {
    /// The format of choice is GPT.
    fn default() -> (r: TableFormat)
        ensures
            r == TableFormat::GPT,
    {
        TableFormat::GPT
    }
}

/// Where a planned partition table starts and how its partitions align:
/// one mebibyte for both, unless overridden.
pub fn default_pt_size() -> (r: Size)
    ensures
        r.byte_count == 0x10_0000,
{
    Size::new(0x10_0000)
}

/// Logical representation of a partition table.
#[derive(Debug)]
pub struct PartitionTable {
    /// Which partition table.
    pub table_type: TableFormat,
    /// A target block device path, filled in once a physical device is
    /// selected.
    pub target: Option<String>,
    /// The partition table offset.
    pub partition_start: Size,
    /// The partition alignment value.
    pub alignment: Size,
    /// The planned partitions.
    pub partitions: Vec<Partition>,
}

impl PartitionTable {
    /// A fresh plan for the given format, everything else at its default.
    pub fn new(format: TableFormat) -> (r: PartitionTable)
        ensures
            r.table_type == format,
            r.target is None,
            r.partition_start.byte_count == 0x10_0000,
            r.alignment.byte_count == 0x10_0000,
            r.partitions@.len() == 0,
    {
        PartitionTable {
            table_type: format,
            target: None,
            partition_start: default_pt_size(),
            alignment: default_pt_size(),
            partitions: Vec::new(),
        }
    }
}

impl Default for PartitionTable {
    /// A fresh GPT plan.
    fn default() -> (r: PartitionTable)
        ensures
            r.table_type == TableFormat::GPT,
            r.target is None,
            r.partition_start.byte_count == 0x10_0000,
            r.alignment.byte_count == 0x10_0000,
            r.partitions@.len() == 0,
    {
        PartitionTable::new(TableFormat::GPT)
    }
}

/// One planned partition.
#[derive(Debug)]
pub struct Partition {
    /// The name of the partition.
    pub name: String,
    /// The file system to create on it, if any.
    pub file_system: Option<FileSystem>,
    /// Its size in bytes.
    pub size: u64,
}

} // verus!
