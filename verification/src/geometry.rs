//! Device geometry, as an external prober reports it.
//!
//! The library never queries a device itself: whoever owns the device reads
//! the logical block size and block count and hands them in as plain
//! numbers. The total byte size is the product of the two.

use vstd::prelude::*;

verus! {

/// The geometry of one block device.
#[derive(Clone, Copy, Debug, PartialEq, Eq, Structural)]
pub struct BlockDeviceGeometry {
    pub logical_block_size: u64,
    pub logical_blocks: u64,
    pub size: u64,
}

impl BlockDeviceGeometry {
    /// The byte size is the product of block size and block count.
    pub open spec fn wf(self) -> bool {
        self.size == self.logical_block_size * self.logical_blocks
    }

    /// Builds the geometry from the two probed numbers. The product must
    /// fit the byte-size field.
    pub fn new(logical_block_size: u64, logical_blocks: u64) -> (r: BlockDeviceGeometry)
        requires
            logical_block_size * logical_blocks <= u64::MAX,
        ensures
            r.logical_block_size == logical_block_size,
            r.logical_blocks == logical_blocks,
            r.wf(),
    {
        BlockDeviceGeometry {
            logical_block_size,
            logical_blocks,
            size: logical_block_size * logical_blocks,
        }
    }
}

} // verus!
