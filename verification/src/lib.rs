//! Decoders for on-disk partition-table metadata: the legacy Master Boot
//! Record and the GUID Partition Table. Each decoder is a pure function from
//! a byte window to a typed record, with its byte layout stated in the
//! contract. Device discovery, geometry probing and JSON presentation live
//! outside the library and hand it plain byte buffers.

use vstd::prelude::*;

pub mod codec;
pub mod error;
pub mod fs;
pub mod geometry;
pub mod gpt;
pub mod guid;
pub mod layout;
pub mod mbr;
pub mod partition;
pub mod size;
pub mod text;
pub mod udev;

verus! {

} // verus!
