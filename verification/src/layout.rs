//! Options for laying out block devices, built up in builder style.

use vstd::prelude::*;

verus! {

/// Which devices a layout run may touch.
#[derive(Debug, Clone, Copy, PartialEq, Eq, Structural)]
pub struct LayoutOptions {
    pub use_fibre_channel: bool,
    pub loop_only: bool,
}

impl LayoutOptions {
    /// Options with every switch off.
    pub fn new() -> (r: LayoutOptions)
        ensures
            r.use_fibre_channel == false,
            r.loop_only == false,
    {
        LayoutOptions { use_fibre_channel: false, loop_only: false }
    }

    /// Switches fibre-channel devices on; the other switches stay.
    pub fn use_fibre_channel(&mut self) -> (r: &mut LayoutOptions)
        ensures
            *r == (LayoutOptions { use_fibre_channel: true, ..*old(self) }),
            *final(self) == *final(r),
    {
        self.use_fibre_channel = true;
        self
    }

    /// Restricts the run to loop devices; the other switches stay.
    pub fn loop_only(&mut self) -> (r: &mut LayoutOptions)
        ensures
            *r == (LayoutOptions { loop_only: true, ..*old(self) }),
            *final(self) == *final(r),
    {
        self.loop_only = true;
        self
    }

    /// Freezes the options into a layout.
    pub fn layout(&self) -> (r: Layout)
        ensures
            r.options == *self,
    {
        Layout {
            options: LayoutOptions {
                loop_only: self.loop_only,
                use_fibre_channel: self.use_fibre_channel,
            },
        }
    }
}

/// A layout run, carrying the options it was built from.
#[derive(Debug, Clone)]
pub struct Layout {
    pub options: LayoutOptions,
}

} // verus!
