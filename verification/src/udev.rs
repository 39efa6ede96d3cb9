//! What a device-manager query reports about one block device.
//!
//! The query itself — walking the device manager — is outside work; whoever
//! performs it hands the library the device node path and the property map
//! as plain values.

use std::collections::HashMap;
use vstd::prelude::*;

verus! {

/// One enumerated block device: its device node path and its properties.
#[derive(Debug)]
pub struct UdevBlockDeviceInfo {
    pub name: String,
    pub udev_properties: HashMap<String, String>,
}

impl UdevBlockDeviceInfo {
    /// Packs up what a device-manager query reported.
    pub fn new(name: String, udev_properties: HashMap<String, String>) -> (r:
        UdevBlockDeviceInfo)
        ensures
            r.name == name,
            r.udev_properties == udev_properties,
    {
        UdevBlockDeviceInfo { name, udev_properties }
    }

    /// The device node path.
    pub fn name(&self) -> (r: &str)
        ensures
            r@ == self.name@,
    {
        self.name.as_str()
    }

    /// The reported properties.
    pub fn properties(&self) -> (r: &HashMap<String, String>)
        ensures
            *r == self.udev_properties,
    {
        &self.udev_properties
    }
}

} // verus!
