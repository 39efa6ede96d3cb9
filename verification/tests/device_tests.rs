use press::geometry::BlockDeviceGeometry;
use press::udev::UdevBlockDeviceInfo;
use std::collections::HashMap;

#[test]
fn geometry_size_is_the_product() {
    let g = BlockDeviceGeometry::new(512, 1000);
    assert_eq!(g.logical_block_size, 512);
    assert_eq!(g.logical_blocks, 1000);
    assert_eq!(g.size, 512_000);
}

#[test]
fn device_info_hands_back_what_went_in() {
    let mut props = HashMap::new();
    props.insert("DEVTYPE".to_string(), "disk".to_string());
    props.insert("DEVNAME".to_string(), "/dev/sda".to_string());
    let info = UdevBlockDeviceInfo::new("/dev/sda".to_string(), props);
    assert_eq!(info.name(), "/dev/sda");
    assert_eq!(info.properties().get("DEVTYPE").map(|s| s.as_str()), Some("disk"));
    assert_eq!(info.properties().len(), 2);
}
