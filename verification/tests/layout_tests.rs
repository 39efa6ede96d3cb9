use press::layout::LayoutOptions;
use press::partition::{PartitionTable, TableFormat};
use press::size::Size;

#[test]
fn test_builder() {
    let layout = LayoutOptions::new()
        .use_fibre_channel()
        .loop_only()
        .layout();
    assert_eq!(layout.options.loop_only, true);
    assert_eq!(layout.options.use_fibre_channel, true);

    let mut layout_options = LayoutOptions::new();

    layout_options.use_fibre_channel();

    let layout = layout_options.layout();
    assert_eq!(layout.options.loop_only, false);
    assert_eq!(layout.options.use_fibre_channel, true);
}

#[test]
fn test_partial() {
    let table = PartitionTable {
        partition_start: "1MiB".parse().unwrap(),
        ..Default::default()
    };

    assert!(table.table_type == TableFormat::GPT);
    assert!(table.partition_start.bytes() ==
            "1MiB".parse::<Size>().unwrap().bytes());
    assert!(table.target.is_none());
}

#[test]
fn partition_table_new_takes_format() {
    let table = PartitionTable::new(TableFormat::MBR);
    assert!(table.table_type == TableFormat::MBR);
    assert!(table.target.is_none());
    assert_eq!(table.partition_start.bytes(), 1 << 20);
    assert_eq!(table.alignment.bytes(), 1 << 20);
    assert!(table.partitions.is_empty());
}
