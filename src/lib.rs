//! Inventory of block storage devices and their partitions, built from a
//! snapshot of the text attributes that the kernel exposes for each device.
pub mod attribute;
pub mod inventory;
pub mod laws;

pub use attribute::{attribute_text, parse_count, read_count, read_flag, trim_terminator};
pub use inventory::{
    collect_devices, read_device, read_partition, DeviceDir, Partition, PartitionDir,
    StorageDevice,
};
