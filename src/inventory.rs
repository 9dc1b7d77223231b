//! Devices and partitions: the snapshot of a device's metadata directory that
//! the inventory is built from, the records it produces, and the rules that
//! turn one into the other.
use vstd::prelude::*;
use crate::attribute::{count_of, flag_of, opt_view, read_count, read_flag};

verus! {

/// What one partition's metadata directory holds: its name and the raw
/// contents of its `size` and `ro` attributes (`None` where unreadable).
#[derive(Debug, Clone)]
pub struct PartitionDir {
    pub name: String,
    pub size: Option<String>,
    pub ro: Option<String>,
}

/// What one device's metadata directory holds: its name, the raw contents of
/// its `size`, `queue/hw_sector_size` and `ro` attributes (`None` where
/// unreadable), and its subdirectory entries in listing order.
#[derive(Debug, Clone)]
pub struct DeviceDir {
    pub name: String,
    pub size: Option<String>,
    pub hw_sector_size: Option<String>,
    pub ro: Option<String>,
    pub entries: Vec<PartitionDir>,
}

/// A partition of a device: its capacity in bytes, counted in the sector size
/// of the device that holds it.
#[derive(Debug, Clone, PartialEq, Eq)]
pub struct Partition {
    pub name: String,
    pub capacity: usize,
    pub read_only: bool,
}

/// A block storage device with its capacity in bytes and its partitions, in
/// the order in which its directory listed them.
#[derive(Debug, Clone, PartialEq, Eq)]
pub struct StorageDevice {
    pub name: String,
    pub capacity: usize,
    pub partitions: Vec<Partition>,
    pub read_only: bool,
}

pub ghost struct PartitionDirView {
    pub name: Seq<char>,
    pub size: Option<Seq<char>>,
    pub ro: Option<Seq<char>>,
}

pub ghost struct DeviceDirView {
    pub name: Seq<char>,
    pub size: Option<Seq<char>>,
    pub hw_sector_size: Option<Seq<char>>,
    pub ro: Option<Seq<char>>,
    pub entries: Seq<PartitionDirView>,
}

pub ghost struct PartitionView {
    pub name: Seq<char>,
    pub capacity: nat,
    pub read_only: bool,
}

pub ghost struct DeviceView {
    pub name: Seq<char>,
    pub capacity: nat,
    pub partitions: Seq<PartitionView>,
    pub read_only: bool,
}

impl View for PartitionDir {
    type V = PartitionDirView;

    open spec fn view(&self) -> PartitionDirView {
        PartitionDirView { name: self.name@, size: opt_view(self.size), ro: opt_view(self.ro) }
    }
}

pub open spec fn partition_dir_views(es: Seq<PartitionDir>) -> Seq<PartitionDirView> {
    es.map_values(|e: PartitionDir| e@)
}

impl View for DeviceDir {
    type V = DeviceDirView;

    open spec fn view(&self) -> DeviceDirView {
        DeviceDirView {
            name: self.name@,
            size: opt_view(self.size),
            hw_sector_size: opt_view(self.hw_sector_size),
            ro: opt_view(self.ro),
            entries: partition_dir_views(self.entries@),
        }
    }
}

pub open spec fn device_dir_views(ds: Seq<DeviceDir>) -> Seq<DeviceDirView> {
    ds.map_values(|d: DeviceDir| d@)
}

impl View for Partition {
    type V = PartitionView;

    open spec fn view(&self) -> PartitionView {
        PartitionView { name: self.name@, capacity: self.capacity as nat, read_only: self.read_only }
    }
}

pub open spec fn partition_views(ps: Seq<Partition>) -> Seq<PartitionView> {
    ps.map_values(|p: Partition| p@)
}

impl View for StorageDevice {
    type V = DeviceView;

    open spec fn view(&self) -> DeviceView {
        DeviceView {
            name: self.name@,
            capacity: self.capacity as nat,
            partitions: partition_views(self.partitions@),
            read_only: self.read_only,
        }
    }
}

pub open spec fn device_views(ds: Seq<StorageDevice>) -> Seq<DeviceView> {
    ds.map_values(|d: StorageDevice| d@)
}

/// The partition that a metadata directory describes under a device with
/// sector size `sector_size`: none where its sector count is missing or
/// malformed, or where its capacity would not fit in a `usize`.
pub open spec fn partition_of(e: PartitionDirView, sector_size: nat) -> Option<PartitionView> {
    match count_of(e.size) {
        Some(sectors) => if sectors * sector_size <= usize::MAX {
            Some(
                PartitionView {
                    name: e.name,
                    capacity: sectors * sector_size,
                    read_only: flag_of(e.ro),
                },
            )
        } else {
            None
        },
        None => None,
    }
}

/// The partitions that resolve among the entries `es`, in their order.
pub open spec fn partitions_of(es: Seq<PartitionDirView>, sector_size: nat) -> Seq<PartitionView>
    decreases es.len(),
{
    if es.len() == 0 {
        Seq::empty()
    } else {
        let rest = partitions_of(es.drop_last(), sector_size);
        match partition_of(es.last(), sector_size) {
            Some(p) => rest.push(p),
            None => rest,
        }
    }
}

/// Whether the device-level attributes of `d` resolve: a well-formed sector
/// count and sector size whose product fits in a `usize`.
pub open spec fn device_resolves(d: DeviceDirView) -> bool {
    match (count_of(d.size), count_of(d.hw_sector_size)) {
        (Some(sectors), Some(sector_size)) => sectors * sector_size <= usize::MAX,
        _ => false,
    }
}

/// The device that a metadata directory describes, if it resolves.
pub open spec fn device_of(d: DeviceDirView) -> Option<DeviceView> {
    if device_resolves(d) {
        let sectors = count_of(d.size)->Some_0;
        let sector_size = count_of(d.hw_sector_size)->Some_0;
        Some(
            DeviceView {
                name: d.name,
                capacity: sectors * sector_size,
                partitions: partitions_of(d.entries, sector_size),
                read_only: flag_of(d.ro),
            },
        )
    } else {
        None
    }
}

/// The devices that resolve among the directories `ds`, in their order.
pub open spec fn inventory_of(ds: Seq<DeviceDirView>) -> Seq<DeviceView>
    decreases ds.len(),
{
    if ds.len() == 0 {
        Seq::empty()
    } else {
        let rest = inventory_of(ds.drop_last());
        match device_of(ds.last()) {
            Some(v) => rest.push(v),
            None => rest,
        }
    }
}

/// Resolves one partition directory under a device whose sector size is
/// `sector_size`.
pub fn read_partition(dir: &PartitionDir, sector_size: usize) -> (r: Option<Partition>)
    ensures
        match r {
            Some(p) => partition_of(dir@, sector_size as nat) == Some(p@),
            None => partition_of(dir@, sector_size as nat) is None,
        },
{
    let sectors = match read_count(&dir.size) {
        Some(n) => n,
        None => return None,
    };
    let capacity = match sectors.checked_mul(sector_size) {
        Some(c) => c,
        None => return None,
    };
    let read_only = read_flag(&dir.ro);
    Some(Partition { name: dir.name.clone(), capacity, read_only })
}

/// Resolves one device directory, with those of its entries that resolve as
/// partitions, in listing order.
pub fn read_device(dir: &DeviceDir) -> (r: Option<StorageDevice>)
    ensures
        match r {
            Some(v) => device_of(dir@) == Some(v@),
            None => device_of(dir@) is None,
        },
{
    let sectors = match read_count(&dir.size) {
        Some(n) => n,
        None => return None,
    };
    let sector_size = match read_count(&dir.hw_sector_size) {
        Some(n) => n,
        None => return None,
    };
    let capacity = match sectors.checked_mul(sector_size) {
        Some(c) => c,
        None => return None,
    };
    let read_only = read_flag(&dir.ro);
    let ghost es = dir@.entries;
    let mut partitions: Vec<Partition> = Vec::new();
    let mut i: usize = 0;
    while i < dir.entries.len()
        invariant
            i <= dir.entries@.len(),
            es == partition_dir_views(dir.entries@),
            partition_views(partitions@) == partitions_of(es.subrange(0, i as int), sector_size as nat),
        decreases dir.entries@.len() - i,
    {
        let ghost before = partitions@;
        assert(es.subrange(0, i + 1).drop_last() =~= es.subrange(0, i as int));
        if let Some(p) = read_partition(&dir.entries[i], sector_size) {
            partitions.push(p);
            assert(partition_views(partitions@) =~= partition_views(before).push(p@));
        }
        i = i + 1;
    }
    assert(es.subrange(0, i as int) =~= es);
    Some(StorageDevice { name: dir.name.clone(), capacity, partitions, read_only })
}

/// Resolves every device directory of a catalog listing, keeping those that
/// resolve, in listing order.
pub fn collect_devices(dirs: &Vec<DeviceDir>) -> (r: Vec<StorageDevice>)
    ensures
        device_views(r@) == inventory_of(device_dir_views(dirs@)),
{
    let ghost ds = device_dir_views(dirs@);
    let mut devices: Vec<StorageDevice> = Vec::new();
    let mut i: usize = 0;
    while i < dirs.len()
        invariant
            i <= dirs@.len(),
            ds == device_dir_views(dirs@),
            device_views(devices@) == inventory_of(ds.subrange(0, i as int)),
        decreases dirs@.len() - i,
    {
        let ghost before = devices@;
        assert(ds.subrange(0, i + 1).drop_last() =~= ds.subrange(0, i as int));
        if let Some(v) = read_device(&dirs[i]) {
            devices.push(v);
            assert(device_views(devices@) =~= device_views(before).push(v@));
        }
        i = i + 1;
    }
    assert(ds.subrange(0, i as int) =~= ds);
    devices
}

} // verus!
