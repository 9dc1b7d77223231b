use block_inventory::{
    attribute_text, collect_devices, parse_count, read_count, read_device, read_flag,
    read_partition, trim_terminator, DeviceDir, PartitionDir, StorageDevice,
};

fn text(s: &str) -> Option<String> {
    Some(String::from(s))
}

fn part(name: &str, size: Option<&str>, ro: Option<&str>) -> PartitionDir {
    PartitionDir { name: String::from(name), size: size.map(String::from), ro: ro.map(String::from) }
}

fn dev(
    name: &str,
    size: Option<&str>,
    sector_size: Option<&str>,
    ro: Option<&str>,
    entries: Vec<PartitionDir>,
) -> DeviceDir {
    DeviceDir {
        name: String::from(name),
        size: size.map(String::from),
        hw_sector_size: sector_size.map(String::from),
        ro: ro.map(String::from),
        entries,
    }
}

/// The entries that a device directory lists besides its partitions.
fn non_partitions() -> Vec<PartitionDir> {
    vec![part("queue", None, None), part("size", None, None), part("ro", None, None)]
}

fn names(devices: &[StorageDevice]) -> Vec<String> {
    devices.iter().map(|d| d.name.clone()).collect()
}

#[test]
fn device_with_partitions_lists_each_once() {
    let mut entries = non_partitions();
    entries.push(part("sda1", Some("100\n"), Some("0\n")));
    entries.push(part("sda2", Some("200\n"), Some("0\n")));
    entries.push(part("sda3", Some("300\n"), Some("1\n")));
    let dirs = vec![
        dev("sda", Some("1000\n"), Some("512\n"), Some("0\n"), entries),
        dev("loop0", Some("0\n"), Some("512\n"), Some("0\n"), vec![]),
    ];
    let devices = collect_devices(&dirs);
    assert_eq!(names(&devices), vec!["sda", "loop0"]);
    let sda = &devices[0];
    assert_eq!(sda.partitions.len(), 3);
    let parts: Vec<&str> = sda.partitions.iter().map(|p| p.name.as_str()).collect();
    assert_eq!(parts, vec!["sda1", "sda2", "sda3"]);
    assert!(devices[1].partitions.is_empty());
    assert_eq!(devices[1].capacity, 0);
}

#[test]
fn device_missing_size_is_absent() {
    let dirs = vec![
        dev("sda", None, Some("512\n"), Some("0\n"), vec![]),
        dev("sdb", Some("1000\n"), None, Some("0\n"), vec![]),
        dev("sdc", Some("ten\n"), Some("512\n"), Some("0\n"), vec![]),
        dev("sdd", Some("8\n"), Some("4096\n"), Some("0\n"), vec![]),
    ];
    let devices = collect_devices(&dirs);
    assert_eq!(names(&devices), vec!["sdd"]);
    assert_eq!(devices[0].capacity, 32768);
    assert!(read_device(&dirs[0]).is_none());
    assert!(read_device(&dirs[1]).is_none());
}

#[test]
fn partition_missing_size_is_absent() {
    let entries = vec![
        part("sda1", None, Some("0\n")),
        part("sda2", Some("200\n"), Some("0\n")),
        part("sda3", Some("\n"), Some("0\n")),
    ];
    let d = dev("sda", Some("1000\n"), Some("512\n"), Some("0\n"), entries);
    let device = read_device(&d).unwrap();
    assert_eq!(device.partitions.len(), 1);
    assert_eq!(device.partitions[0].name, "sda2");
}

#[test]
fn capacity_inherits_device_sector_size() {
    let d = dev(
        "sda",
        Some("1000\n"),
        Some("512\n"),
        Some("0\n"),
        vec![part("sda1", Some("200\n"), Some("0\n"))],
    );
    let device = read_device(&d).unwrap();
    assert_eq!(device.capacity, 512000);
    assert_eq!(device.partitions[0].capacity, 102400);
    let p = read_partition(&part("sda1", Some("200\n"), Some("0\n")), 4096).unwrap();
    assert_eq!(p.capacity, 819200);
}

#[test]
fn capacity_that_overflows_is_skipped() {
    let max = format!("{}\n", usize::MAX);
    let d = dev("big", Some(&max), Some("2\n"), Some("0\n"), vec![]);
    assert!(read_device(&d).is_none());
    let d = dev(
        "sda",
        Some("1\n"),
        Some("512\n"),
        Some("0\n"),
        vec![part("sda1", Some(&max), Some("0\n")), part("sda2", Some("1\n"), None)],
    );
    let device = read_device(&d).unwrap();
    assert_eq!(device.partitions.len(), 1);
    assert_eq!(device.partitions[0].name, "sda2");
}

#[test]
fn read_only_only_for_one() {
    assert!(read_flag(&text("1\n")));
    assert!(read_flag(&text("1")));
    assert!(!read_flag(&text("0\n")));
    assert!(!read_flag(&text("11\n")));
    assert!(!read_flag(&text(" 1\n")));
    assert!(!read_flag(&text("1\n\n")));
    assert!(!read_flag(&text("")));
    assert!(!read_flag(&None));
    let d = dev(
        "sr0",
        Some("10\n"),
        Some("2048\n"),
        Some("1\n"),
        vec![part("sr0p1", Some("1\n"), Some("1\n")), part("sr0p2", Some("1\n"), Some("yes\n"))],
    );
    let device = read_device(&d).unwrap();
    assert!(device.read_only);
    assert!(device.partitions[0].read_only);
    assert!(!device.partitions[1].read_only);
}

#[test]
fn partition_without_ro_is_writable() {
    let p = read_partition(&part("sda1", Some("5\n"), None), 512).unwrap();
    assert!(!p.read_only);
    assert_eq!(p.capacity, 2560);
}

#[test]
fn repeated_calls_agree() {
    let make = || {
        vec![
            dev("sda", Some("1000\n"), Some("512\n"), Some("0\n"), vec![part("sda1", Some("200\n"), Some("0\n"))]),
            dev("sdb", None, Some("512\n"), Some("0\n"), vec![]),
            dev("nvme0n1", Some("64\n"), Some("4096\n"), Some("1\n"), vec![]),
        ]
    };
    let first = collect_devices(&make());
    let second = collect_devices(&make());
    assert_eq!(first, second);
    let mut reordered = make();
    reordered.reverse();
    let third = collect_devices(&reordered);
    assert_eq!(third.len(), first.len());
    for d in &first {
        assert!(third.contains(d));
    }
}

#[test]
fn terminator_is_trimmed() {
    assert_eq!(read_count(&text("512\n")), read_count(&text("512")));
    assert_eq!(read_count(&text("512\n")), Some(512));
    assert_eq!(read_count(&text("")), None);
    assert_eq!(read_count(&text("\n")), None);
    assert_eq!(read_count(&None), None);
    assert_eq!(trim_terminator(""), None);
    assert_eq!(trim_terminator("\n"), Some(""));
    assert_eq!(trim_terminator("abc\n"), Some("abc"));
    assert_eq!(trim_terminator("abc"), Some("abc"));
    assert_eq!(trim_terminator("abc\n\n"), Some("abc\n"));
    assert_eq!(attribute_text(&text("sda\n")), Some("sda"));
    assert_eq!(attribute_text(&text("")), None);
    assert_eq!(attribute_text(&None), None);
}

#[test]
fn counts_parse_as_decimal() {
    assert_eq!(parse_count("0"), Some(0));
    assert_eq!(parse_count("007"), Some(7));
    assert_eq!(parse_count("+42"), Some(42));
    assert_eq!(parse_count(""), None);
    assert_eq!(parse_count("+"), None);
    assert_eq!(parse_count("-1"), None);
    assert_eq!(parse_count("12a"), None);
    assert_eq!(parse_count(" 12"), None);
    assert_eq!(parse_count("512\n"), None);
    let max = format!("{}", usize::MAX);
    assert_eq!(parse_count(&max), Some(usize::MAX));
    let over = format!("{}0", usize::MAX);
    assert_eq!(parse_count(&over), None);
}

#[test]
fn empty_catalog_gives_no_devices() {
    assert!(collect_devices(&vec![]).is_empty());
}
