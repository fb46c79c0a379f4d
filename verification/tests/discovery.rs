use std::collections::HashMap;

use luks_enroll::devices::{
    basename, blkid_tag, canonicalize_lossy, crypttab_devices, detect_luks_devices,
    detect_removable_devices, find_luks_block_devices, format_size, get_device_info, is_partition,
    is_removable, is_virtual_block_name, join_path, mapping_is_active, mapping_is_mounted,
    read_sysfs, sorted_dir_names, sysfs_size_bytes,
};
use luks_enroll::facts::{Facts, Found, Question, Tags};

/// What stands on a machine.
#[derive(Default)]
struct Tree {
    files: HashMap<String, String>,
    dirs: HashMap<String, Vec<String>>,
    tags: HashMap<String, (&'static str, &'static str, &'static str)>,
    links: HashMap<String, String>,
    lengths: HashMap<String, u64>,
}

impl Tree {
    fn file(&mut self, path: &str, text: &str) {
        self.files.insert(path.to_string(), text.to_string());
        self.links.insert(path.to_string(), path.to_string());
    }

    fn dir(&mut self, path: &str, names: &[&str]) {
        self.dirs.insert(path.to_string(), names.iter().map(|s| s.to_string()).collect());
    }

    fn link(&mut self, path: &str, target: &str) {
        self.links.insert(path.to_string(), target.to_string());
    }

    fn learn(&self, facts: &mut Facts, question: Question) {
        match question {
            Question::File { path } => {
                let text = self.files.get(&path).cloned();
                facts.add_file(&path, text)
            }
            Question::Dir { path } => {
                let names = self.dirs.get(&path).cloned().unwrap_or_default();
                facts.add_dir(&path, names)
            }
            Question::Canonical { path } => {
                let target = self.links.get(&path).cloned();
                facts.add_canonical(&path, target)
            }
            Question::Length { path } => {
                let length = self.lengths.get(&path).copied();
                facts.add_length(&path, length)
            }
            Question::Tags { device } => {
                let (label, kind, uuid) = self.tags.get(&device).copied().unwrap_or(("", "", ""));
                let tag = |s: &str| if s.is_empty() { None } else { Some(s.to_string()) };
                facts.add_tags(&device, Tags { label: tag(label), kind: tag(kind), uuid: tag(uuid) })
            }
        }
    }

    fn ask<T>(&self, query: impl Fn(&Facts) -> Found<T>) -> T {
        let mut facts = Facts::new();
        loop {
            match query(&facts) {
                Found::Ready(v) => return v,
                Found::Need(q) => self.learn(&mut facts, q),
            }
        }
    }
}

impl Tree {
    /// What a query asks for until it has its result.
    fn asked<T>(&self, query: impl Fn(&Facts) -> Found<T>) -> Vec<String> {
        let mut facts = Facts::new();
        let mut asked = Vec::new();
        loop {
            match query(&facts) {
                Found::Ready(_) => return asked,
                Found::Need(q) => {
                    asked.push(match &q {
                        Question::File { path } => format!("file {path}"),
                        Question::Dir { path } => format!("dir {path}"),
                        Question::Tags { device } => format!("tags {device}"),
                        Question::Canonical { path } => format!("link {path}"),
                        Question::Length { path } => format!("length {path}"),
                    });
                    self.learn(&mut facts, q)
                }
            }
        }
    }
}

/// A fixed disk, an encrypted stick with two partitions, and a loop device.
fn machine() -> Tree {
    let mut t = Tree::default();
    t.dir("/sys/class/block", &["sdb2", "sda1", "loop0", "sdb", "sda", "sdb1"]);
    t.dir("/sys/block", &["sdb", "loop0", "sda"]);
    t.dir("/sys/block/sdb", &["size", "sdb2", "queue", "sdb1"]);
    t.file("/sys/block/sda/removable", "0\n");
    t.file("/sys/block/sdb/removable", "1\n");
    t.file("/sys/block/loop0/removable", "1\n");
    t.file("/sys/block/sdb/size", "62500000\n");
    t.file("/sys/block/sdb/sdb1/size", "2048\n");
    t.file("/sys/block/sdb/sdb2/size", "4000000\n");
    t.file("/sys/class/block/sda1/partition", "1\n");
    t.file("/sys/class/block/sdb1/partition", "1\n");
    t.tags.insert("/dev/sda1".to_string(), ("", "crypto_LUKS", "u-a"));
    t.tags.insert("/dev/sdb1".to_string(), ("STICK", "vfat", "u-b"));
    t.tags.insert("/dev/sdb2".to_string(), ("secret", "crypto_LUKS", "u-c"));
    t.tags.insert("/dev/loop0".to_string(), ("", "crypto_LUKS", "u-d"));
    t
}

#[test]
fn sysfs_size_bytes_reads_sectors() {
    let mut t = Tree::default();
    t.file("/d/size", "2048\n");
    assert_eq!(t.ask(|f| sysfs_size_bytes(f, "/d/size")), 2048 * 512);
    assert_eq!(t.ask(|f| sysfs_size_bytes(f, "/d/absent")), 0);
    t.file("/d/bad", "not-a-number");
    assert_eq!(t.ask(|f| sysfs_size_bytes(f, "/d/bad")), 0);
    t.file("/d/sign", "+8");
    assert_eq!(t.ask(|f| sysfs_size_bytes(f, "/d/sign")), 4096);
    t.file("/d/minus", "-8");
    assert_eq!(t.ask(|f| sysfs_size_bytes(f, "/d/minus")), 0);
    t.file("/d/large", "18446744073709551616");
    assert_eq!(t.ask(|f| sysfs_size_bytes(f, "/d/large")), 0);
}

#[test]
fn canonicalize_lossy_str_and_path() {
    let mut t = Tree::default();
    assert_eq!(
        t.ask(|f| canonicalize_lossy(f, "/nonexistent/luks-enroll-canon-test")),
        "/nonexistent/luks-enroll-canon-test"
    );
    t.link("/tmp/link", "/tmp/file");
    assert_eq!(t.ask(|f| canonicalize_lossy(f, "/tmp/link")), "/tmp/file");
}

#[test]
fn crypttab_parsing_with_temp_files() {
    let mut t = Tree::default();
    t.link("/d/deva", "/d/deva");
    t.link("/d/devb", "/d/devb");
    t.file(
        "/d/crypttab",
        "# a comment\n\
         \n\
         \t  \n\
         root /d/deva none luks\n\
         dup /d/deva none luks\n\
         other /d/devb none\n\
         gone /nonexistent/luks-enroll-test-dev none luks\n\
         uuid UUID=does-not-exist none luks\n\
         shortline\n",
    );
    let devs = t.ask(|f| crypttab_devices(f, "/d/crypttab", "/d/by-uuid"));
    assert_eq!(devs, vec!["/d/deva", "/d/devb"]);

    // An identifier goes through the links, and names a device only once.
    t.link("/d/by-uuid/1234-abcd", "/d/deva");
    t.file("/d/crypttab", "x UUID=1234-abcd none luks\ny /d/deva none luks\n");
    let devs = t.ask(|f| crypttab_devices(f, "/d/crypttab", "/d/by-uuid"));
    assert_eq!(devs, vec!["/d/deva"]);

    let devs = t.ask(|f| crypttab_devices(f, "/d/absent", "/d/by-uuid"));
    assert!(devs.is_empty());
}

#[test]
fn luks_devices_are_found_once_each() {
    let mut t = machine();
    assert_eq!(t.ask(find_luks_block_devices), vec!["/dev/sda1", "/dev/sdb2"]);
    t.link("/dev/disk/by-uuid/u-a", "/dev/sda1");
    t.link("/dev/sda1", "/dev/sda1");
    t.link("/dev/md", "/dev/md");
    t.file("/etc/crypttab", "m /dev/md none\nr UUID=u-a none luks\n");
    assert_eq!(t.ask(detect_luks_devices), vec!["/dev/md", "/dev/sda1", "/dev/sdb2"]);
}

#[test]
fn removable_devices_are_described() {
    let t = machine();
    let v = t.ask(detect_removable_devices);
    assert_eq!(
        v.to_string(),
        "[{\"device\":\"/dev/sdb\",\"label\":\"\",\"partitions\":[\
         {\"device\":\"/dev/sdb1\",\"encrypted\":false,\"label\":\"STICK\",\"size\":\"1.0 MB\"},\
         {\"device\":\"/dev/sdb2\",\"encrypted\":true,\"label\":\"secret\",\
         \"luks_device\":\"/dev/sdb2\",\"size\":\"2.0 GB\"}],\"size\":\"32.0 GB\"}]"
    );
}

#[test]
fn device_info_of_a_partition_and_of_a_file() {
    let mut t = machine();
    t.file("/proc/mounts", "proc /proc proc rw 0 0\n/dev/sdb1 /media/stick vfat rw 0 0\n");
    let v = t.ask(|f| get_device_info(f, "/dev/sdb1"));
    assert_eq!(
        v.to_string(),
        "{\"device\":\"/dev/sdb1\",\"filesystem\":\"vfat\",\"label\":\"STICK\",\
         \"mount_point\":\"/media/stick\",\"removable\":true,\"size\":\"1.0 MB\",\"uuid\":\"u-b\"}"
    );
    let v = t.ask(|f| get_device_info(f, "/dev/sdb"));
    assert_eq!(v["size"], "32.0 GB");
    assert_eq!(v["mount_point"], "");
    t.lengths.insert("/home/u/x.img".to_string(), 999);
    let v = t.ask(|f| get_device_info(f, "/home/u/x.img"));
    assert_eq!(v["size"], "999 B");
    assert_eq!(v["removable"], false);
    assert_eq!(v["uuid"], "");
    let v = t.ask(|f| get_device_info(f, "/dev/none"));
    assert_eq!(v["size"], "");
}

#[test]
fn disks_and_partitions() {
    let t = machine();
    assert!(t.ask(|f| is_removable(f, "/dev/sdb1")));
    assert!(t.ask(|f| is_removable(f, "/dev/sdb")));
    assert!(!t.ask(|f| is_removable(f, "/dev/sda1")));
    assert!(!t.ask(|f| is_removable(f, "/dev/none")));
    assert!(t.ask(|f| is_partition(f, "/dev/sda1")));
    assert!(!t.ask(|f| is_partition(f, "/dev/sda")));
    assert_eq!(t.ask(|f| blkid_tag(f, "/dev/sdb1", "LABEL")).as_deref(), Some("STICK"));
    assert_eq!(t.ask(|f| blkid_tag(f, "/dev/sda1", "LABEL")), None);
    assert_eq!(t.ask(|f| blkid_tag(f, "/dev/sda1", "OTHER")), None);
    assert_eq!(t.ask(|f| read_sysfs(f, "/sys/block/sdb/removable")).as_deref(), Some("1"));
    assert_eq!(t.ask(|f| sorted_dir_names(f, "/sys/block")), vec!["loop0", "sda", "sdb"]);
    assert!(t.ask(|f| sorted_dir_names(f, "/none")).is_empty());
    assert!(is_virtual_block_name("loop0"));
    assert!(is_virtual_block_name("ram1"));
    assert!(is_virtual_block_name("zram0"));
    assert!(!is_virtual_block_name("sda"));
    assert_eq!(basename("/dev/sda1"), "sda1");
    assert_eq!(basename("sda1"), "sda1");
    assert_eq!(basename("/dev/"), "");
    assert_eq!(join_path("/dev", "sda"), "/dev/sda");
    assert_eq!(join_path("/", "sda"), "/sda");
    assert_eq!(join_path("/dev", "/sda"), "/sda");
}

#[test]
fn mappings() {
    let mut t = machine();
    assert!(!t.ask(|f| mapping_is_active(f, "luks-1")));
    assert!(!t.ask(|f| mapping_is_mounted(f, "luks-1")));
    t.link("/dev/mapper/luks-1", "/dev/dm-0");
    t.file("/proc/mounts", "/dev/mapper/luks-2 /mnt/two ext4 rw 0 0\n");
    assert!(t.ask(|f| mapping_is_active(f, "luks-1")));
    assert!(!t.ask(|f| mapping_is_mounted(f, "luks-1")));
    assert!(t.ask(|f| mapping_is_mounted(f, "luks-2")));
}

#[test]
fn queries_ask_for_what_they_read_in_order() {
    let t = machine();
    assert_eq!(t.asked(|f| read_sysfs(f, "/a")), ["file /a"]);
    assert_eq!(t.asked(|f| sysfs_size_bytes(f, "/a")), ["file /a"]);
    assert_eq!(t.asked(|f| sorted_dir_names(f, "/a")), ["dir /a"]);
    assert_eq!(t.asked(|f| blkid_tag(f, "/dev/sdb1", "UUID")), ["tags /dev/sdb1"]);
    assert_eq!(t.asked(|f| is_removable(f, "/dev/sdb1")), ["file /sys/block/sdb/removable"]);
    assert_eq!(t.asked(|f| is_partition(f, "/dev/sdb1")), ["link /sys/class/block/sdb1/partition"]);
    assert_eq!(t.asked(|f| canonicalize_lossy(f, "/a")), ["link /a"]);
    assert_eq!(t.asked(|f| mapping_is_active(f, "m")), ["link /dev/mapper/m"]);
    assert_eq!(t.asked(|f| mapping_is_mounted(f, "m")), ["file /proc/mounts"]);
    assert_eq!(
        t.asked(find_luks_block_devices),
        [
            "dir /sys/class/block",
            "tags /dev/sda",
            "tags /dev/sda1",
            "tags /dev/sdb",
            "tags /dev/sdb1",
            "tags /dev/sdb2",
        ]
    );
    assert_eq!(t.asked(|f| crypttab_devices(f, "/c", "/u")), ["file /c"]);
    let luks = t.asked(detect_luks_devices);
    assert_eq!(luks[0], "file /etc/crypttab");
    assert_eq!(luks[1], "dir /sys/class/block");
    assert_eq!(luks[luks.len() - 2..], ["link /dev/sda1", "link /dev/sdb2"]);
    assert_eq!(
        t.asked(|f| get_device_info(f, "/dev/sdb1")),
        [
            "length /dev/sdb1",
            "file /sys/block/sdb/sdb1/size",
            "file /proc/mounts",
            "tags /dev/sdb1",
            "file /sys/block/sdb/removable",
        ]
    );
    assert_eq!(
        t.asked(detect_removable_devices)[6..],
        [
            "dir /sys/block",
            "file /sys/block/sda/removable",
            "file /sys/block/sdb/removable",
            "file /sys/block/sdb/size",
            "dir /sys/block/sdb",
            "file /sys/block/sdb/sdb1/size",
            "file /sys/block/sdb/sdb2/size",
        ]
    );
}

fn by_floats(n: u64) -> String {
    if n >= 1_000_000_000_000 {
        format!("{:.1} TB", n as f64 / 1e12)
    } else if n >= 1_000_000_000 {
        format!("{:.1} GB", n as f64 / 1e9)
    } else if n >= 1_000_000 {
        format!("{:.1} MB", n as f64 / 1e6)
    } else if n >= 1_000 {
        format!("{:.1} KB", n as f64 / 1e3)
    } else {
        format!("{n} B")
    }
}

#[test]
fn sizes_round_as_floating_point_numbers_do() {
    for n in 0..200_000u64 {
        assert_eq!(format_size(n), by_floats(n), "{n}");
    }
    // Around the halves, where the quotient's own rounding decides.
    for unit in [1_000u64, 1_000_000, 1_000_000_000, 1_000_000_000_000] {
        for tenths in 10..400u64 {
            let half = unit / 10 * tenths + unit / 20;
            for n in half - 2..half + 3 {
                assert_eq!(format_size(n), by_floats(n), "{n}");
            }
        }
    }
    let mut n = 1u64;
    for k in 0..200_000u64 {
        n = n.wrapping_mul(6364136223846793005).wrapping_add(1442695040888963407);
        let m = n >> (k % 64);
        assert_eq!(format_size(m), by_floats(m), "{m}");
    }
    assert_eq!(format_size(u64::MAX), by_floats(u64::MAX));
}
