use luks_enroll::constants::{
    BUS_NAME, INTERFACE, OBJECT_PATH, POLKIT_ACTION_MANAGE, POLKIT_ACTION_READ,
    SERVICE_BINARY_PATH, TOKEN_TYPE_FIDO2, TOKEN_TYPE_RECOVERY, TOKEN_TYPE_TPM2,
};
use luks_enroll::devices::{format_size, parent_device_name, parse_nvme};
use luks_enroll::fido2::is_hidraw_path;
use luks_enroll::format::is_nvme_whole_disk;
use luks_enroll::settings::{load_setting, save_setting};

#[test]
fn constants_match_frozen_contract() {
    assert_eq!(BUS_NAME, "net.contemno.LuksEnroll");
    assert_eq!(OBJECT_PATH, "/net/contemno/LuksEnroll");
    assert_eq!(INTERFACE, "net.contemno.LuksEnroll1");
    assert_eq!(POLKIT_ACTION_READ, "net.contemno.luks-enroll.read");
    assert_eq!(POLKIT_ACTION_MANAGE, "net.contemno.luks-enroll.manage");
    assert_eq!(TOKEN_TYPE_FIDO2, "systemd-fido2");
    assert_eq!(TOKEN_TYPE_TPM2, "systemd-tpm2");
    assert_eq!(TOKEN_TYPE_RECOVERY, "systemd-recovery");
    assert_eq!(SERVICE_BINARY_PATH, "/usr/sbin/luks-enroll-service");
}

#[test]
fn format_size_goldens() {
    assert_eq!(format_size(0), "0 B");
    assert_eq!(format_size(999), "999 B");
    assert_eq!(format_size(1000), "1.0 KB");
    assert_eq!(format_size(1_500_000), "1.5 MB");
    assert_eq!(format_size(32_000_000_000), "32.0 GB");
    assert_eq!(format_size(2_000_000_000_000), "2.0 TB");
}

#[test]
fn parse_nvme_shared() {
    assert_eq!(parse_nvme("nvme0n1"), Some((7, "".to_string())));
    assert_eq!(parse_nvme("nvme12n34"), Some((9, "".to_string())));
    assert_eq!(parse_nvme("nvme0n1p2"), Some((7, "p2".to_string())));
    assert_eq!(parse_nvme("nvme0"), None);
    assert_eq!(parse_nvme("nvme0n"), None);
    assert_eq!(parse_nvme("sda"), None);
}

#[test]
fn parent_device_name_cases() {
    assert_eq!(parent_device_name("sda1"), "sda");
    assert_eq!(parent_device_name("sdb"), "sdb");
    assert_eq!(parent_device_name("nvme0n1p2"), "nvme0n1");
    assert_eq!(parent_device_name("nvme0n1"), "nvme0n1");
    assert_eq!(parent_device_name("vda3"), "vda");
    assert_eq!(parent_device_name("mmcblk0p1"), "mmcblk0p1");
    assert_eq!(parent_device_name("/dev/sda1"), "sda");
    assert_eq!(parent_device_name("/dev/nvme0n1p2"), "nvme0n1");
}

#[test]
fn nvme_whole_disk_names() {
    assert!(is_nvme_whole_disk("nvme0n1"));
    assert!(is_nvme_whole_disk("nvme12n34"));
    assert!(!is_nvme_whole_disk("nvme0n1p1"));
    assert!(!is_nvme_whole_disk("nvme0"));
    assert!(!is_nvme_whole_disk("sda"));
}

#[test]
fn hidraw_path_accepts_valid() {
    assert!(is_hidraw_path("/dev/hidraw0"));
    assert!(is_hidraw_path("/dev/hidraw12"));
    assert!(is_hidraw_path("/dev/hidraw7"));
    assert!(is_hidraw_path("/dev/hidraw007"));
    assert!(is_hidraw_path("/dev/hidraw9999"));
}

#[test]
fn hidraw_path_rejects_invalid() {
    assert!(!is_hidraw_path("/dev/hidraw"));
    assert!(!is_hidraw_path("/dev/hidraw1x"));
    assert!(!is_hidraw_path("/dev/hidrawx1"));
    assert!(!is_hidraw_path("/dev/hidraw0 "));
    assert!(!is_hidraw_path("/dev/hidraw0\n"));
    assert!(!is_hidraw_path("/dev/hidraw0/"));
    assert!(!is_hidraw_path("/dev/hidraw-1"));
    assert!(!is_hidraw_path("/dev/sda"));
    assert!(!is_hidraw_path("/tmp/evil"));
    assert!(!is_hidraw_path("/dev/HIDRAW0"));
    assert!(!is_hidraw_path("dev/hidraw0"));
    assert!(!is_hidraw_path(" /dev/hidraw0"));
    assert!(!is_hidraw_path(""));
}

#[test]
fn unknown_keys_rejected() {
    assert_eq!(load_setting("nope"), "");
    assert!(!save_setting("nope", "value"));
}
