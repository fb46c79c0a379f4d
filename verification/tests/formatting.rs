use std::io::Cursor;

use gpt::disk::LogicalBlockSize;
use gpt::mbr::ProtectiveMBR;
use gpt::{GptConfig, GptDisk};
use luks_enroll::codec::Secret;
use luks_enroll::facts::{Facts, Found, Question, Tags};
use luks_enroll::format::{
    create_image_file, first_partition_node, format_removable_partition, gpt_zap_and_partition,
    largest_span, logical_block_size, protective_blocks, udev_wait_for_partition, wait_for_node,
    wipefs, BlockEvent, NodeStep, TableAnswer, TableRequest, TableStep, UdevAnswer, UdevStep,
    WipeAnswer, WipeRequest, WipeStep, FALLBACK_POLL_INTERVAL, FALLBACK_POLL_ITERATIONS,
    LUKS_PARTITION_TYPE_GUID, UDEV_WAIT_TIMEOUT,
};
use luks_enroll::host::{Answer, Failure, KeyslotsArea, Next, Request, Step};
use luks_enroll::luks::{CIPHER, CIPHER_MODE, COMPACT_KEYSLOTS_SIZE, VOLUME_KEY_LEN};
use luks_enroll::service::op_format_partition;

#[test]
fn luks_type_guid_matches_gpt_constant() {
    assert!(gpt::partition_types::LINUX_LUKS
        .guid
        .to_string()
        .eq_ignore_ascii_case(LUKS_PARTITION_TYPE_GUID));
}

#[test]
fn create_image_file_sets_apparent_size() {
    match create_image_file("/d/img.bin", 4, &vec![], 0) {
        Step::Ask(Request::CreateFile { path, last }) => {
            assert_eq!(path, "/d/img.bin");
            assert_eq!(last + 1, 4 * 1024 * 1024);
        }
        _ => panic!("expected the file to be made"),
    }
    assert!(matches!(
        create_image_file("/d/img.bin", 8192, &vec![Answer::Outcome(Ok(()))], 0),
        Step::Done((), 1)
    ));
    match create_image_file(
        "/d/img.bin",
        1,
        &vec![Answer::Outcome(Err(Failure::Call("disk full".to_string())))],
        0,
    ) {
        Step::Fail(e) => assert_eq!(e.0, "disk full"),
        _ => panic!("expected a failure"),
    }
}

#[test]
fn create_image_file_rejects_bad_sizes() {
    let refused = |size: i32| match create_image_file("/d/img.bin", size, &vec![], 0) {
        Step::Fail(e) => e.to_string(),
        _ => panic!("expected a failure"),
    };
    assert_eq!(refused(0), "size_mb must be between 1 and 8192, got 0");
    assert_eq!(refused(9000), "size_mb must be between 1 and 8192, got 9000");
    assert_eq!(refused(-5), "size_mb must be between 1 and 8192, got -5");
}

/// Runs the wait; the answers come from the three closures.
fn wait(
    settle: impl Fn() -> bool,
    mut reprobe: impl FnMut(),
    exists: impl Fn(usize) -> bool,
    iterations: u32,
) -> (bool, usize) {
    let mut log: Vec<bool> = Vec::new();
    let mut looks = 0;
    loop {
        match wait_for_node(iterations, &log) {
            NodeStep::Settle => log.push(settle()),
            NodeStep::Exists => {
                log.push(exists(looks));
                looks += 1;
            }
            NodeStep::Reprobe => {
                reprobe();
                log.push(false);
            }
            NodeStep::Done(found) => return (found, looks),
        }
    }
}

#[test]
fn partition_wait_returns_once_node_appears_via_settle() {
    let (found, looks) = wait(
        || true,
        || panic!("reprobe should not be called when settle succeeds"),
        |_| true,
        0,
    );
    assert!(found);
    assert_eq!(looks, 1);
}

#[test]
fn partition_wait_errors_on_timeout_via_settle() {
    let (found, _) = wait(
        || true,
        || panic!("reprobe should not be called when settle succeeds"),
        |_| false,
        0,
    );
    assert!(!found);
}

#[test]
fn partition_wait_falls_back_to_polling_when_settle_unavailable() {
    let mut reprobed = 0;
    let (found, looks) =
        wait(|| false, || reprobed += 1, |looks| looks >= 1, FALLBACK_POLL_ITERATIONS);
    assert!(found);
    assert_eq!(reprobed, 1);
    assert_eq!(looks, 2);
    assert_eq!((FALLBACK_POLL_ITERATIONS, FALLBACK_POLL_INTERVAL, UDEV_WAIT_TIMEOUT), (20, 500, 10_000));
}

#[test]
fn partition_wait_fallback_poll_errors_on_timeout() {
    let mut reprobed = 0;
    let (found, looks) = wait(|| false, || reprobed += 1, |_| false, 2);
    assert!(!found);
    assert_eq!(reprobed, 2);
    assert_eq!(looks, 3);
}

fn facts_of(query: impl Fn(&Facts) -> Option<Question>, removable: bool, partition: bool) -> Facts {
    let mut facts = Facts::new();
    while let Some(q) = query(&facts) {
        match q {
            Question::File { path } => {
                let text = if removable && path == "/sys/block/sdb/removable" {
                    Some("1\n".to_string())
                } else {
                    None
                };
                facts.add_file(&path, text);
            }
            Question::Canonical { path } => {
                let target = if partition { Some(path.clone()) } else { None };
                facts.add_canonical(&path, target);
            }
            Question::Dir { path } => facts.add_dir(&path, vec![]),
            Question::Length { path } => facts.add_length(&path, None),
            Question::Tags { device } => {
                facts.add_tags(&device, Tags { label: None, kind: None, uuid: None })
            }
        }
    }
    facts
}

/// Formats a device; gives the result and what was asked for.
fn format_device(
    device: &str,
    passphrase: &str,
    removable: bool,
    partition: bool,
    fails: Option<&str>,
) -> (Result<String, String>, Vec<String>) {
    let facts = facts_of(
        |f| match format_removable_partition(f, device, passphrase, &vec![]) {
            Found::Need(q) => Some(q),
            Found::Ready(_) => None,
        },
        removable,
        partition,
    );
    let mut log: Vec<Answer> = Vec::new();
    let mut asked: Vec<String> = Vec::new();
    loop {
        let next = match format_removable_partition(&facts, device, passphrase, &log) {
            Found::Ready(next) => next,
            Found::Need(_) => panic!("the facts are complete"),
        };
        let request = match next {
            Next::Done(r) => return (r.0, asked),
            Next::Ask(r) => r,
        };
        let name = match &request {
            Request::Wipefs { device } => format!("wipefs {device}"),
            Request::Partition { device } => format!("partition {device}"),
            Request::WaitForNode { device, partition } => format!("wait {device} {partition}"),
            Request::Format { device, area } => {
                assert!(*area == KeyslotsArea::Compact);
                format!("format {device}")
            }
            Request::AddKeyslot { device, .. } => format!("add {device}"),
            Request::CacheKey { device, .. } => format!("cache {device}"),
            _ => "other".to_string(),
        };
        let failed = fails.is_some_and(|f| name.starts_with(f));
        asked.push(name);
        let outcome = if failed {
            Err(Failure::Call("no luck".to_string()))
        } else {
            Ok(())
        };
        log.push(match request {
            Request::WaitForNode { .. } => Answer::Flag(!failed),
            Request::Format { .. } => {
                Answer::NewKey(outcome.map(|_| Secret::new(vec![1; 64])))
            }
            Request::AddKeyslot { .. } => Answer::Number(outcome.map(|_| 0)),
            Request::CacheKey { .. } => Answer::Ack,
            _ => Answer::Outcome(outcome),
        });
    }
}

#[test]
fn format_removable_partition_refuses_non_removable() {
    let (r, asked) = format_device("/nonexistent/luks-enroll-dev", "pw", false, false, None);
    let err = r.unwrap_err();
    assert_eq!(err, "Refusing to format non-removable device");
    assert!(asked.is_empty());
}

#[test]
fn formatting_asks_whether_the_device_is_removable_first() {
    let none: Vec<Answer> = Vec::new();
    let mut facts = Facts::new();
    let need = |facts: &Facts| match op_format_partition(facts, "/dev/sdb1", "pw", &none) {
        Found::Need(Question::File { path }) => path,
        Found::Need(Question::Canonical { path }) => path,
        _ => "".to_string(),
    };
    assert_eq!(need(&facts), "/sys/block/sdb/removable");
    facts.add_file("/sys/block/sdb/removable", Some("1\n".to_string()));
    assert_eq!(need(&facts), "/sys/class/block/sdb1/partition");
    facts.add_canonical("/sys/class/block/sdb1/partition", None);
    assert_eq!(need(&facts), "");

    let mut facts = Facts::new();
    facts.add_file("/sys/block/sdb/removable", None);
    assert_eq!(need(&facts), "");
}

#[test]
fn removable_format_uses_compact_keyslots_area() {
    // The request carries the area; its size is this.
    let (r, asked) = format_device("/dev/sdb1", "", true, true, None);
    assert_eq!(r, Ok("/dev/sdb1".to_string()));
    assert_eq!(asked, vec!["wipefs /dev/sdb1", "format /dev/sdb1", "cache /dev/sdb1"]);
    assert_eq!(COMPACT_KEYSLOTS_SIZE, 2 * 1024 * 1024);
    assert_eq!((CIPHER, CIPHER_MODE, VOLUME_KEY_LEN * 8), ("aes", "xts-plain64", 512));
}

#[test]
fn whole_disks_get_a_partition_first() {
    let (r, asked) = format_device("/dev/sdb", "pw", true, false, None);
    assert_eq!(r, Ok("/dev/sdb1".to_string()));
    assert_eq!(asked[0], "wipefs /dev/sdb");
    assert_eq!(asked[1], "partition /dev/sdb");
    assert_eq!(asked[2], "wait /dev/sdb /dev/sdb1");
    assert!(asked.contains(&"format /dev/sdb1".to_string()));
    assert!(asked.contains(&"add /dev/sdb1".to_string()));
    for step in ["wipefs", "partition", "wait", "format", "add"] {
        let (r, asked) = format_device("/dev/sdb", "pw", true, false, Some(step));
        assert!(r.is_err(), "{step}");
        assert!(asked.last().unwrap().starts_with(step), "{step}");
    }
}

#[test]
fn formatting_reports_the_partition() {
    let facts = facts_of(
        |f| match op_format_partition(f, "/dev/sda1", "pw", &vec![]) {
            Found::Need(q) => Some(q),
            Found::Ready(_) => None,
        },
        false,
        true,
    );
    match op_format_partition(&facts, "/dev/sda1", "pw", &vec![]) {
        Found::Ready(Next::Done((ok, out, err))) => {
            assert!(!ok);
            assert_eq!(out, "");
            assert_eq!(err, "Operation failed");
        }
        _ => panic!("expected a refusal"),
    }
}

#[test]
fn first_partition_names() {
    assert_eq!(first_partition_node("/dev/sdb"), "/dev/sdb1");
    assert_eq!(first_partition_node("/dev/nvme0n1"), "/dev/nvme0n1p1");
    assert_eq!(first_partition_node("/dev/nvme0n1p1"), "/dev/nvme0n1p11");
}

/// A disk with signatures; the probe finds them one by one.
fn wipe(signatures: Vec<(&str, usize)>) -> (Result<(), String>, Vec<(u64, usize)>) {
    let mut log: Vec<WipeAnswer> = Vec::new();
    let mut zeroed: Vec<(u64, usize)> = Vec::new();
    let mut left = signatures.into_iter();
    loop {
        match wipefs("/dev/sdb", &log) {
            WipeStep::Fail(e) => return (Err(e.0), zeroed),
            WipeStep::Done => return (Ok(()), zeroed),
            WipeStep::Ask(WipeRequest::Open) => log.push(WipeAnswer::Opened(true)),
            WipeStep::Ask(WipeRequest::Probe) => log.push(match left.next() {
                None => WipeAnswer::Probe { status: 1, offset: None, length: None },
                Some((offset, length)) => WipeAnswer::Probe {
                    status: 0,
                    offset: Some(offset.to_string()),
                    length: Some(length),
                },
            }),
            WipeStep::Ask(WipeRequest::Zero { offset, length }) => {
                zeroed.push((offset, length));
                log.push(WipeAnswer::Zeroed(Ok(())));
            }
        }
    }
}

#[test]
fn wipefs_ok_on_file_without_signatures() {
    let (r, zeroed) = wipe(vec![]);
    assert_eq!(r, Ok(()));
    assert!(zeroed.is_empty());
}

#[test]
fn wipefs_erases_swap_signature() {
    let (r, zeroed) = wipe(vec![("4086", 10)]);
    assert_eq!(r, Ok(()));
    assert_eq!(zeroed, vec![(4086, 10)]);
}

#[test]
fn wipefs_erases_every_signature_that_can_be_located() {
    let (r, zeroed) = wipe(vec![("510", 2), ("none", 4), ("4096", 0), ("1024", 8)]);
    assert_eq!(r, Ok(()));
    assert!(zeroed.contains(&(510, 2)));
    assert!(zeroed.contains(&(1024, 8)));
    assert!(!zeroed.iter().any(|(_, n)| *n == 4));
}

#[test]
fn wipefs_failures() {
    let fail = |device: &str, log: Vec<WipeAnswer>| match wipefs(device, &log) {
        WipeStep::Fail(e) => e.0,
        _ => panic!("expected a failure"),
    };
    assert_eq!(fail("/dev/s\0", vec![]), "device path contains a NUL byte");
    assert_eq!(
        fail("/dev/sdb", vec![WipeAnswer::Opened(false)]),
        "blkid_new_probe_from_filename failed for /dev/sdb"
    );
    let probe = |status: i32, offset: Option<&str>, length: Option<usize>| WipeAnswer::Probe {
        status,
        offset: offset.map(|s| s.to_string()),
        length,
    };
    assert_eq!(
        fail("/dev/sdb", vec![WipeAnswer::Opened(true), probe(-1, None, None)]),
        "blkid_do_probe error"
    );
    assert_eq!(
        fail(
            "/dev/sdb",
            vec![
                WipeAnswer::Opened(true),
                probe(0, Some("8"), Some(4)),
                WipeAnswer::Zeroed(Err("read-only".to_string())),
            ]
        ),
        "read-only"
    );
}

#[test]
fn partition_table_numbers() {
    assert_eq!(logical_block_size(Some("4096\n")), 4096);
    assert_eq!(logical_block_size(Some("512\n")), 512);
    assert_eq!(logical_block_size(Some("520")), 512);
    assert_eq!(logical_block_size(None), 512);
    assert_eq!(protective_blocks(64 * 1024 * 1024, 512), 131_071);
    assert_eq!(protective_blocks(100, 512), 0);
    assert_eq!(protective_blocks(u64::MAX, 512), u32::MAX);
    assert_eq!(largest_span(&vec![]), None);
    assert_eq!(largest_span(&vec![(34, 10), (2048, 99), (9, 3)]), Some((2048, 99)));
    // Of two equal ones the last.
    assert_eq!(largest_span(&vec![(34, 10), (2048, 10)]), Some((2048, 10)));
}

/// Partitions a disk in memory, and gives what it then holds.
fn partition_disk(bytes: Vec<u8>) -> Result<Vec<u8>, String> {
    let mut disk: Cursor<Vec<u8>> = Cursor::new(bytes);
    let mut table: Option<GptDisk<Cursor<Vec<u8>>>> = None;
    let mut log: Vec<TableAnswer> = Vec::new();
    loop {
        let request = match gpt_zap_and_partition("/d/disk.img", &log) {
            TableStep::Fail(e) => return Err(e.0),
            TableStep::Done => return Ok(disk.into_inner()),
            TableStep::Ask(r) => r,
        };
        log.push(match request {
            TableRequest::Sysfs { path } => {
                assert_eq!(path, "/sys/block/disk.img/queue/logical_block_size");
                TableAnswer::Text(None)
            }
            TableRequest::Open => TableAnswer::Length(Ok(disk.get_ref().len() as u64)),
            TableRequest::Protect { blocks } => {
                let mbr = ProtectiveMBR::with_lb_size(blocks);
                let r = mbr.overwrite_lba0(&mut disk);
                TableAnswer::Outcome(r.map(|_| ()).map_err(|e| e.to_string()))
            }
            TableRequest::Create { block_size } => {
                assert_eq!(block_size, 512);
                disk.set_position(0);
                let made = GptConfig::new()
                    .writable(true)
                    .logical_block_size(LogicalBlockSize::Lb512)
                    .create_from_device(disk.clone(), None);
                TableAnswer::Spans(match made {
                    Ok(t) => {
                        let spans = t.find_free_sectors();
                        table = Some(t);
                        Ok(spans)
                    }
                    Err(e) => Err(e.to_string()),
                })
            }
            TableRequest::Add { first, length } => {
                let t = table.as_mut().expect("a table");
                let kind = gpt::partition_types::LINUX_LUKS;
                let r = t.add_partition_at("", 1, first, length, kind, 0);
                TableAnswer::Outcome(r.map(|_| ()).map_err(|e| e.to_string()))
            }
            TableRequest::Write => {
                let r = table.take().expect("a table").write();
                TableAnswer::Outcome(match r {
                    Ok(d) => {
                        disk = d;
                        Ok(())
                    }
                    Err(e) => Err(e.to_string()),
                })
            }
            TableRequest::Sync => TableAnswer::Outcome(Ok(())),
        });
    }
}

#[test]
fn gpt_zap_and_partition_roundtrip() {
    let bytes = partition_disk(vec![0xFF; 64 * 1024 * 1024]).unwrap();

    // A protective MBR in the first block, with one partition of its own type.
    assert_eq!(&bytes[510..512], &[0x55, 0xAA]);
    assert_eq!(bytes[446 + 4], 0xEE);

    // One partition of the LUKS type, over all that can be used.
    let disk = GptConfig::new().open_from_device(Cursor::new(bytes)).unwrap();
    let used: Vec<_> = disk.partitions().values().filter(|p| p.is_used()).collect();
    assert_eq!(used.len(), 1);
    let part = used[0];
    assert!(part
        .part_type_guid
        .guid
        .to_string()
        .eq_ignore_ascii_case(LUKS_PARTITION_TYPE_GUID));
    assert_eq!(part.part_type_guid, gpt::partition_types::LINUX_LUKS);
    assert_eq!(part.name, "");
    assert_eq!(part.flags, 0);
    let header = disk.primary_header().unwrap();
    assert_eq!(part.first_lba, header.first_usable);
    assert_eq!(part.last_lba, header.last_usable);
}

#[test]
fn partitioning_failures() {
    let fail = |log: Vec<TableAnswer>| match gpt_zap_and_partition("/dev/sdb", &log) {
        TableStep::Fail(e) => e.0,
        _ => panic!("expected a failure"),
    };
    let ok = || TableAnswer::Outcome(Ok(()));
    let no = || TableAnswer::Outcome(Err("x".to_string()));
    let start = || vec![TableAnswer::Text(Some("4096\n".to_string())), TableAnswer::Length(Ok(8192))];
    assert!(matches!(
        gpt_zap_and_partition("/dev/sdb", &start()),
        TableStep::Ask(TableRequest::Protect { blocks: 1 })
    ));
    assert_eq!(
        fail(vec![TableAnswer::Text(None), TableAnswer::Length(Err("busy".to_string()))]),
        "busy"
    );
    let mut log = start();
    log.push(no());
    assert_eq!(fail(log), "writing protective MBR failed: x");
    let mut log = start();
    log.push(ok());
    log.push(TableAnswer::Spans(Err("y".to_string())));
    assert_eq!(fail(log), "creating GPT failed: y");
    let mut log = start();
    log.push(ok());
    log.push(TableAnswer::Spans(Ok(vec![])));
    assert_eq!(fail(log), "no usable space on /dev/sdb");
    let later = |rest: Vec<TableAnswer>| {
        let mut log = start();
        log.push(ok());
        log.push(TableAnswer::Spans(Ok(vec![(6, 1)])));
        log.extend(rest);
        log
    };
    assert_eq!(fail(later(vec![no()])), "adding LUKS partition failed: x");
    assert_eq!(fail(later(vec![ok(), no()])), "writing GPT failed: x");
    assert_eq!(fail(later(vec![ok(), ok(), no()])), "x");
    assert!(matches!(
        gpt_zap_and_partition("/dev/sdb", &later(vec![ok(), ok(), ok()])),
        TableStep::Done
    ));
}

#[test]
fn events_end_the_wait() {
    let event = |added: bool, name: &str| BlockEvent { added, name: Some(name.to_string()) };
    let step = |log: Vec<UdevAnswer>| udev_wait_for_partition("/dev/sdb1", &log);
    assert!(matches!(step(vec![]), UdevStep::Listen));
    assert!(matches!(step(vec![UdevAnswer::Listening(false)]), UdevStep::Done(false)));
    assert!(matches!(step(vec![UdevAnswer::Listening(true)]), UdevStep::Reprobe));
    let after = |rest: Vec<UdevAnswer>| {
        let mut log = vec![UdevAnswer::Listening(true), UdevAnswer::Ack];
        log.extend(rest);
        step(log)
    };
    assert!(matches!(after(vec![]), UdevStep::Wait));
    assert!(matches!(after(vec![UdevAnswer::Expired]), UdevStep::Done(true)));
    let other = || {
        UdevAnswer::Events(vec![
            event(false, "sdb1"),
            event(true, "sdb"),
            BlockEvent { added: true, name: None },
        ])
    };
    assert!(matches!(after(vec![other()]), UdevStep::Wait));
    let it = || UdevAnswer::Events(vec![event(true, "sdb"), event(true, "sdb1")]);
    assert!(matches!(after(vec![other(), it()]), UdevStep::Done(true)));
}
