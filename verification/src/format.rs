//! Formatting: signatures, partition tables, removable media and image files.

use vstd::prelude::*;

use crate::devices::{
    basename, base_of, is_partition, is_removable, nvme_end, parse_nvme, partition, partition_link,
    removable, removable_file,
};
use crate::error::Error;
use crate::facts::{
    asks, first_open, holds, lemma_open_cons, lemma_open_one, settled, Facts, Found, Knowledge,
    Query, World,
};
use crate::host::{Answer, Ask, KeyslotsArea, Next, Request, Stage, Step, Turn};
use crate::text::{
    chars_of, concat, concat3, dec, dec_i64, has_nul, opt_text, parse_u64, parse_u64_spec, trim,
    str_eq, trim_str,
};
use crate::volume::{
    flag_stage, format_keyless_stage, format_luks2_keyless, format_stage, outcome_answer,
    outcome_stage, unexpected, unexpected_error,
};

verus! {

/// The partition type of a LUKS partition.
pub const LUKS_PARTITION_TYPE_GUID: &'static str = "CA7D7CCB-63ED-4C53-861C-1742536059CC";

// ---------------------------------------------------------------------------
// Names
// ---------------------------------------------------------------------------

/// Whether `name` is `nvme`, a number, `n` and a number.
pub open spec fn nvme_whole_disk(name: Seq<char>) -> bool {
    nvme_end(name) == Some(name.len() as int)
}

/// Whether `name` is that of a whole NVMe disk.
pub fn is_nvme_whole_disk(name: &str) -> (r: bool)
    ensures
        r == nvme_whole_disk(name@),
{
    let c = chars_of(name);
    match parse_nvme(name) {
        Some((end, _)) => end == c.len(),
        None => false,
    }
}

/// The node of the first partition of a disk: behind the name of a whole NVMe
/// disk comes a `p`.
pub open spec fn first_partition(device: Seq<char>) -> Seq<char> {
    if nvme_whole_disk(base_of(device)) {
        device + "p1"@
    } else {
        device + "1"@
    }
}

/// The node of the first partition of a disk.
pub fn first_partition_node(device: &str) -> (r: String)
    ensures
        r@ == first_partition(device@),
{
    let base = basename(device);
    if is_nvme_whole_disk(base.as_str()) {
        concat(device, "p1")
    } else {
        concat(device, "1")
    }
}

// ---------------------------------------------------------------------------
// Partition table
// ---------------------------------------------------------------------------

/// The block size that a partition table is written for: the logical block size
/// that sysfs gives, if that is 512 or 4096, and else 512.
pub open spec fn table_block_size(text: Option<Seq<char>>) -> u64 {
    match text {
        Some(s) => if parse_u64_spec(trim(s)) == Some(4096u64) {
            4096
        } else {
            512
        },
        None => 512,
    }
}

/// The block size that a partition table is written for.
pub fn logical_block_size(text: Option<&str>) -> (r: u64)
    ensures
        r == table_block_size(
            match text {
                Some(s) => Some(s@),
                None => None,
            },
        ),
{
    match text {
        Some(s) => {
            let t = trim_str(s);
            let c = chars_of(t.as_str());
            match parse_u64(c.as_slice()) {
                Some(n) => if n == 4096 {
                    4096
                } else {
                    512
                },
                None => 512,
            }
        },
        None => 512,
    }
}

/// How many blocks the entry in the protective MBR covers: all but the first,
/// as far as 32 bits count.
pub open spec fn covered_blocks(disk_len: u64, block_size: u64) -> u32 {
    let blocks = disk_len as int / block_size as int;
    if blocks == 0 {
        0
    } else if blocks - 1 > u32::MAX {
        u32::MAX
    } else {
        (blocks - 1) as u32
    }
}

/// How many blocks the entry in the protective MBR covers.
pub fn protective_blocks(disk_len: u64, block_size: u64) -> (r: u32)
    requires
        block_size > 0,
    ensures
        r == covered_blocks(disk_len, block_size),
{
    let blocks: u64 = disk_len / block_size;
    if blocks == 0 {
        0
    } else if blocks - 1 > 0xffff_ffff {
        0xffff_ffff
    } else {
        (blocks - 1) as u32
    }
}

/// Whether the span at `i` is the one to take: it is as long as any other, and
/// none behind it is as long.
pub open spec fn is_largest(spans: Seq<(u64, u64)>, i: int) -> bool {
    &&& 0 <= i < spans.len()
    &&& forall|k: int| 0 <= k < spans.len() ==> (#[trigger] spans[k]).1 <= spans[i].1
    &&& forall|k: int| i < k < spans.len() ==> (#[trigger] spans[k]).1 < spans[i].1
}

/// The largest of the free spans of a disk, each given by its first block and
/// its length; of several the last.
pub open spec fn largest(spans: Seq<(u64, u64)>) -> Option<(u64, u64)> {
    if spans.len() == 0 {
        None
    } else {
        Some(spans[choose|i: int| is_largest(spans, i)])
    }
}

/// The largest of the free spans of a disk, and of several the last.
pub fn largest_span(spans: &Vec<(u64, u64)>) -> (r: Option<(u64, u64)>)
    ensures
        r == largest(spans@),
        match r {
            Some(s) => exists|i: int| #[trigger] is_largest(spans@, i) && s == spans@[i],
            None => spans@.len() == 0,
        },
{
    if spans.len() == 0 {
        return None;
    }
    let mut best: usize = 0;
    for i in 0..spans.len()
        invariant
            best < spans@.len(),
            best <= i,
            forall|k: int| 0 <= k < i ==> (#[trigger] spans@[k]).1 <= spans@[best as int].1,
            forall|k: int| best < k < i ==> (#[trigger] spans@[k]).1 < spans@[best as int].1,
    {
        if spans[i].1 >= spans[best].1 {
            best = i;
        }
    }
    assert(is_largest(spans@, best as int));
    proof {
        let j = choose|i: int| is_largest(spans@, i);
        assert(is_largest(spans@, j));
        assert(spans@[j].1 == spans@[best as int].1);
        assert(j == best);
    }
    Some(spans[best])
}

/// Work for the machine while a disk is partitioned.
pub enum TableRequest {
    /// Read a file of sysfs: [`TableAnswer::Text`].
    Sysfs { path: String },
    /// Open the disk and find its length: [`TableAnswer::Length`].
    Open,
    /// Write a protective MBR with an entry of that many blocks:
    /// [`TableAnswer::Outcome`].
    Protect { blocks: u32 },
    /// Begin a new, empty GPT: [`TableAnswer::Spans`].
    Create { block_size: u64 },
    /// Add a partition as the first one, without a name or flags, of the type
    /// [`LUKS_PARTITION_TYPE_GUID`]: [`TableAnswer::Outcome`].
    Add { first: u64, length: u64 },
    /// Write the GPT to the disk: [`TableAnswer::Outcome`].
    Write,
    /// See to it that all is on the disk: [`TableAnswer::Outcome`].
    Sync,
}

/// The outcome of a [`TableRequest`].
pub enum TableAnswer {
    /// What the file holds, if it can be read.
    Text(Option<String>),
    /// The length of the disk in bytes.
    Length(Result<u64, String>),
    /// Whether the work was done.
    Outcome(Result<(), String>),
    /// The free spans of the disk, each by its first block and its length.
    Spans(Result<Vec<(u64, u64)>, String>),
}

/// How far the partitioning has come.
pub enum TableStep {
    Ask(TableRequest),
    Fail(Error),
    Done,
}

/// The contents of a [`TableStep`].
#[verifier::ext_equal]
pub ghost enum TableStage {
    Sysfs { path: Seq<char> },
    Open,
    Protect { blocks: u32 },
    Create { block_size: u64 },
    Add { first: u64, length: u64 },
    Write,
    Sync,
    Fail(Seq<char>),
    Done,
}

impl View for TableStep {
    type V = TableStage;

    open spec fn view(&self) -> TableStage {
        match *self {
            TableStep::Ask(TableRequest::Sysfs { path }) => TableStage::Sysfs { path: path@ },
            TableStep::Ask(TableRequest::Open) => TableStage::Open,
            TableStep::Ask(TableRequest::Protect { blocks }) => TableStage::Protect { blocks },
            TableStep::Ask(TableRequest::Create { block_size }) => TableStage::Create {
                block_size,
            },
            TableStep::Ask(TableRequest::Add { first, length }) => TableStage::Add {
                first,
                length,
            },
            TableStep::Ask(TableRequest::Write) => TableStage::Write,
            TableStep::Ask(TableRequest::Sync) => TableStage::Sync,
            TableStep::Fail(e) => TableStage::Fail(e@),
            TableStep::Done => TableStage::Done,
        }
    }
}

/// The failure in the answer at `at`, behind `what`; none if the work was done.
pub open spec fn table_failure(log: Seq<TableAnswer>, at: int, what: Seq<char>) -> Option<
    Seq<char>,
> {
    match log[at] {
        TableAnswer::Outcome(Ok(_)) => None,
        TableAnswer::Outcome(Err(e)) => Some(what + e@),
        _ => Some(unexpected()),
    }
}

fn outcome_failure(answer: &TableAnswer, what: &str) -> (r: Option<Error>)
    ensures
        match r {
            None => table_failure(seq![*answer], 0, what@) is None,
            Some(e) => table_failure(seq![*answer], 0, what@) == Some(e@),
        },
{
    match answer {
        TableAnswer::Outcome(Ok(_)) => None,
        TableAnswer::Outcome(Err(e)) => Some(Error(concat(what, e.as_str()))),
        _ => Some(unexpected_error()),
    }
}

/// The part of the partitioning that comes after the GPT was begun.
pub open spec fn partition_stage(device: Seq<char>, log: Seq<TableAnswer>) -> TableStage {
    match log[3] {
        TableAnswer::Spans(Ok(spans)) => match largest(spans@) {
            None => TableStage::Fail("no usable space on "@ + device),
            Some((first, length)) => if log.len() == 4 {
                TableStage::Add { first, length }
            } else if table_failure(log, 4, "adding LUKS partition failed: "@) is Some {
                TableStage::Fail(
                    table_failure(log, 4, "adding LUKS partition failed: "@)->Some_0,
                )
            } else if log.len() == 5 {
                TableStage::Write
            } else if table_failure(log, 5, "writing GPT failed: "@) is Some {
                TableStage::Fail(table_failure(log, 5, "writing GPT failed: "@)->Some_0)
            } else if log.len() == 6 {
                TableStage::Sync
            } else if table_failure(log, 6, ""@) is Some {
                TableStage::Fail(table_failure(log, 6, ""@)->Some_0)
            } else {
                TableStage::Done
            },
        },
        TableAnswer::Spans(Err(e)) => TableStage::Fail("creating GPT failed: "@ + e@),
        _ => TableStage::Fail(unexpected()),
    }
}

/// Partitioning `device`.
pub open spec fn table_stage(device: Seq<char>, log: Seq<TableAnswer>) -> TableStage {
    if log.len() == 0 {
        TableStage::Sysfs {
            path: "/sys/block/"@ + base_of(device) + "/queue/logical_block_size"@,
        }
    } else {
        match log[0] {
            TableAnswer::Text(text) => if log.len() == 1 {
                TableStage::Open
            } else {
                let block_size = table_block_size(opt_text(text));
                match log[1] {
                    TableAnswer::Length(Ok(n)) => if log.len() == 2 {
                        TableStage::Protect { blocks: covered_blocks(n, block_size) }
                    } else if table_failure(log, 2, "writing protective MBR failed: "@) is Some {
                        TableStage::Fail(
                            table_failure(log, 2, "writing protective MBR failed: "@)->Some_0,
                        )
                    } else if log.len() == 3 {
                        TableStage::Create { block_size }
                    } else {
                        partition_stage(device, log)
                    },
                    TableAnswer::Length(Err(e)) => TableStage::Fail(e@),
                    _ => TableStage::Fail(unexpected()),
                }
            },
            _ => TableStage::Fail(unexpected()),
        }
    }
}

fn add_partition(device: &str, log: &Vec<TableAnswer>) -> (r: TableStep)
    requires
        log@.len() >= 4,
    ensures
        r@ == partition_stage(device@, log@),
{
    proof {
        reveal_strlit("");
    }
    let (first, length): (u64, u64) = match &log[3] {
        TableAnswer::Spans(Ok(spans)) => match largest_span(spans) {
            None => {
                return TableStep::Fail(Error(concat("no usable space on ", device)));
            },
            Some(span) => span,
        },
        TableAnswer::Spans(Err(e)) => {
            return TableStep::Fail(Error(concat("creating GPT failed: ", e.as_str())));
        },
        _ => {
            return TableStep::Fail(unexpected_error());
        },
    };
    if log.len() == 4 {
        return TableStep::Ask(TableRequest::Add { first, length });
    }
    if let Some(e) = outcome_failure(&log[4], "adding LUKS partition failed: ") {
        return TableStep::Fail(e);
    }
    if log.len() == 5 {
        return TableStep::Ask(TableRequest::Write);
    }
    if let Some(e) = outcome_failure(&log[5], "writing GPT failed: ") {
        return TableStep::Fail(e);
    }
    if log.len() == 6 {
        return TableStep::Ask(TableRequest::Sync);
    }
    match outcome_failure(&log[6], "") {
        Some(e) => TableStep::Fail(e),
        None => TableStep::Done,
    }
}

/// Replaces the partition table of `device` by a GPT with a single partition, of
/// the LUKS type, in its largest free span. A protective MBR goes first.
pub fn gpt_zap_and_partition(device: &str, log: &Vec<TableAnswer>) -> (r: TableStep)
    ensures
        r@ == table_stage(device@, log@),
{
    if log.len() == 0 {
        let base = basename(device);
        let path = concat3("/sys/block/", base.as_str(), "/queue/logical_block_size");
        return TableStep::Ask(TableRequest::Sysfs { path });
    }
    let block_size: u64 = match &log[0] {
        TableAnswer::Text(Some(text)) => logical_block_size(Some(text.as_str())),
        TableAnswer::Text(None) => logical_block_size(None),
        _ => {
            return TableStep::Fail(unexpected_error());
        },
    };
    if log.len() == 1 {
        return TableStep::Ask(TableRequest::Open);
    }
    let disk_len: u64 = match &log[1] {
        TableAnswer::Length(Ok(n)) => *n,
        TableAnswer::Length(Err(e)) => {
            return TableStep::Fail(Error(e.clone()));
        },
        _ => {
            return TableStep::Fail(unexpected_error());
        },
    };
    if log.len() == 2 {
        return TableStep::Ask(
            TableRequest::Protect { blocks: protective_blocks(disk_len, block_size) },
        );
    }
    if let Some(e) = outcome_failure(&log[2], "writing protective MBR failed: ") {
        return TableStep::Fail(e);
    }
    if log.len() == 3 {
        return TableStep::Ask(TableRequest::Create { block_size });
    }
    add_partition(device, log)
}

/// The partition that is added is one of the free spans of the new table, and no
/// other is longer; and it is added only after the protective MBR was written.
pub proof fn law_partition_takes_the_largest_span(
    device: Seq<char>,
    log: Seq<TableAnswer>,
    first: u64,
    length: u64,
)
    requires
        table_stage(device, log) == (TableStage::Add { first, length }),
    ensures
        log.len() == 4,
        log[2] matches TableAnswer::Outcome(Ok(_)),
        match log[3] {
            TableAnswer::Spans(Ok(spans)) => spans@.contains((first, length)) && forall|k: int|
                0 <= k < spans@.len() ==> (#[trigger] spans@[k]).1 <= length,
            _ => false,
        },
{
    if let TableAnswer::Spans(Ok(spans)) = log[3] {
        lemma_some_largest(spans@);
        let j = choose|i: int| is_largest(spans@, i);
        assert(is_largest(spans@, j));
        assert(spans@[j] == (first, length));
    }
}

proof fn lemma_some_largest(spans: Seq<(u64, u64)>)
    requires
        spans.len() > 0,
    ensures
        exists|i: int| is_largest(spans, i),
    decreases spans.len(),
{
    let last = spans.len() - 1;
    if last == 0 {
        assert(is_largest(spans, 0));
    } else {
        let front = spans.drop_last();
        lemma_some_largest(front);
        let j = choose|i: int| is_largest(front, i);
        assert(is_largest(front, j));
        if spans[last].1 >= front[j].1 {
            assert forall|k: int| 0 <= k < spans.len() implies (#[trigger] spans[k]).1
                <= spans[last].1 by {
                if k < last {
                    assert(front[k] == spans[k]);
                }
            }
            assert(is_largest(spans, last));
        } else {
            assert forall|k: int| 0 <= k < spans.len() implies (#[trigger] spans[k]).1
                <= spans[j].1 by {
                if k < last {
                    assert(front[k] == spans[k]);
                }
            }
            assert forall|k: int| j < k < spans.len() implies (#[trigger] spans[k]).1
                < spans[j].1 by {
                if k < last {
                    assert(front[k] == spans[k]);
                }
            }
            assert(is_largest(spans, j));
        }
    }
}

// ---------------------------------------------------------------------------
// Signatures
// ---------------------------------------------------------------------------

/// Work for the machine while signatures are erased.
pub enum WipeRequest {
    /// Begin to look for signatures on the device: [`WipeAnswer::Opened`].
    Open,
    /// Look for the next signature: [`WipeAnswer::Probe`].
    Probe,
    /// Write zeros: [`WipeAnswer::Zeroed`].
    Zero { offset: u64, length: usize },
}

/// The outcome of a [`WipeRequest`].
pub enum WipeAnswer {
    /// Whether it was possible to begin.
    Opened(bool),
    /// The status that the probe returned and, of a signature that was found, its
    /// offset as a decimal text and its length.
    Probe { status: i32, offset: Option<String>, length: Option<usize> },
    /// Whether the zeros were written.
    Zeroed(Result<(), String>),
}

/// How far the erasing has come.
pub enum WipeStep {
    Ask(WipeRequest),
    Fail(Error),
    Done,
}

/// The contents of a [`WipeStep`].
#[verifier::ext_equal]
pub ghost enum WipeStage {
    Open,
    Probe,
    Zero { offset: u64, length: usize },
    Fail(Seq<char>),
    Done,
}

impl View for WipeStep {
    type V = WipeStage;

    open spec fn view(&self) -> WipeStage {
        match *self {
            WipeStep::Ask(WipeRequest::Open) => WipeStage::Open,
            WipeStep::Ask(WipeRequest::Probe) => WipeStage::Probe,
            WipeStep::Ask(WipeRequest::Zero { offset, length }) => WipeStage::Zero {
                offset,
                length,
            },
            WipeStep::Fail(e) => WipeStage::Fail(e@),
            WipeStep::Done => WipeStage::Done,
        }
    }
}

/// Where the signature lies that a probe found, if it says so: an offset that is
/// a number and a length that is not zero.
pub open spec fn signature_at(offset: Option<String>, length: Option<usize>) -> Option<
    (u64, usize),
> {
    match offset {
        Some(s) => match parse_u64_spec(s@) {
            Some(o) => match length {
                Some(n) => if n > 0 {
                    Some((o, n))
                } else {
                    None
                },
                None => None,
            },
            None => None,
        },
        None => None,
    }
}

fn signature_found(offset: &Option<String>, length: &Option<usize>) -> (r: Option<(u64, usize)>)
    ensures
        r == signature_at(*offset, *length),
{
    match offset {
        Some(s) => {
            let c = chars_of(s.as_str());
            match parse_u64(c.as_slice()) {
                Some(o) => match length {
                    Some(n) => if *n > 0 {
                        Some((o, *n))
                    } else {
                        None
                    },
                    None => None,
                },
                None => None,
            }
        },
        None => None,
    }
}

/// Erasing the signatures that are left, from the answer at `at` on.
pub open spec fn wipe_loop(log: Seq<WipeAnswer>, at: int) -> WipeStage
    decreases log.len() - at,
{
    if at >= log.len() {
        WipeStage::Probe
    } else {
        match log[at] {
            WipeAnswer::Probe { status, offset, length } => if status < 0 {
                WipeStage::Fail("blkid_do_probe error"@)
            } else if status != 0 {
                WipeStage::Done
            } else {
                match signature_at(offset, length) {
                    None => wipe_loop(log, at + 1),
                    Some((o, n)) => if at + 1 >= log.len() {
                        WipeStage::Zero { offset: o, length: n }
                    } else {
                        match log[at + 1] {
                            WipeAnswer::Zeroed(Ok(_)) => wipe_loop(log, at + 2),
                            WipeAnswer::Zeroed(Err(e)) => WipeStage::Fail(e@),
                            _ => WipeStage::Fail(unexpected()),
                        }
                    },
                }
            },
            _ => WipeStage::Fail(unexpected()),
        }
    }
}

/// Erasing the signatures on `device`.
pub open spec fn wipe_stage(device: Seq<char>, log: Seq<WipeAnswer>) -> WipeStage {
    if device.contains('\0') {
        WipeStage::Fail("device path contains a NUL byte"@)
    } else if log.len() == 0 {
        WipeStage::Open
    } else {
        match log[0] {
            WipeAnswer::Opened(true) => wipe_loop(log, 1),
            WipeAnswer::Opened(false) => WipeStage::Fail(
                "blkid_new_probe_from_filename failed for "@ + device,
            ),
            _ => WipeStage::Fail(unexpected()),
        }
    }
}

/// Erases the signatures of file systems and the like on `device`, by probing for
/// one after the other and zeroing it. A signature whose place is not given is
/// passed over; so that of a partition table stays, since a probe gives the place
/// of superblock signatures only.
pub fn wipefs(device: &str, log: &Vec<WipeAnswer>) -> (r: WipeStep)
    ensures
        r@ == wipe_stage(device@, log@),
{
    if has_nul(device) {
        return WipeStep::Fail(Error::new("device path contains a NUL byte"));
    }
    if log.len() == 0 {
        return WipeStep::Ask(WipeRequest::Open);
    }
    match &log[0] {
        WipeAnswer::Opened(true) => {},
        WipeAnswer::Opened(false) => {
            return WipeStep::Fail(
                Error(concat("blkid_new_probe_from_filename failed for ", device)),
            );
        },
        _ => {
            return WipeStep::Fail(unexpected_error());
        },
    }
    let mut at: usize = 1;
    while at < log.len()
        invariant
            1 <= at <= log@.len(),
            wipe_stage(device@, log@) == wipe_loop(log@, at as int),
        decreases log@.len() - at,
    {
        match &log[at] {
            WipeAnswer::Probe { status, offset, length } => {
                if *status < 0 {
                    return WipeStep::Fail(Error::new("blkid_do_probe error"));
                }
                if *status != 0 {
                    return WipeStep::Done;
                }
                match signature_found(offset, length) {
                    None => {
                        at = at + 1;
                    },
                    Some((o, n)) => {
                        if at + 1 >= log.len() {
                            return WipeStep::Ask(WipeRequest::Zero { offset: o, length: n });
                        }
                        match &log[at + 1] {
                            WipeAnswer::Zeroed(Ok(_)) => {
                                at = at + 2;
                            },
                            WipeAnswer::Zeroed(Err(e)) => {
                                return WipeStep::Fail(Error(e.clone()));
                            },
                            _ => {
                                return WipeStep::Fail(unexpected_error());
                            },
                        }
                    },
                }
            },
            _ => {
                return WipeStep::Fail(unexpected_error());
            },
        }
    }
    WipeStep::Ask(WipeRequest::Probe)
}

/// What is zeroed is the signature that was found last: a request to write zeros
/// comes right after a probe that found a signature at that place.
pub proof fn law_wipe_zeroes_what_was_found(
    device: Seq<char>,
    log: Seq<WipeAnswer>,
    offset: u64,
    length: usize,
)
    requires
        wipe_stage(device, log) == (WipeStage::Zero { offset, length }),
    ensures
        log.len() > 1,
        log.last() matches WipeAnswer::Probe { status, offset: o, length: n } && status == 0
            && signature_at(o, n) == Some((offset, length)),
{
    lemma_wipe_loop_zero(log, 1, offset, length);
}

proof fn lemma_wipe_loop_zero(log: Seq<WipeAnswer>, at: int, offset: u64, length: usize)
    requires
        1 <= at,
        wipe_loop(log, at) == (WipeStage::Zero { offset, length }),
    ensures
        at < log.len(),
        log.last() matches WipeAnswer::Probe { status, offset: o, length: n } && status == 0
            && signature_at(o, n) == Some((offset, length)),
    decreases log.len() - at,
{
    match log[at] {
        WipeAnswer::Probe { status, offset: o, length: n } => {
            match signature_at(o, n) {
                None => {
                    lemma_wipe_loop_zero(log, at + 1, offset, length);
                },
                Some(_) => {
                    if at + 1 < log.len() {
                        lemma_wipe_loop_zero(log, at + 2, offset, length);
                    }
                },
            }
        },
        _ => {},
    }
}

// ---------------------------------------------------------------------------
// Events of the kernel
// ---------------------------------------------------------------------------

/// An event about a block device: whether it was added, and its name, if that is
/// text.
pub struct BlockEvent {
    pub added: bool,
    pub name: Option<String>,
}

/// What comes of a [`UdevStep`].
pub enum UdevAnswer {
    /// Whether it is possible to listen.
    Listening(bool),
    /// The work is done.
    Ack,
    /// The time is up, or the wait failed.
    Expired,
    /// Events came.
    Events(Vec<BlockEvent>),
}

/// What comes next in the wait for the event of a new partition.
pub enum UdevStep {
    /// Listen to the kernel's events about block devices: [`UdevAnswer::Listening`].
    Listen,
    /// Have the partition table read again; the answer does not matter.
    Reprobe,
    /// Wait for events, for the rest of [`UDEV_WAIT_TIMEOUT`] milliseconds:
    /// [`UdevAnswer::Expired`] or [`UdevAnswer::Events`].
    Wait,
    /// The wait is over; false if it was not possible to listen.
    Done(bool),
}

/// Whether the event says that `partition` was added.
pub open spec fn announces(e: BlockEvent, partition: Seq<char>) -> bool {
    e.added && opt_text(e.name) == Some(base_of(partition))
}

/// The wait, from the answer at `at` on.
pub open spec fn udev_loop(partition: Seq<char>, log: Seq<UdevAnswer>, at: int) -> UdevStep
    decreases log.len() - at,
{
    if at >= log.len() {
        UdevStep::Wait
    } else {
        match log[at] {
            UdevAnswer::Events(v) => if exists|k: int|
                0 <= k < v@.len() && announces(#[trigger] v@[k], partition) {
                UdevStep::Done(true)
            } else {
                udev_loop(partition, log, at + 1)
            },
            _ => UdevStep::Done(true),
        }
    }
}

/// The wait for the event of `partition`. The listening begins before the table
/// is read again, so that the event is not missed.
pub open spec fn udev_step(partition: Seq<char>, log: Seq<UdevAnswer>) -> UdevStep {
    if log.len() == 0 {
        UdevStep::Listen
    } else if log[0] != UdevAnswer::Listening(true) {
        UdevStep::Done(false)
    } else if log.len() == 1 {
        UdevStep::Reprobe
    } else {
        udev_loop(partition, log, 2)
    }
}

fn any_announces(events: &Vec<BlockEvent>, partition: &str) -> (r: bool)
    ensures
        r == exists|k: int| 0 <= k < events@.len() && announces(#[trigger] events@[k], partition@),
{
    let base = basename(partition);
    for i in 0..events.len()
        invariant
            base@ == base_of(partition@),
            forall|k: int| 0 <= k < i ==> !announces(#[trigger] events@[k], partition@),
    {
        let found = match &events[i].name {
            Some(name) => str_eq(name.as_str(), base.as_str()),
            None => false,
        };
        if events[i].added && found {
            assert(announces(events@[i as int], partition@));
            return true;
        }
    }
    false
}

/// Waits for the kernel's event that `partition` was added. That the wait is over
/// does not say that the node is there.
pub fn udev_wait_for_partition(partition: &str, log: &Vec<UdevAnswer>) -> (r: UdevStep)
    ensures
        r == udev_step(partition@, log@),
        r matches UdevStep::Done(b) ==> log@.len() > 0 && b == (log@[0]
            == UdevAnswer::Listening(true)),
{
    if log.len() == 0 {
        return UdevStep::Listen;
    }
    match &log[0] {
        UdevAnswer::Listening(true) => {},
        _ => {
            return UdevStep::Done(false);
        },
    }
    if log.len() == 1 {
        return UdevStep::Reprobe;
    }
    let mut at: usize = 2;
    while at < log.len()
        invariant
            2 <= at <= log@.len(),
            log@[0] == UdevAnswer::Listening(true),
            udev_step(partition@, log@) == udev_loop(partition@, log@, at as int),
        decreases log@.len() - at,
    {
        match &log[at] {
            UdevAnswer::Events(v) => {
                if any_announces(v, partition) {
                    return UdevStep::Done(true);
                }
            },
            _ => {
                return UdevStep::Done(true);
            },
        }
        at = at + 1;
    }
    UdevStep::Wait
}

// ---------------------------------------------------------------------------
// Waiting for a partition
// ---------------------------------------------------------------------------

/// How often the node of a new partition is looked for where the kernel's events
/// cannot be listened to.
pub const FALLBACK_POLL_ITERATIONS: u32 = 20;

/// The pause between two looks, in milliseconds.
pub const FALLBACK_POLL_INTERVAL: u64 = 500;

/// How long the kernel's event is waited for, in milliseconds.
pub const UDEV_WAIT_TIMEOUT: u64 = 10_000;

/// What to do next while waiting for a node. Every request is answered with a
/// truth value.
#[derive(Clone, Copy, PartialEq, Eq, Structural)]
pub enum NodeStep {
    /// Wait for the kernel's event; false if that is not possible.
    Settle,
    /// Is the node there?
    Exists,
    /// Have the partition table read again, and pause; the answer does not matter.
    Reprobe,
    /// The node is there, or it is not.
    Done(bool),
}

/// Looking for the node up to `n` more times, with a pause after each, and once
/// more at the end.
pub open spec fn poll_node(n: nat, log: Seq<bool>, at: int) -> NodeStep
    decreases n,
{
    if at >= log.len() {
        NodeStep::Exists
    } else if n == 0 || log[at] {
        NodeStep::Done(log[at])
    } else if at + 1 >= log.len() {
        NodeStep::Reprobe
    } else {
        poll_node((n - 1) as nat, log, at + 2)
    }
}

/// Waiting for a node: for the event, and else by looking.
pub open spec fn wait_step(n: nat, log: Seq<bool>) -> NodeStep {
    if log.len() == 0 {
        NodeStep::Settle
    } else if log[0] {
        if log.len() == 1 {
            NodeStep::Exists
        } else {
            NodeStep::Done(log[1])
        }
    } else {
        poll_node(n, log, 1)
    }
}

/// Waits for the node of a new partition: for the kernel's event, and where that
/// is not possible by looking up to `fallback_iterations` times.
pub fn wait_for_node(fallback_iterations: u32, log: &Vec<bool>) -> (r: NodeStep)
    ensures
        r == wait_step(fallback_iterations as nat, log@),
{
    if log.len() == 0 {
        return NodeStep::Settle;
    }
    if log[0] {
        if log.len() == 1 {
            return NodeStep::Exists;
        }
        return NodeStep::Done(log[1]);
    }
    let mut n: u32 = fallback_iterations;
    let mut at: usize = 1;
    while at < log.len()
        invariant
            1 <= at <= log@.len(),
            log@.len() > 0 && !log@[0],
            wait_step(fallback_iterations as nat, log@) == poll_node(n as nat, log@, at as int),
        decreases n, log@.len() - at,
    {
        if n == 0 || log[at] {
            return NodeStep::Done(log[at]);
        }
        if at + 1 >= log.len() {
            return NodeStep::Reprobe;
        }
        n = n - 1;
        at = at + 2;
    }
    NodeStep::Exists
}

/// The wait always ends by the last look: with two answers for each of the looks
/// that are allowed, and two more, the result is there.
pub proof fn law_wait_ends(n: nat, log: Seq<bool>)
    requires
        log.len() >= 2 * n + 2,
    ensures
        wait_step(n, log) is Done,
{
    lemma_poll_ends(n, log, 1);
}

proof fn lemma_poll_ends(n: nat, log: Seq<bool>, at: int)
    requires
        1 <= at,
        at + 2 * n < log.len(),
    ensures
        poll_node(n, log, at) is Done,
    decreases n,
{
    if n > 0 && !log[at] {
        lemma_poll_ends((n - 1) as nat, log, at + 2);
    }
}

// ---------------------------------------------------------------------------
// Image files
// ---------------------------------------------------------------------------

/// Making an image file of `size_mb` MiB.
pub open spec fn create_image_stage(
    path: Seq<char>,
    size_mb: i32,
    log: Seq<Answer>,
    at: int,
) -> Stage<()> {
    if !(1 <= size_mb <= 8192) {
        Stage::Fail("size_mb must be between 1 and 8192, got "@ + dec(size_mb as int))
    } else {
        outcome_stage(
            Ask::CreateFile { path, last: (size_mb * 1024 * 1024 - 1) as u64 },
            ""@,
            log,
            at,
        )
    }
}

/// Makes a sparse image file of `size_mb` MiB, 1 to 8192.
pub fn create_image_file(path: &str, size_mb: i32, log: &Vec<Answer>, at: usize) -> (r: Step<()>)
    ensures
        r@ == create_image_stage(path@, size_mb, log@, at as int),
{
    if size_mb < 1 || size_mb > 8192 {
        let n = dec_i64(size_mb as i64);
        return Step::Fail(
            Error(concat("size_mb must be between 1 and 8192, got ", n.as_str())),
        );
    }
    if at >= log.len() {
        return Step::Ask(
            Request::CreateFile {
                path: path.to_string(),
                last: size_mb as u64 * 1024 * 1024 - 1,
            },
        );
    }
    outcome_answer("", log, at)
}

// ---------------------------------------------------------------------------
// Removable media
// ---------------------------------------------------------------------------

/// Formatting `device` as a LUKS2 volume: with a keyslot for `passphrase`, or
/// without a keyslot if that is empty. Gives the keyslot, or -1.
pub open spec fn container_stage(
    device: Seq<char>,
    passphrase: Seq<char>,
    area: KeyslotsArea,
    log: Seq<Answer>,
    at: int,
) -> Stage<i32> {
    if passphrase.len() == 0 {
        match format_keyless_stage(device, area, log, at) {
            Stage::Ask(r) => Stage::Ask(r),
            Stage::Fail(e) => Stage::Fail(e),
            Stage::Done(_, n) => Stage::Done(-1i32, n),
        }
    } else {
        format_stage(device, passphrase, area, log, at)
    }
}

/// Formats `device` as a LUKS2 volume. An empty passphrase means no keyslot: the
/// volume key is cached, and the first enrollment uses it.
pub fn format_container(
    device: &str,
    passphrase: &str,
    area: KeyslotsArea,
    log: &Vec<Answer>,
    at: usize,
) -> (r: Step<i32>)
    ensures
        r@ == container_stage(device@, passphrase@, area, log@, at as int),
{
    if passphrase.is_empty() {
        match format_luks2_keyless(device, area, log, at) {
            Step::Ask(r) => Step::Ask(r),
            Step::Fail(e) => Step::Fail(e),
            Step::Done(_, n) => Step::Done(-1, n),
        }
    } else {
        crate::volume::format_luks2(device, passphrase, area, log, at)
    }
}

/// The partition that was formatted, or what went wrong.
pub struct Formatted(pub Result<String, String>);

impl View for Formatted {
    type V = Result<Seq<char>, Seq<char>>;

    open spec fn view(&self) -> Result<Seq<char>, Seq<char>> {
        match self.0 {
            Ok(s) => Ok(s@),
            Err(e) => Err(e@),
        }
    }
}

/// Writing the LUKS2 header to `node`.
pub open spec fn luks_format_turn(
    node: Seq<char>,
    passphrase: Seq<char>,
    log: Seq<Answer>,
    at: int,
) -> Turn<Result<Seq<char>, Seq<char>>> {
    match container_stage(node, passphrase, KeyslotsArea::Compact, log, at) {
        Stage::Ask(r) => Turn::Ask(r),
        Stage::Fail(e) => Turn::Done(Err("luksFormat failed: "@ + e)),
        Stage::Done(_, _) => Turn::Done(Ok(node)),
    }
}

/// Formatting a removable device: a partition is wiped and formatted; a whole
/// disk is wiped, gets a partition table with one partition, and that is
/// formatted once its node is there. What is not removable is refused.
pub open spec fn format_turn(
    device: Seq<char>,
    passphrase: Seq<char>,
    is_removable: bool,
    is_partition: bool,
    log: Seq<Answer>,
) -> Turn<Result<Seq<char>, Seq<char>>> {
    if !is_removable {
        Turn::Done(Err("Refusing to format non-removable device"@))
    } else {
        match outcome_stage(Ask::Wipefs { device }, "wipefs failed: "@, log, 0) {
            Stage::Ask(r) => Turn::Ask(r),
            Stage::Fail(e) => Turn::Done(Err(e)),
            Stage::Done(_, n) => if is_partition {
                luks_format_turn(device, passphrase, log, n)
            } else {
                match outcome_stage(
                    Ask::Partition { device },
                    "GPT partitioning failed: "@,
                    log,
                    n,
                ) {
                    Stage::Ask(r) => Turn::Ask(r),
                    Stage::Fail(e) => Turn::Done(Err(e)),
                    Stage::Done(_, m) => {
                        let node = first_partition(device);
                        match flag_stage(Ask::WaitForNode { device, partition: node }, log, m) {
                            Stage::Ask(r) => Turn::Ask(r),
                            Stage::Fail(e) => Turn::Done(Err(e)),
                            Stage::Done(there, k) => if there {
                                luks_format_turn(node, passphrase, log, k)
                            } else {
                                Turn::Done(
                                    Err("Partition "@ + node + " did not appear after formatting"@),
                                )
                            },
                        }
                    },
                }
            },
        }
    }
}

fn luks_format(node: &str, passphrase: &str, log: &Vec<Answer>, at: usize) -> (r: Next<Formatted>)
    ensures
        r@ == luks_format_turn(node@, passphrase@, log@, at as int),
{
    match format_container(node, passphrase, KeyslotsArea::Compact, log, at) {
        Step::Ask(r) => Next::Ask(r),
        Step::Fail(e) => Next::Done(Formatted(Err(concat("luksFormat failed: ", e.0.as_str())))),
        Step::Done(_, _) => Next::Done(Formatted(Ok(node.to_string()))),
    }
}

fn format_checked(
    device: &str,
    passphrase: &str,
    is_removable: bool,
    is_partition: bool,
    log: &Vec<Answer>,
) -> (r: Next<Formatted>)
    ensures
        r@ == format_turn(device@, passphrase@, is_removable, is_partition, log@),
{
    if !is_removable {
        return Next::Done(
            Formatted(Err("Refusing to format non-removable device".to_string())),
        );
    }
    if log.len() == 0 {
        return Next::Ask(Request::Wipefs { device: device.to_string() });
    }
    let n = match outcome_answer("wipefs failed: ", log, 0) {
        Step::Ask(r) => {
            return Next::Ask(r);
        },
        Step::Fail(e) => {
            return Next::Done(Formatted(Err(e.0)));
        },
        Step::Done(_, n) => n,
    };
    if is_partition {
        return luks_format(device, passphrase, log, n);
    }
    if n >= log.len() {
        return Next::Ask(Request::Partition { device: device.to_string() });
    }
    let m = match outcome_answer("GPT partitioning failed: ", log, n) {
        Step::Ask(r) => {
            return Next::Ask(r);
        },
        Step::Fail(e) => {
            return Next::Done(Formatted(Err(e.0)));
        },
        Step::Done(_, m) => m,
    };
    let node = first_partition_node(device);
    if m >= log.len() {
        return Next::Ask(
            Request::WaitForNode { device: device.to_string(), partition: node },
        );
    }
    match &log[m] {
        Answer::Flag(true) => luks_format(node.as_str(), passphrase, log, m + 1),
        Answer::Flag(false) => Next::Done(
            Formatted(
                Err(concat3("Partition ", node.as_str(), " did not appear after formatting")),
            ),
        ),
        _ => {
            let e = unexpected_error();
            Next::Done(Formatted(Err(e.0)))
        },
    }
}

/// What formatting reads of the machine: whether the device is removable and,
/// where it is, whether it is a partition.
pub open spec fn format_reads(w: World, device: Seq<char>) -> Seq<Query> {
    if removable(w, device) {
        seq![removable_file(device), partition_link(device)]
    } else {
        seq![removable_file(device)]
    }
}

proof fn lemma_format_open(k: Knowledge, device: Seq<char>)
    ensures
        forall|w: World|
            first_open(k, #[trigger] format_reads(w, device)) == if !k.knows(
                removable_file(device),
            ) {
                Some(removable_file(device))
            } else if removable(w, device) && !k.knows(partition_link(device)) {
                Some(partition_link(device))
            } else {
                None
            },
{
    let a = removable_file(device);
    let b = partition_link(device);
    lemma_open_one(k, a);
    lemma_open_cons(k, a, seq![b]);
    lemma_open_one(k, b);
    assert(seq![a] + seq![b] =~= seq![a, b]);
}

/// Formats a removable device as a LUKS2 volume, and gives the partition.
pub fn format_removable_partition(
    facts: &Facts,
    device: &str,
    passphrase: &str,
    log: &Vec<Answer>,
) -> (r: Found<Next<Formatted>>)
    ensures
        match r {
            Found::Ready(next) => settled(facts@, |w: World| format_reads(w, device@)) && holds(
                facts@,
                next@,
                |w: World| format_turn(
                    device@,
                    passphrase@,
                    removable(w, device@),
                    partition(w, device@),
                    log@,
                ),
            ),
            Found::Need(q) => asks(facts@, q@, |w: World| format_reads(w, device@)),
        },
{
    proof {
        lemma_format_open(facts@, device@);
    }
    let removable = match is_removable(facts, device) {
        Found::Ready(b) => b,
        Found::Need(q) => {
            return Found::Need(q);
        },
    };
    if !removable {
        return Found::Ready(format_checked(device, passphrase, false, false, log));
    }
    let partition = match is_partition(facts, device) {
        Found::Ready(b) => b,
        Found::Need(q) => {
            return Found::Need(q);
        },
    };
    Found::Ready(format_checked(device, passphrase, true, partition, log))
}

/// A device that is not removable is never touched, whatever the answers.
pub proof fn law_fixed_disks_are_safe(
    device: Seq<char>,
    passphrase: Seq<char>,
    is_partition: bool,
    log: Seq<Answer>,
)
    ensures
        format_turn(device, passphrase, false, is_partition, log) == Turn::<
            Result<Seq<char>, Seq<char>>,
        >::Done(Err("Refusing to format non-removable device"@)),
{
}

/// An empty passphrase never makes a keyslot: formatting without one asks for a
/// header and for the volume key to be cached, and for nothing else.
pub proof fn law_keyless_makes_no_keyslot(
    device: Seq<char>,
    area: KeyslotsArea,
    log: Seq<Answer>,
    at: int,
)
    ensures
        match container_stage(device, ""@, area, log, at) {
            Stage::Ask(a) => a == (Ask::Format { device, area }) || a is CacheKey,
            Stage::Fail(_) => true,
            Stage::Done(slot, n) => slot == -1 && n == at + 2,
        },
{
    reveal_strlit("");
}

} // verus!
