//! What is done to a disk: the laws of erasing signatures, of writing a partition table
//! and of waiting for the partition, stated over the requests and the answers.

use vstd::prelude::*;

use crate::devices::base_of;
use crate::format::{
    announces, law_partition_takes_the_largest_span, poll_node, signature_at, table_stage,
    udev_loop, udev_step, wait_step, wipe_loop, wipe_stage, BlockEvent, NodeStep, TableAnswer,
    TableStage, UdevAnswer, UdevStep, WipeAnswer, WipeStage,
};
use crate::text::{parse_u64_spec, trim};

verus! {

// ---------------------------------------------------------------------------
// Partition table
// ---------------------------------------------------------------------------

/// Whether the text in the answer is the number 4096, but for white space around it.
pub open spec fn says_large_blocks(answer: TableAnswer) -> bool {
    answer matches TableAnswer::Text(Some(s)) && parse_u64_spec(trim(s@)) == Some(4096u64)
}

/// Whether `size` is the block size of the disk, by the answer about it.
pub open spec fn is_block_size(answer: TableAnswer, size: int) -> bool {
    if says_large_blocks(answer) {
        size == 4096
    } else {
        size == 512
    }
}

/// Whether the answer says that the work was done.
pub open spec fn was_done(answer: TableAnswer) -> bool {
    answer matches TableAnswer::Outcome(Ok(_))
}

/// Whether `blocks` is what the protective entry of a disk of `disk_len` bytes covers: all
/// blocks but the first, as far as 32 bits go.
pub open spec fn protects(blocks: u32, disk_len: u64, size: int) -> bool {
    let last = disk_len as int / size - 1;
    ||| blocks == last
    ||| blocks == u32::MAX && last > u32::MAX
    ||| blocks == 0 && last < 0
}

/// The free spans that the answer gives.
pub open spec fn spans_in(answer: TableAnswer) -> Seq<(u64, u64)> {
    answer->Spans_0->Ok_0@
}

/// Partitioning a disk: a protective MBR that covers the disk is written before a GPT is
/// begun, in blocks of the size that the disk has; the longest free span becomes the
/// partition; and it is reported as done only once the table was written and is on the
/// disk. It fails only where a request was not met, or no span is free.
pub proof fn law_table(device: Seq<char>, log: Seq<TableAnswer>)
    ensures
        ({
            let n = log.len();
            let opened = n > 1 && log[0] is Text && log[1] is Length && log[1]->Length_0 is Ok;
            let begun = opened && n > 3 && was_done(log[2]) && log[3] is Spans
                && log[3]->Spans_0 is Ok && spans_in(log[3]).len() > 0;
            match table_stage(device, log) {
                TableStage::Sysfs { path } => n == 0 && path == "/sys/block/"@ + base_of(device)
                    + "/queue/logical_block_size"@,
                TableStage::Open => n == 1 && log[0] is Text,
                TableStage::Protect { blocks } => n == 2 && opened && exists|size: int|
                    #[trigger] is_block_size(log[0], size) && protects(
                        blocks,
                        log[1]->Length_0->Ok_0,
                        size,
                    ),
                TableStage::Create { block_size } => n == 3 && opened && was_done(log[2])
                    && is_block_size(log[0], block_size as int),
                TableStage::Add { first, length } => {
                    &&& n == 4 && begun
                    &&& spans_in(log[3]).contains((first, length))
                    &&& forall|k: int|
                        0 <= k < spans_in(log[3]).len() ==> (#[trigger] spans_in(log[3])[k]).1
                            <= length
                },
                TableStage::Write => n == 5 && begun && was_done(log[4]),
                TableStage::Sync => n == 6 && begun && was_done(log[4]) && was_done(log[5]),
                TableStage::Done => n > 6 && begun && was_done(log[4]) && was_done(log[5])
                    && was_done(log[6]),
                TableStage::Fail(_) => {
                    ||| n > 0 && !(log[0] is Text)
                    ||| n > 1 && !opened
                    ||| n > 2 && !was_done(log[2])
                    ||| n > 3 && !begun
                    ||| n > 4 && !was_done(log[4])
                    ||| n > 5 && !was_done(log[5])
                    ||| n > 6 && !was_done(log[6])
                },
            }
        }),
{
    match table_stage(device, log) {
        TableStage::Protect { blocks } => {
            let size = if says_large_blocks(log[0]) {
                4096int
            } else {
                512int
            };
            assert(is_block_size(log[0], size));
        },
        TableStage::Add { first, length } => {
            law_partition_takes_the_largest_span(device, log, first, length);
        },
        _ => {},
    }
}

// ---------------------------------------------------------------------------
// Signatures
// ---------------------------------------------------------------------------

/// Whether the probe found a signature of `length` bytes at `offset`.
pub open spec fn finds_signature(answer: WipeAnswer, offset: u64, length: usize) -> bool {
    match answer {
        WipeAnswer::Probe { status, offset: Some(o), length: Some(n) } => status == 0 && n == length
            && n > 0 && parse_u64_spec(o@) == Some(offset),
        _ => false,
    }
}

/// Whether the probe found a signature and says where it is.
pub open spec fn is_found(answer: WipeAnswer) -> bool {
    match answer {
        WipeAnswer::Probe { status, offset: Some(o), length: Some(n) } => status == 0 && n > 0
            && parse_u64_spec(o@) is Some,
        _ => false,
    }
}

/// Whether all signatures that were found by the answers from `at` to `n` were erased.
pub open spec fn all_erased(log: Seq<WipeAnswer>, at: int, n: int) -> bool {
    forall|k: int, offset: u64, length: usize|
        at <= k < n && #[trigger] finds_signature(log[k], offset, length) ==> k + 1 < n && (log[k
            + 1] matches WipeAnswer::Zeroed(Ok(_)))
}

/// Whether the answer says that nothing more was found.
pub open spec fn is_last_probe(answer: WipeAnswer) -> bool {
    answer matches WipeAnswer::Probe { status, .. } && status > 0
}

/// Whether the answer keeps the erasing from going on.
pub open spec fn stops_erasing(answer: WipeAnswer) -> bool {
    match answer {
        WipeAnswer::Opened(ok) => !ok,
        WipeAnswer::Probe { status, .. } => status < 0,
        WipeAnswer::Zeroed(r) => r is Err,
    }
}

proof fn lemma_wipe_loop(log: Seq<WipeAnswer>, at: int)
    requires
        1 <= at <= log.len(),
        !is_found(log[at - 1]),
    ensures
        match wipe_loop(log, at) {
            WipeStage::Open => false,
            WipeStage::Probe => all_erased(log, at, log.len() as int),
            WipeStage::Zero { offset, length } => {
                &&& at < log.len()
                &&& finds_signature(log.last(), offset, length)
                &&& all_erased(log, at, log.len() - 1)
            },
            WipeStage::Done => exists|n: int|
                at <= n < log.len() && #[trigger] is_last_probe(log[n]) && all_erased(log, at, n),
            WipeStage::Fail(_) => exists|k: int|
                at <= k < log.len() && (stops_erasing(#[trigger] log[k]) || out_of_place(log, k)),
        },
    decreases log.len() - at,
{
    if at < log.len() {
        match log[at] {
            WipeAnswer::Probe { status, offset, length } => {
                if status < 0 {
                    assert(stops_erasing(log[at]));
                } else if status != 0 {
                    assert(is_last_probe(log[at]));
                    assert(all_erased(log, at, at));
                } else {
                    match signature_at(offset, length) {
                        None => {
                            lemma_wipe_loop(log, at + 1);
                            lemma_erased_more(log, at, at + 1);
                        },
                        Some((o, n)) => {
                            assert(finds_signature(log[at], o, n));
                            if at + 1 < log.len() {
                                match log[at + 1] {
                                    WipeAnswer::Zeroed(Ok(_)) => {
                                        lemma_wipe_loop(log, at + 2);
                                        lemma_erased_more(log, at, at + 2);
                                    },
                                    WipeAnswer::Zeroed(Err(_)) => {
                                        assert(stops_erasing(log[at + 1]));
                                    },
                                    _ => {
                                        assert(out_of_place(log, at + 1));
                                    },
                                }
                            }
                        },
                    }
                }
            },
            _ => {
                assert(out_of_place(log, at));
            },
        }
    }
}

/// Whether the answer at `k` is no answer to what was asked: a signature was found, and
/// no word of its being erased follows, or none was, and no probe follows.
pub open spec fn out_of_place(log: Seq<WipeAnswer>, k: int) -> bool {
    &&& 0 < k < log.len()
    &&& if is_found(log[k - 1]) {
        !(log[k] is Zeroed)
    } else {
        !(log[k] is Probe)
    }
}

proof fn lemma_erased_more(log: Seq<WipeAnswer>, at: int, next: int)
    requires
        0 <= at < next <= at + 2,
        next == at + 2 ==> at + 1 < log.len() && (log[at + 1] matches WipeAnswer::Zeroed(Ok(_))),
        next == at + 1 ==> !is_found(log[at]),
    ensures
        forall|n: int| next <= n && #[trigger] all_erased(log, next, n) ==> all_erased(log, at, n),
{
    assert forall|n: int| next <= n && #[trigger] all_erased(log, next, n) implies all_erased(
        log,
        at,
        n,
    ) by {
        assert forall|k: int, offset: u64, length: usize|
            at <= k < n && #[trigger] finds_signature(log[k], offset, length) implies k + 1 < n && (
        log[k + 1] matches WipeAnswer::Zeroed(Ok(_))) by {}
    }
}

/// Erasing the signatures on a device: what is overwritten is just what a probe found, in
/// its place and its length; the device is probed again only once that is done, and it is
/// reported as done only once a probe found nothing more. It fails only where a request
/// was not met, or the path of the device has a NUL in it.
pub proof fn law_wipefs(device: Seq<char>, log: Seq<WipeAnswer>)
    ensures
        match wipe_stage(device, log) {
            WipeStage::Open => log.len() == 0,
            WipeStage::Probe => log.len() > 0 && log[0] == WipeAnswer::Opened(true) && all_erased(
                log,
                1,
                log.len() as int,
            ),
            WipeStage::Zero { offset, length } => {
                &&& log.len() > 1 && log[0] == WipeAnswer::Opened(true)
                &&& finds_signature(log.last(), offset, length)
                &&& all_erased(log, 1, log.len() - 1)
            },
            WipeStage::Done => exists|n: int|
                1 <= n < log.len() && #[trigger] is_last_probe(log[n]) && all_erased(log, 1, n),
            WipeStage::Fail(_) => {
                ||| device.contains('\0')
                ||| log.len() > 0 && log[0] != WipeAnswer::Opened(true)
                ||| exists|k: int|
                    1 <= k < log.len() && (stops_erasing(#[trigger] log[k]) || out_of_place(
                        log,
                        k,
                    ))
            },
        },
{
    if !device.contains('\0') && log.len() > 0 && log[0] == WipeAnswer::Opened(true) {
        lemma_wipe_loop(log, 1);
    }
}

// ---------------------------------------------------------------------------
// Waiting for a partition
// ---------------------------------------------------------------------------

/// Whether the event says that the block device `name` was added.
pub open spec fn says_added(e: BlockEvent, name: Seq<char>) -> bool {
    e.added && e.name is Some && e.name->Some_0@ == name
}

/// Whether the answer brings events, and none of them says that `name` was added.
pub open spec fn brings_others(answer: UdevAnswer, name: Seq<char>) -> bool {
    answer matches UdevAnswer::Events(v) && forall|k: int|
        0 <= k < v@.len() ==> !says_added(#[trigger] v@[k], name)
}

/// Whether the answer brings the event that `name` was added.
pub open spec fn brings_it(answer: UdevAnswer, name: Seq<char>) -> bool {
    answer matches UdevAnswer::Events(v) && exists|k: int|
        0 <= k < v@.len() && says_added(#[trigger] v@[k], name)
}

proof fn lemma_udev_loop(partition: Seq<char>, log: Seq<UdevAnswer>, at: int)
    requires
        0 <= at,
    ensures
        match udev_loop(partition, log, at) {
            UdevStep::Wait => forall|k: int|
                at <= k < log.len() ==> brings_others(#[trigger] log[k], base_of(partition)),
            UdevStep::Done(b) => b && exists|n: int|
                at <= n < log.len() && ends_wait(#[trigger] log[n], base_of(partition)) && forall|
                    k: int,
                |
                    at <= k < n ==> brings_others(#[trigger] log[k], base_of(partition)),
            _ => false,
        },
    decreases log.len() - at,
{
    let name = base_of(partition);
    if at < log.len() {
        match log[at] {
            UdevAnswer::Events(v) => {
                if exists|k: int|
                    0 <= k < v@.len() && announces(#[trigger] v@[k], partition) {
                    let k = choose|k: int|
                        0 <= k < v@.len() && announces(#[trigger] v@[k], partition);
                    assert(says_added(v@[k], name));
                    assert(ends_wait(log[at], name));
                } else {
                    assert forall|k: int| 0 <= k < v@.len() implies !says_added(
                        #[trigger] v@[k],
                        name,
                    ) by {
                        assert(!announces(v@[k], partition));
                    }
                    assert(brings_others(log[at], name));
                    lemma_udev_loop(partition, log, at + 1);
                    match udev_loop(partition, log, at + 1) {
                        UdevStep::Done(_) => {
                            let n = choose|n: int|
                                at + 1 <= n < log.len() && ends_wait(#[trigger] log[n], name)
                                    && forall|k: int|
                                    at + 1 <= k < n ==> brings_others(#[trigger] log[k], name);
                            assert(ends_wait(log[n], name));
                        },
                        _ => {},
                    }
                }
            },
            _ => {
                assert(ends_wait(log[at], name));
            },
        }
    }
}

/// Whether the answer ends the wait for `name`: it brings the event, or it brings none.
pub open spec fn ends_wait(answer: UdevAnswer, name: Seq<char>) -> bool {
    brings_it(answer, name) || !(answer is Events)
}

/// Waiting for the event of a partition: the listening begins before the table is read
/// again; the wait goes on while the events are about others, and is over once the event
/// came or no events come any more.
pub proof fn law_udev_wait(partition: Seq<char>, log: Seq<UdevAnswer>)
    ensures
        ({
            let name = base_of(partition);
            let listening = log.len() > 0 && log[0] == UdevAnswer::Listening(true);
            match udev_step(partition, log) {
                UdevStep::Listen => log.len() == 0,
                UdevStep::Reprobe => log.len() == 1 && listening,
                UdevStep::Wait => log.len() > 1 && listening && forall|k: int|
                    2 <= k < log.len() ==> brings_others(#[trigger] log[k], name),
                UdevStep::Done(b) => {
                    &&& log.len() > 0 && b == listening
                    &&& b ==> exists|n: int|
                        2 <= n < log.len() && ends_wait(#[trigger] log[n], name) && forall|k: int|
                            2 <= k < n ==> brings_others(#[trigger] log[k], name)
                },
            }
        }),
{
    if log.len() > 1 {
        lemma_udev_loop(partition, log, 2);
    }
}

proof fn lemma_poll(n: nat, log: Seq<bool>, at: int)
    requires
        1 <= at,
    ensures
        match poll_node(n, log, at) {
            NodeStep::Settle => false,
            NodeStep::Exists => true,
            NodeStep::Reprobe => at < log.len() && (log.len() - at) % 2 == 1 && !log.last(),
            NodeStep::Done(b) => exists|k: int|
                at <= k < log.len() && (k - at) % 2 == 0 && #[trigger] log[k] == b && (!b ==> k
                    == at + 2 * n) && forall|j: int|
                    at <= j < k && (j - at) % 2 == 0 ==> !#[trigger] log[j],
        },
        poll_node(n, log, at) is Exists && at <= log.len() ==> (log.len() - at) % 2 == 0
            && forall|j: int|
            at <= j < log.len() && (j - at) % 2 == 0 ==> !#[trigger] log[j],
    decreases n,
{
    if at < log.len() {
        if n == 0 || log[at] {
            assert(log[at] == log[at]);
        } else if at + 1 < log.len() {
            lemma_poll((n - 1) as nat, log, at + 2);
            match poll_node((n - 1) as nat, log, at + 2) {
                NodeStep::Done(b) => {
                    let k = choose|k: int|
                        at + 2 <= k < log.len() && (k - (at + 2)) % 2 == 0 && #[trigger] log[k]
                            == b && (!b ==> k == at + 2 + 2 * (n - 1)) && forall|j: int|
                            at + 2 <= j < k && (j - (at + 2)) % 2 == 0 ==> !#[trigger] log[j];
                    assert((k - at) % 2 == 0);
                    assert(log[k] == b);
                    assert forall|j: int|
                        at <= j < k && (j - at) % 2 == 0 implies !#[trigger] log[j] by {
                        if j > at {
                            assert(j != at + 1);
                            assert((j - (at + 2)) % 2 == 0);
                        }
                    }
                },
                NodeStep::Exists => {
                    if at + 2 <= log.len() {
                        assert forall|j: int| at <= j < log.len() && (j - at) % 2 == 0 implies
                            !#[trigger] log[j] by {
                            if j > at {
                                assert(j != at + 1);
                                assert((j - (at + 2)) % 2 == 0);
                            }
                        }
                    }
                },
                _ => {},
            }
        }
    }
}

/// Waiting for a node: where the event can be waited for, one look at the node behind it
/// decides; else it is looked for again and again, and the first look that finds it
/// decides, or the one behind the last pause.
pub proof fn law_wait_for_node(n: nat, log: Seq<bool>)
    ensures
        match wait_step(n, log) {
            NodeStep::Settle => log.len() == 0,
            NodeStep::Exists => log.len() % 2 == 1 && forall|j: int|
                1 <= j < log.len() && j % 2 == 1 ==> !#[trigger] log[j],
            NodeStep::Reprobe => log.len() > 1 && log.len() % 2 == 0 && !log[0] && !log.last(),
            NodeStep::Done(b) => {
                &&& log.len() > 1
                &&& log[0] ==> b == log[1]
                &&& !log[0] ==> exists|k: int|
                    1 <= k < log.len() && k % 2 == 1 && #[trigger] log[k] == b && (!b ==> k == 1
                        + 2 * n) && forall|j: int|
                        1 <= j < k && j % 2 == 1 ==> !#[trigger] log[j]
            },
        },
{
    if log.len() > 0 && !log[0] {
        lemma_poll(n, log, 1);
        match poll_node(n, log, 1) {
            NodeStep::Done(b) => {
                let k = choose|k: int|
                    1 <= k < log.len() && (k - 1) % 2 == 0 && #[trigger] log[k] == b && (!b ==> k
                        == 1 + 2 * n) && forall|j: int|
                        1 <= j < k && (j - 1) % 2 == 0 ==> !#[trigger] log[j];
                assert(k % 2 == 1);
                assert forall|j: int| 1 <= j < k && j % 2 == 1 implies !#[trigger] log[j] by {
                    assert((j - 1) % 2 == 0);
                }
                assert(log[k] == b);
            },
            NodeStep::Exists => {
                assert forall|j: int| 1 <= j < log.len() && j % 2 == 1 implies !#[trigger] log[j] by {
                    assert((j - 1) % 2 == 0);
                }
            },
            _ => {},
        }
    }
}

} // verus!
