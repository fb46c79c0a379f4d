//! How the volume key is taken out of a header with the secret of a token, and how enrolled
//! FIDO2 devices are looked for: the laws of which keyslots and credentials are tried, in
//! which order, and when it is given up.

use vstd::prelude::*;

use crate::headers::{is_token_entry, law_listed_tokens};
use crate::host::{Answer, Ask, Stage, Turn};
use crate::json::Members;
use crate::luks::{token_entries, token_slots, tokens_of};
use crate::order::{law_sort_of, sort_of};
use crate::reports::credentials;
use crate::service::check_fido2_turn;
use crate::text::texts;
use crate::volume::{all_slots, area_tree, extract_stage, try_slots};

verus! {

/// Whether a token of that type, under a number, belongs to the keyslot.
pub open spec fn owned(m: Members, kind: Seq<char>, slot: i32) -> bool {
    exists|i: int, id: i32|
        0 <= i < m.len() && #[trigger] is_token_entry(m[i], kind, id, token_slots(m[i].1))
            && token_slots(m[i].1).contains(slot)
}

proof fn lemma_all_slots_contain(e: Seq<(i32, Seq<i32>)>, slot: i32)
    ensures
        all_slots(e).contains(slot) <==> exists|i: int|
            0 <= i < e.len() && (#[trigger] e[i]).1.contains(slot),
    decreases e.len(),
{
    let list = all_slots(e);
    if e.len() > 0 {
        let rest = e.drop_last();
        let end = e.len() - 1;
        let before = all_slots(rest);
        lemma_all_slots_contain(rest, slot);
        assert(list =~= before + e[end].1);
        if list.contains(slot) {
            let k = choose|k: int| 0 <= k < list.len() && list[k] == slot;
            if k < before.len() {
                assert(before[k] == slot);
                let i = choose|i: int| 0 <= i < rest.len() && (#[trigger] rest[i]).1.contains(slot);
                assert(e[i] == rest[i]);
            } else {
                assert(e[end].1[k - before.len()] == slot);
                assert(e[end].1.contains(slot));
            }
        }
        if exists|i: int| 0 <= i < e.len() && (#[trigger] e[i]).1.contains(slot) {
            let i = choose|i: int| 0 <= i < e.len() && (#[trigger] e[i]).1.contains(slot);
            if i < end {
                assert(rest[i] == e[i]);
                let k = choose|k: int| 0 <= k < before.len() && before[k] == slot;
                assert(list[k] == slot);
            } else {
                let k = choose|k: int| 0 <= k < e[end].1.len() && e[end].1[k] == slot;
                assert(list[before.len() + k] == slot);
            }
        }
    }
}

/// The keyslots that are tried one by one are those of the tokens.
proof fn lemma_owned(m: Members, kind: Seq<char>, slot: i32)
    ensures
        all_slots(sort_of::<(i32, Vec<i32>)>(token_entries(m, kind))).contains(slot) <==> owned(
            m,
            kind,
            slot,
        ),
{
    broadcast use vstd::seq_lib::group_to_multiset_ensures;

    let e = token_entries(m, kind);
    let s = sort_of::<(i32, Vec<i32>)>(e);
    law_sort_of::<(i32, Vec<i32>)>(e);
    lemma_all_slots_contain(s, slot);
    if all_slots(s).contains(slot) {
        let i = choose|i: int| 0 <= i < s.len() && (#[trigger] s[i]).1.contains(slot);
        assert(s.contains(s[i]));
        assert(s.to_multiset().count(s[i]) == e.to_multiset().count(s[i]));
        assert(e.contains(s[i]));
        let (id, slots) = s[i];
        law_listed_tokens(m, kind, id, slots);
        let k = choose|k: int|
            0 <= k < m.len() && is_token_entry(#[trigger] m[k], kind, id, slots);
        assert(is_token_entry(m[k], kind, id, token_slots(m[k].1)));
    }
    if owned(m, kind, slot) {
        let (k, id) = choose|k: int, id: i32|
            0 <= k < m.len() && #[trigger] is_token_entry(m[k], kind, id, token_slots(m[k].1))
                && token_slots(m[k].1).contains(slot);
        let pair = (id, token_slots(m[k].1));
        law_listed_tokens(m, kind, id, token_slots(m[k].1));
        assert(e.contains(pair));
        assert(s.to_multiset().count(pair) == e.to_multiset().count(pair));
        assert(s.contains(pair));
        let i = choose|i: int| 0 <= i < s.len() && s[i] == pair;
        assert(s[i].1.contains(slot));
    }
}

/// Whether the answer says that the passphrase does not open the keyslot.
pub open spec fn does_not_open(answer: Answer) -> bool {
    answer is SlotKey && answer->SlotKey_0 is Err
}

/// Whether the keyslot was tried, by the answers from `at` to `n`, and did not open.
pub open spec fn tried<T>(
    part: spec_fn(Seq<Answer>) -> Stage<T>,
    log: Seq<Answer>,
    at: int,
    n: int,
    slot: i32,
) -> bool {
    exists|k: int|
        at <= k < n && does_not_open(log[k]) && (#[trigger] part(log.take(k)) matches Stage::Ask(a)
            && a is VolumeKey && a->VolumeKey_slot == slot)
}

proof fn lemma_try_order(
    device: Seq<char>,
    slots: Seq<i32>,
    passphrase: Seq<u8>,
    before: Seq<char>,
    log: Seq<Answer>,
    at: int,
)
    requires
        0 <= at <= log.len(),
    ensures
        match try_slots(device, slots, passphrase, before, log, at) {
            Stage::Ask(a) => {
                let i = log.len() - at;
                &&& i <= slots.len()
                &&& a == (Ask::VolumeKey {
                    device,
                    slot: if i < slots.len() {
                        slots[i]
                    } else {
                        -1i32
                    },
                    passphrase,
                })
                &&& forall|j: int| at <= j < log.len() ==> does_not_open(#[trigger] log[j])
            },
            Stage::Done((slot, key), n) => {
                &&& at < n <= log.len()
                &&& log[n - 1] is SlotKey && log[n - 1]->SlotKey_0 is Ok
                &&& slot == log[n - 1]->SlotKey_0->Ok_0.0 && key == log[n - 1]->SlotKey_0->Ok_0.1@
            },
            Stage::Fail(_) => {
                ||| exists|k: int| at <= k < log.len() && !((#[trigger] log[k]) is SlotKey)
                ||| {
                    &&& at + slots.len() < log.len()
                    &&& forall|j: int|
                        at <= j <= at + slots.len() ==> does_not_open(#[trigger] log[j])
                }
            },
        },
    decreases slots.len(),
{
    if at < log.len() && slots.len() > 0 && does_not_open(log[at]) {
        lemma_try_order(device, slots.skip(1), passphrase, before, log, at + 1);
    }
}

proof fn lemma_try_asks(
    device: Seq<char>,
    slots: Seq<i32>,
    passphrase: Seq<u8>,
    before: Seq<char>,
    log: Seq<Answer>,
    at: int,
    i: int,
)
    requires
        0 <= at,
        0 <= i <= slots.len(),
        at + i <= log.len(),
        forall|j: int| at <= j < at + i ==> does_not_open(#[trigger] log[j]),
    ensures
        try_slots(device, slots, passphrase, before, log.take(at + i), at) == Stage::<
            (i32, Seq<u8>),
        >::Ask(
            Ask::VolumeKey {
                device,
                slot: if i < slots.len() {
                    slots[i]
                } else {
                    -1i32
                },
                passphrase,
            },
        ),
    decreases slots.len(),
{
    if i > 0 {
        assert(log.take(at + i)[at] == log[at]);
        lemma_try_asks(device, slots.skip(1), passphrase, before, log, at + 1, i - 1);
        assert(at + 1 + (i - 1) == at + i);
    }
}

/// Taking the volume key out with the passphrase of a token: the header is read first;
/// then the keyslots of the tokens of that type are tried, and any keyslot only once none
/// of those opened. The key is the one that came out, and it is given up only once all of
/// that failed.
#[verifier::spinoff_prover]
#[verifier::rlimit(50)]
pub proof fn law_token_keyslots_first(
    device: Seq<char>,
    kind: Seq<char>,
    passphrase: Seq<u8>,
    before: Seq<char>,
    log: Seq<Answer>,
    at: int,
)
    requires
        0 <= at <= log.len(),
    ensures
        ({
            let part = |l: Seq<Answer>| extract_stage(device, kind, passphrase, before, l, at);
            let m = tokens_of(area_tree(log[at]->Text_0));
            let all = log.len() as int;
            match part(log) {
                Stage::Ask(a) => if all == at {
                    a == (Ask::Metadata { device })
                } else {
                    &&& log[at] is Text
                    &&& a is VolumeKey && a->VolumeKey_device == device
                    &&& a->VolumeKey_passphrase == passphrase
                    &&& owned(m, kind, a->VolumeKey_slot) || {
                        &&& a->VolumeKey_slot == -1
                        &&& forall|slot: i32| #[trigger]
                            owned(m, kind, slot) ==> tried(part, log, at + 1, all, slot)
                    }
                },
                Stage::Done((slot, key), n) => {
                    &&& at + 1 < n <= all
                    &&& log[n - 1] is SlotKey && log[n - 1]->SlotKey_0 is Ok
                    &&& slot == log[n - 1]->SlotKey_0->Ok_0.0
                    &&& key == log[n - 1]->SlotKey_0->Ok_0.1@
                },
                Stage::Fail(_) => {
                    ||| all > at && !(log[at] is Text)
                    ||| exists|k: int| at < k < all && !((#[trigger] log[k]) is SlotKey)
                    ||| {
                        &&& tried(part, log, at + 1, all, -1i32)
                        &&& forall|slot: i32| #[trigger]
                            owned(m, kind, slot) ==> tried(part, log, at + 1, all, slot)
                    }
                },
            }
        }),
{
    let part = |l: Seq<Answer>| extract_stage(device, kind, passphrase, before, l, at);
    if at < log.len() && log[at] is Text {
        let m = tokens_of(area_tree(log[at]->Text_0));
        let slots = all_slots(sort_of::<(i32, Vec<i32>)>(token_entries(m, kind)));
        let all = log.len() as int;
        lemma_try_order(device, slots, passphrase, before, log, at + 1);
        assert forall|slot: i32| #[trigger] owned(m, kind, slot) <==> slots.contains(slot) by {
            lemma_owned(m, kind, slot);
        }
        let n = if part(log) is Ask {
            all - (at + 1)
        } else {
            slots.len() as int
        };
        let through = match part(log) {
            Stage::Ask(_) => n == slots.len(),
            Stage::Done(_, _) => false,
            Stage::Fail(_) => at + 1 + slots.len() < all && forall|j: int|
                at + 1 <= j <= at + 1 + slots.len() ==> does_not_open(#[trigger] log[j]),
        };
        if part(log) is Ask && n < slots.len() {
            assert(slots.contains(slots[n]));
            assert(owned(m, kind, slots[n]));
        }
        if through {
            assert forall|slot: i32| #[trigger] owned(m, kind, slot) implies tried(
                part,
                log,
                at + 1,
                all,
                slot,
            ) by {
                let i = choose|i: int| 0 <= i < slots.len() && slots[i] == slot;
                let k = at + 1 + i;
                assert(does_not_open(log[k]));
                assert(log.take(k)[at] == log[at]);
                lemma_try_asks(device, slots, passphrase, before, log, at + 1, i);
                assert(part(log.take(k)) is Ask);
            }
            if part(log) is Fail {
                let k = at + 1 + slots.len();
                assert(does_not_open(log[k]));
                assert(log.take(k)[at] == log[at]);
                lemma_try_asks(
                    device,
                    slots,
                    passphrase,
                    before,
                    log,
                    at + 1,
                    slots.len() as int,
                );
                assert(part(log.take(k)) is Ask);
            }
        }
    }
}

/// Looking for the FIDO2 devices that are enrolled on a volume: its header is read, and
/// the devices at the given paths are looked for by the credentials of its FIDO2 tokens,
/// unless there are none of either. Those that were found are reported.
pub proof fn law_check_fido2_enrolled(
    device: Seq<char>,
    paths: Seq<Seq<char>>,
    log: Seq<Answer>,
)
    ensures
        match check_fido2_turn(device, paths, log) {
            Turn::Ask(a) => if log.len() == 0 {
                a == (Ask::Metadata { device })
            } else {
                &&& log.len() == 1 && log[0] is Text
                &&& a is EnrolledPaths && a->EnrolledPaths_paths == paths && paths.len() > 0
                &&& a->EnrolledPaths_creds.len() > 0
                &&& credentials(log[0]->Text_0, a->EnrolledPaths_creds)
            },
            Turn::Done(r) => {
                ||| log.len() > 1 && log[1] is Names && r == texts(log[1]->Names_0@)
                ||| {
                    &&& r.len() == 0 && log.len() > 0
                    &&& paths.len() > 0 && log[0] is Text && !credentials(
                        log[0]->Text_0,
                        seq![],
                    ) ==> log.len() > 1 && !(log[1] is Names)
                }
            },
        },
{
}

} // verus!
