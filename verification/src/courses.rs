//! The courses that operations on a volume can take.
//!
//! An operation goes on by requests and answers. The laws here say, of every
//! operation and for all answers, what its requests carry, what has been done when it
//! reports success, and that it reports a failure only for a reason. They speak of the
//! requests, the answers and the arguments, and not of how an operation comes to them.

use vstd::prelude::*;
use vstd::utf8::encode_utf8;

use crate::codec::b64_text;
use crate::constants::{TOKEN_TYPE_FIDO2, TOKEN_TYPE_TPM2};
use crate::host::{Answer, Ask, Stage};
use crate::json::{member_str, JsonTree, Members};
use crate::luks::{
    fido2_refs_of, token_entries, token_slots, tokens_of, tpm2_refs_of, Fido2Ref, Tpm2Ref,
};
use crate::order::{law_sort_of, sort_of};
use crate::volume::{
    all_slots, area_tree, cache_stage, derive_stage, extract_stage, metadata_stage, no_volume_key,
    open_stage, try_slots, unlock_method_ok, volume_key_stage,
};

verus! {

/// Whether the metadata in `area` can be read in full: it is JSON, and so are the
/// tokens in it that can unlock a volume.
pub open spec fn sound_header(area: Option<String>) -> bool {
    &&& area_tree(area) is Some
    &&& fido2_refs_of(area_tree(area)) is Ok
    &&& tpm2_refs_of(area_tree(area)) is Ok
}

/// Whether `answer` says that what `ask` asks for was done.
pub open spec fn granted(ask: Ask, answer: Answer) -> bool {
    match ask {
        Ask::Metadata { .. } => answer is Text && sound_header(answer->Text_0),
        Ask::CachedKey { .. } => answer is Key,
        Ask::CacheKey { .. } => answer is Ack,
        Ask::UnlockFido2 { .. } => answer is Derived && answer->Derived_0 is Ok,
        Ask::UnsealTpm2 { .. } => answer is Derived && answer->Derived_0 is Ok,
        Ask::VolumeKey { .. } => answer is SlotKey && answer->SlotKey_0 is Ok,
        Ask::AddKeyslot { .. } => answer is Number && answer->Number_0 is Ok,
        Ask::SetToken { .. } => answer is Number && answer->Number_0 is Ok,
        Ask::Format { .. } => answer is NewKey && answer->NewKey_0 is Ok,
        Ask::MappingActive { .. } => answer is Flag,
        Ask::MappingMounted { .. } => answer is Flag,
        Ask::WaitForNode { .. } => answer == Answer::Flag(true),
        Ask::EnrolledPaths { .. } => answer is Names,
        Ask::EnrollFido2 { .. } => answer is Fido2 && answer->Fido2_0 is Ok,
        Ask::Seal { .. } => answer is Sealed && answer->Sealed_0 is Ok,
        Ask::PathKind { .. } => answer is Path,
        _ => answer is Outcome && answer->Outcome_0 is Ok,
    }
}

/// Whether the answer gives the volume key `key`.
pub open spec fn gives_key(answer: Answer, key: Seq<u8>) -> bool {
    match answer {
        Answer::Key(Some(k)) => k@ == key,
        Answer::SlotKey(Ok(found)) => found.1@ == key,
        Answer::NewKey(Ok(k)) => k@ == key,
        _ => false,
    }
}

/// Whether one of the answers from `at` on gives the volume key `key`.
pub open spec fn key_given(log: Seq<Answer>, at: int, key: Seq<u8>) -> bool {
    exists|i: int| at <= i < log.len() && gives_key(#[trigger] log[i], key)
}

// ---------------------------------------------------------------------------
// Parts of operations
// ---------------------------------------------------------------------------

/// Whether a part of an operation that is over is so after the answers that it says
/// it used, and no sooner; and one that has failed has been refused something.
pub open spec fn well_behaved<T>(
    part: spec_fn(Seq<Answer>) -> Stage<T>,
    log: Seq<Answer>,
    at: int,
) -> bool {
    match part(log) {
        Stage::Ask(_) => true,
        Stage::Done(_, n) => {
            &&& at <= n <= log.len()
            &&& forall|m: int| n <= m <= log.len() ==> part(#[trigger] log.take(m)) == part(log)
            &&& forall|k: int| at <= k < n ==> part(#[trigger] log.take(k)) is Ask
        },
        Stage::Fail(_) => part_refused(part, log, at),
    }
}

/// Whether the part asked for something that was not done.
pub open spec fn part_refused<T>(
    part: spec_fn(Seq<Answer>) -> Stage<T>,
    log: Seq<Answer>,
    at: int,
) -> bool {
    exists|k: int|
        at <= k < log.len() && #[trigger] part(log.take(k)) is Ask && !granted(
            part(log.take(k))->Ask_0,
            log[k],
        )
}

/// Two parts, one after the other, are well behaved where each is.
pub(crate) proof fn lemma_parts<A, B>(
    first: spec_fn(Seq<Answer>) -> Stage<A>,
    second: spec_fn(A, int, Seq<Answer>) -> Stage<B>,
    whole: spec_fn(Seq<Answer>) -> Stage<B>,
    log: Seq<Answer>,
    at: int,
)
    requires
        0 <= at <= log.len(),
        well_behaved(first, log, at),
        forall|l: Seq<Answer>| #[trigger]
            whole(l) == match first(l) {
                Stage::Ask(a) => Stage::Ask(a),
                Stage::Fail(e) => Stage::Fail(e),
                Stage::Done(a, n) => second(a, n, l),
            },
        first(log) matches Stage::Done(a, n) ==> well_behaved(
            |l: Seq<Answer>| second(a, n, l),
            log,
            n,
        ),
    ensures
        well_behaved(whole, log, at),
{
    match first(log) {
        Stage::Ask(_) => {},
        Stage::Fail(_) => {
            let k = choose|k: int|
                at <= k < log.len() && #[trigger] first(log.take(k)) is Ask && !granted(
                    first(log.take(k))->Ask_0,
                    log[k],
                );
            assert(whole(log.take(k)) is Ask);
        },
        Stage::Done(a, n) => {
            let rest = |l: Seq<Answer>| second(a, n, l);
            assert forall|m: int| n <= m <= log.len() implies whole(#[trigger] log.take(m)) == rest(
                log.take(m),
            ) by {
                assert(first(log.take(m)) == first(log));
            }
            assert forall|k: int| at <= k < n implies whole(#[trigger] log.take(k)) is Ask by {
                assert(first(log.take(k)) is Ask);
            }
            match rest(log) {
                Stage::Ask(_) => {},
                Stage::Done(_, j) => {
                    assert forall|m: int| j <= m <= log.len() implies whole(#[trigger] log.take(m))
                        == whole(log) by {
                        assert(rest(log.take(m)) == rest(log));
                    }
                    assert forall|k: int| at <= k < j implies whole(#[trigger] log.take(k)) is Ask by {
                        if k >= n {
                            assert(rest(log.take(k)) is Ask);
                        }
                    }
                },
                Stage::Fail(_) => {
                    let k = choose|k: int|
                        n <= k < log.len() && #[trigger] rest(log.take(k)) is Ask && !granted(
                            rest(log.take(k))->Ask_0,
                            log[k],
                        );
                    assert(whole(log.take(k)) is Ask);
                },
            }
        },
    }
}

/// A part that asks for one thing and takes one answer is well behaved.
pub(crate) proof fn lemma_one_answer<T>(
    part: spec_fn(Seq<Answer>) -> Stage<T>,
    ask: Ask,
    log: Seq<Answer>,
    at: int,
)
    requires
        0 <= at <= log.len(),
        forall|l: Seq<Answer>| at >= l.len() ==> #[trigger] part(l) == Stage::<T>::Ask(ask),
        forall|l: Seq<Answer>|
            at < l.len() <= log.len() && l[at] == log[at] ==> #[trigger] part(l) == part(log),
        at < log.len() ==> match part(log) {
            Stage::Ask(_) => false,
            Stage::Done(_, n) => n == at + 1,
            Stage::Fail(_) => !granted(ask, log[at]),
        },
    ensures
        well_behaved(part, log, at),
{
    assert(part(log.take(at)) == Stage::<T>::Ask(ask));
    assert(forall|m: int| at < m <= log.len() ==> #[trigger] log.take(m)[at] == log[at]);
}

pub(crate) proof fn lemma_try_slots_course(
    device: Seq<char>,
    slots: Seq<i32>,
    passphrase: Seq<u8>,
    before: Seq<char>,
    log: Seq<Answer>,
    at: int,
)
    requires
        0 <= at <= log.len(),
    ensures
        well_behaved(
            |l: Seq<Answer>| try_slots(device, slots, passphrase, before, l, at),
            log,
            at,
        ),
        try_slots(device, slots, passphrase, before, log, at) matches Stage::Done(_, n) ==> at < n,
        match try_slots(device, slots, passphrase, before, log, at) {
            Stage::Ask(a) => a is VolumeKey && a->VolumeKey_device == device
                && a->VolumeKey_passphrase == passphrase && (a->VolumeKey_slot == -1
                || slots.contains(a->VolumeKey_slot)),
            Stage::Done((_, key), n) => log[n - 1] is SlotKey && gives_key(log[n - 1], key),
            Stage::Fail(_) => true,
        },
    decreases slots.len(),
{
    let part = |l: Seq<Answer>| try_slots(device, slots, passphrase, before, l, at);
    assert(part(log.take(at)) is Ask);
    if at < log.len() {
        assert(forall|m: int| at < m <= log.len() ==> #[trigger] log.take(m)[at] == log[at]);
        if slots.len() > 0 && log[at] is SlotKey && log[at]->SlotKey_0 is Err {
            let rest = slots.skip(1);
            let more = |l: Seq<Answer>|
                try_slots(device, rest, passphrase, before, l, at + 1);
            lemma_try_slots_course(device, rest, passphrase, before, log, at + 1);
            assert(part(log) == more(log));
            assert forall|m: int| at < m <= log.len() implies part(#[trigger] log.take(m)) == more(
                log.take(m),
            ) by {}
            match more(log) {
                Stage::Ask(a) => {
                    if rest.contains(a->VolumeKey_slot) {
                        let i = choose|i: int| 0 <= i < rest.len() && rest[i] == a->VolumeKey_slot;
                        assert(slots[i + 1] == a->VolumeKey_slot);
                    }
                },
                Stage::Done(_, n) => {
                    assert forall|k: int| at <= k < n implies part(#[trigger] log.take(k)) is Ask by {
                        if k > at {
                            assert(more(log.take(k)) is Ask);
                        }
                    }
                    assert forall|m: int| n <= m <= log.len() implies part(#[trigger] log.take(m))
                        == part(log) by {
                        assert(more(log.take(m)) == more(log));
                    }
                },
                Stage::Fail(_) => {
                    let k = choose|k: int|
                        at + 1 <= k < log.len() && #[trigger] more(log.take(k)) is Ask && !granted(
                            more(log.take(k))->Ask_0,
                            log[k],
                        );
                    assert(part(log.take(k)) == more(log.take(k)));
                },
            }
        } else {
            assert(forall|m: int| at < m <= log.len() ==> part(#[trigger] log.take(m)) == part(log));
            if part(log) is Fail {
                assert(part(log.take(at)) is Ask && !granted(part(log.take(at))->Ask_0, log[at]));
            }
        }
    }
}

/// Getting the volume key is well behaved.
pub(crate) proof fn lemma_key_course(
    device: Seq<char>,
    method: Seq<char>,
    passphrase: Seq<char>,
    pin: Seq<char>,
    log: Seq<Answer>,
    at: int,
)
    requires
        0 <= at <= log.len(),
        unlock_method_ok(method),
    ensures
        well_behaved(
            |l: Seq<Answer>| volume_key_stage(device, method, passphrase, pin, l, at),
            log,
            at,
        ),
{
    let part = |l: Seq<Answer>| volume_key_stage(device, method, passphrase, pin, l, at);
    assert(part(log.take(at)) == Stage::<Seq<u8>>::Ask(Ask::CachedKey { device }));
    if at < log.len() {
        assert(forall|m: int| at < m <= log.len() ==> #[trigger] log.take(m)[at] == log[at]);
        if log[at] == Answer::Key(None) {
            let found = |l: Seq<Answer>| found_stage(device, method, passphrase, pin, l, at + 1);
            let cached = |f: (i32, Seq<u8>), n: int, l: Seq<Answer>|
                cache_stage(device, f.1, f.1, l, n);
            let rest = |l: Seq<Answer>|
                match found(l) {
                    Stage::Ask(a) => Stage::Ask(a),
                    Stage::Fail(e) => Stage::Fail(e),
                    Stage::Done(f, n) => cached(f, n, l),
                };
            lemma_found_course(device, method, passphrase, pin, log, at + 1);
            match found(log) {
                Stage::Done(f, n) => {
                    lemma_one_answer(
                        |l: Seq<Answer>| cached(f, n, l),
                        Ask::CacheKey { device, key: f.1 },
                        log,
                        n,
                    );
                },
                _ => {},
            }
            lemma_parts(found, cached, rest, log, at + 1);
            assert(part(log) == rest(log));
            assert forall|m: int| at < m <= log.len() implies part(#[trigger] log.take(m)) == rest(
                log.take(m),
            ) by {}
            match rest(log) {
                Stage::Ask(_) => {},
                Stage::Done(_, n) => {
                    assert forall|m: int| n <= m <= log.len() implies part(#[trigger] log.take(m))
                        == part(log) by {
                        assert(rest(log.take(m)) == rest(log));
                    }
                    assert forall|k: int| at <= k < n implies part(#[trigger] log.take(k)) is Ask by {
                        if k > at {
                            assert(rest(log.take(k)) is Ask);
                        }
                    }
                },
                Stage::Fail(_) => {
                    let k = choose|k: int|
                        at + 1 <= k < log.len() && #[trigger] rest(log.take(k)) is Ask && !granted(
                            rest(log.take(k))->Ask_0,
                            log[k],
                        );
                    assert(part(log.take(k)) is Ask);
                },
            }
        }
    }
}

/// Finding the volume key where it is not in the cache.
spec fn found_stage(
    device: Seq<char>,
    method: Seq<char>,
    passphrase: Seq<char>,
    pin: Seq<char>,
    log: Seq<Answer>,
    at: int,
) -> Stage<(i32, Seq<u8>)> {
    if method == "passphrase"@ {
        try_slots(device, seq![], encode_utf8(passphrase), no_volume_key(), log, at)
    } else {
        match open_stage(device, log, at) {
            Stage::Ask(r) => Stage::Ask(r),
            Stage::Fail(e) => Stage::Fail(e),
            Stage::Done(_, k) => match derive_stage(device, method, pin, log, k) {
                Stage::Ask(r) => Stage::Ask(r),
                Stage::Fail(e) => Stage::Fail(e),
                Stage::Done(secret, n) => extract_stage(
                    device,
                    method,
                    secret,
                    no_volume_key(),
                    log,
                    n,
                ),
            },
        }
    }
}

pub(crate) proof fn lemma_derive_course(
    device: Seq<char>,
    kind: Seq<char>,
    pin: Seq<char>,
    log: Seq<Answer>,
    at: int,
)
    requires
        0 <= at <= log.len(),
        kind == TOKEN_TYPE_FIDO2@ || kind == TOKEN_TYPE_TPM2@,
    ensures
        well_behaved(|l: Seq<Answer>| derive_stage(device, kind, pin, l, at), log, at),
{
    let part = |l: Seq<Answer>| derive_stage(device, kind, pin, l, at);
    assert(part(log.take(at)) == Stage::<Seq<u8>>::Ask(Ask::Metadata { device }));
    assert(forall|m: int| at < m <= log.len() ==> #[trigger] log.take(m)[at] == log[at]);
    if at < log.len() {
        if at + 1 < log.len() {
            assert(forall|m: int|
                at + 1 < m <= log.len() ==> #[trigger] log.take(m)[at + 1] == log[at + 1]);
        }
        assert(at + 1 <= log.len() ==> log.take(at + 1)[at] == log[at]);
        match part(log) {
            Stage::Fail(_) => {
                if !granted(Ask::Metadata { device }, log[at]) {
                } else {
                    assert(part(log.take(at + 1)) is Ask);
                    assert(!granted(part(log.take(at + 1))->Ask_0, log[at + 1]));
                }
            },
            Stage::Done(_, n) => {
                assert(n == at + 2);
                assert(part(log.take(at + 1)) is Ask);
            },
            _ => {},
        }
    }
}

pub(crate) proof fn lemma_extract_course(
    device: Seq<char>,
    kind: Seq<char>,
    passphrase: Seq<u8>,
    before: Seq<char>,
    log: Seq<Answer>,
    at: int,
)
    requires
        0 <= at <= log.len(),
    ensures
        well_behaved(
            |l: Seq<Answer>| extract_stage(device, kind, passphrase, before, l, at),
            log,
            at,
        ),
{
    let first = |l: Seq<Answer>| metadata_stage(device, l, at);
    let second = |t: Option<JsonTree>, n: int, l: Seq<Answer>|
        try_slots(
            device,
            all_slots(sort_of::<(i32, Vec<i32>)>(token_entries(tokens_of(t), kind))),
            passphrase,
            before,
            l,
            n,
        );
    lemma_one_answer(first, Ask::Metadata { device }, log, at);
    match first(log) {
        Stage::Done(t, n) => {
            let slots = all_slots(sort_of::<(i32, Vec<i32>)>(token_entries(tokens_of(t), kind)));
            lemma_try_slots_course(device, slots, passphrase, before, log, n);
            lemma_same_part(
                |l: Seq<Answer>| try_slots(device, slots, passphrase, before, l, n),
                |l: Seq<Answer>| second(t, n, l),
                log,
                n,
            );
        },
        _ => {},
    }
    lemma_parts(
        first,
        second,
        |l: Seq<Answer>| extract_stage(device, kind, passphrase, before, l, at),
        log,
        at,
    );
}

/// Parts that do the same are well behaved together.
pub(crate) proof fn lemma_same_part<T>(
    one: spec_fn(Seq<Answer>) -> Stage<T>,
    other: spec_fn(Seq<Answer>) -> Stage<T>,
    log: Seq<Answer>,
    at: int,
)
    requires
        well_behaved(one, log, at),
        forall|l: Seq<Answer>| #[trigger] other(l) == one(l),
    ensures
        well_behaved(other, log, at),
{
    assert(other(log) == one(log));
    match one(log) {
        Stage::Ask(_) => {},
        Stage::Done(_, n) => {
            assert forall|m: int| n <= m <= log.len() implies other(#[trigger] log.take(m))
                == other(log) by {
                assert(one(log.take(m)) == one(log));
            }
            assert forall|k: int| at <= k < n implies other(#[trigger] log.take(k)) is Ask by {
                assert(one(log.take(k)) is Ask);
            }
        },
        Stage::Fail(_) => {
            let k = choose|k: int|
                at <= k < log.len() && #[trigger] one(log.take(k)) is Ask && !granted(
                    one(log.take(k))->Ask_0,
                    log[k],
                );
            assert(other(log.take(k)) is Ask);
        },
    }
}

proof fn lemma_found_course(
    device: Seq<char>,
    method: Seq<char>,
    passphrase: Seq<char>,
    pin: Seq<char>,
    log: Seq<Answer>,
    at: int,
)
    requires
        0 <= at <= log.len(),
        unlock_method_ok(method),
    ensures
        well_behaved(
            |l: Seq<Answer>| found_stage(device, method, passphrase, pin, l, at),
            log,
            at,
        ),
{
    let whole = |l: Seq<Answer>| found_stage(device, method, passphrase, pin, l, at);
    if method == "passphrase"@ {
        let none: Seq<i32> = seq![];
        lemma_try_slots_course(device, none, encode_utf8(passphrase), no_volume_key(), log, at);
        lemma_same_part(
            |l: Seq<Answer>|
                try_slots(device, none, encode_utf8(passphrase), no_volume_key(), l, at),
            whole,
            log,
            at,
        );
    } else {
        let opened = |l: Seq<Answer>| open_stage(device, l, at);
        let derived = |u: (), k: int, l: Seq<Answer>| derive_stage(device, method, pin, l, k);
        let extracted = |secret: Seq<u8>, n: int, l: Seq<Answer>|
            extract_stage(device, method, secret, no_volume_key(), l, n);
        let secret = |l: Seq<Answer>|
            match opened(l) {
                Stage::Ask(r) => Stage::Ask(r),
                Stage::Fail(e) => Stage::Fail(e),
                Stage::Done(u, k) => derived(u, k, l),
            };
        lemma_one_answer(opened, Ask::Open { device }, log, at);
        match opened(log) {
            Stage::Done(u, k) => {
                lemma_derive_course(device, method, pin, log, k);
                lemma_same_part(
                    |l: Seq<Answer>| derive_stage(device, method, pin, l, k),
                    |l: Seq<Answer>| derived(u, k, l),
                    log,
                    k,
                );
            },
            _ => {},
        }
        lemma_parts(opened, derived, secret, log, at);
        match secret(log) {
            Stage::Done(s, n) => {
                lemma_extract_course(device, method, s, no_volume_key(), log, n);
                lemma_same_part(
                    |l: Seq<Answer>| extract_stage(device, method, s, no_volume_key(), l, n),
                    |l: Seq<Answer>| extracted(s, n, l),
                    log,
                    n,
                );
            },
            _ => {},
        }
        lemma_parts(secret, extracted, whole, log, at);
    }
}

// ---------------------------------------------------------------------------
// Unlocking
// ---------------------------------------------------------------------------

/// Whether a token of the type `kind` in a header that was read belongs to `slot`.
pub open spec fn slot_of_kind(
    log: Seq<Answer>,
    at: int,
    kind: Seq<char>,
    slot: i32,
) -> bool {
    exists|i: int, k: int|
        #![trigger log[i], tokens_of(area_tree(log[i]->Text_0))[k]]
        at <= i < log.len() && log[i] is Text && 0 <= k < tokens_of(
            area_tree(log[i]->Text_0),
        ).len() && member_str(tokens_of(area_tree(log[i]->Text_0))[k].1, "type"@) == Some(kind)
            && token_slots(tokens_of(area_tree(log[i]->Text_0))[k].1).contains(slot)
}

/// Whether `a` is one of the requests by which `device` is unlocked, once the answers
/// from `at` on are there, with what it has to carry: the passphrase goes to the
/// keyslots only, and only where it is the way to unlock; the PIN goes to the tokens of
/// the header that was just read; and with a token, the passphrase of a keyslot is the
/// base64 text of the secret that the token gave.
pub open spec fn unlocks(
    device: Seq<char>,
    method: Seq<char>,
    passphrase: Seq<char>,
    pin: Seq<char>,
    log: Seq<Answer>,
    at: int,
    a: Ask,
) -> bool {
    match a {
        Ask::CachedKey { device: d } => d == device && log.len() == at,
        Ask::Open { device: d } => d == device && method != "passphrase"@,
        Ask::Metadata { device: d } => d == device && method != "passphrase"@,
        Ask::UnlockFido2 { tokens, pin: p } => {
            &&& method == TOKEN_TYPE_FIDO2@
            &&& p == pin
            &&& log.len() > at && log.last() is Text
            &&& fido2_refs_of(area_tree(log.last()->Text_0)) == Ok::<Seq<Fido2Ref>, Seq<char>>(
                tokens,
            )
        },
        Ask::UnsealTpm2 { tokens, pin: p } => {
            &&& method == TOKEN_TYPE_TPM2@
            &&& p == pin
            &&& log.len() > at && log.last() is Text
            &&& tpm2_refs_of(area_tree(log.last()->Text_0)) == Ok::<Seq<Tpm2Ref>, Seq<char>>(
                tokens,
            )
        },
        Ask::VolumeKey { device: d, slot, passphrase: p } => d == device && if method
            == "passphrase"@ {
            slot == -1 && p == encode_utf8(passphrase)
        } else {
            (slot == -1 || slot_of_kind(log, at, method, slot)) && token_gave(log, at, p)
        },
        Ask::CacheKey { device: d, key } => d == device && log.len() > at && log.last() is SlotKey
            && gives_key(log.last(), key),
        _ => false,
    }
}

/// Whether a token gave a secret whose base64 text is `passphrase`.
pub open spec fn token_gave(log: Seq<Answer>, at: int, passphrase: Seq<u8>) -> bool {
    exists|i: int|
        at <= i < log.len() && (#[trigger] log[i]) is Derived && log[i]->Derived_0 is Ok
            && passphrase == encode_utf8(b64_text(log[i]->Derived_0->Ok_0@))
}

pub(crate) proof fn lemma_entries(m: Members, kind: Seq<char>, i: int, slot: i32)
    requires
        0 <= i < token_entries(m, kind).len(),
        token_entries(m, kind)[i].1.contains(slot),
    ensures
        exists|k: int|
            0 <= k < m.len() && member_str((#[trigger] m[k]).1, "type"@) == Some(kind)
                && token_slots(m[k].1).contains(slot),
    decreases m.len(),
{
    let front = m.drop_last();
    let before = token_entries(front, kind);
    if i < before.len() {
        assert(token_entries(m, kind)[i] == before[i]);
        lemma_entries(front, kind, i, slot);
        let k = choose|k: int|
            0 <= k < front.len() && member_str((#[trigger] front[k]).1, "type"@) == Some(kind)
                && token_slots(front[k].1).contains(slot);
        assert(m[k] == front[k]);
    } else {
        let last = m.len() - 1;
        assert(m[last] == m.last());
    }
}

pub(crate) proof fn lemma_all_slots(e: Seq<(i32, Seq<i32>)>, slot: i32)
    requires
        all_slots(e).contains(slot),
    ensures
        exists|i: int| 0 <= i < e.len() && (#[trigger] e[i]).1.contains(slot),
    decreases e.len(),
{
    let front = e.drop_last();
    let j = choose|j: int| 0 <= j < all_slots(e).len() && all_slots(e)[j] == slot;
    if j < all_slots(front).len() {
        assert(all_slots(front)[j] == slot);
        lemma_all_slots(front, slot);
        let i = choose|i: int| 0 <= i < front.len() && (#[trigger] front[i]).1.contains(slot);
        assert(e[i] == front[i]);
    } else {
        let last = e.len() - 1;
        assert(e[last].1[j - all_slots(front).len()] == slot);
        assert(e[last].1.contains(slot));
    }
}

pub(crate) proof fn lemma_tried_slots(m: Members, kind: Seq<char>, slot: i32)
    requires
        all_slots(sort_of::<(i32, Vec<i32>)>(token_entries(m, kind))).contains(slot),
    ensures
        exists|k: int|
            0 <= k < m.len() && member_str((#[trigger] m[k]).1, "type"@) == Some(kind)
                && token_slots(m[k].1).contains(slot),
{
    broadcast use vstd::seq_lib::group_to_multiset_ensures;

    let e = token_entries(m, kind);
    let s = sort_of::<(i32, Vec<i32>)>(e);
    law_sort_of::<(i32, Vec<i32>)>(e);
    lemma_all_slots(s, slot);
    let i = choose|i: int| 0 <= i < s.len() && (#[trigger] s[i]).1.contains(slot);
    assert(s.contains(s[i]));
    assert(s.to_multiset().contains(s[i]));
    assert(e.contains(s[i]));
    let j = choose|j: int| 0 <= j < e.len() && e[j] == s[i];
    lemma_entries(m, kind, j, slot);
}

/// What unlocking asks for, and what it gives: each request carries what it has to, and
/// the volume key is one that an answer gave.
pub proof fn law_unlock_requests(
    device: Seq<char>,
    method: Seq<char>,
    passphrase: Seq<char>,
    pin: Seq<char>,
    log: Seq<Answer>,
    at: int,
)
    requires
        0 <= at <= log.len(),
    ensures
        match volume_key_stage(device, method, passphrase, pin, log, at) {
            Stage::Ask(a) => unlocks(device, method, passphrase, pin, log, at, a),
            Stage::Done(key, n) => at < n <= log.len() && key_given(log.take(n), at, key),
            Stage::Fail(_) => true,
        },
{
    if unlock_method_ok(method) && at < log.len() && log[at] == Answer::Key(None) {
        let from = at + 1;
        if method == "passphrase"@ {
            let none: Seq<i32> = seq![];
            lemma_try_slots_course(
                device,
                none,
                encode_utf8(passphrase),
                no_volume_key(),
                log,
                from,
            );
            match try_slots(device, none, encode_utf8(passphrase), no_volume_key(), log, from) {
                Stage::Done(f, n) => {
                    assert(n < log.len() ==> log.take(n + 1)[n - 1] == log[n - 1]);
                    assert(n == log.len() ==> log.last() == log[n - 1]);
                },
                _ => {},
            }
        } else if from < log.len() {
            lemma_derive_course(device, method, pin, log, from + 1);
            match derive_stage(device, method, pin, log, from + 1) {
                Stage::Done(secret, n) => {
                    assert(token_gave(log, at, secret)) by {
                        assert(log[n - 1] is Derived);
                    }
                    match metadata_stage(device, log, n) {
                        Stage::Done(t, k) => {
                            let slots = all_slots(
                                sort_of::<(i32, Vec<i32>)>(token_entries(tokens_of(t), method)),
                            );
                            lemma_try_slots_course(device, slots, secret, no_volume_key(), log, k);
                            match try_slots(device, slots, secret, no_volume_key(), log, k) {
                                Stage::Ask(a) => {
                                    let slot = a->VolumeKey_slot;
                                    if slot != -1 {
                                        lemma_tried_slots(tokens_of(t), method, slot);
                                        assert(log[n] is Text && t == area_tree(log[n]->Text_0));
                                        let i = choose|i: int|
                                            0 <= i < tokens_of(t).len() && member_str(
                                                (#[trigger] tokens_of(t)[i]).1,
                                                "type"@,
                                            ) == Some(method) && token_slots(
                                                tokens_of(t)[i].1,
                                            ).contains(slot);
                                        assert(slot_of_kind(log, at, method, slot));
                                    }
                                },
                                Stage::Done(f, j) => {
                                    assert(j < log.len() ==> log.take(j + 1)[j - 1] == log[j
                                        - 1]);
                                    assert(j == log.len() ==> log.last() == log[j - 1]);
                                },
                                _ => {},
                            }
                        },
                        _ => {},
                    }
                },
                _ => {},
            }
        }
    } else if at < log.len() {
        assert(log.take(at + 1)[at] == log[at]);
    }
}

/// Unlocking fails only for a reason: the way to unlock is none, or something that was
/// asked for was not done.
pub proof fn law_unlock_fails_for_a_reason(
    device: Seq<char>,
    method: Seq<char>,
    passphrase: Seq<char>,
    pin: Seq<char>,
    log: Seq<Answer>,
    at: int,
)
    requires
        0 <= at <= log.len(),
        volume_key_stage(device, method, passphrase, pin, log, at) is Fail,
    ensures
        (method != "passphrase"@ && method != TOKEN_TYPE_FIDO2@ && method != TOKEN_TYPE_TPM2@)
            || part_refused(
            |l: Seq<Answer>| volume_key_stage(device, method, passphrase, pin, l, at),
            log,
            at,
        ),
{
    if unlock_method_ok(method) {
        lemma_key_course(device, method, passphrase, pin, log, at);
    }
}

} // verus!
