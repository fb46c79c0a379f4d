//! What the operations on volumes, containers and removable media ask for, and what
//! their reports mean. The laws go on from those of [`crate::reports`].

use vstd::prelude::*;
use vstd::utf8::encode_utf8;

use crate::constants::{TOKEN_TYPE_FIDO2, TOKEN_TYPE_TPM2};
use crate::courses::{
    granted, key_given, law_unlock_requests, lemma_derive_course, lemma_extract_course,
    lemma_key_course, lemma_parts, lemma_same_part, lemma_tried_slots, lemma_try_slots_course,
    slot_of_kind, token_gave, unlocks, well_behaved,
};
use crate::format::{container_stage, first_partition};
use crate::host::{Answer, Ask, Failure, KeyslotsArea, PathKind, Stage, Turn};
use crate::json::{member_members, member_str, JsonTree, Members};
use crate::luks::{
    keyslots_of, law_slot_owner_owns, slot_entries, slot_map, slot_owner, token_entries,
    token_slots, tokens_of,
};
use crate::order::sort_of;
use crate::reports::{did, lemma_key_given, lemma_refused_part, was_refused};
use crate::service::{
    close_volume_turn, create_for_turn, create_image_turn, format_partition_turn, image_fd_turn,
    image_path_ok, last_slot, open_volume_turn, verified_turn, wipe_turn, ImageReport, Report,
};
use crate::text::{parse_i32_spec, starts_with};
use crate::volume::{
    all_slots, area_tree, derive_stage, extract_stage, mapper_name_ok, metadata_stage, try_slots,
    unlock_method_ok, verify_passphrase_stage, verify_token_stage, volume_key_stage,
};

verus! {

// ---------------------------------------------------------------------------
// Wiping
// ---------------------------------------------------------------------------

/// Whether a header with the metadata `t` has the keyslot `n`: a key of its `keyslots`
/// is that number.
pub open spec fn has_keyslot(t: Option<JsonTree>, n: i32) -> bool {
    match t {
        Some(tree) => exists|j: int|
            0 <= j < member_members(tree, "keyslots"@).len() && parse_i32_spec(
                (#[trigger] member_members(tree, "keyslots"@)[j]).0,
            ) == Some(n),
        None => false,
    }
}

/// Whether a header with the metadata `t` has a keyslot besides `n`.
pub open spec fn has_another(t: Option<JsonTree>, n: i32) -> bool {
    exists|other: i32| other != n && #[trigger] has_keyslot(t, other)
}

proof fn lemma_slot_map(m: Members, n: i32)
    ensures
        slot_map(slot_entries(m)).dom().finite(),
        slot_map(slot_entries(m)).dom().contains(n) <==> exists|j: int|
            0 <= j < m.len() && parse_i32_spec((#[trigger] m[j]).0) == Some(n),
    decreases m.len(),
{
    if m.len() > 0 {
        let front = m.drop_last();
        lemma_slot_map(front, n);
        let last = m.len() - 1;
        assert(m[last] == m.last());
        match parse_i32_spec(m.last().0) {
            Some(k) => {
                assert(slot_entries(m).drop_last() =~= slot_entries(front));
            },
            None => {},
        }
        if exists|j: int| 0 <= j < front.len() && parse_i32_spec((#[trigger] front[j]).0) == Some(n) {
            let j = choose|j: int|
                0 <= j < front.len() && parse_i32_spec((#[trigger] front[j]).0) == Some(n);
            assert(m[j] == front[j]);
        }
        if exists|j: int| 0 <= j < m.len() && parse_i32_spec((#[trigger] m[j]).0) == Some(n) {
            let j = choose|j: int|
                0 <= j < m.len() && parse_i32_spec((#[trigger] m[j]).0) == Some(n);
            if j < last {
                assert(front[j] == m[j]);
            }
        }
    } else {
        assert(slot_map(slot_entries(m)) =~= Map::empty());
    }
}

proof fn lemma_has_keyslot(t: Option<JsonTree>, n: i32)
    ensures
        slot_map(keyslots_of(t)).dom().finite(),
        slot_map(keyslots_of(t)).dom().contains(n) == has_keyslot(t, n),
{
    match t {
        Some(tree) => {
            lemma_slot_map(member_members(tree, "keyslots"@), n);
        },
        None => {
            assert(slot_map(keyslots_of(t)) =~= Map::empty());
        },
    }
}

proof fn lemma_last_slot(t: Option<JsonTree>, slot: i32)
    ensures
        last_slot(t, slot) == (has_keyslot(t, slot) && !has_another(t, slot)),
{
    let dom = slot_map(keyslots_of(t)).dom();
    lemma_has_keyslot(t, slot);
    if has_another(t, slot) {
        let other = choose|other: i32| other != slot && #[trigger] has_keyslot(t, other);
        lemma_has_keyslot(t, other);
        if dom.contains(slot) {
            let two = Set::<i32>::empty().insert(slot).insert(other);
            assert(two.len() == 2);
            assert(two.subset_of(dom));
            vstd::set_lib::lemma_len_subset(two, dom);
        }
    } else {
        let one = Set::<i32>::empty().insert(slot);
        assert forall|n: i32| dom.contains(n) implies one.contains(n) by {
            lemma_has_keyslot(t, n);
            if n != slot {
                assert(has_keyslot(t, n));
            }
        }
        assert(dom.subset_of(one));
        vstd::set_lib::lemma_len_subset(dom, one);
        assert(one.len() == 1);
    }
}

/// Whether the answer at `h` is the header of `device` that was read last.
pub open spec fn header_read<R>(
    turn: spec_fn(Seq<Answer>) -> Turn<R>,
    device: Seq<char>,
    log: Seq<Answer>,
    h: int,
) -> bool {
    &&& 0 <= h < log.len() && log[h] is Text
    &&& turn(log.take(h)) == Turn::<R>::Ask(Ask::Metadata { device })
    &&& forall|j: int| h < j < log.len() ==> !((#[trigger] log[j]) is Text)
}

/// Wiping a keyslot. The keyslot is destroyed, and its token removed, only once the
/// volume key is there and only where the header that was then read has another keyslot,
/// or has no such keyslot at all; and the token that is found for the keyslot goes first.
/// Where the keyslot is the only one, that is what is reported. It reports success once
/// the keyslot was destroyed, and any other failure only where one of its requests was
/// not met, or it names no way to unlock.
#[verifier::spinoff_prover]
#[verifier::rlimit(80)]
pub proof fn law_wipe(
    device: Seq<char>,
    passphrase: Seq<char>,
    method: Seq<char>,
    pin: Seq<char>,
    slot: i32,
    log: Seq<Answer>,
)
    ensures
        ({
            let turn = |l: Seq<Answer>| wipe_turn(device, passphrase, method, pin, slot, l);
            match turn(log) {
                Turn::Ask(Ask::DestroyKeyslot { device: d, slot: s }) => {
                    &&& d == device && s == slot
                    &&& exists|h: int, key: Seq<u8>|
                        #![trigger header_read(turn, device, log, h), key_given(log, 0, key)]
                        header_read(turn, device, log, h) && key_given(log, 0, key) && {
                            let t = area_tree(log[h]->Text_0);
                            let owner = slot_owner(tokens_of(t), slot);
                            &&& has_keyslot(t, slot) ==> has_another(t, slot)
                            &&& owner >= 0 ==> did(
                                turn,
                                log,
                                0,
                                Ask::SetToken { device, token: owner, json: None },
                            )
                        }
                },
                Turn::Ask(Ask::SetToken { device: d, token, json }) => {
                    &&& d == device && json is None && token >= 0
                    &&& log.len() > 0 && header_read(turn, device, log, log.len() - 1)
                    &&& ({
                        let t = area_tree(log.last()->Text_0);
                        &&& has_keyslot(t, slot) ==> has_another(t, slot)
                        &&& exists|i: int|
                            0 <= i < tokens_of(t).len() && token_slots(
                                (#[trigger] tokens_of(t)[i]).1,
                            ).contains(slot) && parse_i32_spec(tokens_of(t)[i].0) == Some(token)
                    })
                },
                Turn::Ask(Ask::Metadata { device: d }) => d == device,
                Turn::Ask(a) => unlocks(device, method, passphrase, pin, log, 0, a),
                Turn::Done(r) => if r.0 {
                    &&& r == (true, ""@, ""@)
                    &&& did(turn, log, 0, Ask::DestroyKeyslot { device, slot })
                } else {
                    ||| {
                        &&& r == (false, ""@, "Cannot wipe the last remaining keyslot"@)
                        &&& exists|h: int|
                            0 <= h < log.len() && #[trigger] turn(log.take(h)) == Turn::<
                                Report,
                            >::Ask(Ask::Metadata { device }) && log[h] is Text && has_keyslot(
                                area_tree(log[h]->Text_0),
                                slot,
                            ) && !has_another(area_tree(log[h]->Text_0), slot)
                    }
                    ||| {
                        &&& r == (false, ""@, "Operation failed"@)
                        &&& was_refused(turn, log, 0) || !unlock_method_ok(method)
                    }
                },
            }
        }),
{
    let turn = |l: Seq<Answer>| wipe_turn(device, passphrase, method, pin, slot, l);
    let part = |l: Seq<Answer>| volume_key_stage(device, method, passphrase, pin, l, 0);
    law_unlock_requests(device, method, passphrase, pin, log, 0);
    if unlock_method_ok(method) {
        lemma_key_course(device, method, passphrase, pin, log, 0);
        match part(log) {
            Stage::Ask(_) => {},
            Stage::Fail(_) => {
                lemma_refused_part(part, turn, log, 0);
            },
            Stage::Done(key, n) => {
                lemma_key_given(log, 0, n, key);
                if n < log.len() {
                    assert(part(log.take(n)) == part(log));
                    let read = Ask::Metadata { device };
                    assert(turn(log.take(n)) == Turn::<Report>::Ask(read));
                    if log[n] is Text {
                        let t = area_tree(log[n]->Text_0);
                        let m = n + 1;
                        lemma_last_slot(t, slot);
                        law_slot_owner_owns(tokens_of(t), slot);
                        let owner = slot_owner(tokens_of(t), slot);
                        let destroy = Ask::DestroyKeyslot { device, slot };
                        if log.len() == m {
                            assert(header_read(turn, device, log, n));
                        }
                        if m < log.len() && !last_slot(t, slot) {
                            assert(part(log.take(m)) == part(log));
                            assert(log.take(m)[n] == log[n]);
                            if owner >= 0 {
                                let remove = Ask::SetToken { device, token: owner, json: None };
                                assert(turn(log.take(m)) == Turn::<Report>::Ask(remove));
                                if granted(remove, log[m]) {
                                    assert(did(turn, log, 0, remove));
                                    if m + 1 < log.len() {
                                        assert(part(log.take(m + 1)) == part(log));
                                        assert(log.take(m + 1)[n] == log[n]);
                                        assert(log.take(m + 1)[m] == log[m]);
                                        assert(turn(log.take(m + 1)) == Turn::<Report>::Ask(destroy));
                                    } else {
                                        assert(header_read(turn, device, log, n));
                                    }
                                }
                            } else {
                                assert(turn(log.take(m)) == Turn::<Report>::Ask(destroy));
                            }
                        }
                    }
                }
            },
        }
    }
}

// ---------------------------------------------------------------------------
// Mappings
// ---------------------------------------------------------------------------

/// Whether `turn` asked for `ask` and was answered `answer`.
pub open spec fn was_told<R>(
    turn: spec_fn(Seq<Answer>) -> Turn<R>,
    log: Seq<Answer>,
    ask: Ask,
    answer: Answer,
) -> bool {
    exists|k: int|
        0 <= k < log.len() && #[trigger] turn(log.take(k)) == Turn::<R>::Ask(ask) && log[k]
            == answer
}

/// Whether `name` can be that of a node right below `/dev/mapper`.
pub open spec fn plain_name(name: Seq<char>) -> bool {
    &&& name.len() > 0 && forall|i: int| 0 <= i < name.len() ==> #[trigger] name[i] != '/'
    &&& !(name.len() == 1 && name[0] == '.')
    &&& !(name.len() == 2 && name[0] == '.' && name[1] == '.')
}

proof fn lemma_plain_name(name: Seq<char>)
    ensures
        mapper_name_ok(name) == plain_name(name),
{
    reveal_strlit(".");
    reveal_strlit("..");
    if name.len() == 1 && name[0] == '.' {
        assert(name =~= "."@);
    }
    if name.len() == 2 && name[0] == '.' && name[1] == '.' {
        assert(name =~= ".."@);
    }
    if name.contains('/') {
        let i = choose|i: int| 0 <= i < name.len() && name[i] == '/';
        assert(name[i] == '/');
    }
}

/// Opening a volume: it maps the device under the name, by the volume key that unlocking
/// gave, unless a mapping of that name is there. It reports success, and gives the name,
/// once there is one, and a failure only where one of its requests was not met, or the
/// name or the way to unlock is none.
pub proof fn law_open_volume(
    device: Seq<char>,
    name: Seq<char>,
    passphrase: Seq<char>,
    method: Seq<char>,
    pin: Seq<char>,
    log: Seq<Answer>,
)
    ensures
        ({
            let turn = |l: Seq<Answer>|
                open_volume_turn(device, name, passphrase, method, pin, l);
            let active = Ask::MappingActive { name };
            match turn(log) {
                Turn::Ask(Ask::MappingActive { name: n }) => n == name && plain_name(name),
                Turn::Ask(Ask::Activate { device: d, name: n, key }) => {
                    &&& d == device && n == name && plain_name(name)
                    &&& key_given(log, 0, key)
                    &&& was_told(turn, log, active, Answer::Flag(false))
                },
                Turn::Ask(a) => plain_name(name) && unlocks(
                    device,
                    method,
                    passphrase,
                    pin,
                    log,
                    0,
                    a,
                ),
                Turn::Done(r) => if r.0 {
                    &&& r == (true, name, ""@)
                    &&& exists|key: Seq<u8>| #[trigger] key_given(log, 0, key) && (was_told(
                        turn,
                        log,
                        active,
                        Answer::Flag(true),
                    ) || did(turn, log, 0, Ask::Activate { device, name, key }))
                } else {
                    &&& r.1 == ""@
                    &&& was_refused(turn, log, 0) || !unlock_method_ok(method) || !plain_name(name)
                },
            }
        }),
{
    let turn = |l: Seq<Answer>| open_volume_turn(device, name, passphrase, method, pin, l);
    let part = |l: Seq<Answer>| volume_key_stage(device, method, passphrase, pin, l, 0);
    lemma_plain_name(name);
    law_unlock_requests(device, method, passphrase, pin, log, 0);
    if mapper_name_ok(name) && unlock_method_ok(method) {
        lemma_key_course(device, method, passphrase, pin, log, 0);
        match part(log) {
            Stage::Ask(_) => {},
            Stage::Fail(_) => {
                lemma_refused_part(part, turn, log, 0);
            },
            Stage::Done(key, n) => {
                lemma_key_given(log, 0, n, key);
                if n < log.len() {
                    assert(part(log.take(n)) == part(log));
                    assert(turn(log.take(n)) == Turn::<Report>::Ask(Ask::MappingActive { name }));
                    if n + 1 < log.len() {
                        assert(part(log.take(n + 1)) == part(log));
                        assert(log.take(n + 1)[n] == log[n]);
                        if log[n] == Answer::Flag(false) {
                            assert(turn(log.take(n + 1)) == Turn::<Report>::Ask(
                                Ask::Activate { device, name, key },
                            ));
                        }
                    }
                }
            },
        }
    }
}

/// Closing a volume: it asks about the mapping of the name and no other, and removes it
/// where it is there and not mounted. It reports success once it is gone, that a mounted
/// one is mounted, and any other failure only where one of its requests was not met, or
/// the name is none.
pub proof fn law_close_volume(name: Seq<char>, log: Seq<Answer>)
    ensures
        ({
            let turn = |l: Seq<Answer>| close_volume_turn(name, l);
            let active = Ask::MappingActive { name };
            let mounted = Ask::MappingMounted { name };
            match turn(log) {
                Turn::Ask(a) => plain_name(name) && if log.len() == 0 {
                    a == active
                } else if log.len() == 1 {
                    a == mounted && log[0] == Answer::Flag(true)
                } else {
                    a == (Ask::Deactivate { name }) && was_told(
                        turn,
                        log,
                        active,
                        Answer::Flag(true),
                    ) && was_told(turn, log, mounted, Answer::Flag(false))
                },
                Turn::Done(r) => if r.0 {
                    &&& r == (true, ""@)
                    &&& was_told(turn, log, active, Answer::Flag(false)) || did(
                        turn,
                        log,
                        0,
                        Ask::Deactivate { name },
                    )
                } else {
                    ||| r.1 == "Volume is mounted"@ && was_told(
                        turn,
                        log,
                        mounted,
                        Answer::Flag(true),
                    )
                    ||| was_refused(turn, log, 0)
                    ||| !plain_name(name)
                },
            }
        }),
{
    let turn = |l: Seq<Answer>| close_volume_turn(name, l);
    lemma_plain_name(name);
    if mapper_name_ok(name) {
        assert(turn(log.take(0)) == Turn::<(bool, Seq<char>)>::Ask(Ask::MappingActive { name }));
        if log.len() > 0 && log[0] is Flag {
            assert(forall|k: int| 0 < k <= log.len() ==> #[trigger] log.take(k)[0] == log[0]);
            if log[0]->Flag_0 {
                assert(turn(log.take(1)) == Turn::<(bool, Seq<char>)>::Ask(
                    Ask::MappingMounted { name },
                ));
                if log.len() > 1 && log[1] is Flag {
                    assert(forall|k: int|
                        1 < k <= log.len() ==> #[trigger] log.take(k)[1] == log[1]);
                    if !log[1]->Flag_0 {
                        assert(turn(log.take(2)) == Turn::<(bool, Seq<char>)>::Ask(
                            Ask::Deactivate { name },
                        ));
                    }
                }
            }
        }
    }
}

// ---------------------------------------------------------------------------
// Verifying
// ---------------------------------------------------------------------------

/// Verifying a passphrase: it is tried on any keyslot of the device, and the volume key
/// that comes out is cached. It reports the keyslot that opened once that is done, and
/// that it opens none only where one of its requests was not met.
pub proof fn law_verify_passphrase(device: Seq<char>, passphrase: Seq<char>, log: Seq<Answer>)
    ensures
        ({
            let turn = |l: Seq<Answer>|
                verified_turn(verify_passphrase_stage(device, passphrase, l, 0));
            let try_it = Ask::VolumeKey {
                device,
                slot: -1i32,
                passphrase: encode_utf8(passphrase),
            };
            match turn(log) {
                Turn::Ask(a) => if log.len() == 0 {
                    a == try_it
                } else {
                    &&& log.len() == 1 && granted(try_it, log[0])
                    &&& a == (Ask::CacheKey { device, key: log[0]->SlotKey_0->Ok_0.1@ })
                },
                Turn::Done(r) => if r.0 {
                    &&& did(turn, log, 0, try_it)
                    &&& r.1 == log[0]->SlotKey_0->Ok_0.0
                    &&& did(
                        turn,
                        log,
                        0,
                        Ask::CacheKey { device, key: log[0]->SlotKey_0->Ok_0.1@ },
                    )
                } else {
                    r.1 == -1 && was_refused(turn, log, 0)
                },
            }
        }),
{
    let turn = |l: Seq<Answer>| verified_turn(verify_passphrase_stage(device, passphrase, l, 0));
    assert(turn(log.take(0)) is Ask);
    if log.len() > 0 {
        assert(forall|k: int| 0 < k <= log.len() ==> #[trigger] log.take(k)[0] == log[0]);
        if log[0] is SlotKey && log[0]->SlotKey_0 is Ok && log.len() > 1 {
            assert(turn(log.take(1)) is Ask);
        }
    }
}

/// Whether the answer gives the keyslot `slot`, which `key` came out of.
pub open spec fn gives_slot(answer: Answer, slot: i32, key: Seq<u8>) -> bool {
    match answer {
        Answer::SlotKey(Ok(found)) => found.0 == slot && found.1@ == key,
        _ => false,
    }
}

/// Unlocking with a token: its secret is asked for with the PIN, and the volume key that
/// comes out of a keyslot by the base64 text of the secret is cached. It reports the
/// keyslot that opened once that is done, and that it opens none only where one of its
/// requests was not met, or the type is not one that unlocks.
pub proof fn law_unlock_with_token(
    device: Seq<char>,
    kind: Seq<char>,
    pin: Seq<char>,
    log: Seq<Answer>,
)
    ensures
        ({
            let turn = |l: Seq<Answer>|
                verified_turn(verify_token_stage(device, kind, pin, l, 0));
            match turn(log) {
                Turn::Ask(a) => {
                    &&& kind == TOKEN_TYPE_FIDO2@ || kind == TOKEN_TYPE_TPM2@
                    &&& !(a is CachedKey) && !(a is Open)
                    &&& unlocks(device, kind, ""@, pin, log, 0, a)
                },
                Turn::Done(r) => if r.0 {
                    exists|i: int, key: Seq<u8>|
                        #![trigger gives_slot(log[i], r.1, key)]
                        0 <= i < log.len() && gives_slot(log[i], r.1, key) && did(
                            turn,
                            log,
                            0,
                            Ask::CacheKey { device, key },
                        )
                } else {
                    &&& r.1 == -1
                    &&& was_refused(turn, log, 0) || (kind != TOKEN_TYPE_FIDO2@ && kind
                        != TOKEN_TYPE_TPM2@)
                },
            }
        }),
{
    let turn = |l: Seq<Answer>| verified_turn(verify_token_stage(device, kind, pin, l, 0));
    let before = "Token unlock failed ("@;
    if kind == TOKEN_TYPE_FIDO2@ || kind == TOKEN_TYPE_TPM2@ {
        reveal_strlit("passphrase");
        reveal_strlit("systemd-fido2");
        reveal_strlit("systemd-tpm2");
        assert("passphrase"@.len() == 10 && TOKEN_TYPE_FIDO2@.len() == 13
            && TOKEN_TYPE_TPM2@.len() == 12);
        let derived = |l: Seq<Answer>| derive_stage(device, kind, pin, l, 0);
        let extracted = |secret: Seq<u8>, n: int, l: Seq<Answer>|
            extract_stage(device, kind, secret, before, l, n);
        let part = |l: Seq<Answer>|
            match derived(l) {
                Stage::Ask(r) => Stage::Ask(r),
                Stage::Fail(e) => Stage::Fail(e),
                Stage::Done(secret, n) => extracted(secret, n, l),
            };
        lemma_derive_course(device, kind, pin, log, 0);
        match derived(log) {
            Stage::Done(secret, n) => {
                assert(token_gave(log, 0, secret)) by {
                    assert(log[n - 1] is Derived);
                }
                lemma_extract_course(device, kind, secret, before, log, n);
                lemma_same_part(
                    |l: Seq<Answer>| extract_stage(device, kind, secret, before, l, n),
                    |l: Seq<Answer>| extracted(secret, n, l),
                    log,
                    n,
                );
                lemma_extract_asks(device, kind, secret, before, log, n);
            },
            _ => {},
        }
        lemma_parts(derived, extracted, part, log, 0);
        match part(log) {
            Stage::Ask(_) => {},
            Stage::Fail(_) => {
                lemma_refused_part(part, turn, log, 0);
            },
            Stage::Done((slot, key), n) => {
                assert(gives_slot(log[n - 1], slot, key));
                assert(n == log.len() ==> log.last() == log[n - 1]);
                if n < log.len() {
                    assert(part(log.take(n)) == part(log));
                    assert(turn(log.take(n)) == Turn::<(bool, i32)>::Ask(
                        Ask::CacheKey { device, key },
                    ));
                    if granted(Ask::CacheKey { device, key }, log[n]) {
                        assert(did(turn, log, 0, Ask::CacheKey { device, key }));
                        assert(turn(log) == Turn::Done((true, slot)));
                        assert(gives_slot(log[n - 1], turn(log)->Done_0.1, key));
                    }
                }
            },
        }
    }
}

proof fn lemma_extract_asks(
    device: Seq<char>,
    kind: Seq<char>,
    passphrase: Seq<u8>,
    before: Seq<char>,
    log: Seq<Answer>,
    at: int,
)
    requires
        0 <= at <= log.len(),
    ensures
        match extract_stage(device, kind, passphrase, before, log, at) {
            Stage::Ask(Ask::Metadata { device: d }) => d == device,
            Stage::Ask(Ask::VolumeKey { device: d, slot, passphrase: p }) => d == device && p
                == passphrase && (slot == -1 || slot_of_kind(log, 0, kind, slot)),
            Stage::Ask(_) => false,
            Stage::Done((slot, key), n) => at < n <= log.len() && gives_slot(
                log[n - 1],
                slot,
                key,
            ),
            Stage::Fail(_) => true,
        },
{
    match metadata_stage(device, log, at) {
        Stage::Done(t, n) => {
            let slots = all_slots(sort_of::<(i32, Vec<i32>)>(token_entries(tokens_of(t), kind)));
            lemma_try_slots_course(device, slots, passphrase, before, log, n);
            lemma_try_slots_slot(device, slots, passphrase, before, log, n);
            match try_slots(device, slots, passphrase, before, log, n) {
                Stage::Ask(a) => {
                    let slot = a->VolumeKey_slot;
                    if slot != -1 {
                        lemma_tried_slots(tokens_of(t), kind, slot);
                        assert(log[at] is Text && t == area_tree(log[at]->Text_0));
                        let i = choose|i: int|
                            0 <= i < tokens_of(t).len() && member_str(
                                (#[trigger] tokens_of(t)[i]).1,
                                "type"@,
                            ) == Some(kind) && token_slots(tokens_of(t)[i].1).contains(slot);
                        assert(slot_of_kind(log, 0, kind, slot));
                    }
                },
                _ => {},
            }
        },
        _ => {},
    }
}

proof fn lemma_try_slots_slot(
    device: Seq<char>,
    slots: Seq<i32>,
    passphrase: Seq<u8>,
    before: Seq<char>,
    log: Seq<Answer>,
    at: int,
)
    requires
        0 <= at <= log.len(),
    ensures
        try_slots(device, slots, passphrase, before, log, at) matches Stage::Done((slot, key), n)
            ==> at < n <= log.len() && gives_slot(log[n - 1], slot, key),
    decreases slots.len(),
{
    if at < log.len() && slots.len() > 0 {
        lemma_try_slots_slot(device, slots.skip(1), passphrase, before, log, at + 1);
    }
}

// ---------------------------------------------------------------------------
// Containers
// ---------------------------------------------------------------------------

/// Whether `a` is one of the requests by which `node` becomes a LUKS2 volume that
/// `passphrase` opens, or one without a keyslot if that is empty: a new header first, and
/// then, with the volume key that this gave, a keyslot for the passphrase, or the volume
/// key for the cache.
pub open spec fn makes_volume(
    node: Seq<char>,
    passphrase: Seq<char>,
    area: KeyslotsArea,
    log: Seq<Answer>,
    at: int,
    a: Ask,
) -> bool {
    if log.len() == at {
        a == (Ask::Format { device: node, area })
    } else {
        &&& log.len() == at + 1 && log.last() is NewKey && log.last()->NewKey_0 is Ok
        &&& ({
            let key = log.last()->NewKey_0->Ok_0@;
            if passphrase.len() == 0 {
                a == (Ask::CacheKey { device: node, key })
            } else {
                a == (Ask::AddKeyslot {
                    device: node,
                    key,
                    passphrase: encode_utf8(passphrase),
                    minimal_pbkdf: false,
                })
            }
        })
    }
}

/// Whether `node` was made a LUKS2 volume by the answers from `at` on, with the keyslot
/// `slot`, or -1 without one.
pub open spec fn volume_made(
    passphrase: Seq<char>,
    log: Seq<Answer>,
    at: int,
    slot: i32,
) -> bool {
    &&& at + 1 < log.len()
    &&& log[at] is NewKey && log[at]->NewKey_0 is Ok
    &&& if passphrase.len() == 0 {
        slot == -1 && log[at + 1] is Ack
    } else {
        log[at + 1] is Number && log[at + 1]->Number_0 == Ok::<i32, Failure>(slot)
    }
}

proof fn lemma_container(
    node: Seq<char>,
    passphrase: Seq<char>,
    area: KeyslotsArea,
    log: Seq<Answer>,
    at: int,
)
    requires
        0 <= at <= log.len(),
    ensures
        match container_stage(node, passphrase, area, log, at) {
            Stage::Ask(a) => makes_volume(node, passphrase, area, log, at, a),
            Stage::Done(slot, n) => n == at + 2 && volume_made(passphrase, log, at, slot),
            Stage::Fail(_) => true,
        },
        well_behaved(
            |l: Seq<Answer>| container_stage(node, passphrase, area, l, at),
            log,
            at,
        ),
{
    let part = |l: Seq<Answer>| container_stage(node, passphrase, area, l, at);
    assert(part(log.take(at)) == Stage::<i32>::Ask(Ask::Format { device: node, area }));
    if at < log.len() {
        assert(forall|m: int| at < m <= log.len() ==> #[trigger] log.take(m)[at] == log[at]);
        if log[at] is NewKey && log[at]->NewKey_0 is Ok {
            assert(part(log.take(at + 1)) is Ask);
            if at + 1 < log.len() {
                assert(forall|m: int|
                    at + 1 < m <= log.len() ==> #[trigger] log.take(m)[at + 1] == log[at + 1]);
            } else {
                assert(log.last() == log[at]);
            }
        }
    }
}

/// Making a container: the file is made where nothing was, of the size that was asked
/// for; it becomes a volume that the passphrase opens; and it is given to its owner. It
/// reports success, and the keyslot of the passphrase, once all is done. It refuses what
/// is there already, a path outside `/home/` and `/tmp/`, and fails otherwise only where
/// one of its requests was not met, or the size is out of range.
pub proof fn law_create_image(
    path: Seq<char>,
    size_mb: i32,
    passphrase: Seq<char>,
    owner: Option<(u32, u32)>,
    log: Seq<Answer>,
)
    ensures
        ({
            let turn = |l: Seq<Answer>| create_image_turn(path, size_mb, passphrase, owner, l);
            let inside = starts_with(path, "/home/"@) || starts_with(path, "/tmp/"@);
            let sized = 1 <= size_mb <= 8192;
            let made = Ask::CreateFile { path, last: (size_mb * 1_048_576 - 1) as u64 };
            let fresh = inside && sized && log.len() > 0 && log[0] == Answer::Path(
                PathKind::Missing,
            );
            match turn(log) {
                Turn::Ask(a) => if log.len() == 0 {
                    a == (Ask::PathKind { path })
                } else if log.len() == 1 {
                    fresh && a == made
                } else if log.len() <= 3 {
                    &&& fresh && did(turn, log, 0, made)
                    &&& makes_volume(path, passphrase, KeyslotsArea::Default, log, 2, a)
                } else {
                    &&& fresh && did(turn, log, 0, made)
                    &&& exists|slot: i32| volume_made(passphrase, log, 2, slot)
                    &&& owner is Some && a == (Ask::Chown {
                        path,
                        uid: owner->Some_0.0,
                        gid: owner->Some_0.1,
                    })
                },
                Turn::Done(r) => if r.0 {
                    &&& fresh && did(turn, log, 0, made)
                    &&& volume_made(passphrase, log, 2, r.1)
                    &&& r.2 == ""@
                    &&& owner is Some ==> did(
                        turn,
                        log,
                        0,
                        Ask::Chown { path, uid: owner->Some_0.0, gid: owner->Some_0.1 },
                    )
                } else {
                    &&& r.1 == -1
                    &&& ({
                        ||| r.2 == "Path must be a regular file"@ && log[0] == Answer::Path(
                            PathKind::Other,
                        )
                        ||| r.2 == "A file already exists at this path"@ && log[0]
                            == Answer::Path(PathKind::RegularFile)
                        ||| r.2 == "Path must be under /home/ or /tmp/"@ && log[0]
                            == Answer::Path(PathKind::Missing) && !inside
                        ||| r.2 == "Operation failed"@ && (was_refused(turn, log, 0) || !sized)
                    })
                },
            }
        }),
{
    let turn = |l: Seq<Answer>| create_image_turn(path, size_mb, passphrase, owner, l);
    assert(turn(log.take(0)) == Turn::<ImageReport>::Ask(Ask::PathKind { path }));
    assert(size_mb * 1024 * 1024 == size_mb * 1_048_576);
    if log.len() > 0 {
        assert(forall|k: int| 0 < k <= log.len() ==> #[trigger] log.take(k)[0] == log[0]);
        if log[0] == Answer::Path(PathKind::Missing) && image_path_ok(path) && 1 <= size_mb
            <= 8192 {
            let made = Ask::CreateFile { path, last: (size_mb * 1_048_576 - 1) as u64 };
            assert(turn(log.take(1)) == Turn::<ImageReport>::Ask(made));
            if log.len() > 1 {
                assert(forall|k: int| 1 < k <= log.len() ==> #[trigger] log.take(k)[1] == log[1]);
                if granted(made, log[1]) {
                    assert(did(turn, log, 0, made));
                    let part = |l: Seq<Answer>|
                        container_stage(path, passphrase, KeyslotsArea::Default, l, 2);
                    lemma_container(path, passphrase, KeyslotsArea::Default, log, 2);
                    match part(log) {
                        Stage::Ask(_) => {},
                        Stage::Fail(_) => {
                            let k = choose|k: int|
                                2 <= k < log.len() && #[trigger] part(log.take(k)) is Ask
                                    && !granted(part(log.take(k))->Ask_0, log[k]);
                            assert(turn(log.take(k)) is Ask);
                        },
                        Stage::Done(slot, n) => {
                            assert(volume_made(passphrase, log, 2, slot));
                            if log.len() > 4 && owner is Some {
                                assert(part(log.take(4)) == part(log));
                                assert(turn(log.take(4)) is Ask);
                            }
                        },
                    }
                }
            }
        }
    }
}

/// Making a container for a caller: nothing is done for a caller that is not known, and
/// else what [`law_create_image`] says.
pub proof fn law_create_image_for(
    path: Seq<char>,
    size_mb: i32,
    passphrase: Seq<char>,
    owner: Option<(u32, u32)>,
    log: Seq<Answer>,
)
    ensures
        owner is None ==> create_for_turn(path, size_mb, passphrase, owner, log) == Turn::<
            ImageReport,
        >::Done((false, -1i32, "Operation failed"@)),
        owner is Some ==> create_for_turn(path, size_mb, passphrase, owner, log)
            == create_image_turn(path, size_mb, passphrase, owner, log),
{
}

/// Formatting the container behind a descriptor: it becomes a volume that the passphrase
/// opens. It reports success, and the keyslot of the passphrase, once that is done, and a
/// failure only where one of its requests was not met.
pub proof fn law_create_image_fd(path: Seq<char>, passphrase: Seq<char>, log: Seq<Answer>)
    ensures
        ({
            let turn = |l: Seq<Answer>| image_fd_turn(path, passphrase, l);
            match turn(log) {
                Turn::Ask(a) => makes_volume(path, passphrase, KeyslotsArea::Default, log, 0, a),
                Turn::Done(r) => if r.0 {
                    volume_made(passphrase, log, 0, r.1) && r.2 == ""@
                } else {
                    r == (false, -1i32, "Operation failed"@) && was_refused(turn, log, 0)
                },
            }
        }),
{
    let turn = |l: Seq<Answer>| image_fd_turn(path, passphrase, l);
    let part = |l: Seq<Answer>| container_stage(path, passphrase, KeyslotsArea::Default, l, 0);
    lemma_container(path, passphrase, KeyslotsArea::Default, log, 0);
    if part(log) is Fail {
        lemma_refused_part(part, turn, log, 0);
    }
}

// ---------------------------------------------------------------------------
// Removable media
// ---------------------------------------------------------------------------

/// What a removable device is formatted as: itself, if it is a partition, and else its
/// first partition.
pub open spec fn formatted_node(device: Seq<char>, is_partition: bool) -> Seq<char> {
    if is_partition {
        device
    } else {
        first_partition(device)
    }
}

/// How many answers there are before the header is written: that the signatures were
/// erased and, of a whole disk, that it was partitioned and that the partition is there.
pub open spec fn header_at(is_partition: bool) -> int {
    if is_partition {
        1
    } else {
        3
    }
}

/// Formatting a removable device: its signatures are erased; a whole disk gets a
/// partition, which is waited for; and the partition becomes a volume that the passphrase
/// opens, or one without a keyslot if that is empty. It reports success, and gives the
/// partition, once all is done, and a failure only where one of its requests was not met,
/// or the device is not removable.
pub proof fn law_format(
    device: Seq<char>,
    passphrase: Seq<char>,
    is_removable: bool,
    is_partition: bool,
    log: Seq<Answer>,
)
    ensures
        ({
            let turn = |l: Seq<Answer>|
                format_partition_turn(device, passphrase, is_removable, is_partition, l);
            let node = formatted_node(device, is_partition);
            let wipe = Ask::Wipefs { device };
            let divide = Ask::Partition { device };
            let wait = Ask::WaitForNode { device, partition: node };
            let at = header_at(is_partition);
            let ready = is_removable && did(turn, log, 0, wipe) && (is_partition || (did(
                turn,
                log,
                0,
                divide,
            ) && did(turn, log, 0, wait)));
            match turn(log) {
                Turn::Ask(a) => if log.len() == 0 {
                    is_removable && a == wipe
                } else if log.len() < at {
                    &&& is_removable && did(turn, log, 0, wipe)
                    &&& log.len() == 1 ==> a == divide
                    &&& log.len() == 2 ==> a == wait && did(turn, log, 0, divide)
                } else {
                    ready && makes_volume(node, passphrase, KeyslotsArea::Compact, log, at, a)
                },
                Turn::Done(r) => if r.0 {
                    &&& ready
                    &&& r == (true, node, ""@)
                    &&& exists|slot: i32| volume_made(passphrase, log, at, slot)
                } else {
                    &&& r == (false, ""@, "Operation failed"@)
                    &&& was_refused(turn, log, 0) || !is_removable
                },
            }
        }),
{
    let turn = |l: Seq<Answer>|
        format_partition_turn(device, passphrase, is_removable, is_partition, l);
    let node = formatted_node(device, is_partition);
    if is_removable {
        assert(turn(log.take(0)) == Turn::<Report>::Ask(Ask::Wipefs { device }));
        if log.len() > 0 {
            assert(forall|k: int| 0 < k <= log.len() ==> #[trigger] log.take(k)[0] == log[0]);
            if granted(Ask::Wipefs { device }, log[0]) {
                assert(did(turn, log, 0, Ask::Wipefs { device }));
                if is_partition {
                    lemma_format_rest(
                        device,
                        passphrase,
                        is_removable,
                        is_partition,
                        log,
                        header_at(is_partition),
                    );
                } else {
                    let divide = Ask::Partition { device };
                    assert(turn(log.take(1)) == Turn::<Report>::Ask(divide));
                    if log.len() > 1 {
                        assert(forall|k: int|
                            1 < k <= log.len() ==> #[trigger] log.take(k)[1] == log[1]);
                        if granted(divide, log[1]) {
                            assert(did(turn, log, 0, divide));
                            let wait = Ask::WaitForNode { device, partition: node };
                            assert(turn(log.take(2)) == Turn::<Report>::Ask(wait));
                            if log.len() > 2 {
                                assert(forall|k: int|
                                    2 < k <= log.len() ==> #[trigger] log.take(k)[2] == log[2]);
                                if granted(wait, log[2]) {
                                    assert(did(turn, log, 0, wait));
                                    lemma_format_rest(
                                        device,
                                        passphrase,
                                        is_removable,
                                        is_partition,
                                        log,
                                        header_at(is_partition),
                                    );
                                }
                            }
                        }
                    }
                }
            }
        }
    }
}

proof fn lemma_format_rest(
    device: Seq<char>,
    passphrase: Seq<char>,
    is_removable: bool,
    is_partition: bool,
    log: Seq<Answer>,
    at: int,
)
    requires
        is_removable,
        at == header_at(is_partition),
        at <= log.len(),
        log[0] is Outcome && log[0]->Outcome_0 is Ok,
        !is_partition ==> log[1] is Outcome && log[1]->Outcome_0 is Ok && log[2] == Answer::Flag(
            true,
        ),
    ensures
        ({
            let turn = |l: Seq<Answer>|
                format_partition_turn(device, passphrase, is_removable, is_partition, l);
            let node = formatted_node(device, is_partition);
            match turn(log) {
                Turn::Ask(a) => makes_volume(
                    node,
                    passphrase,
                    KeyslotsArea::Compact,
                    log,
                    at,
                    a,
                ),
                Turn::Done(r) => if r.0 {
                    r == (true, node, ""@) && exists|slot: i32|
                        volume_made(passphrase, log, at, slot)
                } else {
                    r == (false, ""@, "Operation failed"@) && was_refused(turn, log, 0)
                },
            }
        }),
{
    let turn = |l: Seq<Answer>|
        format_partition_turn(device, passphrase, is_removable, is_partition, l);
    let node = formatted_node(device, is_partition);
    let part = |l: Seq<Answer>|
        container_stage(node, passphrase, KeyslotsArea::Compact, l, at);
    lemma_container(node, passphrase, KeyslotsArea::Compact, log, at);
    assert(log.len() > 0);
    match part(log) {
        Stage::Ask(_) => {},
        Stage::Done(slot, _) => {
            assert(volume_made(passphrase, log, at, slot));
        },
        Stage::Fail(_) => {
            let k = choose|k: int|
                at <= k < log.len() && #[trigger] part(log.take(k)) is Ask && !granted(
                    part(log.take(k))->Ask_0,
                    log[k],
                );
            assert(log.take(k)[0] == log[0]);
            if !is_partition {
                assert(log.take(k)[1] == log[1]);
                assert(log.take(k)[2] == log[2]);
            }
            assert(turn(log.take(k)) is Ask);
        },
    }
}

/// A volume that formatting made opens with the passphrase it was made with: verifying
/// that passphrase on the device that formatting gives tries the very passphrase that the
/// keyslot was added for, on the device that it was added to.
pub proof fn law_formatted_volume_verifies(
    device: Seq<char>,
    passphrase: Seq<char>,
    is_removable: bool,
    is_partition: bool,
    log: Seq<Answer>,
    later: Seq<Answer>,
)
    requires
        ({
            let turn = format_partition_turn(device, passphrase, is_removable, is_partition, log);
            turn is Ask && turn->Ask_0 is AddKeyslot
        }),
        ({
            let turn = format_partition_turn(device, passphrase, is_removable, is_partition, later);
            turn is Done && turn->Done_0.0
        }),
    ensures
        ({
            let added = format_partition_turn(
                device,
                passphrase,
                is_removable,
                is_partition,
                log,
            )->Ask_0;
            let node = format_partition_turn(
                device,
                passphrase,
                is_removable,
                is_partition,
                later,
            )->Done_0.1;
            verified_turn(verify_passphrase_stage(node, passphrase, seq![], 0)) == Turn::<
                (bool, i32),
            >::Ask(
                Ask::VolumeKey {
                    device: added->AddKeyslot_device,
                    slot: -1i32,
                    passphrase: added->AddKeyslot_passphrase,
                },
            )
        }),
{
    law_format(device, passphrase, is_removable, is_partition, log);
    law_format(device, passphrase, is_removable, is_partition, later);
    let node = formatted_node(device, is_partition);
    law_verify_passphrase(node, passphrase, seq![]);
}

} // verus!
