//! What the operations of the service ask for, and what their reports mean.
//!
//! The laws are those of [`crate::courses`], of each operation as a whole: its requests
//! carry its own arguments, a report of success means that the work was asked for and
//! done, and a report of failure has a reason.

use vstd::prelude::*;
use vstd::utf8::encode_utf8;

use crate::codec::b64_text;
use crate::constants::{TOKEN_TYPE_FIDO2, TOKEN_TYPE_RECOVERY, TOKEN_TYPE_TPM2};
use crate::courses::{
    gives_key, granted, key_given, law_unlock_requests, lemma_key_course, part_refused, unlocks,
};
use crate::fido2::{Fido2Enrollment, FIDO2_RP_ID};
use crate::host::{Answer, Ask, Stage, Turn};
use crate::json::{
    flat, json_parsed, json_text, law_put_flat, member, member_str, nested, put, read_as, scalar,
    shallow, JsonTree, Members,
};
use crate::luks::{fido2_ref, fido2_refs_of, token_slots, tpm2_ref, Fido2Ref};
use crate::service::{
    decimals, enroll_fido2_turn, enroll_new_fido2_turn, enroll_passphrase_turn,
    enroll_recovery_turn, enroll_tpm2_turn, enroll_turn, enrolled_creds, failed, fido2_token,
    integers, law_fido2_token_members, law_fido2_token_round_trip, law_pcrs_survive_the_token,
    law_recovery_token_round_trip, law_tpm2_token_members, law_tpm2_token_round_trip, pcr_numbers,
    recovery_token, stamped, tpm2_token, Report,
};
use crate::text::{dec, hex_text, split};
use crate::tpm2::{pcr_indices, SealResult};
use crate::volume::{area_tree, unlock_method_ok, volume_key_stage};

verus! {

/// Whether `turn` asked for `ask`, from the answer at `at` on, and that was done.
pub open spec fn did<R>(
    turn: spec_fn(Seq<Answer>) -> Turn<R>,
    log: Seq<Answer>,
    at: int,
    ask: Ask,
) -> bool {
    exists|k: int|
        at <= k < log.len() && #[trigger] turn(log.take(k)) == Turn::<R>::Ask(ask) && granted(
            ask,
            log[k],
        )
}

/// Whether `turn` asked for something, from the answer at `at` on, that was not done.
pub open spec fn was_refused<R>(
    turn: spec_fn(Seq<Answer>) -> Turn<R>,
    log: Seq<Answer>,
    at: int,
) -> bool {
    exists|k: int|
        at <= k < log.len() && #[trigger] turn(log.take(k)) is Ask && !granted(
            turn(log.take(k))->Ask_0,
            log[k],
        )
}

/// Whether JSON texts read back as what they were made of, as those do that
/// [`crate::json::text_of`] makes.
pub open spec fn json_reads_back() -> bool {
    forall|t: JsonTree| shallow(t) ==> json_parsed(#[trigger] json_text(t)) == read_as(t)
}

pub(crate) proof fn lemma_did_later<R>(
    part: spec_fn(Seq<Answer>) -> Turn<R>,
    whole: spec_fn(Seq<Answer>) -> Turn<R>,
    log: Seq<Answer>,
    at: int,
    from: int,
)
    requires
        at <= from,
        forall|k: int|
            from <= k < log.len() ==> whole(#[trigger] log.take(k)) == part(log.take(k)),
    ensures
        forall|ask: Ask| #[trigger] did(part, log, from, ask) ==> did(whole, log, at, ask),
        was_refused(part, log, from) ==> was_refused(whole, log, at),
{
    assert forall|ask: Ask| #[trigger] did(part, log, from, ask) implies did(
        whole,
        log,
        at,
        ask,
    ) by {
        let k = choose|k: int|
            from <= k < log.len() && #[trigger] part(log.take(k)) == Turn::<R>::Ask(ask) && granted(
                ask,
                log[k],
            );
        assert(whole(log.take(k)) == part(log.take(k)));
    }
    if was_refused(part, log, from) {
        let k = choose|k: int|
            from <= k < log.len() && #[trigger] part(log.take(k)) is Ask && !granted(
                part(log.take(k))->Ask_0,
                log[k],
            );
        assert(whole(log.take(k)) == part(log.take(k)));
    }
}

pub(crate) proof fn lemma_refused_part<T, R>(
    part: spec_fn(Seq<Answer>) -> Stage<T>,
    whole: spec_fn(Seq<Answer>) -> Turn<R>,
    log: Seq<Answer>,
    at: int,
)
    requires
        part_refused(part, log, at),
        forall|l: Seq<Answer>|
            #[trigger] part(l) is Ask ==> whole(l) == Turn::<R>::Ask(part(l)->Ask_0),
    ensures
        was_refused(whole, log, at),
{
    let k = choose|k: int|
        at <= k < log.len() && #[trigger] part(log.take(k)) is Ask && !granted(
            part(log.take(k))->Ask_0,
            log[k],
        );
    assert(whole(log.take(k)) is Ask);
}

// ---------------------------------------------------------------------------
// Enrollments
// ---------------------------------------------------------------------------

/// The shared part of the enrollments: what it asks for and what it reports.
spec fn enrolls(
    device: Seq<char>,
    method: Seq<char>,
    pin: Seq<char>,
    passphrase: Seq<char>,
    secret: Seq<u8>,
    output: Seq<char>,
    token: Members,
    log: Seq<Answer>,
    at: int,
) -> bool {
    let turn = |l: Seq<Answer>|
        enroll_turn(device, method, pin, passphrase, secret, output, token, l, at);
    match turn(log) {
        Turn::Ask(Ask::AddKeyslot { device: d, key, passphrase: p, minimal_pbkdf }) => {
            &&& d == device && p == secret && minimal_pbkdf
            &&& key_given(log, at, key)
        },
        Turn::Ask(Ask::SetToken { device: d, token: id, json }) => {
            &&& d == device && id == -1
            &&& log.len() > at && log.last() is Number && log.last()->Number_0 is Ok
            &&& json == Some(json_text(stamped(token, log.last()->Number_0->Ok_0)))
        },
        Turn::Ask(a) => unlocks(device, method, passphrase, pin, log, at, a),
        Turn::Done(r) => if r.0 {
            &&& r == (true, output, ""@)
            &&& exists|key: Seq<u8>, slot: i32|
                #![trigger key_given(log, at, key), stamped(token, slot)]
                key_given(log, at, key) && did(
                    turn,
                    log,
                    at,
                    Ask::AddKeyslot { device, key, passphrase: secret, minimal_pbkdf: true },
                ) && did(
                    turn,
                    log,
                    at,
                    Ask::SetToken {
                        device,
                        token: -1i32,
                        json: Some(json_text(stamped(token, slot))),
                    },
                )
        } else {
            &&& r == failed()
            &&& was_refused(turn, log, at) || !unlock_method_ok(method)
        },
    }
}

proof fn lemma_enrolls(
    device: Seq<char>,
    method: Seq<char>,
    pin: Seq<char>,
    passphrase: Seq<char>,
    secret: Seq<u8>,
    output: Seq<char>,
    token: Members,
    log: Seq<Answer>,
    at: int,
)
    requires
        0 <= at <= log.len(),
        flat(token),
        json_reads_back(),
    ensures
        enrolls(device, method, pin, passphrase, secret, output, token, log, at),
{
    let turn = |l: Seq<Answer>|
        enroll_turn(device, method, pin, passphrase, secret, output, token, l, at);
    let part = |l: Seq<Answer>| volume_key_stage(device, method, passphrase, pin, l, at);
    law_unlock_requests(device, method, passphrase, pin, log, at);
    assert forall|slot: i32| json_parsed(json_text(#[trigger] stamped(token, slot))) is Ok by {
        lemma_stamped_shallow(token, slot);
    }
    if unlock_method_ok(method) {
        lemma_key_course(device, method, passphrase, pin, log, at);
        match part(log) {
            Stage::Ask(_) => {},
            Stage::Fail(_) => {
                lemma_refused_part(part, turn, log, at);
            },
            Stage::Done(key, n) => {
                lemma_key_given(log, at, n, key);
                let add = Ask::AddKeyslot { device, key, passphrase: secret, minimal_pbkdf: true };
                if n < log.len() {
                    assert(part(log.take(n)) == part(log));
                    assert(turn(log.take(n)) == Turn::<Report>::Ask(add));
                    if granted(add, log[n]) {
                        let slot = log[n]->Number_0->Ok_0;
                        let text = json_text(stamped(token, slot));
                        let set = Ask::SetToken { device, token: -1i32, json: Some(text) };
                        assert(did(turn, log, at, add));
                        if n + 1 < log.len() {
                            assert(part(log.take(n + 1)) == part(log));
                            assert(log.take(n + 1)[n] == log[n]);
                            assert(turn(log.take(n + 1)) == Turn::<Report>::Ask(set));
                            if granted(set, log[n + 1]) {
                                assert(did(turn, log, at, set));
                            }
                        } else {
                            assert(log.last() == log[n]);
                        }
                    }
                }
            },
        }
    }
}

proof fn lemma_stamped_shallow(token: Members, slot: i32)
    requires
        flat(token),
    ensures
        shallow(stamped(token, slot)),
{
    let slots = JsonTree::Array(seq![JsonTree::Str(dec(slot as int))]);
    assert(nested(slots, 1)) by {
        reveal_with_fuel(nested, 2);
    }
    law_put_flat(token, "keyslots"@, slots);
    assert(nested(stamped(token, slot), 2));
}

proof fn lemma_fido2_token_flat(cred_id: Seq<u8>, salt: Seq<u8>, pin: bool)
    ensures
        flat(fido2_token(cred_id, salt, pin)),
{
    let m: Members = seq![];
    assert(flat(m));
    let v = JsonTree::Str(TOKEN_TYPE_FIDO2@);
    law_put_flat(m, "type"@, v);
    let m = put(m, "type"@, v);
    let v = JsonTree::Str(b64_text(cred_id));
    law_put_flat(m, "fido2-credential"@, v);
    let m = put(m, "fido2-credential"@, v);
    let v = JsonTree::Str(b64_text(salt));
    law_put_flat(m, "fido2-salt"@, v);
    let m = put(m, "fido2-salt"@, v);
    let v = JsonTree::Str(FIDO2_RP_ID@);
    law_put_flat(m, "fido2-rp"@, v);
    let m = put(m, "fido2-rp"@, v);
    law_put_flat(m, "fido2-clientPin-required"@, JsonTree::Bool(pin));
    let m = put(m, "fido2-clientPin-required"@, JsonTree::Bool(pin));
    law_put_flat(m, "fido2-up-required"@, JsonTree::Bool(true));
    let m = put(m, "fido2-up-required"@, JsonTree::Bool(true));
    law_put_flat(m, "fido2-uv-required"@, JsonTree::Bool(false));
}

proof fn lemma_tpm2_token_flat(
    blob: Seq<u8>,
    policy_hash: Seq<u8>,
    primary_alg: Seq<char>,
    srk_blob: Seq<u8>,
    pcrs: Seq<i64>,
    pin: bool,
)
    ensures
        flat(tpm2_token(blob, policy_hash, primary_alg, srk_blob, pcrs, pin)),
{
    reveal_with_fuel(nested, 2);
    let numbers = JsonTree::Array(integers(pcrs));
    assert(nested(numbers, 1)) by {
        assert forall|i: int| 0 <= i < pcrs.len() implies scalar(#[trigger] integers(pcrs)[i]) by {
            assert(integers(pcrs)[i] == JsonTree::Number(dec(pcrs[i] as int)));
        }
    }
    let none = JsonTree::Array(seq![]);
    assert(nested(none, 1));
    let m: Members = seq![];
    assert(flat(m));
    let v = JsonTree::Str(TOKEN_TYPE_TPM2@);
    law_put_flat(m, "type"@, v);
    let m = put(m, "type"@, v);
    let v = JsonTree::Str(b64_text(blob));
    law_put_flat(m, "tpm2-blob"@, v);
    let m = put(m, "tpm2-blob"@, v);
    law_put_flat(m, "tpm2_blob"@, v);
    let m = put(m, "tpm2_blob"@, v);
    law_put_flat(m, "tpm2-pcrs"@, numbers);
    let m = put(m, "tpm2-pcrs"@, numbers);
    let v = JsonTree::Str("sha256"@);
    law_put_flat(m, "tpm2-pcr-bank"@, v);
    let m = put(m, "tpm2-pcr-bank"@, v);
    let v = JsonTree::Str(primary_alg);
    law_put_flat(m, "tpm2-primary-alg"@, v);
    let m = put(m, "tpm2-primary-alg"@, v);
    let v = JsonTree::Str(hex_text(policy_hash));
    law_put_flat(m, "tpm2-policy-hash"@, v);
    let m = put(m, "tpm2-policy-hash"@, v);
    law_put_flat(m, "tpm2-pin"@, JsonTree::Bool(pin));
    let m = put(m, "tpm2-pin"@, JsonTree::Bool(pin));
    law_put_flat(m, "tpm2_pubkey_pcrs"@, none);
    let m = put(m, "tpm2_pubkey_pcrs"@, none);
    let v = JsonTree::Str("sha256"@);
    law_put_flat(m, "tpm2_pcr_hash"@, v);
    let m = put(m, "tpm2_pcr_hash"@, v);
    law_put_flat(m, "tpm2_pcrlock"@, JsonTree::Bool(false));
    let m = put(m, "tpm2_pcrlock"@, JsonTree::Bool(false));
    law_put_flat(m, "tpm2_srk"@, JsonTree::Str(b64_text(srk_blob)));
}

/// Whether `t` is the token by which the secret that the TPM sealed to `sealed` is
/// unsealed again: of its type, with the blob, the PCRs that `pcrs` names, and whether a
/// PIN is asked for; and it belongs to the keyslot `slot` alone.
pub open spec fn tells_tpm2(
    t: JsonTree,
    sealed: SealResult,
    pcrs: Seq<char>,
    pin: Seq<char>,
    slot: i32,
) -> bool {
    &&& member_str(t, "type"@) == Some("systemd-tpm2"@)
    &&& token_slots(t) == seq![slot]
    &&& forall|id: Seq<char>| #[trigger]
        tpm2_ref(id, t) is Ok && ({
            let r = tpm2_ref(id, t)->Ok_0;
            &&& r.token_id == id
            &&& r.blob == sealed.blob@
            &&& r.pcr_bank == "sha256"@
            &&& r.pin_required == (pin.len() > 0)
            &&& pcr_indices(pcrs) is Ok ==> pcr_indices(r.pcrs) == pcr_indices(pcrs)
        })
    &&& member(t, "tpm2-pin"@) == Some(JsonTree::Bool(pin.len() > 0))
    &&& member_str(t, "tpm2_srk"@) == Some(b64_text(sealed.srk_blob@))
    &&& member_str(t, "tpm2-policy-hash"@) == Some(hex_text(sealed.policy_hash@))
    &&& member_str(t, "tpm2-primary-alg"@) == Some(sealed.primary_alg@)
}

proof fn lemma_tells_tpm2(
    sealed: SealResult,
    pcrs: Seq<char>,
    pin: Seq<char>,
    numbers: Seq<i64>,
    slot: i32,
)
    requires
        pcr_numbers(split(pcrs, '+')) == Ok::<Seq<i64>, Seq<char>>(numbers),
    ensures
        tells_tpm2(
            stamped(
                tpm2_token(
                    sealed.blob@,
                    sealed.policy_hash@,
                    sealed.primary_alg@,
                    sealed.srk_blob@,
                    numbers,
                    pin.len() > 0,
                ),
                slot,
            ),
            sealed,
            pcrs,
            pin,
            slot,
        ),
{
    let t = stamped(
        tpm2_token(
            sealed.blob@,
            sealed.policy_hash@,
            sealed.primary_alg@,
            sealed.srk_blob@,
            numbers,
            pin.len() > 0,
        ),
        slot,
    );
    assert forall|id: Seq<char>| #[trigger]
        tpm2_ref(id, t) is Ok && ({
            let r = tpm2_ref(id, t)->Ok_0;
            &&& r.token_id == id
            &&& r.blob == sealed.blob@
            &&& r.pcr_bank == "sha256"@
            &&& r.pin_required == (pin.len() > 0)
            &&& pcr_indices(pcrs) is Ok ==> pcr_indices(r.pcrs) == pcr_indices(pcrs)
        }) by {
        law_tpm2_token_round_trip(
            id,
            sealed.blob@,
            sealed.policy_hash@,
            sealed.primary_alg@,
            sealed.srk_blob@,
            numbers,
            pin.len() > 0,
            slot,
        );
        if pcr_indices(pcrs) is Ok {
            law_pcrs_survive_the_token(pcrs);
            assert(decimals(numbers) =~= Seq::new(numbers.len(), |i: int| dec(numbers[i] as int)));
        }
    }
    law_tpm2_token_round_trip(
        ""@,
        sealed.blob@,
        sealed.policy_hash@,
        sealed.primary_alg@,
        sealed.srk_blob@,
        numbers,
        pin.len() > 0,
        slot,
    );
    law_tpm2_token_members(
        sealed.blob@,
        sealed.policy_hash@,
        sealed.primary_alg@,
        sealed.srk_blob@,
        numbers,
        pin.len() > 0,
        slot,
    );
}

/// A TPM2 enrollment: it seals its own secret, to its own PCRs and under its own PIN; it
/// adds a keyslot that the secret opens, with the volume key that unlocking gave; and it
/// stores a token by which the secret is unsealed again, which asks for a PIN just where
/// the secret was sealed under one. What unlocks the volume now is no part of that. It
/// reports success once all three are done, and a failure only where one of its requests
/// was not met, or its arguments name no way to unlock or no PCRs.
pub proof fn law_enroll_tpm2(
    device: Seq<char>,
    passphrase: Seq<char>,
    pin: Seq<char>,
    pcrs: Seq<char>,
    method: Seq<char>,
    unlock_pin: Seq<char>,
    secret: Seq<u8>,
    log: Seq<Answer>,
)
    requires
        json_reads_back(),
    ensures
        ({
            let turn = |l: Seq<Answer>|
                enroll_tpm2_turn(device, passphrase, pin, pcrs, method, unlock_pin, secret, l);
            let opener = encode_utf8(b64_text(secret));
            match turn(log) {
                Turn::Ask(Ask::Seal { secret: s, pcrs: c, pin: p }) => {
                    log.len() == 0 && s == secret && c == pcrs && p == pin
                },
                Turn::Ask(Ask::AddKeyslot { device: d, key, passphrase: p, minimal_pbkdf }) => {
                    &&& d == device && p == opener && minimal_pbkdf
                    &&& key_given(log, 1, key)
                    &&& did(turn, log, 0, Ask::Seal { secret, pcrs, pin })
                },
                Turn::Ask(Ask::SetToken { device: d, token: id, json }) => {
                    &&& d == device && id == -1
                    &&& log[0] is Sealed && log[0]->Sealed_0 is Ok
                    &&& log.last() is Number && log.last()->Number_0 is Ok
                    &&& exists|t: JsonTree|
                        json == Some(#[trigger] json_text(t)) && tells_tpm2(
                            t,
                            log[0]->Sealed_0->Ok_0,
                            pcrs,
                            pin,
                            log.last()->Number_0->Ok_0,
                        )
                },
                Turn::Ask(a) => log.len() > 0 && unlocks(
                    device,
                    method,
                    passphrase,
                    unlock_pin,
                    log,
                    1,
                    a,
                ),
                Turn::Done(r) => if r.0 {
                    &&& r == (true, ""@, ""@)
                    &&& did(turn, log, 0, Ask::Seal { secret, pcrs, pin })
                    &&& exists|key: Seq<u8>| #[trigger]
                        key_given(log, 1, key) && did(
                            turn,
                            log,
                            0,
                            Ask::AddKeyslot { device, key, passphrase: opener, minimal_pbkdf: true },
                        )
                    &&& exists|t: JsonTree, slot: i32| #[trigger]
                        tells_tpm2(t, log[0]->Sealed_0->Ok_0, pcrs, pin, slot) && did(
                            turn,
                            log,
                            0,
                            Ask::SetToken { device, token: -1i32, json: Some(json_text(t)) },
                        )
                } else {
                    &&& r == (false, ""@, "Operation failed"@)
                    &&& was_refused(turn, log, 0) || !unlock_method_ok(method) || pcr_indices(
                        pcrs,
                    ) is Err
                },
            }
        }),
{
    let turn = |l: Seq<Answer>|
        enroll_tpm2_turn(device, passphrase, pin, pcrs, method, unlock_pin, secret, l);
    let seal = Ask::Seal { secret, pcrs, pin };
    assert(turn(log.take(0)) == Turn::<Report>::Ask(seal));
    if log.len() > 0 {
        assert(forall|k: int| 0 < k <= log.len() ==> #[trigger] log.take(k)[0] == log[0]);
        if pcr_indices(pcrs) is Ok {
            law_pcrs_survive_the_token(pcrs);
        }
        if granted(seal, log[0]) {
            assert(did(turn, log, 0, seal));
            let sealed = log[0]->Sealed_0->Ok_0;
            match pcr_numbers(split(pcrs, '+')) {
                Ok(numbers) => {
                    let token = tpm2_token(
                        sealed.blob@,
                        sealed.policy_hash@,
                        sealed.primary_alg@,
                        sealed.srk_blob@,
                        numbers,
                        pin.len() > 0,
                    );
                    let opener = encode_utf8(b64_text(secret));
                    let part = |l: Seq<Answer>|
                        enroll_turn(
                            device,
                            method,
                            unlock_pin,
                            passphrase,
                            opener,
                            ""@,
                            token,
                            l,
                            1,
                        );
                    lemma_tpm2_token_flat(
                        sealed.blob@,
                        sealed.policy_hash@,
                        sealed.primary_alg@,
                        sealed.srk_blob@,
                        numbers,
                        pin.len() > 0,
                    );
                    lemma_enrolls(
                        device,
                        method,
                        unlock_pin,
                        passphrase,
                        opener,
                        ""@,
                        token,
                        log,
                        1,
                    );
                    lemma_did_later(part, turn, log, 0, 1);
                    assert forall|slot: i32|
                        tells_tpm2(#[trigger] stamped(token, slot), sealed, pcrs, pin, slot) by {
                        lemma_tells_tpm2(sealed, pcrs, pin, numbers, slot);
                    }
                    assert(turn(log) == part(log));
                    match part(log) {
                        Turn::Done(r) => {
                            if r.0 {
                                let (key, slot) = choose|key: Seq<u8>, slot: i32|
                                    #![trigger key_given(log, 1, key), stamped(token, slot)]
                                    key_given(log, 1, key) && did(
                                        part,
                                        log,
                                        1,
                                        Ask::AddKeyslot {
                                            device,
                                            key,
                                            passphrase: opener,
                                            minimal_pbkdf: true,
                                        },
                                    ) && did(
                                        part,
                                        log,
                                        1,
                                        Ask::SetToken {
                                            device,
                                            token: -1i32,
                                            json: Some(json_text(stamped(token, slot))),
                                        },
                                    );
                                assert(tells_tpm2(stamped(token, slot), sealed, pcrs, pin, slot));
                            }
                        },
                        _ => {},
                    }
                },
                Err(_) => {},
            }
        }
    }
}

/// Whether `t` is the token by which a FIDO2 device is asked for the secret of `e`
/// again: of its type, with the credential and the salt, whether a PIN is asked for, and
/// that a touch is, for the relying party that the credential was made for; and it
/// belongs to the keyslot `slot` alone.
pub open spec fn tells_fido2(
    t: JsonTree,
    e: Fido2Enrollment,
    pin: Seq<char>,
    slot: i32,
) -> bool {
    &&& member_str(t, "type"@) == Some("systemd-fido2"@)
    &&& token_slots(t) == seq![slot]
    &&& fido2_ref(t) == Ok::<Fido2Ref, Seq<char>>(
        (Fido2Ref { cred_id: e.cred_id@, salt: e.salt@ }),
    )
    &&& member(t, "fido2-clientPin-required"@) == Some(JsonTree::Bool(pin.len() > 0))
    &&& member(t, "fido2-up-required"@) == Some(JsonTree::Bool(true))
    &&& member(t, "fido2-uv-required"@) == Some(JsonTree::Bool(false))
    &&& member_str(t, "fido2-rp"@) == Some(FIDO2_RP_ID@)
}

/// The credentials of the FIDO2 tokens of a header, in their order; none where they
/// cannot be read.
pub open spec fn credentials(area: Option<String>, creds: Seq<Seq<u8>>) -> bool {
    match fido2_refs_of(area_tree(area)) {
        Ok(refs) => creds.len() == refs.len() && forall|i: int|
            0 <= i < refs.len() ==> #[trigger] creds[i] == refs[i].cred_id,
        Err(_) => creds.len() == 0,
    }
}

/// Whether the header, which was read first, has enrolled devices, and those were looked
/// for.
pub open spec fn looked_for(log: Seq<Answer>) -> bool {
    &&& log.len() > 1 && log[0] is Text && log[1] is Names
    &&& !credentials(log[0]->Text_0, seq![])
}

/// Where the FIDO2 device yielded what it is enrolled by: after the header was read
/// and, where that has enrolled devices, after those were looked for.
pub open spec fn fido2_at(log: Seq<Answer>) -> int {
    if looked_for(log) {
        2
    } else {
        1
    }
}

/// A FIDO2 enrollment, once the device is known to be new: what it asks for and what it
/// reports.
spec fn enrolls_fido2(
    device: Seq<char>,
    passphrase: Seq<char>,
    pin: Seq<char>,
    path: Seq<char>,
    method: Seq<char>,
    unlock_pin: Seq<char>,
    log: Seq<Answer>,
    at: int,
) -> bool {
    let turn = |l: Seq<Answer>|
        enroll_new_fido2_turn(device, passphrase, pin, path, method, unlock_pin, l, at);
    let enroll = Ask::EnrollFido2 {
        path,
        pin: if pin.len() == 0 {
            None
        } else {
            Some(pin)
        },
    };
    match turn(log) {
        Turn::Ask(Ask::EnrollFido2 { path: p, pin: q }) => {
            log.len() == at && Turn::<Report>::Ask(enroll) == turn(log)
        },
        Turn::Ask(Ask::AddKeyslot { device: d, key, passphrase: p, minimal_pbkdf }) => {
            &&& at < log.len() && granted(enroll, log[at])
            &&& d == device && minimal_pbkdf
            &&& p == encode_utf8(b64_text(log[at]->Fido2_0->Ok_0.hmac_secret@))
            &&& key_given(log, at + 1, key)
            &&& did(turn, log, at, enroll)
        },
        Turn::Ask(Ask::SetToken { device: d, token: id, json }) => {
            &&& at < log.len() && granted(enroll, log[at])
            &&& d == device && id == -1
            &&& log.last() is Number && log.last()->Number_0 is Ok
            &&& exists|t: JsonTree|
                json == Some(#[trigger] json_text(t)) && tells_fido2(
                    t,
                    log[at]->Fido2_0->Ok_0,
                    pin,
                    log.last()->Number_0->Ok_0,
                )
        },
        Turn::Ask(a) => at < log.len() && granted(enroll, log[at]) && unlocks(
            device,
            method,
            passphrase,
            unlock_pin,
            log,
            at + 1,
            a,
        ),
        Turn::Done(r) => if r.0 {
            &&& r == (true, ""@, ""@)
            &&& at < log.len() && granted(enroll, log[at])
            &&& did(turn, log, at, enroll)
            &&& exists|key: Seq<u8>| #[trigger]
                key_given(log, at + 1, key) && did(
                    turn,
                    log,
                    at,
                    Ask::AddKeyslot {
                        device,
                        key,
                        passphrase: encode_utf8(
                            b64_text(log[at]->Fido2_0->Ok_0.hmac_secret@),
                        ),
                        minimal_pbkdf: true,
                    },
                )
            &&& exists|t: JsonTree, slot: i32| #[trigger]
                tells_fido2(t, log[at]->Fido2_0->Ok_0, pin, slot) && did(
                    turn,
                    log,
                    at,
                    Ask::SetToken { device, token: -1i32, json: Some(json_text(t)) },
                )
        } else {
            &&& r == failed()
            &&& was_refused(turn, log, at) || !unlock_method_ok(method)
        },
    }
}

proof fn lemma_enrolls_fido2(
    device: Seq<char>,
    passphrase: Seq<char>,
    pin: Seq<char>,
    path: Seq<char>,
    method: Seq<char>,
    unlock_pin: Seq<char>,
    log: Seq<Answer>,
    at: int,
)
    requires
        0 <= at <= log.len(),
        json_reads_back(),
    ensures
        enrolls_fido2(device, passphrase, pin, path, method, unlock_pin, log, at),
{
    let turn = |l: Seq<Answer>|
        enroll_new_fido2_turn(device, passphrase, pin, path, method, unlock_pin, l, at);
    let enroll = Ask::EnrollFido2 {
        path,
        pin: if pin.len() == 0 {
            None
        } else {
            Some(pin)
        },
    };
    assert(turn(log.take(at)) == Turn::<Report>::Ask(enroll));
    if at < log.len() {
        assert(forall|k: int| at < k <= log.len() ==> #[trigger] log.take(k)[at] == log[at]);
        if granted(enroll, log[at]) {
            assert(did(turn, log, at, enroll));
            let e = log[at]->Fido2_0->Ok_0;
            let token = fido2_token(e.cred_id@, e.salt@, pin.len() > 0);
            let opener = encode_utf8(b64_text(e.hmac_secret@));
            let from = at + 1;
            let part = |l: Seq<Answer>|
                enroll_turn(
                    device,
                    method,
                    unlock_pin,
                    passphrase,
                    opener,
                    ""@,
                    token,
                    l,
                    from,
                );
            lemma_fido2_token_flat(e.cred_id@, e.salt@, pin.len() > 0);
            lemma_enrolls(
                device,
                method,
                unlock_pin,
                passphrase,
                opener,
                ""@,
                token,
                log,
                from,
            );
            lemma_did_later(part, turn, log, at, from);
            assert forall|slot: i32|
                tells_fido2(#[trigger] stamped(token, slot), e, pin, slot) by {
                law_fido2_token_round_trip(e.cred_id@, e.salt@, pin.len() > 0, slot);
                law_fido2_token_members(e.cred_id@, e.salt@, pin.len() > 0, slot);
            }
            assert(turn(log) == part(log));
            match part(log) {
                Turn::Done(r) => {
                    if r.0 {
                        let (key, slot) = choose|key: Seq<u8>, slot: i32|
                            #![trigger key_given(log, from, key), stamped(token, slot)]
                            key_given(log, from, key) && did(
                                part,
                                log,
                                from,
                                Ask::AddKeyslot {
                                    device,
                                    key,
                                    passphrase: opener,
                                    minimal_pbkdf: true,
                                },
                            ) && did(
                                part,
                                log,
                                from,
                                Ask::SetToken {
                                    device,
                                    token: -1i32,
                                    json: Some(json_text(stamped(token, slot))),
                                },
                            );
                        assert(tells_fido2(stamped(token, slot), e, pin, slot));
                    }
                },
                _ => {},
            }
        }
    }
}

/// A FIDO2 enrollment: it looks for the credentials of the header on the device that it
/// is about, and refuses a device that has one; it enrolls that device, under its own
/// PIN; it adds a keyslot that the secret of the device opens, with the volume key that
/// unlocking gave; and it stores a token by which the device is asked for the secret
/// again, which asks for a PIN just where the device was enrolled under one. What unlocks
/// the volume now is no part of that. It reports success once all is done, and any other
/// failure only where one of its requests was not met, or it names no way to unlock.
#[verifier::spinoff_prover]
#[verifier::rlimit(60)]
pub proof fn law_enroll_fido2(
    device: Seq<char>,
    passphrase: Seq<char>,
    pin: Seq<char>,
    path: Seq<char>,
    method: Seq<char>,
    unlock_pin: Seq<char>,
    log: Seq<Answer>,
)
    requires
        json_reads_back(),
    ensures
        ({
            let turn = |l: Seq<Answer>|
                enroll_fido2_turn(device, passphrase, pin, path, method, unlock_pin, l);
            let at = fido2_at(log);
            let enroll = Ask::EnrollFido2 {
                path,
                pin: if pin.len() == 0 {
                    None
                } else {
                    Some(pin)
                },
            };
            let opener = encode_utf8(b64_text(log[at]->Fido2_0->Ok_0.hmac_secret@));
            let enrolled = at < log.len() && log[at] is Fido2 && log[at]->Fido2_0 is Ok && did(
                turn,
                log,
                0,
                enroll,
            );
            match turn(log) {
                Turn::Ask(Ask::Metadata { device: d }) if log.len() == 0 => d == device,
                Turn::Ask(Ask::EnrolledPaths { paths, creds }) => {
                    &&& log.len() == 1 && log[0] is Text
                    &&& paths == seq![path]
                    &&& credentials(log[0]->Text_0, creds)
                },
                Turn::Ask(Ask::EnrollFido2 { path: p, pin: q }) => {
                    &&& p == path && q == if pin.len() == 0 {
                        None
                    } else {
                        Some(pin)
                    }
                    &&& log.len() == at
                    &&& log.len() == 1 ==> credentials(log[0]->Text_0, seq![])
                    &&& log.len() == 2 ==> log[1] is Names && log[1]->Names_0@.len() == 0
                },
                Turn::Ask(Ask::AddKeyslot { device: d, key, passphrase: p, minimal_pbkdf }) => {
                    &&& enrolled
                    &&& d == device && p == opener && minimal_pbkdf
                    &&& key_given(log, at + 1, key)
                },
                Turn::Ask(Ask::SetToken { device: d, token: id, json }) => {
                    &&& at < log.len() && granted(enroll, log[at])
                    &&& d == device && id == -1
                    &&& log.last() is Number && log.last()->Number_0 is Ok
                    &&& exists|t: JsonTree|
                        json == Some(#[trigger] json_text(t)) && tells_fido2(
                            t,
                            log[at]->Fido2_0->Ok_0,
                            pin,
                            log.last()->Number_0->Ok_0,
                        )
                },
                Turn::Ask(a) => at < log.len() && granted(enroll, log[at]) && unlocks(
                    device,
                    method,
                    passphrase,
                    unlock_pin,
                    log,
                    at + 1,
                    a,
                ),
                Turn::Done(r) => if r.0 {
                    &&& r == (true, ""@, ""@)
                    &&& enrolled
                    &&& exists|key: Seq<u8>| #[trigger]
                        key_given(log, at + 1, key) && did(
                            turn,
                            log,
                            0,
                            Ask::AddKeyslot { device, key, passphrase: opener, minimal_pbkdf: true },
                        )
                    &&& exists|t: JsonTree, slot: i32| #[trigger]
                        tells_fido2(t, log[at]->Fido2_0->Ok_0, pin, slot) && did(
                            turn,
                            log,
                            0,
                            Ask::SetToken { device, token: -1i32, json: Some(json_text(t)) },
                        )
                } else if looked_for(log) && log[1]->Names_0@.len() > 0 {
                    r == (false, ""@, "This FIDO2 token is already enrolled on this volume"@)
                } else {
                    &&& r == (false, ""@, "Operation failed"@)
                    &&& was_refused(turn, log, 0) || !unlock_method_ok(method)
                },
            }
        }),
{
    let turn = |l: Seq<Answer>|
        enroll_fido2_turn(device, passphrase, pin, path, method, unlock_pin, l);
    assert(turn(log.take(0)) == Turn::<Report>::Ask(Ask::Metadata { device }));
    if log.len() > 0 && log[0] is Text {
        assert(forall|k: int| 0 < k <= log.len() ==> #[trigger] log.take(k)[0] == log[0]);
        let t = area_tree(log[0]->Text_0);
        let creds = enrolled_creds(t);
        assert(credentials(log[0]->Text_0, creds));
        assert(credentials(log[0]->Text_0, seq![]) == (creds.len() == 0));
        if creds.len() == 0 {
            assert(creds =~= seq![]);
            let part = |l: Seq<Answer>|
                enroll_new_fido2_turn(device, passphrase, pin, path, method, unlock_pin, l, 1);
            lemma_enrolls_fido2(device, passphrase, pin, path, method, unlock_pin, log, 1);
            assert forall|k: int| 1 <= k < log.len() implies turn(#[trigger] log.take(k)) == part(
                log.take(k),
            ) by {}
            lemma_did_later(part, turn, log, 0, 1);
        } else {
            let ask = Ask::EnrolledPaths { paths: seq![path], creds };
            assert(turn(log.take(1)) == Turn::<Report>::Ask(ask));
            if log.len() > 1 {
                assert(forall|k: int| 1 < k <= log.len() ==> #[trigger] log.take(k)[1] == log[1]);
                if log[1] is Names && log[1]->Names_0@.len() == 0 {
                    let part = |l: Seq<Answer>|
                        enroll_new_fido2_turn(
                            device,
                            passphrase,
                            pin,
                            path,
                            method,
                            unlock_pin,
                            l,
                            2,
                        );
                    lemma_enrolls_fido2(device, passphrase, pin, path, method, unlock_pin, log, 2);
                    assert forall|k: int| 2 <= k < log.len() implies turn(#[trigger] log.take(k))
                        == part(log.take(k)) by {}
                    lemma_did_later(part, turn, log, 0, 2);
                }
            }
        }
    }
}

/// A recovery enrollment: it adds a keyslot that the recovery key opens, with the volume
/// key that unlocking gave, and stores a token that says of the keyslot that it is one.
/// It reports success, and gives out the recovery key, once both are done, and a failure
/// only where one of its requests was not met, or it names no way to unlock.
pub proof fn law_enroll_recovery(
    device: Seq<char>,
    passphrase: Seq<char>,
    method: Seq<char>,
    pin: Seq<char>,
    key: Seq<char>,
    log: Seq<Answer>,
)
    requires
        json_reads_back(),
    ensures
        ({
            let turn = |l: Seq<Answer>|
                enroll_recovery_turn(device, passphrase, method, pin, key, l);
            match turn(log) {
                Turn::Ask(Ask::AddKeyslot { device: d, key: k, passphrase: p, minimal_pbkdf }) => {
                    &&& d == device && p == encode_utf8(key) && minimal_pbkdf
                    &&& key_given(log, 0, k)
                },
                Turn::Ask(Ask::SetToken { device: d, token: id, json }) => {
                    &&& d == device && id == -1
                    &&& log.last() is Number && log.last()->Number_0 is Ok
                    &&& exists|t: JsonTree|
                        json == Some(#[trigger] json_text(t)) && tells_recovery(
                            t,
                            log.last()->Number_0->Ok_0,
                        )
                },
                Turn::Ask(a) => unlocks(device, method, passphrase, pin, log, 0, a),
                Turn::Done(r) => if r.0 {
                    &&& r == (true, key, ""@)
                    &&& exists|k: Seq<u8>| #[trigger]
                        key_given(log, 0, k) && did(
                            turn,
                            log,
                            0,
                            Ask::AddKeyslot {
                                device,
                                key: k,
                                passphrase: encode_utf8(key),
                                minimal_pbkdf: true,
                            },
                        )
                    &&& exists|t: JsonTree, slot: i32| #[trigger]
                        tells_recovery(t, slot) && did(
                            turn,
                            log,
                            0,
                            Ask::SetToken { device, token: -1i32, json: Some(json_text(t)) },
                        )
                } else {
                    &&& r == (false, ""@, "Operation failed"@)
                    &&& was_refused(turn, log, 0) || !unlock_method_ok(method)
                },
            }
        }),
{
    let turn = |l: Seq<Answer>| enroll_recovery_turn(device, passphrase, method, pin, key, l);
    let token = recovery_token();
    let part = |l: Seq<Answer>|
        enroll_turn(device, method, pin, passphrase, encode_utf8(key), key, token, l, 0);
    let m: Members = seq![];
    assert(flat(m));
    law_put_flat(m, "type"@, JsonTree::Str(TOKEN_TYPE_RECOVERY@));
    lemma_enrolls(device, method, pin, passphrase, encode_utf8(key), key, token, log, 0);
    lemma_did_later(part, turn, log, 0, 0);
    assert forall|slot: i32| tells_recovery(#[trigger] stamped(token, slot), slot) by {
        law_recovery_token_round_trip(slot);
    }
    match part(log) {
        Turn::Done(r) => {
            if r.0 {
                let (k, slot) = choose|k: Seq<u8>, slot: i32|
                    #![trigger key_given(log, 0, k), stamped(token, slot)]
                    key_given(log, 0, k) && did(
                        part,
                        log,
                        0,
                        Ask::AddKeyslot {
                            device,
                            key: k,
                            passphrase: encode_utf8(key),
                            minimal_pbkdf: true,
                        },
                    ) && did(
                        part,
                        log,
                        0,
                        Ask::SetToken {
                            device,
                            token: -1i32,
                            json: Some(json_text(stamped(token, slot))),
                        },
                    );
                assert(tells_recovery(stamped(token, slot), slot));
            }
        },
        _ => {},
    }
}

/// Whether `t` is a recovery token that belongs to the keyslot `slot` alone.
pub open spec fn tells_recovery(t: JsonTree, slot: i32) -> bool {
    member_str(t, "type"@) == Some("systemd-recovery"@) && token_slots(t) == seq![slot]
}

/// Enrolling a passphrase: it adds a keyslot that the new passphrase opens, with the
/// volume key that unlocking by the existing one gave, and stores no token. A passphrase
/// is stretched as it should be. It reports success once that is done, and a failure only
/// where one of its requests was not met, or it names no way to unlock.
pub proof fn law_enroll_passphrase(
    device: Seq<char>,
    existing: Seq<char>,
    new: Seq<char>,
    method: Seq<char>,
    pin: Seq<char>,
    log: Seq<Answer>,
)
    ensures
        ({
            let turn = |l: Seq<Answer>|
                enroll_passphrase_turn(device, existing, new, method, pin, l);
            match turn(log) {
                Turn::Ask(Ask::AddKeyslot { device: d, key, passphrase: p, minimal_pbkdf }) => {
                    &&& d == device && p == encode_utf8(new) && !minimal_pbkdf
                    &&& key_given(log, 0, key)
                },
                Turn::Ask(a) => unlocks(device, method, existing, pin, log, 0, a),
                Turn::Done(r) => if r.0 {
                    &&& r == (true, ""@, ""@)
                    &&& exists|key: Seq<u8>| #[trigger]
                        key_given(log, 0, key) && did(
                            turn,
                            log,
                            0,
                            Ask::AddKeyslot {
                                device,
                                key,
                                passphrase: encode_utf8(new),
                                minimal_pbkdf: false,
                            },
                        )
                } else {
                    &&& r == (false, ""@, "Operation failed"@)
                    &&& was_refused(turn, log, 0) || !unlock_method_ok(method)
                },
            }
        }),
{
    let turn = |l: Seq<Answer>| enroll_passphrase_turn(device, existing, new, method, pin, l);
    let part = |l: Seq<Answer>| volume_key_stage(device, method, existing, pin, l, 0);
    law_unlock_requests(device, method, existing, pin, log, 0);
    if unlock_method_ok(method) {
        lemma_key_course(device, method, existing, pin, log, 0);
        match part(log) {
            Stage::Ask(_) => {},
            Stage::Fail(_) => {
                lemma_refused_part(part, turn, log, 0);
            },
            Stage::Done(key, n) => {
                lemma_key_given(log, 0, n, key);
                if n < log.len() {
                    assert(part(log.take(n)) == part(log));
                    let add = Ask::AddKeyslot {
                        device,
                        key,
                        passphrase: encode_utf8(new),
                        minimal_pbkdf: false,
                    };
                    assert(turn(log.take(n)) == Turn::<Report>::Ask(add));
                }
            },
        }
    }
}

pub(crate) proof fn lemma_key_given(log: Seq<Answer>, at: int, n: int, key: Seq<u8>)
    requires
        0 <= at <= n <= log.len(),
        key_given(log.take(n), at, key),
    ensures
        key_given(log, at, key),
{
    let i = choose|i: int| at <= i < log.take(n).len() && gives_key(#[trigger] log.take(n)[i], key);
    assert(log[i] == log.take(n)[i]);
}

} // verus!
