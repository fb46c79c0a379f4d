//! The operations behind the D-Bus methods.
//!
//! An operation that fails gives its caller no more than "Operation failed";
//! what went wrong is for the log. Opening and closing a volume are the
//! exception: their failures hold no secret.

use vstd::prelude::*;
use vstd::utf8::encode_utf8;

use crate::auth::{Refusal, SvcError};
use crate::codec::{b64_encode, b64_text, law_base64_round_trip, Secret};
use crate::constants::{TOKEN_TYPE_FIDO2, TOKEN_TYPE_RECOVERY, TOKEN_TYPE_TPM2};
use crate::devices::{partition, removable};
use crate::error::Error;
use crate::facts::{asks, holds, settled, Facts, Found, World};
use crate::fido2::FIDO2_RP_ID;
use crate::format::{
    container_stage, create_image_file, create_image_stage, format_container, format_reads,
    format_removable_partition, format_turn,
};
use crate::host::{Answer, Ask, KeyslotsArea, Next, PathKind, Request, Stage, Step, Turn};
use crate::json::{
    array, ascends, flat, integer, json_parsed, json_text, law_put, law_put_flat, member,
    member_str, nested, put, read_as, readable, scalar, text_of, trees,
    value_tree, JsonTree, Members, ObjectBuilder,
};
use crate::luks::{
    fido2_ref, fido2_refs_of, fido2_token_refs, find_token_for_keyslot, keyslot_list, keyslots_of,
    list_keyslots, opt_tree, pcr_item, slot_map, slot_numbers, slot_owner, token_entries,
    token_slots, tokens_by_type, tokens_of, tpm2_ref, Fido2Ref, Tpm2Ref,
};
use crate::order::{sort_of, views};
use crate::text::{
    bytes_of, chars_of, clone_strings, concat, dec, dec_i64, hex_encode, hex_text, join,
    law_decimal_is_plain, law_decimal_round_trip,
    law_split_join, parse_i64, parse_i64_spec, split, split_chars, starts_with, str_eq,
    str_starts_with, texts, trim, trim_str,
};
use crate::tpm2::{part_indices, pcr_indices, SealResult};
use crate::volume::{
    activate_stage, activate_volume, add_keyslot_by_volume_key, add_keyslot_stage, changes,
    deactivate_stage, derive_stage, deactivate_volume, destroy_keyslot, destroy_stage, get_volume_key,
    law_unlock_changes_nothing, mapper_name_ok, metadata_stage, outcome_answer, outcome_stage,
    read_metadata, set_token, set_token_stage, verify_passphrase, verify_passphrase_stage,
    verify_token, verify_token_stage, volume_key_stage,
};

verus! {

// ---------------------------------------------------------------------------
// JSON
// ---------------------------------------------------------------------------

/// A FIDO2 token, without the keyslots that it belongs to.
pub open spec fn fido2_token(cred_id: Seq<u8>, salt: Seq<u8>, pin: bool) -> Members {
    let m = put(seq![], "type"@, JsonTree::Str(TOKEN_TYPE_FIDO2@));
    let m = put(m, "fido2-credential"@, JsonTree::Str(b64_text(cred_id)));
    let m = put(m, "fido2-salt"@, JsonTree::Str(b64_text(salt)));
    let m = put(m, "fido2-rp"@, JsonTree::Str(FIDO2_RP_ID@));
    let m = put(m, "fido2-clientPin-required"@, JsonTree::Bool(pin));
    let m = put(m, "fido2-up-required"@, JsonTree::Bool(true));
    put(m, "fido2-uv-required"@, JsonTree::Bool(false))
}

/// The FIDO2 token for a credential, without the keyslots that it belongs to.
pub fn fido2_token_json(cred_id: &[u8], salt: &[u8], client_pin_required: bool) -> (b: ObjectBuilder)
    ensures
        b@ == fido2_token(cred_id@, salt@, client_pin_required),
        flat(b@),
{
    let cred = b64_encode(cred_id);
    let salt = b64_encode(salt);
    ObjectBuilder::new().with_str("type", TOKEN_TYPE_FIDO2).with_str(
        "fido2-credential",
        cred.as_str(),
    ).with_str("fido2-salt", salt.as_str()).with_str("fido2-rp", FIDO2_RP_ID).with_bool(
        "fido2-clientPin-required",
        client_pin_required,
    ).with_bool("fido2-up-required", true).with_bool("fido2-uv-required", false)
}

/// The JSON integers `n`.
pub open spec fn integers(n: Seq<i64>) -> Seq<JsonTree> {
    Seq::new(n.len(), |i: int| JsonTree::Number(dec(n[i] as int)))
}

fn integer_array(n: &[i64]) -> (v: serde_json::Value)
    ensures
        value_tree(v) == JsonTree::Array(integers(n@)),
        nested(value_tree(v), 1),
{
    let mut a: Vec<serde_json::Value> = Vec::new();
    for i in 0..n.len()
        invariant
            a@.len() == i,
            forall|k: int|
                0 <= k < i ==> value_tree(#[trigger] a@[k]) == JsonTree::Number(dec(n@[k] as int)),
    {
        a.push(integer(n[i]));
    }
    assert(trees(a@) =~= integers(n@));
    assert(nested(JsonTree::Array(integers(n@)), 1)) by {
        reveal_with_fuel(nested, 2);
        assert forall|i: int| 0 <= i < n@.len() implies scalar(#[trigger] integers(n@)[i]) by {
            assert(integers(n@)[i] == JsonTree::Number(dec(n@[i] as int)));
        }
    }
    array(a)
}

/// A TPM2 token, without the keyslots that it belongs to. The sealed blob stands
/// in it under both of the spellings that readers look for.
pub open spec fn tpm2_token(
    blob: Seq<u8>,
    policy_hash: Seq<u8>,
    primary_alg: Seq<char>,
    srk_blob: Seq<u8>,
    pcrs: Seq<i64>,
    pin: bool,
) -> Members {
    let m = put(seq![], "type"@, JsonTree::Str(TOKEN_TYPE_TPM2@));
    let m = put(m, "tpm2-blob"@, JsonTree::Str(b64_text(blob)));
    let m = put(m, "tpm2_blob"@, JsonTree::Str(b64_text(blob)));
    let m = put(m, "tpm2-pcrs"@, JsonTree::Array(integers(pcrs)));
    let m = put(m, "tpm2-pcr-bank"@, JsonTree::Str("sha256"@));
    let m = put(m, "tpm2-primary-alg"@, JsonTree::Str(primary_alg));
    let m = put(m, "tpm2-policy-hash"@, JsonTree::Str(hex_text(policy_hash)));
    let m = put(m, "tpm2-pin"@, JsonTree::Bool(pin));
    let m = put(m, "tpm2_pubkey_pcrs"@, JsonTree::Array(seq![]));
    let m = put(m, "tpm2_pcr_hash"@, JsonTree::Str("sha256"@));
    let m = put(m, "tpm2_pcrlock"@, JsonTree::Bool(false));
    put(m, "tpm2_srk"@, JsonTree::Str(b64_text(srk_blob)))
}

/// The TPM2 token for a sealed secret, without the keyslots that it belongs to.
pub fn tpm2_token_json(sealed: &SealResult, pcr_list: &[i64], pin: bool) -> (b: ObjectBuilder)
    ensures
        b@ == tpm2_token(
            sealed.blob@,
            sealed.policy_hash@,
            sealed.primary_alg@,
            sealed.srk_blob@,
            pcr_list@,
            pin,
        ),
        flat(b@),
{
    let blob = b64_encode(sealed.blob.as_slice());
    let srk = b64_encode(sealed.srk_blob.as_slice());
    let policy_hash = hex_encode(sealed.policy_hash.as_slice());
    let none: Vec<serde_json::Value> = Vec::new();
    assert(trees(none@) =~= seq![]);
    ObjectBuilder::new().with_str("type", TOKEN_TYPE_TPM2).with_str(
        "tpm2-blob",
        blob.as_str(),
    ).with_str("tpm2_blob", blob.as_str()).with("tpm2-pcrs", integer_array(pcr_list)).with_str(
        "tpm2-pcr-bank",
        "sha256",
    ).with_str("tpm2-primary-alg", sealed.primary_alg).with_str(
        "tpm2-policy-hash",
        policy_hash.as_str(),
    ).with_bool("tpm2-pin", pin).with("tpm2_pubkey_pcrs", array(none)).with_str(
        "tpm2_pcr_hash",
        "sha256",
    ).with_bool("tpm2_pcrlock", false).with_str("tpm2_srk", srk.as_str())
}

/// A recovery token, without the keyslots that it belongs to.
pub open spec fn recovery_token() -> Members {
    put(seq![], "type"@, JsonTree::Str(TOKEN_TYPE_RECOVERY@))
}

/// The recovery token, without the keyslots that it belongs to.
pub fn recovery_token_json() -> (b: ObjectBuilder)
    ensures
        b@ == recovery_token(),
        flat(b@),
{
    ObjectBuilder::new().with_str("type", TOKEN_TYPE_RECOVERY)
}

/// A list of keyslots as a JSON object from numbers to types.
pub open spec fn slots_object(e: Seq<(i32, Seq<char>)>) -> Members
    decreases e.len(),
{
    if e.len() == 0 {
        seq![]
    } else {
        put(slots_object(e.drop_last()), dec(e.last().0 as int), JsonTree::Str(e.last().1))
    }
}

/// The keyslots of a header as JSON: `{"0": "luks2", ...}`.
pub fn keyslots_json(meta: Option<&serde_json::Value>) -> (r: String)
    ensures
        r@ == json_text(JsonTree::Object(slots_object(keyslots_of(opt_tree(meta))))),
{
    let e = keyslot_list(meta);
    let ghost t = views(e@);
    let mut b = ObjectBuilder::new();
    assert(slots_object(t.take(0)) =~= seq![]);
    for i in 0..e.len()
        invariant
            t == views(e@),
            b@ == slots_object(t.take(i as int)),
    {
        assert(t.take(i + 1).drop_last() =~= t.take(i as int));
        let key = dec_i64(e[i].0 as i64);
        b = b.with_str(key.as_str(), e[i].1.as_str());
    }
    assert(t.take(t.len() as int) =~= t);
    text_of(&b.build())
}

/// A token and its keyslots as JSON: `[number, [slot, ...]]`.
pub open spec fn token_pair(e: (i32, Seq<i32>)) -> JsonTree {
    JsonTree::Array(
        seq![
            JsonTree::Number(dec(e.0 as int)),
            JsonTree::Array(Seq::new(e.1.len(), |i: int| JsonTree::Number(dec(e.1[i] as int)))),
        ],
    )
}

/// The tokens of a type as JSON: `[[number, [slot, ...]], ...]`.
pub open spec fn tokens_array(e: Seq<(i32, Seq<i32>)>) -> JsonTree {
    JsonTree::Array(Seq::new(e.len(), |i: int| token_pair(e[i])))
}

fn token_pair_json(id: i32, slots: &Vec<i32>) -> (v: serde_json::Value)
    ensures
        value_tree(v) == token_pair((id, slots@)),
{
    let mut a: Vec<serde_json::Value> = Vec::new();
    for i in 0..slots.len()
        invariant
            a@.len() == i,
            forall|k: int|
                0 <= k < i ==> value_tree(#[trigger] a@[k]) == JsonTree::Number(
                    dec(slots@[k] as int),
                ),
    {
        a.push(integer(slots[i] as i64));
    }
    assert(trees(a@) =~= Seq::new(slots@.len(), |i: int| JsonTree::Number(dec(slots@[i] as int))));
    let mut pair: Vec<serde_json::Value> = Vec::new();
    pair.push(integer(id as i64));
    pair.push(array(a));
    assert(trees(pair@) =~= token_pair((id, slots@))->Array_0);
    array(pair)
}

/// The tokens of the given type as JSON: `[[number, [slot, ...]], ...]`.
pub fn tokens_json(meta: Option<&serde_json::Value>, token_type: &str) -> (r: String)
    ensures
        r@ == json_text(
            tokens_array(
                sort_of::<(i32, Vec<i32>)>(
                    token_entries(tokens_of(opt_tree(meta)), token_type@),
                ),
            ),
        ),
{
    let e = tokens_by_type(meta, token_type);
    let ghost t = views(e@);
    let mut a: Vec<serde_json::Value> = Vec::new();
    for i in 0..e.len()
        invariant
            t == views(e@),
            a@.len() == i,
            forall|k: int| 0 <= k < i ==> value_tree(#[trigger] a@[k]) == token_pair(t[k]),
    {
        a.push(token_pair_json(e[i].0, &e[i].1));
    }
    assert(trees(a@) =~= tokens_array(t)->Array_0);
    text_of(&array(a))
}

// ---------------------------------------------------------------------------
// Operations
// ---------------------------------------------------------------------------

/// Whether the operation succeeded, its output, and what to tell the user.
pub type Triple = (bool, String, String);

/// The contents of a [`Triple`].
pub type Report = (bool, Seq<char>, Seq<char>);

/// The report of an operation that failed.
pub open spec fn failed() -> Report {
    (false, ""@, "Operation failed"@)
}

fn op_failed() -> (t: Triple)
    ensures
        t@ == failed(),
{
    (false, "".to_string(), "Operation failed".to_string())
}

/// What comes of an enrollment once the token and the new passphrase are there:
/// the volume key, a keyslot for the passphrase, and the token, which names the
/// keyslot.
pub open spec fn enroll_turn(
    device: Seq<char>,
    method: Seq<char>,
    pin: Seq<char>,
    passphrase: Seq<char>,
    secret: Seq<u8>,
    output: Seq<char>,
    token: Members,
    log: Seq<Answer>,
    at: int,
) -> Turn<Report> {
    match volume_key_stage(device, method, passphrase, pin, log, at) {
        Stage::Ask(r) => Turn::Ask(r),
        Stage::Fail(_) => Turn::Done(failed()),
        Stage::Done(key, n) => match add_keyslot_stage(device, key, secret, true, log, n) {
            Stage::Ask(r) => Turn::Ask(r),
            Stage::Fail(_) => Turn::Done(failed()),
            Stage::Done(slot, m) => match set_token_stage(
                device,
                -1i32,
                Some(json_text(stamped(token, slot))),
                log,
                m,
            ) {
                Stage::Ask(r) => Turn::Ask(r),
                Stage::Fail(_) => Turn::Done(failed()),
                Stage::Done(_, _) => Turn::Done((true, output, ""@)),
            },
        },
    }
}

/// The token `token`, belonging to the keyslot `slot`.
pub open spec fn stamped(token: Members, slot: i32) -> JsonTree {
    JsonTree::Object(
        put(token, "keyslots"@, JsonTree::Array(seq![JsonTree::Str(dec(slot as int))])),
    )
}

fn stamp(token: ObjectBuilder, slot: i32) -> (v: serde_json::Value)
    ensures
        value_tree(v) == stamped(token@, slot),
{
    let number = dec_i64(slot as i64);
    let mut slots: Vec<serde_json::Value> = Vec::new();
    slots.push(crate::json::string(number.as_str()));
    assert(trees(slots@) =~= seq![JsonTree::Str(dec(slot as int))]);
    token.with("keyslots", array(slots)).build()
}

/// The text of the token `token`, belonging to the keyslot `slot`; it reads back as
/// the token.
fn token_text(token: ObjectBuilder, slot: i32) -> (r: String)
    requires
        flat(token@),
    ensures
        r@ == json_text(stamped(token@, slot)),
        json_parsed(r@) == read_as(stamped(token@, slot)),
{
    proof {
        let slots = JsonTree::Array(seq![JsonTree::Str(dec(slot as int))]);
        assert(nested(slots, 1)) by {
            reveal_with_fuel(nested, 2);
        }
        law_put_flat(token@, "keyslots"@, slots);
        assert(nested(stamped(token@, slot), 2));
    }
    let v = stamp(token, slot);
    text_of(&v)
}

/// What an enrollment has prepared before the volume is touched.
struct Prepared {
    /// The passphrase of the new keyslot.
    secret: Secret,
    /// The output of the operation.
    output: String,
    /// The token, without the keyslot that it belongs to.
    token: ObjectBuilder,
}

/// The shared part of the enrollments. A keyslot of a random secret needs no
/// stretching.
fn enroll_token(
    device: &str,
    unlock_method: &str,
    unlock_pin: &str,
    passphrase: &str,
    prepared: Prepared,
    log: &Vec<Answer>,
    at: usize,
) -> (r: Next<Triple>)
    requires
        flat(prepared.token@),
        at <= log@.len(),
    ensures
        r@ matches Turn::Ask(Ask::SetToken { json: Some(text), .. }) ==> readable(text),
        r@ == enroll_turn(
            device@,
            unlock_method@,
            unlock_pin@,
            passphrase@,
            prepared.secret@,
            prepared.output@,
            prepared.token@,
            log@,
            at as int,
        ),
{
    proof {
        law_unlock_changes_nothing(
            device@,
            unlock_method@,
            passphrase@,
            unlock_pin@,
            log@,
            at as int,
        );
    }
    let (key, n) = match get_volume_key(device, unlock_method, passphrase, unlock_pin, log, at) {
        Step::Ask(r) => {
            return Next::Ask(r);
        },
        Step::Fail(_) => {
            return Next::Done(op_failed());
        },
        Step::Done(key, n) => (key, n),
    };
    let (slot, m) = match add_keyslot_by_volume_key(device, &key, &prepared.secret, true, log, n) {
        Step::Ask(r) => {
            return Next::Ask(r);
        },
        Step::Fail(_) => {
            return Next::Done(op_failed());
        },
        Step::Done(slot, m) => (slot, m),
    };
    let json = token_text(prepared.token, slot);
    match set_token(device, -1, Some(json.as_str()), log, m) {
        Step::Ask(r) => Next::Ask(r),
        Step::Fail(_) => Next::Done(op_failed()),
        Step::Done(_, _) => Next::Done((true, prepared.output, "".to_string())),
    }
}

/// Enrolling the recovery key `key`.
pub open spec fn enroll_recovery_turn(
    device: Seq<char>,
    passphrase: Seq<char>,
    method: Seq<char>,
    pin: Seq<char>,
    key: Seq<char>,
    log: Seq<Answer>,
) -> Turn<Report> {
    enroll_turn(
        device,
        method,
        pin,
        passphrase,
        encode_utf8(key),
        key,
        recovery_token(),
        log,
        0,
    )
}

/// Enrolls the recovery key `recovery_key`, made by
/// [`crate::recovery::make_recovery_key`], and gives it out.
pub fn op_enroll_recovery_key(
    device: &str,
    passphrase: &str,
    unlock_method: &str,
    unlock_pin: &str,
    recovery_key: &str,
    log: &Vec<Answer>,
) -> (r: Next<Triple>)
    ensures
        r@ matches Turn::Ask(Ask::SetToken { json: Some(text), .. }) ==> readable(text),
        r@ == enroll_recovery_turn(
            device@,
            passphrase@,
            unlock_method@,
            unlock_pin@,
            recovery_key@,
            log@,
        ),
{
    let prepared = Prepared {
        secret: Secret::new(bytes_of(recovery_key)),
        output: recovery_key.to_string(),
        token: recovery_token_json(),
    };
    enroll_token(device, unlock_method, unlock_pin, passphrase, prepared, log, 0)
}

/// The credentials that a header with the metadata `t` has enrolled; none where
/// they cannot be read.
pub open spec fn enrolled_creds(t: Option<JsonTree>) -> Seq<Seq<u8>> {
    match fido2_refs_of(t) {
        Ok(refs) => Seq::new(refs.len(), |i: int| refs[i].cred_id),
        Err(_) => seq![],
    }
}

fn existing_creds(meta: Option<&serde_json::Value>) -> (r: Vec<Vec<u8>>)
    ensures
        views(r@) == enrolled_creds(opt_tree(meta)),
{
    let mut r: Vec<Vec<u8>> = Vec::new();
    match fido2_token_refs(meta) {
        Ok(refs) => {
            for i in 0..refs.len()
                invariant
                    r@.len() == i,
                    forall|k: int| 0 <= k < i ==> (#[trigger] r@[k])@ == refs@[k].cred_id@,
            {
                r.push(crate::codec::copy_bytes(refs[i].cred_id.as_slice()));
            }
            assert(views(r@) =~= enrolled_creds(opt_tree(meta)));
        },
        Err(_) => {
            assert(views(r@) =~= enrolled_creds(opt_tree(meta)));
        },
    }
    r
}

/// Enrolling a FIDO2 device, from the point on where it is known not to be
/// enrolled already.
pub open spec fn enroll_new_fido2_turn(
    device: Seq<char>,
    passphrase: Seq<char>,
    pin: Seq<char>,
    path: Seq<char>,
    method: Seq<char>,
    unlock_pin: Seq<char>,
    log: Seq<Answer>,
    at: int,
) -> Turn<Report> {
    if at >= log.len() {
        Turn::Ask(
            Ask::EnrollFido2 {
                path,
                pin: if pin.len() == 0 {
                    None
                } else {
                    Some(pin)
                },
            },
        )
    } else {
        match log[at] {
            Answer::Fido2(Ok(e)) => enroll_turn(
                device,
                method,
                unlock_pin,
                passphrase,
                encode_utf8(b64_text(e.hmac_secret@)),
                ""@,
                fido2_token(e.cred_id@, e.salt@, pin.len() > 0),
                log,
                at + 1,
            ),
            _ => Turn::Done(failed()),
        }
    }
}

/// Enrolling the FIDO2 device at `path`. One that is enrolled already is
/// refused.
pub open spec fn enroll_fido2_turn(
    device: Seq<char>,
    passphrase: Seq<char>,
    pin: Seq<char>,
    path: Seq<char>,
    method: Seq<char>,
    unlock_pin: Seq<char>,
    log: Seq<Answer>,
) -> Turn<Report> {
    match metadata_stage(device, log, 0) {
        Stage::Ask(r) => Turn::Ask(r),
        Stage::Fail(_) => Turn::Done(failed()),
        Stage::Done(t, n) => {
            let creds = enrolled_creds(t);
            if creds.len() == 0 {
                enroll_new_fido2_turn(device, passphrase, pin, path, method, unlock_pin, log, n)
            } else if n >= log.len() {
                Turn::Ask(Ask::EnrolledPaths { paths: seq![path], creds })
            } else {
                match log[n] {
                    Answer::Names(names) => if names@.len() > 0 {
                        Turn::Done(
                            (false, ""@, "This FIDO2 token is already enrolled on this volume"@),
                        )
                    } else {
                        enroll_new_fido2_turn(
                            device,
                            passphrase,
                            pin,
                            path,
                            method,
                            unlock_pin,
                            log,
                            n + 1,
                        )
                    },
                    _ => Turn::Done(failed()),
                }
            }
        },
    }
}

fn enroll_new_fido2(
    device: &str,
    passphrase: &str,
    pin: &str,
    fido2_device: &str,
    unlock_method: &str,
    unlock_pin: &str,
    log: &Vec<Answer>,
    at: usize,
) -> (r: Next<Triple>)
    ensures
        r@ matches Turn::Ask(Ask::SetToken { json: Some(text), .. }) ==> readable(text),
        r@ == enroll_new_fido2_turn(
            device@,
            passphrase@,
            pin@,
            fido2_device@,
            unlock_method@,
            unlock_pin@,
            log@,
            at as int,
        ),
{
    if at >= log.len() {
        let pin = if pin.is_empty() {
            None
        } else {
            Some(pin.to_string())
        };
        return Next::Ask(Request::EnrollFido2 { path: fido2_device.to_string(), pin });
    }
    match &log[at] {
        Answer::Fido2(Ok(e)) => {
            let text = b64_encode(e.hmac_secret.as_slice());
            let prepared = Prepared {
                secret: Secret::new(bytes_of(text.as_str())),
                output: "".to_string(),
                token: fido2_token_json(e.cred_id.as_slice(), e.salt.as_slice(), !pin.is_empty()),
            };
            enroll_token(device, unlock_method, unlock_pin, passphrase, prepared, log, at + 1)
        },
        _ => Next::Done(op_failed()),
    }
}

/// Enrolls the FIDO2 device at `fido2_device`. The passphrase of the keyslot is
/// the base64 text of the token's secret.
pub fn op_enroll_fido2(
    device: &str,
    passphrase: &str,
    pin: &str,
    fido2_device: &str,
    unlock_method: &str,
    unlock_pin: &str,
    log: &Vec<Answer>,
) -> (r: Next<Triple>)
    ensures
        r@ matches Turn::Ask(Ask::SetToken { json: Some(text), .. }) ==> readable(text),
        r@ == enroll_fido2_turn(
            device@,
            passphrase@,
            pin@,
            fido2_device@,
            unlock_method@,
            unlock_pin@,
            log@,
        ),
{
    match read_metadata(device, log, 0) {
        Step::Ask(r) => Next::Ask(r),
        Step::Fail(_) => Next::Done(op_failed()),
        Step::Done(meta, n) => {
            let creds = existing_creds(meta.0.as_ref());
            assert(creds@.len() == views(creds@).len());
            if creds.len() == 0 {
                return enroll_new_fido2(
                    device,
                    passphrase,
                    pin,
                    fido2_device,
                    unlock_method,
                    unlock_pin,
                    log,
                    n,
                );
            }
            if n >= log.len() {
                let mut paths: Vec<String> = Vec::new();
                paths.push(fido2_device.to_string());
                assert(texts(paths@) =~= seq![fido2_device@]);
                return Next::Ask(Request::EnrolledPaths { paths, creds });
            }
            match &log[n] {
                Answer::Names(names) => {
                    if names.len() > 0 {
                        return Next::Done(
                            (
                                false,
                                "".to_string(),
                                "This FIDO2 token is already enrolled on this volume".to_string(),
                            ),
                        );
                    }
                    enroll_new_fido2(
                        device,
                        passphrase,
                        pin,
                        fido2_device,
                        unlock_method,
                        unlock_pin,
                        log,
                        n + 1,
                    )
                },
                _ => Next::Done(op_failed()),
            }
        },
    }
}

/// The numbers in a list of PCRs such as "7+11", or the part that is none.
pub open spec fn pcr_numbers(parts: Seq<Seq<char>>) -> Result<Seq<i64>, Seq<char>>
    decreases parts.len(),
{
    if parts.len() == 0 {
        Ok(seq![])
    } else {
        match pcr_numbers(parts.drop_last()) {
            Err(e) => Err(e),
            Ok(n) => {
                let p = trim(parts.last());
                if p.len() == 0 {
                    Ok(n)
                } else {
                    match parse_i64_spec(p) {
                        Some(k) => Ok(n.push(k)),
                        None => Err("bad PCR: "@ + p),
                    }
                }
            },
        }
    }
}

proof fn lemma_pcr_numbers_err(parts: Seq<Seq<char>>, n: int)
    requires
        0 <= n <= parts.len(),
        pcr_numbers(parts.take(n)) is Err,
    ensures
        pcr_numbers(parts) == pcr_numbers(parts.take(n)),
    decreases parts.len(),
{
    if n < parts.len() {
        assert(parts.drop_last().take(n) =~= parts.take(n));
        lemma_pcr_numbers_err(parts.drop_last(), n);
    } else {
        assert(parts.take(n) =~= parts);
    }
}

fn pcr_list(pcrs: &str) -> (r: Result<Vec<i64>, Error>)
    ensures
        match r {
            Ok(v) => pcr_numbers(split(pcrs@, '+')) == Ok::<Seq<i64>, Seq<char>>(v@),
            Err(e) => pcr_numbers(split(pcrs@, '+')) == Err::<Seq<i64>, Seq<char>>(e@),
        },
{
    let chars = chars_of(pcrs);
    let parts = split_chars(chars.as_slice(), '+');
    let ghost t = texts(parts@);
    let mut out: Vec<i64> = Vec::new();
    assert(out@ =~= seq![]);
    for i in 0..parts.len()
        invariant
            t == texts(parts@),
            t == split(pcrs@, '+'),
            pcr_numbers(t.take(i as int)) == Ok::<Seq<i64>, Seq<char>>(out@),
    {
        assert(t.take(i + 1).drop_last() =~= t.take(i as int));
        let p = trim_str(parts[i].as_str());
        if !p.as_str().is_empty() {
            let c = chars_of(p.as_str());
            match parse_i64(c.as_slice()) {
                Some(n) => {
                    out.push(n);
                },
                None => {
                    proof {
                        lemma_pcr_numbers_err(t, i + 1);
                    }
                    return Err(Error(concat("bad PCR: ", p.as_str())));
                },
            }
        }
    }
    assert(t.take(t.len() as int) =~= t);
    Ok(out)
}

/// Enrolling the secret `secret` in the TPM.
pub open spec fn enroll_tpm2_turn(
    device: Seq<char>,
    passphrase: Seq<char>,
    pin: Seq<char>,
    pcrs: Seq<char>,
    method: Seq<char>,
    unlock_pin: Seq<char>,
    secret: Seq<u8>,
    log: Seq<Answer>,
) -> Turn<Report> {
    if log.len() == 0 {
        Turn::Ask(Ask::Seal { secret, pcrs, pin })
    } else {
        match log[0] {
            Answer::Sealed(Ok(sealed)) => match pcr_numbers(split(pcrs, '+')) {
                Err(_) => Turn::Done(failed()),
                Ok(numbers) => enroll_turn(
                    device,
                    method,
                    unlock_pin,
                    passphrase,
                    encode_utf8(b64_text(secret)),
                    ""@,
                    tpm2_token(
                        sealed.blob@,
                        sealed.policy_hash@,
                        sealed.primary_alg@,
                        sealed.srk_blob@,
                        numbers,
                        pin.len() > 0,
                    ),
                    log,
                    1,
                ),
            },
            _ => Turn::Done(failed()),
        }
    }
}

/// Seals `secret`, made by [`crate::tpm2::new_secret`], in the TPM and enrolls
/// it. The passphrase of the keyslot is the base64 text of the secret.
pub fn op_enroll_tpm2(
    device: &str,
    passphrase: &str,
    pin: &str,
    pcrs: &str,
    unlock_method: &str,
    unlock_pin: &str,
    secret: &Secret,
    log: &Vec<Answer>,
) -> (r: Next<Triple>)
    ensures
        r@ matches Turn::Ask(Ask::SetToken { json: Some(text), .. }) ==> readable(text),
        r@ == enroll_tpm2_turn(
            device@,
            passphrase@,
            pin@,
            pcrs@,
            unlock_method@,
            unlock_pin@,
            secret@,
            log@,
        ),
{
    if log.len() == 0 {
        return Next::Ask(
            Request::Seal {
                secret: secret.copy(),
                pcrs: pcrs.to_string(),
                pin: pin.to_string(),
            },
        );
    }
    match &log[0] {
        Answer::Sealed(Ok(sealed)) => match pcr_list(pcrs) {
            Err(_) => Next::Done(op_failed()),
            Ok(numbers) => {
                let text = b64_encode(secret.as_bytes());
                let prepared = Prepared {
                    secret: Secret::new(bytes_of(text.as_str())),
                    output: "".to_string(),
                    token: tpm2_token_json(sealed, numbers.as_slice(), !pin.is_empty()),
                };
                enroll_token(device, unlock_method, unlock_pin, passphrase, prepared, log, 1)
            },
        },
        _ => Next::Done(op_failed()),
    }
}

/// Adding a keyslot for a passphrase.
pub open spec fn enroll_passphrase_turn(
    device: Seq<char>,
    existing: Seq<char>,
    new: Seq<char>,
    method: Seq<char>,
    pin: Seq<char>,
    log: Seq<Answer>,
) -> Turn<Report> {
    match volume_key_stage(device, method, existing, pin, log, 0) {
        Stage::Ask(r) => Turn::Ask(r),
        Stage::Fail(_) => Turn::Done(failed()),
        Stage::Done(key, n) => match add_keyslot_stage(
            device,
            key,
            encode_utf8(new),
            false,
            log,
            n,
        ) {
            Stage::Ask(r) => Turn::Ask(r),
            Stage::Fail(_) => Turn::Done(failed()),
            Stage::Done(_, _) => Turn::Done((true, ""@, ""@)),
        },
    }
}

/// Adds a keyslot for `new_passphrase`.
pub fn op_enroll_passphrase(
    device: &str,
    existing_passphrase: &str,
    new_passphrase: &str,
    unlock_method: &str,
    unlock_pin: &str,
    log: &Vec<Answer>,
) -> (r: Next<Triple>)
    ensures
        r@ == enroll_passphrase_turn(
            device@,
            existing_passphrase@,
            new_passphrase@,
            unlock_method@,
            unlock_pin@,
            log@,
        ),
{
    match get_volume_key(device, unlock_method, existing_passphrase, unlock_pin, log, 0) {
        Step::Ask(r) => Next::Ask(r),
        Step::Fail(_) => Next::Done(op_failed()),
        Step::Done(key, n) => {
            let secret = Secret::new(bytes_of(new_passphrase));
            match add_keyslot_by_volume_key(device, &key, &secret, false, log, n) {
                Step::Ask(r) => Next::Ask(r),
                Step::Fail(_) => Next::Done(op_failed()),
                Step::Done(_, _) => Next::Done((true, "".to_string(), "".to_string())),
            }
        },
    }
}

/// Whether `slot` is the only keyslot of a header with the metadata `t`.
pub open spec fn last_slot(t: Option<JsonTree>, slot: i32) -> bool {
    let slots = slot_map(keyslots_of(t));
    slots.dom().len() <= 1 && slots.dom().contains(slot)
}

/// Wiping a keyslot, from the point on where it is known not to be the last and
/// its token is gone.
pub open spec fn wipe_keyslot_turn(
    device: Seq<char>,
    slot: i32,
    log: Seq<Answer>,
    at: int,
) -> Turn<Report> {
    match destroy_stage(device, slot, log, at) {
        Stage::Ask(r) => Turn::Ask(r),
        Stage::Fail(_) => Turn::Done(failed()),
        Stage::Done(_, _) => Turn::Done((true, ""@, ""@)),
    }
}

/// Wiping the keyslot `slot`: the caller must be able to unlock the volume, the
/// last keyslot stays, and the token of the keyslot goes first.
pub open spec fn wipe_turn(
    device: Seq<char>,
    passphrase: Seq<char>,
    method: Seq<char>,
    pin: Seq<char>,
    slot: i32,
    log: Seq<Answer>,
) -> Turn<Report> {
    match volume_key_stage(device, method, passphrase, pin, log, 0) {
        Stage::Ask(r) => Turn::Ask(r),
        Stage::Fail(_) => Turn::Done(failed()),
        Stage::Done(_, n) => match metadata_stage(device, log, n) {
            Stage::Ask(r) => Turn::Ask(r),
            Stage::Fail(_) => Turn::Done(failed()),
            Stage::Done(t, m) => if last_slot(t, slot) {
                Turn::Done((false, ""@, "Cannot wipe the last remaining keyslot"@))
            } else if slot_owner(tokens_of(t), slot) >= 0 {
                match set_token_stage(device, slot_owner(tokens_of(t), slot), None, log, m) {
                    Stage::Ask(r) => Turn::Ask(r),
                    Stage::Fail(_) => Turn::Done(failed()),
                    Stage::Done(_, k) => wipe_keyslot_turn(device, slot, log, k),
                }
            } else {
                wipe_keyslot_turn(device, slot, log, m)
            },
        },
    }
}

fn wipe_keyslot(device: &str, slot: i32, log: &Vec<Answer>, at: usize) -> (r: Next<Triple>)
    ensures
        r@ == wipe_keyslot_turn(device@, slot, log@, at as int),
{
    match destroy_keyslot(device, slot, log, at) {
        Step::Ask(r) => Next::Ask(r),
        Step::Fail(_) => Next::Done(op_failed()),
        Step::Done(_, _) => Next::Done((true, "".to_string(), "".to_string())),
    }
}

/// Wipes the keyslot `slot`.
pub fn op_wipe_slot(
    device: &str,
    passphrase: &str,
    unlock_method: &str,
    pin: &str,
    slot: i32,
    log: &Vec<Answer>,
) -> (r: Next<Triple>)
    ensures
        r@ == wipe_turn(device@, passphrase@, unlock_method@, pin@, slot, log@),
{
    let n = match get_volume_key(device, unlock_method, passphrase, pin, log, 0) {
        Step::Ask(r) => {
            return Next::Ask(r);
        },
        Step::Fail(_) => {
            return Next::Done(op_failed());
        },
        Step::Done(_, n) => n,
    };
    let (meta, m) = match read_metadata(device, log, n) {
        Step::Ask(r) => {
            return Next::Ask(r);
        },
        Step::Fail(_) => {
            return Next::Done(op_failed());
        },
        Step::Done(meta, m) => (meta, m),
    };
    let slots = list_keyslots(meta.0.as_ref());
    if slots.len() <= 1 && slots.contains_key(&slot) {
        return Next::Done(
            (false, "".to_string(), "Cannot wipe the last remaining keyslot".to_string()),
        );
    }
    let token = find_token_for_keyslot(meta.0.as_ref(), slot);
    if token >= 0 {
        match set_token(device, token, None, log, m) {
            Step::Ask(r) => Next::Ask(r),
            Step::Fail(_) => Next::Done(op_failed()),
            Step::Done(_, k) => wipe_keyslot(device, slot, log, k),
        }
    } else {
        wipe_keyslot(device, slot, log, m)
    }
}

// ---------------------------------------------------------------------------
// Volumes
// ---------------------------------------------------------------------------

/// Opening `device` as the mapping `name`.
pub open spec fn open_volume_turn(
    device: Seq<char>,
    name: Seq<char>,
    passphrase: Seq<char>,
    method: Seq<char>,
    pin: Seq<char>,
    log: Seq<Answer>,
) -> Turn<Report> {
    match activate_stage(device, name, method, passphrase, pin, log, 0) {
        Stage::Ask(r) => Turn::Ask(r),
        Stage::Fail(e) => Turn::Done((false, ""@, e)),
        Stage::Done(_, _) => Turn::Done((true, name, ""@)),
    }
}

/// Opens `device` as `/dev/mapper/<name>`, and gives the name. This adds a
/// mapping and takes nothing away.
pub fn op_open_volume(
    device: &str,
    name: &str,
    passphrase: &str,
    unlock_method: &str,
    unlock_pin: &str,
    log: &Vec<Answer>,
) -> (r: Next<Triple>)
    ensures
        r@ == open_volume_turn(
            device@,
            name@,
            passphrase@,
            unlock_method@,
            unlock_pin@,
            log@,
        ),
{
    match activate_volume(device, name, unlock_method, passphrase, unlock_pin, log, 0) {
        Step::Ask(r) => Next::Ask(r),
        Step::Fail(e) => Next::Done((false, "".to_string(), e.0)),
        Step::Done(_, _) => Next::Done((true, name.to_string(), "".to_string())),
    }
}

/// Closing the mapping `name`.
pub open spec fn close_volume_turn(name: Seq<char>, log: Seq<Answer>) -> Turn<(bool, Seq<char>)> {
    match deactivate_stage(name, log, 0) {
        Stage::Ask(r) => Turn::Ask(r),
        Stage::Fail(e) => Turn::Done((false, e)),
        Stage::Done(_, _) => Turn::Done((true, ""@)),
    }
}

/// Closes `/dev/mapper/<name>`. Closing what is not open is a success.
pub fn op_close_volume(name: &str, log: &Vec<Answer>) -> (r: Next<(bool, String)>)
    ensures
        r@ == close_volume_turn(name@, log@),
{
    match deactivate_volume(name, log, 0) {
        Step::Ask(r) => Next::Ask(r),
        Step::Fail(e) => Next::Done((false, e.0)),
        Step::Done(_, _) => Next::Done((true, "".to_string())),
    }
}

/// Verifying a passphrase: whether it opens the volume, and the keyslot, or -1.
pub open spec fn verified_turn(stage: Stage<i32>) -> Turn<(bool, i32)> {
    match stage {
        Stage::Ask(r) => Turn::Ask(r),
        Stage::Fail(_) => Turn::Done((false, -1i32)),
        Stage::Done(slot, _) => Turn::Done((true, slot)),
    }
}

/// Whether `passphrase` opens `device`, and the keyslot, or -1.
pub fn op_verify_passphrase(device: &str, passphrase: &str, log: &Vec<Answer>) -> (r: Next<
    (bool, i32),
>)
    ensures
        r@ == verified_turn(verify_passphrase_stage(device@, passphrase@, log@, 0)),
{
    match verify_passphrase(device, passphrase, log, 0) {
        Step::Ask(r) => Next::Ask(r),
        Step::Fail(_) => Next::Done((false, -1)),
        Step::Done(slot, _) => Next::Done((true, slot)),
    }
}

/// Whether a token can unlock a volume by itself.
pub open spec fn unlock_token_ok(kind: Seq<char>) -> bool {
    kind == TOKEN_TYPE_FIDO2@ || kind == TOKEN_TYPE_TPM2@
}

/// Whether a token of the type `token_type` can unlock a volume by itself.
pub fn is_unlock_token(token_type: &str) -> (r: bool)
    ensures
        r == unlock_token_ok(token_type@),
{
    str_eq(token_type, TOKEN_TYPE_FIDO2) || str_eq(token_type, TOKEN_TYPE_TPM2)
}

/// Refuses a call to unlock with a token of any other type.
pub fn check_unlock_token(token_type: &str) -> (r: Result<(), SvcError>)
    ensures
        match r {
            Ok(_) => unlock_token_ok(token_type@),
            Err(e) => !unlock_token_ok(token_type@) && e@ == Refusal::Failed("Operation failed"@),
        },
{
    if is_unlock_token(token_type) {
        Ok(())
    } else {
        Err(SvcError::Failed("Operation failed".to_string()))
    }
}

/// Whether a token opens `device`, and the keyslot, or -1.
pub fn op_unlock_with_token(device: &str, token_type: &str, pin: &str, log: &Vec<Answer>) -> (r:
    Next<(bool, i32)>)
    ensures
        r@ == verified_turn(verify_token_stage(device@, token_type@, pin@, log@, 0)),
{
    match verify_token(device, token_type, pin, log, 0) {
        Step::Ask(r) => Next::Ask(r),
        Step::Fail(_) => Next::Done((false, -1)),
        Step::Done(slot, _) => Next::Done((true, slot)),
    }
}

// ---------------------------------------------------------------------------
// Containers
// ---------------------------------------------------------------------------

/// The report on a new container: whether it was made, the keyslot, or -1, and
/// what to tell the user.
pub type ImageReport = (bool, i32, Seq<char>);

/// The report of a container that was not made.
pub open spec fn not_made(why: Seq<char>) -> ImageReport {
    (false, -1i32, why)
}

/// Whether a container may be made at `path`.
pub open spec fn image_path_ok(path: Seq<char>) -> bool {
    starts_with(path, "/home/"@) || starts_with(path, "/tmp/"@)
}

/// Giving the new container at `path` to its owner.
pub open spec fn chown_turn(
    path: Seq<char>,
    owner: Option<(u32, u32)>,
    keyslot: i32,
    log: Seq<Answer>,
    at: int,
) -> Turn<ImageReport> {
    match owner {
        None => Turn::Done((true, keyslot, ""@)),
        Some((uid, gid)) => match outcome_stage(Ask::Chown { path, uid, gid }, ""@, log, at) {
            Stage::Ask(r) => Turn::Ask(r),
            Stage::Fail(_) => Turn::Done(not_made("Operation failed"@)),
            Stage::Done(_, _) => Turn::Done((true, keyslot, ""@)),
        },
    }
}

/// Making a container at `path`, where there is nothing yet.
pub open spec fn make_image_turn(
    path: Seq<char>,
    size_mb: i32,
    passphrase: Seq<char>,
    owner: Option<(u32, u32)>,
    log: Seq<Answer>,
) -> Turn<ImageReport> {
    match create_image_stage(path, size_mb, log, 1) {
        Stage::Ask(r) => Turn::Ask(r),
        Stage::Fail(_) => Turn::Done(not_made("Operation failed"@)),
        Stage::Done(_, n) => match container_stage(
            path,
            passphrase,
            KeyslotsArea::Default,
            log,
            n,
        ) {
            Stage::Ask(r) => Turn::Ask(r),
            Stage::Fail(_) => Turn::Done(not_made("Operation failed"@)),
            Stage::Done(keyslot, m) => chown_turn(path, owner, keyslot, log, m),
        },
    }
}

/// Making a container at `path`. What is there already is never overwritten.
pub open spec fn create_image_turn(
    path: Seq<char>,
    size_mb: i32,
    passphrase: Seq<char>,
    owner: Option<(u32, u32)>,
    log: Seq<Answer>,
) -> Turn<ImageReport> {
    if log.len() == 0 {
        Turn::Ask(Ask::PathKind { path })
    } else {
        match log[0] {
            Answer::Path(PathKind::Other) => Turn::Done(not_made("Path must be a regular file"@)),
            Answer::Path(PathKind::RegularFile) => Turn::Done(
                not_made("A file already exists at this path"@),
            ),
            Answer::Path(PathKind::Missing) => if !image_path_ok(path) {
                Turn::Done(not_made("Path must be under /home/ or /tmp/"@))
            } else {
                make_image_turn(path, size_mb, passphrase, owner, log)
            },
            _ => Turn::Done(not_made("Operation failed"@)),
        }
    }
}

fn image_failed(why: &str) -> (r: (bool, i32, String))
    ensures
        r@ == not_made(why@),
{
    (false, -1, why.to_string())
}

fn make_image(
    path: &str,
    size_mb: i32,
    passphrase: &str,
    owner: Option<(u32, u32)>,
    log: &Vec<Answer>,
) -> (r: Next<(bool, i32, String)>)
    ensures
        r@ == make_image_turn(path@, size_mb, passphrase@, owner, log@),
{
    let n = match create_image_file(path, size_mb, log, 1) {
        Step::Ask(r) => {
            return Next::Ask(r);
        },
        Step::Fail(_) => {
            return Next::Done(image_failed("Operation failed"));
        },
        Step::Done(_, n) => n,
    };
    let (keyslot, m) = match format_container(path, passphrase, KeyslotsArea::Default, log, n) {
        Step::Ask(r) => {
            return Next::Ask(r);
        },
        Step::Fail(_) => {
            return Next::Done(image_failed("Operation failed"));
        },
        Step::Done(keyslot, m) => (keyslot, m),
    };
    match owner {
        None => Next::Done((true, keyslot, "".to_string())),
        Some((uid, gid)) => {
            if m >= log.len() {
                return Next::Ask(Request::Chown { path: path.to_string(), uid, gid });
            }
            match outcome_answer("", log, m) {
                Step::Ask(r) => Next::Ask(r),
                Step::Fail(_) => Next::Done(image_failed("Operation failed")),
                Step::Done(_, _) => Next::Done((true, keyslot, "".to_string())),
            }
        },
    }
}

/// Makes a container of `size_mb` MiB at `real_path`, formats it, and gives it to
/// `owner`. Gives the keyslot, or -1 for a container without one.
pub fn op_create_encrypted_image(
    real_path: &str,
    size_mb: i32,
    passphrase: &str,
    owner: Option<(u32, u32)>,
    log: &Vec<Answer>,
) -> (r: Next<(bool, i32, String)>)
    ensures
        r@ == create_image_turn(real_path@, size_mb, passphrase@, owner, log@),
{
    if log.len() == 0 {
        return Next::Ask(Request::PathKind { path: real_path.to_string() });
    }
    match &log[0] {
        Answer::Path(PathKind::Other) => Next::Done(image_failed("Path must be a regular file")),
        Answer::Path(PathKind::RegularFile) => Next::Done(
            image_failed("A file already exists at this path"),
        ),
        Answer::Path(PathKind::Missing) => {
            if !str_starts_with(real_path, "/home/") && !str_starts_with(real_path, "/tmp/") {
                return Next::Done(image_failed("Path must be under /home/ or /tmp/"));
            }
            make_image(real_path, size_mb, passphrase, owner, log)
        },
        _ => Next::Done(image_failed("Operation failed")),
    }
}

/// Making an image file for a caller.
pub open spec fn create_for_turn(
    path: Seq<char>,
    size_mb: i32,
    passphrase: Seq<char>,
    owner: Option<(u32, u32)>,
    log: Seq<Answer>,
) -> Turn<ImageReport> {
    if owner is None {
        Turn::Done(not_made("Operation failed"@))
    } else {
        create_image_turn(path, size_mb, passphrase, owner, log)
    }
}

/// Makes an image file, formats it and gives it to the caller who asked for it, if
/// it is known who that is.
pub fn op_create_image_for(
    real_path: &str,
    size_mb: i32,
    passphrase: &str,
    owner: Option<(u32, u32)>,
    log: &Vec<Answer>,
) -> (r: Next<(bool, i32, String)>)
    ensures
        r@ == create_for_turn(real_path@, size_mb, passphrase@, owner, log@),
{
    match owner {
        None => Next::Done(image_failed("Operation failed")),
        Some(_) => op_create_encrypted_image(real_path, size_mb, passphrase, owner, log),
    }
}

/// Formatting the container behind a descriptor.
pub open spec fn image_fd_turn(path: Seq<char>, passphrase: Seq<char>, log: Seq<Answer>) -> Turn<
    ImageReport,
> {
    match container_stage(path, passphrase, KeyslotsArea::Default, log, 0) {
        Stage::Ask(r) => Turn::Ask(r),
        Stage::Fail(_) => Turn::Done(not_made("Operation failed"@)),
        Stage::Done(keyslot, _) => Turn::Done((true, keyslot, ""@)),
    }
}

/// Formats the container behind a descriptor that the client made and owns.
pub fn op_create_image_fd(path: &str, passphrase: &str, log: &Vec<Answer>) -> (r: Next<
    (bool, i32, String),
>)
    ensures
        r@ == image_fd_turn(path@, passphrase@, log@),
{
    match format_container(path, passphrase, KeyslotsArea::Default, log, 0) {
        Step::Ask(r) => Next::Ask(r),
        Step::Fail(_) => Next::Done(image_failed("Operation failed")),
        Step::Done(keyslot, _) => Next::Done((true, keyslot, "".to_string())),
    }
}

/// Whether the file behind a descriptor is empty, by the size that `fstat` gives;
/// false where it gives none.
pub fn create_fd_is_empty(size: Option<i64>) -> (r: bool)
    ensures
        r == (size == Some(0i64)),
{
    match size {
        Some(n) => n == 0,
        None => false,
    }
}

/// How long the file behind a descriptor is to be made for a container of
/// `size_mb` MiB, or why that is refused: the size is out of range, or there is
/// something in the file.
pub fn image_fd_length(size_mb: i32, size: Option<i64>) -> (r: Result<u64, (bool, i32, String)>)
    ensures
        match r {
            Ok(n) => 1 <= size_mb <= 8192 && size == Some(0i64) && n == size_mb * 1024 * 1024,
            Err(t) => if 1 <= size_mb <= 8192 {
                size != Some(0i64) && t@ == not_made("A file already exists at this path"@)
            } else {
                t@ == not_made("size_mb must be between 1 and 8192"@)
            },
        },
{
    if size_mb < 1 || size_mb > 8192 {
        return Err(image_failed("size_mb must be between 1 and 8192"));
    }
    if !create_fd_is_empty(size) {
        return Err(image_failed("A file already exists at this path"));
    }
    Ok(size_mb as u64 * 1024 * 1024)
}

/// Formatting a removable device.
pub open spec fn format_partition_turn(
    device: Seq<char>,
    passphrase: Seq<char>,
    is_removable: bool,
    is_partition: bool,
    log: Seq<Answer>,
) -> Turn<Report> {
    match format_turn(device, passphrase, is_removable, is_partition, log) {
        Turn::Ask(r) => Turn::Ask(r),
        Turn::Done(Ok(node)) => Turn::Done((true, node, ""@)),
        Turn::Done(Err(_)) => Turn::Done(failed()),
    }
}

/// Formats a removable device, and gives the partition.
pub fn op_format_partition(facts: &Facts, device: &str, passphrase: &str, log: &Vec<Answer>) -> (r:
    Found<Next<Triple>>)
    ensures
        match r {
            Found::Ready(next) => settled(facts@, |w: World| format_reads(w, device@)) && holds(
                facts@,
                next@,
                |w: World| format_partition_turn(
                    device@,
                    passphrase@,
                    removable(w, device@),
                    partition(w, device@),
                    log@,
                ),
            ),
            Found::Need(q) => asks(facts@, q@, |w: World| format_reads(w, device@)),
        },
{
    match format_removable_partition(facts, device, passphrase, log) {
        Found::Ready(Next::Ask(r)) => Found::Ready(Next::Ask(r)),
        Found::Ready(Next::Done(f)) => match f.0 {
            Ok(node) => Found::Ready(Next::Done((true, node, "".to_string()))),
            Err(_) => Found::Ready(Next::Done(op_failed())),
        },
        Found::Need(q) => Found::Need(q),
    }
}

/// A list of names.
pub struct NameList(pub Vec<String>);

impl View for NameList {
    type V = Seq<Seq<char>>;

    open spec fn view(&self) -> Seq<Seq<char>> {
        texts(self.0@)
    }
}

/// Asking which of the FIDO2 devices `paths` are enrolled on `device`.
pub open spec fn check_fido2_turn(device: Seq<char>, paths: Seq<Seq<char>>, log: Seq<Answer>) -> Turn<
    Seq<Seq<char>>,
> {
    match metadata_stage(device, log, 0) {
        Stage::Ask(r) => Turn::Ask(r),
        Stage::Fail(_) => Turn::Done(seq![]),
        Stage::Done(t, n) => {
            let creds = enrolled_creds(t);
            if creds.len() == 0 || paths.len() == 0 {
                Turn::Done(seq![])
            } else if n >= log.len() {
                Turn::Ask(Ask::EnrolledPaths { paths, creds })
            } else {
                match log[n] {
                    Answer::Names(names) => Turn::Done(texts(names@)),
                    _ => Turn::Done(seq![]),
                }
            }
        },
    }
}

/// Which of the FIDO2 devices `fido2_dev_paths` are enrolled on `device`.
pub fn op_check_fido2_enrolled(device: &str, fido2_dev_paths: &Vec<String>, log: &Vec<Answer>) -> (r:
    Next<NameList>)
    ensures
        r@ == check_fido2_turn(device@, texts(fido2_dev_paths@), log@),
{
    let none: Vec<String> = Vec::new();
    assert(texts(none@) =~= seq![]);
    match read_metadata(device, log, 0) {
        Step::Ask(r) => Next::Ask(r),
        Step::Fail(_) => Next::Done(NameList(none)),
        Step::Done(meta, n) => {
            let creds = existing_creds(meta.0.as_ref());
            assert(creds@.len() == views(creds@).len());
            assert(fido2_dev_paths@.len() == texts(fido2_dev_paths@).len());
            if creds.len() == 0 || fido2_dev_paths.len() == 0 {
                return Next::Done(NameList(none));
            }
            if n >= log.len() {
                return Next::Ask(
                    Request::EnrolledPaths { paths: clone_strings(fido2_dev_paths), creds },
                );
            }
            match &log[n] {
                Answer::Names(names) => Next::Done(NameList(clone_strings(names))),
                _ => Next::Done(NameList(none)),
            }
        },
    }
}

/// What the service says of the version of systemd: all tokens are handled here,
/// so any version will do.
pub fn get_systemd_version() -> (r: i32)
    ensures
        r == 999,
{
    999
}

// ---------------------------------------------------------------------------
// Laws
// ---------------------------------------------------------------------------

proof fn lemma_stamped(token: Members, slot: i32)
    requires
        ascends(token),
    ensures
        token_slots(stamped(token, slot)) == seq![slot],
        forall|key: Seq<char>|
            key != "keyslots"@ ==> #[trigger] member(stamped(token, slot), key) == member(
                JsonTree::Object(token),
                key,
            ),
{
    let items = seq![JsonTree::Str(dec(slot as int))];
    law_put(token, "keyslots"@, JsonTree::Array(items));
    assert(member(stamped(token, slot), "keyslots"@) == Some(JsonTree::Array(items)));
    law_decimal_round_trip(slot as int);
    assert(items.drop_last() =~= seq![]);
    assert(slot_numbers(items.drop_last()) =~= seq![]);
    assert(slot_numbers(items) =~= seq![slot]);
}

/// A FIDO2 token reads back as what it was made of: its type, the credential,
/// the salt, and the keyslot that it was stamped with.
pub proof fn law_fido2_token_round_trip(cred_id: Seq<u8>, salt: Seq<u8>, pin: bool, slot: i32)
    ensures
        member_str(stamped(fido2_token(cred_id, salt, pin), slot), "type"@) == Some(
            TOKEN_TYPE_FIDO2@,
        ),
        fido2_ref(stamped(fido2_token(cred_id, salt, pin), slot)) == Ok::<Fido2Ref, Seq<char>>(
            (Fido2Ref { cred_id, salt }),
        ),
        token_slots(stamped(fido2_token(cred_id, salt, pin), slot)) == seq![slot],
{
    reveal_strlit("type");
    reveal_strlit("fido2-credential");
    reveal_strlit("fido2-salt");
    reveal_strlit("fido2-rp");
    reveal_strlit("fido2-clientPin-required");
    reveal_strlit("fido2-up-required");
    reveal_strlit("fido2-uv-required");
    reveal_strlit("keyslots");
    let m0: Members = seq![];
    let v1 = JsonTree::Str(TOKEN_TYPE_FIDO2@);
    let v2 = JsonTree::Str(b64_text(cred_id));
    let v3 = JsonTree::Str(b64_text(salt));
    let v4 = JsonTree::Str(FIDO2_RP_ID@);
    law_put(m0, "type"@, v1);
    let m1 = put(m0, "type"@, v1);
    law_put(m1, "fido2-credential"@, v2);
    let m2 = put(m1, "fido2-credential"@, v2);
    law_put(m2, "fido2-salt"@, v3);
    let m3 = put(m2, "fido2-salt"@, v3);
    law_put(m3, "fido2-rp"@, v4);
    let m4 = put(m3, "fido2-rp"@, v4);
    law_put(m4, "fido2-clientPin-required"@, JsonTree::Bool(pin));
    let m5 = put(m4, "fido2-clientPin-required"@, JsonTree::Bool(pin));
    law_put(m5, "fido2-up-required"@, JsonTree::Bool(true));
    let m6 = put(m5, "fido2-up-required"@, JsonTree::Bool(true));
    law_put(m6, "fido2-uv-required"@, JsonTree::Bool(false));
    let m7 = put(m6, "fido2-uv-required"@, JsonTree::Bool(false));
    assert(m7 == fido2_token(cred_id, salt, pin));
    lemma_stamped(m7, slot);
    let t = stamped(m7, slot);
    assert("fido2-credential"@ != "type"@ && "fido2-salt"@ != "type"@);
    assert("fido2-salt"@.len() == 10 && "fido2-credential"@.len() == 16 && "type"@.len() == 4);
    assert(member(t, "type"@) == Some(v1));
    assert(member(t, "fido2-credential"@) == Some(v2));
    assert(member(t, "fido2-salt"@) == Some(v3));
    law_base64_round_trip(cred_id);
    law_base64_round_trip(salt);
}

/// A FIDO2 token says how its device is to be asked: for which relying party, and
/// whether with a PIN, a touch and a verification of the user.
pub proof fn law_fido2_token_members(cred_id: Seq<u8>, salt: Seq<u8>, pin: bool, slot: i32)
    ensures
        ({
            let t = stamped(fido2_token(cred_id, salt, pin), slot);
            &&& member_str(t, "fido2-rp"@) == Some(FIDO2_RP_ID@)
            &&& member(t, "fido2-clientPin-required"@) == Some(JsonTree::Bool(pin))
            &&& member(t, "fido2-up-required"@) == Some(JsonTree::Bool(true))
            &&& member(t, "fido2-uv-required"@) == Some(JsonTree::Bool(false))
        }),
{
    reveal_strlit("type");
    reveal_strlit("fido2-credential");
    reveal_strlit("fido2-salt");
    reveal_strlit("fido2-rp");
    reveal_strlit("fido2-clientPin-required");
    reveal_strlit("fido2-up-required");
    reveal_strlit("fido2-uv-required");
    reveal_strlit("keyslots");
    let m0: Members = seq![];
    let v1 = JsonTree::Str(TOKEN_TYPE_FIDO2@);
    let v2 = JsonTree::Str(b64_text(cred_id));
    let v3 = JsonTree::Str(b64_text(salt));
    let v4 = JsonTree::Str(FIDO2_RP_ID@);
    law_put(m0, "type"@, v1);
    let m1 = put(m0, "type"@, v1);
    law_put(m1, "fido2-credential"@, v2);
    let m2 = put(m1, "fido2-credential"@, v2);
    law_put(m2, "fido2-salt"@, v3);
    let m3 = put(m2, "fido2-salt"@, v3);
    law_put(m3, "fido2-rp"@, v4);
    let m4 = put(m3, "fido2-rp"@, v4);
    law_put(m4, "fido2-clientPin-required"@, JsonTree::Bool(pin));
    let m5 = put(m4, "fido2-clientPin-required"@, JsonTree::Bool(pin));
    law_put(m5, "fido2-up-required"@, JsonTree::Bool(true));
    let m6 = put(m5, "fido2-up-required"@, JsonTree::Bool(true));
    law_put(m6, "fido2-uv-required"@, JsonTree::Bool(false));
    let m7 = put(m6, "fido2-uv-required"@, JsonTree::Bool(false));
    assert(m7 == fido2_token(cred_id, salt, pin));
    lemma_stamped(m7, slot);
    let t = stamped(m7, slot);
    assert("fido2-rp"@.len() == 8 && "keyslots"@.len() == 8 && "fido2-rp"@[0] == 'f');
    assert("keyslots"@[0] == 'k');
    assert("fido2-up-required"@.len() == 17 && "fido2-uv-required"@.len() == 17);
    assert("fido2-up-required"@[7] == 'p' && "fido2-uv-required"@[7] == 'v');
    assert("fido2-clientPin-required"@.len() == 24);
    assert(member(t, "fido2-rp"@) == Some(v4));
}

/// A TPM2 token reads back as what it was made of: its type, the sealed blob,
/// the PCRs and their bank, whether a PIN is asked for, and the keyslot that it
/// was stamped with.
pub proof fn law_tpm2_token_round_trip(
    id: Seq<char>,
    blob: Seq<u8>,
    policy_hash: Seq<u8>,
    primary_alg: Seq<char>,
    srk_blob: Seq<u8>,
    pcrs: Seq<i64>,
    pin: bool,
    slot: i32,
)
    ensures
        ({
            let t = stamped(
                tpm2_token(blob, policy_hash, primary_alg, srk_blob, pcrs, pin),
                slot,
            );
            &&& member_str(t, "type"@) == Some(TOKEN_TYPE_TPM2@)
            &&& member(t, "tpm2-blob"@) == member(t, "tpm2_blob"@)
            &&& tpm2_ref(id, t) == Ok::<Tpm2Ref, Seq<char>>(
                (Tpm2Ref {
                    token_id: id,
                    blob,
                    pcrs: join(Seq::new(pcrs.len(), |i: int| dec(pcrs[i] as int)), '+'),
                    pcr_bank: "sha256"@,
                    pin_required: pin,
                }),
            )
            &&& token_slots(t) == seq![slot]
        }),
{
    reveal_strlit("type");
    reveal_strlit("tpm2-blob");
    reveal_strlit("tpm2_blob");
    reveal_strlit("tpm2-pcrs");
    reveal_strlit("tpm2-pcr-bank");
    reveal_strlit("tpm2-primary-alg");
    reveal_strlit("tpm2-policy-hash");
    reveal_strlit("tpm2-pin");
    reveal_strlit("tpm2_pubkey_pcrs");
    reveal_strlit("tpm2_pcr_hash");
    reveal_strlit("tpm2_pcrlock");
    reveal_strlit("tpm2_srk");
    reveal_strlit("keyslots");
    let m0: Members = seq![];
    law_put(m0, "type"@, JsonTree::Str(TOKEN_TYPE_TPM2@));
    let m1 = put(m0, "type"@, JsonTree::Str(TOKEN_TYPE_TPM2@));
    law_put(m1, "tpm2-blob"@, JsonTree::Str(b64_text(blob)));
    let m2 = put(m1, "tpm2-blob"@, JsonTree::Str(b64_text(blob)));
    law_put(m2, "tpm2_blob"@, JsonTree::Str(b64_text(blob)));
    let m3 = put(m2, "tpm2_blob"@, JsonTree::Str(b64_text(blob)));
    law_put(m3, "tpm2-pcrs"@, JsonTree::Array(integers(pcrs)));
    let m4 = put(m3, "tpm2-pcrs"@, JsonTree::Array(integers(pcrs)));
    law_put(m4, "tpm2-pcr-bank"@, JsonTree::Str("sha256"@));
    let m5 = put(m4, "tpm2-pcr-bank"@, JsonTree::Str("sha256"@));
    law_put(m5, "tpm2-primary-alg"@, JsonTree::Str(primary_alg));
    let m6 = put(m5, "tpm2-primary-alg"@, JsonTree::Str(primary_alg));
    law_put(m6, "tpm2-policy-hash"@, JsonTree::Str(hex_text(policy_hash)));
    let m7 = put(m6, "tpm2-policy-hash"@, JsonTree::Str(hex_text(policy_hash)));
    law_put(m7, "tpm2-pin"@, JsonTree::Bool(pin));
    let m8 = put(m7, "tpm2-pin"@, JsonTree::Bool(pin));
    law_put(m8, "tpm2_pubkey_pcrs"@, JsonTree::Array(seq![]));
    let m9 = put(m8, "tpm2_pubkey_pcrs"@, JsonTree::Array(seq![]));
    law_put(m9, "tpm2_pcr_hash"@, JsonTree::Str("sha256"@));
    let m10 = put(m9, "tpm2_pcr_hash"@, JsonTree::Str("sha256"@));
    law_put(m10, "tpm2_pcrlock"@, JsonTree::Bool(false));
    let m11 = put(m10, "tpm2_pcrlock"@, JsonTree::Bool(false));
    law_put(m11, "tpm2_srk"@, JsonTree::Str(b64_text(srk_blob)));
    let m12 = put(m11, "tpm2_srk"@, JsonTree::Str(b64_text(srk_blob)));
    assert(m12 == tpm2_token(blob, policy_hash, primary_alg, srk_blob, pcrs, pin));
    lemma_stamped(m12, slot);
    let t = stamped(m12, slot);
    assert("tpm2-blob"@[4] == '-' && "tpm2_blob"@[4] == '_');
    assert("tpm2-blob"@[5] == 'b' && "tpm2-pcrs"@[5] == 'p' && "tpm2-pcrs"@[4] == '-');
    assert("tpm2-pcr-bank"@[4] == '-' && "tpm2_pcr_hash"@[4] == '_');
    assert("tpm2-pin"@[4] == '-' && "tpm2_srk"@[4] == '_' && "keyslots"@[0] == 'k');
    assert(member(t, "type"@) == Some(JsonTree::Str(TOKEN_TYPE_TPM2@)));
    assert(member(t, "tpm2_blob"@) == Some(JsonTree::Str(b64_text(blob))));
    assert(member(t, "tpm2-blob"@) == Some(JsonTree::Str(b64_text(blob))));
    assert(member(t, "tpm2-pcrs"@) == Some(JsonTree::Array(integers(pcrs))));
    assert(member(t, "tpm2-pcr-bank"@) == Some(JsonTree::Str("sha256"@)));
    assert(member(t, "tpm2-pin"@) == Some(JsonTree::Bool(pin)));
    let items = integers(pcrs);
    assert(Seq::new(items.len(), |i: int| pcr_item(items[i])) =~= Seq::new(
        pcrs.len(),
        |i: int| dec(pcrs[i] as int),
    ));
    law_base64_round_trip(blob);
}

/// A TPM2 token says what its secret was sealed by: whether a PIN is asked for, the
/// storage root key and its algorithm, and the policy.
pub proof fn law_tpm2_token_members(
    blob: Seq<u8>,
    policy_hash: Seq<u8>,
    primary_alg: Seq<char>,
    srk_blob: Seq<u8>,
    pcrs: Seq<i64>,
    pin: bool,
    slot: i32,
)
    ensures
        ({
            let t = stamped(
                tpm2_token(blob, policy_hash, primary_alg, srk_blob, pcrs, pin),
                slot,
            );
            &&& member(t, "tpm2-pin"@) == Some(JsonTree::Bool(pin))
            &&& member_str(t, "tpm2-primary-alg"@) == Some(primary_alg)
            &&& member_str(t, "tpm2-policy-hash"@) == Some(hex_text(policy_hash))
            &&& member_str(t, "tpm2_srk"@) == Some(b64_text(srk_blob))
            &&& member_str(t, "tpm2_pcr_hash"@) == Some("sha256"@)
            &&& member(t, "tpm2_pubkey_pcrs"@) == Some(JsonTree::Array(seq![]))
            &&& member(t, "tpm2_pcrlock"@) == Some(JsonTree::Bool(false))
        }),
{
    reveal_strlit("type");
    reveal_strlit("tpm2-blob");
    reveal_strlit("tpm2_blob");
    reveal_strlit("tpm2-pcrs");
    reveal_strlit("tpm2-pcr-bank");
    reveal_strlit("tpm2-primary-alg");
    reveal_strlit("tpm2-policy-hash");
    reveal_strlit("tpm2-pin");
    reveal_strlit("tpm2_pubkey_pcrs");
    reveal_strlit("tpm2_pcr_hash");
    reveal_strlit("tpm2_pcrlock");
    reveal_strlit("tpm2_srk");
    reveal_strlit("keyslots");
    let m0: Members = seq![];
    law_put(m0, "type"@, JsonTree::Str(TOKEN_TYPE_TPM2@));
    let m1 = put(m0, "type"@, JsonTree::Str(TOKEN_TYPE_TPM2@));
    law_put(m1, "tpm2-blob"@, JsonTree::Str(b64_text(blob)));
    let m2 = put(m1, "tpm2-blob"@, JsonTree::Str(b64_text(blob)));
    law_put(m2, "tpm2_blob"@, JsonTree::Str(b64_text(blob)));
    let m3 = put(m2, "tpm2_blob"@, JsonTree::Str(b64_text(blob)));
    law_put(m3, "tpm2-pcrs"@, JsonTree::Array(integers(pcrs)));
    let m4 = put(m3, "tpm2-pcrs"@, JsonTree::Array(integers(pcrs)));
    law_put(m4, "tpm2-pcr-bank"@, JsonTree::Str("sha256"@));
    let m5 = put(m4, "tpm2-pcr-bank"@, JsonTree::Str("sha256"@));
    law_put(m5, "tpm2-primary-alg"@, JsonTree::Str(primary_alg));
    let m6 = put(m5, "tpm2-primary-alg"@, JsonTree::Str(primary_alg));
    law_put(m6, "tpm2-policy-hash"@, JsonTree::Str(hex_text(policy_hash)));
    let m7 = put(m6, "tpm2-policy-hash"@, JsonTree::Str(hex_text(policy_hash)));
    law_put(m7, "tpm2-pin"@, JsonTree::Bool(pin));
    let m8 = put(m7, "tpm2-pin"@, JsonTree::Bool(pin));
    law_put(m8, "tpm2_pubkey_pcrs"@, JsonTree::Array(seq![]));
    let m9 = put(m8, "tpm2_pubkey_pcrs"@, JsonTree::Array(seq![]));
    law_put(m9, "tpm2_pcr_hash"@, JsonTree::Str("sha256"@));
    let m10 = put(m9, "tpm2_pcr_hash"@, JsonTree::Str("sha256"@));
    law_put(m10, "tpm2_pcrlock"@, JsonTree::Bool(false));
    let m11 = put(m10, "tpm2_pcrlock"@, JsonTree::Bool(false));
    law_put(m11, "tpm2_srk"@, JsonTree::Str(b64_text(srk_blob)));
    let m12 = put(m11, "tpm2_srk"@, JsonTree::Str(b64_text(srk_blob)));
    assert(m12 == tpm2_token(blob, policy_hash, primary_alg, srk_blob, pcrs, pin));
    lemma_stamped(m12, slot);
    let t = stamped(m12, slot);
    assert("tpm2_pcr_hash"@.len() == 13 && "tpm2-pcr-bank"@.len() == 13);
    assert("tpm2-pin"@.len() == 8 && "tpm2_srk"@.len() == 8 && "keyslots"@.len() == 8);
    assert("tpm2-pin"@[4] == '-' && "tpm2_srk"@[4] == '_' && "keyslots"@[0] == 'k');
    assert("tpm2-primary-alg"@[6] == 'r' && "tpm2-policy-hash"@[6] == 'o');
    assert("tpm2_pubkey_pcrs"@[4] == '_' && "tpm2-policy-hash"@[4] == '-');
    assert("tpm2-primary-alg"@[4] == '-');
    assert(member(t, "tpm2-primary-alg"@) == Some(JsonTree::Str(primary_alg)));
    assert(member(t, "tpm2-policy-hash"@) == Some(JsonTree::Str(hex_text(policy_hash))));
    assert(member(t, "tpm2_srk"@) == Some(JsonTree::Str(b64_text(srk_blob))));
    assert("tpm2_pcr_hash"@[4] == '_' && "tpm2-pcr-bank"@[4] == '-');
    assert(member(t, "tpm2_pcr_hash"@) == Some(JsonTree::Str("sha256"@)));
}

/// A recovery token names its type and the keyslot that it was stamped with.
pub proof fn law_recovery_token_round_trip(slot: i32)
    ensures
        member_str(stamped(recovery_token(), slot), "type"@) == Some(TOKEN_TYPE_RECOVERY@),
        token_slots(stamped(recovery_token(), slot)) == seq![slot],
{
    reveal_strlit("type");
    reveal_strlit("keyslots");
    let m0: Members = seq![];
    law_put(m0, "type"@, JsonTree::Str(TOKEN_TYPE_RECOVERY@));
    lemma_stamped(recovery_token(), slot);
    assert("type"@.len() == 4 && "keyslots"@.len() == 8);
}

/// A keyslot is destroyed only once the volume has been unlocked, the header has
/// been read and the keyslot is not the last one in it, and the token that
/// belongs to it is gone.
pub proof fn law_wipe_is_safe(
    device: Seq<char>,
    passphrase: Seq<char>,
    method: Seq<char>,
    pin: Seq<char>,
    slot: i32,
    log: Seq<Answer>,
    volume: Seq<char>,
    victim: i32,
)
    requires
        wipe_turn(device, passphrase, method, pin, slot, log) == Turn::<Report>::Ask(
            Ask::DestroyKeyslot { device: volume, slot: victim },
        ),
    ensures
        volume == device,
        victim == slot,
        volume_key_stage(device, method, passphrase, pin, log, 0) is Done,
        ({
            let n = volume_key_stage(device, method, passphrase, pin, log, 0)->Done_1;
            &&& metadata_stage(device, log, n) is Done
            &&& !last_slot(metadata_stage(device, log, n)->Done_0, slot)
            &&& slot_owner(tokens_of(metadata_stage(device, log, n)->Done_0), slot) >= 0
                ==> log[n + 1] matches Answer::Number(Ok(_))
        }),
{
    law_unlock_changes_nothing(device, method, passphrase, pin, log, 0);
}

/// Wiping a keyslot ends in one of three ways: the keyslot was destroyed, it was
/// refused as the last one, or something failed.
pub proof fn law_wipe_result(
    device: Seq<char>,
    passphrase: Seq<char>,
    method: Seq<char>,
    pin: Seq<char>,
    slot: i32,
    log: Seq<Answer>,
)
    requires
        wipe_turn(device, passphrase, method, pin, slot, log) is Done,
    ensures
        ({
            let r = wipe_turn(device, passphrase, method, pin, slot, log)->Done_0;
            ||| r == (true, ""@, ""@) && exists|i: int|
                0 <= i < log.len() && #[trigger] log[i] matches Answer::Outcome(Ok(_))
            ||| r == (false, ""@, "Cannot wipe the last remaining keyslot"@)
            ||| r == failed()
        }),
{
    law_unlock_changes_nothing(device, method, passphrase, pin, log, 0);
    match volume_key_stage(device, method, passphrase, pin, log, 0) {
        Stage::Done(_, n) => {
            assert(n + 1 < log.len() ==> log[n + 1] == log[n + 1]);
            assert(n + 2 < log.len() ==> log[n + 2] == log[n + 2]);
        },
        _ => {},
    }
}

/// An enrollment changes the volume only once the volume key is there. The token
/// that it stores belongs to the keyslot that was added, and is stored after it.
pub proof fn law_enroll_order(
    device: Seq<char>,
    method: Seq<char>,
    pin: Seq<char>,
    passphrase: Seq<char>,
    secret: Seq<u8>,
    output: Seq<char>,
    token: Members,
    log: Seq<Answer>,
    at: int,
)
    requires
        0 <= at <= log.len(),
    ensures
        match enroll_turn(device, method, pin, passphrase, secret, output, token, log, at) {
            Turn::Ask(a) => changes(a) ==> {
                let key = volume_key_stage(device, method, passphrase, pin, log, at);
                &&& key is Done
                &&& (a == Ask::AddKeyslot {
                    device,
                    key: key->Done_0,
                    passphrase: secret,
                    minimal_pbkdf: true,
                } || (log[key->Done_1] matches Answer::Number(Ok(slot)) && a == Ask::SetToken {
                    device,
                    token: -1i32,
                    json: Some(json_text(stamped(token, slot))),
                }))
            },
            Turn::Done(r) => r == failed() || (r == (true, output, ""@)
                && log.len() >= at + 3),
        },
{
    law_unlock_changes_nothing(device, method, passphrase, pin, log, at);
}

/// A FIDO2 enrollment leaves the volume alone until the device has yielded its
/// secret.
pub proof fn law_fido2_secret_first(
    device: Seq<char>,
    passphrase: Seq<char>,
    pin: Seq<char>,
    path: Seq<char>,
    method: Seq<char>,
    unlock_pin: Seq<char>,
    log: Seq<Answer>,
)
    requires
        enroll_fido2_turn(device, passphrase, pin, path, method, unlock_pin, log) is Ask,
        changes(enroll_fido2_turn(device, passphrase, pin, path, method, unlock_pin, log)->Ask_0),
    ensures
        exists|i: int| 0 <= i < log.len() && #[trigger] log[i] matches Answer::Fido2(Ok(_)),
{
    let n = metadata_stage(device, log, 0)->Done_1;
    assert(n == 1);
    assert(log.len() > 1);
    assert(log[1] matches Answer::Fido2(Ok(_)) || log[2] matches Answer::Fido2(Ok(_)));
}

/// A TPM2 enrollment leaves the volume alone until the TPM has sealed the secret.
pub proof fn law_tpm2_secret_first(
    device: Seq<char>,
    passphrase: Seq<char>,
    pin: Seq<char>,
    pcrs: Seq<char>,
    method: Seq<char>,
    unlock_pin: Seq<char>,
    secret: Seq<u8>,
    log: Seq<Answer>,
)
    requires
        enroll_tpm2_turn(device, passphrase, pin, pcrs, method, unlock_pin, secret, log) is Ask,
        changes(
            enroll_tpm2_turn(
                device,
                passphrase,
                pin,
                pcrs,
                method,
                unlock_pin,
                secret,
                log,
            )->Ask_0,
        ),
    ensures
        log.len() > 0,
        log[0] matches Answer::Sealed(Ok(_)),
{
}

/// The secret that the FIDO2 device yielded in the course of an enrollment.
pub open spec fn fido2_secret(log: Seq<Answer>) -> Seq<u8> {
    match log[1] {
        Answer::Fido2(Ok(e)) => e.hmac_secret@,
        _ => match log[2] {
            Answer::Fido2(Ok(e)) => e.hmac_secret@,
            _ => seq![],
        },
    }
}

/// A FIDO2 device that yields the secret again that it yielded when it was enrolled
/// gives the passphrase of the keyslot that was added for it.
pub proof fn law_fido2_secret_opens_its_keyslot(
    device: Seq<char>,
    passphrase: Seq<char>,
    pin: Seq<char>,
    path: Seq<char>,
    method: Seq<char>,
    unlock_pin: Seq<char>,
    log: Seq<Answer>,
    later_pin: Seq<char>,
    later: Seq<Answer>,
    at: int,
)
    requires
        enroll_fido2_turn(device, passphrase, pin, path, method, unlock_pin, log) is Ask,
        enroll_fido2_turn(
            device,
            passphrase,
            pin,
            path,
            method,
            unlock_pin,
            log,
        )->Ask_0 is AddKeyslot,
        derive_stage(device, TOKEN_TYPE_FIDO2@, later_pin, later, at) is Done,
        later[at + 1] matches Answer::Derived(Ok(secret)) && secret@ == fido2_secret(log),
    ensures
        derive_stage(device, TOKEN_TYPE_FIDO2@, later_pin, later, at)->Done_0
            == enroll_fido2_turn(
            device,
            passphrase,
            pin,
            path,
            method,
            unlock_pin,
            log,
        )->Ask_0->AddKeyslot_passphrase,
{
    let n = metadata_stage(device, log, 0)->Done_1;
    assert(n == 1);
    let from = if log[1] matches Answer::Fido2(Ok(_)) {
        2int
    } else {
        3int
    };
    law_unlock_changes_nothing(device, method, passphrase, unlock_pin, log, from);
}

/// The secret that was sealed, once it is unsealed, gives the passphrase of the
/// keyslot that was added for it.
pub proof fn law_tpm2_secret_opens_its_keyslot(
    device: Seq<char>,
    passphrase: Seq<char>,
    pin: Seq<char>,
    pcrs: Seq<char>,
    method: Seq<char>,
    unlock_pin: Seq<char>,
    secret: Seq<u8>,
    log: Seq<Answer>,
    later_pin: Seq<char>,
    later: Seq<Answer>,
    at: int,
)
    requires
        enroll_tpm2_turn(device, passphrase, pin, pcrs, method, unlock_pin, secret, log) is Ask,
        enroll_tpm2_turn(
            device,
            passphrase,
            pin,
            pcrs,
            method,
            unlock_pin,
            secret,
            log,
        )->Ask_0 is AddKeyslot,
        derive_stage(device, TOKEN_TYPE_TPM2@, later_pin, later, at) is Done,
        later[at + 1] matches Answer::Derived(Ok(unsealed)) && unsealed@ == secret,
    ensures
        derive_stage(device, TOKEN_TYPE_TPM2@, later_pin, later, at)->Done_0 == enroll_tpm2_turn(
            device,
            passphrase,
            pin,
            pcrs,
            method,
            unlock_pin,
            secret,
            log,
        )->Ask_0->AddKeyslot_passphrase,
{
    law_unlock_changes_nothing(device, method, passphrase, unlock_pin, log, 1);
    reveal_strlit("systemd-fido2");
    reveal_strlit("systemd-tpm2");
    assert(TOKEN_TYPE_FIDO2@.len() != TOKEN_TYPE_TPM2@.len());
}

/// The recovery key that an enrollment gives out is the passphrase of the keyslot
/// that it added: it is what verifying the key opens a keyslot with.
pub proof fn law_recovery_key_opens_its_keyslot(
    device: Seq<char>,
    passphrase: Seq<char>,
    method: Seq<char>,
    pin: Seq<char>,
    key: Seq<char>,
    log: Seq<Answer>,
)
    ensures
        enroll_recovery_turn(device, passphrase, method, pin, key, log) matches Turn::Ask(
            Ask::AddKeyslot { passphrase: added, .. },
        ) ==> verify_passphrase_stage(device, key, seq![], 0) == Stage::<i32>::Ask(
            Ask::VolumeKey { device, slot: -1i32, passphrase: added },
        ),
        enroll_recovery_turn(device, passphrase, method, pin, key, log) matches Turn::Done(
            (true, out, _),
        ) ==> out == key,
{
    law_unlock_changes_nothing(device, method, passphrase, pin, log, 0);
}

/// A container is made only where nothing was, below `/home/` or `/tmp/`, in a
/// size from 1 to 8192 MiB; in any other case nothing is changed.
pub proof fn law_create_never_overwrites(
    path: Seq<char>,
    size_mb: i32,
    passphrase: Seq<char>,
    owner: Option<(u32, u32)>,
    log: Seq<Answer>,
)
    requires
        create_image_turn(path, size_mb, passphrase, owner, log) is Ask,
        changes(create_image_turn(path, size_mb, passphrase, owner, log)->Ask_0),
    ensures
        log.len() > 0,
        log[0] == Answer::Path(PathKind::Missing),
        image_path_ok(path),
        1 <= size_mb <= 8192,
{
}

/// A mapping whose name could lead out of `/dev/mapper` is refused before
/// anything is asked, both on opening and on closing.
pub proof fn law_mapper_names_stay_inside(
    device: Seq<char>,
    name: Seq<char>,
    passphrase: Seq<char>,
    method: Seq<char>,
    pin: Seq<char>,
    log: Seq<Answer>,
)
    requires
        !mapper_name_ok(name),
    ensures
        open_volume_turn(device, name, passphrase, method, pin, log) is Done,
        !open_volume_turn(device, name, passphrase, method, pin, log)->Done_0.0,
        close_volume_turn(name, log) is Done,
        !close_volume_turn(name, log)->Done_0.0,
{
}

/// Closing a mapping that is not there is a success, and a mounted one is left
/// alone.
pub proof fn law_close_is_idempotent(name: Seq<char>, log: Seq<Answer>)
    requires
        mapper_name_ok(name),
        log.len() > 0,
    ensures
        log[0] == Answer::Flag(false) ==> close_volume_turn(name, log) == Turn::<
            (bool, Seq<char>),
        >::Done((true, ""@)),
        log[0] == Answer::Flag(true) && log.len() > 1 && log[1] == Answer::Flag(true)
            ==> close_volume_turn(name, log) == Turn::<(bool, Seq<char>)>::Done(
            (false, "Volume is mounted"@),
        ),
{
}

/// The decimal texts of numbers.
pub open spec fn decimals(n: Seq<i64>) -> Seq<Seq<char>> {
    Seq::new(n.len(), |i: int| dec(n[i] as int))
}

proof fn lemma_pcrs(parts: Seq<Seq<char>>)
    requires
        part_indices(parts) is Ok,
    ensures
        pcr_numbers(parts) is Ok,
        part_indices(decimals(pcr_numbers(parts)->Ok_0)) == part_indices(parts),
        pcr_numbers(parts)->Ok_0.len() == 0 ==> part_indices(parts)->Ok_0.len() == 0,
    decreases parts.len(),
{
    if parts.len() == 0 {
        assert(decimals(pcr_numbers(parts)->Ok_0) =~= seq![]);
    } else {
        lemma_pcrs(parts.drop_last());
        let before = pcr_numbers(parts.drop_last())->Ok_0;
        let p = trim(parts.last());
        if p.len() > 0 {
            let n = parse_i64_spec(p)->Some_0;
            let numbers = pcr_numbers(parts)->Ok_0;
            assert(numbers == before.push(n));
            let d = decimals(numbers);
            assert(d.drop_last() =~= decimals(before));
            assert(d.last() == dec(n as int));
            law_decimal_is_plain(n as int);
            law_decimal_round_trip(n as int);
        }
    }
}

/// The PCRs that a token's secret is sealed to are those that it is unsealed with:
/// what the token says of them reads back as the same selection.
pub proof fn law_pcrs_survive_the_token(pcrs: Seq<char>)
    requires
        pcr_indices(pcrs) is Ok,
    ensures
        pcr_numbers(split(pcrs, '+')) is Ok,
        pcr_indices(join(decimals(pcr_numbers(split(pcrs, '+'))->Ok_0), '+')) == pcr_indices(pcrs),
{
    let parts = split(pcrs, '+');
    lemma_pcrs(parts);
    let numbers = pcr_numbers(parts)->Ok_0;
    let d = decimals(numbers);
    assert forall|i: int| 0 <= i < d.len() implies !(#[trigger] d[i]).contains('+') by {
        law_decimal_is_plain(numbers[i] as int);
    }
    law_split_join(d, '+');
}

} // verus!
