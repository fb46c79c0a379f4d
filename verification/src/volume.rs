//! Operations on a LUKS2 volume: unlocking it, changing its keyslots and
//! tokens, formatting it, and mapping it.
//!
//! Each is a part of an operation in the sense of [`crate::host`]: it takes the
//! answers received so far and the position of the first that is its own.

use vstd::prelude::*;
use vstd::utf8::encode_utf8;

use crate::codec::{b64_encode, b64_text, Secret};
use crate::constants::{TOKEN_TYPE_FIDO2, TOKEN_TYPE_TPM2};
use crate::error::Error;
use crate::host::{Answer, Ask, Failure, KeyslotsArea, Request, Stage, Step};
use crate::json::{json_parsed, parse, value_tree, JsonTree};
use crate::luks::{
    fido2_refs_of, fido2_token_refs, metadata_json, token_entries, tokens_by_type,
    tokens_of, tpm2_refs_of, tpm2_token_refs, VolumeKey,
};
use crate::order::{sort_of, views};
use crate::text::{bytes_of, chars_of, concat, concat3, debug_quoted, debug_text, str_eq};

verus! {

// ---------------------------------------------------------------------------
// Answers
// ---------------------------------------------------------------------------

/// The failure of an operation whose answers are not those that it asked for.
pub open spec fn unexpected() -> Seq<char> {
    "Unexpected answer"@
}

pub(crate) fn unexpected_error() -> (e: Error)
    ensures
        e@ == unexpected(),
{
    Error::new("Unexpected answer")
}

/// The message for a failed request on a volume, where `before` and `after` go
/// around the text of a failed call.
pub open spec fn failure_text(f: Failure, before: Seq<char>, after: Seq<char>) -> Seq<char> {
    match f {
        Failure::Open => "Failed to open device"@,
        Failure::Load => "Failed to load LUKS2 header"@,
        Failure::Settings(e) => "set_pbkdf_type failed: "@ + e@,
        Failure::Call(e) => before + e@ + after,
    }
}

pub(crate) fn failure_error(f: &Failure, before: &str, after: &str) -> (e: Error)
    ensures
        e@ == failure_text(*f, before@, after@),
{
    match f {
        Failure::Open => Error::new("Failed to open device"),
        Failure::Load => Error::new("Failed to load LUKS2 header"),
        Failure::Settings(e) => Error(concat("set_pbkdf_type failed: ", e.as_str())),
        Failure::Call(e) => Error(concat3(before, e.as_str(), after)),
    }
}

/// The metadata of a header, where it has any.
pub struct Metadata(pub Option<serde_json::Value>);

impl View for Metadata {
    type V = Option<JsonTree>;

    open spec fn view(&self) -> Option<JsonTree> {
        match self.0 {
            Some(v) => Some(value_tree(v)),
            None => None,
        }
    }
}

/// What the JSON area `area` holds.
pub open spec fn area_tree(area: Option<String>) -> Option<JsonTree> {
    match area {
        Some(text) => match json_parsed(text@) {
            Ok(t) => Some(t),
            Err(_) => None,
        },
        None => None,
    }
}

/// Reading the metadata of `device`.
pub open spec fn metadata_stage(device: Seq<char>, log: Seq<Answer>, at: int) -> Stage<
    Option<JsonTree>,
> {
    if at >= log.len() {
        Stage::Ask(Ask::Metadata { device })
    } else {
        match log[at] {
            Answer::Text(area) => Stage::Done(area_tree(area), at + 1),
            _ => Stage::Fail(unexpected()),
        }
    }
}

/// Reads the metadata of `device`.
pub fn read_metadata(device: &str, log: &Vec<Answer>, at: usize) -> (r: Step<Metadata>)
    ensures
        r@ == metadata_stage(device@, log@, at as int),
{
    if at >= log.len() {
        return Step::Ask(Request::Metadata { device: device.to_string() });
    }
    match &log[at] {
        Answer::Text(area) => {
            let text = match area {
                Some(s) => Some(s.as_str()),
                None => None,
            };
            Step::Done(Metadata(metadata_json(text)), at + 1)
        },
        _ => Step::Fail(unexpected_error()),
    }
}

/// Making sure that `device` opens and has a LUKS2 header.
pub open spec fn open_stage(device: Seq<char>, log: Seq<Answer>, at: int) -> Stage<()> {
    outcome_stage(Ask::Open { device }, ""@, log, at)
}

fn open_volume(device: &str, log: &Vec<Answer>, at: usize) -> (r: Step<()>)
    ensures
        r@ == open_stage(device@, log@, at as int),
{
    if at >= log.len() {
        return Step::Ask(Request::Open { device: device.to_string() });
    }
    outcome_answer("", log, at)
}

// ---------------------------------------------------------------------------
// Unlocking
// ---------------------------------------------------------------------------

/// Asking a token for its secret by `ask`: the passphrase is the base64 text of
/// the secret.
pub open spec fn derived_stage(ask: Ask, log: Seq<Answer>, at: int) -> Stage<Seq<u8>> {
    if at >= log.len() {
        Stage::Ask(ask)
    } else {
        match log[at] {
            Answer::Derived(Ok(raw)) => Stage::Done(encode_utf8(b64_text(raw@)), at + 1),
            Answer::Derived(Err(e)) => Stage::Fail(e@),
            _ => Stage::Fail(unexpected()),
        }
    }
}

/// Deriving the passphrase of `device` from a token of the type `kind`.
pub open spec fn derive_stage(
    device: Seq<char>,
    kind: Seq<char>,
    pin: Seq<char>,
    log: Seq<Answer>,
    at: int,
) -> Stage<Seq<u8>> {
    if kind != TOKEN_TYPE_FIDO2@ && kind != TOKEN_TYPE_TPM2@ {
        Stage::Fail("Unknown token type: "@ + kind)
    } else {
        match metadata_stage(device, log, at) {
            Stage::Ask(r) => Stage::Ask(r),
            Stage::Fail(e) => Stage::Fail(e),
            Stage::Done(t, n) => if kind == TOKEN_TYPE_FIDO2@ {
                match fido2_refs_of(t) {
                    Err(e) => Stage::Fail(e),
                    Ok(tokens) => derived_stage(Ask::UnlockFido2 { tokens, pin }, log, n),
                }
            } else {
                match tpm2_refs_of(t) {
                    Err(e) => Stage::Fail(e),
                    Ok(tokens) => derived_stage(Ask::UnsealTpm2 { tokens, pin }, log, n),
                }
            },
        }
    }
}

fn derived_answer(log: &Vec<Answer>, at: usize) -> (r: Step<Secret>)
    requires
        at < log.len(),
    ensures
        forall|ask: Ask| r@ == #[trigger] derived_stage(ask, log@, at as int),
{
    match &log[at] {
        Answer::Derived(Ok(raw)) => {
            let text = b64_encode(raw.as_bytes());
            Step::Done(Secret::new(bytes_of(text.as_str())), at + 1)
        },
        Answer::Derived(Err(e)) => Step::Fail(Error(e.clone())),
        _ => Step::Fail(unexpected_error()),
    }
}

/// Derives the passphrase of `device` from a FIDO2 or TPM2 token: the base64
/// text of the secret that the token yields.
pub fn derive_passphrase_from_token(
    device: &str,
    token_type: &str,
    pin: &str,
    log: &Vec<Answer>,
    at: usize,
) -> (r: Step<Secret>)
    ensures
        r@ == derive_stage(device@, token_type@, pin@, log@, at as int),
{
    let fido2 = str_eq(token_type, TOKEN_TYPE_FIDO2);
    if !fido2 && !str_eq(token_type, TOKEN_TYPE_TPM2) {
        return Step::Fail(Error(concat("Unknown token type: ", token_type)));
    }
    match read_metadata(device, log, at) {
        Step::Ask(r) => Step::Ask(r),
        Step::Fail(e) => Step::Fail(e),
        Step::Done(meta, n) => {
            if fido2 {
                match fido2_token_refs(meta.0.as_ref()) {
                    Err(e) => Step::Fail(e),
                    Ok(tokens) => {
                        if n >= log.len() {
                            return Step::Ask(
                                Request::UnlockFido2 { tokens, pin: pin.to_string() },
                            );
                        }
                        derived_answer(log, n)
                    },
                }
            } else {
                match tpm2_token_refs(meta.0.as_ref()) {
                    Err(e) => Step::Fail(e),
                    Ok(tokens) => {
                        if n >= log.len() {
                            return Step::Ask(Request::UnsealTpm2 { tokens, pin: pin.to_string() });
                        }
                        derived_answer(log, n)
                    },
                }
            }
        },
    }
}

/// The keyslots of a list of tokens, one token's after the other's.
pub open spec fn all_slots(tokens: Seq<(i32, Seq<i32>)>) -> Seq<i32>
    decreases tokens.len(),
{
    if tokens.len() == 0 {
        seq![]
    } else {
        all_slots(tokens.drop_last()) + tokens.last().1
    }
}

/// Taking the volume key of `device` out with `passphrase`: the keyslots `slots`
/// are tried first, one by one, and then all of them.
pub open spec fn try_slots(
    device: Seq<char>,
    slots: Seq<i32>,
    passphrase: Seq<u8>,
    before: Seq<char>,
    log: Seq<Answer>,
    at: int,
) -> Stage<(i32, Seq<u8>)>
    decreases slots.len(),
{
    let slot = if slots.len() == 0 {
        -1i32
    } else {
        slots[0]
    };
    if at >= log.len() {
        Stage::Ask(Ask::VolumeKey { device, slot, passphrase })
    } else {
        match log[at] {
            Answer::SlotKey(Ok(found)) => Stage::Done((found.0, found.1@), at + 1),
            Answer::SlotKey(Err(f)) => if slots.len() == 0 {
                Stage::Fail(failure_text(f, before, ")"@))
            } else {
                try_slots(device, slots.skip(1), passphrase, before, log, at + 1)
            },
            _ => Stage::Fail(unexpected()),
        }
    }
}

/// Taking the volume key of `device` out with the passphrase of a token of the
/// type `kind`: the keyslots of such tokens come first.
pub open spec fn extract_stage(
    device: Seq<char>,
    kind: Seq<char>,
    passphrase: Seq<u8>,
    before: Seq<char>,
    log: Seq<Answer>,
    at: int,
) -> Stage<(i32, Seq<u8>)> {
    match metadata_stage(device, log, at) {
        Stage::Ask(r) => Stage::Ask(r),
        Stage::Fail(e) => Stage::Fail(e),
        Stage::Done(t, n) => try_slots(
            device,
            all_slots(sort_of::<(i32, Vec<i32>)>(token_entries(tokens_of(t), kind))),
            passphrase,
            before,
            log,
            n,
        ),
    }
}

fn flatten_slots(tokens: &Vec<(i32, Vec<i32>)>) -> (r: Vec<i32>)
    ensures
        r@ == all_slots(views(tokens@)),
{
    let ghost t = views(tokens@);
    let mut r: Vec<i32> = Vec::new();
    assert(r@ =~= all_slots(t.take(0)));
    for i in 0..tokens.len()
        invariant
            t == views(tokens@),
            r@ == all_slots(t.take(i as int)),
    {
        assert(t.take(i + 1).drop_last() =~= t.take(i as int));
        let ghost before = r@;
        let slots = &tokens[i].1;
        for k in 0..slots.len()
            invariant
                r@ == before + slots@.take(k as int),
        {
            r.push(slots[k]);
            assert(before + slots@.take(k + 1) =~= (before + slots@.take(k as int)).push(
                slots@[k as int],
            ));
        }
        assert(slots@.take(slots@.len() as int) =~= slots@);
    }
    assert(t.take(t.len() as int) =~= t);
    r
}

fn try_keyslots(
    device: &str,
    slots: &Vec<i32>,
    passphrase: &Secret,
    before: &str,
    log: &Vec<Answer>,
    from: usize,
) -> (r: Step<(i32, VolumeKey)>)
    ensures
        r@ == try_slots(device@, slots@, passphrase@, before@, log@, from as int),
{
    let mut i: usize = 0;
    let mut at: usize = from;
    assert(slots@.skip(0) =~= slots@);
    loop
        invariant
            i <= slots@.len(),
            try_slots(device@, slots@.skip(i as int), passphrase@, before@, log@, at as int)
                == try_slots(device@, slots@, passphrase@, before@, log@, from as int),
        decreases slots@.len() - i,
    {
        assert(i < slots@.len() ==> slots@.skip(i as int)[0] == slots@[i as int]);
        let slot: i32 = if i == slots.len() { -1 } else { slots[i] };
        if at >= log.len() {
            return Step::Ask(
                Request::VolumeKey {
                    device: device.to_string(),
                    slot,
                    passphrase: passphrase.copy(),
                },
            );
        }
        match &log[at] {
            Answer::SlotKey(Ok(found)) => {
                return Step::Done((found.0, found.1.copy()), at + 1);
            },
            Answer::SlotKey(Err(f)) => {
                if i == slots.len() {
                    return Step::Fail(failure_error(f, before, ")"));
                }
                assert(slots@.skip(i as int).skip(1) =~= slots@.skip(i + 1));
                i = i + 1;
                at = at + 1;
            },
            _ => {
                return Step::Fail(unexpected_error());
            },
        }
    }
}

/// What goes before the text of a failure to take the volume key out.
pub open spec fn no_volume_key() -> Seq<char> {
    "Failed to get volume key ("@
}

fn extract_key(
    device: &str,
    token_type: &str,
    passphrase: &Secret,
    before: &str,
    log: &Vec<Answer>,
    at: usize,
) -> (r: Step<(i32, VolumeKey)>)
    ensures
        r@ == extract_stage(device@, token_type@, passphrase@, before@, log@, at as int),
{
    match read_metadata(device, log, at) {
        Step::Ask(r) => Step::Ask(r),
        Step::Fail(e) => Step::Fail(e),
        Step::Done(meta, n) => {
            let tokens = tokens_by_type(meta.0.as_ref(), token_type);
            let slots = flatten_slots(&tokens);
            try_keyslots(device, &slots, passphrase, before, log, n)
        },
    }
}

/// Takes the volume key of `device` out with the passphrase of a token of the
/// type `token_type`. The keyslots that such tokens belong to are tried first,
/// so that the slow key derivation of a password keyslot is not run for
/// nothing; if none opens, every keyslot is tried. Gives the keyslot and the
/// volume key.
pub fn extract_token_volume_key(
    device: &str,
    token_type: &str,
    passphrase: &Secret,
    log: &Vec<Answer>,
    at: usize,
) -> (r: Step<(i32, VolumeKey)>)
    ensures
        r@ == extract_stage(
            device@,
            token_type@,
            passphrase@,
            no_volume_key(),
            log@,
            at as int,
        ),
{
    extract_key(device, token_type, passphrase, "Failed to get volume key (", log, at)
}

/// Putting `key` into the cache, before `result` is given.
pub open spec fn cache_stage<T>(
    device: Seq<char>,
    key: Seq<u8>,
    result: T,
    log: Seq<Answer>,
    at: int,
) -> Stage<T> {
    if at >= log.len() {
        Stage::Ask(Ask::CacheKey { device, key })
    } else {
        match log[at] {
            Answer::Ack => Stage::Done(result, at + 1),
            _ => Stage::Fail(unexpected()),
        }
    }
}

fn cache_key<T: View>(device: &str, key: &VolumeKey, result: T, log: &Vec<Answer>, at: usize) -> (r:
    Step<T>)
    ensures
        r@ == cache_stage(device@, key@, result@, log@, at as int),
{
    if at >= log.len() {
        return Step::Ask(Request::CacheKey { device: device.to_string(), key: key.copy() });
    }
    match &log[at] {
        Answer::Ack => Step::Done(result, at + 1),
        _ => Step::Fail(unexpected_error()),
    }
}

/// Whether `method` is a way to unlock a volume.
pub open spec fn unlock_method_ok(method: Seq<char>) -> bool {
    method == "passphrase"@ || method == TOKEN_TYPE_FIDO2@ || method == TOKEN_TYPE_TPM2@
}

/// Getting the volume key of `device`.
pub open spec fn volume_key_stage(
    device: Seq<char>,
    method: Seq<char>,
    passphrase: Seq<char>,
    pin: Seq<char>,
    log: Seq<Answer>,
    at: int,
) -> Stage<Seq<u8>> {
    if !unlock_method_ok(method) {
        Stage::Fail("Invalid unlock method: "@ + debug_text(method))
    } else if at >= log.len() {
        Stage::Ask(Ask::CachedKey { device })
    } else {
        match log[at] {
            Answer::Key(Some(key)) => Stage::Done(key@, at + 1),
            Answer::Key(None) => {
                let found = if method == "passphrase"@ {
                    try_slots(
                        device,
                        seq![],
                        encode_utf8(passphrase),
                        no_volume_key(),
                        log,
                        at + 1,
                    )
                } else {
                    match open_stage(device, log, at + 1) {
                        Stage::Ask(r) => Stage::Ask(r),
                        Stage::Fail(e) => Stage::Fail(e),
                        Stage::Done(_, k) => match derive_stage(device, method, pin, log, k) {
                            Stage::Ask(r) => Stage::Ask(r),
                            Stage::Fail(e) => Stage::Fail(e),
                            Stage::Done(secret, n) => extract_stage(
                                device,
                                method,
                                secret,
                                no_volume_key(),
                                log,
                                n,
                            ),
                        },
                    }
                };
                match found {
                    Stage::Ask(r) => Stage::Ask(r),
                    Stage::Fail(e) => Stage::Fail(e),
                    Stage::Done((_, key), n) => cache_stage(device, key, key, log, n),
                }
            },
            _ => Stage::Fail(unexpected()),
        }
    }
}

/// Gets the volume key of `device`: out of the cache, where it is there, and
/// else by a passphrase or by a token. No token is bothered for a device that
/// does not open. A key that was not cached is cached.
pub fn get_volume_key(
    device: &str,
    unlock_method: &str,
    passphrase: &str,
    unlock_pin: &str,
    log: &Vec<Answer>,
    at: usize,
) -> (r: Step<VolumeKey>)
    ensures
        r@ == volume_key_stage(
            device@,
            unlock_method@,
            passphrase@,
            unlock_pin@,
            log@,
            at as int,
        ),
{
    let by_passphrase = str_eq(unlock_method, "passphrase");
    if !by_passphrase && !str_eq(unlock_method, TOKEN_TYPE_FIDO2) && !str_eq(
        unlock_method,
        TOKEN_TYPE_TPM2,
    ) {
        let quoted = debug_quoted(unlock_method);
        return Step::Fail(Error(concat("Invalid unlock method: ", quoted.as_str())));
    }
    if at >= log.len() {
        return Step::Ask(Request::CachedKey { device: device.to_string() });
    }
    match &log[at] {
        Answer::Key(Some(key)) => {
            return Step::Done(key.copy(), at + 1);
        },
        Answer::Key(None) => {},
        _ => {
            return Step::Fail(unexpected_error());
        },
    }
    let found = if by_passphrase {
        let none: Vec<i32> = Vec::new();
        assert(none@ =~= seq![]);
        let secret = Secret::new(bytes_of(passphrase));
        try_keyslots(device, &none, &secret, "Failed to get volume key (", log, at + 1)
    } else {
        match open_volume(device, log, at + 1) {
            Step::Ask(r) => Step::Ask(r),
            Step::Fail(e) => Step::Fail(e),
            Step::Done(_, k) => {
                match derive_passphrase_from_token(device, unlock_method, unlock_pin, log, k) {
                    Step::Ask(r) => Step::Ask(r),
                    Step::Fail(e) => Step::Fail(e),
                    Step::Done(secret, n) => extract_token_volume_key(
                        device,
                        unlock_method,
                        &secret,
                        log,
                        n,
                    ),
                }
            },
        }
    };
    match found {
        Step::Ask(r) => Step::Ask(r),
        Step::Fail(e) => Step::Fail(e),
        Step::Done((_, key), n) => {
            let copy = key.copy();
            cache_key(device, &copy, key, log, n)
        },
    }
}

/// Verifying a passphrase of `device`: the keyslot that it opens.
pub open spec fn verify_passphrase_stage(
    device: Seq<char>,
    passphrase: Seq<char>,
    log: Seq<Answer>,
    at: int,
) -> Stage<i32> {
    if at >= log.len() {
        Stage::Ask(
            Ask::VolumeKey { device, slot: -1i32, passphrase: encode_utf8(passphrase) },
        )
    } else {
        match log[at] {
            Answer::SlotKey(Ok(found)) => cache_stage(device, found.1@, found.0, log, at + 1),
            Answer::SlotKey(Err(f)) => Stage::Fail(
                match f {
                    Failure::Call(_) => "Incorrect passphrase or recovery key"@,
                    _ => failure_text(f, ""@, ""@),
                },
            ),
            _ => Stage::Fail(unexpected()),
        }
    }
}

/// Verifies a passphrase of `device`, and caches the volume key. Gives the
/// keyslot that the passphrase opens.
pub fn verify_passphrase(device: &str, passphrase: &str, log: &Vec<Answer>, at: usize) -> (r: Step<
    i32,
>)
    ensures
        r@ == verify_passphrase_stage(device@, passphrase@, log@, at as int),
{
    if at >= log.len() {
        return Step::Ask(
            Request::VolumeKey {
                device: device.to_string(),
                slot: -1,
                passphrase: Secret::new(bytes_of(passphrase)),
            },
        );
    }
    match &log[at] {
        Answer::SlotKey(Ok(found)) => cache_key(device, &found.1, found.0, log, at + 1),
        Answer::SlotKey(Err(f)) => match f {
            Failure::Call(_) => Step::Fail(Error::new("Incorrect passphrase or recovery key")),
            _ => Step::Fail(failure_error(f, "", "")),
        },
        _ => Step::Fail(unexpected_error()),
    }
}

/// Verifying that a token of the type `kind` opens `device`: the keyslot.
pub open spec fn verify_token_stage(
    device: Seq<char>,
    kind: Seq<char>,
    pin: Seq<char>,
    log: Seq<Answer>,
    at: int,
) -> Stage<i32> {
    if kind != TOKEN_TYPE_FIDO2@ && kind != TOKEN_TYPE_TPM2@ {
        Stage::Fail("Unsupported token type"@)
    } else {
        match derive_stage(device, kind, pin, log, at) {
            Stage::Ask(r) => Stage::Ask(r),
            Stage::Fail(e) => Stage::Fail(e),
            Stage::Done(secret, n) => match extract_stage(
                device,
                kind,
                secret,
                "Token unlock failed ("@,
                log,
                n,
            ) {
                Stage::Ask(r) => Stage::Ask(r),
                Stage::Fail(e) => Stage::Fail(e),
                Stage::Done((slot, key), m) => cache_stage(device, key, slot, log, m),
            },
        }
    }
}

/// Verifies that a FIDO2 or TPM2 token opens `device`, and caches the volume
/// key, so that what follows needs no second touch. Gives the keyslot.
pub fn verify_token(device: &str, token_type: &str, pin: &str, log: &Vec<Answer>, at: usize) -> (r:
    Step<i32>)
    ensures
        r@ == verify_token_stage(device@, token_type@, pin@, log@, at as int),
{
    if !str_eq(token_type, TOKEN_TYPE_FIDO2) && !str_eq(token_type, TOKEN_TYPE_TPM2) {
        return Step::Fail(Error::new("Unsupported token type"));
    }
    match derive_passphrase_from_token(device, token_type, pin, log, at) {
        Step::Ask(r) => Step::Ask(r),
        Step::Fail(e) => Step::Fail(e),
        Step::Done(secret, n) => {
            match extract_key(device, token_type, &secret, "Token unlock failed (", log, n) {
                Step::Ask(r) => Step::Ask(r),
                Step::Fail(e) => Step::Fail(e),
                Step::Done((slot, key), m) => cache_key(device, &key, slot, log, m),
            }
        },
    }
}

/// Whether a request changes what is stored on a device, or maps one.
pub open spec fn changes(ask: Ask) -> bool {
    match ask {
        Ask::AddKeyslot { .. } => true,
        Ask::SetToken { .. } => true,
        Ask::DestroyKeyslot { .. } => true,
        Ask::Format { .. } => true,
        Ask::Activate { .. } => true,
        Ask::Deactivate { .. } => true,
        Ask::CreateFile { .. } => true,
        Ask::Chown { .. } => true,
        Ask::Wipefs { .. } => true,
        Ask::Partition { .. } => true,
        _ => false,
    }
}

proof fn lemma_try_slots(
    device: Seq<char>,
    slots: Seq<i32>,
    passphrase: Seq<u8>,
    before: Seq<char>,
    log: Seq<Answer>,
    at: int,
)
    requires
        0 <= at <= log.len(),
    ensures
        match try_slots(device, slots, passphrase, before, log, at) {
            Stage::Ask(a) => a is VolumeKey,
            Stage::Done(_, n) => at < n <= log.len(),
            Stage::Fail(_) => true,
        },
    decreases slots.len(),
{
    if at < log.len() && slots.len() > 0 {
        lemma_try_slots(device, slots.skip(1), passphrase, before, log, at + 1);
    }
}

/// Unlocking a volume changes nothing: whatever it is answered, it never asks
/// for a change. When it is done, it has used answers that are there.
pub proof fn law_unlock_changes_nothing(
    device: Seq<char>,
    method: Seq<char>,
    passphrase: Seq<char>,
    pin: Seq<char>,
    log: Seq<Answer>,
    at: int,
)
    requires
        0 <= at <= log.len(),
    ensures
        match volume_key_stage(device, method, passphrase, pin, log, at) {
            Stage::Ask(a) => !changes(a),
            Stage::Done(_, n) => at < n <= log.len(),
            Stage::Fail(_) => true,
        },
{
    if unlock_method_ok(method) && at < log.len() && log[at] matches Answer::Key(None) {
        if method == "passphrase"@ {
            lemma_try_slots(
                device,
                seq![],
                encode_utf8(passphrase),
                no_volume_key(),
                log,
                at + 1,
            );
        } else {
            match derive_stage(device, method, pin, log, at + 2) {
                Stage::Done(secret, n) => {
                    match metadata_stage(device, log, n) {
                        Stage::Done(t, k) => {
                            lemma_try_slots(
                                device,
                                all_slots(
                                    sort_of::<(i32, Vec<i32>)>(token_entries(tokens_of(t), method)),
                                ),
                                secret,
                                no_volume_key(),
                                log,
                                k,
                            );
                        },
                        _ => {},
                    }
                },
                _ => {},
            }
        }
    }
}

proof fn lemma_try_slots_prefix(
    device: Seq<char>,
    slots: Seq<i32>,
    passphrase: Seq<u8>,
    before: Seq<char>,
    log: Seq<Answer>,
    at: int,
    m: int,
)
    requires
        0 <= at <= m <= log.len(),
        try_slots(device, slots, passphrase, before, log, at) is Done,
        try_slots(device, slots, passphrase, before, log, at)->Done_1 <= m,
    ensures
        try_slots(device, slots, passphrase, before, log.take(m), at) == try_slots(
            device,
            slots,
            passphrase,
            before,
            log,
            at,
        ),
    decreases slots.len(),
{
    lemma_try_slots(device, slots, passphrase, before, log, at);
    assert(log.take(m)[at] == log[at]);
    if slots.len() > 0 && log[at] is SlotKey && log[at]->SlotKey_0 is Err {
        lemma_try_slots(device, slots.skip(1), passphrase, before, log, at + 1);
        lemma_try_slots_prefix(device, slots.skip(1), passphrase, before, log, at + 1, m);
    }
}

/// A volume key that was not cached is cached before it is given out: the last
/// request before the result was to cache it.
pub proof fn law_unlock_caches_the_key(
    device: Seq<char>,
    method: Seq<char>,
    passphrase: Seq<char>,
    pin: Seq<char>,
    log: Seq<Answer>,
    at: int,
)
    requires
        0 <= at < log.len(),
        log[at] == Answer::Key(None),
        volume_key_stage(device, method, passphrase, pin, log, at) is Done,
    ensures
        ({
            let done = volume_key_stage(device, method, passphrase, pin, log, at);
            volume_key_stage(
                device,
                method,
                passphrase,
                pin,
                log.take(done->Done_1 - 1),
                at,
            ) == Stage::<Seq<u8>>::Ask(Ask::CacheKey { device, key: done->Done_0 })
        }),
{
    law_unlock_changes_nothing(device, method, passphrase, pin, log, at);
    let done = volume_key_stage(device, method, passphrase, pin, log, at);
    let m = done->Done_1 - 1;
    let before = log.take(m);
    assert(forall|i: int| 0 <= i < m ==> before[i] == log[i]);
    if method == "passphrase"@ {
        let slots: Seq<i32> = seq![];
        lemma_try_slots(device, slots, encode_utf8(passphrase), no_volume_key(), log, at + 1);
        lemma_try_slots_prefix(
            device,
            slots,
            encode_utf8(passphrase),
            no_volume_key(),
            log,
            at + 1,
            m,
        );
    } else {
        match derive_stage(device, method, pin, log, at + 2) {
            Stage::Done(secret, n) => {
                assert(n == at + 4);
                match metadata_stage(device, log, n) {
                    Stage::Done(t, k) => {
                        let slots = all_slots(
                            sort_of::<(i32, Vec<i32>)>(token_entries(tokens_of(t), method)),
                        );
                        lemma_try_slots(device, slots, secret, no_volume_key(), log, k);
                        lemma_try_slots_prefix(
                            device,
                            slots,
                            secret,
                            no_volume_key(),
                            log,
                            k,
                            m,
                        );
                    },
                    _ => {},
                }
            },
            _ => {},
        }
    }
}

/// A volume key that is in the cache is given out whatever the passphrase, the
/// PIN and the way to unlock are.
pub proof fn law_cached_key_needs_no_passphrase(
    device: Seq<char>,
    method: Seq<char>,
    passphrase: Seq<char>,
    pin: Seq<char>,
    key: VolumeKey,
    log: Seq<Answer>,
    at: int,
)
    requires
        unlock_method_ok(method),
        0 <= at < log.len(),
        log[at] == Answer::Key(Some(key)),
    ensures
        volume_key_stage(device, method, passphrase, pin, log, at) == Stage::<Seq<u8>>::Done(
            key@,
            at + 1,
        ),
{
}

/// Where a device does not open, that is what is reported, whatever the way to
/// unlock is, and no token is asked for a secret.
pub proof fn law_unopened_device_is_reported(
    device: Seq<char>,
    method: Seq<char>,
    passphrase: Seq<char>,
    pin: Seq<char>,
    f: Failure,
    log: Seq<Answer>,
    at: int,
)
    requires
        unlock_method_ok(method),
        f is Open || f is Load,
        0 <= at,
        at + 1 < log.len(),
        log[at] == Answer::Key(None),
        log[at + 1] == if method == "passphrase"@ {
            Answer::SlotKey(Err(f))
        } else {
            Answer::Outcome(Err(f))
        },
    ensures
        volume_key_stage(device, method, passphrase, pin, log, at) == Stage::<Seq<u8>>::Fail(
            if f is Open {
                "Failed to open device"@
            } else {
                "Failed to load LUKS2 header"@
            },
        ),
{
}

// ---------------------------------------------------------------------------
// Changing the header
// ---------------------------------------------------------------------------

/// The number that the answer at `at` gives, once `ask` has been asked.
pub open spec fn number_stage(ask: Ask, before: Seq<char>, log: Seq<Answer>, at: int) -> Stage<i32> {
    if at >= log.len() {
        Stage::Ask(ask)
    } else {
        match log[at] {
            Answer::Number(Ok(n)) => Stage::Done(n, at + 1),
            Answer::Number(Err(f)) => Stage::Fail(failure_text(f, before, ""@)),
            _ => Stage::Fail(unexpected()),
        }
    }
}

fn number_answer(before: &str, log: &Vec<Answer>, at: usize) -> (r: Step<i32>)
    requires
        at < log.len(),
    ensures
        forall|ask: Ask| r@ == #[trigger] number_stage(ask, before@, log@, at as int),
{
    match &log[at] {
        Answer::Number(Ok(n)) => Step::Done(*n, at + 1),
        Answer::Number(Err(f)) => {
            let e = failure_error(f, before, "");
            Step::Fail(e)
        },
        _ => Step::Fail(unexpected_error()),
    }
}

/// The outcome that the answer at `at` gives, once `ask` has been asked.
pub open spec fn outcome_stage(ask: Ask, before: Seq<char>, log: Seq<Answer>, at: int) -> Stage<()> {
    if at >= log.len() {
        Stage::Ask(ask)
    } else {
        match log[at] {
            Answer::Outcome(Ok(_)) => Stage::Done((), at + 1),
            Answer::Outcome(Err(f)) => Stage::Fail(failure_text(f, before, ""@)),
            _ => Stage::Fail(unexpected()),
        }
    }
}

pub(crate) fn outcome_answer(before: &str, log: &Vec<Answer>, at: usize) -> (r: Step<()>)
    requires
        at < log.len(),
    ensures
        forall|ask: Ask| r@ == #[trigger] outcome_stage(ask, before@, log@, at as int),
{
    match &log[at] {
        Answer::Outcome(Ok(_)) => Step::Done((), at + 1),
        Answer::Outcome(Err(f)) => {
            let e = failure_error(f, before, "");
            Step::Fail(e)
        },
        _ => Step::Fail(unexpected_error()),
    }
}

/// Adding a keyslot for `passphrase` to `device`.
pub open spec fn add_keyslot_stage(
    device: Seq<char>,
    key: Seq<u8>,
    passphrase: Seq<u8>,
    minimal_pbkdf: bool,
    log: Seq<Answer>,
    at: int,
) -> Stage<i32> {
    number_stage(
        Ask::AddKeyslot { device, key, passphrase, minimal_pbkdf },
        "crypt_keyslot_add_by_key failed: "@,
        log,
        at,
    )
}

/// Adds a keyslot for `new_passphrase` to `device`, whose volume key is `key`,
/// and gives its number. A random passphrase needs no stretching, so it goes
/// with `minimal_pbkdf`.
pub fn add_keyslot_by_volume_key(
    device: &str,
    key: &VolumeKey,
    new_passphrase: &Secret,
    minimal_pbkdf: bool,
    log: &Vec<Answer>,
    at: usize,
) -> (r: Step<i32>)
    ensures
        r@ == add_keyslot_stage(
            device@,
            key@,
            new_passphrase@,
            minimal_pbkdf,
            log@,
            at as int,
        ),
{
    if at >= log.len() {
        return Step::Ask(
            Request::AddKeyslot {
                device: device.to_string(),
                key: key.copy(),
                passphrase: new_passphrase.copy(),
                minimal_pbkdf,
            },
        );
    }
    number_answer("crypt_keyslot_add_by_key failed: ", log, at)
}

/// Storing or removing a token of `device`.
pub open spec fn set_token_stage(
    device: Seq<char>,
    token: i32,
    json: Option<Seq<char>>,
    log: Seq<Answer>,
    at: int,
) -> Stage<i32> {
    if json is Some && json_parsed(json->Some_0) is Err {
        match open_stage(device, log, at) {
            Stage::Ask(r) => Stage::Ask(r),
            Stage::Fail(e) => Stage::Fail(e),
            Stage::Done(_, _) => Stage::Fail(
                "JSON error: "@ + json_parsed(json->Some_0)->Err_0,
            ),
        }
    } else {
        number_stage(
            Ask::SetToken { device, token, json },
            "crypt_token_json_set failed: "@,
            log,
            at,
        )
    }
}

/// Stores the token `token_json` in `device` under the number `token_id`, or
/// under a free one if that is -1; without `token_json`, removes the token.
/// Gives the number. What is not JSON is refused, on a device that opens.
pub fn set_token(
    device: &str,
    token_id: i32,
    token_json: Option<&str>,
    log: &Vec<Answer>,
    at: usize,
) -> (r: Step<i32>)
    ensures
        r@ == set_token_stage(
            device@,
            token_id,
            match token_json {
                Some(s) => Some(s@),
                None => None,
            },
            log@,
            at as int,
        ),
{
    let json = match token_json {
        Some(s) => {
            match parse(s) {
                Ok(_) => {},
                Err(e) => {
                    return match open_volume(device, log, at) {
                        Step::Ask(r) => Step::Ask(r),
                        Step::Fail(e) => Step::Fail(e),
                        Step::Done(_, _) => Step::Fail(Error(concat("JSON error: ", e.as_str()))),
                    };
                },
            }
            Some(s.to_string())
        },
        None => None,
    };
    if at >= log.len() {
        return Step::Ask(
            Request::SetToken { device: device.to_string(), token: token_id, json },
        );
    }
    number_answer("crypt_token_json_set failed: ", log, at)
}

/// Destroying a keyslot of `device`.
pub open spec fn destroy_stage(device: Seq<char>, slot: i32, log: Seq<Answer>, at: int) -> Stage<
    (),
> {
    outcome_stage(
        Ask::DestroyKeyslot { device, slot },
        "crypt_keyslot_destroy failed: "@,
        log,
        at,
    )
}

/// Destroys the keyslot `slot` of `device`.
pub fn destroy_keyslot(device: &str, slot: i32, log: &Vec<Answer>, at: usize) -> (r: Step<()>)
    ensures
        r@ == destroy_stage(device@, slot, log@, at as int),
{
    if at >= log.len() {
        return Step::Ask(Request::DestroyKeyslot { device: device.to_string(), slot });
    }
    outcome_answer("crypt_keyslot_destroy failed: ", log, at)
}

/// Writing a new header to `device`: the volume key.
pub open spec fn new_header_stage(
    device: Seq<char>,
    area: KeyslotsArea,
    log: Seq<Answer>,
    at: int,
) -> Stage<Seq<u8>> {
    if at >= log.len() {
        Stage::Ask(Ask::Format { device, area })
    } else {
        match log[at] {
            Answer::NewKey(Ok(key)) => Stage::Done(key@, at + 1),
            Answer::NewKey(Err(f)) => Stage::Fail(
                match f {
                    Failure::Open => "crypt_init failed"@,
                    _ => failure_text(f, "crypt_format failed: "@, ""@),
                },
            ),
            _ => Stage::Fail(unexpected()),
        }
    }
}

fn new_header(device: &str, area: KeyslotsArea, log: &Vec<Answer>, at: usize) -> (r: Step<VolumeKey>)
    ensures
        r@ == new_header_stage(device@, area, log@, at as int),
{
    if at >= log.len() {
        return Step::Ask(Request::Format { device: device.to_string(), area });
    }
    match &log[at] {
        Answer::NewKey(Ok(key)) => Step::Done(key.copy(), at + 1),
        Answer::NewKey(Err(f)) => match f {
            Failure::Open => Step::Fail(Error::new("crypt_init failed")),
            _ => Step::Fail(failure_error(f, "crypt_format failed: ", "")),
        },
        _ => Step::Fail(unexpected_error()),
    }
}

/// Formatting `device` with a passphrase: the keyslot.
pub open spec fn format_stage(
    device: Seq<char>,
    passphrase: Seq<char>,
    area: KeyslotsArea,
    log: Seq<Answer>,
    at: int,
) -> Stage<i32> {
    match new_header_stage(device, area, log, at) {
        Stage::Ask(r) => Stage::Ask(r),
        Stage::Fail(e) => Stage::Fail(e),
        Stage::Done(key, n) => add_keyslot_stage(
            device,
            key,
            encode_utf8(passphrase),
            false,
            log,
            n,
        ),
    }
}

/// Formats `device` as a LUKS2 volume that `passphrase` opens, and gives the
/// keyslot of the passphrase.
pub fn format_luks2(
    device: &str,
    passphrase: &str,
    area: KeyslotsArea,
    log: &Vec<Answer>,
    at: usize,
) -> (r: Step<i32>)
    ensures
        r@ == format_stage(device@, passphrase@, area, log@, at as int),
{
    match new_header(device, area, log, at) {
        Step::Ask(r) => Step::Ask(r),
        Step::Fail(e) => Step::Fail(e),
        Step::Done(key, n) => {
            let secret = Secret::new(bytes_of(passphrase));
            add_keyslot_by_volume_key(device, &key, &secret, false, log, n)
        },
    }
}

/// Formatting `device` without a keyslot.
pub open spec fn format_keyless_stage(
    device: Seq<char>,
    area: KeyslotsArea,
    log: Seq<Answer>,
    at: int,
) -> Stage<()> {
    match new_header_stage(device, area, log, at) {
        Stage::Ask(r) => Stage::Ask(r),
        Stage::Fail(e) => Stage::Fail(e),
        Stage::Done(key, n) => cache_stage(device, key, (), log, n),
    }
}

/// Formats `device` as a LUKS2 volume without a keyslot, and caches the volume
/// key, so that the first enrollment needs no passphrase.
pub fn format_luks2_keyless(device: &str, area: KeyslotsArea, log: &Vec<Answer>, at: usize) -> (r:
    Step<()>)
    ensures
        r@ == format_keyless_stage(device@, area, log@, at as int),
{
    match new_header(device, area, log, at) {
        Step::Ask(r) => Step::Ask(r),
        Step::Fail(e) => Step::Fail(e),
        Step::Done(key, n) => cache_key(device, &key, (), log, n),
    }
}

// ---------------------------------------------------------------------------
// Mapping
// ---------------------------------------------------------------------------

/// Whether `name` names a node right below `/dev/mapper`.
pub open spec fn mapper_name_ok(name: Seq<char>) -> bool {
    name.len() > 0 && !name.contains('/') && name != "."@ && name != ".."@
}

/// Whether `name` names a node right below `/dev/mapper`.
pub fn is_mapper_name(name: &str) -> (r: bool)
    ensures
        r == mapper_name_ok(name@),
{
    if name.is_empty() || str_eq(name, ".") || str_eq(name, "..") {
        return false;
    }
    let v = chars_of(name);
    for i in 0..v.len()
        invariant
            v@ == name@,
            forall|k: int| 0 <= k < i ==> v@[k] != '/',
    {
        if v[i] == '/' {
            assert(name@[i as int] == '/');
            return false;
        }
    }
    true
}

/// The answer to a question, once `ask` has been asked.
pub open spec fn flag_stage(ask: Ask, log: Seq<Answer>, at: int) -> Stage<bool> {
    if at >= log.len() {
        Stage::Ask(ask)
    } else {
        match log[at] {
            Answer::Flag(b) => Stage::Done(b, at + 1),
            _ => Stage::Fail(unexpected()),
        }
    }
}

fn ask_active(name: &str, log: &Vec<Answer>, at: usize) -> (r: Step<bool>)
    ensures
        r@ == flag_stage(Ask::MappingActive { name: name@ }, log@, at as int),
{
    if at >= log.len() {
        return Step::Ask(Request::MappingActive { name: name.to_string() });
    }
    match &log[at] {
        Answer::Flag(b) => Step::Done(*b, at + 1),
        _ => Step::Fail(unexpected_error()),
    }
}

fn ask_mounted(name: &str, log: &Vec<Answer>, at: usize) -> (r: Step<bool>)
    ensures
        r@ == flag_stage(Ask::MappingMounted { name: name@ }, log@, at as int),
{
    if at >= log.len() {
        return Step::Ask(Request::MappingMounted { name: name.to_string() });
    }
    match &log[at] {
        Answer::Flag(b) => Step::Done(*b, at + 1),
        _ => Step::Fail(unexpected_error()),
    }
}

/// Activating `device` as the mapping `name`.
pub open spec fn activate_stage(
    device: Seq<char>,
    name: Seq<char>,
    method: Seq<char>,
    passphrase: Seq<char>,
    pin: Seq<char>,
    log: Seq<Answer>,
    at: int,
) -> Stage<()> {
    if !mapper_name_ok(name) {
        Stage::Fail("Invalid mapper name: "@ + debug_text(name))
    } else {
        match volume_key_stage(device, method, passphrase, pin, log, at) {
            Stage::Ask(r) => Stage::Ask(r),
            Stage::Fail(e) => Stage::Fail(e),
            Stage::Done(key, n) => match flag_stage(Ask::MappingActive { name }, log, n) {
                Stage::Ask(r) => Stage::Ask(r),
                Stage::Fail(e) => Stage::Fail(e),
                Stage::Done(active, m) => if active {
                    Stage::Done((), m)
                } else {
                    outcome_stage(
                        Ask::Activate { device, name, key },
                        "Failed to activate volume: "@,
                        log,
                        m,
                    )
                },
            },
        }
    }
}

/// Activates `device` as `/dev/mapper/<name>`. The name is checked before
/// anything else is done, and a mapping that is there already is left alone.
pub fn activate_volume(
    device: &str,
    name: &str,
    unlock_method: &str,
    passphrase: &str,
    unlock_pin: &str,
    log: &Vec<Answer>,
    at: usize,
) -> (r: Step<()>)
    ensures
        r@ == activate_stage(
            device@,
            name@,
            unlock_method@,
            passphrase@,
            unlock_pin@,
            log@,
            at as int,
        ),
{
    if !is_mapper_name(name) {
        let quoted = debug_quoted(name);
        return Step::Fail(Error(concat("Invalid mapper name: ", quoted.as_str())));
    }
    match get_volume_key(device, unlock_method, passphrase, unlock_pin, log, at) {
        Step::Ask(r) => Step::Ask(r),
        Step::Fail(e) => Step::Fail(e),
        Step::Done(key, n) => match ask_active(name, log, n) {
            Step::Ask(r) => Step::Ask(r),
            Step::Fail(e) => Step::Fail(e),
            Step::Done(active, m) => {
                if active {
                    return Step::Done((), m);
                }
                if m >= log.len() {
                    return Step::Ask(
                        Request::Activate {
                            device: device.to_string(),
                            name: name.to_string(),
                            key,
                        },
                    );
                }
                outcome_answer("Failed to activate volume: ", log, m)
            },
        },
    }
}

/// Removing the mapping `name`.
pub open spec fn deactivate_stage(name: Seq<char>, log: Seq<Answer>, at: int) -> Stage<()> {
    if !mapper_name_ok(name) {
        Stage::Fail("Invalid mapper name: "@ + debug_text(name))
    } else {
        match flag_stage(Ask::MappingActive { name }, log, at) {
            Stage::Ask(r) => Stage::Ask(r),
            Stage::Fail(e) => Stage::Fail(e),
            Stage::Done(active, n) => if !active {
                Stage::Done((), n)
            } else {
                match flag_stage(Ask::MappingMounted { name }, log, n) {
                    Stage::Ask(r) => Stage::Ask(r),
                    Stage::Fail(e) => Stage::Fail(e),
                    Stage::Done(mounted, m) => if mounted {
                        Stage::Fail("Volume is mounted"@)
                    } else {
                        outcome_stage(
                            Ask::Deactivate { name },
                            "Failed to deactivate volume: "@,
                            log,
                            m,
                        )
                    },
                }
            },
        }
    }
}

/// Removes the mapping `/dev/mapper/<name>`. A mapping that is not there is no
/// failure; one whose file system is mounted is not removed.
pub fn deactivate_volume(name: &str, log: &Vec<Answer>, at: usize) -> (r: Step<()>)
    ensures
        r@ == deactivate_stage(name@, log@, at as int),
{
    if !is_mapper_name(name) {
        let quoted = debug_quoted(name);
        return Step::Fail(Error(concat("Invalid mapper name: ", quoted.as_str())));
    }
    match ask_active(name, log, at) {
        Step::Ask(r) => Step::Ask(r),
        Step::Fail(e) => Step::Fail(e),
        Step::Done(active, n) => {
            if !active {
                return Step::Done((), n);
            }
            match ask_mounted(name, log, n) {
                Step::Ask(r) => Step::Ask(r),
                Step::Fail(e) => Step::Fail(e),
                Step::Done(mounted, m) => {
                    if mounted {
                        return Step::Fail(Error::new("Volume is mounted"));
                    }
                    if m >= log.len() {
                        return Step::Ask(Request::Deactivate { name: name.to_string() });
                    }
                    outcome_answer("Failed to deactivate volume: ", log, m)
                },
            }
        },
    }
}

} // verus!
