//! LUKS2 volumes: what the header's metadata says, and the operations on a
//! volume.

use std::collections::BTreeMap;

use vstd::prelude::*;

use crate::codec::{b64_bytes, b64_complaint, b64_decode, Secret};
use crate::constants::{TOKEN_TYPE_FIDO2, TOKEN_TYPE_TPM2};
use crate::error::Error;
use crate::json::{
    as_str, get, get_items, get_members, get_str, json_parsed, json_text, member, member_items,
    member_members, member_str, parse, shape, str_of, text_of, trees, value_tree, JsonTree, Members,
    Shape,
};
use crate::order::{is_sorted_form, law_sort_of, sort_of, sorted, views};
use crate::text::{
    concat, join, join_strings, parse_i32_spec, parse_i32_str, str_eq, texts,
};

verus! {

/// A LUKS volume key. Its bytes are wiped when it is dropped.
pub type VolumeKey = Secret;

/// The size of a compact keyslots area: room for eight keyslots of a 512-bit
/// volume key. Formatting erases the whole area, and on slow flash the default
/// area of 16 MiB is what takes the time.
pub const COMPACT_KEYSLOTS_SIZE: u64 = 2_097_152;

/// The cipher of a new volume.
pub const CIPHER: &'static str = "aes";

/// The mode of the cipher of a new volume.
pub const CIPHER_MODE: &'static str = "xts-plain64";

/// The length of the volume key of a new volume, in bytes.
pub const VOLUME_KEY_LEN: usize = 64;

/// The hash of the PBKDF2 that stretches a random passphrase.
pub const MINIMAL_PBKDF_HASH: &'static str = "sha512";

/// How long a random passphrase is stretched, in milliseconds.
pub const MINIMAL_PBKDF_TIME: u32 = 1;

/// How many rounds a random passphrase is stretched.
pub const MINIMAL_PBKDF_ITERATIONS: u32 = 1000;

// ---------------------------------------------------------------------------
// Metadata
// ---------------------------------------------------------------------------

/// What a header's metadata holds, where there is any.
pub open spec fn opt_tree(meta: Option<&serde_json::Value>) -> Option<JsonTree> {
    match meta {
        Some(v) => Some(value_tree(*v)),
        None => None,
    }
}

/// The metadata that a header's JSON area holds; none where the area could not
/// be read or is not JSON.
pub fn metadata_json(area: Option<&str>) -> (r: Option<serde_json::Value>)
    ensures
        match r {
            Some(v) => area is Some && json_parsed(area->Some_0@) == Ok::<JsonTree, Seq<char>>(
                value_tree(v),
            ),
            None => area is None || json_parsed(area->Some_0@) is Err,
        },
{
    match area {
        Some(text) => match parse(text) {
            Ok(v) => Some(v),
            Err(_) => None,
        },
        None => None,
    }
}

/// The keyslots of a header: each number with its type, in the order of the
/// metadata. A key that is no number is passed over, and a slot without a type
/// has the type "unknown".
pub open spec fn slot_entries(m: Members) -> Seq<(i32, Seq<char>)>
    decreases m.len(),
{
    if m.len() == 0 {
        seq![]
    } else {
        let before = slot_entries(m.drop_last());
        match parse_i32_spec(m.last().0) {
            Some(n) => before.push(
                (
                    n,
                    match member_str(m.last().1, "type"@) {
                        Some(s) => s,
                        None => "unknown"@,
                    },
                ),
            ),
            None => before,
        }
    }
}

/// The keyslots of a header whose metadata is `t`.
pub open spec fn keyslots_of(t: Option<JsonTree>) -> Seq<(i32, Seq<char>)> {
    match t {
        Some(t) => slot_entries(member_members(t, "keyslots"@)),
        None => seq![],
    }
}

/// The map that a list of keyslots gives; where a number occurs twice, the last
/// entry counts.
pub open spec fn slot_map(e: Seq<(i32, Seq<char>)>) -> Map<i32, Seq<char>>
    decreases e.len(),
{
    if e.len() == 0 {
        Map::empty()
    } else {
        slot_map(e.drop_last()).insert(e.last().0, e.last().1)
    }
}

/// The keyslots of a header, as they stand in the metadata.
pub fn keyslot_list(meta: Option<&serde_json::Value>) -> (r: Vec<(i32, String)>)
    ensures
        views(r@) == keyslots_of(opt_tree(meta)),
{
    let mut r: Vec<(i32, String)> = Vec::new();
    match meta {
        Some(v) => {
            let m = get_members(v, "keyslots");
            let ghost t = member_members(value_tree(*v), "keyslots"@);
            assert(views(r@) =~= slot_entries(t.take(0)));
            for i in 0..m.len()
                invariant
                    t == Seq::new(m@.len(), |i: int| (m@[i].0@, value_tree(*m@[i].1))),
                    views(r@) == slot_entries(t.take(i as int)),
            {
                assert(t.take(i + 1).drop_last() =~= t.take(i as int));
                let ghost before = r@;
                match parse_i32_str(m[i].0) {
                    Some(n) => {
                        let kind = match get_str(m[i].1, "type") {
                            Some(s) => s,
                            None => "unknown",
                        };
                        r.push((n, kind.to_string()));
                        assert(views(r@) =~= views(before).push((n, kind@)));
                    },
                    None => {},
                }
            }
            assert(t.take(t.len() as int) =~= t);
        },
        None => {
            assert(views(r@) =~= keyslots_of(opt_tree(meta)));
        },
    }
    r
}

/// The keyslots of a header: number and type.
pub fn list_keyslots(meta: Option<&serde_json::Value>) -> (r: BTreeMap<i32, String>)
    ensures
        r@.dom() == slot_map(keyslots_of(opt_tree(meta))).dom(),
        forall|n: i32| #[trigger]
            r@.dom().contains(n) ==> r@[n]@ == slot_map(keyslots_of(opt_tree(meta)))[n],
{
    let e = keyslot_list(meta);
    let ghost t = views(e@);
    let mut r: BTreeMap<i32, String> = BTreeMap::new();
    assert(r@.dom() =~= slot_map(t.take(0)).dom());
    for i in 0..e.len()
        invariant
            t == views(e@),
            r@.dom() == slot_map(t.take(i as int)).dom(),
            forall|n: i32| #[trigger]
                r@.dom().contains(n) ==> r@[n]@ == slot_map(t.take(i as int))[n],
    {
        assert(t.take(i + 1).drop_last() =~= t.take(i as int));
        let ghost before = r@;
        r.insert(e[i].0, e[i].1.clone());
        assert(r@.dom() =~= slot_map(t.take(i + 1)).dom());
    }
    assert(t.take(t.len() as int) =~= t);
    r
}

/// The numbers in the `keyslots` list of a token; an item that is no text, or no
/// number, is passed over.
pub open spec fn slot_numbers(items: Seq<JsonTree>) -> Seq<i32>
    decreases items.len(),
{
    if items.len() == 0 {
        seq![]
    } else {
        let before = slot_numbers(items.drop_last());
        match str_of(items.last()) {
            Some(s) => match parse_i32_spec(s) {
                Some(n) => before.push(n),
                None => before,
            },
            None => before,
        }
    }
}

/// The keyslots that the token `t` belongs to.
pub open spec fn token_slots(t: JsonTree) -> Seq<i32> {
    slot_numbers(member_items(t, "keyslots"@))
}

/// The keyslots that a token belongs to.
pub fn token_keyslots(token: &serde_json::Value) -> (r: Vec<i32>)
    ensures
        r@ == token_slots(value_tree(*token)),
{
    let mut r: Vec<i32> = Vec::new();
    match get_items(token, "keyslots") {
        Some(a) => {
            let ghost t = trees(a@);
            assert(r@ =~= slot_numbers(t.take(0)));
            for i in 0..a.len()
                invariant
                    t == trees(a@),
                    r@ == slot_numbers(t.take(i as int)),
            {
                assert(t.take(i + 1).drop_last() =~= t.take(i as int));
                match as_str(&a[i]) {
                    Some(s) => match parse_i32_str(s) {
                        Some(n) => {
                            r.push(n);
                        },
                        None => {},
                    },
                    None => {},
                }
            }
            assert(t.take(t.len() as int) =~= t);
        },
        None => {},
    }
    r
}

/// The tokens of a header whose metadata is `t`.
pub open spec fn tokens_of(t: Option<JsonTree>) -> Members {
    match t {
        Some(t) => member_members(t, "tokens"@),
        None => seq![],
    }
}

/// The tokens among `m` of the type `kind`, each with its keyslots, in the order
/// of the metadata. A token whose key is no number is passed over.
pub open spec fn token_entries(m: Members, kind: Seq<char>) -> Seq<(i32, Seq<i32>)>
    decreases m.len(),
{
    if m.len() == 0 {
        seq![]
    } else {
        let before = token_entries(m.drop_last(), kind);
        if member_str(m.last().1, "type"@) == Some(kind) {
            match parse_i32_spec(m.last().0) {
                Some(n) => before.push((n, token_slots(m.last().1))),
                None => before,
            }
        } else {
            before
        }
    }
}

/// The tokens of a header, none where there is no metadata.
fn get_tokens<'a>(meta: Option<&'a serde_json::Value>) -> (r: Vec<
    (&'a str, &'a serde_json::Value),
>)
    ensures
        tokens_of(opt_tree(meta)) == Seq::new(
            r@.len(),
            |i: int| (r@[i].0@, value_tree(*r@[i].1)),
        ),
{
    match meta {
        Some(v) => get_members(v, "tokens"),
        None => {
            let r: Vec<(&'a str, &'a serde_json::Value)> = Vec::new();
            assert(tokens_of(opt_tree(meta)) =~= Seq::new(
                r@.len(),
                |i: int| (r@[i].0@, value_tree(*r@[i].1)),
            ));
            r
        },
    }
}

/// The tokens of the given type, each with its keyslots, in order of their
/// numbers.
pub fn tokens_by_type(meta: Option<&serde_json::Value>, token_type: &str) -> (r: Vec<
    (i32, Vec<i32>),
>)
    ensures
        views(r@) == sort_of::<(i32, Vec<i32>)>(
            token_entries(tokens_of(opt_tree(meta)), token_type@),
        ),
        is_sorted_form::<(i32, Vec<i32>)>(
            views(r@),
            token_entries(tokens_of(opt_tree(meta)), token_type@),
        ),
{
    let m = get_tokens(meta);
    let ghost t = tokens_of(opt_tree(meta));
    let mut out: Vec<(i32, Vec<i32>)> = Vec::new();
    assert(views(out@) =~= token_entries(t.take(0), token_type@));
    for i in 0..m.len()
        invariant
            t == Seq::new(m@.len(), |i: int| (m@[i].0@, value_tree(*m@[i].1))),
            views(out@) == token_entries(t.take(i as int), token_type@),
    {
        assert(t.take(i + 1).drop_last() =~= t.take(i as int));
        let ghost before = out@;
        match get_str(m[i].1, "type") {
            Some(s) => {
                if str_eq(s, token_type) {
                    match parse_i32_str(m[i].0) {
                        Some(n) => {
                            out.push((n, token_keyslots(m[i].1)));
                            assert(views(out@) =~= views(before).push(
                                (n, token_slots(value_tree(*m@[i as int].1))),
                            ));
                        },
                        None => {},
                    }
                }
            },
            None => {},
        }
    }
    assert(t.take(t.len() as int) =~= t);
    sorted(out)
}

/// Whether a token among `m` belongs to the keyslot `n`.
pub open spec fn managed(m: Members, n: i32) -> bool {
    exists|i: int| 0 <= i < m.len() && token_slots((#[trigger] m[i]).1).contains(n)
}

/// The keyslots among `e` that no token among `m` belongs to, in their order.
pub open spec fn unmanaged(e: Members, m: Members) -> Seq<i32>
    decreases e.len(),
{
    if e.len() == 0 {
        seq![]
    } else {
        let before = unmanaged(e.drop_last(), m);
        match parse_i32_spec(e.last().0) {
            Some(n) => if managed(m, n) {
                before
            } else {
                before.push(n)
            },
            None => before,
        }
    }
}

/// The keyslots of a header that no token belongs to.
pub open spec fn plain_slots(t: Option<JsonTree>) -> Seq<i32> {
    match t {
        Some(tree) => unmanaged(member_members(tree, "keyslots"@), tokens_of(t)),
        None => seq![],
    }
}

/// Whether the token `token` belongs to the keyslot `slot`.
fn token_has_slot(token: &serde_json::Value, slot: i32) -> (r: bool)
    ensures
        r == token_slots(value_tree(*token)).contains(slot),
{
    let slots = token_keyslots(token);
    for k in 0..slots.len()
        invariant
            slots@ == token_slots(value_tree(*token)),
            forall|j: int| 0 <= j < k ==> slots@[j] != slot,
    {
        if slots[k] == slot {
            assert(slots@[k as int] == slot);
            return true;
        }
    }
    false
}

/// Whether any token of the header belongs to the keyslot `slot`.
fn is_managed(meta: Option<&serde_json::Value>, slot: i32) -> (r: bool)
    ensures
        r == managed(tokens_of(opt_tree(meta)), slot),
{
    let m = get_tokens(meta);
    let ghost t = tokens_of(opt_tree(meta));
    for i in 0..m.len()
        invariant
            t == Seq::new(m@.len(), |i: int| (m@[i].0@, value_tree(*m@[i].1))),
            t == tokens_of(opt_tree(meta)),
            forall|j: int| 0 <= j < i ==> !token_slots((#[trigger] t[j]).1).contains(slot),
    {
        if token_has_slot(m[i].1, slot) {
            assert(token_slots(t[i as int].1).contains(slot));
            return true;
        }
    }
    false
}

/// The keyslots that no token belongs to, in order: those of passwords.
pub fn password_keyslots(meta: Option<&serde_json::Value>) -> (r: Vec<i32>)
    ensures
        r@ == sort_of::<i32>(plain_slots(opt_tree(meta))),
        is_sorted_form::<i32>(r@, plain_slots(opt_tree(meta))),
{
    let mut out: Vec<i32> = Vec::new();
    match meta {
        Some(v) => {
            let e = get_members(v, "keyslots");
            let ghost t = member_members(value_tree(*v), "keyslots"@);
            let ghost m = tokens_of(opt_tree(meta));
            assert(out@ =~= unmanaged(t.take(0), m));
            for i in 0..e.len()
                invariant
                    t == Seq::new(e@.len(), |i: int| (e@[i].0@, value_tree(*e@[i].1))),
                    m == tokens_of(opt_tree(meta)),
                    out@ == unmanaged(t.take(i as int), m),
            {
                assert(t.take(i + 1).drop_last() =~= t.take(i as int));
                match parse_i32_str(e[i].0) {
                    Some(n) => {
                        if !is_managed(meta, n) {
                            out.push(n);
                        }
                    },
                    None => {},
                }
            }
            assert(t.take(t.len() as int) =~= t);
        },
        None => {},
    }
    let ghost o = out@;
    assert(views(o) =~= o);
    let r = sorted(out);
    assert(views(r@) =~= r@);
    r
}

/// The number of the first token among `m` that belongs to `slot` and has a
/// number, or -1.
pub open spec fn slot_owner(m: Members, slot: i32) -> i32
    decreases m.len(),
{
    if m.len() == 0 {
        -1i32
    } else if token_slots(m[0].1).contains(slot) && parse_i32_spec(m[0].0) is Some {
        parse_i32_spec(m[0].0)->Some_0
    } else {
        slot_owner(m.skip(1), slot)
    }
}

/// The token that belongs to the keyslot `slot`, or -1 if there is none.
pub fn find_token_for_keyslot(meta: Option<&serde_json::Value>, slot: i32) -> (r: i32)
    ensures
        r == slot_owner(tokens_of(opt_tree(meta)), slot),
{
    let m = get_tokens(meta);
    let ghost t = tokens_of(opt_tree(meta));
    assert(t.skip(0) =~= t);
    for i in 0..m.len()
        invariant
            t == Seq::new(m@.len(), |i: int| (m@[i].0@, value_tree(*m@[i].1))),
            t == tokens_of(opt_tree(meta)),
            slot_owner(t.skip(i as int), slot) == slot_owner(t, slot),
    {
        assert(t.skip(i as int)[0] == t[i as int]);
        assert(t.skip(i as int).skip(1) =~= t.skip(i + 1));
        if token_has_slot(m[i].1, slot) {
            match parse_i32_str(m[i].0) {
                Some(n) => {
                    return n;
                },
                None => {},
            }
        }
    }
    -1
}

// ---------------------------------------------------------------------------
// Tokens that unlock
// ---------------------------------------------------------------------------

/// What a header says of a FIDO2 enrollment: the credential and the salt.
pub struct Fido2TokenRef {
    pub cred_id: Vec<u8>,
    pub salt: Vec<u8>,
}

/// The contents of a [`Fido2TokenRef`].
#[verifier::ext_equal]
pub ghost struct Fido2Ref {
    pub cred_id: Seq<u8>,
    pub salt: Seq<u8>,
}

impl View for Fido2TokenRef {
    type V = Fido2Ref;

    open spec fn view(&self) -> Fido2Ref {
        Fido2Ref { cred_id: self.cred_id@, salt: self.salt@ }
    }
}

/// What a header says of a TPM2 enrollment.
pub struct Tpm2TokenRef {
    pub token_id: String,
    pub blob: Vec<u8>,
    /// The PCRs, in the form "7+11".
    pub pcrs: String,
    /// The PCR bank, such as "sha256".
    pub pcr_bank: String,
    pub pin_required: bool,
}

/// The contents of a [`Tpm2TokenRef`].
#[verifier::ext_equal]
pub ghost struct Tpm2Ref {
    pub token_id: Seq<char>,
    pub blob: Seq<u8>,
    pub pcrs: Seq<char>,
    pub pcr_bank: Seq<char>,
    pub pin_required: bool,
}

impl View for Tpm2TokenRef {
    type V = Tpm2Ref;

    open spec fn view(&self) -> Tpm2Ref {
        Tpm2Ref {
            token_id: self.token_id@,
            blob: self.blob@,
            pcrs: self.pcrs@,
            pcr_bank: self.pcr_bank@,
            pin_required: self.pin_required,
        }
    }
}

/// The bytes that a base64 field holds, or the error that it is not base64.
pub open spec fn field_bytes(text: Seq<char>) -> Result<Seq<u8>, Seq<char>> {
    match b64_bytes(text) {
        Some(b) => Ok(b),
        None => Err("bad base64: "@ + b64_complaint(text)),
    }
}

fn decode_field(text: &str) -> (r: Result<Vec<u8>, Error>)
    ensures
        match r {
            Ok(v) => field_bytes(text@) == Ok::<Seq<u8>, Seq<char>>(v@),
            Err(e) => field_bytes(text@) == Err::<Seq<u8>, Seq<char>>(e@),
        },
{
    match b64_decode(text) {
        Ok(v) => Ok(v),
        Err(e) => Err(Error(concat("bad base64: ", e.as_str()))),
    }
}

/// What the FIDO2 token `t` says.
pub open spec fn fido2_ref(t: JsonTree) -> Result<Fido2Ref, Seq<char>> {
    match member_str(t, "fido2-credential"@) {
        None => Err("fido2 token missing fido2-credential"@),
        Some(cred) => match member_str(t, "fido2-salt"@) {
            None => Err("fido2 token missing fido2-salt"@),
            Some(salt) => match field_bytes(cred) {
                Err(e) => Err(e),
                Ok(cred_id) => match field_bytes(salt) {
                    Err(e) => Err(e),
                    Ok(salt) => Ok(Fido2Ref { cred_id, salt }),
                },
            },
        },
    }
}

/// `first` in front of what the rest of a list gave.
pub open spec fn prepend<A>(first: Seq<A>, rest: Result<Seq<A>, Seq<char>>) -> Result<
    Seq<A>,
    Seq<char>,
> {
    match rest {
        Ok(v) => Ok(first + v),
        Err(e) => Err(e),
    }
}

/// What the FIDO2 tokens among `m` say, in order; the first of them that is
/// broken makes the whole fail.
pub open spec fn fido2_refs(m: Members) -> Result<Seq<Fido2Ref>, Seq<char>>
    decreases m.len(),
{
    if m.len() == 0 {
        Ok(seq![])
    } else if member_str(m[0].1, "type"@) == Some(TOKEN_TYPE_FIDO2@) {
        match fido2_ref(m[0].1) {
            Ok(r) => prepend(seq![r], fido2_refs(m.skip(1))),
            Err(e) => Err(e),
        }
    } else {
        fido2_refs(m.skip(1))
    }
}

/// What a header with the metadata `t` says of its FIDO2 enrollments.
pub open spec fn fido2_refs_of(t: Option<JsonTree>) -> Result<Seq<Fido2Ref>, Seq<char>> {
    match t {
        None => Err("Failed to read LUKS2 metadata"@),
        Some(_) => fido2_refs(tokens_of(t)),
    }
}

fn parse_fido2_token(token: &serde_json::Value) -> (r: Result<Fido2TokenRef, Error>)
    ensures
        match r {
            Ok(v) => fido2_ref(value_tree(*token)) == Ok::<Fido2Ref, Seq<char>>(v@),
            Err(e) => fido2_ref(value_tree(*token)) == Err::<Fido2Ref, Seq<char>>(e@),
        },
{
    let cred = match get_str(token, "fido2-credential") {
        Some(s) => s,
        None => {
            return Err(Error::new("fido2 token missing fido2-credential"));
        },
    };
    let salt = match get_str(token, "fido2-salt") {
        Some(s) => s,
        None => {
            return Err(Error::new("fido2 token missing fido2-salt"));
        },
    };
    let cred_id = match decode_field(cred) {
        Ok(v) => v,
        Err(e) => {
            return Err(e);
        },
    };
    let salt = match decode_field(salt) {
        Ok(v) => v,
        Err(e) => {
            return Err(e);
        },
    };
    Ok(Fido2TokenRef { cred_id, salt })
}

/// Whether the token `token` is of the type `kind`.
fn is_type(token: &serde_json::Value, kind: &str) -> (r: bool)
    ensures
        r == (member_str(value_tree(*token), "type"@) == Some(kind@)),
{
    match get_str(token, "type") {
        Some(s) => str_eq(s, kind),
        None => false,
    }
}

/// What the header says of its FIDO2 enrollments.
pub fn fido2_token_refs(meta: Option<&serde_json::Value>) -> (r: Result<Vec<Fido2TokenRef>, Error>)
    ensures
        match r {
            Ok(v) => fido2_refs_of(opt_tree(meta)) == Ok::<Seq<Fido2Ref>, Seq<char>>(views(v@)),
            Err(e) => fido2_refs_of(opt_tree(meta)) == Err::<Seq<Fido2Ref>, Seq<char>>(e@),
        },
{
    if meta.is_none() {
        return Err(Error::new("Failed to read LUKS2 metadata"));
    }
    let m = get_tokens(meta);
    let ghost t = tokens_of(opt_tree(meta));
    let mut out: Vec<Fido2TokenRef> = Vec::new();
    assert(t.skip(0) =~= t);
    assert(views(out@) + fido2_refs(t)->Ok_0 =~= fido2_refs(t)->Ok_0);
    for i in 0..m.len()
        invariant
            t == Seq::new(m@.len(), |i: int| (m@[i].0@, value_tree(*m@[i].1))),
            t == tokens_of(opt_tree(meta)),
            opt_tree(meta) is Some,
            fido2_refs(t) == prepend(views(out@), fido2_refs(t.skip(i as int))),
    {
        assert(t.skip(i as int)[0] == t[i as int]);
        assert(t.skip(i as int).skip(1) =~= t.skip(i + 1));
        let ghost before = views(out@);
        if is_type(m[i].1, TOKEN_TYPE_FIDO2) {
            match parse_fido2_token(m[i].1) {
                Ok(r) => {
                    out.push(r);
                    assert(views(out@) =~= before + seq![r@]);
                    let ghost rest = fido2_refs(t.skip(i + 1));
                    assert(before + (seq![r@] + rest->Ok_0) =~= views(out@) + rest->Ok_0);
                },
                Err(e) => {
                    return Err(e);
                },
            }
        }
    }
    assert(views(out@) + Seq::<Fido2Ref>::empty() =~= views(out@));
    Ok(out)
}

/// The bytes that a list of base64 texts holds, one after the other.
pub open spec fn blob_parts(items: Seq<JsonTree>) -> Result<Seq<u8>, Seq<char>>
    decreases items.len(),
{
    if items.len() == 0 {
        Ok(seq![])
    } else {
        match str_of(items[0]) {
            None => Err("bad tpm2-blob entry"@),
            Some(s) => match field_bytes(s) {
                Err(e) => Err(e),
                Ok(b) => prepend(b, blob_parts(items.skip(1))),
            },
        }
    }
}

/// The sealed blob that the TPM2 token `t` holds: under `tpm2_blob` or, where
/// that is missing or null, under `tpm2-blob`; a base64 text or a list of them.
pub open spec fn tpm2_blob(t: JsonTree) -> Result<Seq<u8>, Seq<char>> {
    let field = match member(t, "tpm2_blob"@) {
        None => member(t, "tpm2-blob"@),
        Some(JsonTree::Null) => member(t, "tpm2-blob"@),
        Some(v) => Some(v),
    };
    match field {
        None => Err("tpm2 token missing tpm2-blob"@),
        Some(JsonTree::Array(items)) => blob_parts(items),
        Some(JsonTree::Str(s)) => field_bytes(s),
        Some(_) => Err("bad tpm2-blob field"@),
    }
}

/// A PCR in a token's list: the text of a number, a text as it is, and nothing
/// for anything else.
pub open spec fn pcr_item(t: JsonTree) -> Seq<char> {
    match t {
        JsonTree::Number(n) => n,
        JsonTree::Str(s) => s,
        _ => ""@,
    }
}

/// The PCRs of the TPM2 token `t`: a list joined with `+`, a text as it is, the text
/// of a number, and the JSON text of anything else.
pub open spec fn tpm2_pcrs(t: JsonTree) -> Seq<char> {
    match member(t, "tpm2-pcrs"@) {
        None => ""@,
        Some(JsonTree::Array(items)) => join(
            Seq::new(items.len(), |i: int| pcr_item(items[i])),
            '+',
        ),
        Some(JsonTree::Str(s)) => s,
        Some(JsonTree::Number(n)) => n,
        Some(v) => json_text(v),
    }
}

/// What the TPM2 token `t` with the key `id` says.
pub open spec fn tpm2_ref(id: Seq<char>, t: JsonTree) -> Result<Tpm2Ref, Seq<char>> {
    match tpm2_blob(t) {
        Err(e) => Err(e),
        Ok(blob) => Ok(
            Tpm2Ref {
                token_id: id,
                blob,
                pcrs: tpm2_pcrs(t),
                pcr_bank: match member_str(t, "tpm2-pcr-bank"@) {
                    Some(s) => s,
                    None => "sha256"@,
                },
                pin_required: member(t, "tpm2-pin"@) == Some(JsonTree::Bool(true)),
            },
        ),
    }
}

/// What the TPM2 tokens among `m` say, in order; the first of them that is
/// broken makes the whole fail.
pub open spec fn tpm2_refs(m: Members) -> Result<Seq<Tpm2Ref>, Seq<char>>
    decreases m.len(),
{
    if m.len() == 0 {
        Ok(seq![])
    } else if member_str(m[0].1, "type"@) == Some(TOKEN_TYPE_TPM2@) {
        match tpm2_ref(m[0].0, m[0].1) {
            Ok(r) => prepend(seq![r], tpm2_refs(m.skip(1))),
            Err(e) => Err(e),
        }
    } else {
        tpm2_refs(m.skip(1))
    }
}

/// What a header with the metadata `t` says of its TPM2 enrollments.
pub open spec fn tpm2_refs_of(t: Option<JsonTree>) -> Result<Seq<Tpm2Ref>, Seq<char>> {
    match t {
        None => Err("Failed to read LUKS2 metadata"@),
        Some(_) => tpm2_refs(tokens_of(t)),
    }
}

fn parse_blob_parts(items: &Vec<serde_json::Value>) -> (r: Result<Vec<u8>, Error>)
    ensures
        match r {
            Ok(v) => blob_parts(trees(items@)) == Ok::<Seq<u8>, Seq<char>>(v@),
            Err(e) => blob_parts(trees(items@)) == Err::<Seq<u8>, Seq<char>>(e@),
        },
{
    let ghost t = trees(items@);
    let mut buf: Vec<u8> = Vec::new();
    assert(t.skip(0) =~= t);
    assert(buf@ + blob_parts(t)->Ok_0 =~= blob_parts(t)->Ok_0);
    for i in 0..items.len()
        invariant
            t == trees(items@),
            blob_parts(t) == prepend(buf@, blob_parts(t.skip(i as int))),
    {
        assert(t.skip(i as int)[0] == t[i as int]);
        assert(t.skip(i as int).skip(1) =~= t.skip(i + 1));
        match as_str(&items[i]) {
            Some(s) => match decode_field(s) {
                Ok(b) => {
                    let ghost before = buf@;
                    let ghost rest = blob_parts(t.skip(i + 1));
                    let ghost part = b@;
                    let mut b = b;
                    buf.append(&mut b);
                    assert(buf@ =~= before + part);
                    assert(before + (part + rest->Ok_0) =~= buf@ + rest->Ok_0);
                },
                Err(e) => {
                    return Err(e);
                },
            },
            None => {
                return Err(Error::new("bad tpm2-blob entry"));
            },
        }
    }
    assert(buf@ + Seq::<u8>::empty() =~= buf@);
    Ok(buf)
}

fn parse_tpm2_blob(token: &serde_json::Value) -> (r: Result<Vec<u8>, Error>)
    ensures
        match r {
            Ok(v) => tpm2_blob(value_tree(*token)) == Ok::<Seq<u8>, Seq<char>>(v@),
            Err(e) => tpm2_blob(value_tree(*token)) == Err::<Seq<u8>, Seq<char>>(e@),
        },
{
    let field = match get(token, "tpm2_blob") {
        None => get(token, "tpm2-blob"),
        Some(v) => match shape(v) {
            Shape::Null => get(token, "tpm2-blob"),
            _ => Some(v),
        },
    };
    match field {
        None => Err(Error::new("tpm2 token missing tpm2-blob")),
        Some(v) => match shape(v) {
            Shape::Array(items) => parse_blob_parts(items),
            Shape::Str(s) => decode_field(s),
            _ => Err(Error::new("bad tpm2-blob field")),
        },
    }
}

fn parse_tpm2_pcrs(token: &serde_json::Value) -> (r: String)
    ensures
        r@ == tpm2_pcrs(value_tree(*token)),
{
    match get(token, "tpm2-pcrs") {
        None => "".to_string(),
        Some(v) => match shape(v) {
            Shape::Array(items) => {
                let ghost t = trees(items@);
                let mut parts: Vec<String> = Vec::new();
                for i in 0..items.len()
                    invariant
                        t == trees(items@),
                        parts@.len() == i,
                        forall|k: int| 0 <= k < i ==> (#[trigger] parts@[k])@ == pcr_item(t[k]),
                {
                    let p = match shape(&items[i]) {
                        Shape::Number(n) => n,
                        Shape::Str(s) => s.to_string(),
                        _ => "".to_string(),
                    };
                    parts.push(p);
                }
                assert(texts(parts@) =~= Seq::new(t.len(), |i: int| pcr_item(t[i])));
                join_strings(&parts, '+')
            },
            Shape::Str(s) => s.to_string(),
            Shape::Number(n) => n,
            _ => text_of(v),
        },
    }
}

fn parse_tpm2_token(id: &str, token: &serde_json::Value) -> (r: Result<Tpm2TokenRef, Error>)
    ensures
        match r {
            Ok(v) => tpm2_ref(id@, value_tree(*token)) == Ok::<Tpm2Ref, Seq<char>>(v@),
            Err(e) => tpm2_ref(id@, value_tree(*token)) == Err::<Tpm2Ref, Seq<char>>(e@),
        },
{
    let blob = match parse_tpm2_blob(token) {
        Ok(v) => v,
        Err(e) => {
            return Err(e);
        },
    };
    let pcr_bank = match get_str(token, "tpm2-pcr-bank") {
        Some(s) => s.to_string(),
        None => "sha256".to_string(),
    };
    let pin_required = match get(token, "tpm2-pin") {
        Some(v) => match shape(v) {
            Shape::Bool(b) => b,
            _ => false,
        },
        None => false,
    };
    Ok(
        Tpm2TokenRef {
            token_id: id.to_string(),
            blob,
            pcrs: parse_tpm2_pcrs(token),
            pcr_bank,
            pin_required,
        },
    )
}

/// What the header says of its TPM2 enrollments.
pub fn tpm2_token_refs(meta: Option<&serde_json::Value>) -> (r: Result<Vec<Tpm2TokenRef>, Error>)
    ensures
        match r {
            Ok(v) => tpm2_refs_of(opt_tree(meta)) == Ok::<Seq<Tpm2Ref>, Seq<char>>(views(v@)),
            Err(e) => tpm2_refs_of(opt_tree(meta)) == Err::<Seq<Tpm2Ref>, Seq<char>>(e@),
        },
{
    if meta.is_none() {
        return Err(Error::new("Failed to read LUKS2 metadata"));
    }
    let m = get_tokens(meta);
    let ghost t = tokens_of(opt_tree(meta));
    let mut out: Vec<Tpm2TokenRef> = Vec::new();
    assert(t.skip(0) =~= t);
    assert(views(out@) + tpm2_refs(t)->Ok_0 =~= tpm2_refs(t)->Ok_0);
    for i in 0..m.len()
        invariant
            t == Seq::new(m@.len(), |i: int| (m@[i].0@, value_tree(*m@[i].1))),
            t == tokens_of(opt_tree(meta)),
            opt_tree(meta) is Some,
            tpm2_refs(t) == prepend(views(out@), tpm2_refs(t.skip(i as int))),
    {
        assert(t.skip(i as int)[0] == t[i as int]);
        assert(t.skip(i as int).skip(1) =~= t.skip(i + 1));
        let ghost before = views(out@);
        if is_type(m[i].1, TOKEN_TYPE_TPM2) {
            match parse_tpm2_token(m[i].0, m[i].1) {
                Ok(r) => {
                    out.push(r);
                    assert(views(out@) =~= before + seq![r@]);
                    let ghost rest = tpm2_refs(t.skip(i + 1));
                    assert(before + (seq![r@] + rest->Ok_0) =~= views(out@) + rest->Ok_0);
                },
                Err(e) => {
                    return Err(e);
                },
            }
        }
    }
    assert(views(out@) + Seq::<Tpm2Ref>::empty() =~= views(out@));
    Ok(out)
}

// ---------------------------------------------------------------------------
// Laws
// ---------------------------------------------------------------------------

proof fn lemma_unmanaged(e: Members, m: Members)
    ensures
        forall|i: int|
            0 <= i < unmanaged(e, m).len() ==> !managed(m, #[trigger] unmanaged(e, m)[i]),
    decreases e.len(),
{
    if e.len() > 0 {
        lemma_unmanaged(e.drop_last(), m);
        let before = unmanaged(e.drop_last(), m);
        let after = unmanaged(e, m);
        assert forall|i: int| 0 <= i < after.len() implies !managed(m, #[trigger] after[i]) by {
            if i < before.len() {
                assert(after[i] == before[i]);
            }
        }
    }
}

/// No token belongs to a password keyslot.
pub proof fn law_password_slots_have_no_token(t: Option<JsonTree>, slot: i32)
    requires
        plain_slots(t).contains(slot),
    ensures
        !managed(tokens_of(t), slot),
        slot_owner(tokens_of(t), slot) == -1,
{
    match t {
        Some(tree) => {
            lemma_unmanaged(member_members(tree, "keyslots"@), tokens_of(t));
        },
        None => {},
    }
    lemma_no_owner(tokens_of(t), slot);
}

proof fn lemma_no_owner(m: Members, slot: i32)
    requires
        !managed(m, slot),
    ensures
        slot_owner(m, slot) == -1,
    decreases m.len(),
{
    if m.len() > 0 {
        assert(!token_slots(m[0].1).contains(slot));
        assert(!managed(m.skip(1), slot)) by {
            if managed(m.skip(1), slot) {
                let i = choose|i: int|
                    0 <= i < m.skip(1).len() && token_slots((#[trigger] m.skip(1)[i]).1).contains(
                        slot,
                    );
                assert(m[i + 1] == m.skip(1)[i]);
            }
        }
        lemma_no_owner(m.skip(1), slot);
    }
}

proof fn lemma_unmanaged_apart(e: Members, m: Members)
    requires
        numbered_apart(e),
    ensures
        unmanaged(e, m).no_duplicates(),
        forall|n: i32|
            unmanaged(e, m).contains(n) ==> exists|i: int|
                0 <= i < e.len() && parse_i32_spec((#[trigger] e[i]).0) == Some(n),
    decreases e.len(),
{
    if e.len() > 0 {
        let front = e.drop_last();
        assert(numbered_apart(front)) by {
            assert forall|i: int, j: int|
                0 <= i < j < front.len() && parse_i32_spec((#[trigger] front[i]).0)
                    is Some implies parse_i32_spec(front[i].0) != parse_i32_spec(
                (#[trigger] front[j]).0,
            ) by {
                assert(front[i] == e[i] && front[j] == e[j]);
            }
        }
        lemma_unmanaged_apart(front, m);
        let before = unmanaged(front, m);
        let after = unmanaged(e, m);
        let last = e.len() - 1;
        assert forall|n: i32| before.contains(n) implies parse_i32_spec(e[last].0) != Some(n)
            && exists|i: int| 0 <= i < e.len() && parse_i32_spec((#[trigger] e[i]).0) == Some(
            n,
        ) by {
            let i = choose|i: int|
                0 <= i < front.len() && parse_i32_spec((#[trigger] front[i]).0) == Some(n);
            assert(e[i] == front[i]);
        }
        assert forall|n: i32| after.contains(n) implies exists|i: int|
            0 <= i < e.len() && parse_i32_spec((#[trigger] e[i]).0) == Some(n) by {
            if !before.contains(n) {
                assert(parse_i32_spec(e[last].0) == Some(n));
            }
        }
        assert(after.no_duplicates()) by {
            assert forall|i: int, j: int| 0 <= i < j < after.len() implies after[i] != after[j] by {
                assert(before.contains(after[i]));
            }
        }
    }
}

proof fn lemma_unmanaged_members(e: Members, m: Members, n: i32)
    ensures
        unmanaged(e, m).contains(n) <==> slot_map(slot_entries(e)).dom().contains(n) && !managed(
            m,
            n,
        ),
    decreases e.len(),
{
    if e.len() > 0 {
        let front = e.drop_last();
        lemma_unmanaged_members(front, m, n);
        let before = unmanaged(front, m);
        let entries = slot_entries(front);
        match parse_i32_spec(e.last().0) {
            Some(k) => {
                assert(slot_entries(e).drop_last() =~= entries);
                let after = unmanaged(e, m);
                if !managed(m, k) {
                    assert(after == before.push(k));
                    assert(after[before.len() as int] == k);
                    if before.contains(n) {
                        let i = choose|i: int| 0 <= i < before.len() && before[i] == n;
                        assert(after[i] == n);
                    }
                }
            },
            None => {},
        }
    }
}

/// Whether some token among `m` belongs to `slot` and has a number.
pub open spec fn numbered_owner(m: Members, slot: i32) -> bool {
    exists|i: int|
        0 <= i < m.len() && token_slots((#[trigger] m[i]).1).contains(slot) && parse_i32_spec(
            m[i].0,
        ) is Some
}

/// Whether the tokens among `m` that belong to `slot`, if there are any, can be found
/// for it: one of them has a number, and that of none is -1.
pub open spec fn owner_can_be_found(m: Members, slot: i32) -> bool {
    &&& managed(m, slot) ==> numbered_owner(m, slot)
    &&& forall|i: int|
        0 <= i < m.len() && token_slots((#[trigger] m[i]).1).contains(slot) ==> parse_i32_spec(
            m[i].0,
        ) != Some(-1i32)
}

proof fn lemma_owner(m: Members, slot: i32)
    requires
        numbered_owner(m, slot),
        forall|i: int|
            0 <= i < m.len() && token_slots((#[trigger] m[i]).1).contains(slot) ==> parse_i32_spec(
                m[i].0,
            ) != Some(-1i32),
    ensures
        slot_owner(m, slot) != -1,
    decreases m.len(),
{
    let i = choose|i: int|
        0 <= i < m.len() && token_slots((#[trigger] m[i]).1).contains(slot) && parse_i32_spec(
            m[i].0,
        ) is Some;
    assert(m[0] == m[0]);
    if !(token_slots(m[0].1).contains(slot) && parse_i32_spec(m[0].0) is Some) {
        let rest = m.skip(1);
        assert(rest[i - 1] == m[i]);
        assert forall|k: int|
            0 <= k < rest.len() && token_slots((#[trigger] rest[k]).1).contains(
                slot,
            ) implies parse_i32_spec(rest[k].0) != Some(-1i32) by {
            assert(rest[k] == m[k + 1]);
        }
        lemma_owner(rest, slot);
    }
}

/// Whether no two of the keys in `m` are the same number, however it is written.
pub open spec fn numbered_apart(m: Members) -> bool {
    forall|i: int, j: int|
        0 <= i < j < m.len() && parse_i32_spec((#[trigger] m[i]).0) is Some ==> parse_i32_spec(
            m[i].0,
        ) != parse_i32_spec((#[trigger] m[j]).0)
}

/// A header whose keyslots have different numbers has no password keyslot twice.
pub proof fn law_different_keys_different_slots(t: Option<JsonTree>)
    requires
        t matches Some(tree) ==> numbered_apart(member_members(tree, "keyslots"@)),
    ensures
        plain_slots(t).no_duplicates(),
{
    match t {
        Some(tree) => {
            lemma_unmanaged_apart(member_members(tree, "keyslots"@), tokens_of(t));
        },
        None => {},
    }
}

/// The password keyslots of a header are listed in ascending order, each once, unless
/// the header has one of them twice.
pub proof fn law_password_slots_ascend(t: Option<JsonTree>)
    requires
        plain_slots(t).no_duplicates(),
    ensures
        forall|i: int, j: int|
            0 <= i < j < sort_of::<i32>(plain_slots(t)).len() ==> #[trigger] sort_of::<i32>(
                plain_slots(t),
            )[i] < #[trigger] sort_of::<i32>(plain_slots(t))[j],
{
    let s = plain_slots(t);
    let r = sort_of::<i32>(s);
    law_sort_of::<i32>(s);
    s.lemma_multiset_has_no_duplicates();
    r.lemma_multiset_has_no_duplicates_conv();
}

/// The password keyslots of a header are just those of its keyslots that no token
/// belongs to; and those are the ones that no token is found for, where the tokens
/// that belong to them can be found.
pub proof fn law_password_slots_are_the_rest(t: Option<JsonTree>, slot: i32)
    ensures
        sort_of::<i32>(plain_slots(t)).contains(slot) <==> slot_map(keyslots_of(t)).dom().contains(
            slot,
        ) && !managed(tokens_of(t), slot),
        owner_can_be_found(tokens_of(t), slot) ==> (managed(tokens_of(t), slot) <==> slot_owner(
            tokens_of(t),
            slot,
        ) != -1),
{
    broadcast use vstd::seq_lib::group_to_multiset_ensures;

    let s = plain_slots(t);
    let r = sort_of::<i32>(s);
    law_sort_of::<i32>(s);
    assert(r.contains(slot) <==> r.to_multiset().contains(slot));
    assert(s.contains(slot) <==> s.to_multiset().contains(slot));
    match t {
        Some(tree) => {
            lemma_unmanaged_members(member_members(tree, "keyslots"@), tokens_of(t), slot);
        },
        None => {},
    }
    if managed(tokens_of(t), slot) {
        if owner_can_be_found(tokens_of(t), slot) {
            lemma_owner(tokens_of(t), slot);
        }
    } else {
        lemma_no_owner(tokens_of(t), slot);
    }
}

/// The token that is found for a keyslot belongs to it.
pub proof fn law_slot_owner_owns(m: Members, slot: i32)
    ensures
        slot_owner(m, slot) >= 0 ==> exists|i: int|
            0 <= i < m.len() && token_slots((#[trigger] m[i]).1).contains(slot) && parse_i32_spec(
                m[i].0,
            ) == Some(slot_owner(m, slot)),
    decreases m.len(),
{
    if m.len() > 0 {
        if token_slots(m[0].1).contains(slot) && parse_i32_spec(m[0].0) is Some {
            assert(token_slots(m[0].1).contains(slot));
        } else {
            law_slot_owner_owns(m.skip(1), slot);
            if slot_owner(m, slot) >= 0 {
                let i = choose|i: int|
                    0 <= i < m.skip(1).len() && token_slots((#[trigger] m.skip(1)[i]).1).contains(
                        slot,
                    ) && parse_i32_spec(m.skip(1)[i].0) == Some(slot_owner(m.skip(1), slot));
                assert(m[i + 1] == m.skip(1)[i]);
            }
        }
    }
}

/// Every FIDO2 token of a header is among its FIDO2 enrollments.
pub proof fn law_fido2_refs_complete(m: Members, i: int)
    requires
        0 <= i < m.len(),
        member_str(m[i].1, "type"@) == Some(TOKEN_TYPE_FIDO2@),
        fido2_refs(m) is Ok,
    ensures
        fido2_ref(m[i].1) is Ok,
        fido2_refs(m)->Ok_0.contains(fido2_ref(m[i].1)->Ok_0),
    decreases m.len(),
{
    let rest = m.skip(1);
    if i == 0 {
        let r = fido2_ref(m[0].1)->Ok_0;
        assert(fido2_refs(m)->Ok_0[0] == r);
    } else {
        assert(rest[i - 1] == m[i]);
        law_fido2_refs_complete(rest, i - 1);
        let r = fido2_ref(m[i].1)->Ok_0;
        let v = fido2_refs(rest)->Ok_0;
        let k = choose|k: int| 0 <= k < v.len() && v[k] == r;
        if member_str(m[0].1, "type"@) == Some(TOKEN_TYPE_FIDO2@) {
            assert(fido2_refs(m)->Ok_0[k + 1] == r);
        }
    }
}

/// Every TPM2 token of a header is among its TPM2 enrollments.
pub proof fn law_tpm2_refs_complete(m: Members, i: int)
    requires
        0 <= i < m.len(),
        member_str(m[i].1, "type"@) == Some(TOKEN_TYPE_TPM2@),
        tpm2_refs(m) is Ok,
    ensures
        tpm2_ref(m[i].0, m[i].1) is Ok,
        tpm2_refs(m)->Ok_0.contains(tpm2_ref(m[i].0, m[i].1)->Ok_0),
    decreases m.len(),
{
    let rest = m.skip(1);
    if i == 0 {
        let r = tpm2_ref(m[0].0, m[0].1)->Ok_0;
        assert(tpm2_refs(m)->Ok_0[0] == r);
    } else {
        assert(rest[i - 1] == m[i]);
        law_tpm2_refs_complete(rest, i - 1);
        let r = tpm2_ref(m[i].0, m[i].1)->Ok_0;
        let v = tpm2_refs(rest)->Ok_0;
        let k = choose|k: int| 0 <= k < v.len() && v[k] == r;
        if member_str(m[0].1, "type"@) == Some(TOKEN_TYPE_TPM2@) {
            assert(tpm2_refs(m)->Ok_0[k + 1] == r);
        }
    }
}

} // verus!
