//! What is read from a header, and what a client is told of it: the laws of its keyslots
//! and tokens, stated over the metadata.

use vstd::prelude::*;

use crate::codec::b64_bytes;
use crate::constants::{TOKEN_TYPE_FIDO2, TOKEN_TYPE_TPM2};
use crate::json::{ascends, law_put, member, member_items, member_str, str_of, JsonTree, Members};
use crate::luks::{
    blob_parts, fido2_ref, fido2_refs, field_bytes, pcr_item, slot_entries, slot_map, slot_numbers,
    token_entries, token_slots, tpm2_pcrs, tpm2_ref, tpm2_refs, Fido2Ref, Tpm2Ref,
};
use crate::service::{slots_object, tokens_array};
use crate::text::{dec, law_decimal_round_trip, law_split_join, parse_i32_spec, split};

verus! {

// ---------------------------------------------------------------------------
// Keyslots
// ---------------------------------------------------------------------------

/// Whether the entry of a header is the keyslot `slot` with the type `kind`.
pub open spec fn is_keyslot(e: (Seq<char>, JsonTree), slot: i32, kind: Seq<char>) -> bool {
    &&& parse_i32_spec(e.0) == Some(slot)
    &&& match member_str(e.1, "type"@) {
        Some(s) => s == kind,
        None => kind == "unknown"@,
    }
}

/// The keyslots of a header are its entries under a number, each with its type.
pub proof fn law_listed_keyslots(m: Members, slot: i32, kind: Seq<char>)
    ensures
        slot_entries(m).contains((slot, kind)) <==> exists|i: int|
            0 <= i < m.len() && is_keyslot(#[trigger] m[i], slot, kind),
    decreases m.len(),
{
    let list = slot_entries(m);
    if m.len() > 0 {
        let rest = m.drop_last();
        let end = m.len() - 1;
        let before = slot_entries(rest);
        law_listed_keyslots(rest, slot, kind);
        let here = is_keyslot(m[end], slot, kind);
        if list.contains((slot, kind)) {
            let k = choose|k: int| 0 <= k < list.len() && list[k] == (slot, kind);
            if k < before.len() {
                assert(before[k] == (slot, kind));
                let i = choose|i: int|
                    0 <= i < rest.len() && is_keyslot(#[trigger] rest[i], slot, kind);
                assert(m[i] == rest[i]);
            } else {
                assert(here);
            }
        }
        if exists|i: int| 0 <= i < m.len() && is_keyslot(#[trigger] m[i], slot, kind) {
            let i = choose|i: int| 0 <= i < m.len() && is_keyslot(#[trigger] m[i], slot, kind);
            if i < end {
                assert(rest[i] == m[i]);
                let k = choose|k: int| 0 <= k < before.len() && before[k] == (slot, kind);
                assert(list[k] == (slot, kind));
            } else {
                assert(list[before.len() as int] == (slot, kind));
            }
        }
    }
}

/// What a client is told of the keyslots: under each number just the type of that keyslot,
/// and nothing under a number that is none.
pub proof fn law_keyslots_object(e: Seq<(i32, Seq<char>)>, slot: i32)
    ensures
        member(JsonTree::Object(slots_object(e)), dec(slot as int)) == if slot_map(e).contains_key(
            slot,
        ) {
            Some(JsonTree::Str(slot_map(e)[slot]))
        } else {
            None
        },
{
    lemma_keyslots_object(e, slot);
}

proof fn lemma_keyslots_object(e: Seq<(i32, Seq<char>)>, slot: i32)
    ensures
        ascends(slots_object(e)),
        member(JsonTree::Object(slots_object(e)), dec(slot as int)) == if slot_map(e).contains_key(
            slot,
        ) {
            Some(JsonTree::Str(slot_map(e)[slot]))
        } else {
            None
        },
    decreases e.len(),
{
    if e.len() > 0 {
        lemma_keyslots_object(e.drop_last(), slot);
        let n = e.last().0;
        law_put(slots_object(e.drop_last()), dec(n as int), JsonTree::Str(e.last().1));
        law_decimal_round_trip(n as int);
        law_decimal_round_trip(slot as int);
    }
}

// ---------------------------------------------------------------------------
// Tokens
// ---------------------------------------------------------------------------

/// The keyslots of a token are the numbers that its list has as texts.
pub proof fn law_token_slots(t: JsonTree, slot: i32)
    ensures
        token_slots(t).contains(slot) <==> exists|i: int|
            0 <= i < member_items(t, "keyslots"@).len() && is_number(
                #[trigger] member_items(t, "keyslots"@)[i],
                slot,
            ),
{
    lemma_slot_numbers(member_items(t, "keyslots"@), slot);
}

/// Whether the item is a text that is that number.
pub open spec fn is_number(item: JsonTree, slot: i32) -> bool {
    str_of(item) matches Some(s) && parse_i32_spec(s) == Some(slot)
}

proof fn lemma_slot_numbers(items: Seq<JsonTree>, slot: i32)
    ensures
        slot_numbers(items).contains(slot) <==> exists|i: int|
            0 <= i < items.len() && is_number(#[trigger] items[i], slot),
    decreases items.len(),
{
    let list = slot_numbers(items);
    if items.len() > 0 {
        let rest = items.drop_last();
        let end = items.len() - 1;
        let before = slot_numbers(rest);
        lemma_slot_numbers(rest, slot);
        let here = is_number(items[end], slot);
        if list.contains(slot) {
            let k = choose|k: int| 0 <= k < list.len() && list[k] == slot;
            if k < before.len() {
                assert(before[k] == slot);
                let i = choose|i: int| 0 <= i < rest.len() && is_number(#[trigger] rest[i], slot);
                assert(items[i] == rest[i]);
            } else {
                assert(here);
            }
        }
        if exists|i: int| 0 <= i < items.len() && is_number(#[trigger] items[i], slot) {
            let i = choose|i: int| 0 <= i < items.len() && is_number(#[trigger] items[i], slot);
            if i < end {
                assert(rest[i] == items[i]);
                let k = choose|k: int| 0 <= k < before.len() && before[k] == slot;
                assert(list[k] == slot);
            } else {
                assert(list[before.len() as int] == slot);
            }
        }
    }
}

/// Whether the entry of a header is the token `id` of the type `kind`, with those
/// keyslots.
pub open spec fn is_token_entry(
    e: (Seq<char>, JsonTree),
    kind: Seq<char>,
    id: i32,
    slots: Seq<i32>,
) -> bool {
    &&& parse_i32_spec(e.0) == Some(id)
    &&& member_str(e.1, "type"@) == Some(kind)
    &&& slots == token_slots(e.1)
}

/// The tokens of a type are the entries of the header under a number that have that type,
/// each with its keyslots.
pub proof fn law_listed_tokens(m: Members, kind: Seq<char>, id: i32, slots: Seq<i32>)
    ensures
        token_entries(m, kind).contains((id, slots)) <==> exists|i: int|
            0 <= i < m.len() && is_token_entry(#[trigger] m[i], kind, id, slots),
    decreases m.len(),
{
    let list = token_entries(m, kind);
    if m.len() > 0 {
        let rest = m.drop_last();
        let end = m.len() - 1;
        let before = token_entries(rest, kind);
        law_listed_tokens(rest, kind, id, slots);
        let here = is_token_entry(m[end], kind, id, slots);
        if list.contains((id, slots)) {
            let k = choose|k: int| 0 <= k < list.len() && list[k] == (id, slots);
            if k < before.len() {
                assert(before[k] == (id, slots));
                let i = choose|i: int|
                    0 <= i < rest.len() && is_token_entry(#[trigger] rest[i], kind, id, slots);
                assert(m[i] == rest[i]);
            } else {
                assert(here);
            }
        }
        if exists|i: int| 0 <= i < m.len() && is_token_entry(#[trigger] m[i], kind, id, slots) {
            let i = choose|i: int|
                0 <= i < m.len() && is_token_entry(#[trigger] m[i], kind, id, slots);
            if i < end {
                assert(rest[i] == m[i]);
                let k = choose|k: int| 0 <= k < before.len() && before[k] == (id, slots);
                assert(list[k] == (id, slots));
            } else {
                assert(list[before.len() as int] == (id, slots));
            }
        }
    }
}

/// What a client is told of the tokens of a type: one pair for each, of its number and the
/// list of its keyslots.
pub proof fn law_tokens_array(e: Seq<(i32, Seq<i32>)>)
    ensures
        tokens_array(e) matches JsonTree::Array(a) && a.len() == e.len() && forall|i: int|
            0 <= i < a.len() ==> is_token_pair(#[trigger] a[i], e[i].0, e[i].1),
{
}

/// Whether the value is a pair of the number and the list of those numbers.
pub open spec fn is_token_pair(v: JsonTree, id: i32, slots: Seq<i32>) -> bool {
    &&& v matches JsonTree::Array(pair)
    &&& pair.len() == 2
    &&& pair[0] == JsonTree::Number(dec(id as int))
    &&& pair[1] matches JsonTree::Array(list)
    &&& list.len() == slots.len()
    &&& forall|i: int|
        0 <= i < list.len() ==> #[trigger] list[i] == JsonTree::Number(dec(slots[i] as int))
}

// ---------------------------------------------------------------------------
// Enrollments
// ---------------------------------------------------------------------------

/// The FIDO2 enrollments of a header are what its FIDO2 tokens say, and no other: reading
/// them fails just where one of those tokens is broken.
pub proof fn law_fido2_refs(m: Members)
    ensures
        match fido2_refs(m) {
            Ok(v) => {
                &&& forall|k: int| 0 <= k < v.len() ==> from_fido2_token(m, #[trigger] v[k])
                &&& forall|i: int|
                    0 <= i < m.len() && member_str((#[trigger] m[i]).1, "type"@) == Some(
                        TOKEN_TYPE_FIDO2@,
                    ) ==> fido2_ref(m[i].1) is Ok
            },
            Err(e) => exists|i: int|
                0 <= i < m.len() && member_str((#[trigger] m[i]).1, "type"@) == Some(
                    TOKEN_TYPE_FIDO2@,
                ) && fido2_ref(m[i].1) == Err::<Fido2Ref, Seq<char>>(e),
        },
    decreases m.len(),
{
    if m.len() > 0 {
        let rest = m.skip(1);
        law_fido2_refs(rest);
        assert forall|i: int| 0 <= i < rest.len() implies m[i + 1] == #[trigger] rest[i] by {}
        let is_one = member_str(m[0].1, "type"@) == Some(TOKEN_TYPE_FIDO2@);
        match fido2_refs(m) {
            Ok(v) => {
                let w = fido2_refs(rest)->Ok_0;
                assert forall|k: int| 0 <= k < v.len() implies from_fido2_token(
                    m,
                    #[trigger] v[k],
                ) by {
                    if is_one && k == 0 {
                        assert(member_str(m[0].1, "type"@) == Some(TOKEN_TYPE_FIDO2@));
                    } else {
                        let j = if is_one {
                            k - 1
                        } else {
                            k
                        };
                        assert(v[k] == w[j]);
                        assert(from_fido2_token(rest, w[j]));
                        let i = choose|i: int|
                            0 <= i < rest.len() && member_str((#[trigger] rest[i]).1, "type"@)
                                == Some(TOKEN_TYPE_FIDO2@) && fido2_ref(rest[i].1) == Ok::<
                                Fido2Ref,
                                Seq<char>,
                            >(w[j]);
                        assert(m[i + 1] == rest[i]);
                    }
                }
                assert forall|i: int|
                    0 <= i < m.len() && member_str((#[trigger] m[i]).1, "type"@) == Some(
                        TOKEN_TYPE_FIDO2@,
                    ) implies fido2_ref(m[i].1) is Ok by {
                    if i > 0 {
                        assert(rest[i - 1] == m[i]);
                    }
                }
            },
            Err(e) => {
                if is_one && fido2_ref(m[0].1) is Err {
                    assert(member_str(m[0].1, "type"@) == Some(TOKEN_TYPE_FIDO2@));
                } else {
                    let i = choose|i: int|
                        0 <= i < rest.len() && member_str((#[trigger] rest[i]).1, "type"@) == Some(
                            TOKEN_TYPE_FIDO2@,
                        ) && fido2_ref(rest[i].1) == Err::<Fido2Ref, Seq<char>>(e);
                    assert(m[i + 1] == rest[i]);
                }
            },
        }
    }
}

/// Whether one of the FIDO2 tokens says that.
pub open spec fn from_fido2_token(m: Members, r: Fido2Ref) -> bool {
    exists|i: int|
        0 <= i < m.len() && member_str((#[trigger] m[i]).1, "type"@) == Some(TOKEN_TYPE_FIDO2@)
            && fido2_ref(m[i].1) == Ok::<Fido2Ref, Seq<char>>(r)
}

/// The TPM2 enrollments of a header are what its TPM2 tokens say, and no other: reading
/// them fails just where one of those tokens is broken.
pub proof fn law_tpm2_refs(m: Members)
    ensures
        match tpm2_refs(m) {
            Ok(v) => {
                &&& forall|k: int| 0 <= k < v.len() ==> from_tpm2_token(m, #[trigger] v[k])
                &&& forall|i: int|
                    0 <= i < m.len() && member_str((#[trigger] m[i]).1, "type"@) == Some(
                        TOKEN_TYPE_TPM2@,
                    ) ==> tpm2_ref(m[i].0, m[i].1) is Ok
            },
            Err(e) => exists|i: int|
                0 <= i < m.len() && member_str((#[trigger] m[i]).1, "type"@) == Some(
                    TOKEN_TYPE_TPM2@,
                ) && tpm2_ref(m[i].0, m[i].1) == Err::<Tpm2Ref, Seq<char>>(e),
        },
    decreases m.len(),
{
    if m.len() > 0 {
        let rest = m.skip(1);
        law_tpm2_refs(rest);
        assert forall|i: int| 0 <= i < rest.len() implies m[i + 1] == #[trigger] rest[i] by {}
        let is_one = member_str(m[0].1, "type"@) == Some(TOKEN_TYPE_TPM2@);
        match tpm2_refs(m) {
            Ok(v) => {
                let w = tpm2_refs(rest)->Ok_0;
                assert forall|k: int| 0 <= k < v.len() implies from_tpm2_token(
                    m,
                    #[trigger] v[k],
                ) by {
                    if is_one && k == 0 {
                        assert(member_str(m[0].1, "type"@) == Some(TOKEN_TYPE_TPM2@));
                    } else {
                        let j = if is_one {
                            k - 1
                        } else {
                            k
                        };
                        assert(v[k] == w[j]);
                        assert(from_tpm2_token(rest, w[j]));
                        let i = choose|i: int|
                            0 <= i < rest.len() && member_str((#[trigger] rest[i]).1, "type"@)
                                == Some(TOKEN_TYPE_TPM2@) && tpm2_ref(rest[i].0, rest[i].1) == Ok::<
                                Tpm2Ref,
                                Seq<char>,
                            >(w[j]);
                        assert(m[i + 1] == rest[i]);
                    }
                }
                assert forall|i: int|
                    0 <= i < m.len() && member_str((#[trigger] m[i]).1, "type"@) == Some(
                        TOKEN_TYPE_TPM2@,
                    ) implies tpm2_ref(m[i].0, m[i].1) is Ok by {
                    if i > 0 {
                        assert(rest[i - 1] == m[i]);
                    }
                }
            },
            Err(e) => {
                if is_one && tpm2_ref(m[0].0, m[0].1) is Err {
                    assert(member_str(m[0].1, "type"@) == Some(TOKEN_TYPE_TPM2@));
                } else {
                    let i = choose|i: int|
                        0 <= i < rest.len() && member_str((#[trigger] rest[i]).1, "type"@) == Some(
                            TOKEN_TYPE_TPM2@,
                        ) && tpm2_ref(rest[i].0, rest[i].1) == Err::<Tpm2Ref, Seq<char>>(e);
                    assert(m[i + 1] == rest[i]);
                }
            },
        }
    }
}

/// Whether one of the TPM2 tokens says that.
pub open spec fn from_tpm2_token(m: Members, r: Tpm2Ref) -> bool {
    exists|i: int|
        0 <= i < m.len() && member_str((#[trigger] m[i]).1, "type"@) == Some(TOKEN_TYPE_TPM2@)
            && tpm2_ref(m[i].0, m[i].1) == Ok::<Tpm2Ref, Seq<char>>(r)
}

/// A sealed blob that a token holds in parts is the parts one behind the other.
pub proof fn law_blob_parts(a: Seq<JsonTree>, b: Seq<JsonTree>)
    ensures
        blob_parts(a + b) is Ok <==> blob_parts(a) is Ok && blob_parts(b) is Ok,
        blob_parts(a + b) is Ok ==> blob_parts(a + b)->Ok_0 == blob_parts(a)->Ok_0 + blob_parts(
            b,
        )->Ok_0,
    decreases a.len(),
{
    let none: Seq<u8> = seq![];
    if a.len() == 0 {
        assert(a + b =~= b);
        if blob_parts(b) is Ok {
            assert(none + blob_parts(b)->Ok_0 =~= blob_parts(b)->Ok_0);
        }
    } else {
        let rest = a.skip(1);
        law_blob_parts(rest, b);
        assert((a + b).skip(1) =~= rest + b);
        assert((a + b)[0] == a[0]);
        if blob_parts(a + b) is Ok {
            let first = field_bytes(str_of(a[0])->Some_0)->Ok_0;
            assert(first + (blob_parts(rest)->Ok_0 + blob_parts(b)->Ok_0) =~= first + blob_parts(
                rest,
            )->Ok_0 + blob_parts(b)->Ok_0);
        }
    }
}

/// A part of a sealed blob is a text in base64.
pub proof fn law_blob_part(item: JsonTree)
    ensures
        match item {
            JsonTree::Str(s) => match b64_bytes(s) {
                Some(b) => blob_parts(seq![item]) == Ok::<Seq<u8>, Seq<char>>(b),
                None => blob_parts(seq![item]) is Err,
            },
            _ => blob_parts(seq![item]) is Err,
        },
{
    let items = seq![item];
    assert(items.skip(1) =~= Seq::<JsonTree>::empty());
    reveal_with_fuel(blob_parts, 2);
    match item {
        JsonTree::Str(s) => {
            if let Some(b) = b64_bytes(s) {
                assert(b + Seq::<u8>::empty() =~= b);
            }
        },
        _ => {},
    }
}

/// The PCRs of a token that holds them as a list are the items of the list, with a plus
/// between them; a text is taken as it is.
pub proof fn law_pcrs_of_token(t: JsonTree)
    ensures
        match member(t, "tpm2-pcrs"@) {
            Some(JsonTree::Array(items)) => items.len() > 0 && (forall|i: int|
                0 <= i < items.len() ==> is_plain_pcr(#[trigger] items[i])) ==> {
                &&& split(tpm2_pcrs(t), '+').len() == items.len()
                &&& forall|i: int|
                    0 <= i < items.len() ==> tells_pcr(
                        #[trigger] items[i],
                        split(tpm2_pcrs(t), '+')[i],
                    )
            },
            Some(JsonTree::Str(s)) => tpm2_pcrs(t) == s,
            None => tpm2_pcrs(t).len() == 0,
            _ => true,
        },
{
    reveal_strlit("");
    match member(t, "tpm2-pcrs"@) {
        Some(JsonTree::Array(items)) => {
            if items.len() > 0 && (forall|i: int|
                0 <= i < items.len() ==> is_plain_pcr(#[trigger] items[i])) {
                let parts = Seq::new(items.len(), |i: int| pcr_item(items[i]));
                assert forall|i: int| 0 <= i < parts.len() implies !(#[trigger] parts[i]).contains(
                    '+',
                ) by {
                    assert(is_plain_pcr(items[i]));
                }
                law_split_join(parts, '+');
            }
        },
        _ => {},
    }
}

/// Whether the item is a number or a text, without a plus in it.
pub open spec fn is_plain_pcr(item: JsonTree) -> bool {
    match item {
        JsonTree::Number(n) => !n.contains('+'),
        JsonTree::Str(s) => !s.contains('+'),
        _ => false,
    }
}

/// Whether the item is a number or a text that reads so.
pub open spec fn tells_pcr(item: JsonTree, text: Seq<char>) -> bool {
    match item {
        JsonTree::Number(n) => text == n,
        JsonTree::Str(s) => text == s,
        _ => false,
    }
}

} // verus!
