//! What is asked of the TPM to seal a secret and to unseal one, and what comes of it: the
//! laws of both, stated over the requests, the answers and the arguments.

use vstd::prelude::*;
use vstd::utf8::encode_utf8;

use crate::codec::sha256;
use crate::luks::Tpm2Ref;
use crate::text::{parse_i64_spec, split, trim};
use crate::tpm2::{
    bank_alg, by_pin, candidates, law_selection_bits, part_indices, pcr_byte, pcr_indices,
    seal_run, seal_turn, selection, selection_of, try_tokens, try_unseal_turn, unseal_run,
    unseal_tokens_turn, PcrSelection, Run, TpmAnswer, TpmAsk, TpmTurn, TPM2_ALG_SHA256,
};

verus! {

// ---------------------------------------------------------------------------
// PCRs
// ---------------------------------------------------------------------------

/// Whether the part of a selection between two plus signs is `n` in decimal.
pub open spec fn part_names(part: Seq<char>, n: int) -> bool {
    parse_i64_spec(trim(part)) matches Some(k) && k == n
}

/// Whether a selection such as "7+11" names the PCR `n`.
pub open spec fn names_pcr(pcrs: Seq<char>, n: int) -> bool {
    exists|i: int|
        0 <= i < split(pcrs, '+').len() && trim(#[trigger] split(pcrs, '+')[i]).len() > 0
            && part_names(split(pcrs, '+')[i], n)
}

/// Whether a part of a selection is neither blank nor a number from 0 to 23.
pub open spec fn part_is_bad(part: Seq<char>) -> bool {
    &&& trim(part).len() > 0
    &&& !(parse_i64_spec(trim(part)) matches Some(k) && 0 <= k <= 23)
}

proof fn lemma_part_names(parts: Seq<Seq<char>>)
    ensures
        match part_indices(parts) {
            Ok(list) => forall|n: u8| #[trigger]
                list.contains(n) <==> exists|i: int|
                    0 <= i < parts.len() && trim(#[trigger] parts[i]).len() > 0 && part_names(
                        parts[i],
                        n as int,
                    ),
            Err(_) => exists|i: int| 0 <= i < parts.len() && part_is_bad(#[trigger] parts[i]),
        },
        part_indices(parts) is Ok ==> forall|i: int|
            0 <= i < parts.len() ==> !part_is_bad(#[trigger] parts[i]),
    decreases parts.len(),
{
    if parts.len() > 0 {
        let rest = parts.drop_last();
        let last = parts.last();
        assert(parts[parts.len() - 1] == last);
        lemma_part_names(rest);
        match part_indices(rest) {
            Err(_) => {
                let i = choose|i: int| 0 <= i < rest.len() && part_is_bad(#[trigger] rest[i]);
                assert(part_is_bad(parts[i]));
            },
            Ok(before) => {
                match part_indices(parts) {
                    Err(_) => {
                        assert(part_is_bad(parts[parts.len() - 1]));
                    },
                    Ok(list) => {
                        assert forall|i: int| 0 <= i < parts.len() implies !part_is_bad(
                            #[trigger] parts[i],
                        ) by {
                            if i < rest.len() {
                                assert(rest[i] == parts[i]);
                            }
                        }
                        assert forall|n: u8| #[trigger]
                            list.contains(n) <==> exists|i: int|
                                0 <= i < parts.len() && trim(#[trigger] parts[i]).len() > 0
                                    && part_names(parts[i], n as int) by {
                            lemma_more_names(parts, before, list, n);
                        }
                    },
                }
            },
        }
    }
}

proof fn lemma_more_names(parts: Seq<Seq<char>>, before: Seq<u8>, list: Seq<u8>, n: u8)
    requires
        parts.len() > 0,
        part_indices(parts.drop_last()) == Ok::<Seq<u8>, Seq<char>>(before),
        part_indices(parts) == Ok::<Seq<u8>, Seq<char>>(list),
        before.contains(n) <==> exists|i: int|
            0 <= i < parts.drop_last().len() && trim(#[trigger] parts.drop_last()[i]).len() > 0
                && part_names(parts.drop_last()[i], n as int),
    ensures
        list.contains(n) <==> exists|i: int|
            0 <= i < parts.len() && trim(#[trigger] parts[i]).len() > 0 && part_names(
                parts[i],
                n as int,
            ),
{
    let rest = parts.drop_last();
    let end = parts.len() - 1;
    let here = trim(parts[end]).len() > 0 && part_names(parts[end], n as int);
    assert(list.contains(n) <==> before.contains(n) || here) by {
        if before.contains(n) {
            let k = choose|k: int| 0 <= k < before.len() && before[k] == n;
            assert(list[k] == n);
        }
        if here && !before.contains(n) {
            assert(list[before.len() as int] == n);
        }
        if list.contains(n) && !here {
            let k = choose|k: int| 0 <= k < list.len() && list[k] == n;
            assert(k < before.len() ==> before[k] == n);
        }
    }
    if before.contains(n) {
        let i = choose|i: int|
            0 <= i < rest.len() && trim(#[trigger] rest[i]).len() > 0 && part_names(
                rest[i],
                n as int,
            );
        assert(parts[i] == rest[i]);
    }
    if exists|i: int|
        0 <= i < parts.len() && trim(#[trigger] parts[i]).len() > 0 && part_names(
            parts[i],
            n as int,
        ) {
        let i = choose|i: int|
            0 <= i < parts.len() && trim(#[trigger] parts[i]).len() > 0 && part_names(
                parts[i],
                n as int,
            );
        if i < end {
            assert(rest[i] == parts[i]);
        }
    }
}

/// The PCRs of a selection are those that it names, and it is refused just where a part
/// of it names none, or all its parts are blank.
pub proof fn law_pcr_names(pcrs: Seq<char>)
    ensures
        match pcr_indices(pcrs) {
            Ok(list) => list.len() > 0 && forall|n: u8| #[trigger]
                list.contains(n) <==> names_pcr(pcrs, n as int),
            Err(_) => {
                ||| exists|i: int|
                    0 <= i < split(pcrs, '+').len() && part_is_bad(#[trigger] split(pcrs, '+')[i])
                ||| forall|i: int|
                    0 <= i < split(pcrs, '+').len() ==> trim(#[trigger] split(pcrs, '+')[i]).len()
                        == 0
            },
        },
        pcr_indices(pcrs) is Ok ==> forall|i: int|
            0 <= i < split(pcrs, '+').len() ==> !part_is_bad(#[trigger] split(pcrs, '+')[i]),
{
    let parts = split(pcrs, '+');
    lemma_part_names(parts);
    match part_indices(parts) {
        Ok(list) => {
            if list.len() == 0 {
                assert forall|i: int| 0 <= i < parts.len() implies trim(#[trigger] parts[i]).len()
                    == 0 by {
                    if trim(parts[i]).len() > 0 {
                        let k = parse_i64_spec(trim(parts[i]))->Some_0;
                        assert(part_names(parts[i], k as u8 as int));
                        assert(list.contains(k as u8));
                    }
                }
            } else {
                assert forall|n: u8| #[trigger] list.contains(n) <==> names_pcr(
                    pcrs,
                    n as int,
                ) by {}
            }
        },
        Err(_) => {},
    }
}

/// What bit `k` of a byte counts.
pub open spec fn weight(k: int) -> int {
    if k == 0 {
        1
    } else if k == 1 {
        2
    } else if k == 2 {
        4
    } else if k == 3 {
        8
    } else if k == 4 {
        16
    } else if k == 5 {
        32
    } else if k == 6 {
        64
    } else {
        128
    }
}

/// Whether the selection has the bit of the PCR `n` set.
pub open spec fn has_pcr(sel: PcrSelection, n: int) -> bool {
    let byte = if n < 8 {
        sel.pcr_select.0
    } else if n < 16 {
        sel.pcr_select.1
    } else {
        sel.pcr_select.2
    };
    (byte as int) / weight(n % 8) % 2 == 1
}

/// Whether the selection is that of the PCRs that `pcrs` names, of the bank `hash`.
pub open spec fn selects(sel: PcrSelection, hash: u16, pcrs: Seq<char>) -> bool {
    &&& sel.hash == hash
    &&& sel.sizeof_select == 3
    &&& forall|n: int| 0 <= n <= 23 ==> (#[trigger] has_pcr(sel, n) <==> names_pcr(pcrs, n))
}

/// What a secret is bound to are the PCRs that the selection names, and no others.
pub proof fn law_selection(hash: u16, pcrs: Seq<char>)
    ensures
        selection(hash, pcrs) matches Ok(sel) ==> selects(sel, hash, pcrs),
{
    law_pcr_names(pcrs);
    match selection(hash, pcrs) {
        Ok(sel) => {
            let list = pcr_indices(pcrs)->Ok_0;
            law_selection_bits(list, 0);
            law_selection_bits(list, 8);
            law_selection_bits(list, 16);
            assert forall|n: int| 0 <= n <= 23 implies (#[trigger] has_pcr(sel, n) <==> names_pcr(
                pcrs,
                n,
            )) by {
                assert(list.contains(n as u8) <==> names_pcr(pcrs, n as u8 as int));
                lemma_has_pcr(hash, list, n);
            }
        },
        Err(_) => {},
    }
}

proof fn lemma_has_pcr(hash: u16, list: Seq<u8>, n: int)
    requires
        0 <= n <= 23,
    ensures
        has_pcr(selection_of(hash, list), n) <==> list.contains(n as u8),
{
    let base = n / 8 * 8;
    law_selection_bits(list, base);
    let k = n % 8;
    assert(n == base + k);
    assert(pcr_byte(list, base) as int / 1 == pcr_byte(list, base));
    assert(k == 0 || k == 1 || k == 2 || k == 3 || k == 4 || k == 5 || k == 6 || k == 7);
    assert(base == 0 || base == 8 || base == 16);
}

// ---------------------------------------------------------------------------
// Sealing
// ---------------------------------------------------------------------------

/// Whether the answer says that the request was carried out, and gives what was asked for.
pub open spec fn obeyed(ask: TpmAsk, answer: TpmAnswer) -> bool {
    match ask {
        TpmAsk::PersistentSrk => answer is Handle,
        TpmAsk::CreatePrimary { .. } => answer is Handle && answer->Handle_0 is Ok,
        TpmAsk::StartSession { .. } => answer is Handle && answer->Handle_0 is Ok,
        TpmAsk::Load { .. } => answer is Handle && answer->Handle_0 is Ok,
        TpmAsk::Serialize { .. } => answer is Bytes && answer->Bytes_0 is Ok,
        TpmAsk::PolicyDigest { .. } => answer is Bytes && answer->Bytes_0 is Ok,
        TpmAsk::MarshalPrivate => answer is Bytes && answer->Bytes_0 is Ok,
        TpmAsk::MarshalPublic => answer is Bytes && answer->Bytes_0 is Ok,
        TpmAsk::Unseal { .. } => answer is Data && answer->Data_0 is Ok,
        TpmAsk::SetAuth { .. } => true,
        TpmAsk::Flush { .. } => true,
        _ => answer is Status && answer->Status_0 is Ok,
    }
}

/// Whether the answer gives that handle.
pub open spec fn gives_handle(answer: TpmAnswer, handle: u32) -> bool {
    answer matches TpmAnswer::Handle(Ok(h)) && h == handle
}

/// Whether the answer gives those bytes.
pub open spec fn gives_bytes(answer: TpmAnswer, bytes: Seq<u8>) -> bool {
    answer matches TpmAnswer::Bytes(Ok(b)) && b@ == bytes
}

/// The bytes that the answer gives.
pub open spec fn bytes_in(answer: TpmAnswer) -> Seq<u8> {
    answer->Bytes_0->Ok_0@
}

/// Whether, for one of the answers from `at` on, `turn` asked for something that the TPM
/// did not do.
pub open spec fn was_denied<T>(
    turn: spec_fn(Seq<TpmAnswer>) -> TpmTurn<T>,
    log: Seq<TpmAnswer>,
    at: int,
) -> bool {
    exists|k: int|
        at <= k < log.len() && (#[trigger] turn(log.take(k)) matches TpmTurn::Ask(a) && !obeyed(
            a,
            log[k],
        ))
}

/// The place of the answer that gives the storage root key: the third of those from `at`
/// on, or the one behind it where the TPM keeps no such key and makes a new one.
pub open spec fn srk_place(log: Seq<TpmAnswer>, at: int) -> int {
    if at + 2 < log.len() && log[at + 2] is Handle && log[at + 2]->Handle_0 is Err {
        at + 3
    } else {
        at + 2
    }
}

/// What a PIN is to the TPM: its digest, or nothing if it is empty.
pub open spec fn is_auth(auth: Seq<u8>, pin: Seq<char>) -> bool {
    if pin.len() == 0 {
        auth.len() == 0
    } else {
        auth == sha256(encode_utf8(pin))
    }
}

/// What may be asked of the TPM to seal a secret, when that succeeds, and when it does
/// not.
pub open spec fn seals(
    secret: Seq<u8>,
    pcrs: Seq<char>,
    pin: Seq<char>,
    conf: Seq<char>,
    log: Seq<TpmAnswer>,
) -> bool {
    let turn = |l: Seq<TpmAnswer>| seal_turn(secret, pcrs, pin, conf, l);
    let n = log.len();
    let s = srk_place(log, 0);
    let d = if pin.len() == 0 {
        s + 4
    } else {
        s + 5
    };
    match turn(log) {
        TpmTurn::Ask(a) => match a {
            TpmAsk::OpenTcti { conf: c } => n == 0 && c == conf,
            TpmAsk::OpenEsys => n == 1,
            TpmAsk::PersistentSrk => n == 2,
            TpmAsk::CreatePrimary { attributes } => n == 3 && log[2]->Handle_0 is Err && attributes
                == 0x0003_0472,
            TpmAsk::Serialize { handle } => n == s + 1 && gives_handle(log[s], handle),
            TpmAsk::StartSession { session_type } => n == s + 2 && session_type == 3,
            TpmAsk::PolicyPcr { session, selection: sel } => {
                &&& n == s + 3 && gives_handle(log[s + 2], session)
                &&& selects(sel, TPM2_ALG_SHA256, pcrs)
            },
            TpmAsk::PolicyAuthValue { session } => {
                n == s + 4 && gives_handle(log[s + 2], session) && pin.len() > 0
            },
            TpmAsk::PolicyDigest { session } => n == d && gives_handle(log[s + 2], session),
            TpmAsk::Create { parent, attributes, policy, auth, data } => {
                &&& n == d + 2 && gives_handle(log[s], parent) && gives_bytes(log[d], policy)
                &&& data == secret && is_auth(auth, pin) && secret.len() <= 256
                &&& attributes == if pin.len() == 0 {
                    0x12u32
                } else {
                    0x52u32
                }
            },
            TpmAsk::MarshalPrivate => n == d + 3,
            TpmAsk::MarshalPublic => n == d + 4,
            TpmAsk::Flush { handle } => {
                ||| gives_handle(log[s + 2], handle)
                ||| gives_handle(log[s], handle) && s == 3
            },
            _ => false,
        },
        TpmTurn::Done(Ok(r), m) => {
            &&& m <= n && d + 5 <= n && secret.len() <= 256
            &&& gives_bytes(log[d + 3], bytes_in(log[d + 3]))
            &&& gives_bytes(log[d + 4], bytes_in(log[d + 4]))
            &&& r.blob == bytes_in(log[d + 3]) + bytes_in(log[d + 4])
            &&& gives_bytes(log[d], r.policy_hash)
            &&& gives_bytes(log[s + 1], r.srk_blob)
            &&& r.primary_alg == "ecc"@
        },
        TpmTurn::Done(Err(_), m) => {
            ||| was_denied(turn, log, 0)
            ||| pcr_indices(pcrs) is Err
            ||| conf.contains('\0')
            ||| secret.len() > 256
        },
    }
}

/// Sealing a secret: the object that is made holds the secret, below the storage root key,
/// with the digest of the PIN as its authorization, and is bound to the PCRs that are
/// named and, just where there is a PIN, to that authorization. What is given are the
/// parts of that object, the digest of its policy and the key. It fails only where the
/// TPM did not do what was asked, or the arguments are no good.
#[verifier::spinoff_prover]
#[verifier::rlimit(80)]
pub proof fn law_seal(
    secret: Seq<u8>,
    pcrs: Seq<char>,
    pin: Seq<char>,
    conf: Seq<char>,
    log: Seq<TpmAnswer>,
)
    ensures
        seals(secret, pcrs, pin, conf, log),
{
    law_selection(TPM2_ALG_SHA256, pcrs);
    let turn = |l: Seq<TpmAnswer>| seal_turn(secret, pcrs, pin, conf, l);
    match turn(log) {
        TpmTurn::Done(Err(_), _) => {
            if !(pcr_indices(pcrs) is Err || conf.contains('\0') || secret.len() > 256) {
                lemma_seal_denied(secret, pcrs, pin, conf, log);
            }
        },
        _ => {},
    }
}

#[verifier::spinoff_prover]
#[verifier::rlimit(80)]
proof fn lemma_seal_goes_on(
    secret: Seq<u8>,
    sel: PcrSelection,
    pin: Seq<char>,
    conf: Seq<char>,
    log: Seq<TpmAnswer>,
    answer: TpmAnswer,
)
    requires
        !conf.contains('\0'),
        secret.len() <= 256,
        match seal_run(secret, sel, pin, conf, log) {
            Run::Ask(a) => obeyed(a, answer),
            Run::End(r, _, _) => r is Ok,
        },
    ensures
        seal_run(secret, sel, pin, conf, log.push(answer)) matches Run::End(r, _, _) ==> r is Ok,
{
    let next = log.push(answer);
    assert(forall|k: int| 0 <= k < log.len() ==> #[trigger] next[k] == log[k]);
    assert(next[log.len() as int] == answer);
}

proof fn lemma_seal_denied(
    secret: Seq<u8>,
    pcrs: Seq<char>,
    pin: Seq<char>,
    conf: Seq<char>,
    log: Seq<TpmAnswer>,
)
    requires
        pcr_indices(pcrs) is Ok,
        !conf.contains('\0'),
        secret.len() <= 256,
    ensures
        ({
            let turn = |l: Seq<TpmAnswer>| seal_turn(secret, pcrs, pin, conf, l);
            let sel = selection(TPM2_ALG_SHA256, pcrs)->Ok_0;
            ||| was_denied(turn, log, 0)
            ||| (seal_run(secret, sel, pin, conf, log) matches Run::End(r, _, _) ==> r is Ok)
        }),
    decreases log.len(),
{
    let turn = |l: Seq<TpmAnswer>| seal_turn(secret, pcrs, pin, conf, l);
    let sel = selection(TPM2_ALG_SHA256, pcrs)->Ok_0;
    if log.len() > 0 {
        let k = log.len() - 1;
        let rest = log.take(k);
        lemma_seal_denied(secret, pcrs, pin, conf, rest);
        assert(rest.push(log[k]) =~= log);
        if was_denied(turn, rest, 0) {
            let i = choose|i: int|
                0 <= i < rest.len() && (#[trigger] turn(rest.take(i)) matches TpmTurn::Ask(a)
                    && !obeyed(a, rest[i]));
            assert(rest.take(i) =~= log.take(i));
            assert(turn(log.take(i)) is Ask);
        } else if !was_denied(turn, log, 0) {
            assert(turn(log.take(k)) == turn(rest));
            lemma_seal_goes_on(secret, sel, pin, conf, rest, log[k]);
        }
    }
}

// ---------------------------------------------------------------------------
// Unsealing
// ---------------------------------------------------------------------------

/// What may be asked of the TPM to unseal the secret of a token, with the answers from
/// `at` on, when that succeeds, and when it does not.
pub open spec fn unseals(
    token: Tpm2Ref,
    pin: Seq<char>,
    conf: Seq<char>,
    log: Seq<TpmAnswer>,
    at: int,
) -> bool {
    let turn = |l: Seq<TpmAnswer>| try_unseal_turn(token, pin, conf, l, at);
    let n = log.len();
    let s = srk_place(log, at);
    let p = if token.pin_required && pin.len() > 0 {
        s + 6
    } else {
        s + 5
    };
    let u = if token.pin_required {
        p + 3
    } else {
        p + 2
    };
    match turn(log) {
        TpmTurn::Ask(a) => match a {
            TpmAsk::OpenTcti { conf: c } => n == at && c == conf,
            TpmAsk::OpenEsys => n == at + 1,
            TpmAsk::PersistentSrk => n == at + 2,
            TpmAsk::CreatePrimary { attributes } => {
                n == at + 3 && log[at + 2]->Handle_0 is Err && attributes == 0x0003_0472
            },
            TpmAsk::Serialize { handle } => n == s + 1 && gives_handle(log[s], handle),
            TpmAsk::UnmarshalPrivate { blob } => n == s + 2 && blob == token.blob,
            TpmAsk::UnmarshalPublic => n == s + 3,
            TpmAsk::Load { parent } => n == s + 4 && gives_handle(log[s], parent),
            TpmAsk::SetAuth { handle, auth } => {
                &&& n == s + 5 && gives_handle(log[s + 4], handle)
                &&& token.pin_required && pin.len() > 0 && is_auth(auth, pin)
            },
            TpmAsk::StartSession { session_type } => n == p && session_type == 1,
            TpmAsk::PolicyPcr { session, selection: sel } => {
                &&& n == p + 1 && gives_handle(log[p], session)
                &&& selects(sel, bank_alg(token.pcr_bank), token.pcrs)
            },
            TpmAsk::PolicyAuthValue { session } => {
                n == p + 2 && gives_handle(log[p], session) && token.pin_required
            },
            TpmAsk::Unseal { object, session } => {
                n == u && gives_handle(log[s + 4], object) && gives_handle(log[p], session)
            },
            TpmAsk::Flush { handle } => {
                ||| gives_handle(log[s], handle) && s == at + 3
                ||| gives_handle(log[s + 4], handle)
                ||| gives_handle(log[p], handle)
            },
            _ => false,
        },
        TpmTurn::Done(Ok(secret), m) => {
            &&& u < m <= n
            &&& log[u] matches TpmAnswer::Data(Ok(given)) && given@ == secret
        },
        TpmTurn::Done(Err(_), m) => {
            ||| was_denied(turn, log, at)
            ||| pcr_indices(token.pcrs) is Err
            ||| conf.contains('\0')
        },
    }
}

/// Unsealing the secret of a token: the object of the token is loaded below the storage
/// root key, and gets the digest of the PIN where the token asks for one; the session is
/// bound to the PCRs of the token and, just where it asks for a PIN, to the
/// authorization. What the TPM then gives is the secret. It fails only where the TPM did
/// not do what was asked, or the arguments are no good.
#[verifier::spinoff_prover]
#[verifier::rlimit(80)]
pub proof fn law_unseal(
    token: Tpm2Ref,
    pin: Seq<char>,
    conf: Seq<char>,
    log: Seq<TpmAnswer>,
    at: int,
)
    requires
        0 <= at <= log.len(),
    ensures
        unseals(token, pin, conf, log, at),
{
    law_selection(bank_alg(token.pcr_bank), token.pcrs);
    let turn = |l: Seq<TpmAnswer>| try_unseal_turn(token, pin, conf, l, at);
    match turn(log) {
        TpmTurn::Done(Err(_), _) => {
            if !(pcr_indices(token.pcrs) is Err || conf.contains('\0')) {
                lemma_unseal_denied(token, pin, conf, log, at);
            }
        },
        _ => {},
    }
}

#[verifier::spinoff_prover]
#[verifier::rlimit(80)]
proof fn lemma_unseal_goes_on(
    token: Tpm2Ref,
    sel: PcrSelection,
    pin: Seq<char>,
    conf: Seq<char>,
    log: Seq<TpmAnswer>,
    answer: TpmAnswer,
    at: int,
)
    requires
        0 <= at <= log.len(),
        !conf.contains('\0'),
        match unseal_run(token, sel, pin, conf, log, at) {
            Run::Ask(a) => obeyed(a, answer),
            Run::End(r, _, _) => r is Ok,
        },
    ensures
        unseal_run(token, sel, pin, conf, log.push(answer), at) matches Run::End(r, _, _)
            ==> r is Ok,
{
    let next = log.push(answer);
    assert(forall|k: int| 0 <= k < log.len() ==> #[trigger] next[k] == log[k]);
    assert(next[log.len() as int] == answer);
}

proof fn lemma_unseal_denied(
    token: Tpm2Ref,
    pin: Seq<char>,
    conf: Seq<char>,
    log: Seq<TpmAnswer>,
    at: int,
)
    requires
        0 <= at <= log.len(),
        pcr_indices(token.pcrs) is Ok,
        !conf.contains('\0'),
    ensures
        ({
            let turn = |l: Seq<TpmAnswer>| try_unseal_turn(token, pin, conf, l, at);
            let sel = selection(bank_alg(token.pcr_bank), token.pcrs)->Ok_0;
            ||| was_denied(turn, log, at)
            ||| (unseal_run(token, sel, pin, conf, log, at) matches Run::End(r, _, _)
                ==> r is Ok)
        }),
    decreases log.len(),
{
    let turn = |l: Seq<TpmAnswer>| try_unseal_turn(token, pin, conf, l, at);
    let sel = selection(bank_alg(token.pcr_bank), token.pcrs)->Ok_0;
    if log.len() > at {
        let k = log.len() - 1;
        let rest = log.take(k);
        lemma_unseal_denied(token, pin, conf, rest, at);
        assert(rest.push(log[k]) =~= log);
        if was_denied(turn, rest, at) {
            let i = choose|i: int|
                at <= i < rest.len() && (#[trigger] turn(rest.take(i)) matches TpmTurn::Ask(a)
                    && !obeyed(a, rest[i]));
            assert(rest.take(i) =~= log.take(i));
            assert(turn(log.take(i)) is Ask);
        } else if !was_denied(turn, log, at) {
            assert(turn(log.take(k)) == turn(rest));
            lemma_unseal_goes_on(token, sel, pin, conf, rest, log[k], at);
        }
    }
}

/// What comes next where the token with the number `i` is tried with the answers from
/// `from` on.
pub open spec fn turn_of_token(
    tokens: Seq<Tpm2Ref>,
    pin: Seq<char>,
    conf: Seq<char>,
    log: Seq<TpmAnswer>,
    i: int,
    from: int,
) -> TpmTurn<Seq<u8>> {
    try_unseal_turn(tokens[i], pin, conf, log, from)
}

/// Where the tokens are tried one after the other, what is asked for is what one of them
/// asks for, what is given is what one of them gives, and a failure is given only once
/// all have failed.
proof fn lemma_try_tokens(
    tokens: Seq<Tpm2Ref>,
    pin: Seq<char>,
    conf: Seq<char>,
    last: Seq<char>,
    log: Seq<TpmAnswer>,
    at: int,
)
    requires
        0 <= at <= log.len(),
    ensures
        ({
            let turn = try_tokens(tokens, pin, conf, last, log, at);
            match turn {
                TpmTurn::Done(Err(_), _) => forall|i: int|
                    0 <= i < tokens.len() ==> #[trigger] fails_somewhere(
                        tokens[i],
                        pin,
                        conf,
                        log,
                        at,
                    ),
                _ => exists|i: int, from: int|
                    0 <= i < tokens.len() && at <= from <= log.len() && turn
                        == #[trigger] turn_of_token(tokens, pin, conf, log, i, from),
            }
        }),
    decreases tokens.len(),
{
    if tokens.len() > 0 {
        let rest = tokens.skip(1);
        let one = try_unseal_turn(tokens[0], pin, conf, log, at);
        lemma_ends_in_log(tokens[0], pin, conf, log, at);
        match one {
            TpmTurn::Done(Err(e), n) => {
                let next = "Token "@ + tokens[0].token_id + ": "@ + e;
                lemma_try_tokens(rest, pin, conf, next, log, n);
                let turn = try_tokens(rest, pin, conf, next, log, n);
                assert(turn == try_tokens(tokens, pin, conf, last, log, at));
                match turn {
                    TpmTurn::Done(Err(_), _) => {
                        assert forall|i: int| 0 <= i < tokens.len() implies #[trigger] fails_somewhere(
                            tokens[i],
                            pin,
                            conf,
                            log,
                            at,
                        ) by {
                            if i > 0 {
                                assert(rest[i - 1] == tokens[i]);
                                assert(fails_somewhere(rest[i - 1], pin, conf, log, n));
                                let from = choose|from: int|
                                    n <= from <= log.len() && #[trigger] failed(
                                        tokens[i],
                                        pin,
                                        conf,
                                        log,
                                        from,
                                    );
                                assert(failed(tokens[i], pin, conf, log, from));
                            } else {
                                assert(failed(tokens[0], pin, conf, log, at));
                            }
                        }
                    },
                    _ => {
                        let (i, from) = choose|i: int, from: int|
                            0 <= i < rest.len() && n <= from <= log.len() && turn
                                == #[trigger] turn_of_token(rest, pin, conf, log, i, from);
                        assert(rest[i] == tokens[i + 1]);
                        assert(turn == turn_of_token(tokens, pin, conf, log, i + 1, from));
                    },
                }
            },
            _ => {
                assert(one == turn_of_token(tokens, pin, conf, log, 0, at));
            },
        }
    }
}

/// Whether the token was tried with the answers from `from` on, and failed.
pub open spec fn failed(
    token: Tpm2Ref,
    pin: Seq<char>,
    conf: Seq<char>,
    log: Seq<TpmAnswer>,
    from: int,
) -> bool {
    try_unseal_turn(token, pin, conf, log, from) matches TpmTurn::Done(Err(_), _)
}

/// Whether the token was tried and failed.
pub open spec fn fails_somewhere(
    token: Tpm2Ref,
    pin: Seq<char>,
    conf: Seq<char>,
    log: Seq<TpmAnswer>,
    at: int,
) -> bool {
    exists|from: int| at <= from <= log.len() && #[trigger] failed(token, pin, conf, log, from)
}

proof fn lemma_ends_in_log(
    token: Tpm2Ref,
    pin: Seq<char>,
    conf: Seq<char>,
    log: Seq<TpmAnswer>,
    at: int,
)
    requires
        0 <= at <= log.len(),
    ensures
        try_unseal_turn(token, pin, conf, log, at) matches TpmTurn::Done(_, n) ==> at <= n
            <= log.len(),
{
}

/// Unsealing with the tokens of a header: what is asked of the TPM is what one of the
/// tokens that can be tried asks for, what is given is what one of them gives, and it
/// fails only once each of them was tried and has failed.
pub proof fn law_unseal_from_tokens(
    tokens: Seq<Tpm2Ref>,
    pin: Seq<char>,
    conf: Seq<char>,
    log: Seq<TpmAnswer>,
)
    ensures
        ({
            let turn = unseal_tokens_turn(tokens, pin, conf, log);
            let tried = candidates(tokens, pin.len() > 0);
            match turn {
                TpmTurn::Done(Err(_), _) => tokens.len() == 0 || forall|i: int|
                    0 <= i < tried.len() ==> #[trigger] fails_somewhere(
                        tried[i],
                        pin,
                        conf,
                        log,
                        0,
                    ),
                _ => exists|i: int, from: int|
                    0 <= i < tried.len() && 0 <= from <= log.len() && turn
                        == #[trigger] turn_of_token(tried, pin, conf, log, i, from),
            }
        }),
{
    if tokens.len() > 0 {
        lemma_try_tokens(
            candidates(tokens, pin.len() > 0),
            pin,
            conf,
            "No systemd-tpm2 token could be unsealed"@,
            log,
            0,
        );
    }
}

proof fn lemma_by_pin_contains(tokens: Seq<Tpm2Ref>, pin: bool, t: Tpm2Ref)
    ensures
        by_pin(tokens, pin).contains(t) <==> tokens.contains(t) && t.pin_required == pin,
    decreases tokens.len(),
{
    let list = by_pin(tokens, pin);
    if tokens.len() > 0 {
        let rest = tokens.drop_last();
        let before = by_pin(rest, pin);
        lemma_by_pin_contains(rest, pin, t);
        if list.contains(t) {
            let i = choose|i: int| 0 <= i < list.len() && list[i] == t;
            if i < before.len() {
                assert(before[i] == t);
                assert(rest.contains(t));
                let j = choose|j: int| 0 <= j < rest.len() && rest[j] == t;
                assert(tokens[j] == t);
            } else {
                assert(tokens[tokens.len() - 1] == t);
            }
        }
        if tokens.contains(t) && t.pin_required == pin {
            let j = choose|j: int| 0 <= j < tokens.len() && tokens[j] == t;
            if j < rest.len() {
                assert(rest[j] == t);
                let i = choose|i: int| 0 <= i < before.len() && before[i] == t;
                assert(list[i] == t);
            } else {
                assert(list[before.len() as int] == t);
            }
        }
    }
}

/// The tokens to try are all of them with a PIN, and without one just those that ask for
/// none.
pub proof fn law_candidates_are_complete(tokens: Seq<Tpm2Ref>, pin_provided: bool, t: Tpm2Ref)
    ensures
        candidates(tokens, pin_provided).contains(t) <==> tokens.contains(t) && (pin_provided
            || !t.pin_required),
{
    lemma_by_pin_contains(tokens, true, t);
    lemma_by_pin_contains(tokens, false, t);
    let a = by_pin(tokens, true);
    let b = by_pin(tokens, false);
    if pin_provided {
        if a.contains(t) {
            let i = choose|i: int| 0 <= i < a.len() && a[i] == t;
            assert((a + b)[i] == t);
        }
        if b.contains(t) {
            let i = choose|i: int| 0 <= i < b.len() && b[i] == t;
            assert((a + b)[a.len() + i] == t);
        }
        if (a + b).contains(t) {
            let i = choose|i: int| 0 <= i < (a + b).len() && (a + b)[i] == t;
            if i < a.len() {
                assert(a[i] == t);
            } else {
                assert(b[i - a.len()] == t);
            }
        }
    }
}

} // verus!
