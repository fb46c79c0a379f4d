//! What is asked of FIDO2 devices to unlock a volume, and what comes of it: the laws of
//! deriving a secret from one of the tokens of a header.

use vstd::prelude::*;
use vstd::utf8::encode_utf8;

use crate::fido2::{
    enroll_stage, hmac_stage, list_stage, match_devices_of, matches_stage, matching_stage,
    open_stage, pin_bytes, places, probe_stage, secrets_stage, select_stage, unlock_stage,
    FidoAnswer, FidoAsk, FidoStage, Match, FIDO_OK, UNLOCK_TIMEOUT,
};
use crate::keys::{amiss, law_fido2_enroll, lemma_steps_end, may_hold, sends_pin, steady, yields};
use crate::luks::Fido2Ref;

verus! {

// ---------------------------------------------------------------------------
// The devices
// ---------------------------------------------------------------------------

/// Whether the device has a path, by the answer to the listing.
pub open spec fn lists(answer: FidoAnswer, device: usize) -> bool {
    match answer {
        FidoAnswer::Listed(Some((status, present))) => status == FIDO_OK && device < present@.len()
            && present@[device as int],
        _ => false,
    }
}

proof fn lemma_places(present: Seq<bool>)
    requires
        present.len() <= usize::MAX,
    ensures
        forall|d: usize| #[trigger]
            places(present).contains(d) <==> d < present.len() && present[d as int],
    decreases present.len(),
{
    if present.len() > 0 {
        let rest = present.drop_last();
        lemma_places(rest);
        assert forall|d: usize| #[trigger]
            places(present).contains(d) <==> d < present.len() && present[d as int] by {
            assert(places(rest).contains(d) <==> d < rest.len() && rest[d as int]);
            if places(rest).contains(d) {
                let i = choose|i: int| 0 <= i < places(rest).len() && places(rest)[i] == d;
                assert(places(present)[i] == d);
            }
            if present.last() && d == present.len() - 1 {
                assert(places(present)[places(rest).len() as int] == d);
            }
            if places(present).contains(d) {
                let i = choose|i: int| 0 <= i < places(present).len() && places(present)[i] == d;
                if i < places(rest).len() {
                    assert(places(rest)[i] == d);
                }
            }
        }
    }
}

/// Whether `part` had the device opened, by the answers from `at` to `n`.
pub open spec fn opened_in<T>(
    part: spec_fn(Seq<FidoAnswer>) -> FidoStage<T>,
    log: Seq<FidoAnswer>,
    at: int,
    n: int,
    device: usize,
) -> bool {
    exists|k: int|
        at <= k < n && #[trigger] part(log.take(k)) == FidoStage::<T>::Ask(
            FidoAsk::OpenListed { device },
        ) && log[k] == FidoAnswer::Opened(Some(FIDO_OK))
}

/// Whether `part` probed the device for the credential, by the answers from `at` to `n`,
/// and the device may hold it.
pub open spec fn held_in<T>(
    part: spec_fn(Seq<FidoAnswer>) -> FidoStage<T>,
    log: Seq<FidoAnswer>,
    at: int,
    n: int,
    device: usize,
    cred_id: Seq<u8>,
) -> bool {
    exists|k: int|
        at <= k < n && #[trigger] part(log.take(k)) == FidoStage::<T>::Ask(
            FidoAsk::Probe { device, cred_id },
        ) && may_hold(log[k])
}

/// Whether the last of the first `n` answers was no answer to what was asked.
pub open spec fn ends_amiss<T>(
    part: spec_fn(Seq<FidoAnswer>) -> FidoStage<T>,
    log: Seq<FidoAnswer>,
    n: int,
) -> bool {
    &&& 0 < n <= log.len()
    &&& part(log.take(n - 1)) matches FidoStage::Ask(a)
    &&& amiss(a, log[n - 1])
}

/// Whether `part` asked for `ask`, for one of the answers from `at` to `n`.
pub open spec fn asked_in<T>(
    part: spec_fn(Seq<FidoAnswer>) -> FidoStage<T>,
    log: Seq<FidoAnswer>,
    at: int,
    n: int,
    ask: FidoAsk,
) -> bool {
    exists|k: int| at <= k < n && #[trigger] part(log.take(k)) == FidoStage::<T>::Ask(ask)
}

/// Whether the opening of each of the devices was asked for.
pub open spec fn all_tried<T>(
    part: spec_fn(Seq<FidoAnswer>) -> FidoStage<T>,
    log: Seq<FidoAnswer>,
    at: int,
    n: int,
    listed: Seq<usize>,
) -> bool {
    forall|d: usize| #[trigger]
        listed.contains(d) ==> asked_in(part, log, at, n, FidoAsk::OpenListed { device: d })
}

proof fn lemma_tried_more(
    more: spec_fn(Seq<FidoAnswer>) -> FidoStage<Seq<usize>>,
    part: spec_fn(Seq<FidoAnswer>) -> FidoStage<Seq<usize>>,
    log: Seq<FidoAnswer>,
    at: int,
    n: int,
    listed: Seq<usize>,
)
    requires
        listed.len() > 0,
        0 <= at < n <= log.len(),
        part(log.take(at)) == FidoStage::<Seq<usize>>::Ask(
            FidoAsk::OpenListed { device: listed[0] },
        ),
        forall|m: int| at < m <= log.len() ==> part(#[trigger] log.take(m)) == more(log.take(m)),
        all_tried(more, log, at + 1, n, listed.skip(1)),
    ensures
        all_tried(part, log, at, n, listed),
{
    assert forall|d: usize| #[trigger] listed.contains(d) implies asked_in(
        part,
        log,
        at,
        n,
        FidoAsk::OpenListed { device: d },
    ) by {
        let i = choose|i: int| 0 <= i < listed.len() && listed[i] == d;
        if i > 0 {
            assert(listed.skip(1)[i - 1] == d);
            assert(listed.skip(1).contains(d));
            lemma_asked_wider(
                more,
                part,
                log,
                at + 1,
                at,
                n,
                n,
                FidoAsk::OpenListed { device: d },
            );
        }
    }
}

spec fn opens(
    listed: Seq<usize>,
    opened: Seq<usize>,
    log: Seq<FidoAnswer>,
    at: int,
) -> bool {
    let part = |l: Seq<FidoAnswer>| open_stage(listed, opened, l, at);
    &&& steady(part, log, at)
    &&& match part(log) {
        FidoStage::Ask(a) => a is OpenListed && listed.contains(a->OpenListed_device),
        FidoStage::Done(r, n) => {
            &&& forall|d: usize| #[trigger]
                r.contains(d) <==> opened.contains(d) || opened_in(part, log, at, n, d)
            &&& all_tried(part, log, at, n, listed)
        },
        FidoStage::Fail(e, n) => {
            ||| at < n && ends_amiss(part, log, n)
            ||| e == "No FIDO2 device could be opened"@ && opened.len() == 0 && all_tried(part, log, at, n, listed) && forall|k: int|
                at <= k < n ==> #[trigger] log[k] != FidoAnswer::Opened(Some(FIDO_OK))
        },
    }
}

#[verifier::spinoff_prover]
#[verifier::rlimit(60)]
proof fn lemma_opens(listed: Seq<usize>, opened: Seq<usize>, log: Seq<FidoAnswer>, at: int)
    requires
        0 <= at <= log.len(),
    ensures
        opens(listed, opened, log, at),
    decreases listed.len(),
{
    let part = |l: Seq<FidoAnswer>| open_stage(listed, opened, l, at);
    if listed.len() == 0 {
        assert forall|m: int| at <= m <= log.len() implies part(#[trigger] log.take(m)) == part(
            log,
        ) by {}
    } else {
        let ask = FidoAsk::OpenListed { device: listed[0] };
        assert(part(log.take(at)) == FidoStage::<Seq<usize>>::Ask(ask));
        assert(listed.contains(listed[0]));
        if at < log.len() {
            assert(forall|m: int| at < m <= log.len() ==> #[trigger] log.take(m)[at] == log[at]);
            match log[at] {
                FidoAnswer::Opened(status) => {
                    let good = status == Some(FIDO_OK);
                    let next = if good {
                        opened.push(listed[0])
                    } else {
                        opened
                    };
                    let more = |l: Seq<FidoAnswer>| open_stage(listed.skip(1), next, l, at + 1);
                    lemma_opens(listed.skip(1), next, log, at + 1);
                    assert forall|m: int| at < m <= log.len() implies part(#[trigger] log.take(m))
                        == more(log.take(m)) by {}
                    assert(part(log) == more(log));
                    match more(log) {
                        FidoStage::Ask(a) => {
                            let d = a->OpenListed_device;
                            let i = choose|i: int|
                                0 <= i < listed.skip(1).len() && listed.skip(1)[i] == d;
                            assert(listed[i + 1] == d);
                        },
                        FidoStage::Done(r, n) => {
                            lemma_steps_end(more, part, log, at, at + 1, n);
                            assert forall|d: usize| #[trigger]
                                r.contains(d) <==> opened.contains(d) || opened_in(
                                    part,
                                    log,
                                    at,
                                    n,
                                    d,
                                ) by {
                                lemma_opened_more(more, part, log, at, n, d, listed[0], status);
                                if opened.contains(d) {
                                    let i = choose|i: int|
                                        0 <= i < opened.len() && opened[i] == d;
                                    assert(next[i] == d);
                                }
                                if good && d == listed[0] {
                                    assert(next[opened.len() as int] == d);
                                }
                                if next.contains(d) && !opened.contains(d) {
                                    let i = choose|i: int| 0 <= i < next.len() && next[i] == d;
                                    assert(i < opened.len() ==> opened[i] == d);
                                }
                            }
                            lemma_tried_more(more, part, log, at, n, listed);
                        },
                        FidoStage::Fail(_, n) => {
                            lemma_steps_end(more, part, log, at, at + 1, n);
                            if at + 1 < n && ends_amiss(more, log, n) {
                                assert(part(log.take(n - 1)) == more(log.take(n - 1)));
                            } else {
                                lemma_tried_more(more, part, log, at, n, listed);
                            }
                        },
                    }
                },
                _ => {
                    assert forall|m: int| at < m <= log.len() implies part(#[trigger] log.take(m))
                        == part(log) by {}
                },
            }
        }
    }
}

proof fn lemma_opened_more(
    more: spec_fn(Seq<FidoAnswer>) -> FidoStage<Seq<usize>>,
    part: spec_fn(Seq<FidoAnswer>) -> FidoStage<Seq<usize>>,
    log: Seq<FidoAnswer>,
    at: int,
    n: int,
    d: usize,
    first: usize,
    status: Option<i32>,
)
    requires
        0 <= at < n <= log.len(),
        part(log.take(at)) == FidoStage::<Seq<usize>>::Ask(FidoAsk::OpenListed { device: first }),
        log[at] == FidoAnswer::Opened(status),
        forall|m: int| at < m <= log.len() ==> part(#[trigger] log.take(m)) == more(log.take(m)),
    ensures
        opened_in(part, log, at, n, d) <==> opened_in(more, log, at + 1, n, d) || (d == first
            && status == Some(FIDO_OK)),
{
    if opened_in(part, log, at, n, d) {
        let k = choose|k: int|
            at <= k < n && #[trigger] part(log.take(k)) == FidoStage::<Seq<usize>>::Ask(
                FidoAsk::OpenListed { device: d },
            ) && log[k] == FidoAnswer::Opened(Some(FIDO_OK));
        if k > at {
            assert(more(log.take(k)) == part(log.take(k)));
        }
    }
    if opened_in(more, log, at + 1, n, d) {
        let k = choose|k: int|
            at + 1 <= k < n && #[trigger] more(log.take(k)) == FidoStage::<Seq<usize>>::Ask(
                FidoAsk::OpenListed { device: d },
            ) && log[k] == FidoAnswer::Opened(Some(FIDO_OK));
        assert(more(log.take(k)) == part(log.take(k)));
    }
}

spec fn narrows(
    device: usize,
    tokens: Seq<Fido2Ref>,
    first: int,
    kept: Seq<usize>,
    log: Seq<FidoAnswer>,
    at: int,
) -> bool {
    let part = |l: Seq<FidoAnswer>| matching_stage(device, tokens, first, kept, l, at);
    &&& steady(part, log, at)
    &&& match part(log) {
        FidoStage::Ask(a) => probes(a, device, tokens),
        FidoStage::Done(r, n) => {
            &&& n == at + tokens.len() - first
            &&& forall|j: int|
                first <= j < tokens.len() ==> part(log.take(at + j - first)) == FidoStage::<
                    Seq<usize>,
                >::Ask(FidoAsk::Probe { device, cred_id: (#[trigger] tokens[j]).cred_id })
            &&& forall|x: usize| #[trigger]
                r.contains(x) <==> kept.contains(x) || (first <= x < tokens.len() && may_hold(
                    log[at + x - first],
                ))
        },
        FidoStage::Fail(_, n) => at < n && ends_amiss(part, log, n),
    }
}

/// Whether the request probes the device for the credential of one of the tokens.
pub open spec fn probes(ask: FidoAsk, device: usize, tokens: Seq<Fido2Ref>) -> bool {
    &&& ask is Probe
    &&& ask->Probe_device == device
    &&& is_credential(tokens, ask->Probe_cred_id)
}

/// Whether the credential is that of one of the tokens.
pub open spec fn is_credential(tokens: Seq<Fido2Ref>, cred_id: Seq<u8>) -> bool {
    exists|j: int| 0 <= j < tokens.len() && (#[trigger] tokens[j]).cred_id == cred_id
}

#[verifier::spinoff_prover]
#[verifier::rlimit(60)]
proof fn lemma_narrows(
    device: usize,
    tokens: Seq<Fido2Ref>,
    first: int,
    kept: Seq<usize>,
    log: Seq<FidoAnswer>,
    at: int,
)
    requires
        0 <= at <= log.len(),
        0 <= first <= tokens.len(),
        tokens.len() <= usize::MAX,
    ensures
        narrows(device, tokens, first, kept, log, at),
    decreases tokens.len() - first,
{
    let part = |l: Seq<FidoAnswer>| matching_stage(device, tokens, first, kept, l, at);
    if first >= tokens.len() {
        assert forall|m: int| at <= m <= log.len() implies part(#[trigger] log.take(m)) == part(
            log,
        ) by {}
    } else {
        let ask = FidoAsk::Probe { device, cred_id: tokens[first].cred_id };
        assert(part(log.take(at)) == FidoStage::<Seq<usize>>::Ask(ask));
        if at < log.len() {
            assert(forall|m: int| at < m <= log.len() ==> #[trigger] log.take(m)[at] == log[at]);
            match probe_stage(device, tokens[first].cred_id, log, at) {
                FidoStage::Done(verdict, _) => {
                    let next = if verdict == Some(false) {
                        kept
                    } else {
                        kept.push(first as usize)
                    };
                    let more = |l: Seq<FidoAnswer>|
                        matching_stage(device, tokens, first + 1, next, l, at + 1);
                    lemma_narrows(device, tokens, first + 1, next, log, at + 1);
                    assert forall|m: int| at < m <= log.len() implies part(#[trigger] log.take(m))
                        == more(log.take(m)) by {}
                    assert(part(log) == more(log));
                    match more(log) {
                        FidoStage::Ask(_) => {},
                        FidoStage::Done(r, n) => {
                            lemma_steps_end(more, part, log, at, at + 1, n);
                            assert forall|j: int| first <= j < tokens.len() implies part(
                                log.take(at + j - first),
                            ) == FidoStage::<Seq<usize>>::Ask(
                                FidoAsk::Probe { device, cred_id: (#[trigger] tokens[j]).cred_id },
                            ) by {
                                if j > first {
                                    assert(more(log.take(at + 1 + j - (first + 1)))
                                        == FidoStage::<Seq<usize>>::Ask(
                                        FidoAsk::Probe { device, cred_id: tokens[j].cred_id },
                                    ));
                                    assert(part(log.take(at + j - first)) == more(
                                        log.take(at + j - first),
                                    ));
                                }
                            }
                            assert forall|x: usize| #[trigger]
                                r.contains(x) <==> kept.contains(x) || (first <= x < tokens.len()
                                    && may_hold(log[at + x - first])) by {
                                if kept.contains(x) {
                                    let i = choose|i: int| 0 <= i < kept.len() && kept[i] == x;
                                    assert(next[i] == x);
                                }
                                if x == first && may_hold(log[at]) {
                                    assert(next[kept.len() as int] == x);
                                }
                                if next.contains(x) && !kept.contains(x) {
                                    let i = choose|i: int| 0 <= i < next.len() && next[i] == x;
                                    assert(i < kept.len() ==> kept[i] == x);
                                }
                            }
                        },
                        FidoStage::Fail(_, n) => {
                            lemma_steps_end(more, part, log, at, at + 1, n);
                            assert(part(log.take(n - 1)) == more(log.take(n - 1)));
                        },
                    }
                },
                _ => {
                    assert forall|m: int| at < m <= log.len() implies part(#[trigger] log.take(m))
                        == part(log) by {}
                },
            }
        }
    }
}

/// Whether each of the devices was probed for the credential of each of the tokens.
pub open spec fn all_probed<T>(
    part: spec_fn(Seq<FidoAnswer>) -> FidoStage<T>,
    log: Seq<FidoAnswer>,
    at: int,
    n: int,
    devices: Seq<usize>,
    tokens: Seq<Fido2Ref>,
) -> bool {
    forall|i: int, j: int|
        0 <= i < devices.len() && 0 <= j < tokens.len() ==> asked_in(
            part,
            log,
            at,
            n,
            FidoAsk::Probe {
                device: #[trigger] devices[i],
                cred_id: (#[trigger] tokens[j]).cred_id,
            },
        )
}

/// Whether the device with those tokens is a match: it has one at least, and may hold the
/// credential of each.
pub open spec fn fits<T>(
    part: spec_fn(Seq<FidoAnswer>) -> FidoStage<T>,
    log: Seq<FidoAnswer>,
    at: int,
    n: int,
    tokens: Seq<Fido2Ref>,
    m: Match,
) -> bool {
    &&& m.1.len() > 0
    &&& forall|i: int|
        0 <= i < m.1.len() ==> (#[trigger] m.1[i]) < tokens.len() && held_in(
            part,
            log,
            at,
            n,
            m.0,
            tokens[m.1[i] as int].cred_id,
        )
}

/// Whether one of the matches is for that device and has a token with that credential.
pub open spec fn matched_by(
    r: Seq<Match>,
    tokens: Seq<Fido2Ref>,
    device: usize,
    cred_id: Seq<u8>,
) -> bool {
    exists|i: int, x: int|
        0 <= i < r.len() && 0 <= x < r[i].1.len() && (#[trigger] r[i].1[x]) < tokens.len()
            && r[i].0 == device && tokens[r[i].1[x] as int].cred_id == cred_id
}

spec fn pairs(
    devices: Seq<usize>,
    tokens: Seq<Fido2Ref>,
    found: Seq<Match>,
    log: Seq<FidoAnswer>,
    at: int,
) -> bool {
    let part = |l: Seq<FidoAnswer>| matches_stage(devices, tokens, found, l, at);
    &&& steady(part, log, at)
    &&& match part(log) {
        FidoStage::Ask(a) => a is Probe && devices.contains(a->Probe_device) && is_credential(
            tokens,
            a->Probe_cred_id,
        ),
        FidoStage::Done(r, n) => {
            &&& found.len() <= r.len() && r.len() > 0 && r.take(found.len() as int) == found
            &&& forall|i: int|
                found.len() <= i < r.len() ==> #[trigger] fits(part, log, at, n, tokens, r[i])
            &&& forall|d: usize, c: Seq<u8>| #[trigger]
                held_in(part, log, at, n, d, c) ==> matched_by(r, tokens, d, c)
            &&& all_probed(part, log, at, n, devices, tokens)
        },
        FidoStage::Fail(e, n) => {
            ||| at < n && ends_amiss(part, log, n)
            ||| e == "No matching FIDO2 device/credential found"@ && found.len() == 0 && all_probed(part, log, at, n, devices, tokens) && forall|
                d: usize,
                c: Seq<u8>,
            |
                !(#[trigger] held_in(part, log, at, n, d, c))
        },
    }
}

proof fn lemma_held_wider<T>(
    inner: spec_fn(Seq<FidoAnswer>) -> FidoStage<T>,
    part: spec_fn(Seq<FidoAnswer>) -> FidoStage<T>,
    log: Seq<FidoAnswer>,
    lo: int,
    at: int,
    n: int,
    j: int,
    d: usize,
    c: Seq<u8>,
)
    requires
        at <= lo <= n <= j,
        forall|k: int| lo <= k < n ==> part(#[trigger] log.take(k)) == inner(log.take(k)),
        held_in(inner, log, lo, n, d, c),
    ensures
        held_in(part, log, at, j, d, c),
{
    let k = choose|k: int|
        lo <= k < n && #[trigger] inner(log.take(k)) == FidoStage::<T>::Ask(
            FidoAsk::Probe { device: d, cred_id: c },
        ) && may_hold(log[k]);
    assert(part(log.take(k)) == inner(log.take(k)));
}

proof fn lemma_asked_wider<T>(
    inner: spec_fn(Seq<FidoAnswer>) -> FidoStage<T>,
    part: spec_fn(Seq<FidoAnswer>) -> FidoStage<T>,
    log: Seq<FidoAnswer>,
    lo: int,
    at: int,
    n: int,
    j: int,
    ask: FidoAsk,
)
    requires
        at <= lo <= n <= j,
        forall|k: int| lo <= k < n ==> part(#[trigger] log.take(k)) == inner(log.take(k)),
        asked_in(inner, log, lo, n, ask),
    ensures
        asked_in(part, log, at, j, ask),
{
    let k = choose|k: int|
        lo <= k < n && #[trigger] inner(log.take(k)) == FidoStage::<T>::Ask(ask);
    assert(part(log.take(k)) == inner(log.take(k)));
}

#[verifier::spinoff_prover]
#[verifier::rlimit(80)]
proof fn lemma_pairs(
    devices: Seq<usize>,
    tokens: Seq<Fido2Ref>,
    found: Seq<Match>,
    log: Seq<FidoAnswer>,
    at: int,
)
    requires
        0 <= at <= log.len(),
        tokens.len() <= usize::MAX,
    ensures
        pairs(devices, tokens, found, log, at),
    decreases devices.len(),
{
    let part = |l: Seq<FidoAnswer>| matches_stage(devices, tokens, found, l, at);
    if devices.len() == 0 {
        assert forall|m: int| at <= m <= log.len() implies part(#[trigger] log.take(m)) == part(
            log,
        ) by {}
        assert(found.take(found.len() as int) =~= found);
    } else {
        let first = devices[0];
        let rest = devices.skip(1);
        assert(devices.contains(first));
        let probe = |l: Seq<FidoAnswer>| matching_stage(first, tokens, 0, seq![], l, at);
        lemma_narrows(first, tokens, 0, seq![], log, at);
        match probe(log) {
            FidoStage::Ask(_) => {},
            FidoStage::Fail(_, n) => {
                assert forall|m: int| n <= m <= log.len() implies part(#[trigger] log.take(m))
                    == part(log) by {
                    assert(probe(log.take(m)) == probe(log));
                }
                assert forall|k: int| at <= k < n implies part(#[trigger] log.take(k)) is Ask by {
                    assert(probe(log.take(k)) is Ask);
                }
                assert(probe(log.take(n - 1)) is Ask);
            },
            FidoStage::Done(kept, n) => {
                let next = if kept.len() == 0 {
                    found
                } else {
                    found.push((first, kept))
                };
                let more = |l: Seq<FidoAnswer>| matches_stage(rest, tokens, next, l, n);
                lemma_pairs(rest, tokens, next, log, n);
                assert forall|m: int| n <= m <= log.len() implies part(#[trigger] log.take(m))
                    == more(log.take(m)) by {
                    assert(probe(log.take(m)) == probe(log));
                }
                assert(part(log) == more(log));
                assert forall|j: int| 0 <= j < tokens.len() implies part(log.take(at + j))
                    == FidoStage::<Seq<Match>>::Ask(
                    FidoAsk::Probe { device: first, cred_id: (#[trigger] tokens[j]).cred_id },
                ) by {
                    assert(probe(log.take(at + j - 0)) is Ask);
                }
                assert forall|k: int| at <= k < n implies part(#[trigger] log.take(k)) is Ask by {
                    assert(probe(log.take(k)) is Ask);
                }
                match more(log) {
                    FidoStage::Ask(a) => {
                        let i = choose|i: int| 0 <= i < rest.len() && rest[i] == a->Probe_device;
                        assert(devices[i + 1] == a->Probe_device);
                    },
                    FidoStage::Done(r, j) => {
                        lemma_steps_end(more, part, log, at, n, j);
                        lemma_pairs_fit(devices, tokens, found, log, at, n, j, part, more, kept, r);
                        lemma_pairs_held(devices, tokens, found, log, at, n, j, part, more, kept, r);
                        lemma_pairs_probed(devices, tokens, log, at, n, j, part, more);
                        assert(r.take(found.len() as int) =~= next.take(found.len() as int));
                        assert(next.take(found.len() as int) =~= found);
                    },
                    FidoStage::Fail(_, j) => {
                        lemma_steps_end(more, part, log, at, n, j);
                        if n < j && ends_amiss(more, log, j) {
                            assert(part(log.take(j - 1)) == more(log.take(j - 1)));
                        } else {
                            lemma_pairs_probed(devices, tokens, log, at, n, j, part, more);
                            assert(kept.len() == 0);
                            assert forall|d: usize, c: Seq<u8>|
                                !(#[trigger] held_in(part, log, at, j, d, c)) by {
                                if held_in(part, log, at, j, d, c) {
                                    let k = choose|k: int|
                                        at <= k < j && #[trigger] part(log.take(k)) == FidoStage::<
                                            Seq<Match>,
                                        >::Ask(FidoAsk::Probe { device: d, cred_id: c })
                                            && may_hold(log[k]);
                                    if k < n {
                                        let x = (k - at) as usize;
                                        assert(kept.contains(x));
                                    } else {
                                        assert(more(log.take(k)) == part(log.take(k)));
                                        assert(held_in(more, log, n, j, d, c));
                                    }
                                }
                            }
                        }
                    },
                }
            },
        }
    }
}

proof fn lemma_pairs_fit(
    devices: Seq<usize>,
    tokens: Seq<Fido2Ref>,
    found: Seq<Match>,
    log: Seq<FidoAnswer>,
    at: int,
    n: int,
    j: int,
    part: spec_fn(Seq<FidoAnswer>) -> FidoStage<Seq<Match>>,
    more: spec_fn(Seq<FidoAnswer>) -> FidoStage<Seq<Match>>,
    kept: Seq<usize>,
    r: Seq<Match>,
)
    requires
        devices.len() > 0,
        0 <= at <= n <= j <= log.len(),
        n == at + tokens.len(),
        forall|m: int| n <= m <= log.len() ==> part(#[trigger] log.take(m)) == more(log.take(m)),
        forall|y: int|
            0 <= y < tokens.len() ==> part(log.take(at + y)) == FidoStage::<Seq<Match>>::Ask(
                FidoAsk::Probe { device: devices[0], cred_id: (#[trigger] tokens[y]).cred_id },
            ),
        forall|x: usize| #[trigger]
            kept.contains(x) <==> x < tokens.len() && may_hold(log[at + x - 0]),
        ({
            let next = if kept.len() == 0 {
                found
            } else {
                found.push((devices[0], kept))
            };
            &&& next.len() <= r.len()
            &&& r.take(next.len() as int) == next
            &&& forall|i: int|
                next.len() <= i < r.len() ==> #[trigger] fits(more, log, n, j, tokens, r[i])
        }),
    ensures
        forall|i: int|
            found.len() <= i < r.len() ==> #[trigger] fits(part, log, at, j, tokens, r[i]),
{
    let next = if kept.len() == 0 {
        found
    } else {
        found.push((devices[0], kept))
    };
    assert forall|i: int| found.len() <= i < r.len() implies #[trigger] fits(
        part,
        log,
        at,
        j,
        tokens,
        r[i],
    ) by {
        let m = r[i];
        if i < next.len() {
            assert(r.take(next.len() as int)[i] == m);
            assert forall|y: int| 0 <= y < m.1.len() implies (#[trigger] m.1[y]) < tokens.len()
                && held_in(part, log, at, j, m.0, tokens[m.1[y] as int].cred_id) by {
                let x = m.1[y];
                assert(kept.contains(x));
                assert(part(log.take(at + x)) == FidoStage::<Seq<Match>>::Ask(
                    FidoAsk::Probe { device: devices[0], cred_id: tokens[x as int].cred_id },
                ));
            }
        } else {
            assert(fits(more, log, n, j, tokens, m));
            assert forall|y: int| 0 <= y < m.1.len() implies (#[trigger] m.1[y]) < tokens.len()
                && held_in(part, log, at, j, m.0, tokens[m.1[y] as int].cred_id) by {
                lemma_held_wider(
                    more,
                    part,
                    log,
                    n,
                    at,
                    j,
                    j,
                    m.0,
                    tokens[m.1[y] as int].cred_id,
                );
            }
        }
    }
}

proof fn lemma_pairs_held(
    devices: Seq<usize>,
    tokens: Seq<Fido2Ref>,
    found: Seq<Match>,
    log: Seq<FidoAnswer>,
    at: int,
    n: int,
    j: int,
    part: spec_fn(Seq<FidoAnswer>) -> FidoStage<Seq<Match>>,
    more: spec_fn(Seq<FidoAnswer>) -> FidoStage<Seq<Match>>,
    kept: Seq<usize>,
    r: Seq<Match>,
)
    requires
        devices.len() > 0,
        tokens.len() <= usize::MAX,
        0 <= at <= n <= j <= log.len(),
        n == at + tokens.len(),
        forall|m: int| n <= m <= log.len() ==> part(#[trigger] log.take(m)) == more(log.take(m)),
        forall|y: int|
            0 <= y < tokens.len() ==> part(log.take(at + y)) == FidoStage::<Seq<Match>>::Ask(
                FidoAsk::Probe { device: devices[0], cred_id: (#[trigger] tokens[y]).cred_id },
            ),
        forall|x: usize| #[trigger]
            kept.contains(x) <==> x < tokens.len() && may_hold(log[at + x - 0]),
        ({
            let next = if kept.len() == 0 {
                found
            } else {
                found.push((devices[0], kept))
            };
            &&& next.len() <= r.len()
            &&& r.take(next.len() as int) == next
        }),
        forall|d: usize, c: Seq<u8>| #[trigger]
            held_in(more, log, n, j, d, c) ==> matched_by(r, tokens, d, c),
    ensures
        forall|d: usize, c: Seq<u8>| #[trigger]
            held_in(part, log, at, j, d, c) ==> matched_by(r, tokens, d, c),
{
    let next = if kept.len() == 0 {
        found
    } else {
        found.push((devices[0], kept))
    };
    assert forall|d: usize, c: Seq<u8>| #[trigger]
        held_in(part, log, at, j, d, c) implies matched_by(r, tokens, d, c) by {
        let k = choose|k: int|
            at <= k < j && #[trigger] part(log.take(k)) == FidoStage::<Seq<Match>>::Ask(
                FidoAsk::Probe { device: d, cred_id: c },
            ) && may_hold(log[k]);
        if k < n {
            let x = (k - at) as usize;
            assert(tokens[x as int].cred_id == c && devices[0] == d) by {
                assert(log.take(at + x as int) == log.take(k));
                assert(part(log.take(at + x as int)) == FidoStage::<Seq<Match>>::Ask(
                    FidoAsk::Probe { device: devices[0], cred_id: tokens[x as int].cred_id },
                ));
            }
            assert(kept.contains(x));
            let y = choose|y: int| 0 <= y < kept.len() && kept[y] == x;
            let i = found.len() as int;
            assert(r.take(next.len() as int)[i] == r[i]);
            assert(r[i] == (devices[0], kept));
            assert(r[i].1[y] == x);
        } else {
            assert(more(log.take(k)) == part(log.take(k)));
            assert(held_in(more, log, n, j, d, c));
        }
    }
}

proof fn lemma_pairs_probed(
    devices: Seq<usize>,
    tokens: Seq<Fido2Ref>,
    log: Seq<FidoAnswer>,
    at: int,
    n: int,
    j: int,
    part: spec_fn(Seq<FidoAnswer>) -> FidoStage<Seq<Match>>,
    more: spec_fn(Seq<FidoAnswer>) -> FidoStage<Seq<Match>>,
)
    requires
        devices.len() > 0,
        0 <= at <= n <= j <= log.len(),
        n == at + tokens.len(),
        forall|m: int| n <= m <= log.len() ==> part(#[trigger] log.take(m)) == more(log.take(m)),
        forall|y: int|
            0 <= y < tokens.len() ==> part(log.take(at + y)) == FidoStage::<Seq<Match>>::Ask(
                FidoAsk::Probe { device: devices[0], cred_id: (#[trigger] tokens[y]).cred_id },
            ),
        all_probed(more, log, n, j, devices.skip(1), tokens),
    ensures
        all_probed(part, log, at, j, devices, tokens),
{
    assert forall|i: int, y: int|
        0 <= i < devices.len() && 0 <= y < tokens.len() implies asked_in(
        part,
        log,
        at,
        j,
        FidoAsk::Probe { device: #[trigger] devices[i], cred_id: (#[trigger] tokens[y]).cred_id },
    ) by {
        if i == 0 {
            assert(part(log.take(at + y)) == FidoStage::<Seq<Match>>::Ask(
                FidoAsk::Probe { device: devices[0], cred_id: tokens[y].cred_id },
            ));
        } else {
            assert(devices.skip(1)[i - 1] == devices[i]);
            lemma_asked_wider(
                more,
                part,
                log,
                n,
                at,
                j,
                j,
                FidoAsk::Probe { device: devices[i], cred_id: tokens[y].cred_id },
            );
        }
    }
}

/// Whether one of the tokens has that credential and that salt.
pub open spec fn is_token(tokens: Seq<Fido2Ref>, cred_id: Seq<u8>, salt: Seq<u8>) -> bool {
    exists|j: int|
        0 <= j < tokens.len() && (#[trigger] tokens[j]).cred_id == cred_id && tokens[j].salt
            == salt
}

/// Whether the answer gives no secret.
pub open spec fn gives_nothing(answer: FidoAnswer) -> bool {
    forall|s: Seq<u8>| s.len() > 0 ==> !#[trigger] yields(answer, s)
}

/// Whether the PIN has a NUL in it, which no device can be handed.
pub open spec fn has_nul(pin: Option<Seq<char>>) -> bool {
    pin is Some && encode_utf8(pin->Some_0).contains(0u8)
}

spec fn secret_ask(device: usize, token: Fido2Ref, pin: Option<Seq<char>>) -> FidoAsk {
    FidoAsk::HmacSecret {
        device,
        cred_id: token.cred_id,
        salt: token.salt,
        pin: match pin_bytes(pin) {
            Ok(q) => q,
            Err(_) => None,
        },
    }
}

spec fn derives(
    device: usize,
    tokens: Seq<Fido2Ref>,
    numbers: Seq<usize>,
    pin: Option<Seq<char>>,
    last: Seq<char>,
    log: Seq<FidoAnswer>,
    at: int,
) -> bool {
    let part = |l: Seq<FidoAnswer>| secrets_stage(device, tokens, numbers, pin, last, l, at);
    &&& steady(part, log, at)
    &&& match part(log) {
        FidoStage::Ask(a) => exists|i: int|
            0 <= i < numbers.len() && (#[trigger] numbers[i]) < tokens.len() && a == secret_ask(
                device,
                tokens[numbers[i] as int],
                pin,
            ),
        FidoStage::Done(s, n) => {
            &&& at < n && s.len() > 0
            &&& part(log.take(n - 1)) is Ask
            &&& yields(log[n - 1], s)
        },
        FidoStage::Fail(_, n) => {
            ||| has_nul(pin)
            ||| exists|i: int| 0 <= i < numbers.len() && #[trigger] numbers[i] >= tokens.len()
            ||| n == at + numbers.len() && forall|i: int|
                0 <= i < numbers.len() ==> gives_nothing(log[at + i]) && part(log.take(at + i))
                    == FidoStage::<Seq<u8>>::Ask(
                    secret_ask(device, tokens[#[trigger] numbers[i] as int], pin),
                )
        },
    }
}

#[verifier::spinoff_prover]
#[verifier::rlimit(60)]
proof fn lemma_derives(
    device: usize,
    tokens: Seq<Fido2Ref>,
    numbers: Seq<usize>,
    pin: Option<Seq<char>>,
    last: Seq<char>,
    log: Seq<FidoAnswer>,
    at: int,
)
    requires
        0 <= at <= log.len(),
        !has_nul(pin),
    ensures
        derives(device, tokens, numbers, pin, last, log, at),
    decreases numbers.len(),
{
    let part = |l: Seq<FidoAnswer>| secrets_stage(device, tokens, numbers, pin, last, l, at);
    if numbers.len() == 0 || numbers[0] >= tokens.len() {
        assert forall|m: int| at <= m <= log.len() implies part(#[trigger] log.take(m)) == part(
            log,
        ) by {}
    } else {
        let token = tokens[numbers[0] as int];
        assert(part(log.take(at)) == FidoStage::<Seq<u8>>::Ask(secret_ask(device, token, pin)));
        if at < log.len() {
            assert(forall|m: int| at < m <= log.len() ==> #[trigger] log.take(m)[at] == log[at]);
            match hmac_stage(device, token.cred_id, token.salt, pin, log, at) {
                FidoStage::Ask(_) => {},
                FidoStage::Done(s, n) => {
                    assert forall|m: int| at < m <= log.len() implies part(#[trigger] log.take(m))
                        == part(log) by {}
                },
                FidoStage::Fail(e, _) => {
                    let rest = numbers.skip(1);
                    let more = |l: Seq<FidoAnswer>|
                        secrets_stage(device, tokens, rest, pin, e, l, at + 1);
                    lemma_derives(device, tokens, rest, pin, e, log, at + 1);
                    assert forall|m: int| at < m <= log.len() implies part(#[trigger] log.take(m))
                        == more(log.take(m)) by {}
                    assert(part(log) == more(log));
                    match more(log) {
                        FidoStage::Ask(a) => {
                            let i = choose|i: int|
                                0 <= i < rest.len() && (#[trigger] rest[i]) < tokens.len() && a
                                    == secret_ask(device, tokens[rest[i] as int], pin);
                            assert(numbers[i + 1] == rest[i]);
                        },
                        FidoStage::Done(s, n) => {
                            lemma_steps_end(more, part, log, at, at + 1, n);
                            assert(part(log.take(n - 1)) == more(log.take(n - 1)));
                        },
                        FidoStage::Fail(_, n) => {
                            lemma_steps_end(more, part, log, at, at + 1, n);
                            if exists|i: int|
                                0 <= i < rest.len() && #[trigger] rest[i] >= tokens.len() {
                                let i = choose|i: int|
                                    0 <= i < rest.len() && #[trigger] rest[i] >= tokens.len();
                                assert(numbers[i + 1] == rest[i]);
                            } else {
                                assert forall|i: int| 0 <= i < numbers.len() implies gives_nothing(
                                    log[at + i],
                                ) && part(log.take(at + i)) == FidoStage::<Seq<u8>>::Ask(
                                    secret_ask(device, tokens[#[trigger] numbers[i] as int], pin),
                                ) by {
                                    if i > 0 {
                                        assert(rest[i - 1] == numbers[i]);
                                        assert(at + i == at + 1 + (i - 1));
                                        assert(part(log.take(at + i)) == more(log.take(at + i)));
                                    }
                                }
                            }
                        },
                    }
                },
            }
        }
    }
}

proof fn lemma_nul_fails(
    device: usize,
    tokens: Seq<Fido2Ref>,
    numbers: Seq<usize>,
    pin: Option<Seq<char>>,
    last: Seq<char>,
    log: Seq<FidoAnswer>,
    at: int,
)
    requires
        has_nul(pin),
    ensures
        secrets_stage(device, tokens, numbers, pin, last, log, at) matches FidoStage::Fail(_, n)
            && n == at,
    decreases numbers.len(),
{
    assert(pin_bytes(pin) is Err) by {
        if pin->Some_0.len() == 0 {
            assert(encode_utf8(pin->Some_0).len() == 0) by {
                reveal_with_fuel(encode_utf8, 1);
            }
        }
    }
    if numbers.len() > 0 && numbers[0] < tokens.len() {
        let token = tokens[numbers[0] as int];
        let e = pin_bytes(pin)->Err_0;
        assert(hmac_stage(device, token.cred_id, token.salt, pin, log, at) == FidoStage::<
            Seq<u8>,
        >::Fail(e, at));
        lemma_nul_fails(device, tokens, numbers.skip(1), pin, e, log, at);
    }
}

proof fn lemma_places_once(present: Seq<bool>)
    requires
        present.len() <= usize::MAX,
    ensures
        places(present).no_duplicates(),
    decreases present.len(),
{
    if present.len() > 0 {
        let rest = present.drop_last();
        lemma_places_once(rest);
        lemma_places(rest);
        let d = (present.len() - 1) as usize;
        assert(!places(rest).contains(d));
        let p = places(present);
        assert forall|i: int, j: int| 0 <= i < p.len() && 0 <= j < p.len() && i != j implies p[i]
            != p[j] by {
            if i < places(rest).len() {
                assert(places(rest).contains(places(rest)[i]));
            }
            if j < places(rest).len() {
                assert(places(rest).contains(places(rest)[j]));
            }
        }
    }
}

proof fn lemma_push_once(a: Seq<usize>, d: usize)
    requires
        a.no_duplicates(),
        !a.contains(d),
    ensures
        a.push(d).no_duplicates(),
{
    let p = a.push(d);
    assert forall|i: int, j: int| 0 <= i < p.len() && 0 <= j < p.len() && i != j implies p[i]
        != p[j] by {
        if i < a.len() {
            assert(a.contains(a[i]));
        }
        if j < a.len() {
            assert(a.contains(a[j]));
        }
    }
}

proof fn lemma_skip_once(a: Seq<usize>)
    requires
        a.len() > 0,
        a.no_duplicates(),
    ensures
        a.skip(1).no_duplicates(),
        !a.skip(1).contains(a[0]),
        forall|d: usize| a.skip(1).contains(d) ==> #[trigger] a.contains(d),
{
    assert forall|i: int, j: int|
        0 <= i < a.skip(1).len() && 0 <= j < a.skip(1).len() && i != j implies a.skip(1)[i]
        != a.skip(1)[j] by {
        assert(a[i + 1] != a[j + 1]);
    }
    assert forall|d: usize| a.skip(1).contains(d) implies #[trigger] a.contains(d) by {
        let i = choose|i: int| 0 <= i < a.skip(1).len() && a.skip(1)[i] == d;
        assert(a[i + 1] == d);
    }
    if a.skip(1).contains(a[0]) {
        let i = choose|i: int| 0 <= i < a.skip(1).len() && a.skip(1)[i] == a[0];
        assert(a[i + 1] == a[0]);
    }
}

proof fn lemma_opened_once(listed: Seq<usize>, opened: Seq<usize>, log: Seq<FidoAnswer>, at: int)
    requires
        listed.no_duplicates(),
        opened.no_duplicates(),
        forall|d: usize| #[trigger] opened.contains(d) ==> !listed.contains(d),
    ensures
        open_stage(listed, opened, log, at) matches FidoStage::Done(r, _) ==> r.no_duplicates(),
    decreases listed.len(),
{
    if listed.len() > 0 && at < log.len() && log[at] is Opened {
        lemma_skip_once(listed);
        assert(listed.contains(listed[0]));
        let next = if log[at]->Opened_0 == Some(FIDO_OK) {
            opened.push(listed[0])
        } else {
            opened
        };
        if log[at]->Opened_0 == Some(FIDO_OK) {
            lemma_push_once(opened, listed[0]);
        }
        assert forall|d: usize| #[trigger] next.contains(d) implies !listed.skip(1).contains(d) by {
            let i = choose|i: int| 0 <= i < next.len() && next[i] == d;
            if i < opened.len() {
                assert(opened[i] == d);
                assert(opened.contains(d));
            }
            assert(listed.contains(d) || !listed.skip(1).contains(d));
        }
        lemma_opened_once(listed.skip(1), next, log, at + 1);
    }
}

proof fn lemma_matched_once(
    devices: Seq<usize>,
    tokens: Seq<Fido2Ref>,
    found: Seq<Match>,
    log: Seq<FidoAnswer>,
    at: int,
)
    requires
        devices.no_duplicates(),
        match_devices_of(found).no_duplicates(),
        forall|d: usize| #[trigger] match_devices_of(found).contains(d) ==> !devices.contains(d),
    ensures
        matches_stage(devices, tokens, found, log, at) matches FidoStage::Done(r, _)
            ==> match_devices_of(r).no_duplicates(),
    decreases devices.len(),
{
    if devices.len() > 0 {
        match matching_stage(devices[0], tokens, 0, seq![], log, at) {
            FidoStage::Done(kept, n) => {
                lemma_skip_once(devices);
                assert(devices.contains(devices[0]));
                let next = if kept.len() == 0 {
                    found
                } else {
                    found.push((devices[0], kept))
                };
                let old_ones = match_devices_of(found);
                let ones = match_devices_of(next);
                if kept.len() > 0 {
                    lemma_push_once(old_ones, devices[0]);
                    assert(ones =~= old_ones.push(devices[0]));
                }
                assert forall|d: usize| #[trigger] ones.contains(d) implies !devices.skip(
                    1,
                ).contains(d) by {
                    let i = choose|i: int| 0 <= i < ones.len() && ones[i] == d;
                    if i < old_ones.len() {
                        assert(old_ones[i] == d);
                        assert(old_ones.contains(d));
                    }
                    assert(devices.contains(d) || !devices.skip(1).contains(d));
                }
                lemma_matched_once(devices.skip(1), tokens, next, log, n);
            },
            _ => {},
        }
    }
}

// ---------------------------------------------------------------------------
// The laws
// ---------------------------------------------------------------------------

spec fn given(pin: Seq<char>) -> Option<Seq<char>> {
    if pin.len() == 0 {
        None
    } else {
        Some(pin)
    }
}

spec fn after(
    tokens: Seq<Fido2Ref>,
    pin: Seq<char>,
    found: Seq<Match>,
    n: int,
    log: Seq<FidoAnswer>,
) -> FidoStage<Seq<u8>> {
    match select_stage(found, log, n) {
        FidoStage::Ask(a) => FidoStage::Ask(a),
        FidoStage::Fail(e, m) => FidoStage::Fail(e, m),
        FidoStage::Done((device, numbers), m) => if m >= log.len() {
            FidoStage::Ask(FidoAsk::SetTimeout { device, milliseconds: UNLOCK_TIMEOUT })
        } else {
            secrets_stage(
                device,
                tokens,
                numbers,
                if pin.len() == 0 {
                    None
                } else {
                    Some(pin)
                },
                "unknown error"@,
                log,
                m + 1,
            )
        },
    }
}

proof fn lemma_after_asks(
    tokens: Seq<Fido2Ref>,
    pin: Seq<char>,
    found: Seq<Match>,
    n: int,
    log: Seq<FidoAnswer>,
)
    requires
        0 <= n <= log.len(),
    ensures
        after(tokens, pin, found, n, log) matches FidoStage::Ask(a) ==> a is TouchSelect
            || a is SetTimeout || a is HmacSecret,
{
    match select_stage(found, log, n) {
        FidoStage::Done((device, numbers), m) => {
            if m < log.len() {
                if has_nul(given(pin)) {
                    lemma_nul_fails(
                        device,
                        tokens,
                        numbers,
                        given(pin),
                        "unknown error"@,
                        log,
                        m + 1,
                    );
                } else {
                    lemma_derives(
                        device,
                        tokens,
                        numbers,
                        given(pin),
                        "unknown error"@,
                        log,
                        m + 1,
                    );
                }
            }
        },
        _ => {},
    }
}

/// The course up to the point where the devices are open.
proof fn lemma_opening(
    tokens: Seq<Fido2Ref>,
    pin: Seq<char>,
    log: Seq<FidoAnswer>,
    listed: Seq<usize>,
    n: int,
)
    requires
        tokens.len() > 0,
        log.len() > 0,
        list_stage(log, 0) == FidoStage::<Seq<usize>>::Done(listed, 1),
        match open_stage(listed, seq![], log, 1) {
            FidoStage::Ask(_) => n == log.len(),
            FidoStage::Done(_, m) => n == m,
            FidoStage::Fail(_, m) => n == m,
        },
    ensures
        ({
            let op = |l: Seq<FidoAnswer>| open_stage(listed, seq![], l, 1);
            let whole = |l: Seq<FidoAnswer>| unlock_stage(tokens, pin, l);
            &&& 1 <= n <= log.len()
            &&& whole(log.take(0)) == FidoStage::<Seq<u8>>::Ask(FidoAsk::List)
            &&& forall|k: int|
                1 <= k < n ==> op(#[trigger] log.take(k)) is Ask && whole(log.take(k))
                    == FidoStage::<Seq<u8>>::Ask(op(log.take(k))->Ask_0) && op(
                    log.take(k),
                )->Ask_0 is OpenListed
        }),
{
    let op = |l: Seq<FidoAnswer>| open_stage(listed, seq![], l, 1);
    let whole = |l: Seq<FidoAnswer>| unlock_stage(tokens, pin, l);
    lemma_opens(listed, seq![], log, 1);
    assert forall|k: int| 1 <= k < n implies op(#[trigger] log.take(k)) is Ask && whole(log.take(k))
        == FidoStage::<Seq<u8>>::Ask(op(log.take(k))->Ask_0) && op(
        log.take(k),
    )->Ask_0 is OpenListed by {
        assert(log.take(k)[0] == log[0]);
        assert(list_stage(log.take(k), 0) == list_stage(log, 0));
        lemma_opens(listed, seq![], log.take(k), 1);
        if op(log) is Ask {
            lemma_open_asks_on(listed, seq![], log, 1, k);
        }
    }
}

/// While the devices are opened, a shorter log is one of the same course.
proof fn lemma_open_asks_on(
    listed: Seq<usize>,
    opened: Seq<usize>,
    log: Seq<FidoAnswer>,
    at: int,
    k: int,
)
    requires
        0 <= at <= k <= log.len(),
        open_stage(listed, opened, log, at) is Ask,
    ensures
        open_stage(listed, opened, log.take(k), at) is Ask,
    decreases listed.len(),
{
    if listed.len() > 0 && at < k {
        assert(log.take(k)[at] == log[at]);
        let next = if log[at]->Opened_0 == Some(FIDO_OK) {
            opened.push(listed[0])
        } else {
            opened
        };
        lemma_open_asks_on(listed.skip(1), next, log, at + 1, k);
    }
}

proof fn lemma_opened_lifts(
    tokens: Seq<Fido2Ref>,
    pin: Seq<char>,
    log: Seq<FidoAnswer>,
    listed: Seq<usize>,
    n: int,
    j: int,
    d: usize,
)
    requires
        1 <= n <= j <= log.len(),
        ({
            let op = |l: Seq<FidoAnswer>| open_stage(listed, seq![], l, 1);
            let whole = |l: Seq<FidoAnswer>| unlock_stage(tokens, pin, l);
            &&& whole(log.take(0)) == FidoStage::<Seq<u8>>::Ask(FidoAsk::List)
            &&& forall|k: int|
                1 <= k < n ==> op(#[trigger] log.take(k)) is Ask && whole(log.take(k))
                    == FidoStage::<Seq<u8>>::Ask(op(log.take(k))->Ask_0)
            &&& forall|k: int|
                n <= k < j ==> (whole(#[trigger] log.take(k)) matches FidoStage::Ask(a) ==> !(
                a is OpenListed))
        }),
    ensures
        opened_in(|l: Seq<FidoAnswer>| unlock_stage(tokens, pin, l), log, 0, j, d) <==> opened_in(
            |l: Seq<FidoAnswer>| open_stage(listed, seq![], l, 1),
            log,
            1,
            n,
            d,
        ),
{
    let op = |l: Seq<FidoAnswer>| open_stage(listed, seq![], l, 1);
    let whole = |l: Seq<FidoAnswer>| unlock_stage(tokens, pin, l);
    if opened_in(whole, log, 0, j, d) {
        let k = choose|k: int|
            0 <= k < j && #[trigger] whole(log.take(k)) == FidoStage::<Seq<u8>>::Ask(
                FidoAsk::OpenListed { device: d },
            ) && log[k] == FidoAnswer::Opened(Some(FIDO_OK));
        assert(k != 0 && k < n);
        assert(op(log.take(k)) == FidoStage::<Seq<usize>>::Ask(FidoAsk::OpenListed { device: d }));
    }
    if opened_in(op, log, 1, n, d) {
        let k = choose|k: int|
            1 <= k < n && #[trigger] op(log.take(k)) == FidoStage::<Seq<usize>>::Ask(
                FidoAsk::OpenListed { device: d },
            ) && log[k] == FidoAnswer::Opened(Some(FIDO_OK));
        assert(whole(log.take(k)) == FidoStage::<Seq<u8>>::Ask(FidoAsk::OpenListed { device: d }));
    }
}

/// The course while the devices are probed, and from there on.
proof fn lemma_probing(
    tokens: Seq<Fido2Ref>,
    pin: Seq<char>,
    log: Seq<FidoAnswer>,
    listed: Seq<usize>,
    opened: Seq<usize>,
    n: int,
    j: int,
)
    requires
        0 < tokens.len() <= usize::MAX,
        log.len() > 0,
        list_stage(log, 0) == FidoStage::<Seq<usize>>::Done(listed, 1),
        open_stage(listed, seq![], log, 1) == FidoStage::<Seq<usize>>::Done(opened, n),
        match matches_stage(opened, tokens, seq![], log, n) {
            FidoStage::Ask(_) => false,
            FidoStage::Done(_, m) => j == m,
            FidoStage::Fail(_, m) => j == m,
        },
    ensures
        ({
            let mp = |l: Seq<FidoAnswer>| matches_stage(opened, tokens, seq![], l, n);
            let whole = |l: Seq<FidoAnswer>| unlock_stage(tokens, pin, l);
            &&& 1 <= n <= j <= log.len()
            &&& forall|k: int|
                n <= k < j ==> mp(#[trigger] log.take(k)) is Ask && whole(log.take(k))
                    == FidoStage::<Seq<u8>>::Ask(mp(log.take(k))->Ask_0) && mp(
                    log.take(k),
                )->Ask_0 is Probe
            &&& mp(log) matches FidoStage::Done(found, _) ==> forall|m: int|
                j <= m <= log.len() ==> whole(#[trigger] log.take(m)) == after(
                    tokens,
                    pin,
                    found,
                    j,
                    log.take(m),
                )
        }),
{
    let op = |l: Seq<FidoAnswer>| open_stage(listed, seq![], l, 1);
    let mp = |l: Seq<FidoAnswer>| matches_stage(opened, tokens, seq![], l, n);
    let whole = |l: Seq<FidoAnswer>| unlock_stage(tokens, pin, l);
    lemma_opens(listed, seq![], log, 1);
    lemma_pairs(opened, tokens, seq![], log, n);
    assert forall|k: int| n <= k < j implies mp(#[trigger] log.take(k)) is Ask && whole(log.take(k))
        == FidoStage::<Seq<u8>>::Ask(mp(log.take(k))->Ask_0) && mp(
        log.take(k),
    )->Ask_0 is Probe by {
        assert(log.take(k)[0] == log[0]);
        assert(list_stage(log.take(k), 0) == list_stage(log, 0));
        assert(op(log.take(k)) == op(log));
        lemma_pairs(opened, tokens, seq![], log.take(k), n);
    }
    match mp(log) {
        FidoStage::Done(found, _) => {
            assert forall|m: int| j <= m <= log.len() implies whole(#[trigger] log.take(m))
                == after(tokens, pin, found, j, log.take(m)) by {
                assert(log.take(m)[0] == log[0]);
                assert(list_stage(log.take(m), 0) == list_stage(log, 0));
                assert(op(log.take(m)) == op(log));
                assert(mp(log.take(m)) == mp(log));
            }
        },
        _ => {},
    }
}

proof fn lemma_held_lifts(
    tokens: Seq<Fido2Ref>,
    pin: Seq<char>,
    log: Seq<FidoAnswer>,
    opened: Seq<usize>,
    n: int,
    j: int,
    e: int,
    d: usize,
    c: Seq<u8>,
)
    requires
        1 <= n <= j <= e <= log.len(),
        ({
            let mp = |l: Seq<FidoAnswer>| matches_stage(opened, tokens, seq![], l, n);
            let whole = |l: Seq<FidoAnswer>| unlock_stage(tokens, pin, l);
            &&& forall|k: int|
                0 <= k < n ==> (whole(#[trigger] log.take(k)) matches FidoStage::Ask(a) ==> !(
                a is Probe))
            &&& forall|k: int|
                n <= k < j ==> mp(#[trigger] log.take(k)) is Ask && whole(log.take(k))
                    == FidoStage::<Seq<u8>>::Ask(mp(log.take(k))->Ask_0)
            &&& forall|k: int|
                j <= k < e ==> (whole(#[trigger] log.take(k)) matches FidoStage::Ask(a) ==> !(
                a is Probe))
        }),
    ensures
        held_in(|l: Seq<FidoAnswer>| unlock_stage(tokens, pin, l), log, 0, e, d, c) <==> held_in(
            |l: Seq<FidoAnswer>| matches_stage(opened, tokens, seq![], l, n),
            log,
            n,
            j,
            d,
            c,
        ),
{
    let mp = |l: Seq<FidoAnswer>| matches_stage(opened, tokens, seq![], l, n);
    let whole = |l: Seq<FidoAnswer>| unlock_stage(tokens, pin, l);
    let ask = FidoAsk::Probe { device: d, cred_id: c };
    if held_in(whole, log, 0, e, d, c) {
        let k = choose|k: int|
            0 <= k < e && #[trigger] whole(log.take(k)) == FidoStage::<Seq<u8>>::Ask(
                FidoAsk::Probe { device: d, cred_id: c },
            ) && may_hold(log[k]);
        assert(n <= k < j);
        assert(mp(log.take(k)) == FidoStage::<Seq<Match>>::Ask(ask));
    }
    if held_in(mp, log, n, j, d, c) {
        let k = choose|k: int|
            n <= k < j && #[trigger] mp(log.take(k)) == FidoStage::<Seq<Match>>::Ask(
                FidoAsk::Probe { device: d, cred_id: c },
            ) && may_hold(log[k]);
        assert(whole(log.take(k)) == FidoStage::<Seq<u8>>::Ask(ask));
    }
}

/// Whether the user touched the device when `part` had the user pick one.
pub open spec fn touched<T>(
    part: spec_fn(Seq<FidoAnswer>) -> FidoStage<T>,
    log: Seq<FidoAnswer>,
    k: int,
    device: usize,
) -> bool {
    &&& 0 <= k < log.len()
    &&& part(log.take(k)) matches FidoStage::Ask(FidoAsk::TouchSelect { devices })
    &&& log[k] matches FidoAnswer::Touched(place)
    &&& place < devices.len()
    &&& devices[place as int] == device
}

/// Whether the device is the one to use: the user touched it, or no other device may hold
/// the credential of one of the tokens.
pub open spec fn chosen<T>(
    part: spec_fn(Seq<FidoAnswer>) -> FidoStage<T>,
    log: Seq<FidoAnswer>,
    n: int,
    device: usize,
) -> bool {
    ||| exists|k: int| k < n && #[trigger] touched(part, log, k, device)
    ||| {
        &&& exists|c: Seq<u8>| #[trigger] held_in(part, log, 0, n, device, c)
        &&& forall|d: usize, c: Seq<u8>| #[trigger] held_in(part, log, 0, n, d, c) ==> d == device
    }
}

/// What may be asked of the devices to unlock with one of the tokens, when that succeeds,
/// and when it does not.
pub open spec fn uses_devices(tokens: Seq<Fido2Ref>, pin: Seq<char>, log: Seq<FidoAnswer>) -> bool {
    let part = |l: Seq<FidoAnswer>| unlock_stage(tokens, pin, l);
    let all = log.len() as int;
    match part(log) {
        FidoStage::Ask(a) => match a {
            FidoAsk::List => all == 0,
            FidoAsk::OpenListed { device } => all > 0 && lists(log[0], device),
            FidoAsk::Probe { device, cred_id } => {
                opened_in(part, log, 0, all, device) && is_credential(tokens, cred_id)
            },
            FidoAsk::TouchSelect { devices } => {
                &&& devices.len() > 1
                &&& forall|d: usize| #[trigger]
                    devices.contains(d) <==> exists|c: Seq<u8>| #[trigger]
                        held_in(part, log, 0, all, d, c)
            },
            FidoAsk::SetTimeout { device, milliseconds } => {
                milliseconds == 30000 && chosen(part, log, all, device)
            },
            FidoAsk::HmacSecret { device, cred_id, salt, pin: sent } => {
                &&& chosen(part, log, all, device)
                &&& held_in(part, log, 0, all, device, cred_id)
                &&& is_token(tokens, cred_id, salt)
                &&& sends_pin(Some(pin), sent)
            },
            _ => false,
        },
        FidoStage::Done(secret, n) => {
            &&& 0 < n <= all && secret.len() > 0
            &&& part(log.take(n - 1)) matches FidoStage::Ask(a) && a is HmacSecret
            &&& yields(log[n - 1], secret)
        },
        FidoStage::Fail(e, n) => {
            &&& 0 <= n <= all
            &&& ({
                ||| tokens.len() == 0 && e == "No systemd-fido2 token found"@
                ||| ends_amiss(part, log, n)
                ||| n > 0 && e == if log[0] == FidoAnswer::Listed(None) {
                    "fido_dev_info_new failed"@
                } else {
                    "No FIDO2 device found"@
                } && forall|d: usize| !#[trigger] lists(log[0], d)
                ||| e == "No FIDO2 device could be opened"@ && none_opens(part, log, n)
                ||| e == "No matching FIDO2 device/credential found"@ && none_holds(
                    part,
                    tokens,
                    log,
                    n,
                )
                ||| has_nul(Some(pin))
                ||| none_yields(part, log, n)
            })
        },
    }
}

/// Whether all devices that were listed were to be opened, and none was.
pub open spec fn none_opens<T>(
    part: spec_fn(Seq<FidoAnswer>) -> FidoStage<T>,
    log: Seq<FidoAnswer>,
    n: int,
) -> bool {
    &&& n > 0
    &&& forall|d: usize| #[trigger]
        lists(log[0], d) ==> asked_in(part, log, 0, n, FidoAsk::OpenListed { device: d })
    &&& forall|d: usize| !#[trigger] opened_in(part, log, 0, n, d)
}

/// Whether all devices that were opened were probed for all the tokens, and none may hold
/// the credential of one.
pub open spec fn none_holds<T>(
    part: spec_fn(Seq<FidoAnswer>) -> FidoStage<T>,
    tokens: Seq<Fido2Ref>,
    log: Seq<FidoAnswer>,
    n: int,
) -> bool {
    &&& forall|d: usize, j: int|
        #[trigger] opened_in(part, log, 0, n, d) && 0 <= j < tokens.len() ==> asked_in(
            part,
            log,
            0,
            n,
            FidoAsk::Probe { device: d, cred_id: (#[trigger] tokens[j]).cred_id },
        )
    &&& forall|d: usize, c: Seq<u8>| !#[trigger] held_in(part, log, 0, n, d, c)
}

/// Whether the chosen device was asked for a secret for each credential that it may hold,
/// and gave none.
pub open spec fn none_yields<T>(
    part: spec_fn(Seq<FidoAnswer>) -> FidoStage<T>,
    log: Seq<FidoAnswer>,
    n: int,
) -> bool {
    exists|device: usize| #[trigger]
        chosen(part, log, n, device) && forall|c: Seq<u8>| #[trigger]
            held_in(part, log, 0, n, device, c) ==> refused_for(part, log, n, device, c)
}

/// Whether the device was asked for the secret of the credential and gave none.
pub open spec fn refused_for<T>(
    part: spec_fn(Seq<FidoAnswer>) -> FidoStage<T>,
    log: Seq<FidoAnswer>,
    n: int,
    device: usize,
    cred_id: Seq<u8>,
) -> bool {
    exists|k: int|
        0 <= k < n && gives_nothing(log[k]) && asks_secret(
            #[trigger] part(log.take(k)),
            device,
            cred_id,
        )
}

/// Whether the device is asked for the secret of the credential.
pub open spec fn asks_secret<T>(stage: FidoStage<T>, device: usize, cred_id: Seq<u8>) -> bool {
    stage matches FidoStage::Ask(a) && a is HmacSecret && a->HmacSecret_device == device
        && a->HmacSecret_cred_id == cred_id
}

/// Unlocking with a FIDO2 token: only devices that were listed are opened, only those that
/// opened are probed, for credentials of the tokens alone, and only the one device that
/// the user touched, or that no other rivals, gets the PIN, with the credential and the
/// salt of one and the same token; what it then yields is the secret. It fails only where
/// no device is left to go on with.
pub proof fn law_fido2_unlock(tokens: Seq<Fido2Ref>, pin: Seq<char>, log: Seq<FidoAnswer>)
    requires
        tokens.len() <= usize::MAX,
    ensures
        uses_devices(tokens, pin, log),
{
    let part = |l: Seq<FidoAnswer>| unlock_stage(tokens, pin, l);
    if tokens.len() > 0 && log.len() > 0 {
        assert(part(log.take(0)) == FidoStage::<Seq<u8>>::Ask(FidoAsk::List));
        match log[0] {
            FidoAnswer::Listed(Some((status, present))) => {
                assert(present.len() == present@.len());
                lemma_places(present@);
                assert forall|d: usize| status == FIDO_OK implies (#[trigger] lists(log[0], d)
                    <==> places(present@).contains(d)) by {
                    assert(places(present@).contains(d) <==> d < present@.len()
                        && present@[d as int]);
                }
                if status == FIDO_OK && places(present@).len() > 0 {
                    lemma_unlock_opening(tokens, pin, log, places(present@));
                } else {
                    assert forall|d: usize| !#[trigger] lists(log[0], d) by {
                        if status == FIDO_OK && lists(log[0], d) {
                            assert(places(present@).contains(d));
                        }
                    }
                }
            },
            FidoAnswer::Listed(None) => {
                assert(forall|d: usize| !#[trigger] lists(log[0], d));
            },
            _ => {},
        }
    }
}

#[verifier::spinoff_prover]
#[verifier::rlimit(60)]
proof fn lemma_unlock_opening(
    tokens: Seq<Fido2Ref>,
    pin: Seq<char>,
    log: Seq<FidoAnswer>,
    listed: Seq<usize>,
)
    requires
        0 < tokens.len() <= usize::MAX,
        log.len() > 0,
        list_stage(log, 0) == FidoStage::<Seq<usize>>::Done(listed, 1),
        forall|d: usize| #[trigger] lists(log[0], d) <==> listed.contains(d),
    ensures
        uses_devices(tokens, pin, log),
{
    let part = |l: Seq<FidoAnswer>| unlock_stage(tokens, pin, l);
    let op = |l: Seq<FidoAnswer>| open_stage(listed, seq![], l, 1);
    lemma_opens(listed, seq![], log, 1);
    match op(log) {
        FidoStage::Ask(a) => {},
        FidoStage::Done(opened, n) => {
            lemma_opening(tokens, pin, log, listed, n);
            lemma_unlock_probing(tokens, pin, log, listed, opened, n);
        },
        FidoStage::Fail(_, n) => {
            lemma_opening(tokens, pin, log, listed, n);
            if 1 < n && ends_amiss(op, log, n) {
                assert(op(log.take(n - 1)) is Ask);
                assert(ends_amiss(part, log, n));
            } else {
                assert forall|d: usize| #[trigger] lists(log[0], d) implies asked_in(
                    part,
                    log,
                    0,
                    n,
                    FidoAsk::OpenListed { device: d },
                ) by {
                    assert(listed.contains(d));
                    let k = choose|k: int|
                        1 <= k < n && #[trigger] op(log.take(k)) == FidoStage::<Seq<usize>>::Ask(
                            FidoAsk::OpenListed { device: d },
                        );
                    assert(part(log.take(k)) == FidoStage::<Seq<u8>>::Ask(
                        FidoAsk::OpenListed { device: d },
                    ));
                }
                assert forall|d: usize| !#[trigger] opened_in(part, log, 0, n, d) by {
                    if opened_in(part, log, 0, n, d) {
                        let k = choose|k: int|
                            0 <= k < n && #[trigger] part(log.take(k)) == FidoStage::<Seq<u8>>::Ask(
                                FidoAsk::OpenListed { device: d },
                            ) && log[k] == FidoAnswer::Opened(Some(FIDO_OK));
                        assert(k != 0);
                    }
                }
                assert(none_opens(part, log, n));
            }
        },
    }
}

proof fn lemma_opened_from(
    listed: Seq<usize>,
    none: Seq<usize>,
    log: Seq<FidoAnswer>,
    at: int,
    opened: Seq<usize>,
    n: int,
    d: usize,
)
    requires
        0 <= at <= log.len(),
        none.len() == 0,
        open_stage(listed, none, log, at) == FidoStage::<Seq<usize>>::Done(opened, n),
        opened.contains(d),
    ensures
        exists|k: int|
            at <= k < n && open_stage(listed, none, #[trigger] log.take(k), at) == FidoStage::<
                Seq<usize>,
            >::Ask(FidoAsk::OpenListed { device: d }) && log[k] == FidoAnswer::Opened(
                Some(FIDO_OK),
            ),
{
    lemma_opens(listed, none, log, at);
    let part = |l: Seq<FidoAnswer>| open_stage(listed, none, l, at);
    assert(part(log)->Done_0.contains(d));
    assert(opened_in(part, log, at, n, d));
}

#[verifier::spinoff_prover]
#[verifier::rlimit(60)]
proof fn lemma_unlock_probing(
    tokens: Seq<Fido2Ref>,
    pin: Seq<char>,
    log: Seq<FidoAnswer>,
    listed: Seq<usize>,
    opened: Seq<usize>,
    n: int,
)
    requires
        0 < tokens.len() <= usize::MAX,
        log.len() > 0,
        list_stage(log, 0) == FidoStage::<Seq<usize>>::Done(listed, 1),
        open_stage(listed, seq![], log, 1) == FidoStage::<Seq<usize>>::Done(opened, n),
    ensures
        uses_devices(tokens, pin, log),
{
    let part = |l: Seq<FidoAnswer>| unlock_stage(tokens, pin, l);
    let op = |l: Seq<FidoAnswer>| open_stage(listed, seq![], l, 1);
    let mp = |l: Seq<FidoAnswer>| matches_stage(opened, tokens, seq![], l, n);
    lemma_opens(listed, seq![], log, 1);
    lemma_opening(tokens, pin, log, listed, n);
    lemma_pairs(opened, tokens, seq![], log, n);
    match mp(log) {
        FidoStage::Ask(a) => {
            let d = a->Probe_device;
            assert(opened.contains(d));
            lemma_opened_from(listed, seq![], log, 1, opened, n, d);
            let k = choose|k: int|
                1 <= k < n && open_stage(listed, seq![], #[trigger] log.take(k), 1) == FidoStage::<
                    Seq<usize>,
                >::Ask(
                    FidoAsk::OpenListed { device: d },
                ) && log[k] == FidoAnswer::Opened(Some(FIDO_OK));
            assert(part(log.take(k)) == FidoStage::<Seq<u8>>::Ask(
                FidoAsk::OpenListed { device: d },
            ));
            assert(opened_in(part, log, 0, log.len() as int, d));
        },
        FidoStage::Done(found, j) => {
            lemma_unlock_chosen(tokens, pin, log, listed, opened, found, n, j);
        },
        FidoStage::Fail(_, j) => {
            lemma_probing(tokens, pin, log, listed, opened, n, j);
            if n < j && ends_amiss(mp, log, j) {
                assert(mp(log.take(j - 1)) is Ask);
                assert(ends_amiss(part, log, j));
            } else {
                assert forall|d: usize, i: int|
                    #[trigger] opened_in(part, log, 0, j, d) && 0 <= i
                        < tokens.len() implies asked_in(
                    part,
                    log,
                    0,
                    j,
                    FidoAsk::Probe { device: d, cred_id: (#[trigger] tokens[i]).cred_id },
                ) by {
                    lemma_opened_lifts(tokens, pin, log, listed, n, j, d);
                    assert(op(log)->Done_0.contains(d));
                    let x = choose|x: int| 0 <= x < opened.len() && opened[x] == d;
                    let ask = FidoAsk::Probe { device: opened[x], cred_id: tokens[i].cred_id };
                    assert(asked_in(mp, log, n, j, ask));
                    let k = choose|k: int|
                        n <= k < j && #[trigger] mp(log.take(k)) == FidoStage::<Seq<Match>>::Ask(
                            ask,
                        );
                    assert(part(log.take(k)) == FidoStage::<Seq<u8>>::Ask(ask));
                }
                assert forall|d: usize, c: Seq<u8>| !#[trigger] held_in(
                    part,
                    log,
                    0,
                    j,
                    d,
                    c,
                ) by {
                    lemma_held_lifts(tokens, pin, log, opened, n, j, j, d, c);
                }
                assert(none_holds(part, tokens, log, j));
            }
        },
    }
}

#[verifier::spinoff_prover]
#[verifier::rlimit(80)]
proof fn lemma_unlock_chosen(
    tokens: Seq<Fido2Ref>,
    pin: Seq<char>,
    log: Seq<FidoAnswer>,
    listed: Seq<usize>,
    opened: Seq<usize>,
    found: Seq<Match>,
    n: int,
    j: int,
)
    requires
        0 < tokens.len() <= usize::MAX,
        log.len() > 0,
        list_stage(log, 0) == FidoStage::<Seq<usize>>::Done(listed, 1),
        open_stage(listed, seq![], log, 1) == FidoStage::<Seq<usize>>::Done(opened, n),
        matches_stage(opened, tokens, seq![], log, n) == FidoStage::<Seq<Match>>::Done(found, j),
    ensures
        uses_devices(tokens, pin, log),
{
    let part = |l: Seq<FidoAnswer>| unlock_stage(tokens, pin, l);
    let mp = |l: Seq<FidoAnswer>| matches_stage(opened, tokens, seq![], l, n);
    let all = log.len() as int;
    lemma_opening(tokens, pin, log, listed, n);
    lemma_pairs(opened, tokens, seq![], log, n);
    lemma_probing(tokens, pin, log, listed, opened, n, j);
    lemma_found_once(tokens, log, listed, opened, n);
    assert(log.take(all) =~= log);
    assert(part(log) == after(tokens, pin, found, j, log));
    assert forall|k: int| j <= k < all implies (part(#[trigger] log.take(k)) matches FidoStage::Ask(
        a,
    ) ==> !(a is Probe)) by {
        lemma_after_asks(tokens, pin, found, j, log.take(k));
    }
    assert forall|e: int, d: usize, c: Seq<u8>| j <= e <= all implies (#[trigger] held_in(
        part,
        log,
        0,
        e,
        d,
        c,
    ) <==> held_in(mp, log, n, j, d, c)) by {
        lemma_held_lifts(tokens, pin, log, opened, n, j, e, d, c);
    }
    assert forall|i: int| 0 <= i < found.len() implies #[trigger] fits(
        mp,
        log,
        n,
        j,
        tokens,
        found[i],
    ) by {}
    match select_stage(found, log, j) {
        FidoStage::Ask(a) => {
            let devices = match_devices_of(found);
            assert forall|d: usize| #[trigger]
                devices.contains(d) <==> exists|c: Seq<u8>| #[trigger]
                    held_in(part, log, 0, all, d, c) by {
                if devices.contains(d) {
                    let i = choose|i: int| 0 <= i < devices.len() && devices[i] == d;
                    assert(fits(mp, log, n, j, tokens, found[i]));
                    let c = tokens[found[i].1[0] as int].cred_id;
                    assert(held_in(part, log, 0, all, d, c));
                }
                if exists|c: Seq<u8>| #[trigger] held_in(part, log, 0, all, d, c) {
                    let c = choose|c: Seq<u8>| #[trigger] held_in(part, log, 0, all, d, c);
                    assert(matched_by(found, tokens, d, c));
                    let (i, x) = choose|i: int, x: int|
                        0 <= i < found.len() && 0 <= x < found[i].1.len() && (
                        #[trigger] found[i].1[x]) < tokens.len() && found[i].0 == d
                            && tokens[found[i].1[x] as int].cred_id == c;
                    assert(devices[i] == d);
                }
            }
        },
        FidoStage::Fail(_, m) => {
            assert(part(log.take(j)) == after(tokens, pin, found, j, log.take(j)));
            assert(ends_amiss(part, log, m));
        },
        FidoStage::Done((device, numbers), m) => {
            let place = if found.len() == 1 {
                0int
            } else {
                log[j]->Touched_0 as int
            };
            assert(found[place] == (device, numbers));
            assert forall|e: int| m <= e <= all implies #[trigger] chosen(part, log, e, device) by {
                if found.len() == 1 {
                    assert(fits(mp, log, n, j, tokens, found[0]));
                    let c = tokens[numbers[0] as int].cred_id;
                    assert(held_in(part, log, 0, e, device, c));
                    assert forall|d: usize, c: Seq<u8>| #[trigger]
                        held_in(part, log, 0, e, d, c) implies d == device by {
                        assert(matched_by(found, tokens, d, c));
                    }
                } else {
                    assert(part(log.take(j)) == after(tokens, pin, found, j, log.take(j)));
                    assert(touched(part, log, j, device));
                }
            }
            if m < all {
                assert forall|k: int| m < k <= all implies part(#[trigger] log.take(k))
                    == secrets_stage(
                    device,
                    tokens,
                    numbers,
                    given(pin),
                    "unknown error"@,
                    log.take(k),
                    m + 1,
                ) by {
                    if found.len() != 1 {
                        assert(log.take(k)[j] == log[j]);
                    }
                    assert(part(log.take(k)) == after(tokens, pin, found, j, log.take(k)));
                }
                lemma_unlock_secret(tokens, pin, log, found, place, mp, n, j, m);
            }
        },
    }
}

/// No device is found twice.
proof fn lemma_found_once(
    tokens: Seq<Fido2Ref>,
    log: Seq<FidoAnswer>,
    listed: Seq<usize>,
    opened: Seq<usize>,
    n: int,
)
    requires
        log.len() > 0,
        list_stage(log, 0) == FidoStage::<Seq<usize>>::Done(listed, 1),
        open_stage(listed, seq![], log, 1) == FidoStage::<Seq<usize>>::Done(opened, n),
    ensures
        matches_stage(opened, tokens, seq![], log, n) matches FidoStage::Done(found, _)
            ==> match_devices_of(found).no_duplicates(),
{
    match log[0] {
        FidoAnswer::Listed(Some((status, present))) => {
            assert(present.len() == present@.len());
            lemma_places_once(present@);
            lemma_opened_once(listed, seq![], log, 1);
            lemma_matched_once(opened, tokens, seq![], log, n);
        },
        _ => {},
    }
}

#[verifier::spinoff_prover]
#[verifier::rlimit(60)]
proof fn lemma_unlock_secret(
    tokens: Seq<Fido2Ref>,
    pin: Seq<char>,
    log: Seq<FidoAnswer>,
    found: Seq<Match>,
    place: int,
    mp: spec_fn(Seq<FidoAnswer>) -> FidoStage<Seq<Match>>,
    n: int,
    j: int,
    m: int,
)
    requires
        0 < tokens.len() <= usize::MAX,
        0 <= n <= j <= m < log.len(),
        0 <= place < found.len(),
        match_devices_of(found).no_duplicates(),
        ({
            let part = |l: Seq<FidoAnswer>| unlock_stage(tokens, pin, l);
            let all = log.len() as int;
            &&& forall|k: int|
                m < k <= all ==> part(#[trigger] log.take(k)) == secrets_stage(
                    found[place].0,
                    tokens,
                    found[place].1,
                    given(pin),
                    "unknown error"@,
                    log.take(k),
                    m + 1,
                )
            &&& forall|e: int| m <= e <= all ==> #[trigger] chosen(part, log, e, found[place].0)
            &&& forall|e: int, d: usize, c: Seq<u8>|
                j <= e <= all ==> (#[trigger] held_in(part, log, 0, e, d, c) <==> held_in(
                    mp,
                    log,
                    n,
                    j,
                    d,
                    c,
                ))
        }),
        fits(mp, log, n, j, tokens, found[place]),
        forall|d: usize, c: Seq<u8>| #[trigger]
            held_in(mp, log, n, j, d, c) ==> matched_by(found, tokens, d, c),
    ensures
        uses_devices(tokens, pin, log),
{
    let part = |l: Seq<FidoAnswer>| unlock_stage(tokens, pin, l);
    let all = log.len() as int;
    let device = found[place].0;
    let numbers = found[place].1;
    assert(log.take(all) =~= log);
    let sp = |l: Seq<FidoAnswer>|
        secrets_stage(device, tokens, numbers, given(pin), "unknown error"@, l, m + 1);
    assert(part(log.take(all)) == sp(log));
    if has_nul(given(pin)) {
        lemma_nul_fails(device, tokens, numbers, given(pin), "unknown error"@, log, m + 1);
    } else {
        lemma_derives(device, tokens, numbers, given(pin), "unknown error"@, log, m + 1);
        match sp(log) {
            FidoStage::Ask(a) => {
                let i = choose|i: int|
                    0 <= i < numbers.len() && (#[trigger] numbers[i]) < tokens.len() && a
                        == secret_ask(device, tokens[numbers[i] as int], given(pin));
                let token = tokens[numbers[i] as int];
                assert(held_in(mp, log, n, j, device, token.cred_id));
                assert(held_in(part, log, 0, all, device, token.cred_id));
                assert(is_token(tokens, token.cred_id, token.salt));
                assert(chosen(part, log, all, device));
            },
            FidoStage::Done(s, e) => {
                assert(part(log.take(e - 1)) == sp(log.take(e - 1)));
                lemma_derives(
                    device,
                    tokens,
                    numbers,
                    given(pin),
                    "unknown error"@,
                    log.take(e - 1),
                    m + 1,
                );
            },
            FidoStage::Fail(_, e) => {
                assert(chosen(part, log, e, device));
                assert forall|c: Seq<u8>| #[trigger] held_in(
                    part,
                    log,
                    0,
                    e,
                    device,
                    c,
                ) implies refused_for(part, log, e, device, c) by {
                    assert(matched_by(found, tokens, device, c));
                    let (i, x) = choose|i: int, x: int|
                        0 <= i < found.len() && 0 <= x < found[i].1.len() && (
                        #[trigger] found[i].1[x]) < tokens.len() && found[i].0 == device
                            && tokens[found[i].1[x] as int].cred_id == c;
                    assert(match_devices_of(found)[i] == match_devices_of(found)[place]);
                    assert(i == place);
                    let k = m + 1 + x;
                    assert(numbers[x] < tokens.len());
                    assert(sp(log.take(k)) == FidoStage::<Seq<u8>>::Ask(
                        secret_ask(device, tokens[numbers[x] as int], given(pin)),
                    ));
                    assert(part(log.take(k)) == sp(log.take(k)));
                    assert(asks_secret(part(log.take(k)), device, c));
                }
            },
        }
    }
}

/// Whether a device that is asked for a secret by `part` gives the one that goes with the
/// credential and the salt.
pub open spec fn faithful<T>(
    part: spec_fn(Seq<FidoAnswer>) -> FidoStage<T>,
    log: Seq<FidoAnswer>,
    secret_of: spec_fn(Seq<u8>, Seq<u8>) -> Seq<u8>,
) -> bool {
    forall|k: int, s: Seq<u8>|
        0 <= k < log.len() && #[trigger] yields(log[k], s) ==> (part(
            log.take(k),
        ) matches FidoStage::Ask(a) ==> a is HmacSecret ==> s == secret_of(
            a->HmacSecret_cred_id,
            a->HmacSecret_salt,
        ))
}

/// What an enrolled device gave as the secret, unlocking with the token of that enrollment
/// gives again: it asks for the secret of the same credential with the same salt and the
/// same PIN.
pub proof fn law_fido2_secret_comes_back(
    path: Seq<char>,
    pin: Seq<char>,
    user_id: Seq<u8>,
    salt: Seq<u8>,
    enrolling: Seq<FidoAnswer>,
    unlocking: Seq<FidoAnswer>,
    secret_of: spec_fn(Seq<u8>, Seq<u8>) -> Seq<u8>,
)
    requires
        enroll_stage(path, Some(pin), user_id, salt, enrolling) is Done,
        faithful(
            |l: Seq<FidoAnswer>| enroll_stage(path, Some(pin), user_id, salt, l),
            enrolling,
            secret_of,
        ),
        ({
            let e = enroll_stage(path, Some(pin), user_id, salt, enrolling)->Done_0;
            let tokens = seq![Fido2Ref { cred_id: e.cred_id, salt: e.salt }];
            &&& unlock_stage(tokens, pin, unlocking) is Done
            &&& faithful(
                |l: Seq<FidoAnswer>| unlock_stage(tokens, pin, l),
                unlocking,
                secret_of,
            )
        }),
    ensures
        ({
            let e = enroll_stage(path, Some(pin), user_id, salt, enrolling)->Done_0;
            let tokens = seq![Fido2Ref { cred_id: e.cred_id, salt: e.salt }];
            let n = unlock_stage(tokens, pin, unlocking)->Done_1;
            &&& unlock_stage(tokens, pin, unlocking)->Done_0 == e.hmac_secret
            &&& 0 < n <= unlocking.len() && enrolling.len() >= 4
            &&& enroll_stage(
                path,
                Some(pin),
                user_id,
                salt,
                enrolling.take(3),
            ) matches FidoStage::Ask(a)
            &&& unlock_stage(tokens, pin, unlocking.take(n - 1)) matches FidoStage::Ask(b)
            &&& a is HmacSecret && b is HmacSecret
            &&& b->HmacSecret_cred_id == a->HmacSecret_cred_id
            &&& b->HmacSecret_salt == a->HmacSecret_salt
            &&& b->HmacSecret_pin == a->HmacSecret_pin
        }),
{
    let ep = |l: Seq<FidoAnswer>| enroll_stage(path, Some(pin), user_id, salt, l);
    let e = ep(enrolling)->Done_0;
    law_fido2_enroll(path, Some(pin), user_id, salt, enrolling);
    let tokens = seq![Fido2Ref { cred_id: e.cred_id, salt: e.salt }];
    let up = |l: Seq<FidoAnswer>| unlock_stage(tokens, pin, l);
    let s = up(unlocking)->Done_0;
    let n = up(unlocking)->Done_1;
    law_fido2_unlock(tokens, pin, unlocking);
    law_fido2_unlock(tokens, pin, unlocking.take(n - 1));
    let b = up(unlocking.take(n - 1))->Ask_0;
    let j = choose|j: int|
        0 <= j < tokens.len() && (#[trigger] tokens[j]).cred_id == b->HmacSecret_cred_id
            && tokens[j].salt == b->HmacSecret_salt;
    assert(j == 0);
    assert(yields(enrolling[3], e.hmac_secret));
    assert(yields(unlocking[n - 1], s));
    assert(ep(enrolling.take(3)) is Ask);
}

} // verus!
