//! What is asked of FIDO2 devices, and what comes of it: the laws of enrolling a device,
//! of unlocking with one, and of finding the devices that are enrolled, stated over the
//! requests, the answers and the arguments.

use vstd::prelude::*;
use vstd::utf8::encode_utf8;

use crate::fido2::{
    enroll_stage, enrolled_paths_stage, enrolled_stage, first_touch, hidraw_path, holds_any_stage,
    probe_stage, touch_step, FidoAnswer, FidoAsk, FidoStage, TouchStep, FIDO_ERR_NO_CREDENTIALS,
    FIDO_ERR_PIN_INVALID, FIDO_ERR_PIN_NOT_SET, FIDO_ERR_PIN_REQUIRED, FIDO_ERR_UP_REQUIRED,
    FIDO_OK,
};
use crate::text::all_digits;

verus! {

/// Whether `ask` is what `part` asked for when the first `k` of the answers were there.
pub open spec fn asked_at<T>(
    part: spec_fn(Seq<FidoAnswer>) -> FidoStage<T>,
    log: Seq<FidoAnswer>,
    k: int,
    ask: FidoAsk,
) -> bool {
    0 <= k < log.len() && part(log.take(k)) == FidoStage::<T>::Ask(ask)
}

/// Whether `sent` is what a device is handed for the PIN `pin`: nothing for none or an
/// empty one, and else its bytes with a NUL behind them.
pub open spec fn sends_pin(pin: Option<Seq<char>>, sent: Option<Seq<u8>>) -> bool {
    match pin {
        Some(p) => if p.len() == 0 {
            sent is None
        } else {
            sent == Some(encode_utf8(p).push(0u8))
        },
        None => sent is None,
    }
}

/// Whether the answer gives the secret `secret`.
pub open spec fn yields(answer: FidoAnswer, secret: Seq<u8>) -> bool {
    match answer {
        FidoAnswer::Asserted(Some((status, Some(s)))) => status == FIDO_OK && s@ == secret,
        _ => false,
    }
}

/// Whether the answer gives the credential `cred_id`.
pub open spec fn yields_credential(answer: FidoAnswer, cred_id: Seq<u8>) -> bool {
    match answer {
        FidoAnswer::Made(Some((status, Some(c)))) => status == FIDO_OK && c@ == cred_id,
        _ => false,
    }
}

/// A path is that of a hidraw node just where it is `/dev/hidraw` and a number.
pub proof fn law_hidraw_paths(path: Seq<char>)
    ensures
        hidraw_path(path) <==> exists|number: Seq<char>|
            number.len() > 0 && #[trigger] all_digits(number) && path == "/dev/hidraw"@ + number,
{
    reveal_strlit("/dev/hidraw");
    if hidraw_path(path) {
        let number = path.skip(11);
        assert(path.take(11) == "/dev/hidraw"@);
        assert(path =~= "/dev/hidraw"@ + number);
    }
    if exists|number: Seq<char>|
        number.len() > 0 && #[trigger] all_digits(number) && path == "/dev/hidraw"@ + number {
        let number = choose|number: Seq<char>|
            number.len() > 0 && #[trigger] all_digits(number) && path == "/dev/hidraw"@ + number;
        assert(path.take(11) =~= "/dev/hidraw"@);
        assert(path.skip(11) =~= number);
    }
}

/// Enrolling a FIDO2 device. The path is resolved, and only a hidraw node is opened; a
/// credential is made for the user, under the PIN; and the secret is that of this
/// credential, for the salt, under the PIN. What is given out is that credential, that
/// salt and that secret.
pub proof fn law_fido2_enroll(
    path: Seq<char>,
    pin: Option<Seq<char>>,
    user_id: Seq<u8>,
    salt: Seq<u8>,
    log: Seq<FidoAnswer>,
)
    ensures
        ({
            let part = |l: Seq<FidoAnswer>| enroll_stage(path, pin, user_id, salt, l);
            match part(log) {
                FidoStage::Ask(a) => match a {
                    FidoAsk::Canonical { path: p } => log.len() == 0 && p == path,
                    FidoAsk::OpenPath { path: p, device } => {
                        &&& log.len() == 1 && device == 0
                        &&& log[0] matches FidoAnswer::Canonical(Some(node)) && p == node@
                        &&& hidraw_path(p)
                    },
                    FidoAsk::MakeCredential { device, user_id: u, pin: q } => {
                        &&& log.len() == 2 && device == 0 && log[1] == FidoAnswer::Opened(
                            Some(FIDO_OK),
                        )
                        &&& u == user_id && sends_pin(pin, q)
                    },
                    FidoAsk::HmacSecret { device, cred_id, salt: s, pin: q } => {
                        &&& log.len() == 3 && device == 0
                        &&& yields_credential(log[2], cred_id)
                        &&& s == salt && sends_pin(pin, q)
                    },
                    _ => false,
                },
                FidoStage::Done(e, n) => {
                    &&& n == 4 <= log.len()
                    &&& e.salt == salt
                    &&& yields_credential(log[2], e.cred_id) && e.cred_id.len() > 0
                    &&& yields(log[3], e.hmac_secret) && e.hmac_secret.len() > 0
                    &&& exists|q: Option<Seq<u8>>| #[trigger]
                        sends_pin(pin, q) && asked_at(
                            part,
                            log,
                            3,
                            FidoAsk::HmacSecret {
                                device: 0,
                                cred_id: e.cred_id,
                                salt: e.salt,
                                pin: q,
                            },
                        )
                },
                FidoStage::Fail(_, n) => {
                    &&& 0 <= n <= log.len()
                    &&& ({
                        ||| n == 1 && !(log[0] matches FidoAnswer::Canonical(Some(node))
                            && hidraw_path(node@))
                        ||| n == 2 && log[1] != FidoAnswer::Opened(Some(FIDO_OK))
                        ||| n == 2 && pin is Some && encode_utf8(pin->Some_0).contains(0u8)
                        ||| n == 3 && forall|c: Seq<u8>|
                            c.len() > 0 ==> !#[trigger] yields_credential(log[2], c)
                        ||| n == 4 && forall|s: Seq<u8>|
                            s.len() > 0 ==> !#[trigger] yields(log[3], s)
                    })
                },
            }
        }),
{
    let part = |l: Seq<FidoAnswer>| enroll_stage(path, pin, user_id, salt, l);
    if log.len() >= 3 {
        let t = log.take(3);
        assert(t[0] == log[0] && t[1] == log[1] && t[2] == log[2]);
        match part(log) {
            FidoStage::Done(e, n) => {
                let q = part(t)->Ask_0->HmacSecret_pin;
                assert(sends_pin(pin, q));
            },
            _ => {},
        }
    }
}

// ---------------------------------------------------------------------------
// Parts of the work
// ---------------------------------------------------------------------------

/// Whether a part that is over is so after the answers that it says it used, and no
/// sooner.
pub open spec fn steady<T>(
    part: spec_fn(Seq<FidoAnswer>) -> FidoStage<T>,
    log: Seq<FidoAnswer>,
    at: int,
) -> bool {
    match part(log) {
        FidoStage::Ask(_) => true,
        FidoStage::Done(_, n) => steady_from(part, log, at, n),
        FidoStage::Fail(_, n) => steady_from(part, log, at, n),
    }
}

/// Whether a part that is over after `n` answers asked for each of them, and looks at no
/// more.
pub open spec fn steady_from<T>(
    part: spec_fn(Seq<FidoAnswer>) -> FidoStage<T>,
    log: Seq<FidoAnswer>,
    at: int,
    n: int,
) -> bool {
    &&& at <= n <= log.len()
    &&& forall|m: int| n <= m <= log.len() ==> part(#[trigger] log.take(m)) == part(log)
    &&& forall|k: int| at <= k < n ==> part(#[trigger] log.take(k)) is Ask
}

pub(crate) proof fn lemma_steps_end<B>(
    rest: spec_fn(Seq<FidoAnswer>) -> FidoStage<B>,
    whole: spec_fn(Seq<FidoAnswer>) -> FidoStage<B>,
    log: Seq<FidoAnswer>,
    at: int,
    n: int,
    j: int,
)
    requires
        0 <= at <= n <= log.len(),
        steady_from(rest, log, n, j),
        whole(log) == rest(log),
        forall|m: int| n <= m <= log.len() ==> whole(#[trigger] log.take(m)) == rest(log.take(m)),
        forall|k: int| at <= k < n ==> whole(#[trigger] log.take(k)) is Ask,
    ensures
        steady_from(whole, log, at, j),
{
    assert forall|m: int| j <= m <= log.len() implies whole(#[trigger] log.take(m)) == whole(
        log,
    ) by {
        assert(rest(log.take(m)) == rest(log));
    }
    assert forall|k: int| at <= k < j implies whole(#[trigger] log.take(k)) is Ask by {
        if k >= n {
            assert(rest(log.take(k)) is Ask);
        }
    }
}

/// A part that asks for one thing and takes one answer is steady.
proof fn lemma_one_step<T>(
    part: spec_fn(Seq<FidoAnswer>) -> FidoStage<T>,
    log: Seq<FidoAnswer>,
    at: int,
)
    requires
        0 <= at <= log.len(),
        forall|l: Seq<FidoAnswer>| at >= l.len() ==> #[trigger] part(l) is Ask,
        forall|l: Seq<FidoAnswer>|
            at < l.len() <= log.len() && l[at] == log[at] ==> #[trigger] part(l) == part(log),
        at < log.len() ==> match part(log) {
            FidoStage::Ask(_) => false,
            FidoStage::Done(_, n) => n == at + 1,
            FidoStage::Fail(_, n) => n == at + 1,
        },
    ensures
        steady(part, log, at),
{
    assert(part(log.take(at)) is Ask);
    assert(forall|m: int| at < m <= log.len() ==> #[trigger] log.take(m)[at] == log[at]);
}

/// Whether the answer is no answer to the request at all.
pub open spec fn amiss(ask: FidoAsk, answer: FidoAnswer) -> bool {
    match ask {
        FidoAsk::List => !(answer is Listed),
        FidoAsk::OpenListed { .. } => !(answer is Opened),
        FidoAsk::OpenPath { .. } => !(answer is Opened),
        FidoAsk::Probe { .. } => !(answer is Probed),
        FidoAsk::TouchSelect { devices } => !(answer matches FidoAnswer::Touched(place) && place
            < devices.len()),
        _ => false,
    }
}

/// Whether a device may hold the credential that it was probed for.
pub open spec fn may_hold(answer: FidoAnswer) -> bool {
    answer is Probed && answer->Probed_0 != Some(FIDO_ERR_NO_CREDENTIALS)
}

/// Whether a device holds the credential that it was probed for, for certain.
pub open spec fn surely_holds(answer: FidoAnswer) -> bool {
    match answer {
        FidoAnswer::Probed(Some(ret)) => ret == FIDO_OK || ret == FIDO_ERR_UP_REQUIRED || ret
            == FIDO_ERR_PIN_NOT_SET || ret == FIDO_ERR_PIN_REQUIRED || ret == FIDO_ERR_PIN_INVALID,
        _ => false,
    }
}

// ---------------------------------------------------------------------------
// The devices that are enrolled
// ---------------------------------------------------------------------------

/// Whether `part` probed the device for one of the credentials, among the answers from
/// `at` to `n`, and the device holds it for certain.
pub open spec fn found_on<T>(
    part: spec_fn(Seq<FidoAnswer>) -> FidoStage<T>,
    log: Seq<FidoAnswer>,
    at: int,
    n: int,
    device: int,
) -> bool {
    exists|k: int|
        at <= k < n && (#[trigger] part(log.take(k))) is Ask && part(log.take(k))->Ask_0 is Probe
            && part(log.take(k))->Ask_0->Probe_device == device && surely_holds(log[k])
}

proof fn lemma_holds_any(device: usize, creds: Seq<Seq<u8>>, log: Seq<FidoAnswer>, at: int)
    requires
        0 <= at <= log.len(),
    ensures
        ({
            let part = |l: Seq<FidoAnswer>| holds_any_stage(device, creds, l, at);
            &&& steady(part, log, at)
            &&& forall|l: Seq<FidoAnswer>| #[trigger]
                part(l) matches FidoStage::Ask(a) ==> a is Probe && a->Probe_device == device
                    && creds.contains(a->Probe_cred_id)
            &&& match part(log) {
                FidoStage::Done(held, n) => {
                    &&& held == found_on(part, log, at, n, device as int)
                    &&& !held ==> forall|i: int|
                        0 <= i < creds.len() ==> asked_between(
                            part,
                            log,
                            at,
                            n,
                            FidoAsk::Probe { device, cred_id: #[trigger] creds[i] },
                        )
                },
                _ => true,
            }
        }),
    decreases creds.len(),
{
    let part = |l: Seq<FidoAnswer>| holds_any_stage(device, creds, l, at);
    lemma_holds_any_asks(device, creds, at);
    if creds.len() > 0 {
        let first = |l: Seq<FidoAnswer>| probe_stage(device, creds[0], l, at);
        lemma_one_step(first, log, at);
        assert(part(log.take(at)) == FidoStage::<bool>::Ask(
            FidoAsk::Probe { device, cred_id: creds[0] },
        ));
        if at < log.len() {
            assert(forall|m: int| at < m <= log.len() ==> #[trigger] log.take(m)[at] == log[at]);
            if log[at] is Probed && !surely_holds(log[at]) {
                let rest = creds.skip(1);
                let more = |l: Seq<FidoAnswer>| holds_any_stage(device, rest, l, at + 1);
                lemma_holds_any(device, rest, log, at + 1);
                assert forall|m: int| at < m <= log.len() implies part(#[trigger] log.take(m))
                    == more(log.take(m)) by {}
                assert(part(log) == more(log));
                match more(log) {
                    FidoStage::Ask(_) => {},
                    FidoStage::Fail(_, n) => {
                        lemma_steps_end(more, part, log, at, at + 1, n);
                    },
                    FidoStage::Done(held, n) => {
                        lemma_steps_end(more, part, log, at, at + 1, n);
                        if held {
                            let k = choose|k: int|
                                at + 1 <= k < n && (#[trigger] more(log.take(k))) is Ask && more(
                                    log.take(k),
                                )->Ask_0 is Probe && more(log.take(k))->Ask_0->Probe_device
                                    == device && surely_holds(log[k]);
                            assert(part(log.take(k)) == more(log.take(k)));
                            assert(found_on(part, log, at, n, device as int));
                        } else {
                            if found_on(part, log, at, n, device as int) {
                                let k = choose|k: int|
                                    at <= k < n && (#[trigger] part(log.take(k))) is Ask && part(
                                        log.take(k),
                                    )->Ask_0 is Probe && part(log.take(k))->Ask_0->Probe_device
                                        == device && surely_holds(log[k]);
                                assert(k > at);
                                assert(more(log.take(k)) == part(log.take(k)));
                                assert(found_on(more, log, at + 1, n, device as int));
                            }
                            assert forall|i: int| 0 <= i < creds.len() implies asked_between(
                                part,
                                log,
                                at,
                                n,
                                FidoAsk::Probe { device, cred_id: #[trigger] creds[i] },
                            ) by {
                                if i == 0 {
                                    assert(part(log.take(at)) == FidoStage::<bool>::Ask(
                                        FidoAsk::Probe { device, cred_id: creds[0] },
                                    ));
                                } else {
                                    assert(rest[i - 1] == creds[i]);
                                    let ask = FidoAsk::Probe { device, cred_id: rest[i - 1] };
                                    assert(asked_between(more, log, at + 1, n, ask));
                                    let k = choose|k: int|
                                        at + 1 <= k < n && #[trigger] more(log.take(k))
                                            == FidoStage::<bool>::Ask(ask);
                                    assert(part(log.take(k)) == more(log.take(k)));
                                }
                            }
                        }
                    },
                }
            } else {
                assert forall|m: int| at < m <= log.len() implies part(#[trigger] log.take(m))
                    == part(log) by {}
            }
        }
    } else {
        assert forall|m: int| at <= m <= log.len() implies part(#[trigger] log.take(m)) == part(
            log,
        ) by {}
    }
}

/// Whether `part` asked for `ask` among the answers from `at` to `n`.
pub open spec fn asked_between<T>(
    part: spec_fn(Seq<FidoAnswer>) -> FidoStage<T>,
    log: Seq<FidoAnswer>,
    at: int,
    n: int,
    ask: FidoAsk,
) -> bool {
    exists|k: int| at <= k < n && #[trigger] part(log.take(k)) == FidoStage::<T>::Ask(ask)
}

proof fn lemma_holds_any_asks(device: usize, creds: Seq<Seq<u8>>, at: int)
    ensures
        forall|l: Seq<FidoAnswer>| #[trigger]
            holds_any_stage(device, creds, l, at) matches FidoStage::Ask(a) ==> a is Probe
                && a->Probe_device == device && creds.contains(a->Probe_cred_id),
    decreases creds.len(),
{
    if creds.len() > 0 {
        let rest = creds.skip(1);
        lemma_holds_any_asks(device, rest, at + 1);
        assert(creds[0] == creds.first());
        assert forall|l: Seq<FidoAnswer>| #[trigger]
            holds_any_stage(device, creds, l, at) is Ask implies ({
            let a = holds_any_stage(device, creds, l, at)->Ask_0;
            a is Probe && a->Probe_device == device && creds.contains(a->Probe_cred_id)
        }) by {
            let a = holds_any_stage(device, creds, l, at)->Ask_0;
            if holds_any_stage(device, rest, l, at + 1) is Ask {
                let b = holds_any_stage(device, rest, l, at + 1)->Ask_0;
                let i = choose|i: int| 0 <= i < rest.len() && rest[i] == b->Probe_cred_id;
                assert(creds[i + 1] == b->Probe_cred_id);
            }
        }
    }
}

/// What is asked for to find the devices that are enrolled, and what is found, from the
/// device with the number `first` on.
spec fn finds(
    paths: Seq<Seq<char>>,
    first: int,
    creds: Seq<Seq<u8>>,
    found: Seq<Seq<char>>,
    log: Seq<FidoAnswer>,
    at: int,
) -> bool {
    let part = |l: Seq<FidoAnswer>| enrolled_stage(paths, first, creds, found, l, at);
    &&& steady(part, log, at)
    &&& match part(log) {
        FidoStage::Ask(FidoAsk::OpenPath { path, device }) => first <= device < paths.len() && path
            == paths[device as int],
        FidoStage::Ask(FidoAsk::Probe { device, cred_id }) => {
            &&& first <= device < paths.len()
            &&& creds.contains(cred_id)
            &&& opened_as(part, log, at, log.len() as int, paths[device as int], device)
        },
        FidoStage::Ask(_) => false,
        FidoStage::Done(r, n) => {
            &&& forall|p: Seq<char>| #[trigger]
                r.contains(p) <==> found.contains(p) || exists|i: int|
                    first <= i < paths.len() && #[trigger] paths[i] == p && found_on(
                        part,
                        log,
                        at,
                        n,
                        i,
                    )
        },
        FidoStage::Fail(_, _) => true,
    }
}

/// Whether `part` had the device at `path` opened under the number `device`.
pub open spec fn opened_as<T>(
    part: spec_fn(Seq<FidoAnswer>) -> FidoStage<T>,
    log: Seq<FidoAnswer>,
    at: int,
    n: int,
    path: Seq<char>,
    device: usize,
) -> bool {
    exists|k: int|
        at <= k < n && #[trigger] part(log.take(k)) == FidoStage::<T>::Ask(
            FidoAsk::OpenPath { path, device },
        ) && log[k] == FidoAnswer::Opened(Some(FIDO_OK))
}

proof fn lemma_enrolled_asks(
    paths: Seq<Seq<char>>,
    first: int,
    creds: Seq<Seq<u8>>,
    found: Seq<Seq<char>>,
    log: Seq<FidoAnswer>,
    at: int,
)
    requires
        0 <= first,
        paths.len() <= usize::MAX,
    ensures
        match enrolled_stage(paths, first, creds, found, log, at) {
            FidoStage::Ask(FidoAsk::OpenPath { path, device }) => first <= device < paths.len()
                && path == paths[device as int],
            FidoStage::Ask(FidoAsk::Probe { device, cred_id }) => first <= device < paths.len()
                && creds.contains(cred_id),
            FidoStage::Ask(_) => false,
            _ => true,
        },
    decreases paths.len() - first,
{
    if first < paths.len() && at < log.len() {
        match log[at] {
            FidoAnswer::Opened(status) => {
                if status == Some(FIDO_OK) {
                    lemma_holds_any_asks(first as usize, creds, at + 1);
                    match holds_any_stage(first as usize, creds, log, at + 1) {
                        FidoStage::Done(held, n) => {
                            lemma_enrolled_asks(
                                paths,
                                first + 1,
                                creds,
                                if held {
                                    found.push(paths[first])
                                } else {
                                    found
                                },
                                log,
                                n,
                            );
                        },
                        _ => {},
                    }
                } else {
                    lemma_enrolled_asks(paths, first + 1, creds, found, log, at + 1);
                }
            },
            _ => {},
        }
    }
}

#[verifier::spinoff_prover]
#[verifier::rlimit(60)]
proof fn lemma_finds(
    paths: Seq<Seq<char>>,
    first: int,
    creds: Seq<Seq<u8>>,
    found: Seq<Seq<char>>,
    log: Seq<FidoAnswer>,
    at: int,
)
    requires
        0 <= first,
        paths.len() <= usize::MAX,
        0 <= at <= log.len(),
    ensures
        finds(paths, first, creds, found, log, at),
    decreases paths.len() - first,
{
    let part = |l: Seq<FidoAnswer>| enrolled_stage(paths, first, creds, found, l, at);
    lemma_enrolled_asks(paths, first, creds, found, log, at);
    if first >= paths.len() {
        assert forall|m: int| at <= m <= log.len() implies part(#[trigger] log.take(m)) == part(
            log,
        ) by {}
    } else {
        let opened = FidoAsk::OpenPath { path: paths[first], device: first as usize };
        assert(part(log.take(at)) == FidoStage::<Seq<Seq<char>>>::Ask(opened));
        if at < log.len() {
            assert(forall|m: int| at < m <= log.len() ==> #[trigger] log.take(m)[at] == log[at]);
            if log[at] == FidoAnswer::Opened(Some(FIDO_OK)) {
                assert(opened_as(
                    part,
                    log,
                    at,
                    log.len() as int,
                    paths[first],
                    first as usize,
                ));
                let probe = |l: Seq<FidoAnswer>|
                    holds_any_stage(first as usize, creds, l, at + 1);
                lemma_holds_any(first as usize, creds, log, at + 1);
                match probe(log) {
                    FidoStage::Ask(_) => {},
                    FidoStage::Fail(_, n) => {
                        assert forall|m: int| n <= m <= log.len() implies part(
                            #[trigger] log.take(m),
                        ) == part(log) by {
                            assert(probe(log.take(m)) == probe(log));
                        }
                        assert forall|k: int| at <= k < n implies part(#[trigger] log.take(k)) is Ask by {
                            if k > at {
                                assert(probe(log.take(k)) is Ask);
                            }
                        }
                    },
                    FidoStage::Done(held, n) => {
                        let next = if held {
                            found.push(paths[first])
                        } else {
                            found
                        };
                        lemma_finds(paths, first + 1, creds, next, log, n);
                        let more = |l: Seq<FidoAnswer>|
                            enrolled_stage(paths, first + 1, creds, next, l, n);
                        assert forall|m: int| n <= m <= log.len() implies part(
                            #[trigger] log.take(m),
                        ) == more(log.take(m)) by {
                            assert(probe(log.take(m)) == probe(log));
                        }
                        assert(part(log) == more(log));
                        assert forall|k: int| at < k < n implies part(#[trigger] log.take(k)) is Ask
                            && part(log.take(k))->Ask_0 == probe(log.take(k))->Ask_0 by {
                            assert(probe(log.take(k)) is Ask);
                        }
                        assert forall|k: int| at <= k < n implies part(
                            #[trigger] log.take(k),
                        ) is Ask by {}
                        match more(log) {
                            FidoStage::Ask(FidoAsk::Probe { device, cred_id }) => {
                                lemma_opened_later(
                                    more,
                                    part,
                                    log,
                                    n,
                                    at,
                                    paths[device as int],
                                    device,
                                );
                            },
                            FidoStage::Ask(_) => {},
                            FidoStage::Fail(_, j) => {
                                lemma_steps_end(more, part, log, at, n, j);
                            },
                            FidoStage::Done(r, j) => {
                                lemma_steps_end(more, part, log, at, n, j);
                                assert(found_on(part, log, at, j, first) == held) by {
                                    if held {
                                        let k = choose|k: int|
                                            at + 1 <= k < n && (#[trigger] probe(
                                                log.take(k),
                                            )) is Ask && probe(log.take(k))->Ask_0 is Probe
                                                && probe(log.take(k))->Ask_0->Probe_device == first
                                                && surely_holds(log[k]);
                                        assert(part(log.take(k)) is Ask);
                                    }
                                    if found_on(part, log, at, j, first) {
                                        let k = choose|k: int|
                                            at <= k < j && (#[trigger] part(log.take(k))) is Ask
                                                && part(log.take(k))->Ask_0 is Probe && part(
                                                log.take(k),
                                            )->Ask_0->Probe_device == first && surely_holds(log[k]);
                                        if k >= n {
                                            lemma_enrolled_asks(
                                                paths,
                                                first + 1,
                                                creds,
                                                next,
                                                log.take(k),
                                                n,
                                            );
                                            assert(more(log.take(k)) == part(log.take(k)));
                                        } else {
                                            assert(k > at);
                                            assert(probe(log.take(k)) is Ask);
                                            assert(found_on(probe, log, at + 1, n, first));
                                        }
                                    }
                                }
                                assert forall|i: int| first < i < paths.len() implies found_on(
                                    part,
                                    log,
                                    at,
                                    j,
                                    i,
                                ) == found_on(more, log, n, j, i) by {
                                    lemma_found_later(more, part, probe, log, n, at, j, first, i);
                                }
                                lemma_found_paths(paths, first, found, next, held, r, |i: int|
                                    found_on(more, log, n, j, i), |i: int|
                                    found_on(part, log, at, j, i));
                            },
                        }
                    },
                }
            } else if log[at] is Opened {
                let more = |l: Seq<FidoAnswer>|
                    enrolled_stage(paths, first + 1, creds, found, l, at + 1);
                let none = |l: Seq<FidoAnswer>|
                    holds_any_stage(first as usize, seq![], l, at + 1);
                lemma_finds(paths, first + 1, creds, found, log, at + 1);
                assert forall|m: int| at < m <= log.len() implies part(#[trigger] log.take(m))
                    == more(log.take(m)) by {}
                assert(part(log) == more(log));
                match more(log) {
                    FidoStage::Ask(FidoAsk::Probe { device, cred_id }) => {
                        lemma_opened_later(
                            more,
                            part,
                            log,
                            at + 1,
                            at,
                            paths[device as int],
                            device,
                        );
                    },
                    FidoStage::Ask(_) => {},
                    FidoStage::Fail(_, j) => {
                        lemma_steps_end(more, part, log, at, at + 1, j);
                    },
                    FidoStage::Done(r, j) => {
                        lemma_steps_end(more, part, log, at, at + 1, j);
                        assert(!found_on(part, log, at, j, first)) by {
                            if found_on(part, log, at, j, first) {
                                let k = choose|k: int|
                                    at <= k < j && (#[trigger] part(log.take(k))) is Ask && part(
                                        log.take(k),
                                    )->Ask_0 is Probe && part(log.take(k))->Ask_0->Probe_device
                                        == first && surely_holds(log[k]);
                                assert(k > at);
                                lemma_enrolled_asks(
                                    paths,
                                    first + 1,
                                    creds,
                                    found,
                                    log.take(k),
                                    at + 1,
                                );
                                assert(more(log.take(k)) == part(log.take(k)));
                            }
                        }
                        assert forall|i: int| first < i < paths.len() implies found_on(
                            part,
                            log,
                            at,
                            j,
                            i,
                        ) == found_on(more, log, at + 1, j, i) by {
                            lemma_found_later(more, part, none, log, at + 1, at, j, first, i);
                        }
                        lemma_found_paths(paths, first, found, found, false, r, |i: int|
                            found_on(more, log, at + 1, j, i), |i: int|
                            found_on(part, log, at, j, i));
                    },
                }
            } else {
                assert forall|m: int| at < m <= log.len() implies part(#[trigger] log.take(m))
                    == part(log) by {}
            }
        }
    }
}

proof fn lemma_opened_later<T>(
    more: spec_fn(Seq<FidoAnswer>) -> FidoStage<T>,
    part: spec_fn(Seq<FidoAnswer>) -> FidoStage<T>,
    log: Seq<FidoAnswer>,
    n: int,
    at: int,
    path: Seq<char>,
    device: usize,
)
    requires
        at <= n,
        opened_as(more, log, n, log.len() as int, path, device),
        forall|m: int| n <= m <= log.len() ==> part(#[trigger] log.take(m)) == more(log.take(m)),
    ensures
        opened_as(part, log, at, log.len() as int, path, device),
{
    let k = choose|k: int|
        n <= k < log.len() && #[trigger] more(log.take(k)) == FidoStage::<T>::Ask(
            FidoAsk::OpenPath { path, device },
        ) && log[k] == FidoAnswer::Opened(Some(FIDO_OK));
    assert(part(log.take(k)) == more(log.take(k)));
}

proof fn lemma_found_later<T>(
    more: spec_fn(Seq<FidoAnswer>) -> FidoStage<T>,
    part: spec_fn(Seq<FidoAnswer>) -> FidoStage<T>,
    probe: spec_fn(Seq<FidoAnswer>) -> FidoStage<bool>,
    log: Seq<FidoAnswer>,
    n: int,
    at: int,
    j: int,
    first: int,
    i: int,
)
    requires
        0 <= at < n <= j <= log.len(),
        first != i,
        forall|m: int| n <= m <= log.len() ==> part(#[trigger] log.take(m)) == more(log.take(m)),
        part(log.take(at)) is Ask ==> !(part(log.take(at))->Ask_0 is Probe),
        forall|k: int|
            at < k < n ==> part(#[trigger] log.take(k)) is Ask && part(log.take(k))->Ask_0 == probe(
                log.take(k),
            )->Ask_0 && probe(log.take(k)) is Ask,
        forall|l: Seq<FidoAnswer>| #[trigger]
            probe(l) matches FidoStage::Ask(a) ==> a is Probe && a->Probe_device == first,
    ensures
        found_on(part, log, at, j, i) == found_on(more, log, n, j, i),
{
    if found_on(part, log, at, j, i) {
        let k = choose|k: int|
            at <= k < j && (#[trigger] part(log.take(k))) is Ask && part(log.take(k))->Ask_0 is Probe
                && part(log.take(k))->Ask_0->Probe_device == i && surely_holds(log[k]);
        if k < n {
            assert(k > at);
            assert(probe(log.take(k)) is Ask);
        } else {
            assert(more(log.take(k)) == part(log.take(k)));
        }
    }
    if found_on(more, log, n, j, i) {
        let k = choose|k: int|
            n <= k < j && (#[trigger] more(log.take(k))) is Ask && more(log.take(k))->Ask_0 is Probe
                && more(log.take(k))->Ask_0->Probe_device == i && surely_holds(log[k]);
        assert(part(log.take(k)) == more(log.take(k)));
    }
}

proof fn lemma_found_paths(
    paths: Seq<Seq<char>>,
    first: int,
    found: Seq<Seq<char>>,
    next: Seq<Seq<char>>,
    held: bool,
    r: Seq<Seq<char>>,
    later: spec_fn(int) -> bool,
    all: spec_fn(int) -> bool,
)
    requires
        0 <= first < paths.len(),
        next == if held {
            found.push(paths[first])
        } else {
            found
        },
        forall|p: Seq<char>| #[trigger]
            r.contains(p) <==> next.contains(p) || exists|i: int|
                first + 1 <= i < paths.len() && #[trigger] paths[i] == p && later(i),
        all(first) == held,
        forall|i: int| first < i < paths.len() ==> #[trigger] all(i) == later(i),
    ensures
        forall|p: Seq<char>| #[trigger]
            r.contains(p) <==> found.contains(p) || exists|i: int|
                first <= i < paths.len() && #[trigger] paths[i] == p && all(i),
{
    assert forall|p: Seq<char>| #[trigger]
        r.contains(p) <==> found.contains(p) || exists|i: int|
            first <= i < paths.len() && #[trigger] paths[i] == p && all(i) by {
        if r.contains(p) {
            if next.contains(p) {
                let i = choose|i: int| 0 <= i < next.len() && next[i] == p;
                if i < found.len() {
                    assert(found[i] == p);
                } else {
                    assert(paths[first] == p && all(first));
                }
            } else {
                let i = choose|i: int|
                    first + 1 <= i < paths.len() && #[trigger] paths[i] == p && later(i);
                assert(all(i) == later(i));
            }
        }
        if found.contains(p) {
            let i = choose|i: int| 0 <= i < found.len() && found[i] == p;
            assert(next[i] == p);
        }
        if exists|i: int| first <= i < paths.len() && #[trigger] paths[i] == p && all(i) {
            let i = choose|i: int| first <= i < paths.len() && #[trigger] paths[i] == p && all(i);
            if i == first {
                assert(next[found.len() as int] == p);
            } else {
                assert(all(i) == later(i));
            }
        }
    }
}

/// Which devices are enrolled: each device is opened at its path, and only one that opens
/// is probed, silently, for the credentials and for nothing else. Those are found that
/// hold one of them for certain.
pub proof fn law_enrolled_paths(
    paths: Seq<Seq<char>>,
    creds: Seq<Seq<u8>>,
    log: Seq<FidoAnswer>,
)
    requires
        paths.len() <= usize::MAX,
    ensures
        ({
            let part = |l: Seq<FidoAnswer>| enrolled_paths_stage(paths, creds, l);
            match part(log) {
                FidoStage::Ask(FidoAsk::OpenPath { path, device }) => {
                    device < paths.len() && path == paths[device as int] && creds.len() > 0
                },
                FidoStage::Ask(FidoAsk::Probe { device, cred_id }) => {
                    &&& device < paths.len() && creds.contains(cred_id)
                    &&& opened_as(part, log, 0, log.len() as int, paths[device as int], device)
                },
                FidoStage::Ask(_) => false,
                FidoStage::Done(r, n) => {
                    &&& 0 <= n <= log.len()
                    &&& forall|p: Seq<char>| #[trigger]
                        r.contains(p) <==> exists|i: int|
                            0 <= i < paths.len() && #[trigger] paths[i] == p && found_on(
                                part,
                                log,
                                0,
                                n,
                                i,
                            )
                },
                FidoStage::Fail(_, n) => {
                    &&& 0 < n <= log.len()
                    &&& part(log.take(n - 1)) matches FidoStage::Ask(a)
                    &&& amiss(a, log[n - 1])
                },
            }
        }),
{
    let part = |l: Seq<FidoAnswer>| enrolled_paths_stage(paths, creds, l);
    if paths.len() > 0 && creds.len() > 0 {
        let rest = |l: Seq<FidoAnswer>| enrolled_stage(paths, 0, creds, seq![], l, 0);
        lemma_finds(paths, 0, creds, seq![], log, 0);
        lemma_enrolled_fails(paths, 0, creds, seq![], log, 0);
        assert forall|m: int| part(#[trigger] log.take(m)) == rest(log.take(m)) by {}
        assert(part(log) == rest(log));
        match rest(log) {
            FidoStage::Ask(FidoAsk::Probe { device, cred_id }) => {
                lemma_opened_later(rest, part, log, 0, 0, paths[device as int], device);
            },
            FidoStage::Fail(_, n) => {
                assert(part(log.take(n - 1)) == rest(log.take(n - 1)));
            },
            FidoStage::Done(r, n) => {
                assert forall|i: int| found_on(part, log, 0, n, i) == found_on(
                    rest,
                    log,
                    0,
                    n,
                    i,
                ) by {
                    if found_on(part, log, 0, n, i) {
                        let k = choose|k: int|
                            0 <= k < n && (#[trigger] part(log.take(k))) is Ask && part(
                                log.take(k),
                            )->Ask_0 is Probe && part(log.take(k))->Ask_0->Probe_device == i
                                && surely_holds(log[k]);
                        assert(rest(log.take(k)) == part(log.take(k)));
                    }
                    if found_on(rest, log, 0, n, i) {
                        let k = choose|k: int|
                            0 <= k < n && (#[trigger] rest(log.take(k))) is Ask && rest(
                                log.take(k),
                            )->Ask_0 is Probe && rest(log.take(k))->Ask_0->Probe_device == i
                                && surely_holds(log[k]);
                        assert(rest(log.take(k)) == part(log.take(k)));
                    }
                }
            },
            _ => {},
        }
    }
}

proof fn lemma_holds_any_fails(device: usize, creds: Seq<Seq<u8>>, log: Seq<FidoAnswer>, at: int)
    requires
        0 <= at <= log.len(),
    ensures
        holds_any_stage(device, creds, log, at) matches FidoStage::Fail(_, n) ==> at < n
            <= log.len() && !(log[n - 1] is Probed) && holds_any_stage(
            device,
            creds,
            log.take(n - 1),
            at,
        ) is Ask,
    decreases creds.len(),
{
    if creds.len() > 0 && at < log.len() {
        lemma_holds_any_fails(device, creds.skip(1), log, at + 1);
        lemma_holds_any_asks(device, creds, at);
        match holds_any_stage(device, creds, log, at) {
            FidoStage::Fail(_, n) => {
                assert(at < n - 1 ==> log.take(n - 1)[at] == log[at]);
            },
            _ => {},
        }
    }
}

proof fn lemma_enrolled_fails(
    paths: Seq<Seq<char>>,
    first: int,
    creds: Seq<Seq<u8>>,
    found: Seq<Seq<char>>,
    log: Seq<FidoAnswer>,
    at: int,
)
    requires
        0 <= first,
        0 <= at <= log.len(),
    ensures
        enrolled_stage(paths, first, creds, found, log, at) matches FidoStage::Fail(_, n) ==> ({
            &&& at < n <= log.len()
            &&& enrolled_stage(paths, first, creds, found, log.take(n - 1), at) matches FidoStage::Ask(a)
            &&& amiss(a, log[n - 1])
        }),
    decreases paths.len() - first,
{
    if first < paths.len() && at < log.len() {
        match log[at] {
            FidoAnswer::Opened(status) => {
                if status == Some(FIDO_OK) {
                    lemma_holds_any(first as usize, creds, log, at + 1);
                    lemma_holds_any_fails(first as usize, creds, log, at + 1);
                    lemma_holds_any_asks(first as usize, creds, at + 1);
                    let probe = |l: Seq<FidoAnswer>|
                        holds_any_stage(first as usize, creds, l, at + 1);
                    match probe(log) {
                        FidoStage::Done(held, n) => {
                            let next = if held {
                                found.push(paths[first])
                            } else {
                                found
                            };
                            lemma_enrolled_fails(paths, first + 1, creds, next, log, n);
                            match enrolled_stage(paths, first + 1, creds, next, log, n) {
                                FidoStage::Fail(_, j) => {
                                    assert(log.take(j - 1)[at] == log[at]);
                                    assert(probe(log.take(j - 1)) == probe(log));
                                },
                                _ => {},
                            }
                        },
                        FidoStage::Fail(_, n) => {
                            assert(log.take(n - 1)[at] == log[at]);
                        },
                        _ => {},
                    }
                } else {
                    lemma_enrolled_fails(paths, first + 1, creds, found, log, at + 1);
                    match enrolled_stage(paths, first + 1, creds, found, log, at + 1) {
                        FidoStage::Fail(_, j) => {
                            assert(log.take(j - 1)[at] == log[at]);
                        },
                        _ => {},
                    }
                }
            },
            _ => {},
        }
    }
}

// ---------------------------------------------------------------------------
// Picking a device by a touch
// ---------------------------------------------------------------------------

/// Whether the answer at `p` is the first touch, where the first `n` answers are those of
/// the devices that were made to blink.
pub open spec fn is_first_touch(n: int, log: Seq<bool>, p: int) -> bool {
    n <= p < log.len() && log[p] && forall|i: int| n <= i < p ==> !#[trigger] log[i]
}

proof fn lemma_first_touch_is(n: int, log: Seq<bool>, k: int)
    requires
        0 < n <= log.len(),
        0 <= k,
        forall|i: int| n <= i < n + k && i < log.len() ==> !#[trigger] log[i],
    ensures
        ({
            let p = n + first_touch(n, log, k);
            &&& p >= n + k
            &&& p < log.len() ==> is_first_touch(n, log, p)
            &&& p >= log.len() && n + k <= log.len() ==> p == log.len() && forall|i: int|
                n <= i < log.len() ==> !#[trigger] log[i]
        }),
    decreases log.len() - n - k,
{
    if n + k < log.len() && !log[n + k] {
        lemma_first_touch_is(n, log, k + 1);
    }
}

/// Picking one of several devices: all are made to blink, once each; they are polled in
/// turn while none is touched; and then all but the touched one are stopped, once each,
/// before that one is given.
pub proof fn law_touch_course(n: int, log: Seq<bool>)
    requires
        0 < n <= usize::MAX,
    ensures
        match touch_step(n, log) {
            TouchStep::Begin(i) => i == log.len() && i < n,
            TouchStep::Poll(i) => {
                &&& log.len() >= n && i == (log.len() - n) % n
                &&& forall|k: int| n <= k < log.len() ==> !#[trigger] log[k]
            },
            TouchStep::Cancel(i) => exists|p: int| #[trigger]
                is_first_touch(n, log, p) && i < n && ({
                    let touched = (p - n) % n;
                    let stopped = log.len() - p - 1;
                    &&& i != touched
                    &&& i == if stopped < touched {
                        stopped
                    } else {
                        stopped + 1
                    }
                }),
            TouchStep::Done(i) => exists|p: int| #[trigger]
                is_first_touch(n, log, p) && i == (p - n) % n && log.len() - p - 1 >= n - 1,
        },
{
    if log.len() >= n {
        lemma_first_touch_is(n, log, 0);
        let k = first_touch(n, log, 0);
        let p = n + k;
        assert(0 <= k % n < n);
        if p < log.len() {
            assert(is_first_touch(n, log, p));
        }
    }
}

} // verus!
