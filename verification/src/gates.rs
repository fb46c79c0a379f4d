//! What a call on the bus has to pass, and what is handed on behind it: the laws of
//! authorization and of the checks on the arguments, stated over the questions, the
//! answers and the arguments.

use vstd::prelude::*;
use vstd::utf8::encode_utf8;

use crate::auth::{
    fd_call_refusal, gate_device_stage, gate_image_stage, gate_stage, realpath_stage, AuthKind,
    Authorized, BusAnswer, BusAsk, BusStage, Gated, GatedFile, Refusal,
};
use crate::devices::path_join;
use crate::text::starts_with;

verus! {

/// Whether the answer is one to the question.
pub open spec fn replies(ask: BusAsk, answer: BusAnswer) -> bool {
    match ask {
        BusAsk::CallerUid => answer is Uid,
        BusAsk::Canonical { .. } => answer is Canonical,
        BusAsk::CanonicalParent { .. } => answer is CanonicalParent,
        BusAsk::Stat { .. } => answer is Stat,
        BusAsk::Polkit { .. } => answer is Authorized,
        BusAsk::Group { .. } => answer is Group,
    }
}

/// Whether `dir` and `name` make up `path`, with one slash between them.
pub open spec fn lies_in(dir: Seq<char>, name: Seq<char>, path: Seq<char>) -> bool {
    ||| name.len() > 0 && name[0] == '/' && path == name
    ||| !(name.len() > 0 && name[0] == '/') && (dir.len() == 0 || dir.last() == '/') && path == dir
        + name
    ||| !(name.len() > 0 && name[0] == '/') && dir.len() > 0 && dir.last() != '/' && path
        == dir.push('/') + name
}

/// Whether `path` resolves to `found`, by the answers from `at` to `n`: to what is there,
/// or else to a file in the directory that is there; where neither is, to itself.
pub open spec fn resolves(
    path: Seq<char>,
    found: Seq<char>,
    log: Seq<BusAnswer>,
    at: int,
    n: int,
) -> bool {
    &&& at < n <= log.len()
    &&& match log[at] {
        BusAnswer::Canonical(Some(p)) => n == at + 1 && found == p@,
        BusAnswer::Canonical(None) => n == at + 2 && match log[at + 1] {
            BusAnswer::CanonicalParent(Some((dir, name))) => lies_in(dir@, name@, found),
            BusAnswer::CanonicalParent(None) => found == path,
            _ => false,
        },
        _ => false,
    }
}

/// Whether `part` was answered with what is no answer to its question.
pub open spec fn misanswered<T>(
    part: spec_fn(Seq<BusAnswer>) -> BusStage<T>,
    log: Seq<BusAnswer>,
) -> bool {
    exists|k: int|
        0 <= k < log.len() && (#[trigger] part(log.take(k)) matches BusStage::Ask(a) && !replies(
            a,
            log[k],
        ))
}

/// Whether the mode is that of a regular file.
pub open spec fn is_file(mode: u32) -> bool {
    mode & 0o170000 == 0o100000
}

/// Whether the mode is that of a directory.
pub open spec fn is_dir(mode: u32) -> bool {
    mode & 0o170000 == 0o040000
}

/// Whether the mode is that of a block device.
pub open spec fn is_block(mode: u32) -> bool {
    mode & 0o170000 == 0o060000
}

/// Whether the answer says that the user owns a file or, with `dir`, a directory.
pub open spec fn says_owner(answer: BusAnswer, uid: u32, dir: bool) -> bool {
    match answer {
        BusAnswer::Stat(Some(st)) => st.uid == uid && if dir {
            is_dir(st.mode)
        } else {
            is_file(st.mode)
        },
        _ => false,
    }
}

/// What may be asked to authorize a call, when it is let through, and when it is refused.
pub open spec fn authorizes(
    cached: bool,
    kind: AuthKind,
    owned_path: Option<Seq<char>>,
    create_image: bool,
    log: Seq<BusAnswer>,
) -> bool {
    let part = |l: Seq<BusAnswer>| gate_stage(cached, kind, owned_path, create_image, l);
    let all = log.len() as int;
    match part(log) {
        BusStage::Ask(a) => !cached && match a {
            BusAsk::CallerUid => all == 0 && owned_path is Some,
            BusAsk::Canonical { path } => all == 1 && owned_path == Some(path),
            BusAsk::CanonicalParent { path } => all == 2 && owned_path == Some(path),
            BusAsk::Stat { path, parent } => {
                &&& parent == create_image
                &&& owned_path matches Some(p) && resolves(p, path, log, 1, all)
            },
            BusAsk::Polkit { action } => {
                &&& action == match kind {
                    AuthKind::Read => "net.contemno.luks-enroll.read"@,
                    AuthKind::Manage => "net.contemno.luks-enroll.manage"@,
                }
                &&& owned_path is None ==> all == 0
                &&& owned_path is Some ==> all > 0 && (log[0]->Uid_0 matches Some(uid)
                    ==> !says_owner(log[all - 1], uid, create_image))
            },
            BusAsk::Group { .. } => false,
        },
        BusStage::Done(remember, n) => {
            &&& 0 <= n <= all && remember == !cached
            &&& ({
                ||| cached && n == 0
                ||| n > 0 && log[n - 1] == BusAnswer::Authorized(true) && part(
                    log.take(n - 1),
                ) is Ask && part(log.take(n - 1))->Ask_0 is Polkit
                ||| n > 1 && owned_path is Some && part(log.take(n - 1)) is Ask && part(
                    log.take(n - 1),
                )->Ask_0 is Stat && log[0] is Uid && log[0]->Uid_0 is Some && says_owner(
                    log[n - 1],
                    log[0]->Uid_0->Some_0,
                    create_image,
                )
            })
        },
        BusStage::Refuse(e) => {
            ||| misanswered(part, log)
            ||| e is NotAuthorized && exists|k: int|
                0 <= k < all && log[k] == BusAnswer::Authorized(false) && (#[trigger] part(
                    log.take(k),
                )) is Ask && part(log.take(k))->Ask_0 is Polkit
        },
    }
}

/// Authorizing a call: nothing is asked for a caller who is remembered; one who owns the
/// file that the call is about, or the directory that it goes into, is let through, and
/// anyone else only if polkit allows the action of that kind of call. A call is refused
/// only where polkit says no.
#[verifier::spinoff_prover]
#[verifier::rlimit(60)]
pub proof fn law_gate(
    cached: bool,
    kind: AuthKind,
    owned_path: Option<Seq<char>>,
    create_image: bool,
    log: Seq<BusAnswer>,
)
    ensures
        authorizes(cached, kind, owned_path, create_image, log),
{
    let part = |l: Seq<BusAnswer>| gate_stage(cached, kind, owned_path, create_image, l);
    lemma_joins();
    if !cached {
        assert(part(log.take(0)) is Ask);
        if log.len() > 0 {
            assert(forall|k: int| 0 < k <= log.len() ==> #[trigger] log.take(k)[0] == log[0]);
            if owned_path is Some && log[0] is Uid && log.len() > 1 {
                assert(part(log.take(1)) is Ask);
                assert(forall|k: int| 1 < k <= log.len() ==> #[trigger] log.take(k)[1] == log[1]);
                if log.len() > 2 {
                    assert(forall|k: int|
                        2 < k <= log.len() ==> #[trigger] log.take(k)[2] == log[2]);
                    if part(log.take(2)) is Ask {
                        assert(part(log.take(2)) is Ask);
                    }
                    if log.len() > 3 {
                        assert(forall|k: int|
                            3 < k <= log.len() ==> #[trigger] log.take(k)[3] == log[3]);
                        if part(log.take(3)) is Ask {
                            assert(part(log.take(3)) is Ask);
                        }
                        if log.len() > 4 {
                            if part(log.take(4)) is Ask {
                                assert(part(log.take(4)) is Ask);
                            }
                        }
                    }
                }
            }
        }
    }
}

proof fn lemma_joins()
    ensures
        forall|dir: Seq<char>, name: Seq<char>|
            lies_in(dir, name, #[trigger] path_join(dir, name)),
{
    assert forall|dir: Seq<char>, name: Seq<char>|
        lies_in(dir, name, #[trigger] path_join(dir, name)) by {
        lemma_lies_in(dir, name);
    }
}

proof fn lemma_lies_in(dir: Seq<char>, name: Seq<char>)
    ensures
        lies_in(dir, name, path_join(dir, name)),
{
    reveal_strlit("/");
    assert("/"@ =~= seq!['/']);
    if name.len() > 0 {
        assert(name.take(1)[0] == name[0]);
        if name[0] == '/' {
            assert(name.take(1) =~= "/"@);
        }
        if starts_with(name, "/"@) {
            assert("/"@[0] == '/');
        }
    }
    assert(dir + "/"@ =~= dir.push('/'));
}

/// Whether the text fits an argument: it is 10 MiB at most.
pub open spec fn is_short(text: Seq<char>) -> bool {
    encode_utf8(text).len() <= 10_485_760
}

/// What may be asked about a call on a device behind its authorization, and what is handed
/// on.
pub open spec fn checks_device(
    cached: bool,
    kind: AuthKind,
    device: Seq<char>,
    extra: Seq<&str>,
    log: Seq<BusAnswer>,
    n: int,
) -> bool {
    let part = |l: Seq<BusAnswer>| gate_device_stage(cached, kind, device, extra, l);
    let all = log.len() as int;
    match part(log) {
        BusStage::Ask(a) => match a {
            BusAsk::Canonical { path } => path == device && all == n,
            BusAsk::CanonicalParent { path } => path == device && all == n + 1,
            BusAsk::Stat { path, parent } => !parent && resolves(device, path, log, n, all),
            _ => false,
        },
        BusStage::Refuse(_) => false,
        BusStage::Done(g, _) => match g.device {
            Ok(path) => {
                &&& is_short(path)
                &&& forall|i: int| 0 <= i < extra.len() ==> is_short((#[trigger] extra[i])@)
                &&& exists|m: int| #[trigger]
                    resolves(device, path, log, n, m) && m < all && (log[m] matches BusAnswer::Stat(
                        Some(st),
                    ) && (is_block(st.mode) || is_file(st.mode)))
            },
            Err(e) => {
                ||| e is Failed
                ||| exists|m: int, path: Seq<char>| #[trigger]
                    resolves(device, path, log, n, m) && m < all && match log[m] {
                        BusAnswer::Stat(None) => e == Refusal::InvalidArgs(
                            "Device path does not exist"@,
                        ),
                        BusAnswer::Stat(Some(st)) => if is_block(st.mode) || is_file(st.mode) {
                            !is_short(path) || exists|i: int|
                                0 <= i < extra.len() && !is_short((#[trigger] extra[i])@)
                        } else {
                            e == Refusal::InvalidArgs(
                                "Path is not a block device or regular file"@,
                            )
                        },
                        _ => false,
                    }
            },
        },
    }
}

/// A call on a device: it goes through the authorization for that kind of call on that
/// device first. What is handed on then is the path that was found to be that of a block
/// device or a regular file, where it and all other arguments are short enough.
#[verifier::spinoff_prover]
#[verifier::rlimit(60)]
pub proof fn law_gate_device(
    cached: bool,
    kind: AuthKind,
    device: Seq<char>,
    extra: Seq<&str>,
    log: Seq<BusAnswer>,
)
    ensures
        match gate_stage(cached, kind, Some(device), false, log) {
            BusStage::Ask(a) => gate_device_stage(cached, kind, device, extra, log) == BusStage::<
                Gated,
            >::Ask(a),
            BusStage::Refuse(e) => gate_device_stage(cached, kind, device, extra, log)
                == BusStage::<Gated>::Refuse(e),
            BusStage::Done(remember, n) => {
                &&& checks_device(cached, kind, device, extra, log, n)
                &&& gate_device_stage(cached, kind, device, extra, log) matches BusStage::Done(
                    g,
                    _,
                ) ==> g.remember == remember
            },
        },
{
    lemma_joins();
    law_gate(cached, kind, Some(device), false, log);
    match gate_stage(cached, kind, Some(device), false, log) {
        BusStage::Done(_, n) => {
            match realpath_stage(device, log, n) {
                BusStage::Done(path, m) => {
                    assert(resolves(device, path, log, n, m));
                    let part = |l: Seq<BusAnswer>|
                        gate_device_stage(cached, kind, device, extra, l);
                    assert(resolves(device, part(log)->Done_0.device->Ok_0, log, n, m)
                        || !(part(log) is Done && part(log)->Done_0.device is Ok));
                },
                _ => {},
            }
        },
        _ => {},
    }
}

/// What may be asked about a call for a new image file behind its authorization, and what
/// is handed on.
pub open spec fn checks_image(
    cached: bool,
    path: Seq<char>,
    passphrase: Seq<char>,
    log: Seq<BusAnswer>,
    n: int,
) -> bool {
    let part = |l: Seq<BusAnswer>| gate_image_stage(cached, path, passphrase, l);
    let all = log.len() as int;
    match part(log) {
        BusStage::Ask(a) => match a {
            BusAsk::Canonical { path: p } => p == path && all == n,
            BusAsk::CanonicalParent { path: p } => p == path && all == n + 1,
            BusAsk::CallerUid => all > n,
            BusAsk::Group { uid } => all > n && log[all - 1] == BusAnswer::Uid(Some(uid)),
            _ => false,
        },
        BusStage::Refuse(e) => e is Failed,
        BusStage::Done(g, _) => match g.path {
            Ok(found) => {
                &&& is_short(found) && is_short(passphrase)
                &&& exists|m: int| #[trigger]
                    resolves(path, found, log, n, m) && m < all && match g.owner {
                        Some(owner) => m + 1 < all && log[m] == BusAnswer::Uid(Some(owner.0))
                            && log[m + 1] == BusAnswer::Group(Some(owner.1)),
                        None => log[m] == BusAnswer::Uid(None) || (m + 1 < all && log[m]
                            is Uid && log[m + 1] == BusAnswer::Group(None)),
                    }
            },
            Err(e) => {
                &&& e is InvalidArgs && g.owner is None
                &&& exists|m: int, found: Seq<char>| #[trigger]
                    resolves(path, found, log, n, m) && !(is_short(found) && is_short(passphrase))
            },
        },
    }
}

/// A call for a new image file: it goes through the authorization to change, by the
/// directory that the file goes into, first. What is handed on then is the path that was
/// resolved, where it and the passphrase are short enough, and the caller with the
/// caller's group as the owner.
#[verifier::spinoff_prover]
#[verifier::rlimit(60)]
pub proof fn law_gate_image(
    cached: bool,
    path: Seq<char>,
    passphrase: Seq<char>,
    log: Seq<BusAnswer>,
)
    ensures
        match gate_stage(cached, AuthKind::Manage, Some(path), true, log) {
            BusStage::Ask(a) => gate_image_stage(cached, path, passphrase, log) == BusStage::<
                GatedFile,
            >::Ask(a),
            BusStage::Refuse(e) => gate_image_stage(cached, path, passphrase, log) == BusStage::<
                GatedFile,
            >::Refuse(e),
            BusStage::Done(remember, n) => {
                &&& checks_image(cached, path, passphrase, log, n)
                &&& gate_image_stage(cached, path, passphrase, log) matches BusStage::Done(g, _)
                    ==> g.remember == remember
            },
        },
{
    lemma_joins();
    law_gate(cached, AuthKind::Manage, Some(path), true, log);
    match gate_stage(cached, AuthKind::Manage, Some(path), true, log) {
        BusStage::Done(_, n) => {
            match realpath_stage(path, log, n) {
                BusStage::Done(found, m) => {
                    assert(resolves(path, found, log, n, m));
                    let part = |l: Seq<BusAnswer>| gate_image_stage(cached, path, passphrase, l);
                    assert(resolves(path, part(log)->Done_0.path->Ok_0, log, n, m)
                        || !(part(log) is Done && part(log)->Done_0.path is Ok));
                },
                _ => {},
            }
        },
        _ => {},
    }
}

/// A call with a descriptor: it is let through just where the descriptor is that of a
/// regular file or, unless that is asked for, of a block device, can be read from, and
/// written to as well where that is needed, and all other arguments are short enough.
pub proof fn law_gate_fd(
    mode: Option<u32>,
    flags: Option<i32>,
    need_write: bool,
    regular_only: bool,
    args: Seq<&str>,
)
    ensures
        fd_call_refusal(mode, flags, need_write, regular_only, args) is None <==> {
            &&& mode is Some && flags is Some
            &&& is_file(mode->Some_0) || (is_block(mode->Some_0) && !regular_only)
            &&& if need_write {
                flags->Some_0 & 3 == 2
            } else {
                flags->Some_0 & 3 != 1
            }
            &&& forall|i: int| 0 <= i < args.len() ==> is_short((#[trigger] args[i])@)
        },
        fd_call_refusal(mode, flags, need_write, regular_only, args) matches Some(e)
            ==> e is InvalidArgs,
{
}

/// Who is remembered: a sender, for half a minute to read and for five minutes to change,
/// counted from when the sender was let through to that last.
pub proof fn law_remembered_for(
    auth: Authorized,
    kind: AuthKind,
    sender: Seq<char>,
    time: u64,
    now: u64,
)
    ensures
        auth.with(kind, sender, time).cached(kind, sender, now) <==> now - time < match kind {
            AuthKind::Read => 30_000_000_000int,
            AuthKind::Manage => 300_000_000_000int,
        },
        !(Authorized { read: Map::empty(), manage: Map::empty() }).cached(kind, sender, now),
{
}

} // verus!
