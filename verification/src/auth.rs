//! Who may call what: authorization, and the checks on the arguments of a call.
//!
//! A call is let through if its sender was let through a short while ago, if
//! the caller owns the file that the call is about, or if polkit says so. Then
//! the device is resolved and checked, and then the length of every argument.

use vstd::prelude::*;
use vstd::utf8::encode_utf8;

use crate::cache::{fresh, is_fresh};
use crate::constants::{POLKIT_ACTION_MANAGE, POLKIT_ACTION_READ};
use crate::devices::{join_path, path_join};
use crate::table::Table;
use crate::text::{concat, dec, dec_i64};

verus! {

/// How long the authorization to read is remembered: 30 seconds.
pub const AUTH_CACHE_TTL: u64 = 30_000_000_000;

/// How long the authorization to change is remembered: five minutes.
pub const MANAGE_AUTH_CACHE_TTL: u64 = 300_000_000_000;

/// The longest argument that is accepted, in bytes: 10 MiB.
pub const MAX_STRING_LEN: usize = 10_485_760;

/// The bits of a file's mode that tell its type.
pub const S_IFMT: u32 = 0o170000;

/// File type: a directory.
pub const S_IFDIR: u32 = 0o040000;

/// File type: a block device.
pub const S_IFBLK: u32 = 0o060000;

/// File type: a regular file.
pub const S_IFREG: u32 = 0o100000;

/// The bits of a descriptor's flags that tell the access mode.
pub const O_ACCMODE: i32 = 3;

/// Access mode: write only.
pub const O_WRONLY: i32 = 1;

/// Access mode: read and write.
pub const O_RDWR: i32 = 2;

/// What a call on the bus is refused with.
#[derive(Debug)]
pub enum SvcError {
    NotAuthorized(String),
    InvalidArgs(String),
    Failed(String),
}

/// The contents of a [`SvcError`].
#[verifier::ext_equal]
pub ghost enum Refusal {
    NotAuthorized(Seq<char>),
    InvalidArgs(Seq<char>),
    Failed(Seq<char>),
}

impl View for SvcError {
    type V = Refusal;

    open spec fn view(&self) -> Refusal {
        match *self {
            SvcError::NotAuthorized(s) => Refusal::NotAuthorized(s@),
            SvcError::InvalidArgs(s) => Refusal::InvalidArgs(s@),
            SvcError::Failed(s) => Refusal::Failed(s@),
        }
    }
}

impl SvcError {
    /// The name of the error on the bus.
    pub fn name(&self) -> (r: &'static str)
        ensures
            r@ == match self@ {
                Refusal::NotAuthorized(_) => "org.freedesktop.PolicyKit1.Error.NotAuthorized"@,
                Refusal::InvalidArgs(_) => "org.freedesktop.DBus.Error.InvalidArgs"@,
                Refusal::Failed(_) => "org.freedesktop.DBus.Error.Failed"@,
            },
    {
        match self {
            SvcError::NotAuthorized(_) => "org.freedesktop.PolicyKit1.Error.NotAuthorized",
            SvcError::InvalidArgs(_) => "org.freedesktop.DBus.Error.InvalidArgs",
            SvcError::Failed(_) => "org.freedesktop.DBus.Error.Failed",
        }
    }

    /// The message of the error.
    pub fn message(&self) -> (r: &str)
        ensures
            r@ == match self@ {
                Refusal::NotAuthorized(s) => s,
                Refusal::InvalidArgs(s) => s,
                Refusal::Failed(s) => s,
            },
    {
        match self {
            SvcError::NotAuthorized(s) => s.as_str(),
            SvcError::InvalidArgs(s) => s.as_str(),
            SvcError::Failed(s) => s.as_str(),
        }
    }
}

fn invalid(message: &str) -> (e: SvcError)
    ensures
        e@ == Refusal::InvalidArgs(message@),
{
    SvcError::InvalidArgs(message.to_string())
}

/// What a method does.
#[derive(Clone, Copy, PartialEq, Eq, Structural)]
pub enum AuthKind {
    /// It only reads.
    Read,
    /// It changes something, or unlocks.
    Manage,
}

/// How long an authorization is remembered.
pub open spec fn auth_ttl(kind: AuthKind) -> u64 {
    match kind {
        AuthKind::Read => AUTH_CACHE_TTL,
        AuthKind::Manage => MANAGE_AUTH_CACHE_TTL,
    }
}

/// The polkit action that gates a method.
pub open spec fn polkit_action(kind: AuthKind) -> Seq<char> {
    match kind {
        AuthKind::Read => POLKIT_ACTION_READ@,
        AuthKind::Manage => POLKIT_ACTION_MANAGE@,
    }
}

/// What is known of a file.
#[derive(Clone, Copy)]
pub struct Stat {
    pub mode: u32,
    pub uid: u32,
}

/// A question about the caller or about a file.
pub enum BusRequest {
    /// The user id of the caller: [`BusAnswer::Uid`].
    CallerUid,
    /// The canonical form of `path`: [`BusAnswer::Canonical`].
    Canonical { path: String },
    /// The canonical form of the directory that `path` lies in, and its name there:
    /// [`BusAnswer::CanonicalParent`].
    CanonicalParent { path: String },
    /// What is at `path` or, with `parent`, what the directory is that it lies in:
    /// [`BusAnswer::Stat`].
    Stat { path: String, parent: bool },
    /// Does polkit allow the caller `action`? The user may be asked:
    /// [`BusAnswer::Authorized`].
    Polkit { action: String },
    /// The main group of a user: [`BusAnswer::Group`].
    Group { uid: u32 },
}

/// The contents of a [`BusRequest`].
#[verifier::ext_equal]
pub ghost enum BusAsk {
    CallerUid,
    Canonical { path: Seq<char> },
    CanonicalParent { path: Seq<char> },
    Stat { path: Seq<char>, parent: bool },
    Polkit { action: Seq<char> },
    Group { uid: u32 },
}

impl View for BusRequest {
    type V = BusAsk;

    open spec fn view(&self) -> BusAsk {
        match *self {
            BusRequest::CallerUid => BusAsk::CallerUid,
            BusRequest::Canonical { path } => BusAsk::Canonical { path: path@ },
            BusRequest::CanonicalParent { path } => BusAsk::CanonicalParent { path: path@ },
            BusRequest::Stat { path, parent } => BusAsk::Stat { path: path@, parent },
            BusRequest::Polkit { action } => BusAsk::Polkit { action: action@ },
            BusRequest::Group { uid } => BusAsk::Group { uid },
        }
    }
}

/// The answer to a [`BusRequest`].
pub enum BusAnswer {
    Uid(Option<u32>),
    Canonical(Option<String>),
    CanonicalParent(Option<(String, String)>),
    Stat(Option<Stat>),
    Authorized(bool),
    Group(Option<u32>),
}

/// How far a check has come.
pub enum BusStep<T> {
    Ask(BusRequest),
    Refuse(SvcError),
    Done(T, usize),
}

/// The contents of a [`BusStep`].
#[verifier::ext_equal]
pub ghost enum BusStage<T> {
    Ask(BusAsk),
    Refuse(Refusal),
    Done(T, int),
}

impl<T: View> View for BusStep<T> {
    type V = BusStage<T::V>;

    open spec fn view(&self) -> BusStage<T::V> {
        match *self {
            BusStep::Ask(r) => BusStage::Ask(r@),
            BusStep::Refuse(e) => BusStage::Refuse(e@),
            BusStep::Done(t, n) => BusStage::Done(t@, n as int),
        }
    }
}

/// The refusal of a call whose answers are not those that it asked for.
pub open spec fn op_refused() -> Refusal {
    Refusal::Failed("Operation failed"@)
}

fn refused_op() -> (e: SvcError)
    ensures
        e@ == op_refused(),
{
    SvcError::Failed("Operation failed".to_string())
}

// ---------------------------------------------------------------------------
// Paths
// ---------------------------------------------------------------------------

/// Resolving `path` as far as possible: the whole path or, where nothing is there,
/// the directory that it lies in; else it stays as it is.
pub open spec fn realpath_stage(path: Seq<char>, log: Seq<BusAnswer>, at: int) -> BusStage<
    Seq<char>,
> {
    if at >= log.len() {
        BusStage::Ask(BusAsk::Canonical { path })
    } else {
        match log[at] {
            BusAnswer::Canonical(Some(p)) => BusStage::Done(p@, at + 1),
            BusAnswer::Canonical(None) => if at + 1 >= log.len() {
                BusStage::Ask(BusAsk::CanonicalParent { path })
            } else {
                match log[at + 1] {
                    BusAnswer::CanonicalParent(Some((dir, name))) => BusStage::Done(
                        path_join(dir@, name@),
                        at + 2,
                    ),
                    BusAnswer::CanonicalParent(None) => BusStage::Done(path, at + 2),
                    _ => BusStage::Refuse(op_refused()),
                }
            },
            _ => BusStage::Refuse(op_refused()),
        }
    }
}

/// Resolves `path` as far as possible.
pub fn realpath(path: &str, log: &Vec<BusAnswer>, at: usize) -> (r: BusStep<String>)
    ensures
        r@ == realpath_stage(path@, log@, at as int),
{
    if at >= log.len() {
        return BusStep::Ask(BusRequest::Canonical { path: path.to_string() });
    }
    match &log[at] {
        BusAnswer::Canonical(Some(p)) => BusStep::Done(p.clone(), at + 1),
        BusAnswer::Canonical(None) => {
            let next: usize = at + 1;
            if next >= log.len() {
                return BusStep::Ask(BusRequest::CanonicalParent { path: path.to_string() });
            }
            match &log[next] {
                BusAnswer::CanonicalParent(Some(found)) => BusStep::Done(
                    join_path(found.0.as_str(), found.1.as_str()),
                    next + 1,
                ),
                BusAnswer::CanonicalParent(None) => BusStep::Done(path.to_string(), next + 1),
                _ => BusStep::Refuse(refused_op()),
            }
        },
        _ => BusStep::Refuse(refused_op()),
    }
}

/// Resolving and checking a device argument: it must be a block device or a
/// regular file.
pub open spec fn validate_stage(path: Seq<char>, log: Seq<BusAnswer>, at: int) -> BusStage<
    Seq<char>,
> {
    match realpath_stage(path, log, at) {
        BusStage::Ask(a) => BusStage::Ask(a),
        BusStage::Refuse(e) => BusStage::Refuse(e),
        BusStage::Done(p, n) => if n >= log.len() {
            BusStage::Ask(BusAsk::Stat { path: p, parent: false })
        } else {
            match log[n] {
                BusAnswer::Stat(None) => BusStage::Refuse(
                    Refusal::InvalidArgs("Device path does not exist"@),
                ),
                BusAnswer::Stat(Some(st)) => if st.mode & S_IFMT == S_IFBLK || st.mode & S_IFMT
                    == S_IFREG {
                    BusStage::Done(p, n + 1)
                } else {
                    BusStage::Refuse(
                        Refusal::InvalidArgs("Path is not a block device or regular file"@),
                    )
                },
                _ => BusStage::Refuse(op_refused()),
            }
        },
    }
}

/// Resolves and checks a device argument. What is checked is what is worked on
/// afterwards.
pub fn validate_device(path: &str, log: &Vec<BusAnswer>, at: usize) -> (r: BusStep<String>)
    ensures
        r@ == validate_stage(path@, log@, at as int),
{
    let (p, n) = match realpath(path, log, at) {
        BusStep::Ask(r) => {
            return BusStep::Ask(r);
        },
        BusStep::Refuse(e) => {
            return BusStep::Refuse(e);
        },
        BusStep::Done(p, n) => (p, n),
    };
    if n >= log.len() {
        return BusStep::Ask(BusRequest::Stat { path: p, parent: false });
    }
    match &log[n] {
        BusAnswer::Stat(None) => BusStep::Refuse(invalid("Device path does not exist")),
        BusAnswer::Stat(Some(st)) => {
            if st.mode & S_IFMT == S_IFBLK || st.mode & S_IFMT == S_IFREG {
                BusStep::Done(p, n + 1)
            } else {
                BusStep::Refuse(invalid("Path is not a block device or regular file"))
            }
        },
        _ => BusStep::Refuse(refused_op()),
    }
}

// ---------------------------------------------------------------------------
// Arguments
// ---------------------------------------------------------------------------

/// Whether every argument is short enough.
pub open spec fn lens_ok(args: Seq<&str>) -> bool {
    forall|i: int| 0 <= i < args.len() ==> encode_utf8((#[trigger] args[i])@).len() <= MAX_STRING_LEN
}

/// Refuses an argument of more than 10 MiB.
pub fn check_lens(args: &[&str]) -> (r: Result<(), SvcError>)
    ensures
        match r {
            Ok(_) => lens_ok(args@),
            Err(e) => !lens_ok(args@) && e@ == Refusal::InvalidArgs(
                "Parameter exceeds maximum length"@,
            ),
        },
{
    for i in 0..args.len()
        invariant
            forall|k: int|
                0 <= k < i ==> encode_utf8((#[trigger] args@[k])@).len() <= MAX_STRING_LEN,
    {
        let bytes = args[i].as_bytes();
        if bytes.len() > MAX_STRING_LEN {
            assert(encode_utf8(args@[i as int]@).len() > MAX_STRING_LEN);
            return Err(invalid("Parameter exceeds maximum length"));
        }
    }
    Ok(())
}

/// What a descriptor is refused for, by the mode of its file and its flags, each as
/// far as they could be read.
pub open spec fn fd_refusal(
    mode: Option<u32>,
    flags: Option<i32>,
    need_write: bool,
    regular_only: bool,
) -> Option<Seq<char>> {
    match mode {
        None => Some("Invalid file descriptor"@),
        Some(m) => if !(m & S_IFMT == S_IFREG || (!regular_only && m & S_IFMT == S_IFBLK)) {
            Some("Descriptor is not a regular file"@)
        } else {
            match flags {
                None => Some("Invalid file descriptor"@),
                Some(f) => if need_write && f & O_ACCMODE != O_RDWR {
                    Some("File descriptor is not writable"@)
                } else if !need_write && f & O_ACCMODE == O_WRONLY {
                    Some("File descriptor is not readable"@)
                } else {
                    None
                },
            }
        },
    }
}

/// Checks a descriptor that came with a call: it must be that of a regular file or,
/// unless `regular_only` holds, of a block device, and it must be open for reading
/// or, with `need_write`, for both. Whoever has the descriptor may use it.
pub fn check_fd(
    mode: Option<u32>,
    flags: Option<i32>,
    need_write: bool,
    regular_only: bool,
) -> (r: Result<(), SvcError>)
    ensures
        match r {
            Ok(_) => fd_refusal(mode, flags, need_write, regular_only) is None,
            Err(e) => fd_refusal(mode, flags, need_write, regular_only) is Some && e@
                == Refusal::InvalidArgs(
                fd_refusal(mode, flags, need_write, regular_only)->Some_0,
            ),
        },
{
    let m = match mode {
        Some(m) => m,
        None => {
            return Err(invalid("Invalid file descriptor"));
        },
    };
    if !(m & S_IFMT == S_IFREG || (!regular_only && m & S_IFMT == S_IFBLK)) {
        return Err(invalid("Descriptor is not a regular file"));
    }
    let f = match flags {
        Some(f) => f,
        None => {
            return Err(invalid("Invalid file descriptor"));
        },
    };
    if need_write {
        if f & O_ACCMODE != O_RDWR {
            return Err(invalid("File descriptor is not writable"));
        }
    } else if f & O_ACCMODE == O_WRONLY {
        return Err(invalid("File descriptor is not readable"));
    }
    Ok(())
}

/// What a call with a descriptor is refused for: the descriptor is looked at first,
/// and then the lengths of the other arguments.
pub open spec fn fd_call_refusal(
    mode: Option<u32>,
    flags: Option<i32>,
    need_write: bool,
    regular_only: bool,
    args: Seq<&str>,
) -> Option<Refusal> {
    match fd_refusal(mode, flags, need_write, regular_only) {
        Some(why) => Some(Refusal::InvalidArgs(why)),
        None => if lens_ok(args) {
            None
        } else {
            Some(too_long())
        },
    }
}

/// Checks a call with a descriptor, by [`check_fd`] and [`check_lens`].
pub fn gate_fd(
    mode: Option<u32>,
    flags: Option<i32>,
    need_write: bool,
    regular_only: bool,
    args: &[&str],
) -> (r: Result<(), SvcError>)
    ensures
        match r {
            Ok(_) => fd_call_refusal(mode, flags, need_write, regular_only, args@) is None,
            Err(e) => fd_call_refusal(mode, flags, need_write, regular_only, args@) == Some(e@),
        },
{
    match check_fd(mode, flags, need_write, regular_only) {
        Ok(_) => check_lens(args),
        Err(e) => Err(e),
    }
}

/// The path at which the process finds the file behind its descriptor `fd`.
pub fn fd_path(fd: i32) -> (r: String)
    ensures
        r@ == "/proc/self/fd/"@ + dec(fd as int),
{
    let n = dec_i64(fd as i64);
    concat("/proc/self/fd/", n.as_str())
}

// ---------------------------------------------------------------------------
// Authorization
// ---------------------------------------------------------------------------

/// Asking polkit: if it agrees, the call is let through, and that is remembered.
pub open spec fn polkit_stage(kind: AuthKind, log: Seq<BusAnswer>, at: int) -> BusStage<bool> {
    if at >= log.len() {
        BusStage::Ask(BusAsk::Polkit { action: polkit_action(kind) })
    } else {
        match log[at] {
            BusAnswer::Authorized(true) => BusStage::Done(true, at + 1),
            BusAnswer::Authorized(false) => BusStage::Refuse(
                Refusal::NotAuthorized(
                    "Authorization required for LUKS enrollment operations"@,
                ),
            ),
            _ => BusStage::Refuse(op_refused()),
        }
    }
}

/// Whether the caller `uid` owns what the call is about: a regular file or, for a
/// file that is yet to be made, the directory that it goes into.
pub open spec fn owns(uid: u32, st: Option<Stat>, create_image: bool) -> bool {
    match st {
        Some(st) => st.uid == uid && st.mode & S_IFMT == if create_image {
            S_IFDIR
        } else {
            S_IFREG
        },
        None => false,
    }
}

/// The authorization of a call. The result says whether it is to be remembered.
pub open spec fn gate_stage(
    cached: bool,
    kind: AuthKind,
    owned_path: Option<Seq<char>>,
    create_image: bool,
    log: Seq<BusAnswer>,
) -> BusStage<bool> {
    if cached {
        BusStage::Done(false, 0)
    } else {
        match owned_path {
            None => polkit_stage(kind, log, 0),
            Some(path) => if log.len() == 0 {
                BusStage::Ask(BusAsk::CallerUid)
            } else {
                match log[0] {
                    BusAnswer::Uid(None) => polkit_stage(kind, log, 1),
                    BusAnswer::Uid(Some(uid)) => match realpath_stage(path, log, 1) {
                        BusStage::Ask(a) => BusStage::Ask(a),
                        BusStage::Refuse(e) => BusStage::Refuse(e),
                        BusStage::Done(p, n) => if n >= log.len() {
                            BusStage::Ask(BusAsk::Stat { path: p, parent: create_image })
                        } else {
                            match log[n] {
                                BusAnswer::Stat(st) => if owns(uid, st, create_image) {
                                    BusStage::Done(true, n + 1)
                                } else {
                                    polkit_stage(kind, log, n + 1)
                                },
                                _ => BusStage::Refuse(op_refused()),
                            }
                        },
                    },
                    _ => BusStage::Refuse(op_refused()),
                }
            },
        }
    }
}

fn polkit(kind: AuthKind, log: &Vec<BusAnswer>, at: usize) -> (r: BusStep<bool>)
    ensures
        r@ == polkit_stage(kind, log@, at as int),
{
    if at >= log.len() {
        let action = match kind {
            AuthKind::Read => POLKIT_ACTION_READ,
            AuthKind::Manage => POLKIT_ACTION_MANAGE,
        };
        return BusStep::Ask(BusRequest::Polkit { action: action.to_string() });
    }
    match &log[at] {
        BusAnswer::Authorized(true) => BusStep::Done(true, at + 1),
        BusAnswer::Authorized(false) => BusStep::Refuse(
            SvcError::NotAuthorized(
                "Authorization required for LUKS enrollment operations".to_string(),
            ),
        ),
        _ => BusStep::Refuse(refused_op()),
    }
}

fn is_owner(uid: u32, st: &Option<Stat>, create_image: bool) -> (r: bool)
    ensures
        r == owns(uid, *st, create_image),
{
    match st {
        Some(st) => {
            let wanted: u32 = if create_image { S_IFDIR } else { S_IFREG };
            st.uid == uid && st.mode & S_IFMT == wanted
        },
        None => false,
    }
}

fn gate_call(
    cached: bool,
    kind: AuthKind,
    owned_path: Option<&str>,
    create_image: bool,
    log: &Vec<BusAnswer>,
) -> (r: BusStep<bool>)
    ensures
        r@ == gate_stage(
            cached,
            kind,
            match owned_path {
                Some(p) => Some(p@),
                None => None,
            },
            create_image,
            log@,
        ),
{
    if cached {
        return BusStep::Done(false, 0);
    }
    let path = match owned_path {
        Some(p) => p,
        None => {
            return polkit(kind, log, 0);
        },
    };
    if log.len() == 0 {
        return BusStep::Ask(BusRequest::CallerUid);
    }
    let uid: u32 = match &log[0] {
        BusAnswer::Uid(None) => {
            return polkit(kind, log, 1);
        },
        BusAnswer::Uid(Some(uid)) => *uid,
        _ => {
            return BusStep::Refuse(refused_op());
        },
    };
    let (p, n) = match realpath(path, log, 1) {
        BusStep::Ask(r) => {
            return BusStep::Ask(r);
        },
        BusStep::Refuse(e) => {
            return BusStep::Refuse(e);
        },
        BusStep::Done(p, n) => (p, n),
    };
    if n >= log.len() {
        return BusStep::Ask(BusRequest::Stat { path: p, parent: create_image });
    }
    match &log[n] {
        BusAnswer::Stat(st) => {
            if is_owner(uid, st, create_image) {
                BusStep::Done(true, n + 1)
            } else {
                polkit(kind, log, n + 1)
            }
        },
        _ => BusStep::Refuse(refused_op()),
    }
}

/// Who was let through, and when: for each kind of method, by the sender.
pub struct LuksEnrollService {
    read_auth: Table<u64>,
    manage_auth: Table<u64>,
}

/// The contents of a [`LuksEnrollService`].
#[verifier::ext_equal]
pub ghost struct Authorized {
    pub read: Map<Seq<char>, u64>,
    pub manage: Map<Seq<char>, u64>,
}

impl Authorized {
    /// Who was let through to methods of that kind.
    pub open spec fn of(self, kind: AuthKind) -> Map<Seq<char>, u64> {
        match kind {
            AuthKind::Read => self.read,
            AuthKind::Manage => self.manage,
        }
    }

    /// Whether `sender` was let through to methods of that kind a short while ago.
    pub open spec fn cached(self, kind: AuthKind, sender: Seq<char>, now: u64) -> bool {
        self.of(kind).contains_key(sender) && fresh(self.of(kind)[sender], now, auth_ttl(kind))
    }

    /// `sender` has been let through.
    pub open spec fn with(self, kind: AuthKind, sender: Seq<char>, now: u64) -> Authorized {
        match kind {
            AuthKind::Read => Authorized { read: self.read.insert(sender, now), ..self },
            AuthKind::Manage => Authorized { manage: self.manage.insert(sender, now), ..self },
        }
    }
}

impl View for LuksEnrollService {
    type V = Authorized;

    closed spec fn view(&self) -> Authorized {
        Authorized { read: self.read_auth@, manage: self.manage_auth@ }
    }
}

impl LuksEnrollService {
    /// Nobody was let through yet.
    pub fn new() -> (s: LuksEnrollService)
        ensures
            s@ == (Authorized { read: Map::empty(), manage: Map::empty() }),
    {
        LuksEnrollService { read_auth: Table::new(), manage_auth: Table::new() }
    }

    fn is_cached(&self, kind: AuthKind, sender: &str, now: u64) -> (r: bool)
        ensures
            r == self@.cached(kind, sender@, now),
    {
        match kind {
            AuthKind::Read => match self.read_auth.get(sender) {
                Some(t) => is_fresh(*t, now, AUTH_CACHE_TTL),
                None => false,
            },
            AuthKind::Manage => match self.manage_auth.get(sender) {
                Some(t) => is_fresh(*t, now, MANAGE_AUTH_CACHE_TTL),
                None => false,
            },
        }
    }

    /// The authorization of a call by `sender`. The result says whether it is to be
    /// remembered, by [`LuksEnrollService::remember`]. `owned_path` is the file or
    /// device that the call is about, and `create_image` says that it is a file that
    /// is yet to be made.
    pub fn gate(
        &self,
        sender: &str,
        kind: AuthKind,
        owned_path: Option<&str>,
        create_image: bool,
        now: u64,
        log: &Vec<BusAnswer>,
    ) -> (r: BusStep<bool>)
        ensures
            r@ == gate_stage(
                self@.cached(kind, sender@, now),
                kind,
                match owned_path {
                    Some(p) => Some(p@),
                    None => None,
                },
                create_image,
                log@,
            ),
    {
        gate_call(self.is_cached(kind, sender, now), kind, owned_path, create_image, log)
    }

    /// Remembers that `sender` was let through.
    pub fn remember(&mut self, kind: AuthKind, sender: &str, now: u64)
        ensures
            final(self)@ == old(self)@.with(kind, sender@, now),
    {
        match kind {
            AuthKind::Read => {
                self.read_auth.insert(sender, now);
            },
            AuthKind::Manage => {
                self.manage_auth.insert(sender, now);
            },
        }
    }

    /// The authorization of a call on a device and, if the caller is let through, the
    /// resolution and check of the device, and the check of the lengths of the
    /// device's path and of `extra`.
    pub fn gate_device(
        &self,
        sender: &str,
        kind: AuthKind,
        device: &str,
        extra: &[&str],
        now: u64,
        log: &Vec<BusAnswer>,
    ) -> (r: BusStep<GatedDevice>)
        ensures
            r@ == gate_device_stage(
                self@.cached(kind, sender@, now),
                kind,
                device@,
                extra@,
                log@,
            ),
    {
        let (remember, n) = match self.gate(sender, kind, Some(device), false, now, log) {
            BusStep::Ask(r) => {
                return BusStep::Ask(r);
            },
            BusStep::Refuse(e) => {
                return BusStep::Refuse(e);
            },
            BusStep::Done(remember, n) => (remember, n),
        };
        let path = match validate_device(device, log, n) {
            BusStep::Ask(r) => {
                return BusStep::Ask(r);
            },
            BusStep::Refuse(e) => {
                return BusStep::Done(GatedDevice { device: Err(e), remember }, log.len());
            },
            BusStep::Done(path, _) => path,
        };
        let device = match check_path_lens(path.as_str(), extra) {
            Ok(_) => Ok(path),
            Err(e) => Err(e),
        };
        BusStep::Done(GatedDevice { device, remember }, log.len())
    }

    /// The authorization of a call that makes the image file `path` and, if the
    /// caller is let through, the resolution of the path, the check of its length and
    /// of that of `passphrase`, and the user and group that the file is to belong to.
    pub fn gate_image(
        &self,
        sender: &str,
        path: &str,
        passphrase: &str,
        now: u64,
        log: &Vec<BusAnswer>,
    ) -> (r: BusStep<GatedImage>)
        ensures
            r@ == gate_image_stage(
                self@.cached(AuthKind::Manage, sender@, now),
                path@,
                passphrase@,
                log@,
            ),
    {
        let (remember, n) = match self.gate(sender, AuthKind::Manage, Some(path), true, now, log) {
            BusStep::Ask(r) => {
                return BusStep::Ask(r);
            },
            BusStep::Refuse(e) => {
                return BusStep::Refuse(e);
            },
            BusStep::Done(remember, n) => (remember, n),
        };
        let (path, m) = match realpath(path, log, n) {
            BusStep::Ask(r) => {
                return BusStep::Ask(r);
            },
            BusStep::Refuse(e) => {
                return BusStep::Refuse(e);
            },
            BusStep::Done(path, m) => (path, m),
        };
        let extra = [passphrase];
        assert(extra@[0]@ == passphrase@);
        if let Err(e) = check_path_lens(path.as_str(), &extra) {
            return BusStep::Done(
                GatedImage { path: Err(e), owner: None, remember },
                log.len(),
            );
        }
        match file_owner(log, m) {
            BusStep::Ask(r) => BusStep::Ask(r),
            BusStep::Refuse(e) => BusStep::Refuse(e),
            BusStep::Done(owner, _) => BusStep::Done(
                GatedImage { path: Ok(path), owner: owner.0, remember },
                log.len(),
            ),
        }
    }
}

/// What becomes of a call on a device whose caller was let through.
pub struct GatedDevice {
    /// The path of the device, or what is wrong with the arguments.
    pub device: Result<String, SvcError>,
    /// Whether the authorization is to be remembered.
    pub remember: bool,
}

/// The contents of a [`GatedDevice`].
#[verifier::ext_equal]
pub ghost struct Gated {
    pub device: Result<Seq<char>, Refusal>,
    pub remember: bool,
}

impl View for GatedDevice {
    type V = Gated;

    open spec fn view(&self) -> Gated {
        Gated { device: path_result(self.device), remember: self.remember }
    }
}

/// The contents of a path or a refusal.
pub open spec fn path_result(r: Result<String, SvcError>) -> Result<Seq<char>, Refusal> {
    match r {
        Ok(p) => Ok(p@),
        Err(e) => Err(e@),
    }
}

/// What is refused if an argument is too long.
pub open spec fn too_long() -> Refusal {
    Refusal::InvalidArgs("Parameter exceeds maximum length"@)
}

fn check_path_lens(path: &str, extra: &[&str]) -> (r: Result<(), SvcError>)
    ensures
        match r {
            Ok(_) => encode_utf8(path@).len() <= MAX_STRING_LEN && lens_ok(extra@),
            Err(e) => e@ == too_long() && !(encode_utf8(path@).len() <= MAX_STRING_LEN && lens_ok(
                extra@,
            )),
        },
{
    let bytes = path.as_bytes();
    if bytes.len() > MAX_STRING_LEN {
        return Err(invalid("Parameter exceeds maximum length"));
    }
    check_lens(extra)
}

/// The checks on a call on a device.
pub open spec fn gate_device_stage(
    cached: bool,
    kind: AuthKind,
    device: Seq<char>,
    extra: Seq<&str>,
    log: Seq<BusAnswer>,
) -> BusStage<Gated> {
    match gate_stage(cached, kind, Some(device), false, log) {
        BusStage::Ask(a) => BusStage::Ask(a),
        BusStage::Refuse(e) => BusStage::Refuse(e),
        BusStage::Done(remember, n) => match validate_stage(device, log, n) {
            BusStage::Ask(a) => BusStage::Ask(a),
            BusStage::Refuse(e) => BusStage::Done(
                Gated { device: Err(e), remember },
                log.len() as int,
            ),
            BusStage::Done(path, _) => BusStage::Done(
                Gated {
                    device: if encode_utf8(path).len() <= MAX_STRING_LEN && lens_ok(extra) {
                        Ok(path)
                    } else {
                        Err(too_long())
                    },
                    remember,
                },
                log.len() as int,
            ),
        },
    }
}

/// What becomes of a call for a new image file whose caller was let through.
pub struct GatedImage {
    /// The path of the file, or what is wrong with the arguments.
    pub path: Result<String, SvcError>,
    /// The user and the group that the file is to belong to, if they are known.
    pub owner: Option<(u32, u32)>,
    /// Whether the authorization is to be remembered.
    pub remember: bool,
}

/// The contents of a [`GatedImage`].
#[verifier::ext_equal]
pub ghost struct GatedFile {
    pub path: Result<Seq<char>, Refusal>,
    pub owner: Option<(u32, u32)>,
    pub remember: bool,
}

impl View for GatedImage {
    type V = GatedFile;

    open spec fn view(&self) -> GatedFile {
        GatedFile { path: path_result(self.path), owner: self.owner, remember: self.remember }
    }
}

/// The user and the group that a file is to belong to.
pub struct FileOwner(pub Option<(u32, u32)>);

impl View for FileOwner {
    type V = Option<(u32, u32)>;

    open spec fn view(&self) -> Option<(u32, u32)> {
        self.0
    }
}

/// The caller and the caller's main group, if both are known.
pub open spec fn owner_stage(log: Seq<BusAnswer>, at: int) -> BusStage<Option<(u32, u32)>> {
    if at >= log.len() {
        BusStage::Ask(BusAsk::CallerUid)
    } else {
        match log[at] {
            BusAnswer::Uid(None) => BusStage::Done(None, at + 1),
            BusAnswer::Uid(Some(uid)) => if at + 1 >= log.len() {
                BusStage::Ask(BusAsk::Group { uid })
            } else {
                match log[at + 1] {
                    BusAnswer::Group(None) => BusStage::Done(None, at + 2),
                    BusAnswer::Group(Some(gid)) => BusStage::Done(Some((uid, gid)), at + 2),
                    _ => BusStage::Refuse(op_refused()),
                }
            },
            _ => BusStage::Refuse(op_refused()),
        }
    }
}

fn file_owner(log: &Vec<BusAnswer>, at: usize) -> (r: BusStep<FileOwner>)
    ensures
        r@ == owner_stage(log@, at as int),
{
    if at >= log.len() {
        return BusStep::Ask(BusRequest::CallerUid);
    }
    match &log[at] {
        BusAnswer::Uid(None) => BusStep::Done(FileOwner(None), at + 1),
        BusAnswer::Uid(Some(uid)) => {
            let next: usize = at + 1;
            if next >= log.len() {
                return BusStep::Ask(BusRequest::Group { uid: *uid });
            }
            match &log[next] {
                BusAnswer::Group(None) => BusStep::Done(FileOwner(None), next + 1),
                BusAnswer::Group(Some(gid)) => BusStep::Done(
                    FileOwner(Some((*uid, *gid))),
                    next + 1,
                ),
                _ => BusStep::Refuse(refused_op()),
            }
        },
        _ => BusStep::Refuse(refused_op()),
    }
}

/// The checks on a call for a new image file.
pub open spec fn gate_image_stage(
    cached: bool,
    path: Seq<char>,
    passphrase: Seq<char>,
    log: Seq<BusAnswer>,
) -> BusStage<GatedFile> {
    match gate_stage(cached, AuthKind::Manage, Some(path), true, log) {
        BusStage::Ask(a) => BusStage::Ask(a),
        BusStage::Refuse(e) => BusStage::Refuse(e),
        BusStage::Done(remember, n) => match realpath_stage(path, log, n) {
            BusStage::Ask(a) => BusStage::Ask(a),
            BusStage::Refuse(e) => BusStage::Refuse(e),
            BusStage::Done(p, m) => if encode_utf8(p).len() > MAX_STRING_LEN || encode_utf8(
                passphrase,
            ).len() > MAX_STRING_LEN {
                BusStage::Done(
                    GatedFile { path: Err(too_long()), owner: None, remember },
                    log.len() as int,
                )
            } else {
                match owner_stage(log, m) {
                    BusStage::Ask(a) => BusStage::Ask(a),
                    BusStage::Refuse(e) => BusStage::Refuse(e),
                    BusStage::Done(owner, _) => BusStage::Done(
                        GatedFile { path: Ok(p), owner, remember },
                        log.len() as int,
                    ),
                }
            },
        },
    }
}

// ---------------------------------------------------------------------------
// Laws
// ---------------------------------------------------------------------------

/// Whether the answers say that the caller owns what the call is about.
pub open spec fn owner_answers(who: BusAnswer, what: BusAnswer, create_image: bool) -> bool {
    match (who, what) {
        (BusAnswer::Uid(Some(uid)), BusAnswer::Stat(st)) => owns(uid, st, create_image),
        _ => false,
    }
}

/// A call is let through only for one of three reasons: its sender is remembered;
/// polkit said yes, as the last answer; or the caller owns what the call is about.
pub proof fn law_gate_is_sound(
    cached: bool,
    kind: AuthKind,
    owned_path: Option<Seq<char>>,
    create_image: bool,
    log: Seq<BusAnswer>,
)
    requires
        gate_stage(cached, kind, owned_path, create_image, log) is Done,
    ensures
        ({
            let n = gate_stage(cached, kind, owned_path, create_image, log)->Done_1;
            ||| cached
            ||| 0 < n <= log.len() && log[n - 1] == BusAnswer::Authorized(true)
            ||| 1 < n <= log.len() && owned_path is Some && owner_answers(
                log[0],
                log[n - 1],
                create_image,
            )
        }),
{
}

/// A call is never let through against polkit: where it was asked and said no, the
/// call is refused.
pub proof fn law_polkit_refusal_counts(
    kind: AuthKind,
    owned_path: Option<Seq<char>>,
    create_image: bool,
    log: Seq<BusAnswer>,
)
    requires
        log.len() > 0,
        gate_stage(false, kind, owned_path, create_image, log.drop_last()) == BusStage::<bool>::Ask(
            BusAsk::Polkit { action: polkit_action(kind) },
        ),
        log.last() == BusAnswer::Authorized(false),
    ensures
        gate_stage(false, kind, owned_path, create_image, log) == BusStage::<bool>::Refuse(
            Refusal::NotAuthorized("Authorization required for LUKS enrollment operations"@),
        ),
{
    let before = log.drop_last();
    assert(forall|i: int| 0 <= i < before.len() ==> before[i] == log[i]);
}

/// Remembering one sender changes nothing for another, and being let through to
/// read does not let through to change.
pub proof fn law_remembering_is_narrow(
    auth: Authorized,
    kind: AuthKind,
    sender: Seq<char>,
    time: u64,
    other_kind: AuthKind,
    other: Seq<char>,
    now: u64,
)
    ensures
        other != sender || other_kind != kind ==> auth.with(kind, sender, time).cached(
            other_kind,
            other,
            now,
        ) == auth.cached(other_kind, other, now),
        auth.with(kind, sender, time).cached(kind, sender, now) == (now - time < auth_ttl(kind)),
{
}

/// A caller who was let through is remembered whatever is wrong with the arguments,
/// unless that was known already: the arguments are looked at only afterwards.
pub proof fn law_authorization_outlives_bad_arguments(
    cached: bool,
    kind: AuthKind,
    device: Seq<char>,
    extra: Seq<&str>,
    passphrase: Seq<char>,
    log: Seq<BusAnswer>,
)
    ensures
        gate_device_stage(cached, kind, device, extra, log) matches BusStage::Done(g, _)
            ==> g.remember == !cached,
        gate_image_stage(cached, device, passphrase, log) matches BusStage::Done(g, _)
            ==> g.remember == !cached,
        gate_stage(cached, kind, Some(device), false, log) is Refuse
            ==> gate_device_stage(cached, kind, device, extra, log) == BusStage::<Gated>::Refuse(
            gate_stage(cached, kind, Some(device), false, log)->Refuse_0,
        ),
{
}

} // verus!
