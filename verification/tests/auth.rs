use std::collections::HashMap;

use luks_enroll::auth::{
    check_fd, check_lens, gate_fd, realpath, validate_device, AuthKind, BusAnswer, BusRequest, BusStep,
    LuksEnrollService, Stat, SvcError, AUTH_CACHE_TTL, MANAGE_AUTH_CACHE_TTL, MAX_STRING_LEN,
    O_RDWR, O_WRONLY, S_IFBLK, S_IFDIR, S_IFREG,
};

/// The machine and the bus, as a caller with the number `uid` meets them.
struct World {
    uid: Option<u32>,
    links: HashMap<String, String>,
    stats: HashMap<String, (u32, u32)>,
    polkit: bool,
    asked: Vec<String>,
}

fn world() -> World {
    let mut w = World {
        uid: Some(1000),
        links: HashMap::new(),
        stats: HashMap::new(),
        polkit: false,
        asked: Vec::new(),
    };
    w.put("/home/u", S_IFDIR, 1000);
    w.put("/home/u/mine.img", S_IFREG, 1000);
    w.put("/home/r/other.img", S_IFREG, 0);
    w.put("/dev/sda1", S_IFBLK, 0);
    w.put("/tmp", S_IFDIR, 0);
    w.links.insert("/home/u/link".to_string(), "/home/r/other.img".to_string());
    w
}

fn parent(path: &str) -> &str {
    match path.rfind('/') {
        Some(0) => "/",
        Some(n) => &path[..n],
        None => "",
    }
}

impl World {
    fn put(&mut self, path: &str, kind: u32, uid: u32) {
        self.links.insert(path.to_string(), path.to_string());
        self.stats.insert(path.to_string(), (kind | 0o600, uid));
    }

    fn perform(&mut self, request: BusRequest) -> BusAnswer {
        match request {
            BusRequest::CallerUid => BusAnswer::Uid(self.uid),
            BusRequest::Canonical { path } => BusAnswer::Canonical(self.links.get(&path).cloned()),
            BusRequest::CanonicalParent { path } => {
                let name = path.rsplit('/').next().unwrap_or("").to_string();
                let dir = self.links.get(parent(&path)).cloned();
                BusAnswer::CanonicalParent(dir.map(|d| (d, name)))
            }
            BusRequest::Stat { path, parent: up } => {
                let p = if up { parent(&path).to_string() } else { path };
                let st = self.stats.get(&p).map(|(mode, uid)| Stat { mode: *mode, uid: *uid });
                BusAnswer::Stat(st)
            }
            BusRequest::Polkit { action } => {
                self.asked.push(action);
                BusAnswer::Authorized(self.polkit)
            }
            BusRequest::Group { uid } => BusAnswer::Group(Some(uid + 1)),
        }
    }

    fn run<T>(&mut self, op: impl Fn(&Vec<BusAnswer>) -> BusStep<T>) -> Result<T, SvcError> {
        let mut log: Vec<BusAnswer> = Vec::new();
        loop {
            match op(&log) {
                BusStep::Ask(r) => log.push(self.perform(r)),
                BusStep::Refuse(e) => return Err(e),
                BusStep::Done(t, used) => {
                    assert_eq!(used, log.len());
                    return Ok(t);
                }
            }
        }
    }
}

fn refused<T>(r: Result<T, SvcError>) -> SvcError {
    match r {
        Ok(_) => panic!("expected a refusal"),
        Err(e) => e,
    }
}

#[test]
fn validate_device_accepts_file_rejects_missing_and_dir() {
    let mut w = world();
    let p = w.run(|log| validate_device("/home/u/link", log, 0));
    match p {
        Ok(p) => assert_eq!(p, "/home/r/other.img"),
        Err(_) => panic!("file should validate"),
    }
    let p = w.run(|log| validate_device("/dev/sda1", log, 0));
    assert!(p.is_ok());
    let derr = refused(w.run(|log| validate_device("/tmp", log, 0)));
    assert!(matches!(derr, SvcError::InvalidArgs(_)));
    assert_eq!(derr.message(), "Path is not a block device or regular file");
    let merr = refused(w.run(|log| validate_device("/nonexistent/nope", log, 0)));
    assert!(matches!(merr, SvcError::InvalidArgs(_)));
    assert_eq!(merr.message(), "Device path does not exist");
    assert_eq!(merr.name(), "org.freedesktop.DBus.Error.InvalidArgs");
}

#[test]
fn check_lens_enforces_max_len() {
    let at_limit = "x".repeat(MAX_STRING_LEN);
    assert!(check_lens(&[&at_limit]).is_ok());
    let over = "x".repeat(MAX_STRING_LEN + 1);
    let err = refused(check_lens(&[&over]));
    assert!(matches!(err, SvcError::InvalidArgs(_)));
    assert_eq!(err.message(), "Parameter exceeds maximum length");
    // The length is that of the bytes.
    let wide = "\u{e9}".repeat(MAX_STRING_LEN / 2 + 1);
    assert!(check_lens(&[&wide]).is_err());
    assert!(check_lens(&[]).is_ok());
    assert!(check_lens(&["", &over]).is_err());
}

#[test]
fn real_paths() {
    let mut w = world();
    let path = |w: &mut World, p: &str| match w.run(|log| realpath(p, log, 0)) {
        Ok(s) => s,
        Err(_) => panic!("a path always resolves"),
    };
    assert_eq!(path(&mut w, "/home/u/link"), "/home/r/other.img");
    w.links.insert("/home/alias".to_string(), "/home/u".to_string());
    assert_eq!(path(&mut w, "/home/alias/new.img"), "/home/u/new.img");
    assert_eq!(path(&mut w, "/none/new.img"), "/none/new.img");
}

#[test]
fn owners_need_no_authorization() {
    let mut w = world();
    let svc = LuksEnrollService::new();
    let gate = |w: &mut World, path: &str, create: bool| {
        w.run(|log| svc.gate(":1.1", AuthKind::Manage, Some(path), create, 0, log))
    };
    assert!(matches!(gate(&mut w, "/home/u/mine.img", false), Ok(true)));
    assert!(w.asked.is_empty());
    // A link does not help, nor does a directory, nor a device.
    for path in ["/home/u/link", "/home/u", "/dev/sda1", "/none"] {
        let err = refused(gate(&mut w, path, false));
        assert_eq!(err.name(), "org.freedesktop.PolicyKit1.Error.NotAuthorized");
        assert_eq!(
            err.message(),
            "Authorization required for LUKS enrollment operations"
        );
    }
    assert_eq!(w.asked, vec!["net.contemno.luks-enroll.manage"; 4]);
    // For a new file the directory counts.
    assert!(matches!(gate(&mut w, "/home/u/new.img", true), Ok(true)));
    assert!(gate(&mut w, "/tmp/new.img", true).is_err());
    // Without a known caller there is no owner.
    w.uid = None;
    assert!(gate(&mut w, "/home/u/mine.img", false).is_err());
    w.polkit = true;
    assert!(matches!(gate(&mut w, "/home/u/mine.img", false), Ok(true)));
}

#[test]
fn authorizations_are_remembered_for_a_while() {
    let mut w = world();
    let mut svc = LuksEnrollService::new();
    let now = 1_000_000_000_000;
    svc.remember(AuthKind::Read, ":1.1", now);
    svc.remember(AuthKind::Manage, ":1.2", now);
    let gate = |w: &mut World, sender: &str, kind: AuthKind, at: u64| {
        w.run(|log| svc.gate(sender, kind, None, false, at, log))
    };
    assert!(matches!(gate(&mut w, ":1.1", AuthKind::Read, now), Ok(false)));
    assert!(gate(&mut w, ":1.1", AuthKind::Read, now + AUTH_CACHE_TTL - 1).is_ok());
    assert!(gate(&mut w, ":1.1", AuthKind::Read, now + AUTH_CACHE_TTL).is_err());
    assert_eq!(w.asked, vec!["net.contemno.luks-enroll.read"]);
    assert!(gate(&mut w, ":1.2", AuthKind::Manage, now + MANAGE_AUTH_CACHE_TTL - 1).is_ok());
    assert!(gate(&mut w, ":1.2", AuthKind::Manage, now + MANAGE_AUTH_CACHE_TTL).is_err());
    // Another sender, or another kind of call, is not let through by it.
    assert!(gate(&mut w, ":1.3", AuthKind::Read, now).is_err());
    assert!(gate(&mut w, ":1.1", AuthKind::Manage, now).is_err());
    assert_eq!(AUTH_CACHE_TTL, 30 * 1_000_000_000);
    assert_eq!(MANAGE_AUTH_CACHE_TTL, 300 * 1_000_000_000);
}

#[test]
fn device_calls_check_the_caller_first() {
    let mut w = world();
    let svc = LuksEnrollService::new();
    let over = "x".repeat(MAX_STRING_LEN + 1);
    let call = |w: &mut World, device: &str, extra: &[&str]| {
        w.run(|log| svc.gate_device(":1.1", AuthKind::Manage, device, extra, 0, log))
    };
    match call(&mut w, "/home/u/mine.img", &["pw"]) {
        Ok(g) => {
            assert!(matches!(g.device, Ok(p) if p == "/home/u/mine.img"));
            assert!(g.remember);
        }
        Err(_) => panic!("the owner is let through"),
    }
    let err = refused(call(&mut w, "/tmp", &[&over]));
    assert!(matches!(err, SvcError::NotAuthorized(_)));
    // Bad arguments do not undo the authorization.
    w.polkit = true;
    for (device, extra, why) in [
        ("/tmp", "", "Path is not a block device or regular file"),
        ("/dev/sda1", over.as_str(), "Parameter exceeds maximum length"),
    ] {
        match call(&mut w, device, &["", extra]) {
            Ok(g) => {
                assert!(g.remember);
                assert_eq!(refused(g.device).message(), why);
            }
            Err(_) => panic!("the caller is let through"),
        }
    }
}

#[test]
fn new_images_belong_to_the_caller() {
    let mut w = world();
    let svc = LuksEnrollService::new();
    w.links.insert("/home/alias".to_string(), "/home/u".to_string());
    let call = |w: &mut World, path: &str, passphrase: &str| {
        w.run(|log| svc.gate_image(":1.1", path, passphrase, 0, log))
    };
    match call(&mut w, "/home/alias/new.img", "pw") {
        Ok(g) => {
            assert!(matches!(g.path, Ok(p) if p == "/home/u/new.img"));
            assert_eq!(g.owner, Some((1000, 1001)));
            assert!(g.remember);
        }
        Err(_) => panic!("the owner of the directory is let through"),
    }
    assert!(call(&mut w, "/tmp/new.img", "pw").is_err());
    let over = "x".repeat(MAX_STRING_LEN + 1);
    match call(&mut w, "/home/u/new.img", &over) {
        Ok(g) => assert_eq!(refused(g.path).message(), "Parameter exceeds maximum length"),
        Err(_) => panic!("the owner of the directory is let through"),
    }
    w.uid = None;
    w.polkit = true;
    match call(&mut w, "/home/u/new.img", "") {
        Ok(g) => assert_eq!(g.owner, None),
        Err(_) => panic!("the caller is authorized"),
    }
}

#[test]
fn descriptors_are_checked() {
    let of = |mode: Option<u32>, flags: Option<i32>, write: bool, regular: bool| {
        match check_fd(mode, flags, write, regular) {
            Ok(()) => "ok".to_string(),
            Err(e) => e.message().to_string(),
        }
    };
    let file = Some(S_IFREG | 0o600);
    let disk = Some(S_IFBLK | 0o600);
    assert_eq!(of(file, Some(O_RDWR), true, true), "ok");
    assert_eq!(of(file, Some(0), false, true), "ok");
    assert_eq!(of(disk, Some(O_RDWR | 0o2000), true, false), "ok");
    assert_eq!(of(None, Some(0), false, false), "Invalid file descriptor");
    assert_eq!(of(file, None, false, false), "Invalid file descriptor");
    assert_eq!(of(disk, Some(O_RDWR), true, true), "Descriptor is not a regular file");
    assert_eq!(of(Some(S_IFDIR), None, true, false), "Descriptor is not a regular file");
    assert_eq!(of(file, Some(O_WRONLY), true, true), "File descriptor is not writable");
    assert_eq!(of(file, Some(0), true, true), "File descriptor is not writable");
    assert_eq!(of(file, Some(O_WRONLY), false, true), "File descriptor is not readable");
    let over = "x".repeat(MAX_STRING_LEN + 1);
    assert!(gate_fd(file, Some(0), false, true, &["x"]).is_ok());
    let err = refused(gate_fd(file, Some(0), false, true, &[&over]));
    assert_eq!(err.message(), "Parameter exceeds maximum length");
    let err = refused(gate_fd(None, Some(0), false, true, &[&over]));
    assert_eq!(err.message(), "Invalid file descriptor");
}
