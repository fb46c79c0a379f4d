//! The operations on LUKS2 volumes, run against a machine that keeps headers in
//! memory.

use std::collections::{BTreeMap, HashMap, HashSet};

use base64::engine::general_purpose::STANDARD as B64;
use base64::Engine;
use luks_enroll::cache::VolumeKeyCache;
use luks_enroll::codec::Secret;
use luks_enroll::devices::get_device_info;
use luks_enroll::facts::{Facts, Found, Question, Tags};
use luks_enroll::fido2::Fido2Enrollment;
use luks_enroll::format::format_container;
use luks_enroll::host::{Answer, Failure, KeyslotsArea, Next, PathKind, Request, Step};
use luks_enroll::luks::{
    fido2_token_refs, find_token_for_keyslot, list_keyslots, metadata_json, password_keyslots,
    tokens_by_type, tpm2_token_refs,
};
use luks_enroll::recovery::make_recovery_key;
use luks_enroll::service::{
    check_unlock_token, get_systemd_version, image_fd_length, is_unlock_token, keyslots_json, op_check_fido2_enrolled,
    op_close_volume, op_create_encrypted_image, op_create_image_fd, op_create_image_for,
    op_enroll_fido2,
    op_enroll_passphrase, op_enroll_recovery_key, op_enroll_tpm2, op_open_volume,
    op_unlock_with_token, op_verify_passphrase, op_wipe_slot, tokens_json,
};
use luks_enroll::tpm2::{new_secret, SealResult};
use luks_enroll::volume::{
    add_keyslot_by_volume_key, extract_token_volume_key, get_volume_key, set_token,
    verify_passphrase, verify_token,
};
use serde_json::Value;

const PASSPHRASE: &str = "test-passphrase-123";
const IMAGE: &str = "/tmp/luks-enroll/test.img";

struct Slot {
    passphrase: Vec<u8>,
    kdf: &'static str,
}

struct Volume {
    key: Vec<u8>,
    slots: BTreeMap<i32, Slot>,
    tokens: BTreeMap<i32, Value>,
    area: KeyslotsArea,
}

/// A machine with LUKS2 headers in memory.
struct Machine {
    volumes: HashMap<String, Volume>,
    files: HashSet<String>,
    others: HashSet<String>,
    owners: HashMap<String, (u32, u32)>,
    lengths: HashMap<String, u64>,
    mappings: HashMap<String, String>,
    mounted: HashSet<String>,
    cache: VolumeKeyCache,
    now: u64,
    next_key: u8,
    asked: Vec<String>,
    fido2_secret: Option<Vec<u8>>,
    fido2_names: Vec<String>,
    sealed: Option<(Vec<u8>, Vec<u8>)>,
}

fn machine() -> Machine {
    Machine {
        volumes: HashMap::new(),
        files: HashSet::new(),
        others: HashSet::new(),
        owners: HashMap::new(),
        lengths: HashMap::new(),
        mappings: HashMap::new(),
        mounted: HashSet::new(),
        cache: VolumeKeyCache::new(),
        now: 1_000_000_000,
        next_key: 1,
        asked: Vec::new(),
        fido2_secret: None,
        fido2_names: Vec::new(),
        sealed: None,
    }
}

fn text(s: &str) -> Value {
    Value::String(s.to_string())
}

impl Machine {
    fn header(&self, device: &str) -> Option<String> {
        let volume = self.volumes.get(device)?;
        let mut slots = serde_json::Map::new();
        for (n, slot) in &volume.slots {
            let mut kdf = serde_json::Map::new();
            kdf.insert("type".to_string(), text(slot.kdf));
            let mut s = serde_json::Map::new();
            s.insert("type".to_string(), text("luks2"));
            s.insert("kdf".to_string(), Value::Object(kdf));
            slots.insert(n.to_string(), Value::Object(s));
        }
        let mut tokens = serde_json::Map::new();
        for (n, token) in &volume.tokens {
            tokens.insert(n.to_string(), token.clone());
        }
        let mut top = serde_json::Map::new();
        top.insert("keyslots".to_string(), Value::Object(slots));
        top.insert("tokens".to_string(), Value::Object(tokens));
        Some(Value::Object(top).to_string())
    }

    fn meta(&self, device: &str) -> Option<Value> {
        metadata_json(self.header(device).as_deref())
    }

    fn open_slot(&self, device: &str, slot: i32, passphrase: &[u8]) -> Result<(i32, Secret), Failure> {
        let volume = match self.volumes.get(device) {
            Some(v) => v,
            None => return Err(Failure::Load),
        };
        for (n, s) in &volume.slots {
            if (slot == -1 || slot == *n) && s.passphrase == passphrase {
                return Ok((*n, Secret::new(volume.key.clone())));
            }
        }
        Err(Failure::Call("Operation not permitted".to_string()))
    }

    fn perform(&mut self, request: Request) -> Answer {
        match request {
            Request::Open { device } => Answer::Outcome(if self.volumes.contains_key(&device) {
                Ok(())
            } else {
                Err(Failure::Load)
            }),
            Request::Metadata { device } => {
                self.asked.push("metadata".to_string());
                Answer::Text(self.header(&device))
            }
            Request::CachedKey { device } => {
                Answer::Key(self.cache.cached_volume_key(&device, self.now))
            }
            Request::CacheKey { device, key } => {
                self.cache.cache_volume_key(&device, key, self.now);
                Answer::Ack
            }
            Request::UnlockFido2 { tokens, pin } => {
                self.asked.push(format!("fido2 {} {pin}", tokens.len()));
                match &self.fido2_secret {
                    Some(s) => Answer::Derived(Ok(Secret::new(s.clone()))),
                    None => Answer::Derived(Err("No FIDO2 device found".to_string())),
                }
            }
            Request::UnsealTpm2 { tokens, pin } => {
                self.asked.push(format!("tpm2 {} {pin}", tokens.len()));
                match &self.sealed {
                    Some((secret, blob)) if tokens[0].blob == *blob => {
                        Answer::Derived(Ok(Secret::new(secret.clone())))
                    }
                    _ => Answer::Derived(Err("Esys_Load failed: 0x000001df".to_string())),
                }
            }
            Request::VolumeKey { device, slot, passphrase } => {
                self.asked.push(format!("key {slot}"));
                Answer::SlotKey(self.open_slot(&device, slot, passphrase.as_bytes()))
            }
            Request::AddKeyslot { device, key, passphrase, minimal_pbkdf } => {
                self.asked.push("add".to_string());
                let volume = match self.volumes.get_mut(&device) {
                    Some(v) => v,
                    None => return Answer::Number(Err(Failure::Load)),
                };
                if volume.key != key.as_bytes() {
                    return Answer::Number(Err(Failure::Call("wrong volume key".to_string())));
                }
                let mut n = 0;
                while volume.slots.contains_key(&n) {
                    n += 1;
                }
                let kdf = if minimal_pbkdf { "pbkdf2" } else { "argon2id" };
                volume.slots.insert(n, Slot { passphrase: passphrase.as_bytes().to_vec(), kdf });
                Answer::Number(Ok(n))
            }
            Request::SetToken { device, token, json } => {
                self.asked.push(format!("token {token}"));
                let volume = match self.volumes.get_mut(&device) {
                    Some(v) => v,
                    None => return Answer::Number(Err(Failure::Load)),
                };
                match json {
                    None => {
                        volume.tokens.remove(&token);
                        Answer::Number(Ok(token))
                    }
                    Some(j) => {
                        let mut n = token;
                        if n < 0 {
                            n = 0;
                            while volume.tokens.contains_key(&n) {
                                n += 1;
                            }
                        }
                        let value: Value = serde_json::from_str(&j).expect("token JSON");
                        volume.tokens.insert(n, value);
                        Answer::Number(Ok(n))
                    }
                }
            }
            Request::DestroyKeyslot { device, slot } => {
                self.asked.push(format!("destroy {slot}"));
                let volume = match self.volumes.get_mut(&device) {
                    Some(v) => v,
                    None => return Answer::Outcome(Err(Failure::Load)),
                };
                match volume.slots.remove(&slot) {
                    Some(_) => Answer::Outcome(Ok(())),
                    None => Answer::Outcome(Err(Failure::Call("No such slot".to_string()))),
                }
            }
            Request::Format { device, area } => {
                if !self.files.contains(&device) {
                    return Answer::NewKey(Err(Failure::Open));
                }
                let key = vec![self.next_key; 64];
                self.next_key += 1;
                self.volumes.insert(
                    device,
                    Volume {
                        key: key.clone(),
                        slots: BTreeMap::new(),
                        tokens: BTreeMap::new(),
                        area,
                    },
                );
                Answer::NewKey(Ok(Secret::new(key)))
            }
            Request::Activate { device, name, key } => {
                if self.volumes[&device].key != key.as_bytes() {
                    return Answer::Outcome(Err(Failure::Call("wrong volume key".to_string())));
                }
                self.mappings.insert(name, device);
                Answer::Outcome(Ok(()))
            }
            Request::Deactivate { name } => {
                self.mappings.remove(&name);
                Answer::Outcome(Ok(()))
            }
            Request::MappingActive { name } => Answer::Flag(self.mappings.contains_key(&name)),
            Request::MappingMounted { name } => Answer::Flag(self.mounted.contains(&name)),
            Request::EnrolledPaths { .. } => Answer::Names(self.fido2_names.clone()),
            Request::EnrollFido2 { path, pin } => {
                self.asked.push(format!("enroll {path} {}", pin.unwrap_or_default()));
                match &self.fido2_secret {
                    Some(s) => Answer::Fido2(Ok(Fido2Enrollment {
                        cred_id: vec![1, 2, 3],
                        salt: vec![4, 5, 6],
                        hmac_secret: s.clone(),
                    })),
                    None => Answer::Fido2(Err("fido_dev_open failed".to_string())),
                }
            }
            Request::Seal { secret, pcrs, .. } => {
                self.asked.push(format!("seal {pcrs}"));
                let blob = vec![0x5A; 96];
                self.sealed = Some((secret.as_bytes().to_vec(), blob.clone()));
                Answer::Sealed(Ok(SealResult {
                    blob,
                    policy_hash: vec![0xAB; 32],
                    primary_alg: "ecc",
                    srk_blob: vec![0x11; 32],
                }))
            }
            Request::PathKind { path } => Answer::Path(if self.files.contains(&path) {
                PathKind::RegularFile
            } else if self.others.contains(&path) {
                PathKind::Other
            } else {
                PathKind::Missing
            }),
            Request::CreateFile { path, last } => {
                self.lengths.insert(path.clone(), last + 1);
                self.files.insert(path);
                Answer::Outcome(Ok(()))
            }
            Request::Chown { path, uid, gid } => {
                self.owners.insert(path, (uid, gid));
                Answer::Outcome(Ok(()))
            }
            Request::Wipefs { .. } | Request::Partition { .. } | Request::WaitForNode { .. } => {
                unreachable!("no removable device here")
            }
        }
    }

    fn run<T>(&mut self, op: impl Fn(&Vec<Answer>) -> Next<T>) -> T {
        let mut log: Vec<Answer> = Vec::new();
        loop {
            match op(&log) {
                Next::Ask(r) => log.push(self.perform(r)),
                Next::Done(t) => return t,
            }
        }
    }

    fn step<T>(&mut self, op: impl Fn(&Vec<Answer>) -> Step<T>) -> Result<T, String> {
        let mut log: Vec<Answer> = Vec::new();
        loop {
            match op(&log) {
                Step::Ask(r) => log.push(self.perform(r)),
                Step::Fail(e) => return Err(e.0),
                Step::Done(t, _) => return Ok(t),
            }
        }
    }

    fn create(&mut self, path: &str, size_mb: i32, passphrase: &str) -> (bool, i32, String) {
        self.run(|log| op_create_encrypted_image(path, size_mb, passphrase, None, log))
    }

    fn enroll_recovery(&mut self, path: &str, passphrase: &str, method: &str) -> (bool, String, String) {
        let key = make_recovery_key().expect("random numbers");
        self.run(|log| op_enroll_recovery_key(path, passphrase, method, "", &key, log))
    }

    fn verify(&mut self, path: &str, passphrase: &str) -> Result<i32, String> {
        self.step(|log| verify_passphrase(path, passphrase, log, 0))
    }

    fn forget(&mut self, path: &str) {
        self.cache.clear_volume_key_cache(path);
    }
}

/// A machine with one volume, which the passphrase opens.
fn new_luks_image() -> Machine {
    let mut m = machine();
    let (ok, keyslot, err) = m.create(IMAGE, 32, PASSPHRASE);
    assert!(ok, "op_create_encrypted_image failed: {err}");
    assert_eq!(keyslot, 0, "first keyslot should be 0");
    m
}

#[test]
fn create_image_format_and_verify() {
    let mut m = new_luks_image();
    let meta = m.meta(IMAGE);

    let slots = list_keyslots(meta.as_ref());
    assert_eq!(slots.len(), 1);
    assert_eq!(slots.get(&0).map(String::as_str), Some("luks2"));

    assert_eq!(m.verify(IMAGE, PASSPHRASE), Ok(0));
    assert!(m.verify(IMAGE, "wrong").is_err());
    assert_eq!(
        m.verify(IMAGE, "wrong"),
        Err("Incorrect passphrase or recovery key".to_string())
    );

    assert_eq!(password_keyslots(meta.as_ref()), vec![0]);
    assert!(tokens_by_type(meta.as_ref(), "systemd-recovery").is_empty());
}

#[test]
fn keyless_create_caches_vk_and_first_enroll_needs_no_passphrase() {
    let mut m = machine();
    let path = "/tmp/luks-enroll/keyless.img";
    m.forget(path);

    let (ok, keyslot, err) = m.create(path, 32, "");
    assert!(ok, "keyless create failed: {err}");
    assert_eq!(keyslot, -1, "no keyslot is created up front");

    let meta = m.meta(path);
    assert!(list_keyslots(meta.as_ref()).is_empty(), "no keyslots persisted");
    assert!(password_keyslots(meta.as_ref()).is_empty());

    let (ok, recovery_key, err) = m.enroll_recovery(path, "", "passphrase");
    assert!(ok, "first enroll via cached VK failed: {err}");

    let meta = m.meta(path);
    assert_eq!(list_keyslots(meta.as_ref()).len(), 1);
    assert!(m.verify(path, &recovery_key).is_ok());
}

#[test]
fn keyless_volume_has_no_recovery_path_once_cache_is_gone() {
    let mut m = machine();
    let path = "/tmp/luks-enroll/orphan.img";
    m.forget(path);

    let (ok, _, err) = m.create(path, 32, "");
    assert!(ok, "keyless create failed: {err}");

    m.forget(path);

    let (ok, _, _) = m.enroll_recovery(path, "", "passphrase");
    assert!(!ok, "without the cached VK there is no way to enroll");
    assert!(m.verify(path, "").is_err());
}

#[test]
fn create_refuses_existing_file_instead_of_clobbering() {
    let mut m = machine();
    let path = "/tmp/luks-enroll/exists.img";

    let (ok, _, err) = m.create(path, 32, PASSPHRASE);
    assert!(ok, "initial create failed: {err}");

    let (ok, slot, err) = m.create(path, 32, PASSPHRASE);
    assert!(!ok, "second create must refuse the existing file");
    assert_eq!(slot, -1);
    assert_eq!(err, "A file already exists at this path");

    assert_eq!(list_keyslots(m.meta(path).as_ref()).len(), 1);
    assert_eq!(m.verify(path, PASSPHRASE), Ok(0));
}

#[test]
fn create_image_rejects_bad_paths_and_sizes() {
    let mut m = machine();
    m.others.insert("/tmp".to_string());

    let (ok, slot, err) = m.create("/var/evil.img", 32, PASSPHRASE);
    assert!(!ok);
    assert_eq!(slot, -1);
    assert_eq!(err, "Path must be under /home/ or /tmp/");

    let (ok, _, err) = m.create("/tmp", 32, PASSPHRASE);
    assert!(!ok);
    assert_eq!(err, "Path must be a regular file");

    let p = "/tmp/luks-enroll/x.img";
    let (ok, _, err) = m.create(p, 0, PASSPHRASE);
    assert!(!ok);
    assert_eq!(err, "Operation failed");
    let (ok, _, _) = m.create(p, 9000, PASSPHRASE);
    assert!(!ok);
    assert!(m.files.is_empty());
}

#[test]
fn create_image_sets_length_and_owner() {
    let mut m = machine();
    let p = "/home/user/x.img";
    let (ok, slot, err) =
        m.run(|log| op_create_encrypted_image(p, 4, PASSPHRASE, Some((1000, 100)), log));
    assert!(ok, "{err}");
    assert_eq!(slot, 0);
    assert_eq!(m.lengths[p], 4 * 1024 * 1024);
    assert_eq!(m.owners[p], (1000, 100));
    assert!(m.volumes[p].area == KeyslotsArea::Default);

    let p = "/home/user/y.img";
    let (ok, slot, err) = m.run(|log| op_create_image_for(p, 4, PASSPHRASE, None, log));
    assert!(!ok);
    assert_eq!((slot, err.as_str()), (-1, "Operation failed"));
    assert!(!m.files.contains(p));
    let (ok, _, _) = m.run(|log| op_create_image_for(p, 4, PASSPHRASE, Some((1, 2)), log));
    assert!(ok);
    assert_eq!(m.owners[p], (1, 2));
}

#[test]
fn enroll_recovery_key_golden_token() {
    let mut m = new_luks_image();

    let (ok, recovery_key, err) = m.enroll_recovery(IMAGE, PASSPHRASE, "passphrase");
    assert!(ok, "recovery enrollment failed: {err}");

    assert_eq!(recovery_key.len(), 71);
    assert_eq!(recovery_key.split('-').count(), 8);

    assert!(m.verify(IMAGE, &recovery_key).is_ok());

    let meta = m.meta(IMAGE).expect("metadata");
    let tokens = tokens_by_type(Some(&meta), "systemd-recovery");
    assert_eq!(tokens.len(), 1);
    let (tid, slots) = &tokens[0];
    assert_eq!(slots.len(), 1);
    let tok = &meta["tokens"][tid.to_string()];
    assert_eq!(tok["type"], "systemd-recovery");
    assert_eq!(tok["keyslots"][0], slots[0].to_string());

    assert_eq!(password_keyslots(Some(&meta)), vec![0]);
    assert_eq!(find_token_for_keyslot(Some(&meta), slots[0]), *tid);
}

#[test]
fn recovery_keyslot_uses_minimal_pbkdf() {
    let mut m = new_luks_image();

    let (ok, _recovery_key, err) = m.enroll_recovery(IMAGE, PASSPHRASE, "passphrase");
    assert!(ok, "recovery enrollment failed: {err}");

    let meta = m.meta(IMAGE).expect("metadata");
    let rk_slot = tokens_by_type(Some(&meta), "systemd-recovery")[0].1[0];
    let kdf = &meta["keyslots"][rk_slot.to_string()]["kdf"]["type"];
    assert_eq!(kdf, "pbkdf2", "recovery keyslot must use minimal pbkdf2, got {kdf}");

    assert_eq!(meta["keyslots"]["0"]["kdf"]["type"], "argon2id");
}

#[test]
fn token_volume_key_targets_keyslot_and_falls_back() {
    let mut m = new_luks_image();

    let (ok, recovery_key, err) = m.enroll_recovery(IMAGE, PASSPHRASE, "passphrase");
    assert!(ok, "recovery enrollment failed: {err}");

    let tokens = tokens_by_type(m.meta(IMAGE).as_ref(), "systemd-recovery");
    assert_eq!(tokens.len(), 1);
    let rk_slot = tokens[0].1[0];
    let secret = Secret::new(recovery_key.as_bytes().to_vec());

    m.asked.clear();
    let (slot, vk_targeted) = m
        .step(|log| extract_token_volume_key(IMAGE, "systemd-recovery", &secret, log, 0))
        .expect("targeted extraction");
    assert_eq!(slot, rk_slot, "should unlock via the token's own keyslot");
    assert_eq!(m.asked, vec!["metadata".to_string(), format!("key {rk_slot}")]);

    m.asked.clear();
    let (_slot, vk_fallback) = m
        .step(|log| extract_token_volume_key(IMAGE, "systemd-fido2", &secret, log, 0))
        .expect("fallback extraction");
    assert_eq!(
        vk_targeted.as_bytes(),
        vk_fallback.as_bytes(),
        "targeted and fallback paths must yield the same volume key"
    );
    assert_eq!(m.asked, vec!["metadata", "key -1"]);

    let wrong = Secret::new(b"wrong".to_vec());
    let failed = m.step(|log| extract_token_volume_key(IMAGE, "systemd-recovery", &wrong, log, 0));
    match failed {
        Err(e) => assert_eq!(e, "Failed to get volume key (Operation not permitted)"),
        Ok(_) => panic!("a wrong passphrase opened the volume"),
    }
}

#[test]
fn enroll_passphrase_and_wipe_slot() {
    let mut m = new_luks_image();

    let (ok, _, err) = m.run(|log| {
        op_enroll_passphrase(IMAGE, PASSPHRASE, "second-passphrase", "passphrase", "", log)
    });
    assert!(ok, "passphrase enrollment failed: {err}");
    assert_eq!(m.verify(IMAGE, "second-passphrase"), Ok(1));
    assert_eq!(list_keyslots(m.meta(IMAGE).as_ref()).len(), 2);
    assert_eq!(m.volumes[IMAGE].slots[&1].kdf, "argon2id");

    let (ok, _, err) =
        m.run(|log| op_wipe_slot(IMAGE, PASSPHRASE, "passphrase", "", 1, log));
    assert!(ok, "wipe failed: {err}");
    assert_eq!(list_keyslots(m.meta(IMAGE).as_ref()).len(), 1);
    assert!(m.verify(IMAGE, "second-passphrase").is_err());
    assert_eq!(m.verify(IMAGE, PASSPHRASE), Ok(0));
}

#[test]
fn wipe_refuses_last_keyslot() {
    let mut m = new_luks_image();

    let (ok, _, msg) = m.run(|log| op_wipe_slot(IMAGE, PASSPHRASE, "passphrase", "", 0, log));
    assert!(!ok);
    assert_eq!(msg, "Cannot wipe the last remaining keyslot");
    assert_eq!(list_keyslots(m.meta(IMAGE).as_ref()).len(), 1);
}

#[test]
fn wipe_slot_removes_associated_token() {
    let mut m = new_luks_image();

    let (ok, _, _) = m.enroll_recovery(IMAGE, PASSPHRASE, "passphrase");
    assert!(ok);
    let tokens = tokens_by_type(m.meta(IMAGE).as_ref(), "systemd-recovery");
    let slot = tokens[0].1[0];

    m.asked.clear();
    let (ok, _, err) =
        m.run(|log| op_wipe_slot(IMAGE, PASSPHRASE, "passphrase", "", slot, log));
    assert!(ok, "wipe failed: {err}");
    let meta = m.meta(IMAGE);
    assert!(tokens_by_type(meta.as_ref(), "systemd-recovery").is_empty());
    assert_eq!(list_keyslots(meta.as_ref()).len(), 1);
    // The token goes first.
    let token = format!("token {}", tokens[0].0);
    let destroy = format!("destroy {slot}");
    assert_eq!(m.asked, vec!["metadata".to_string(), token, destroy]);
}

#[test]
fn wipe_needs_the_passphrase() {
    let mut m = new_luks_image();
    m.enroll_recovery(IMAGE, PASSPHRASE, "passphrase");
    m.forget(IMAGE);
    let (ok, out, err) = m.run(|log| op_wipe_slot(IMAGE, "wrong", "passphrase", "", 1, log));
    assert!(!ok);
    assert_eq!(out, "");
    assert_eq!(err, "Operation failed");
    assert_eq!(list_keyslots(m.meta(IMAGE).as_ref()).len(), 2);
}

#[test]
fn wrong_unlock_method_rejected() {
    let mut m = new_luks_image();

    let (ok, _, err) = m.enroll_recovery(IMAGE, PASSPHRASE, "bogus-method");
    assert!(!ok);
    assert_eq!(err, "Operation failed");
    let failed = m.step(|log| get_volume_key(IMAGE, "bo\"gus", PASSPHRASE, "", log, 0));
    match failed {
        Err(e) => assert_eq!(e, "Invalid unlock method: \"bo\\\"gus\""),
        Ok(_) => panic!("an unknown method unlocked the volume"),
    }
}

#[test]
fn keyslots_and_tokens_json_shapes() {
    let mut m = new_luks_image();

    let ks: Value =
        serde_json::from_str(&keyslots_json(m.meta(IMAGE).as_ref())).expect("valid json");
    assert_eq!(ks["0"], "luks2");

    let (ok, _, _) = m.enroll_recovery(IMAGE, PASSPHRASE, "passphrase");
    assert!(ok);
    let text = tokens_json(m.meta(IMAGE).as_ref(), "systemd-recovery");
    assert_eq!(text, "[[0,[1]]]");
    let tj: Value = serde_json::from_str(&text).expect("json");
    let arr = tj.as_array().expect("array");
    assert_eq!(arr.len(), 1);
    assert!(arr[0][0].is_i64());
    assert!(arr[0][1].is_array());

    assert_eq!(keyslots_json(None), "{}");
    assert_eq!(tokens_json(None, "systemd-recovery"), "[]");
}

#[test]
fn token_style_keyslot_with_minimal_pbkdf() {
    let mut m = new_luks_image();

    let vk = m
        .step(|log| get_volume_key(IMAGE, "passphrase", PASSPHRASE, "", log, 0))
        .expect("volume key");
    let secret_b64 = B64.encode([0xAB; 32]);
    let secret = Secret::new(secret_b64.as_bytes().to_vec());
    let slot = m
        .step(|log| add_keyslot_by_volume_key(IMAGE, &vk, &secret, true, log, 0))
        .expect("add keyslot");

    let mut token = serde_json::Map::new();
    token.insert("type".to_string(), text("systemd-fido2"));
    token.insert("keyslots".to_string(), Value::Array(vec![text(&slot.to_string())]));
    token.insert("fido2-credential".to_string(), text(&B64.encode([1u8; 32])));
    token.insert("fido2-salt".to_string(), text(&B64.encode([2u8; 32])));
    token.insert("fido2-rp".to_string(), text("io.systemd.cryptsetup"));
    token.insert("fido2-clientPin-required".to_string(), Value::Bool(false));
    token.insert("fido2-up-required".to_string(), Value::Bool(true));
    token.insert("fido2-uv-required".to_string(), Value::Bool(false));
    let token_json = Value::Object(token).to_string();
    let tid = m
        .step(|log| set_token(IMAGE, -1, Some(&token_json), log, 0))
        .expect("set token");

    let refs = fido2_token_refs(m.meta(IMAGE).as_ref()).expect("refs");
    assert_eq!(refs.len(), 1);
    assert_eq!(refs[0].cred_id, vec![1u8; 32]);
    assert_eq!(refs[0].salt, vec![2u8; 32]);

    let meta = m.meta(IMAGE).expect("metadata");
    assert_eq!(
        meta["keyslots"][slot.to_string()]["kdf"]["type"],
        "pbkdf2",
        "token keyslot should use minimal pbkdf2"
    );
    assert_eq!(m.verify(IMAGE, &secret_b64), Ok(slot));

    m.step(|log| set_token(IMAGE, tid, None, log, 0)).expect("remove token");
    assert!(fido2_token_refs(m.meta(IMAGE).as_ref()).expect("refs").is_empty());
}

#[test]
fn tpm2_token_full_shape_roundtrip() {
    let mut m = new_luks_image();
    let vk = m
        .step(|log| get_volume_key(IMAGE, "passphrase", PASSPHRASE, "", log, 0))
        .expect("vk");
    let secret = Secret::new(b"tpm2-secret".to_vec());
    let slot = m
        .step(|log| add_keyslot_by_volume_key(IMAGE, &vk, &secret, true, log, 0))
        .expect("slot");

    let blob_b64 = B64.encode(vec![0x5A; 96]);
    let mut token = serde_json::Map::new();
    token.insert("type".to_string(), text("systemd-tpm2"));
    token.insert("keyslots".to_string(), Value::Array(vec![text(&slot.to_string())]));
    token.insert("tpm2-blob".to_string(), text(&blob_b64));
    token.insert("tpm2_blob".to_string(), text(&blob_b64));
    token.insert("tpm2-pcrs".to_string(), Value::Array(vec![Value::from(7), Value::from(11)]));
    token.insert("tpm2-pcr-bank".to_string(), text("sha256"));
    token.insert("tpm2-primary-alg".to_string(), text("ecc"));
    token.insert("tpm2-policy-hash".to_string(), text(&"ab".repeat(32)));
    token.insert("tpm2-pin".to_string(), Value::Bool(true));
    token.insert("tpm2_pubkey_pcrs".to_string(), Value::Array(vec![]));
    token.insert("tpm2_pcr_hash".to_string(), text("sha256"));
    token.insert("tpm2_pcrlock".to_string(), Value::Bool(false));
    token.insert("tpm2_srk".to_string(), text(&B64.encode([0x11; 32])));
    let token_json = Value::Object(token).to_string();
    m.step(|log| set_token(IMAGE, -1, Some(&token_json), log, 0)).expect("set token");

    let refs = tpm2_token_refs(m.meta(IMAGE).as_ref()).expect("refs");
    assert_eq!(refs.len(), 1);
    assert_eq!(refs[0].blob, vec![0x5A; 96]);
    assert_eq!(refs[0].pcrs, "7+11");
    assert_eq!(refs[0].pcr_bank, "sha256");
    assert!(refs[0].pin_required);
}

#[test]
fn passphrase_volume_key_is_cached_and_reused() {
    let mut m = new_luks_image();
    m.forget(IMAGE);

    let vk1 = m
        .step(|log| get_volume_key(IMAGE, "passphrase", PASSPHRASE, "", log, 0))
        .expect("vk");
    let vk2 = m
        .step(|log| get_volume_key(IMAGE, "passphrase", "definitely-wrong", "", log, 0))
        .expect("served from cache, not re-validated");
    assert_eq!(vk1.as_bytes(), vk2.as_bytes());
}

#[test]
fn verify_passphrase_primes_volume_key_cache() {
    let mut m = new_luks_image();
    m.forget(IMAGE);

    let slot = m.verify(IMAGE, PASSPHRASE).expect("verify");
    assert!(slot >= 0);
    assert!(m
        .step(|log| get_volume_key(IMAGE, "passphrase", "definitely-wrong", "", log, 0))
        .is_ok());
}

#[test]
fn cached_key_is_forgotten_after_two_minutes() {
    let mut m = new_luks_image();
    m.forget(IMAGE);
    m.verify(IMAGE, PASSPHRASE).expect("verify");
    m.now += 119_999_999_999;
    assert!(m
        .step(|log| get_volume_key(IMAGE, "passphrase", "wrong", "", log, 0))
        .is_ok());
    m.now += 1;
    assert!(m
        .step(|log| get_volume_key(IMAGE, "passphrase", "wrong", "", log, 0))
        .is_err());
}

#[test]
fn device_info_reports_luks_uuid() {
    let mut facts = Facts::new();
    let info = loop {
        match get_device_info(&facts, IMAGE) {
            Found::Ready(v) => break v,
            Found::Need(Question::File { path }) => facts.add_file(&path, None),
            Found::Need(Question::Dir { path }) => facts.add_dir(&path, vec![]),
            Found::Need(Question::Canonical { path }) => facts.add_canonical(&path, None),
            Found::Need(Question::Length { path }) => facts.add_length(&path, Some(32 << 20)),
            Found::Need(Question::Tags { device }) => facts.add_tags(
                &device,
                Tags {
                    label: None,
                    kind: Some("crypto_LUKS".to_string()),
                    uuid: Some("0fc63daf-8483-4772-8e79-3d69d8477de4".to_string()),
                },
            ),
        }
    };
    let uuid = info.get("uuid").and_then(|v| v.as_str()).unwrap_or("");
    assert!(!uuid.is_empty(), "GetDeviceInfo should report a LUKS UUID");
    let groups: Vec<&str> = uuid.split('-').collect();
    assert_eq!(groups.len(), 5, "UUID should have five dash-separated groups");
    assert_eq!(
        groups.iter().map(|g| g.len()).collect::<Vec<_>>(),
        vec![8, 4, 4, 4, 12],
        "UUID groups should be 8-4-4-4-12"
    );
    assert!(
        uuid.chars().all(|c| c.is_ascii_hexdigit() || c == '-'),
        "UUID should be hex digits and dashes only"
    );
}

#[test]
fn open_volume_rejects_invalid_mapper_name() {
    let mut m = new_luks_image();

    let (ok, mapper, err) = m.run(|log| {
        op_open_volume(IMAGE, "../escape", PASSPHRASE, "passphrase", "", log)
    });
    assert!(!ok, "a path-escaping mapper name must be refused");
    assert!(mapper.is_empty());
    assert_eq!(err, "Invalid mapper name: \"../escape\"");

    let (ok, _, _) =
        m.run(|log| op_open_volume(IMAGE, "", PASSPHRASE, "passphrase", "", log));
    assert!(!ok);
    for name in [".", "..", "a/b", "/"] {
        let (ok, _, _) =
            m.run(|log| op_open_volume(IMAGE, name, PASSPHRASE, "passphrase", "", log));
        assert!(!ok, "{name}");
    }
}

#[test]
fn close_volume_is_idempotent_and_validates_name() {
    let mut m = machine();
    let (ok, err) = m.run(|log| op_close_volume("luks-enroll-test-nonexistent-mapping", log));
    assert!(ok, "closing a non-existent mapping should succeed: {err}");

    let (ok, _) = m.run(|log| op_close_volume("../escape", log));
    assert!(!ok);
}

#[test]
fn open_close_volume_roundtrip() {
    let mut m = new_luks_image();
    let name = "luks-enroll-test-1";

    let (ok, mapper, err) =
        m.run(|log| op_open_volume(IMAGE, name, PASSPHRASE, "passphrase", "", log));
    assert!(ok, "open failed: {err}");
    assert_eq!(mapper, name);
    assert!(m.mappings.contains_key(name), "mapping should be active");

    let (ok, _, err) =
        m.run(|log| op_open_volume(IMAGE, name, PASSPHRASE, "passphrase", "", log));
    assert!(ok, "idempotent re-open failed: {err}");

    m.mounted.insert(name.to_string());
    let (ok, err) = m.run(|log| op_close_volume(name, log));
    assert!(!ok);
    assert_eq!(err, "Volume is mounted");
    m.mounted.clear();

    let (ok, err) = m.run(|log| op_close_volume(name, log));
    assert!(ok, "close failed: {err}");
    assert!(!m.mappings.contains_key(name), "mapping should be gone");
}

#[test]
fn fd_create_enroll_verify_roundtrip() {
    let mut m = machine();
    let fdp = luks_enroll::auth::fd_path(7);
    assert_eq!(fdp, "/proc/self/fd/7");
    m.files.insert(fdp.clone());

    let (ok, keyslot, err) = m.run(|log| op_create_image_fd(&fdp, PASSPHRASE, log));
    assert!(ok, "create via fd failed: {err}");
    assert_eq!(keyslot, 0);

    assert_eq!(m.verify(&fdp, PASSPHRASE), Ok(0));

    let (ok, rkey, err) = m.enroll_recovery(&fdp, PASSPHRASE, "passphrase");
    assert!(ok, "recovery enroll via fd failed: {err}");
    assert!(m.verify(&fdp, &rkey).is_ok());
    assert_eq!(
        tokens_by_type(m.meta(&fdp).as_ref(), "systemd-recovery").len(),
        1,
        "token must be readable back through the fd path"
    );
}

#[test]
fn fd_length_is_checked_before_the_file_is_sized() {
    assert_eq!(image_fd_length(32, Some(0)), Ok(32 * 1024 * 1024));
    for size in [0, -1, 8193] {
        assert_eq!(
            image_fd_length(size, Some(0)),
            Err((false, -1, "size_mb must be between 1 and 8192".to_string()))
        );
    }
    for length in [Some(1), None] {
        assert_eq!(
            image_fd_length(1, length),
            Err((false, -1, "A file already exists at this path".to_string()))
        );
    }
}

#[test]
fn format_luks2_dispatch_seeds_a_keyslot_for_a_passphrase() {
    let mut m = machine();
    m.files.insert(IMAGE.to_string());
    let slot = m
        .step(|log| format_container(IMAGE, "correcthorse", KeyslotsArea::Compact, log, 0))
        .expect("format");
    assert_eq!(slot, 0);
    assert_eq!(password_keyslots(m.meta(IMAGE).as_ref()), vec![0]);
    assert_eq!(m.verify(IMAGE, "correcthorse"), Ok(0));
}

#[test]
fn format_luks2_dispatch_is_keyless_and_caches_vk_for_an_empty_passphrase() {
    let mut m = machine();
    m.files.insert(IMAGE.to_string());
    m.forget(IMAGE);
    let slot = m
        .step(|log| format_container(IMAGE, "", KeyslotsArea::Compact, log, 0))
        .expect("format");
    assert_eq!(slot, -1);
    assert!(list_keyslots(m.meta(IMAGE).as_ref()).is_empty(), "no keyslots persisted");
    assert!(m
        .step(|log| get_volume_key(IMAGE, "passphrase", "", "", log, 0))
        .is_ok());
    assert!(m.volumes[IMAGE].area == KeyslotsArea::Compact);
}

#[test]
fn enroll_fido2_and_unlock_with_it() {
    let mut m = new_luks_image();
    m.fido2_secret = Some(vec![9; 32]);
    let (ok, out, err) = m.run(|log| {
        op_enroll_fido2(IMAGE, PASSPHRASE, "1234", "/dev/hidraw0", "passphrase", "", log)
    });
    assert!(ok, "{err}");
    assert_eq!(out, "");
    let meta = m.meta(IMAGE).expect("metadata");
    let tok = &meta["tokens"]["0"];
    assert_eq!(tok["type"], "systemd-fido2");
    assert_eq!(tok["keyslots"][0], "1");
    assert_eq!(tok["fido2-clientPin-required"], true);
    assert_eq!(m.volumes[IMAGE].slots[&1].kdf, "pbkdf2");
    assert!(m.asked.contains(&"enroll /dev/hidraw0 1234".to_string()));
    let refs = fido2_token_refs(Some(&meta)).expect("refs");
    assert_eq!(refs[0].cred_id, vec![1, 2, 3]);
    assert_eq!(refs[0].salt, vec![4, 5, 6]);

    // The token opens the volume, by its own keyslot.
    m.forget(IMAGE);
    m.asked.clear();
    let (ok, slot) = m.run(|log| op_unlock_with_token(IMAGE, "systemd-fido2", "1234", log));
    assert!(ok);
    assert_eq!(slot, 1);
    assert_eq!(m.asked, vec!["metadata", "fido2 1 1234", "metadata", "key 1"]);

    // And the key is cached now.
    assert!(m
        .step(|log| get_volume_key(IMAGE, "systemd-fido2", "", "", log, 0))
        .is_ok());

    // The same device is not enrolled twice.
    m.fido2_names = vec!["/dev/hidraw0".to_string()];
    let (ok, _, err) = m.run(|log| {
        op_enroll_fido2(IMAGE, PASSPHRASE, "", "/dev/hidraw0", "passphrase", "", log)
    });
    assert!(!ok);
    assert_eq!(err, "This FIDO2 token is already enrolled on this volume");

    let paths = vec!["/dev/hidraw0".to_string()];
    let names = m.run(|log| op_check_fido2_enrolled(IMAGE, &paths, log));
    assert_eq!(names.0, paths);
    let names = m.run(|log| op_check_fido2_enrolled(IMAGE, &vec![], log));
    assert!(names.0.is_empty());
}

#[test]
fn failed_fido2_enrollment_leaves_the_volume_alone() {
    let mut m = new_luks_image();
    let before = m.header(IMAGE);
    m.asked.clear();
    let (ok, _, err) = m.run(|log| {
        op_enroll_fido2(IMAGE, PASSPHRASE, "", "/dev/hidraw0", "passphrase", "", log)
    });
    assert!(!ok);
    assert_eq!(err, "Operation failed");
    assert_eq!(m.header(IMAGE), before);
    assert!(!m.asked.contains(&"add".to_string()));
}

#[test]
fn enroll_tpm2_and_unlock_with_it() {
    let mut m = new_luks_image();
    let secret = new_secret().expect("random numbers");
    assert_eq!(secret.as_bytes().len(), 32);
    let (ok, _, err) = m.run(|log| {
        op_enroll_tpm2(IMAGE, PASSPHRASE, "", " 7 + 11 ", "passphrase", "", &secret, log)
    });
    assert!(ok, "{err}");
    let meta = m.meta(IMAGE).expect("metadata");
    let refs = tpm2_token_refs(Some(&meta)).expect("refs");
    assert_eq!(refs.len(), 1);
    assert_eq!(refs[0].token_id, "0");
    assert_eq!(refs[0].blob, vec![0x5A; 96]);
    assert_eq!(refs[0].pcrs, "7+11");
    assert!(!refs[0].pin_required);
    let passphrase = B64.encode(secret.as_bytes());
    assert_eq!(m.volumes[IMAGE].slots[&1].passphrase, passphrase.as_bytes());

    m.forget(IMAGE);
    let slot = m.step(|log| verify_token(IMAGE, "systemd-tpm2", "", log, 0));
    assert_eq!(slot, Ok(1));

    let (ok, _, err) = m.run(|log| {
        op_enroll_tpm2(IMAGE, PASSPHRASE, "", "7+x", "passphrase", "", &secret, log)
    });
    assert!(!ok);
    assert_eq!(err, "Operation failed");
    assert_eq!(m.volumes[IMAGE].slots.len(), 2);
}

#[test]
fn unlock_token_types() {
    assert!(is_unlock_token("systemd-fido2"));
    assert!(is_unlock_token("systemd-tpm2"));
    assert!(!is_unlock_token("systemd-recovery"));
    assert!(!is_unlock_token(""));
    assert!(check_unlock_token("systemd-tpm2").is_ok());
    match check_unlock_token("systemd-recovery") {
        Ok(()) => panic!("expected a refusal"),
        Err(e) => {
            assert_eq!(e.name(), "org.freedesktop.DBus.Error.Failed");
            assert_eq!(e.message(), "Operation failed");
        }
    }
    let mut m = new_luks_image();
    let failed = m.step(|log| verify_token(IMAGE, "systemd-recovery", "", log, 0));
    assert_eq!(failed, Err("Unsupported token type".to_string()));
    let failed = m.step(|log| verify_token(IMAGE, "systemd-fido2", "", log, 0));
    assert_eq!(failed, Err("No FIDO2 device found".to_string()));
}

#[test]
fn verify_passphrase_reports() {
    let mut m = new_luks_image();
    assert_eq!(m.run(|log| op_verify_passphrase(IMAGE, PASSPHRASE, log)), (true, 0));
    assert_eq!(m.run(|log| op_verify_passphrase(IMAGE, "wrong", log)), (false, -1));
    assert_eq!(
        m.verify("/tmp/none", PASSPHRASE),
        Err("Failed to load LUKS2 header".to_string())
    );
}

#[test]
fn failures_of_requests_are_named() {
    fn fail<T>(step: Step<T>) -> String {
        match step {
            Step::Fail(e) => e.0,
            _ => panic!("expected a failure"),
        }
    }
    let key = Secret::new(vec![1]);
    let call = |e: &str| Failure::Call(e.to_string());
    assert_eq!(
        fail(add_keyslot_by_volume_key("d", &key, &key, true, &vec![Answer::Number(Err(call("x")))], 0)),
        "crypt_keyslot_add_by_key failed: x"
    );
    assert_eq!(
        fail(add_keyslot_by_volume_key(
            "d",
            &key,
            &key,
            true,
            &vec![Answer::Number(Err(Failure::Settings("x".to_string())))],
            0
        )),
        "set_pbkdf_type failed: x"
    );
    assert_eq!(
        fail(set_token("d", 1, None, &vec![Answer::Number(Err(call("x")))], 0)),
        "crypt_token_json_set failed: x"
    );
    let opened = vec![Answer::Outcome(Ok(()))];
    assert!(fail(set_token("d", -1, Some("{"), &opened, 0)).starts_with("JSON error: "));
    assert_eq!(
        fail(luks_enroll::volume::destroy_keyslot("d", 1, &vec![Answer::Outcome(Err(call("x")))], 0)),
        "crypt_keyslot_destroy failed: x"
    );
    assert_eq!(
        fail(luks_enroll::volume::destroy_keyslot("d", 1, &vec![Answer::Outcome(Err(Failure::Open))], 0)),
        "Failed to open device"
    );
    assert_eq!(
        fail(format_container("d", "", KeyslotsArea::Default, &vec![Answer::NewKey(Err(Failure::Open))], 0)),
        "crypt_init failed"
    );
    assert_eq!(
        fail(format_container("d", "", KeyslotsArea::Default, &vec![Answer::NewKey(Err(call("x")))], 0)),
        "crypt_format failed: x"
    );
    assert_eq!(
        fail(get_volume_key("d", "passphrase", "", "", &vec![Answer::Ack], 0)),
        "Unexpected answer"
    );
    assert_eq!(get_systemd_version(), 999);
}

#[test]
fn a_device_that_does_not_open_is_reported_first() {
    let mut m = machine();
    for method in ["passphrase", "systemd-fido2", "systemd-tpm2"] {
        let failed = m.step(|log| get_volume_key("/tmp/none", method, "x", "", log, 0));
        assert_eq!(failed.err(), Some("Failed to load LUKS2 header".to_string()), "{method}");
    }
    assert_eq!(m.asked, ["key -1"]);
    let failed = m.step(|log| set_token("/tmp/none", -1, Some("{"), log, 0));
    assert_eq!(failed, Err("Failed to load LUKS2 header".to_string()));
    let failed = m.step(|log| set_token("/tmp/none", -1, Some("{}"), log, 0));
    assert_eq!(failed, Err("Failed to load LUKS2 header".to_string()));

    match set_token("d", -1, Some("{"), &vec![], 0) {
        Step::Ask(Request::Open { device }) => assert_eq!(device, "d"),
        _ => panic!("expected the device to be opened"),
    }
    match set_token("d", -1, Some("{"), &vec![Answer::Outcome(Err(Failure::Open))], 0) {
        Step::Fail(e) => assert_eq!(e.0, "Failed to open device"),
        _ => panic!("expected a failure"),
    }
}
