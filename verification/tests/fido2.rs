use std::collections::HashMap;

use luks_enroll::codec::Secret;
use luks_enroll::error::{cstring, Error};
use luks_enroll::fido2::{
    classify_probe_ret, enroll, enrolled_paths, new_nonce, nonce_from, pin_cstring, touch_select,
    unlock_from_tokens, Fido2Enrollment, FidoAnswer, FidoRequest, FidoStep, TouchStep, COSE_ES256,
    FIDO2_RP_ID, FIDO_ERR_NO_CREDENTIALS, FIDO_ERR_PIN_INVALID, FIDO_ERR_PIN_NOT_SET,
    FIDO_ERR_PIN_REQUIRED, FIDO_ERR_UP_REQUIRED, FIDO_EXT_HMAC_SECRET, FIDO_OK, FIDO_OPT_FALSE,
    FIDO_OPT_OMIT, FIDO_OPT_TRUE, UNLOCK_TIMEOUT,
};
use luks_enroll::luks::Fido2TokenRef;

/// What one authenticator answers.
struct Key {
    opens: i32,
    /// Credentials it holds, with the secret that each gives.
    creds: HashMap<Vec<u8>, Vec<u8>>,
    pin: Option<Vec<u8>>,
    probe: Option<i32>,
}

fn key(cred: &[u8], secret: &[u8]) -> Key {
    let mut creds = HashMap::new();
    creds.insert(cred.to_vec(), secret.to_vec());
    Key { opens: FIDO_OK, creds, pin: None, probe: None }
}

struct Bus {
    keys: Vec<Key>,
    touched: usize,
    links: HashMap<String, String>,
    asked: Vec<String>,
    opened: HashMap<usize, usize>,
}

fn bus(keys: Vec<Key>) -> Bus {
    let mut links = HashMap::new();
    for i in 0..keys.len() {
        links.insert(format!("/dev/hidraw{i}"), format!("/dev/hidraw{i}"));
    }
    Bus { keys, touched: 0, links, asked: Vec::new(), opened: HashMap::new() }
}

impl Bus {
    fn key_at(&self, device: usize) -> &Key {
        &self.keys[*self.opened.get(&device).unwrap_or(&device)]
    }

    fn pin_fits(&self, device: usize, pin: &Option<Vec<u8>>) -> bool {
        match &self.key_at(device).pin {
            None => true,
            Some(p) => pin.as_ref() == Some(p),
        }
    }

    fn perform(&mut self, request: FidoRequest) -> FidoAnswer {
        match request {
            FidoRequest::List => {
                self.asked.push("list".to_string());
                if self.keys.is_empty() {
                    FidoAnswer::Listed(Some((FIDO_OK, vec![])))
                } else {
                    FidoAnswer::Listed(Some((FIDO_OK, vec![true; self.keys.len()])))
                }
            }
            FidoRequest::OpenListed { device } => FidoAnswer::Opened(Some(self.keys[device].opens)),
            FidoRequest::OpenPath { path, device } => {
                let path = match self.links.get(&path) {
                    Some(p) => p.clone(),
                    None => return FidoAnswer::Opened(None),
                };
                let n: usize = path.trim_start_matches("/dev/hidraw").parse().expect("number");
                self.opened.insert(device, n);
                FidoAnswer::Opened(Some(self.keys[n].opens))
            }
            FidoRequest::Canonical { path } => {
                FidoAnswer::Canonical(self.links.get(&path).cloned())
            }
            FidoRequest::Probe { device, cred_id } => {
                let k = self.key_at(device);
                FidoAnswer::Probed(Some(match k.probe {
                    Some(ret) => ret,
                    None if k.creds.contains_key(&cred_id) => FIDO_ERR_UP_REQUIRED,
                    None => FIDO_ERR_NO_CREDENTIALS,
                }))
            }
            FidoRequest::TouchSelect { devices } => {
                self.asked.push(format!("touch {devices:?}"));
                FidoAnswer::Touched(self.touched)
            }
            FidoRequest::SetTimeout { device, milliseconds } => {
                self.asked.push(format!("timeout {device} {milliseconds}"));
                FidoAnswer::Ack
            }
            FidoRequest::MakeCredential { device, user_id, pin } => {
                self.asked.push(format!("make {device} {}", user_id.len()));
                if !self.pin_fits(device, &pin) {
                    let ret = if pin.is_none() { FIDO_ERR_PIN_REQUIRED } else { FIDO_ERR_PIN_INVALID };
                    return FidoAnswer::Made(Some((ret, None)));
                }
                let cred = self.key_at(device).creds.keys().next().cloned();
                FidoAnswer::Made(Some((FIDO_OK, cred)))
            }
            FidoRequest::HmacSecret { device, cred_id, salt, pin } => {
                self.asked.push(format!("secret {device} {salt:?} {pin:?}"));
                if !self.pin_fits(device, &pin) {
                    return FidoAnswer::Asserted(Some((FIDO_ERR_PIN_INVALID, None)));
                }
                match self.key_at(device).creds.get(&cred_id) {
                    Some(s) => FidoAnswer::Asserted(Some((FIDO_OK, Some(Secret::new(s.clone()))))),
                    None => FidoAnswer::Asserted(Some((FIDO_ERR_NO_CREDENTIALS, None))),
                }
            }
        }
    }

    fn run<T>(&mut self, op: impl Fn(&Vec<FidoAnswer>) -> FidoStep<T>) -> Result<T, String> {
        let mut log: Vec<FidoAnswer> = Vec::new();
        loop {
            match op(&log) {
                FidoStep::Ask(r) => log.push(self.perform(r)),
                FidoStep::Fail(e, used) => {
                    assert_eq!(used, log.len());
                    return Err(e.0);
                }
                FidoStep::Done(t, used) => {
                    assert_eq!(used, log.len());
                    return Ok(t);
                }
            }
        }
    }
}

fn token(cred: &[u8], salt: &[u8]) -> Fido2TokenRef {
    Fido2TokenRef { cred_id: cred.to_vec(), salt: salt.to_vec() }
}

#[test]
fn rp_id_cstring_matches_rp_id() {
    assert_eq!(FIDO2_RP_ID, "io.systemd.cryptsetup");
    let c = cstring(FIDO2_RP_ID.as_bytes(), "relying party").unwrap();
    assert_eq!(c, b"io.systemd.cryptsetup\0");
}

#[test]
fn probe_ret_classification() {
    assert_eq!(classify_probe_ret(FIDO_ERR_NO_CREDENTIALS), Some(false));
    assert_eq!(classify_probe_ret(FIDO_OK), Some(true));
    assert_eq!(classify_probe_ret(FIDO_ERR_UP_REQUIRED), Some(true));
    assert_eq!(classify_probe_ret(FIDO_ERR_PIN_NOT_SET), Some(true));
    assert_eq!(classify_probe_ret(FIDO_ERR_PIN_REQUIRED), Some(true));
    assert_eq!(classify_probe_ret(FIDO_ERR_PIN_INVALID), Some(true));
    assert_eq!(classify_probe_ret(0x7f), None);
    assert_eq!(classify_probe_ret(0x27), None);
    assert_eq!(classify_probe_ret(-1), None);
    assert_eq!(classify_probe_ret(-2), None);
}

#[test]
fn bindgen_constants_match_fido_err_h() {
    assert_eq!(FIDO_OK, 0);
    assert_eq!(FIDO_ERR_UP_REQUIRED, 0x3b);
    assert_eq!(FIDO_ERR_NO_CREDENTIALS, 0x2e);
    assert_eq!(FIDO_ERR_PIN_NOT_SET, 0x35);
    assert_eq!(FIDO_ERR_PIN_REQUIRED, 0x36);
    assert_eq!(FIDO_ERR_PIN_INVALID, 0x31);
    assert_eq!(COSE_ES256, -7);
    assert_eq!(FIDO_EXT_HMAC_SECRET, 0x01);
    assert_eq!(FIDO_OPT_OMIT, 0);
    assert_eq!(FIDO_OPT_FALSE, 1);
    assert_eq!(FIDO_OPT_TRUE, 2);
}

#[test]
fn pin_cstring_truthiness() {
    assert_eq!(pin_cstring(None).unwrap(), None);
    assert_eq!(pin_cstring(Some("")).unwrap(), None);
    assert_eq!(pin_cstring(Some("1234")).unwrap(), Some(b"1234\0".to_vec()));
    assert!(pin_cstring(Some("12\u{0}34")).is_err());
    assert_eq!(pin_cstring(Some("12\u{0}34")).unwrap_err().0, "PIN contains a NUL byte");
}

#[test]
fn enroll_rejects_bad_paths() {
    fn expect_err(r: Result<Fido2Enrollment, String>) -> Error {
        match r {
            Ok(_) => panic!("expected enroll to fail"),
            Err(e) => Error(e),
        }
    }
    let user_id = vec![1; 32];
    let salt = vec![2; 32];
    let mut b = bus(vec![]);
    let err = expect_err(b.run(|log| {
        enroll("/tmp/no-such-fido2-device", None, &user_id, &salt, log)
    }));
    assert_eq!(err.to_string(), "Invalid FIDO2 device path: /tmp/no-such-fido2-device");
    b.links.insert("/dev/null".to_string(), "/dev/null".to_string());
    let err = expect_err(b.run(|log| enroll("/dev/null", None, &user_id, &salt, log)));
    assert_eq!(err.to_string(), "Invalid FIDO2 device path: /dev/null");
}

#[test]
fn unlock_with_no_tokens_errors() {
    let err = match bus(vec![]).run(|log| unlock_from_tokens(&vec![], "", log)) {
        Ok(_) => panic!("expected unlock to fail"),
        Err(e) => e,
    };
    assert_eq!(err, "No systemd-fido2 token found");
}

#[test]
fn enrolled_paths_empty_inputs() {
    let mut b = bus(vec![]);
    let dev = vec!["/dev/hidraw0".to_string()];
    assert!(b.run(|log| enrolled_paths(&vec![], &vec![], log)).unwrap_or_else(no_list).0.is_empty());
    assert!(b.run(|log| enrolled_paths(&dev, &vec![], log)).unwrap_or_else(no_list).0.is_empty());
    assert!(b
        .run(|log| enrolled_paths(&vec![], &vec![vec![1, 2, 3]], log))
        .unwrap_or_else(no_list)
        .0
        .is_empty());
    assert!(b.asked.is_empty());
}

fn no_list(e: String) -> luks_enroll::fido2::PathList {
    panic!("{e}")
}

#[test]
fn enrolled_paths_are_confirmed_ones_under_their_own_names() {
    let mut b = bus(vec![key(&[1], &[0]), key(&[2], &[0]), key(&[3], &[0]), key(&[2], &[0])]);
    // The third gives no clear answer; the fourth does not open.
    b.keys[2].probe = Some(0x7f);
    b.keys[3].opens = -1;
    b.links.insert("/dev/alias".to_string(), "/dev/hidraw1".to_string());
    let devs: Vec<String> =
        ["/dev/hidraw0", "/dev/alias", "/dev/gone", "/dev/hidraw2", "/dev/hidraw3"]
            .iter()
            .map(|s| s.to_string())
            .collect();
    let found = b
        .run(|log| enrolled_paths(&devs, &vec![vec![9], vec![2]], log))
        .unwrap_or_else(no_list);
    assert_eq!(found.0, vec!["/dev/alias".to_string()]);
}

#[test]
fn enroll_makes_a_credential_and_derives_its_secret() {
    let user_id = vec![1; 32];
    let salt = vec![2; 32];
    let mut b = bus(vec![key(&[7, 7], &[5; 32])]);
    b.keys[0].pin = Some(b"1234\0".to_vec());
    b.links.insert("/dev/token".to_string(), "/dev/hidraw0".to_string());
    match b.run(|log| enroll("/dev/token", Some("1234"), &user_id, &salt, log)) {
        Ok(made) => {
            assert_eq!(made.cred_id, vec![7, 7]);
            assert_eq!(made.salt, salt);
            assert_eq!(made.hmac_secret, vec![5; 32]);
        }
        Err(e) => panic!("{e}"),
    }
    assert_eq!(b.asked[0], "make 0 32");
    let err = b.run(|log| enroll("/dev/token", None, &user_id, &salt, log)).err();
    assert_eq!(err.as_deref(), Some("FIDO2 device requires a PIN"));
    let err = b.run(|log| enroll("/dev/token", Some(""), &user_id, &salt, log)).err();
    assert_eq!(err.as_deref(), Some("FIDO2 device requires a PIN"));
    let err = b.run(|log| enroll("/dev/token", Some("12"), &user_id, &salt, log)).err();
    assert_eq!(err.as_deref(), Some("fido_dev_make_cred failed: 49"));
    let err = b.run(|log| enroll("/dev/token", Some("1\u{0}"), &user_id, &salt, log)).err();
    assert_eq!(err.as_deref(), Some("PIN contains a NUL byte"));
    b.keys[0].opens = -4;
    let err = b.run(|log| enroll("/dev/token", None, &user_id, &salt, log)).err();
    assert_eq!(err.as_deref(), Some("fido_dev_open(/dev/token) failed: -4"));
}

#[test]
fn enroll_refuses_empty_outputs() {
    let user_id = vec![1; 32];
    let salt = vec![2; 32];
    let path = "/dev/hidraw0".to_string();
    let opened = || vec![FidoAnswer::Canonical(Some(path.clone())), FidoAnswer::Opened(Some(0))];
    let fail = |log: Vec<FidoAnswer>| match enroll("/dev/hidraw0", None, &user_id, &salt, &log) {
        FidoStep::Fail(e, _) => e.0,
        _ => panic!("expected a failure"),
    };
    let mut log = opened();
    log.push(FidoAnswer::Made(Some((0, None))));
    assert_eq!(fail(log), "Credential ID is empty");
    let mut log = opened();
    log.push(FidoAnswer::Made(None));
    assert_eq!(fail(log), "fido_cred_new failed");
    let mut log = opened();
    log.push(FidoAnswer::Made(Some((0, Some(vec![1])))));
    log.push(FidoAnswer::Asserted(Some((0, None))));
    assert_eq!(fail(log), "hmac-secret output is empty");
    let mut log = opened();
    log.push(FidoAnswer::Made(Some((0, Some(vec![1])))));
    log.push(FidoAnswer::Asserted(Some((0, Some(Secret::new(vec![]))))));
    assert_eq!(fail(log), "hmac-secret output is empty");
    let mut log = opened();
    log.push(FidoAnswer::Made(Some((0, Some(vec![1])))));
    log.push(FidoAnswer::Asserted(None));
    assert_eq!(fail(log), "fido_assert_new failed");
    assert_eq!(
        fail(vec![FidoAnswer::Canonical(Some(path.clone())), FidoAnswer::Opened(None)]),
        "fido_dev_new failed"
    );
}

#[test]
fn unlock_asks_only_the_matching_device_for_its_pin() {
    let mut b = bus(vec![key(&[1], &[1; 32]), key(&[2], &[2; 32])]);
    b.keys[1].pin = Some(b"1234\0".to_vec());
    let tokens = vec![token(&[2], &[9])];
    let secret = b.run(|log| unlock_from_tokens(&tokens, "1234", log));
    match secret {
        Ok(s) => assert_eq!(s.as_bytes(), &[2; 32]),
        Err(e) => panic!("{e}"),
    }
    assert_eq!(
        b.asked,
        vec![
            "list".to_string(),
            format!("timeout 1 {UNLOCK_TIMEOUT}"),
            "secret 1 [9] Some([49, 50, 51, 52, 0])".to_string(),
        ]
    );
    let err = b.run(|log| unlock_from_tokens(&tokens, "9", log)).err();
    assert_eq!(
        err.as_deref(),
        Some("FIDO2 unlock failed on selected device: fido_dev_get_assert failed: 49")
    );
}

#[test]
fn unlock_lets_the_user_touch_one_of_several() {
    let mut b = bus(vec![key(&[1], &[1; 32]), key(&[5], &[5; 32]), key(&[2], &[2; 32])]);
    b.touched = 1;
    let tokens = vec![token(&[1], &[9]), token(&[2], &[8])];
    match b.run(|log| unlock_from_tokens(&tokens, "", log)) {
        Ok(s) => assert_eq!(s.as_bytes(), &[2; 32]),
        Err(e) => panic!("{e}"),
    }
    assert_eq!(b.asked[1], "touch [0, 2]");
    assert_eq!(b.asked[2], "timeout 2 30000");
    assert_eq!(b.asked[3], "secret 2 [8] None");
}

#[test]
fn unlock_tries_each_token_that_was_not_ruled_out() {
    let mut b = bus(vec![key(&[2], &[2; 32])]);
    b.keys[0].probe = Some(0x7f);
    let tokens = vec![token(&[1], &[9]), token(&[2], &[8])];
    match b.run(|log| unlock_from_tokens(&tokens, "", log)) {
        Ok(s) => assert_eq!(s.as_bytes(), &[2; 32]),
        Err(e) => panic!("{e}"),
    }
    assert_eq!(b.asked.len(), 4);
}

#[test]
fn unlock_failures() {
    let tokens = vec![token(&[9], &[9])];
    let fail = |b: &mut Bus| b.run(|log| unlock_from_tokens(&tokens, "", log)).err();
    assert_eq!(fail(&mut bus(vec![])).as_deref(), Some("No FIDO2 device found"));
    let mut b = bus(vec![key(&[1], &[1])]);
    assert_eq!(fail(&mut b).as_deref(), Some("No matching FIDO2 device/credential found"));
    b.keys[0].opens = -1;
    assert_eq!(fail(&mut b).as_deref(), Some("No FIDO2 device could be opened"));
    let of = |answer: FidoAnswer| match unlock_from_tokens(&tokens, "", &vec![answer]) {
        FidoStep::Fail(e, 1) => e.0,
        _ => panic!("expected a failure"),
    };
    assert_eq!(of(FidoAnswer::Listed(None)), "fido_dev_info_new failed");
    assert_eq!(of(FidoAnswer::Listed(Some((-1, vec![true])))), "No FIDO2 device found");
    assert_eq!(of(FidoAnswer::Listed(Some((0, vec![false])))), "No FIDO2 device found");
}

#[test]
fn touch_select_polls_in_turn_and_cancels_the_rest() {
    // Three devices: all three begin, then they are polled round and round.
    let mut log: Vec<bool> = Vec::new();
    let mut seen: Vec<String> = Vec::new();
    let pos = loop {
        match touch_select(3, &log) {
            TouchStep::Begin(d) => {
                seen.push(format!("begin {d}"));
                log.push(false);
            }
            TouchStep::Poll(d) => {
                seen.push(format!("poll {d}"));
                log.push(seen.len() == 8);
            }
            TouchStep::Cancel(d) => {
                seen.push(format!("cancel {d}"));
                log.push(false);
            }
            TouchStep::Done(d) => break d,
        }
    };
    assert_eq!(pos, 1);
    assert_eq!(
        seen,
        vec![
            "begin 0", "begin 1", "begin 2", "poll 0", "poll 1", "poll 2", "poll 0", "poll 1",
            "cancel 0", "cancel 2"
        ]
    );
}

#[test]
fn nonces_are_random() {
    let a = new_nonce().unwrap();
    let b = new_nonce().unwrap();
    assert_eq!(a.len(), 32);
    assert_ne!(a, b);
    assert_ne!(a, vec![0; 32]);
    assert_eq!(nonce_from(Ok(vec![7; 32])).unwrap(), vec![7; 32]);
    assert_eq!(nonce_from(Err("no entropy".to_string())).unwrap_err().0, "no entropy");
}
