use std::collections::BTreeSet;

use luks_enroll::codec::Secret;
use luks_enroll::luks::Tpm2TokenRef;
use luks_enroll::tpm2::{
    build_pcr_selection_list, candidate_tokens, parse_pcr_indices, pcr_bank_to_alg, seal,
    secret_from, tcti_conf, unseal_from_tokens, TpmAnswer, TpmFailure, TpmNext, TpmRequest, SEAL_ATTRIBUTES,
    SEAL_PIN_ATTRIBUTES, SRK_ATTRIBUTES, TPM2_ALG_SHA1, TPM2_ALG_SHA256, TPM2_ALG_SHA384,
    TPM2_ALG_SHA512, TPM2_MAX_SYM_DATA, TPM2_SE_POLICY, TPM2_SE_TRIAL,
};
use sha2::{Digest, Sha256};

fn token(id: &str, pin_required: bool) -> Tpm2TokenRef {
    Tpm2TokenRef {
        token_id: id.to_string(),
        blob: vec![],
        pcrs: "7".to_string(),
        pcr_bank: "sha256".to_string(),
        pin_required,
    }
}

fn ids(tokens: Vec<&Tpm2TokenRef>) -> Vec<String> {
    tokens.iter().map(|t| t.token_id.clone()).collect()
}

/// A TPM that seals one object, whose blob is a private part and a public one.
struct Tpm {
    persistent: bool,
    handles: BTreeSet<u32>,
    next: u32,
    policy: Vec<u8>,
    sealed_to: Vec<u8>,
    auth: Vec<u8>,
    data: Vec<u8>,
    given_auth: Vec<u8>,
    asked: Vec<String>,
    /// The request, by its name, that fails, with a code.
    broken: Option<(&'static str, u32)>,
}

const PRIVATE: &[u8] = &[0, 3, 0xAA, 0xBB, 0xCC];
const PUBLIC: &[u8] = &[0, 2, 0x11, 0x22];

fn tpm() -> Tpm {
    Tpm {
        persistent: false,
        handles: BTreeSet::new(),
        next: 0x8000_0000,
        policy: vec![],
        sealed_to: vec![],
        auth: vec![],
        data: vec![],
        given_auth: vec![],
        asked: vec![],
        broken: None,
    }
}

impl Tpm {
    fn fresh(&mut self) -> u32 {
        let h = self.next;
        self.next += 1;
        self.handles.insert(h);
        h
    }

    fn broken(&mut self, name: &'static str) -> Option<TpmFailure> {
        self.asked.push(name.to_string());
        match self.broken {
            Some((n, code)) if n == name => Some(TpmFailure::Code(code)),
            _ => None,
        }
    }

    fn perform(&mut self, request: TpmRequest) -> TpmAnswer {
        match request {
            TpmRequest::OpenTcti { conf } => match self.broken("tcti") {
                Some(f) => TpmAnswer::Status(Err(f)),
                None => {
                    self.asked.push(conf);
                    self.handles.clear();
                    TpmAnswer::Status(Ok(()))
                }
            },
            TpmRequest::OpenEsys => match self.broken("esys") {
                Some(f) => TpmAnswer::Status(Err(f)),
                None => TpmAnswer::Status(Ok(())),
            },
            TpmRequest::PersistentSrk => {
                self.asked.push("srk".to_string());
                if self.persistent {
                    TpmAnswer::Handle(Ok(0x8100_0001))
                } else {
                    TpmAnswer::Handle(Err(TpmFailure::Code(0x18b)))
                }
            }
            TpmRequest::CreatePrimary { attributes } => match self.broken("primary") {
                Some(f) => TpmAnswer::Handle(Err(f)),
                None => {
                    assert_eq!(attributes, SRK_ATTRIBUTES);
                    TpmAnswer::Handle(Ok(self.fresh()))
                }
            },
            TpmRequest::Serialize { handle } => match self.broken("serialize") {
                Some(f) => TpmAnswer::Bytes(Err(f)),
                None => TpmAnswer::Bytes(Ok(handle.to_be_bytes().to_vec())),
            },
            TpmRequest::StartSession { session_type } => match self.broken("session") {
                Some(f) => TpmAnswer::Handle(Err(f)),
                None => {
                    self.asked.push(format!("type {session_type}"));
                    self.policy = vec![];
                    TpmAnswer::Handle(Ok(self.fresh()))
                }
            },
            TpmRequest::PolicyPcr { session, selection } => match self.broken("pcr") {
                Some(f) => TpmAnswer::Status(Err(f)),
                None => {
                    assert!(self.handles.contains(&session));
                    let (a, b, c) = selection.pcr_select;
                    self.policy.extend([a, b, c]);
                    TpmAnswer::Status(Ok(()))
                }
            },
            TpmRequest::PolicyAuthValue { session } => match self.broken("authvalue") {
                Some(f) => TpmAnswer::Status(Err(f)),
                None => {
                    assert!(self.handles.contains(&session));
                    self.policy.push(0xFF);
                    TpmAnswer::Status(Ok(()))
                }
            },
            TpmRequest::PolicyDigest { .. } => match self.broken("digest") {
                Some(f) => TpmAnswer::Bytes(Err(f)),
                None => TpmAnswer::Bytes(Ok(Sha256::digest(&self.policy).to_vec())),
            },
            TpmRequest::Create { parent, attributes, policy, auth, data } => {
                match self.broken("create") {
                    Some(f) => TpmAnswer::Status(Err(f)),
                    None => {
                        assert!(self.persistent || self.handles.contains(&parent));
                        assert_eq!(policy, Sha256::digest(&self.policy).to_vec());
                        self.asked.push(format!("attributes {attributes:#x}"));
                        self.sealed_to = policy;
                        self.auth = auth.as_bytes().to_vec();
                        self.data = data.as_bytes().to_vec();
                        TpmAnswer::Status(Ok(()))
                    }
                }
            }
            TpmRequest::MarshalPrivate => match self.broken("private") {
                Some(f) => TpmAnswer::Bytes(Err(f)),
                None => TpmAnswer::Bytes(Ok(PRIVATE.to_vec())),
            },
            TpmRequest::MarshalPublic => match self.broken("public") {
                Some(f) => TpmAnswer::Bytes(Err(f)),
                None => TpmAnswer::Bytes(Ok(PUBLIC.to_vec())),
            },
            TpmRequest::UnmarshalPrivate { blob } => {
                if blob == [PRIVATE, PUBLIC].concat() {
                    TpmAnswer::Status(Ok(()))
                } else {
                    TpmAnswer::Status(Err(TpmFailure::Code(0x9000b)))
                }
            }
            TpmRequest::UnmarshalPublic => TpmAnswer::Status(Ok(())),
            TpmRequest::Load { parent } => match self.broken("load") {
                Some(f) => TpmAnswer::Handle(Err(f)),
                None => {
                    assert!(self.persistent || self.handles.contains(&parent));
                    TpmAnswer::Handle(Ok(self.fresh()))
                }
            },
            TpmRequest::SetAuth { handle, auth } => {
                assert!(self.handles.contains(&handle));
                self.asked.push("auth".to_string());
                self.given_auth = auth.as_bytes().to_vec();
                TpmAnswer::Status(Ok(()))
            }
            TpmRequest::Unseal { object, session } => {
                assert!(self.handles.contains(&object));
                assert!(self.handles.contains(&session));
                self.asked.push("unseal".to_string());
                if self.sealed_to != Sha256::digest(&self.policy).to_vec() {
                    TpmAnswer::Data(Err(TpmFailure::Code(0x99d)))
                } else if self.auth == self.given_auth {
                    TpmAnswer::Data(Ok(Secret::new(self.data.clone())))
                } else {
                    TpmAnswer::Data(Err(TpmFailure::Code(0x98e)))
                }
            }
            TpmRequest::Flush { handle } => {
                self.asked.push("flush".to_string());
                assert!(self.handles.remove(&handle), "flushed twice or never made");
                TpmAnswer::Status(Ok(()))
            }
        }
    }

    fn run<T>(&mut self, op: impl Fn(&Vec<TpmAnswer>) -> TpmNext<T>) -> Result<T, String> {
        self.asked.clear();
        self.given_auth.clear();
        let mut log: Vec<TpmAnswer> = Vec::new();
        loop {
            match op(&log) {
                TpmNext::Ask(r) => log.push(self.perform(r)),
                TpmNext::Done(r, used) => {
                    assert_eq!(used, log.len());
                    return r.map_err(|e| e.0);
                }
            }
        }
    }
}

#[test]
fn parse_pcr_valid() {
    assert_eq!(parse_pcr_indices("7").unwrap(), vec![7]);
    assert_eq!(parse_pcr_indices("7+11").unwrap(), vec![7, 11]);
    assert_eq!(parse_pcr_indices("0+23").unwrap(), vec![0, 23]);
    assert_eq!(parse_pcr_indices(" 7 + 11 ").unwrap(), vec![7, 11]);
    assert_eq!(parse_pcr_indices("7++11").unwrap(), vec![7, 11]);
}

#[test]
fn parse_pcr_empty_selection() {
    for s in ["", "+", "  "] {
        let err = parse_pcr_indices(s).unwrap_err();
        assert_eq!(err.to_string(), "PCR selection must not be empty", "input {s:?}");
    }
}

#[test]
fn parse_pcr_out_of_range() {
    let err = parse_pcr_indices("24").unwrap_err();
    assert_eq!(err.to_string(), "PCR index 24 out of range (0-23)");
    let err = parse_pcr_indices("7+99").unwrap_err();
    assert_eq!(err.to_string(), "PCR index 99 out of range (0-23)");
    let err = parse_pcr_indices("-1").unwrap_err();
    assert_eq!(err.to_string(), "PCR index -1 out of range (0-23)");
}

#[test]
fn parse_pcr_not_a_number() {
    assert!(parse_pcr_indices("abc").is_err());
    assert!(parse_pcr_indices("7+abc").is_err());
}

#[test]
fn bank_name_mapping() {
    let alg_id = |bank: &str| -> u16 { pcr_bank_to_alg(bank) };
    assert_eq!(alg_id("sha1"), TPM2_ALG_SHA1);
    assert_eq!(alg_id("sha256"), TPM2_ALG_SHA256);
    assert_eq!(alg_id("sha384"), TPM2_ALG_SHA384);
    assert_eq!(alg_id("sha512"), TPM2_ALG_SHA512);
    assert_eq!(alg_id("sm3_256"), TPM2_ALG_SHA256);
    assert_eq!(alg_id(""), TPM2_ALG_SHA256);
    assert_eq!((TPM2_ALG_SHA1, TPM2_ALG_SHA256), (0x4, 0xB));
    assert_eq!((TPM2_ALG_SHA384, TPM2_ALG_SHA512), (0xC, 0xD));
}

#[test]
fn pcr_selection_wire_layout() {
    let s = build_pcr_selection_list(TPM2_ALG_SHA256, "7+11").unwrap();
    assert_eq!(s.hash, TPM2_ALG_SHA256);
    assert_eq!(s.sizeof_select, 3);
    assert_eq!(s.pcr_select.0, 0x80);
    assert_eq!(s.pcr_select.1, 0x08);
    assert_eq!(s.pcr_select.2, 0x00);

    let s = build_pcr_selection_list(TPM2_ALG_SHA1, "0+23").unwrap();
    assert_eq!(s.hash, TPM2_ALG_SHA1);
    assert_eq!(s.pcr_select.0, 0x01);
    assert_eq!(s.pcr_select.2, 0x80);
}

#[test]
fn candidate_order_with_pin_prefers_pin_tokens() {
    let tokens = vec![
        token("0", false),
        token("1", true),
        token("2", false),
        token("3", true),
    ];
    assert_eq!(ids(candidate_tokens(&tokens, true)), ["1", "3", "0", "2"]);
}

#[test]
fn candidate_order_without_pin_skips_pin_tokens() {
    let tokens = vec![
        token("0", true),
        token("1", false),
        token("2", true),
        token("3", false),
    ];
    assert_eq!(ids(candidate_tokens(&tokens, false)), ["1", "3"]);
}

#[test]
fn candidate_order_all_pinless() {
    let tokens = vec![token("a", false), token("b", false)];
    assert_eq!(ids(candidate_tokens(&tokens, false)), ["a", "b"]);
    assert_eq!(ids(candidate_tokens(&tokens, true)), ["a", "b"]);
}

#[test]
fn unseal_no_tokens() {
    let err = tpm().run(|log| unseal_from_tokens(&vec![], "", "", log)).err();
    assert_eq!(err.as_deref(), Some("No systemd-tpm2 token found"));
}

#[test]
fn unseal_all_tokens_skipped_without_pin() {
    let tokens = vec![token("0", true), token("1", true)];
    let err = tpm().run(|log| unseal_from_tokens(&tokens, "", "", log)).err();
    assert_eq!(err.as_deref(), Some("No systemd-tpm2 token could be unsealed"));
}

#[test]
fn roundtrip_seal_unseal_no_pin() {
    let mut t = tpm();
    let secret = Secret::new(b"correct horse battery staple".to_vec());
    let sealed = match t.run(|log| seal(&secret, "7", "", "device:/dev/tpmrm0", log)) {
        Ok(s) => s,
        Err(e) => panic!("seal failed: {e}"),
    };
    assert_eq!(sealed.primary_alg, "ecc");
    assert_eq!(sealed.policy_hash.len(), 32);
    assert_eq!(sealed.policy_hash, Sha256::digest([0x80, 0, 0]).to_vec());
    assert!(!sealed.srk_blob.is_empty());
    assert!(t.handles.is_empty(), "every handle is freed");
    assert!(t.asked.contains(&"device:/dev/tpmrm0".to_string()));
    assert!(t.asked.contains(&format!("type {TPM2_SE_TRIAL}")));
    assert!(t.asked.contains(&format!("attributes {SEAL_ATTRIBUTES:#x}")));
    assert!(t.auth.is_empty());

    // The private part, then the public one, each behind its length.
    let priv_len = u16::from_be_bytes([sealed.blob[0], sealed.blob[1]]) as usize;
    let pub_off = 2 + priv_len;
    assert!(pub_off + 2 < sealed.blob.len());
    let pub_len = u16::from_be_bytes([sealed.blob[pub_off], sealed.blob[pub_off + 1]]) as usize;
    assert_eq!(pub_off + 2 + pub_len, sealed.blob.len());

    let mut tok = token("0", false);
    tok.blob = sealed.blob;
    match t.run(|log| unseal_from_tokens(&vec![copy(&tok)], "", "x", log)) {
        Ok(out) => assert_eq!(out.as_bytes(), secret.as_bytes()),
        Err(e) => panic!("unseal failed: {e}"),
    }
    assert!(t.asked.contains(&format!("type {TPM2_SE_POLICY}")));
    assert!(!t.asked.contains(&"auth".to_string()));
    assert!(t.handles.is_empty(), "every handle is freed");
}

fn copy(t: &Tpm2TokenRef) -> Tpm2TokenRef {
    Tpm2TokenRef {
        token_id: t.token_id.clone(),
        blob: t.blob.clone(),
        pcrs: t.pcrs.clone(),
        pcr_bank: t.pcr_bank.clone(),
        pin_required: t.pin_required,
    }
}

#[test]
fn roundtrip_seal_unseal_with_pin() {
    let mut t = tpm();
    t.persistent = true;
    let secret = Secret::new(b"pin protected secret".to_vec());
    let sealed = match t.run(|log| seal(&secret, "7+11", "hunter2", "x", log)) {
        Ok(s) => s,
        Err(e) => panic!("seal failed: {e}"),
    };
    assert_eq!(sealed.policy_hash.len(), 32);
    assert_eq!(sealed.policy_hash, Sha256::digest([0x80, 0x08, 0, 0xFF]).to_vec());
    assert_eq!(sealed.srk_blob, 0x8100_0001u32.to_be_bytes());
    assert!(t.asked.contains(&format!("attributes {SEAL_PIN_ATTRIBUTES:#x}")));
    // The object's authorization is the hash of the PIN.
    assert_eq!(t.auth, Sha256::digest(b"hunter2").to_vec());
    assert!(t.handles.is_empty());

    let mut tok = token("1", true);
    tok.blob = sealed.blob;
    tok.pcrs = "7+11".to_string();
    let tokens = vec![tok];
    match t.run(|log| unseal_from_tokens(&tokens, "hunter2", "x", log)) {
        Ok(out) => assert_eq!(out.as_bytes(), secret.as_bytes()),
        Err(e) => panic!("unseal with pin failed: {e}"),
    }
    assert!(t.handles.is_empty());

    let err = t.run(|log| unseal_from_tokens(&tokens, "wrong", "x", log)).err().unwrap();
    assert!(err.starts_with("Token 1: "), "unexpected error: {err}");
    assert!(t.handles.is_empty());

    let err = t.run(|log| unseal_from_tokens(&tokens, "", "x", log)).err();
    assert_eq!(err.as_deref(), Some("No systemd-tpm2 token could be unsealed"));

    // Other PCRs do not open it either.
    let mut other = copy(&tokens[0]);
    other.pcrs = "7".to_string();
    let err = t.run(|log| unseal_from_tokens(&vec![copy(&other)], "hunter2", "x", log)).err();
    assert_eq!(err.as_deref(), Some("Token 1: Esys_Unseal failed: 0x0000099d"));
}

#[test]
fn sealing_frees_its_handles_wherever_it_fails() {
    let secret = Secret::new(vec![1, 2, 3]);
    for name in [
        "esys", "primary", "serialize", "session", "pcr", "authvalue", "digest", "create",
        "private", "public",
    ] {
        for persistent in [false, true] {
            if persistent && name == "primary" {
                continue;
            }
            let mut t = tpm();
            t.persistent = persistent;
            t.broken = Some((name, 0x101));
            let err = t.run(|log| seal(&secret, "7", "pin", "x", log)).err().expect(name);
            assert!(err.contains("0x00000101"), "{name}: {err}");
            assert!(t.handles.is_empty(), "{name}");
        }
    }
}

#[test]
fn sealing_refuses_bad_arguments() {
    let mut t = tpm();
    let big = Secret::new(vec![0; TPM2_MAX_SYM_DATA + 1]);
    let err = t.run(|log| seal(&big, "7", "", "x", log)).err().unwrap();
    assert!(err.contains("257"), "{err}");
    let small = Secret::new(vec![0]);
    let err = t.run(|log| seal(&small, "24", "", "x", log)).err();
    assert_eq!(err.as_deref(), Some("PCR index 24 out of range (0-23)"));
    assert!(t.handles.is_empty());
}

#[test]
fn unsealing_goes_on_to_the_next_token() {
    let mut t = tpm();
    let secret = Secret::new(vec![4; 32]);
    let sealed = match t.run(|log| seal(&secret, "7", "", "x", log)) {
        Ok(s) => s,
        Err(e) => panic!("seal failed: {e}"),
    };
    let mut good = token("9", false);
    good.blob = sealed.blob;
    let tokens = vec![token("8", false), good];
    match t.run(|log| unseal_from_tokens(&tokens, "", "x", log)) {
        Ok(out) => assert_eq!(out.as_bytes(), &[4; 32]),
        Err(e) => panic!("{e}"),
    }
    assert_eq!(t.asked.iter().filter(|a| *a == "tcti").count(), 2);
    t.broken = Some(("load", 0x1df));
    let err = t.run(|log| unseal_from_tokens(&tokens, "", "x", log)).err().unwrap();
    assert!(err.starts_with("Token 9: "), "{err}");
    assert!(err.contains("0x000001df"), "{err}");
    assert!(t.handles.is_empty());
}

#[test]
fn the_first_setting_names_the_transport() {
    assert_eq!(tcti_conf(&vec![None, None]), "device:/dev/tpmrm0");
    assert_eq!(
        tcti_conf(&vec![None, Some("swtpm:port=2321".to_string()), Some("x".to_string())]),
        "swtpm:port=2321"
    );
}

#[test]
fn secrets_are_what_the_generator_gave() {
    match secret_from(Ok(vec![7; 32])) {
        Ok(secret) => assert_eq!(secret.as_bytes(), &[7; 32]),
        Err(e) => panic!("{}", e.0),
    }
    match secret_from(Err("no entropy".to_string())) {
        Ok(_) => panic!("expected a failure"),
        Err(e) => assert_eq!(e.0, "no entropy"),
    }
}
