use base64::engine::general_purpose::STANDARD as B64;
use base64::Engine;
use luks_enroll::cache::{is_fresh, VolumeKeyCache};
use luks_enroll::codec::{b64_decode, b64_encode, copy_bytes, Secret};
use luks_enroll::constants::{TOKEN_TYPE_FIDO2, TOKEN_TYPE_RECOVERY, TOKEN_TYPE_TPM2};
use luks_enroll::error::{cstring, Error};
use luks_enroll::fido2::FIDO2_RP_ID;
use luks_enroll::json::{array, get, get_items, get_members, get_str, integer, string, ObjectBuilder};
use luks_enroll::luks::{
    fido2_token_refs, find_token_for_keyslot, list_keyslots, metadata_json, password_keyslots,
    token_keyslots, tokens_by_type, tpm2_token_refs,
};
use luks_enroll::recovery::{make_recovery_key, recovery_key_from};
use luks_enroll::service::{
    create_fd_is_empty, fido2_token_json, recovery_token_json, tpm2_token_json,
};
use luks_enroll::table::Table;
use luks_enroll::text::{
    dec_i64, dec_u64, hex_encode, hex_u32, join_strings, parse_i64, parse_u64, split_chars,
    text_less, trim_str, words_of,
};
use luks_enroll::tpm2::SealResult;
use luks_enroll::volume::is_mapper_name;
use serde_json::Value;

fn chars(s: &str) -> Vec<char> {
    s.chars().collect()
}

#[test]
fn recovery_key_format() {
    let key = make_recovery_key().expect("random numbers");
    assert_eq!(key.len(), 71);
    let groups: Vec<&str> = key.split('-').collect();
    assert_eq!(groups.len(), 8);
    for g in groups {
        assert_eq!(g.len(), 8);
        assert!(g.bytes().all(|b| b"cbdefghijklnrtuv".contains(&b)), "non-modhex in {g}");
    }
}

#[test]
fn recovery_keys_are_unique() {
    assert_ne!(make_recovery_key().unwrap(), make_recovery_key().unwrap());
}

#[test]
fn recovery_key_of_given_bytes() {
    let mut raw = [0u8; 32];
    raw[0] = 0x01;
    raw[1] = 0x23;
    raw[2] = 0x45;
    raw[3] = 0x67;
    raw[4] = 0x89;
    raw[5] = 0xab;
    raw[6] = 0xcd;
    raw[7] = 0xef;
    let key = recovery_key_from(&raw);
    assert!(key.starts_with("cbdefghi-jklnrtuv-cccccccc-"), "{key}");
    assert_eq!(key.len(), 71);
    let mut other = raw;
    other[31] = 1;
    assert_ne!(recovery_key_from(&other), key);
}

#[test]
fn fido2_token_json_has_expected_shape() {
    let cred_id = [0xDEu8, 0xAD, 0xBE, 0xEF];
    let salt = [0x01u8, 0x02, 0x03];

    let tok = fido2_token_json(&cred_id, &salt, true).build();
    let mut want = serde_json::Map::new();
    want.insert("type".to_string(), Value::from(TOKEN_TYPE_FIDO2));
    want.insert("fido2-credential".to_string(), Value::from(B64.encode(cred_id)));
    want.insert("fido2-salt".to_string(), Value::from(B64.encode(salt)));
    want.insert("fido2-rp".to_string(), Value::from(FIDO2_RP_ID));
    want.insert("fido2-clientPin-required".to_string(), Value::from(true));
    want.insert("fido2-up-required".to_string(), Value::from(true));
    want.insert("fido2-uv-required".to_string(), Value::from(false));
    assert_eq!(tok, Value::Object(want));
    assert!(tok.get("keyslots").is_none());

    let tok = fido2_token_json(&cred_id, &salt, false).build();
    assert_eq!(tok["fido2-clientPin-required"], Value::from(false));
}

#[test]
fn tpm2_token_json_emits_both_blob_spellings() {
    let sealed = SealResult {
        blob: vec![0xAA, 0xBB, 0xCC],
        policy_hash: vec![0x12, 0x34],
        primary_alg: "ecc",
        srk_blob: vec![0xFE, 0xED],
    };

    let tok = tpm2_token_json(&sealed, &[7, 11], true).build();
    let blob_b64 = B64.encode(&sealed.blob);
    let mut want = serde_json::Map::new();
    want.insert("type".to_string(), Value::from(TOKEN_TYPE_TPM2));
    want.insert("tpm2-blob".to_string(), Value::from(blob_b64.clone()));
    want.insert("tpm2_blob".to_string(), Value::from(blob_b64));
    want.insert("tpm2-pcrs".to_string(), Value::from(vec![7, 11]));
    want.insert("tpm2-pcr-bank".to_string(), Value::from("sha256"));
    want.insert("tpm2-primary-alg".to_string(), Value::from("ecc"));
    want.insert("tpm2-policy-hash".to_string(), Value::from(hex_encode(&sealed.policy_hash)));
    want.insert("tpm2-pin".to_string(), Value::from(true));
    want.insert("tpm2_pubkey_pcrs".to_string(), Value::Array(vec![]));
    want.insert("tpm2_pcr_hash".to_string(), Value::from("sha256"));
    want.insert("tpm2_pcrlock".to_string(), Value::from(false));
    want.insert("tpm2_srk".to_string(), Value::from(B64.encode(&sealed.srk_blob)));
    assert_eq!(tok, Value::Object(want));
    assert_eq!(hex_encode(&sealed.policy_hash), "1234");
    assert_eq!(tok["tpm2-blob"], tok["tpm2_blob"]);
    assert!(tok["tpm2-blob"].is_string());
    assert!(tok.get("keyslots").is_none());
}

#[test]
fn recovery_token_json_is_type_only() {
    let tok = recovery_token_json().build();
    let mut want = serde_json::Map::new();
    want.insert("type".to_string(), Value::from(TOKEN_TYPE_RECOVERY));
    assert_eq!(tok, Value::Object(want));
    assert!(tok.get("keyslots").is_none());
    assert_eq!(tok.as_object().unwrap().len(), 1);
}

#[test]
fn cstring_builds_and_reports_nul() {
    assert_eq!(cstring(b"ok", "x").unwrap(), b"ok\0");
    let err = cstring(b"a\0b", "device path").unwrap_err();
    assert_eq!(err.0, "device path contains a NUL byte");
    assert_eq!(Error::new("x").to_string(), "x");
    assert_eq!(Error::from("y".to_string()).to_string(), "y");
}

#[test]
fn base64_there_and_back() {
    for n in 0..70usize {
        let bytes: Vec<u8> = (0..n).map(|i| (i * 37 + n) as u8).collect();
        let text = b64_encode(&bytes);
        assert_eq!(text, B64.encode(&bytes));
        assert_eq!(b64_decode(&text), Ok(bytes));
    }
    assert_eq!(b64_encode(b"foob"), "Zm9vYg==");
    assert!(b64_decode("Zm9vYg").is_err());
    assert!(b64_decode("*").is_err());
    let why = B64.decode("*").unwrap_err().to_string();
    assert_eq!(b64_decode("*"), Err(why));
}

#[test]
fn secrets_hold_their_bytes() {
    let s = Secret::new(vec![1, 2, 3]);
    assert_eq!(s.as_bytes(), &[1, 2, 3]);
    assert_eq!(s.copy().as_bytes(), &[1, 2, 3]);
    assert_eq!(copy_bytes(&[4, 5]), vec![4, 5]);
}

#[test]
fn cache_keeps_one_key_per_device_for_two_minutes() {
    let mut c = VolumeKeyCache::new();
    let key = |k: Option<Secret>| k.map(|s| s.as_bytes().to_vec());
    assert_eq!(key(c.cached_volume_key("a", 0)), None);
    c.cache_volume_key("a", Secret::new(vec![1]), 1000);
    c.cache_volume_key("b", Secret::new(vec![2]), 1000);
    assert_eq!(key(c.cached_volume_key("a", 1000)), Some(vec![1]));
    c.cache_volume_key("a", Secret::new(vec![3]), 2000);
    assert_eq!(key(c.cached_volume_key("a", 2000)), Some(vec![3]));
    c.clear_volume_key_cache("a");
    assert_eq!(key(c.cached_volume_key("a", 2000)), None);
    assert_eq!(key(c.cached_volume_key("b", 2000)), Some(vec![2]));
    assert_eq!(key(c.cached_volume_key("b", 1000 + 120_000_000_000)), None);
    // It is gone for good.
    assert_eq!(key(c.cached_volume_key("b", 1000)), None);
    assert!(is_fresh(10, 14, 5));
    assert!(!is_fresh(10, 15, 5));
    assert!(is_fresh(10, 5, 5));
}

#[test]
fn tables_remember_by_name() {
    let mut t: Table<u64> = Table::new();
    assert!(t.get("a").is_none());
    t.insert("a", 1);
    t.insert("b", 2);
    t.insert("a", 3);
    assert_eq!(t.get("a"), Some(&3));
    t.remove("a");
    assert!(t.get("a").is_none());
    assert_eq!(t.get("b"), Some(&2));
}

#[test]
fn objects_are_built_in_the_order_of_their_keys() {
    let b = ObjectBuilder::new()
        .with_str("b", "x\"y")
        .with_bool("a", true)
        .with("c", array(vec![integer(-5), string("z")]))
        .with_bool("a", false);
    let v = b.build();
    assert_eq!(v.to_string(), "{\"a\":false,\"b\":\"x\\\"y\",\"c\":[-5,\"z\"]}");
    assert_eq!(get_str(&v, "b"), Some("x\"y"));
    assert_eq!(get_str(&v, "a"), None);
    assert!(get(&v, "d").is_none());
    assert_eq!(get_items(&v, "c").map(|i| i.len()), Some(2));
    assert!(get_items(&v, "a").is_none());
    assert!(get_members(&v, "a").is_empty());
}

/// A header with three keyslots: a password, a FIDO2 token and a TPM.
fn header() -> String {
    let blob = B64.encode([1, 2, 3]);
    format!(
        "{{\"keyslots\":{{\"0\":{{\"type\":\"luks2\"}},\"2\":{{\"type\":\"luks2\"}},\
         \"10\":{{\"type\":\"reencrypt\"}},\"x\":{{\"type\":\"luks2\"}}}},\
         \"tokens\":{{\"0\":{{\"type\":\"systemd-fido2\",\"keyslots\":[\"2\"],\
         \"fido2-credential\":\"{blob}\",\"fido2-salt\":\"{blob}\"}},\
         \"1\":{{\"type\":\"systemd-tpm2\",\"keyslots\":[\"10\",\"y\"],\"tpm2-blob\":\"{blob}\",\
         \"tpm2-pcrs\":[7,11],\"tpm2-pin\":true}}}}}}"
    )
}

#[test]
fn headers_are_read() {
    let meta = metadata_json(Some(&header()));
    let meta = meta.as_ref();
    assert!(meta.is_some());
    let slots = list_keyslots(meta);
    assert_eq!(slots.get(&0).map(String::as_str), Some("luks2"));
    assert_eq!(slots.get(&10).map(String::as_str), Some("reencrypt"));
    assert_eq!(slots.len(), 3);
    assert_eq!(tokens_by_type(meta, "systemd-fido2"), vec![(0, vec![2])]);
    assert_eq!(tokens_by_type(meta, "systemd-tpm2"), vec![(1, vec![10])]);
    assert!(tokens_by_type(meta, "other").is_empty());
    assert_eq!(password_keyslots(meta), vec![0]);
    assert_eq!(find_token_for_keyslot(meta, 2), 0);
    assert_eq!(find_token_for_keyslot(meta, 10), 1);
    assert_eq!(find_token_for_keyslot(meta, 0), -1);
    let fido2 = fido2_token_refs(meta).unwrap();
    assert_eq!(fido2.len(), 1);
    assert_eq!(fido2[0].cred_id, vec![1, 2, 3]);
    let tpm2 = tpm2_token_refs(meta).unwrap();
    assert_eq!(tpm2[0].token_id, "1");
    assert_eq!(tpm2[0].pcrs, "7+11");
    assert_eq!(tpm2[0].pcr_bank, "sha256");
    assert!(tpm2[0].pin_required);
    let token = &meta.unwrap()["tokens"]["1"];
    assert_eq!(token_keyslots(token), vec![10]);
}

#[test]
fn pcrs_of_a_token_in_every_form() {
    let cases = [
        ("7", "7"),
        ("\"7+11\"", "7+11"),
        ("[7,\"11\",null]", "7+11+"),
        ("-1", "-1"),
        ("true", "true"),
        ("null", "null"),
        ("{}", "{}"),
    ];
    for (field, pcrs) in cases {
        let text = format!(
            "{{\"tokens\":{{\"0\":{{\"type\":\"systemd-tpm2\",\"tpm2-blob\":\"\",\
             \"tpm2-pcrs\":{field}}}}}}}"
        );
        let meta = metadata_json(Some(&text));
        let refs = tpm2_token_refs(meta.as_ref()).unwrap();
        assert_eq!(refs[0].pcrs, pcrs, "{field}");
    }
}

#[test]
fn password_keyslots_are_the_rest_in_order() {
    let meta = metadata_json(Some(
        "{\"keyslots\":{\"10\":{},\"2\":{},\"x\":{},\"0\":{},\"7\":{}},\
         \"tokens\":{\"3\":{\"type\":\"t\",\"keyslots\":[\"7\",\"9\"]}}}",
    ));
    let meta = meta.as_ref();
    let slots = password_keyslots(meta);
    assert_eq!(slots, vec![0, 2, 10]);
    for n in -1..12 {
        let rest = list_keyslots(meta).contains_key(&n) && find_token_for_keyslot(meta, n) == -1;
        assert_eq!(slots.contains(&n), rest, "{n}");
    }
    // A number that is written in two ways is listed twice.
    let meta = metadata_json(Some("{\"keyslots\":{\"0\":{},\"00\":{}}}"));
    assert_eq!(password_keyslots(meta.as_ref()), vec![0, 0]);
    // One that a token belongs to does not matter.
    let meta = metadata_json(Some(
        "{\"keyslots\":{\"0\":{},\"1\":{},\"01\":{}},\
         \"tokens\":{\"0\":{\"keyslots\":[\"1\"]}}}",
    ));
    assert_eq!(password_keyslots(meta.as_ref()), vec![0]);
    // A token without a number takes its keyslot, and is not found for it.
    let meta = metadata_json(Some(
        "{\"keyslots\":{\"0\":{}},\"tokens\":{\"a\":{\"keyslots\":[\"0\"]}}}",
    ));
    assert!(password_keyslots(meta.as_ref()).is_empty());
    assert_eq!(find_token_for_keyslot(meta.as_ref(), 0), -1);
}

#[test]
fn bad_headers_hold_nothing() {
    assert!(metadata_json(None).is_none());
    assert!(metadata_json(Some("{")).is_none());
    assert!(list_keyslots(None).is_empty());
    assert!(password_keyslots(None).is_empty());
    assert_eq!(find_token_for_keyslot(None, 0), -1);
    let bad = "{\"tokens\":{\"0\":{\"type\":\"systemd-fido2\",\"fido2-credential\":\"*\",\
               \"fido2-salt\":\"\"}}}";
    let meta = metadata_json(Some(bad));
    let err = match fido2_token_refs(meta.as_ref()) {
        Ok(_) => panic!("expected a failure"),
        Err(e) => e.0,
    };
    let why = B64.decode("*").unwrap_err().to_string();
    assert_eq!(err, format!("bad base64: {why}"));
}

#[test]
fn mapper_names() {
    for name in ["luks-1234", "a", "...", "a.b"] {
        assert!(is_mapper_name(name), "{name}");
    }
    for name in ["", ".", "..", "a/b", "/"] {
        assert!(!is_mapper_name(name), "{name}");
    }
}

#[test]
fn empty_descriptors() {
    assert!(create_fd_is_empty(Some(0)));
    assert!(!create_fd_is_empty(Some(1)));
    assert!(!create_fd_is_empty(None));
}

#[test]
fn numbers_and_their_texts() {
    for n in [0u64, 1, 9, 10, 99, 100, 12345, u64::MAX] {
        assert_eq!(dec_u64(n), n.to_string());
        assert_eq!(parse_u64(&chars(&n.to_string())), Some(n));
    }
    for n in [0i64, -1, 9, -10, i64::MAX, i64::MIN] {
        assert_eq!(dec_i64(n), n.to_string());
        assert_eq!(parse_i64(&chars(&n.to_string())), Some(n));
    }
    for s in ["", "-", "+", "1x", " 1", "99999999999999999999"] {
        assert_eq!(parse_i64(&chars(s)), s.parse::<i64>().ok(), "{s}");
        assert_eq!(parse_u64(&chars(s)), s.parse::<u64>().ok(), "{s}");
    }
    for s in ["+5", "-5", "-0", "007"] {
        assert_eq!(parse_i64(&chars(s)), s.parse::<i64>().ok(), "{s}");
        assert_eq!(parse_u64(&chars(s)), s.parse::<u64>().ok(), "{s}");
    }
    assert_eq!(hex_u32(0x1df), format!("{:08x}", 0x1df));
    assert_eq!(hex_encode(&[0, 255, 16]), "00ff10");
}

#[test]
fn texts() {
    let s = " a\tbc \u{2003}d\n";
    assert_eq!(trim_str(s), s.trim());
    assert_eq!(words_of(&chars(s)), s.split_whitespace().collect::<Vec<_>>());
    for t in ["", "+", "a+b", "+a++b+"] {
        let parts = split_chars(&chars(t), '+');
        assert_eq!(parts, t.split('+').collect::<Vec<_>>());
        assert_eq!(join_strings(&parts, '+'), t);
    }
    for a in ["", "a", "ab", "b", "\u{e9}", "\u{ffff}", "\u{10000}"] {
        for b in ["", "a", "ab", "b", "\u{e9}", "\u{ffff}", "\u{10000}"] {
            assert_eq!(text_less(a, b), a < b, "{a} {b}");
        }
    }
}
