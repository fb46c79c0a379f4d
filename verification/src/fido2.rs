//! FIDO2 tokens.
//!
//! Credentials are those of systemd-cryptenroll: the relying party
//! "io.systemd.cryptsetup", ES256, the hmac-secret extension, no resident key,
//! no user verification, and a client data hash of 32 zero bytes.

use vstd::prelude::*;
use vstd::utf8::encode_utf8;

use crate::codec::{copy_bytes, random_32, Secret};
use crate::error::{cstring, Error};
use crate::luks::{Fido2Ref, Fido2TokenRef};
use crate::order::views;
use crate::text::{
    all_digits, chars_of, concat, concat3, dec, dec_i64, digits_only, starts_with, str_starts_with,
    sub_string, texts,
};
use crate::volume::{unexpected, unexpected_error};

verus! {

// ---------------------------------------------------------------------------
// libfido2
// ---------------------------------------------------------------------------

/// libfido2: success.
pub const FIDO_OK: i32 = 0;

/// libfido2: the token has to be touched.
pub const FIDO_ERR_UP_REQUIRED: i32 = 0x3b;

/// libfido2: the token does not hold the credential.
pub const FIDO_ERR_NO_CREDENTIALS: i32 = 0x2e;

/// libfido2: the token has no PIN.
pub const FIDO_ERR_PIN_NOT_SET: i32 = 0x35;

/// libfido2: the token wants a PIN.
pub const FIDO_ERR_PIN_REQUIRED: i32 = 0x36;

/// libfido2: the PIN is wrong.
pub const FIDO_ERR_PIN_INVALID: i32 = 0x31;

/// The COSE algorithm of a credential.
pub const COSE_ES256: i32 = -7;

/// libfido2: the hmac-secret extension.
pub const FIDO_EXT_HMAC_SECRET: i32 = 0x01;

/// libfido2: an option left to the token.
pub const FIDO_OPT_OMIT: i32 = 0;

/// libfido2: an option switched off.
pub const FIDO_OPT_FALSE: i32 = 1;

/// libfido2: an option switched on.
pub const FIDO_OPT_TRUE: i32 = 2;

/// The relying party of every credential, as systemd-cryptenroll has it.
pub const FIDO2_RP_ID: &'static str = "io.systemd.cryptsetup";

/// How many devices are listed at most.
pub const FIDO2_MAX_DEVICES: usize = 16;

/// How long one device is asked for a touch at a time, in milliseconds.
pub const TOUCH_POLL: i32 = 200;

/// What a FIDO2 enrollment yields: the credential, the salt, and the secret
/// that the token derives from the salt.
pub struct Fido2Enrollment {
    pub cred_id: Vec<u8>,
    pub salt: Vec<u8>,
    pub hmac_secret: Vec<u8>,
}

/// Whether `path` is `/dev/hidraw` and a number.
pub open spec fn hidraw_path(path: Seq<char>) -> bool {
    starts_with(path, "/dev/hidraw"@) && path.len() > 11 && all_digits(path.skip(11))
}

/// Whether `path` is `/dev/hidraw` and a number.
pub fn is_hidraw_path(path: &str) -> (r: bool)
    ensures
        r == hidraw_path(path@),
{
    if !str_starts_with(path, "/dev/hidraw") {
        return false;
    }
    proof {
        reveal_strlit("/dev/hidraw");
    }
    let c = chars_of(path);
    if c.len() <= 11 {
        return false;
    }
    let number = sub_string(c.as_slice(), 11, c.len());
    let d = chars_of(number.as_str());
    assert(d@ =~= path@.skip(11));
    digits_only(d.as_slice())
}

/// What the status of a silent assertion says of a credential: that the token
/// does not hold it, that it does (the credential is looked up before the PIN is
/// checked), or nothing.
pub open spec fn probe_verdict(ret: i32) -> Option<bool> {
    if ret == FIDO_ERR_NO_CREDENTIALS {
        Some(false)
    } else if ret == FIDO_OK || ret == FIDO_ERR_UP_REQUIRED || ret == FIDO_ERR_PIN_NOT_SET || ret
        == FIDO_ERR_PIN_REQUIRED || ret == FIDO_ERR_PIN_INVALID {
        Some(true)
    } else {
        None
    }
}

/// What the status of a silent assertion says of a credential.
pub fn classify_probe_ret(ret: i32) -> (r: Option<bool>)
    ensures
        r == probe_verdict(ret),
{
    if ret == FIDO_ERR_NO_CREDENTIALS {
        Some(false)
    } else if ret == FIDO_OK || ret == FIDO_ERR_UP_REQUIRED || ret == FIDO_ERR_PIN_NOT_SET || ret
        == FIDO_ERR_PIN_REQUIRED || ret == FIDO_ERR_PIN_INVALID {
        Some(true)
    } else {
        None
    }
}

/// What is handed to libfido2 for a PIN: nothing for none or an empty one, and
/// else its bytes with a NUL behind them.
pub open spec fn pin_bytes(pin: Option<Seq<char>>) -> Result<Option<Seq<u8>>, Seq<char>> {
    match pin {
        Some(p) => if p.len() == 0 {
            Ok(None)
        } else if encode_utf8(p).contains(0u8) {
            Err("PIN contains a NUL byte"@)
        } else {
            Ok(Some(encode_utf8(p).push(0u8)))
        },
        None => Ok(None),
    }
}

/// What an optional byte string holds.
pub open spec fn opt_bytes(v: Option<Vec<u8>>) -> Option<Seq<u8>> {
    match v {
        Some(b) => Some(b@),
        None => None,
    }
}

/// What is handed to libfido2 for a PIN.
pub fn pin_cstring(pin: Option<&str>) -> (r: Result<Option<Vec<u8>>, Error>)
    ensures
        match r {
            Ok(v) => pin_bytes(
                match pin {
                    Some(p) => Some(p@),
                    None => None,
                },
            ) == Ok::<Option<Seq<u8>>, Seq<char>>(opt_bytes(v)),
            Err(e) => pin_bytes(
                match pin {
                    Some(p) => Some(p@),
                    None => None,
                },
            ) == Err::<Option<Seq<u8>>, Seq<char>>(e@),
        },
{
    match pin {
        Some(p) => {
            if p.is_empty() {
                return Ok(None);
            }
            match cstring(p.as_bytes(), "PIN") {
                Ok(v) => Ok(Some(v)),
                Err(_) => Err(Error::new("PIN contains a NUL byte")),
            }
        },
        None => Ok(None),
    }
}

/// A new random user id or salt: 32 bytes. It fails only where the operating
/// system's random number generator does.
pub fn new_nonce() -> (r: Result<Vec<u8>, Error>)
    ensures
        r matches Ok(v) ==> v@.len() == 32,
{
    nonce_from(random_32())
}

/// The user id or salt, by what the random number generator gave: its bytes, or what
/// it failed with.
pub fn nonce_from(drawn: Result<Vec<u8>, String>) -> (r: Result<Vec<u8>, Error>)
    ensures
        match drawn {
            Ok(raw) => r matches Ok(v) && v@ == raw@,
            Err(why) => r matches Err(e) && e@ == why@,
        },
{
    match drawn {
        Ok(raw) => Ok(raw),
        Err(why) => Err(Error(why)),
    }
}

// ---------------------------------------------------------------------------
// The tokens
// ---------------------------------------------------------------------------

/// Work for the FIDO2 devices. A device goes by a number.
pub enum FidoRequest {
    /// List the devices, [`FIDO2_MAX_DEVICES`] at most: [`FidoAnswer::Listed`].
    List,
    /// Open the device at that place of the list: [`FidoAnswer::Opened`].
    OpenListed { device: usize },
    /// Open the device at `path`, after resolving links, as number `device`:
    /// [`FidoAnswer::Opened`].
    OpenPath { path: String, device: usize },
    /// Resolve the links in `path`: [`FidoAnswer::Canonical`].
    Canonical { path: String },
    /// A silent assertion for a credential: no touch, no PIN, no extension:
    /// [`FidoAnswer::Probed`].
    Probe { device: usize, cred_id: Vec<u8> },
    /// Let the user pick one of the devices by a touch: [`FidoAnswer::Touched`].
    TouchSelect { devices: Vec<usize> },
    /// How long the device may take, in milliseconds; the answer does not matter.
    SetTimeout { device: usize, milliseconds: i32 },
    /// Make a credential for the user `user_id`: [`FidoAnswer::Made`].
    MakeCredential { device: usize, user_id: Vec<u8>, pin: Option<Vec<u8>> },
    /// An assertion with the hmac-secret extension: [`FidoAnswer::Asserted`].
    HmacSecret { device: usize, cred_id: Vec<u8>, salt: Vec<u8>, pin: Option<Vec<u8>> },
}

/// The contents of a [`FidoRequest`].
#[verifier::ext_equal]
pub ghost enum FidoAsk {
    List,
    OpenListed { device: usize },
    OpenPath { path: Seq<char>, device: usize },
    Canonical { path: Seq<char> },
    Probe { device: usize, cred_id: Seq<u8> },
    TouchSelect { devices: Seq<usize> },
    SetTimeout { device: usize, milliseconds: i32 },
    MakeCredential { device: usize, user_id: Seq<u8>, pin: Option<Seq<u8>> },
    HmacSecret { device: usize, cred_id: Seq<u8>, salt: Seq<u8>, pin: Option<Seq<u8>> },
}

impl View for FidoRequest {
    type V = FidoAsk;

    open spec fn view(&self) -> FidoAsk {
        match *self {
            FidoRequest::List => FidoAsk::List,
            FidoRequest::OpenListed { device } => FidoAsk::OpenListed { device },
            FidoRequest::OpenPath { path, device } => FidoAsk::OpenPath { path: path@, device },
            FidoRequest::Canonical { path } => FidoAsk::Canonical { path: path@ },
            FidoRequest::Probe { device, cred_id } => FidoAsk::Probe { device, cred_id: cred_id@ },
            FidoRequest::TouchSelect { devices } => FidoAsk::TouchSelect { devices: devices@ },
            FidoRequest::SetTimeout { device, milliseconds } => FidoAsk::SetTimeout {
                device,
                milliseconds,
            },
            FidoRequest::MakeCredential { device, user_id, pin } => FidoAsk::MakeCredential {
                device,
                user_id: user_id@,
                pin: opt_bytes(pin),
            },
            FidoRequest::HmacSecret { device, cred_id, salt, pin } => FidoAsk::HmacSecret {
                device,
                cred_id: cred_id@,
                salt: salt@,
                pin: opt_bytes(pin),
            },
        }
    }
}

/// The outcome of a [`FidoRequest`].
pub enum FidoAnswer {
    /// The status of the listing and, for each device that was found, whether it
    /// has a path; none if there was no memory.
    Listed(Option<(i32, Vec<bool>)>),
    /// The status of the opening; none if there was no memory or no such path.
    Opened(Option<i32>),
    /// The path without links, if there is something there.
    Canonical(Option<String>),
    /// The status of the assertion; none if there was no memory.
    Probed(Option<i32>),
    /// The place of the device that was touched among those that were offered.
    Touched(usize),
    /// The work is done.
    Ack,
    /// The status, and the credential, if there is one; none if there was no memory.
    Made(Option<(i32, Option<Vec<u8>>)>),
    /// The status, and the secret, if there is one; none if there was no memory.
    Asserted(Option<(i32, Option<Secret>)>),
}

/// How far a part of the work has come.
pub enum FidoStep<T> {
    Ask(FidoRequest),
    Fail(Error, usize),
    Done(T, usize),
}

/// The contents of a [`FidoStep`].
#[verifier::ext_equal]
pub ghost enum FidoStage<T> {
    Ask(FidoAsk),
    Fail(Seq<char>, int),
    Done(T, int),
}

impl<T: View> View for FidoStep<T> {
    type V = FidoStage<T::V>;

    open spec fn view(&self) -> FidoStage<T::V> {
        match *self {
            FidoStep::Ask(r) => FidoStage::Ask(r@),
            FidoStep::Fail(e, n) => FidoStage::Fail(e@, n as int),
            FidoStep::Done(t, n) => FidoStage::Done(t@, n as int),
        }
    }
}

/// The assertion that yields the secret of a credential.
pub open spec fn hmac_stage(
    device: usize,
    cred_id: Seq<u8>,
    salt: Seq<u8>,
    pin: Option<Seq<char>>,
    log: Seq<FidoAnswer>,
    at: int,
) -> FidoStage<Seq<u8>> {
    match pin_bytes(pin) {
        Err(e) => FidoStage::Fail(e, at),
        Ok(bytes) => if at >= log.len() {
            FidoStage::Ask(FidoAsk::HmacSecret { device, cred_id, salt, pin: bytes })
        } else {
            match log[at] {
                FidoAnswer::Asserted(None) => FidoStage::Fail("fido_assert_new failed"@, at + 1),
                FidoAnswer::Asserted(Some((ret, secret))) => if ret != FIDO_OK {
                    FidoStage::Fail("fido_dev_get_assert failed: "@ + dec(ret as int), at + 1)
                } else {
                    match secret {
                        Some(s) => if s@.len() > 0 {
                            FidoStage::Done(s@, at + 1)
                        } else {
                            FidoStage::Fail("hmac-secret output is empty"@, at + 1)
                        },
                        None => FidoStage::Fail("hmac-secret output is empty"@, at + 1),
                    }
                },
                _ => FidoStage::Fail(unexpected(), at + 1),
            }
        },
    }
}

/// The PIN in `pin`, where there is one.
pub open spec fn pin_view(pin: Option<&str>) -> Option<Seq<char>> {
    match pin {
        Some(p) => Some(p@),
        None => None,
    }
}

fn get_hmac_secret(
    device: usize,
    cred_id: &Vec<u8>,
    salt: &Vec<u8>,
    pin: Option<&str>,
    log: &Vec<FidoAnswer>,
    at: usize,
) -> (r: FidoStep<Secret>)
    ensures
        r@ == hmac_stage(device, cred_id@, salt@, pin_view(pin), log@, at as int),
{
    let bytes = match pin_cstring(pin) {
        Ok(b) => b,
        Err(e) => {
            return FidoStep::Fail(e, at);
        },
    };
    if at >= log.len() {
        return FidoStep::Ask(
            FidoRequest::HmacSecret {
                device,
                cred_id: copy_bytes(cred_id.as_slice()),
                salt: copy_bytes(salt.as_slice()),
                pin: bytes,
            },
        );
    }
    match &log[at] {
        FidoAnswer::Asserted(None) => FidoStep::Fail(Error::new("fido_assert_new failed"), at + 1),
        FidoAnswer::Asserted(Some(reply)) => {
            if reply.0 != FIDO_OK {
                let code = dec_i64(reply.0 as i64);
                return FidoStep::Fail(
                    Error(concat("fido_dev_get_assert failed: ", code.as_str())),
                    at + 1,
                );
            }
            match &reply.1 {
                Some(s) => {
                    if s.as_bytes().len() == 0 {
                        return FidoStep::Fail(Error::new("hmac-secret output is empty"), at + 1);
                    }
                    FidoStep::Done(s.copy(), at + 1)
                },
                None => FidoStep::Fail(Error::new("hmac-secret output is empty"), at + 1),
            }
        },
        _ => FidoStep::Fail(unexpected_error(), at + 1),
    }
}

// ---------------------------------------------------------------------------
// Enrollment
// ---------------------------------------------------------------------------

/// The contents of a [`Fido2Enrollment`].
#[verifier::ext_equal]
pub ghost struct Enrolled {
    pub cred_id: Seq<u8>,
    pub salt: Seq<u8>,
    pub hmac_secret: Seq<u8>,
}

impl View for Fido2Enrollment {
    type V = Enrolled;

    open spec fn view(&self) -> Enrolled {
        Enrolled { cred_id: self.cred_id@, salt: self.salt@, hmac_secret: self.hmac_secret@ }
    }
}

/// Opening the device at `path` for an enrollment, after checking that it is a
/// hidraw node.
pub open spec fn open_for_enroll_stage(path: Seq<char>, log: Seq<FidoAnswer>) -> FidoStage<()> {
    if log.len() == 0 {
        FidoStage::Ask(FidoAsk::Canonical { path })
    } else {
        match log[0] {
            FidoAnswer::Canonical(found) => match found {
                Some(node) => if !hidraw_path(node@) {
                    FidoStage::Fail("Invalid FIDO2 device path: "@ + path, 1)
                } else if log.len() == 1 {
                    FidoStage::Ask(FidoAsk::OpenPath { path: node@, device: 0 })
                } else {
                    match log[1] {
                        FidoAnswer::Opened(None) => FidoStage::Fail("fido_dev_new failed"@, 2),
                        FidoAnswer::Opened(Some(ret)) => if ret != FIDO_OK {
                            FidoStage::Fail(
                                "fido_dev_open("@ + path + ") failed: "@ + dec(ret as int),
                                2,
                            )
                        } else {
                            FidoStage::Done((), 2)
                        },
                        _ => FidoStage::Fail(unexpected(), 2),
                    }
                },
                None => FidoStage::Fail("Invalid FIDO2 device path: "@ + path, 1),
            },
            _ => FidoStage::Fail(unexpected(), 1),
        }
    }
}

fn open_for_enroll(path: &str, log: &Vec<FidoAnswer>) -> (r: FidoStep<()>)
    ensures
        r@ == open_for_enroll_stage(path@, log@),
{
    if log.len() == 0 {
        return FidoStep::Ask(FidoRequest::Canonical { path: path.to_string() });
    }
    let node = match &log[0] {
        FidoAnswer::Canonical(Some(node)) => node,
        FidoAnswer::Canonical(None) => {
            return FidoStep::Fail(Error(concat("Invalid FIDO2 device path: ", path)), 1);
        },
        _ => {
            return FidoStep::Fail(unexpected_error(), 1);
        },
    };
    if !is_hidraw_path(node.as_str()) {
        return FidoStep::Fail(Error(concat("Invalid FIDO2 device path: ", path)), 1);
    }
    if log.len() == 1 {
        return FidoStep::Ask(FidoRequest::OpenPath { path: node.clone(), device: 0 });
    }
    match &log[1] {
        FidoAnswer::Opened(None) => FidoStep::Fail(Error::new("fido_dev_new failed"), 2),
        FidoAnswer::Opened(Some(ret)) => {
            if *ret != FIDO_OK {
                let code = dec_i64(*ret as i64);
                let what = concat3("fido_dev_open(", path, ") failed: ");
                return FidoStep::Fail(Error(concat(what.as_str(), code.as_str())), 2);
            }
            FidoStep::Done((), 2)
        },
        _ => FidoStep::Fail(unexpected_error(), 2),
    }
}

/// Making a credential.
pub open spec fn credential_stage(
    user_id: Seq<u8>,
    pin: Option<Seq<char>>,
    log: Seq<FidoAnswer>,
    at: int,
) -> FidoStage<Seq<u8>> {
    match pin_bytes(pin) {
        Err(e) => FidoStage::Fail(e, at),
        Ok(bytes) => if at >= log.len() {
            FidoStage::Ask(FidoAsk::MakeCredential { device: 0, user_id, pin: bytes })
        } else {
            match log[at] {
                FidoAnswer::Made(None) => FidoStage::Fail("fido_cred_new failed"@, at + 1),
                FidoAnswer::Made(Some((ret, cred))) => if ret == FIDO_ERR_PIN_REQUIRED && bytes is None {
                    FidoStage::Fail("FIDO2 device requires a PIN"@, at + 1)
                } else if ret != FIDO_OK {
                    FidoStage::Fail("fido_dev_make_cred failed: "@ + dec(ret as int), at + 1)
                } else {
                    match cred {
                        Some(id) => if id@.len() > 0 {
                            FidoStage::Done(id@, at + 1)
                        } else {
                            FidoStage::Fail("Credential ID is empty"@, at + 1)
                        },
                        None => FidoStage::Fail("Credential ID is empty"@, at + 1),
                    }
                },
                _ => FidoStage::Fail(unexpected(), at + 1),
            }
        },
    }
}

fn make_credential(user_id: &Vec<u8>, pin: Option<&str>, log: &Vec<FidoAnswer>, at: usize) -> (r:
    FidoStep<Vec<u8>>)
    ensures
        r@ == credential_stage(user_id@, pin_view(pin), log@, at as int),
{
    let bytes = match pin_cstring(pin) {
        Ok(b) => b,
        Err(e) => {
            return FidoStep::Fail(e, at);
        },
    };
    if at >= log.len() {
        return FidoStep::Ask(
            FidoRequest::MakeCredential {
                device: 0,
                user_id: copy_bytes(user_id.as_slice()),
                pin: bytes,
            },
        );
    }
    match &log[at] {
        FidoAnswer::Made(None) => FidoStep::Fail(Error::new("fido_cred_new failed"), at + 1),
        FidoAnswer::Made(Some(reply)) => {
            if reply.0 == FIDO_ERR_PIN_REQUIRED && bytes.is_none() {
                return FidoStep::Fail(Error::new("FIDO2 device requires a PIN"), at + 1);
            }
            if reply.0 != FIDO_OK {
                let code = dec_i64(reply.0 as i64);
                return FidoStep::Fail(
                    Error(concat("fido_dev_make_cred failed: ", code.as_str())),
                    at + 1,
                );
            }
            match &reply.1 {
                Some(id) => {
                    if id.len() > 0 {
                        FidoStep::Done(copy_bytes(id.as_slice()), at + 1)
                    } else {
                        FidoStep::Fail(Error::new("Credential ID is empty"), at + 1)
                    }
                },
                None => FidoStep::Fail(Error::new("Credential ID is empty"), at + 1),
            }
        },
        _ => FidoStep::Fail(unexpected_error(), at + 1),
    }
}

/// Enrolling the device at `path`: a credential, and the secret for a salt.
pub open spec fn enroll_stage(
    path: Seq<char>,
    pin: Option<Seq<char>>,
    user_id: Seq<u8>,
    salt: Seq<u8>,
    log: Seq<FidoAnswer>,
) -> FidoStage<Enrolled> {
    match open_for_enroll_stage(path, log) {
        FidoStage::Ask(a) => FidoStage::Ask(a),
        FidoStage::Fail(e, n) => FidoStage::Fail(e, n),
        FidoStage::Done(_, n) => match credential_stage(user_id, pin, log, n) {
            FidoStage::Ask(a) => FidoStage::Ask(a),
            FidoStage::Fail(e, m) => FidoStage::Fail(e, m),
            FidoStage::Done(cred_id, m) => match hmac_stage(0, cred_id, salt, pin, log, m) {
                FidoStage::Ask(a) => FidoStage::Ask(a),
                FidoStage::Fail(e, k) => FidoStage::Fail(e, k),
                FidoStage::Done(hmac_secret, k) => FidoStage::Done(
                    Enrolled { cred_id, salt, hmac_secret },
                    k,
                ),
            },
        },
    }
}

/// Makes a credential on the device at `fido2_device`, which must be a hidraw
/// node, and derives the secret for `salt`. `user_id` and `salt` are made by
/// [`new_nonce`].
pub fn enroll(
    fido2_device: &str,
    pin: Option<&str>,
    user_id: &Vec<u8>,
    salt: &Vec<u8>,
    log: &Vec<FidoAnswer>,
) -> (r: FidoStep<Fido2Enrollment>)
    ensures
        r@ == enroll_stage(fido2_device@, pin_view(pin), user_id@, salt@, log@),
{
    let n = match open_for_enroll(fido2_device, log) {
        FidoStep::Ask(r) => {
            return FidoStep::Ask(r);
        },
        FidoStep::Fail(e, n) => {
            return FidoStep::Fail(e, n);
        },
        FidoStep::Done(_, n) => n,
    };
    let (cred_id, m) = match make_credential(user_id, pin, log, n) {
        FidoStep::Ask(r) => {
            return FidoStep::Ask(r);
        },
        FidoStep::Fail(e, m) => {
            return FidoStep::Fail(e, m);
        },
        FidoStep::Done(cred_id, m) => (cred_id, m),
    };
    match get_hmac_secret(0, &cred_id, salt, pin, log, m) {
        FidoStep::Ask(r) => FidoStep::Ask(r),
        FidoStep::Fail(e, k) => FidoStep::Fail(e, k),
        FidoStep::Done(secret, k) => FidoStep::Done(
            Fido2Enrollment {
                cred_id,
                salt: copy_bytes(salt.as_slice()),
                hmac_secret: copy_bytes(secret.as_bytes()),
            },
            k,
        ),
    }
}

// ---------------------------------------------------------------------------
// Probing
// ---------------------------------------------------------------------------

/// What a silent assertion for a credential says.
pub open spec fn probe_stage(
    device: usize,
    cred_id: Seq<u8>,
    log: Seq<FidoAnswer>,
    at: int,
) -> FidoStage<Option<bool>> {
    if at >= log.len() {
        FidoStage::Ask(FidoAsk::Probe { device, cred_id })
    } else {
        match log[at] {
            FidoAnswer::Probed(Some(ret)) => FidoStage::Done(probe_verdict(ret), at + 1),
            FidoAnswer::Probed(None) => FidoStage::Done(None, at + 1),
            _ => FidoStage::Fail(unexpected(), at + 1),
        }
    }
}

fn probe_credential(device: usize, cred_id: &Vec<u8>, log: &Vec<FidoAnswer>, at: usize) -> (r:
    FidoStep<Option<bool>>)
    ensures
        r@ == probe_stage(device, cred_id@, log@, at as int),
{
    if at >= log.len() {
        return FidoStep::Ask(
            FidoRequest::Probe { device, cred_id: copy_bytes(cred_id.as_slice()) },
        );
    }
    match &log[at] {
        FidoAnswer::Probed(Some(ret)) => FidoStep::Done(classify_probe_ret(*ret), at + 1),
        FidoAnswer::Probed(None) => FidoStep::Done(None, at + 1),
        _ => FidoStep::Fail(unexpected_error(), at + 1),
    }
}

/// Whether a device holds one of the credentials for certain: they are probed one
/// by one, until one is found.
pub open spec fn holds_any_stage(
    device: usize,
    creds: Seq<Seq<u8>>,
    log: Seq<FidoAnswer>,
    at: int,
) -> FidoStage<bool>
    decreases creds.len(),
{
    if creds.len() == 0 {
        FidoStage::Done(false, at)
    } else {
        match probe_stage(device, creds[0], log, at) {
            FidoStage::Ask(a) => FidoStage::Ask(a),
            FidoStage::Fail(e, n) => FidoStage::Fail(e, n),
            FidoStage::Done(verdict, n) => if verdict == Some(true) {
                FidoStage::Done(true, n)
            } else {
                holds_any_stage(device, creds.skip(1), log, n)
            },
        }
    }
}

fn holds_any(device: usize, creds: &Vec<Vec<u8>>, log: &Vec<FidoAnswer>, from: usize) -> (r:
    FidoStep<bool>)
    ensures
        r@ == holds_any_stage(device, views(creds@), log@, from as int),
{
    let ghost t = views(creds@);
    let mut at: usize = from;
    assert(t.skip(0) =~= t);
    for i in 0..creds.len()
        invariant
            t == views(creds@),
            holds_any_stage(device, t, log@, from as int) == holds_any_stage(
                device,
                t.skip(i as int),
                log@,
                at as int,
            ),
    {
        assert(t.skip(i as int)[0] == t[i as int]);
        assert(t.skip(i as int).skip(1) =~= t.skip(i + 1));
        match probe_credential(device, &creds[i], log, at) {
            FidoStep::Ask(r) => {
                return FidoStep::Ask(r);
            },
            FidoStep::Fail(e, n) => {
                return FidoStep::Fail(e, n);
            },
            FidoStep::Done(verdict, n) => {
                match verdict {
                    Some(true) => {
                        return FidoStep::Done(true, n);
                    },
                    _ => {},
                }
                at = n;
            },
        }
    }
    FidoStep::Done(false, at)
}

/// The devices at `paths`, from the one with the number `first` on, that hold one
/// of the credentials, behind those in `found`. A device that cannot be opened is
/// passed over.
pub open spec fn enrolled_stage(
    paths: Seq<Seq<char>>,
    first: int,
    creds: Seq<Seq<u8>>,
    found: Seq<Seq<char>>,
    log: Seq<FidoAnswer>,
    at: int,
) -> FidoStage<Seq<Seq<char>>>
    decreases paths.len() - first,
{
    if first < 0 || first >= paths.len() {
        FidoStage::Done(found, at)
    } else if at >= log.len() {
        FidoStage::Ask(FidoAsk::OpenPath { path: paths[first], device: first as usize })
    } else {
        match log[at] {
            FidoAnswer::Opened(status) => if status == Some(FIDO_OK) {
                match holds_any_stage(first as usize, creds, log, at + 1) {
                    FidoStage::Ask(a) => FidoStage::Ask(a),
                    FidoStage::Fail(e, n) => FidoStage::Fail(e, n),
                    FidoStage::Done(held, n) => enrolled_stage(
                        paths,
                        first + 1,
                        creds,
                        if held {
                            found.push(paths[first])
                        } else {
                            found
                        },
                        log,
                        n,
                    ),
                }
            } else {
                enrolled_stage(paths, first + 1, creds, found, log, at + 1)
            },
            _ => FidoStage::Fail(unexpected(), at + 1),
        }
    }
}

/// Which of the devices hold one of the credentials: none, and nothing is asked,
/// where either list is empty.
pub open spec fn enrolled_paths_stage(
    paths: Seq<Seq<char>>,
    creds: Seq<Seq<u8>>,
    log: Seq<FidoAnswer>,
) -> FidoStage<Seq<Seq<char>>> {
    if paths.len() == 0 || creds.len() == 0 {
        FidoStage::Done(seq![], 0)
    } else {
        enrolled_stage(paths, 0, creds, seq![], log, 0)
    }
}

/// A list of paths.
pub struct PathList(pub Vec<String>);

impl View for PathList {
    type V = Seq<Seq<char>>;

    open spec fn view(&self) -> Seq<Seq<char>> {
        texts(self.0@)
    }
}

/// Of the devices at `dev_paths`, those that hold one of the credentials
/// `cred_ids` for certain, as they were given.
pub fn enrolled_paths(dev_paths: &Vec<String>, cred_ids: &Vec<Vec<u8>>, log: &Vec<FidoAnswer>) -> (r:
    FidoStep<PathList>)
    ensures
        r@ == enrolled_paths_stage(texts(dev_paths@), views(cred_ids@), log@),
{
    let ghost t = texts(dev_paths@);
    let ghost c = views(cred_ids@);
    assert(t.len() == dev_paths@.len() && c.len() == cred_ids@.len());
    let mut found: Vec<String> = Vec::new();
    assert(texts(found@) =~= seq![]);
    if dev_paths.len() == 0 || cred_ids.len() == 0 {
        return FidoStep::Done(PathList(found), 0);
    }
    let mut at: usize = 0;
    let mut i: usize = 0;
    while i < dev_paths.len()
        invariant
            t == texts(dev_paths@),
            c == views(cred_ids@),
            i <= dev_paths@.len(),
            enrolled_paths_stage(t, c, log@) == enrolled_stage(
                t,
                i as int,
                c,
                texts(found@),
                log@,
                at as int,
            ),
        decreases dev_paths@.len() - i,
    {
        if at >= log.len() {
            return FidoStep::Ask(
                FidoRequest::OpenPath { path: dev_paths[i].clone(), device: i },
            );
        }
        match &log[at] {
            FidoAnswer::Opened(Some(FIDO_OK)) => {
                match holds_any(i, cred_ids, log, at + 1) {
                    FidoStep::Ask(r) => {
                        return FidoStep::Ask(r);
                    },
                    FidoStep::Fail(e, n) => {
                        return FidoStep::Fail(e, n);
                    },
                    FidoStep::Done(held, n) => {
                        if held {
                            let ghost before = found@;
                            found.push(dev_paths[i].clone());
                            assert(texts(found@) =~= texts(before).push(t[i as int]));
                        }
                        at = n;
                    },
                }
            },
            FidoAnswer::Opened(_) => {
                at = at + 1;
            },
            _ => {
                return FidoStep::Fail(unexpected_error(), at + 1);
            },
        }
        i = i + 1;
    }
    FidoStep::Done(PathList(found), at)
}

// ---------------------------------------------------------------------------
// Picking a device by touch
// ---------------------------------------------------------------------------

/// What to do next while the user picks a device; each by its place among those
/// that are offered.
#[derive(Clone, Copy, PartialEq, Eq, Structural)]
pub enum TouchStep {
    /// Make the device blink; the answer does not matter.
    Begin(usize),
    /// Has the device been touched? Wait [`TOUCH_POLL`] at most.
    Poll(usize),
    /// Make the device stop blinking; the answer does not matter.
    Cancel(usize),
    /// The device that was touched.
    Done(usize),
}

/// The first poll, counting from `k`, that was answered by a touch; the number of
/// answers, if none was. The polls come after the answers of the `n` devices that
/// were made to blink.
pub open spec fn first_touch(n: int, log: Seq<bool>, k: int) -> int
    decreases log.len() - n - k,
{
    if k < 0 || n < 0 || n + k >= log.len() || log[n + k] {
        k
    } else {
        first_touch(n, log, k + 1)
    }
}

/// Picking one of `n` devices: all are made to blink; then they are polled in turn
/// until one is touched; then all others are made to stop.
pub open spec fn touch_step(n: int, log: Seq<bool>) -> TouchStep {
    let made = log.len();
    if made < n {
        TouchStep::Begin(made as usize)
    } else {
        let k = first_touch(n, log, 0);
        let pos = k % n;
        if n + k >= made {
            TouchStep::Poll(pos as usize)
        } else {
            let stopped = made - (n + k + 1);
            if stopped >= n - 1 {
                TouchStep::Done(pos as usize)
            } else if stopped < pos {
                TouchStep::Cancel(stopped as usize)
            } else {
                TouchStep::Cancel((stopped + 1) as usize)
            }
        }
    }
}

/// Lets the user pick one of `count` devices by a touch. The answers so far are in
/// `log`.
pub fn touch_select(count: usize, log: &Vec<bool>) -> (r: TouchStep)
    requires
        count > 0,
    ensures
        r == touch_step(count as int, log@),
{
    let made: usize = log.len();
    if made < count {
        return TouchStep::Begin(made);
    }
    let mut k: usize = 0;
    while count + k < made && !log[count + k]
        invariant
            count > 0,
            made == log@.len(),
            count + k <= made,
            first_touch(count as int, log@, 0) == first_touch(count as int, log@, k as int),
        decreases made - k,
    {
        k = k + 1;
    }
    let pos: usize = k % count;
    if count + k >= made {
        return TouchStep::Poll(pos);
    }
    let stopped: usize = made - (count + k + 1);
    if stopped >= count - 1 {
        TouchStep::Done(pos)
    } else if stopped < pos {
        TouchStep::Cancel(stopped)
    } else {
        TouchStep::Cancel(stopped + 1)
    }
}

/// The device that is picked is one of those that were offered, and it was touched:
/// its last poll was answered by a touch, and no poll before that was.
pub proof fn law_touch_picks_the_touched(n: int, log: Seq<bool>, pos: usize)
    requires
        0 < n <= usize::MAX,
        touch_step(n, log) == TouchStep::Done(pos),
    ensures
        pos < n,
        exists|p: int|
            n <= p < log.len() && pos == (p - n) % n && #[trigger] log[p] && forall|i: int|
                n <= i < p ==> !#[trigger] log[i],
{
    lemma_first_touch(n, log, 0);
    let p = n + first_touch(n, log, 0);
    assert(log[p]);
}

proof fn lemma_first_touch(n: int, log: Seq<bool>, k: int)
    requires
        n > 0,
        0 <= k,
    ensures
        k <= first_touch(n, log, k),
        n + first_touch(n, log, k) < log.len() ==> log[n + first_touch(n, log, k)],
        forall|i: int| n + k <= i < n + first_touch(n, log, k) ==> !#[trigger] log[i],
    decreases log.len() - n - k,
{
    if !(n + k >= log.len() || log[n + k]) {
        lemma_first_touch(n, log, k + 1);
    }
}

// ---------------------------------------------------------------------------
// Unlocking
// ---------------------------------------------------------------------------

/// The places in the list of devices that have a path.
pub open spec fn places(present: Seq<bool>) -> Seq<usize>
    decreases present.len(),
{
    if present.len() == 0 {
        seq![]
    } else if present.last() {
        places(present.drop_last()).push((present.len() - 1) as usize)
    } else {
        places(present.drop_last())
    }
}

fn places_of(present: &Vec<bool>) -> (r: Vec<usize>)
    ensures
        r@ == places(present@),
{
    let mut r: Vec<usize> = Vec::new();
    assert(r@ =~= places(present@.take(0)));
    for i in 0..present.len()
        invariant
            r@ == places(present@.take(i as int)),
    {
        assert(present@.take(i + 1).drop_last() =~= present@.take(i as int));
        if present[i] {
            r.push(i);
        }
    }
    assert(present@.take(present@.len() as int) =~= present@);
    r
}

/// Listing the devices.
pub open spec fn list_stage(log: Seq<FidoAnswer>, at: int) -> FidoStage<Seq<usize>> {
    if at >= log.len() {
        FidoStage::Ask(FidoAsk::List)
    } else {
        match log[at] {
            FidoAnswer::Listed(None) => FidoStage::Fail("fido_dev_info_new failed"@, at + 1),
            FidoAnswer::Listed(Some((ret, present))) => if ret != FIDO_OK || places(
                present@,
            ).len() == 0 {
                FidoStage::Fail("No FIDO2 device found"@, at + 1)
            } else {
                FidoStage::Done(places(present@), at + 1)
            },
            _ => FidoStage::Fail(unexpected(), at + 1),
        }
    }
}

fn list_devices(log: &Vec<FidoAnswer>, at: usize) -> (r: FidoStep<Vec<usize>>)
    ensures
        r@ == list_stage(log@, at as int),
{
    if at >= log.len() {
        return FidoStep::Ask(FidoRequest::List);
    }
    match &log[at] {
        FidoAnswer::Listed(None) => FidoStep::Fail(Error::new("fido_dev_info_new failed"), at + 1),
        FidoAnswer::Listed(Some(reply)) => {
            let found = places_of(&reply.1);
            if reply.0 != FIDO_OK || found.len() == 0 {
                return FidoStep::Fail(Error::new("No FIDO2 device found"), at + 1);
            }
            FidoStep::Done(found, at + 1)
        },
        _ => FidoStep::Fail(unexpected_error(), at + 1),
    }
}

/// Opening the devices: those that open are behind those in `opened`.
pub open spec fn open_stage(
    listed: Seq<usize>,
    opened: Seq<usize>,
    log: Seq<FidoAnswer>,
    at: int,
) -> FidoStage<Seq<usize>>
    decreases listed.len(),
{
    if listed.len() == 0 {
        if opened.len() == 0 {
            FidoStage::Fail("No FIDO2 device could be opened"@, at)
        } else {
            FidoStage::Done(opened, at)
        }
    } else if at >= log.len() {
        FidoStage::Ask(FidoAsk::OpenListed { device: listed[0] })
    } else {
        match log[at] {
            FidoAnswer::Opened(status) => open_stage(
                listed.skip(1),
                if status == Some(FIDO_OK) {
                    opened.push(listed[0])
                } else {
                    opened
                },
                log,
                at + 1,
            ),
            _ => FidoStage::Fail(unexpected(), at + 1),
        }
    }
}

fn open_devices(listed: &Vec<usize>, log: &Vec<FidoAnswer>, from: usize) -> (r: FidoStep<Vec<usize>>)
    ensures
        r@ == open_stage(listed@, seq![], log@, from as int),
{
    let mut opened: Vec<usize> = Vec::new();
    let mut at: usize = from;
    assert(listed@.skip(0) =~= listed@);
    assert(opened@ =~= seq![]);
    for i in 0..listed.len()
        invariant
            open_stage(listed@, seq![], log@, from as int) == open_stage(
                listed@.skip(i as int),
                opened@,
                log@,
                at as int,
            ),
    {
        assert(listed@.skip(i as int)[0] == listed@[i as int]);
        assert(listed@.skip(i as int).skip(1) =~= listed@.skip(i + 1));
        if at >= log.len() {
            return FidoStep::Ask(FidoRequest::OpenListed { device: listed[i] });
        }
        match &log[at] {
            FidoAnswer::Opened(Some(FIDO_OK)) => {
                opened.push(listed[i]);
            },
            FidoAnswer::Opened(_) => {},
            _ => {
                return FidoStep::Fail(unexpected_error(), at + 1);
            },
        }
        at = at + 1;
    }
    if opened.len() == 0 {
        return FidoStep::Fail(Error::new("No FIDO2 device could be opened"), at);
    }
    FidoStep::Done(opened, at)
}

/// The tokens, from the one with the number `first` on, whose credential the
/// device may hold, behind those in `kept`: all but those that it does not hold
/// for certain.
pub open spec fn matching_stage(
    device: usize,
    tokens: Seq<Fido2Ref>,
    first: int,
    kept: Seq<usize>,
    log: Seq<FidoAnswer>,
    at: int,
) -> FidoStage<Seq<usize>>
    decreases tokens.len() - first,
{
    if first < 0 || first >= tokens.len() {
        FidoStage::Done(kept, at)
    } else {
        match probe_stage(device, tokens[first].cred_id, log, at) {
            FidoStage::Ask(a) => FidoStage::Ask(a),
            FidoStage::Fail(e, n) => FidoStage::Fail(e, n),
            FidoStage::Done(verdict, n) => matching_stage(
                device,
                tokens,
                first + 1,
                if verdict == Some(false) {
                    kept
                } else {
                    kept.push(first as usize)
                },
                log,
                n,
            ),
        }
    }
}

fn matching_tokens(
    device: usize,
    tokens: &Vec<Fido2TokenRef>,
    log: &Vec<FidoAnswer>,
    from: usize,
) -> (r: FidoStep<Vec<usize>>)
    ensures
        r@ == matching_stage(device, views(tokens@), 0, seq![], log@, from as int),
{
    let ghost t = views(tokens@);
    let mut kept: Vec<usize> = Vec::new();
    let mut at: usize = from;
    assert(kept@ =~= seq![]);
    for i in 0..tokens.len()
        invariant
            t == views(tokens@),
            matching_stage(device, t, 0, seq![], log@, from as int) == matching_stage(
                device,
                t,
                i as int,
                kept@,
                log@,
                at as int,
            ),
    {
        match probe_credential(device, &tokens[i].cred_id, log, at) {
            FidoStep::Ask(r) => {
                return FidoStep::Ask(r);
            },
            FidoStep::Fail(e, n) => {
                return FidoStep::Fail(e, n);
            },
            FidoStep::Done(verdict, n) => {
                match verdict {
                    Some(false) => {},
                    _ => {
                        kept.push(i);
                    },
                }
                at = n;
            },
        }
    }
    FidoStep::Done(kept, at)
}

/// A device with the tokens whose credentials it may hold.
pub type Match = (usize, Seq<usize>);

/// The devices with the tokens that they may hold, behind those in `found`; a
/// device that holds none is left out.
pub open spec fn matches_stage(
    devices: Seq<usize>,
    tokens: Seq<Fido2Ref>,
    found: Seq<Match>,
    log: Seq<FidoAnswer>,
    at: int,
) -> FidoStage<Seq<Match>>
    decreases devices.len(),
{
    if devices.len() == 0 {
        if found.len() == 0 {
            FidoStage::Fail("No matching FIDO2 device/credential found"@, at)
        } else {
            FidoStage::Done(found, at)
        }
    } else {
        match matching_stage(devices[0], tokens, 0, seq![], log, at) {
            FidoStage::Ask(a) => FidoStage::Ask(a),
            FidoStage::Fail(e, n) => FidoStage::Fail(e, n),
            FidoStage::Done(kept, n) => matches_stage(
                devices.skip(1),
                tokens,
                if kept.len() == 0 {
                    found
                } else {
                    found.push((devices[0], kept))
                },
                log,
                n,
            ),
        }
    }
}

/// Devices, each with the tokens whose credentials it may hold.
pub struct Matches(Vec<(usize, Vec<usize>)>);

impl View for Matches {
    type V = Seq<Match>;

    closed spec fn view(&self) -> Seq<Match> {
        views(self.0@)
    }
}

fn match_devices(
    devices: &Vec<usize>,
    tokens: &Vec<Fido2TokenRef>,
    log: &Vec<FidoAnswer>,
    from: usize,
) -> (r: FidoStep<Matches>)
    ensures
        r@ == matches_stage(devices@, views(tokens@), seq![], log@, from as int),
{
    let ghost t = views(tokens@);
    let mut found: Vec<(usize, Vec<usize>)> = Vec::new();
    let mut at: usize = from;
    assert(devices@.skip(0) =~= devices@);
    assert(views(found@) =~= seq![]);
    for i in 0..devices.len()
        invariant
            t == views(tokens@),
            matches_stage(devices@, t, seq![], log@, from as int) == matches_stage(
                devices@.skip(i as int),
                t,
                views(found@),
                log@,
                at as int,
            ),
    {
        assert(devices@.skip(i as int)[0] == devices@[i as int]);
        assert(devices@.skip(i as int).skip(1) =~= devices@.skip(i + 1));
        match matching_tokens(devices[i], tokens, log, at) {
            FidoStep::Ask(r) => {
                return FidoStep::Ask(r);
            },
            FidoStep::Fail(e, n) => {
                return FidoStep::Fail(e, n);
            },
            FidoStep::Done(kept, n) => {
                if kept.len() > 0 {
                    let ghost before = found@;
                    let ghost entry = (devices@[i as int], kept@);
                    found.push((devices[i], kept));
                    assert(views(found@) =~= views(before).push(entry));
                }
                at = n;
            },
        }
    }
    assert(views(found@).len() == found@.len());
    if found.len() == 0 {
        return FidoStep::Fail(Error::new("No matching FIDO2 device/credential found"), at);
    }
    FidoStep::Done(Matches(found), at)
}

/// The devices of `m`.
pub open spec fn match_devices_of(m: Seq<Match>) -> Seq<usize> {
    Seq::new(m.len(), |i: int| m[i].0)
}

/// Selecting one of the devices: the only one, or the one that the user touches.
pub open spec fn select_stage(m: Seq<Match>, log: Seq<FidoAnswer>, at: int) -> FidoStage<Match> {
    if m.len() == 1 {
        FidoStage::Done(m[0], at)
    } else if at >= log.len() {
        FidoStage::Ask(FidoAsk::TouchSelect { devices: match_devices_of(m) })
    } else {
        match log[at] {
            FidoAnswer::Touched(pos) => if pos < m.len() {
                FidoStage::Done(m[pos as int], at + 1)
            } else {
                FidoStage::Fail(unexpected(), at + 1)
            },
            _ => FidoStage::Fail(unexpected(), at + 1),
        }
    }
}

fn select_device(m: &Matches, log: &Vec<FidoAnswer>, at: usize) -> (r: FidoStep<
    (usize, Vec<usize>),
>)
    ensures
        r@ == select_stage(m@, log@, at as int),
{
    let list = &m.0;
    assert(m@.len() == list@.len());
    let pos: usize = if list.len() == 1 {
        0
    } else {
        if at >= log.len() {
            let mut devices: Vec<usize> = Vec::new();
            for i in 0..list.len()
                invariant
                    devices@.len() == i,
                    forall|k: int| 0 <= k < i ==> #[trigger] devices@[k] == list@[k].0,
            {
                devices.push(list[i].0);
            }
            assert(devices@ =~= match_devices_of(m@));
            return FidoStep::Ask(FidoRequest::TouchSelect { devices });
        }
        match &log[at] {
            FidoAnswer::Touched(pos) => {
                if *pos >= list.len() {
                    return FidoStep::Fail(unexpected_error(), at + 1);
                }
                *pos
            },
            _ => {
                return FidoStep::Fail(unexpected_error(), at + 1);
            },
        }
    };
    let tokens = list[pos].1.clone();
    assert(tokens@ =~= list@[pos as int].1@);
    assert(m@[pos as int] == (list@[pos as int].0, tokens@));
    FidoStep::Done((list[pos].0, tokens), if list.len() == 1 { at } else { at + 1 })
}

/// Asking the selected device for the secret of one of its tokens; `last` is the
/// failure so far.
pub open spec fn secrets_stage(
    device: usize,
    tokens: Seq<Fido2Ref>,
    numbers: Seq<usize>,
    pin: Option<Seq<char>>,
    last: Seq<char>,
    log: Seq<FidoAnswer>,
    at: int,
) -> FidoStage<Seq<u8>>
    decreases numbers.len(),
{
    if numbers.len() == 0 {
        FidoStage::Fail("FIDO2 unlock failed on selected device: "@ + last, at)
    } else if numbers[0] >= tokens.len() {
        FidoStage::Fail(unexpected(), at)
    } else {
        let token = tokens[numbers[0] as int];
        match hmac_stage(device, token.cred_id, token.salt, pin, log, at) {
            FidoStage::Ask(a) => FidoStage::Ask(a),
            FidoStage::Done(secret, n) => FidoStage::Done(secret, n),
            FidoStage::Fail(e, n) => secrets_stage(
                device,
                tokens,
                numbers.skip(1),
                pin,
                e,
                log,
                n,
            ),
        }
    }
}

fn first_secret(
    device: usize,
    tokens: &Vec<Fido2TokenRef>,
    numbers: &Vec<usize>,
    pin: Option<&str>,
    log: &Vec<FidoAnswer>,
    from: usize,
) -> (r: FidoStep<Secret>)
    ensures
        r@ == secrets_stage(
            device,
            views(tokens@),
            numbers@,
            pin_view(pin),
            "unknown error"@,
            log@,
            from as int,
        ),
{
    let ghost t = views(tokens@);
    let mut last = Error::new("unknown error");
    let mut at: usize = from;
    assert(numbers@.skip(0) =~= numbers@);
    for i in 0..numbers.len()
        invariant
            t == views(tokens@),
            secrets_stage(
                device,
                t,
                numbers@,
                pin_view(pin),
                "unknown error"@,
                log@,
                from as int,
            ) == secrets_stage(
                device,
                t,
                numbers@.skip(i as int),
                pin_view(pin),
                last@,
                log@,
                at as int,
            ),
    {
        assert(numbers@.skip(i as int)[0] == numbers@[i as int]);
        assert(numbers@.skip(i as int).skip(1) =~= numbers@.skip(i + 1));
        let k: usize = numbers[i];
        if k >= tokens.len() {
            return FidoStep::Fail(unexpected_error(), at);
        }
        match get_hmac_secret(device, &tokens[k].cred_id, &tokens[k].salt, pin, log, at) {
            FidoStep::Ask(r) => {
                return FidoStep::Ask(r);
            },
            FidoStep::Done(secret, n) => {
                return FidoStep::Done(secret, n);
            },
            FidoStep::Fail(e, n) => {
                last = e;
                at = n;
            },
        }
    }
    FidoStep::Fail(
        Error(concat("FIDO2 unlock failed on selected device: ", last.0.as_str())),
        at,
    )
}

/// How long the selected device may take, in milliseconds.
pub const UNLOCK_TIMEOUT: i32 = 30000;

/// Deriving the secret of one of the tokens: the devices are listed and opened; it
/// is found out silently which of them may hold which credential; one is
/// selected; and only that one is asked for a secret.
pub open spec fn unlock_stage(tokens: Seq<Fido2Ref>, pin: Seq<char>, log: Seq<FidoAnswer>) -> FidoStage<
    Seq<u8>,
> {
    if tokens.len() == 0 {
        FidoStage::Fail("No systemd-fido2 token found"@, 0)
    } else {
        match list_stage(log, 0) {
            FidoStage::Ask(a) => FidoStage::Ask(a),
            FidoStage::Fail(e, n) => FidoStage::Fail(e, n),
            FidoStage::Done(listed, n1) => match open_stage(listed, seq![], log, n1) {
                FidoStage::Ask(a) => FidoStage::Ask(a),
                FidoStage::Fail(e, n) => FidoStage::Fail(e, n),
                FidoStage::Done(opened, n2) => match matches_stage(
                    opened,
                    tokens,
                    seq![],
                    log,
                    n2,
                ) {
                    FidoStage::Ask(a) => FidoStage::Ask(a),
                    FidoStage::Fail(e, n) => FidoStage::Fail(e, n),
                    FidoStage::Done(found, n3) => match select_stage(found, log, n3) {
                        FidoStage::Ask(a) => FidoStage::Ask(a),
                        FidoStage::Fail(e, n) => FidoStage::Fail(e, n),
                        FidoStage::Done((device, numbers), n4) => if n4 >= log.len() {
                            FidoStage::Ask(
                                FidoAsk::SetTimeout { device, milliseconds: UNLOCK_TIMEOUT },
                            )
                        } else {
                            secrets_stage(
                                device,
                                tokens,
                                numbers,
                                if pin.len() == 0 {
                                    None
                                } else {
                                    Some(pin)
                                },
                                "unknown error"@,
                                log,
                                n4 + 1,
                            )
                        },
                    },
                },
            },
        }
    }
}

/// Derives the secret of one of the tokens from a connected FIDO2 device. The
/// PIN goes to the selected device only, so that no other device counts a wrong
/// try.
pub fn unlock_from_tokens(tokens: &Vec<Fido2TokenRef>, pin: &str, log: &Vec<FidoAnswer>) -> (r:
    FidoStep<Secret>)
    ensures
        r@ == unlock_stage(views(tokens@), pin@, log@),
{
    assert(tokens@.len() == views(tokens@).len());
    if tokens.len() == 0 {
        return FidoStep::Fail(Error::new("No systemd-fido2 token found"), 0);
    }
    let (listed, n1) = match list_devices(log, 0) {
        FidoStep::Ask(r) => {
            return FidoStep::Ask(r);
        },
        FidoStep::Fail(e, n) => {
            return FidoStep::Fail(e, n);
        },
        FidoStep::Done(listed, n) => (listed, n),
    };
    let (opened, n2) = match open_devices(&listed, log, n1) {
        FidoStep::Ask(r) => {
            return FidoStep::Ask(r);
        },
        FidoStep::Fail(e, n) => {
            return FidoStep::Fail(e, n);
        },
        FidoStep::Done(opened, n) => (opened, n),
    };
    let (found, n3) = match match_devices(&opened, tokens, log, n2) {
        FidoStep::Ask(r) => {
            return FidoStep::Ask(r);
        },
        FidoStep::Fail(e, n) => {
            return FidoStep::Fail(e, n);
        },
        FidoStep::Done(found, n) => (found, n),
    };
    let (device, numbers, n4) = match select_device(&found, log, n3) {
        FidoStep::Ask(r) => {
            return FidoStep::Ask(r);
        },
        FidoStep::Fail(e, n) => {
            return FidoStep::Fail(e, n);
        },
        FidoStep::Done((device, numbers), n) => (device, numbers, n),
    };
    if n4 >= log.len() {
        return FidoStep::Ask(
            FidoRequest::SetTimeout { device, milliseconds: UNLOCK_TIMEOUT },
        );
    }
    let pin = if pin.is_empty() {
        None
    } else {
        Some(pin)
    };
    first_secret(device, tokens, &numbers, pin, log, n4 + 1)
}

// ---------------------------------------------------------------------------
// Laws
// ---------------------------------------------------------------------------

/// Whether a request may carry a PIN.
pub open spec fn carries_pin(ask: FidoAsk) -> bool {
    ask is HmacSecret || ask is MakeCredential
}

proof fn lemma_open_asks(listed: Seq<usize>, opened: Seq<usize>, log: Seq<FidoAnswer>, at: int)
    ensures
        open_stage(listed, opened, log, at) matches FidoStage::Ask(a) ==> !carries_pin(a),
    decreases listed.len(),
{
    if listed.len() > 0 && at < log.len() {
        match log[at] {
            FidoAnswer::Opened(status) => {
                lemma_open_asks(
                    listed.skip(1),
                    if status == Some(FIDO_OK) {
                        opened.push(listed[0])
                    } else {
                        opened
                    },
                    log,
                    at + 1,
                );
            },
            _ => {},
        }
    }
}

proof fn lemma_matching_asks(
    device: usize,
    tokens: Seq<Fido2Ref>,
    first: int,
    kept: Seq<usize>,
    log: Seq<FidoAnswer>,
    at: int,
)
    ensures
        matching_stage(device, tokens, first, kept, log, at) matches FidoStage::Ask(a)
            ==> !carries_pin(a),
    decreases tokens.len() - first,
{
    if 0 <= first < tokens.len() {
        match probe_stage(device, tokens[first].cred_id, log, at) {
            FidoStage::Done(verdict, n) => {
                lemma_matching_asks(
                    device,
                    tokens,
                    first + 1,
                    if verdict == Some(false) {
                        kept
                    } else {
                        kept.push(first as usize)
                    },
                    log,
                    n,
                );
            },
            _ => {},
        }
    }
}

proof fn lemma_matches_asks(
    devices: Seq<usize>,
    tokens: Seq<Fido2Ref>,
    found: Seq<Match>,
    log: Seq<FidoAnswer>,
    at: int,
)
    ensures
        matches_stage(devices, tokens, found, log, at) matches FidoStage::Ask(a) ==> !carries_pin(
            a,
        ),
    decreases devices.len(),
{
    if devices.len() > 0 {
        lemma_matching_asks(devices[0], tokens, 0, seq![], log, at);
        match matching_stage(devices[0], tokens, 0, seq![], log, at) {
            FidoStage::Done(kept, n) => {
                lemma_matches_asks(
                    devices.skip(1),
                    tokens,
                    if kept.len() == 0 {
                        found
                    } else {
                        found.push((devices[0], kept))
                    },
                    log,
                    n,
                );
            },
            _ => {},
        }
    }
}

proof fn lemma_secrets_asks(
    device: usize,
    tokens: Seq<Fido2Ref>,
    numbers: Seq<usize>,
    pin: Option<Seq<char>>,
    last: Seq<char>,
    log: Seq<FidoAnswer>,
    at: int,
)
    ensures
        secrets_stage(device, tokens, numbers, pin, last, log, at) matches FidoStage::Ask(a)
            ==> a is HmacSecret && a->HmacSecret_device == device,
    decreases numbers.len(),
{
    if numbers.len() > 0 && numbers[0] < tokens.len() {
        let token = tokens[numbers[0] as int];
        match hmac_stage(device, token.cred_id, token.salt, pin, log, at) {
            FidoStage::Fail(e, n) => {
                lemma_secrets_asks(device, tokens, numbers.skip(1), pin, e, log, n);
            },
            _ => {},
        }
    }
}

/// The devices that were opened and may hold a token, as far as the answers go.
pub open spec fn matched(tokens: Seq<Fido2Ref>, log: Seq<FidoAnswer>) -> FidoStage<Seq<Match>> {
    match list_stage(log, 0) {
        FidoStage::Done(listed, n) => match open_stage(listed, seq![], log, n) {
            FidoStage::Done(opened, m) => matches_stage(opened, tokens, seq![], log, m),
            FidoStage::Ask(a) => FidoStage::Ask(a),
            FidoStage::Fail(e, m) => FidoStage::Fail(e, m),
        },
        FidoStage::Ask(a) => FidoStage::Ask(a),
        FidoStage::Fail(e, n) => FidoStage::Fail(e, n),
    }
}

/// While a volume is unlocked, the PIN goes to the selected device and to no other:
/// any request that carries one is for the only device that may hold a token, or
/// for the one that the user touched.
pub proof fn law_pin_goes_to_the_selected_device(
    tokens: Seq<Fido2Ref>,
    pin: Seq<char>,
    log: Seq<FidoAnswer>,
)
    requires
        unlock_stage(tokens, pin, log) is Ask,
        carries_pin(unlock_stage(tokens, pin, log)->Ask_0),
    ensures
        matched(tokens, log) is Done,
        ({
            let found = matched(tokens, log)->Done_0;
            let chosen = select_stage(found, log, matched(tokens, log)->Done_1);
            &&& chosen is Done
            &&& unlock_stage(tokens, pin, log)->Ask_0 is HmacSecret
            &&& unlock_stage(tokens, pin, log)->Ask_0->HmacSecret_device == chosen->Done_0.0
        }),
{
    match list_stage(log, 0) {
        FidoStage::Done(listed, n1) => {
            lemma_open_asks(listed, seq![], log, n1);
            match open_stage(listed, seq![], log, n1) {
                FidoStage::Done(opened, n2) => {
                    lemma_matches_asks(opened, tokens, seq![], log, n2);
                    match matches_stage(opened, tokens, seq![], log, n2) {
                        FidoStage::Done(found, n3) => {
                            match select_stage(found, log, n3) {
                                FidoStage::Done((device, numbers), n4) => {
                                    lemma_secrets_asks(
                                        device,
                                        tokens,
                                        numbers,
                                        if pin.len() == 0 {
                                            None
                                        } else {
                                            Some(pin)
                                        },
                                        "unknown error"@,
                                        log,
                                        n4 + 1,
                                    );
                                },
                                _ => {},
                            }
                        },
                        _ => {},
                    }
                },
                _ => {},
            }
        },
        _ => {},
    }
}

} // verus!
