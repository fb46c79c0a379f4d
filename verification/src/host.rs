//! What an operation asks of the machine, and what it is answered.
//!
//! An operation alternates work that only the machine can do (open a header,
//! talk to a token, write a partition table) with decisions. The decisions are
//! here; the work is a [`Request`], and its outcome an [`Answer`]. An operation
//! is a function of its arguments and of the answers received so far: it gives
//! the next request, or the result. The caller performs the request, appends
//! the answer to the list, and asks again.

use vstd::prelude::*;

use crate::codec::Secret;
use crate::error::Error;
use crate::fido2::Fido2Enrollment;
use crate::luks::{Fido2Ref, Fido2TokenRef, Tpm2Ref, Tpm2TokenRef};
use crate::order::views;
use crate::text::texts;
use crate::tpm2::SealResult;

verus! {

/// How much room a new header sets aside for its keyslots.
#[derive(Clone, Copy, PartialEq, Eq, Structural)]
pub enum KeyslotsArea {
    /// What libcryptsetup takes by default.
    Default,
    /// [`crate::luks::COMPACT_KEYSLOTS_SIZE`] bytes.
    Compact,
}

/// Work for the machine.
#[allow(inconsistent_fields)]
pub enum Request {
    /// Open `device` and load its LUKS2 header: [`Answer::Outcome`].
    Open { device: String },
    /// Read the JSON area of the LUKS2 header of `device`: [`Answer::Text`].
    Metadata { device: String },
    /// Look the volume key of `device` up in the cache: [`Answer::Key`].
    CachedKey { device: String },
    /// Put the volume key of `device` into the cache: [`Answer::Ack`].
    CacheKey { device: String, key: Secret },
    /// Derive the secret of one of the FIDO2 enrollments `tokens`:
    /// [`Answer::Derived`].
    UnlockFido2 { tokens: Vec<Fido2TokenRef>, pin: String },
    /// Unseal the secret of one of the TPM2 enrollments `tokens`:
    /// [`Answer::Derived`].
    UnsealTpm2 { tokens: Vec<Tpm2TokenRef>, pin: String },
    /// Open the keyslot `slot` of `device`, or any keyslot if that is -1, with
    /// `passphrase`, and take the volume key out: [`Answer::SlotKey`].
    VolumeKey { device: String, slot: i32, passphrase: Secret },
    /// Add a keyslot for `passphrase` to `device`, whose volume key is `key`:
    /// [`Answer::Number`], the keyslot. With `minimal_pbkdf` the passphrase is
    /// stretched as little as possible: PBKDF2 with
    /// [`crate::luks::MINIMAL_PBKDF_HASH`], [`crate::luks::MINIMAL_PBKDF_TIME`] and
    /// [`crate::luks::MINIMAL_PBKDF_ITERATIONS`].
    AddKeyslot { device: String, key: Secret, passphrase: Secret, minimal_pbkdf: bool },
    /// Store the token `json` in `device` under the number `token`, or under a
    /// free one if that is -1; without `json`, remove the token:
    /// [`Answer::Number`], the token.
    SetToken { device: String, token: i32, json: Option<String> },
    /// Destroy a keyslot: [`Answer::Outcome`].
    DestroyKeyslot { device: String, slot: i32 },
    /// Write a new LUKS2 header ([`crate::luks::CIPHER`], [`crate::luks::CIPHER_MODE`])
    /// without a keyslot: [`Answer::NewKey`], the volume key, of
    /// [`crate::luks::VOLUME_KEY_LEN`] bytes.
    Format { device: String, area: KeyslotsArea },
    /// Activate `device` as the mapping `name`: [`Answer::Outcome`].
    Activate { device: String, name: String, key: Secret },
    /// Remove the mapping `name`: [`Answer::Outcome`].
    Deactivate { name: String },
    /// Is the mapping `name` active? [`Answer::Flag`].
    MappingActive { name: String },
    /// Is a file system of the mapping `name` mounted? [`Answer::Flag`].
    MappingMounted { name: String },
    /// Which of the FIDO2 devices `paths` hold one of the credentials `creds`?
    /// [`Answer::Names`].
    EnrolledPaths { paths: Vec<String>, creds: Vec<Vec<u8>> },
    /// Enroll the FIDO2 device `path`: [`Answer::Fido2`].
    EnrollFido2 { path: String, pin: Option<String> },
    /// Seal `secret` in the TPM: [`Answer::Sealed`].
    Seal { secret: Secret, pcrs: String, pin: String },
    /// What is at `path`? [`Answer::Path`].
    PathKind { path: String },
    /// Make a new file `path` whose last byte, a zero, is at `last`:
    /// [`Answer::Outcome`].
    CreateFile { path: String, last: u64 },
    /// Give `path` to a user and a group: [`Answer::Outcome`].
    Chown { path: String, uid: u32, gid: u32 },
    /// Erase the signatures on `device`: [`Answer::Outcome`].
    Wipefs { device: String },
    /// Write a partition table with one partition to `device`:
    /// [`Answer::Outcome`].
    Partition { device: String },
    /// Wait until the node of the new `partition` of `device` is there:
    /// [`Answer::Flag`].
    WaitForNode { device: String, partition: String },
}

/// The contents of a [`Request`].
#[allow(inconsistent_fields)]
#[verifier::ext_equal]
pub ghost enum Ask {
    Open { device: Seq<char> },
    Metadata { device: Seq<char> },
    CachedKey { device: Seq<char> },
    CacheKey { device: Seq<char>, key: Seq<u8> },
    UnlockFido2 { tokens: Seq<Fido2Ref>, pin: Seq<char> },
    UnsealTpm2 { tokens: Seq<Tpm2Ref>, pin: Seq<char> },
    VolumeKey { device: Seq<char>, slot: i32, passphrase: Seq<u8> },
    AddKeyslot { device: Seq<char>, key: Seq<u8>, passphrase: Seq<u8>, minimal_pbkdf: bool },
    SetToken { device: Seq<char>, token: i32, json: Option<Seq<char>> },
    DestroyKeyslot { device: Seq<char>, slot: i32 },
    Format { device: Seq<char>, area: KeyslotsArea },
    Activate { device: Seq<char>, name: Seq<char>, key: Seq<u8> },
    Deactivate { name: Seq<char> },
    MappingActive { name: Seq<char> },
    MappingMounted { name: Seq<char> },
    EnrolledPaths { paths: Seq<Seq<char>>, creds: Seq<Seq<u8>> },
    EnrollFido2 { path: Seq<char>, pin: Option<Seq<char>> },
    Seal { secret: Seq<u8>, pcrs: Seq<char>, pin: Seq<char> },
    PathKind { path: Seq<char> },
    CreateFile { path: Seq<char>, last: u64 },
    Chown { path: Seq<char>, uid: u32, gid: u32 },
    Wipefs { device: Seq<char> },
    Partition { device: Seq<char> },
    WaitForNode { device: Seq<char>, partition: Seq<char> },
}

impl View for Request {
    type V = Ask;

    open spec fn view(&self) -> Ask {
        match *self {
            Request::Open { device } => Ask::Open { device: device@ },
            Request::Metadata { device } => Ask::Metadata { device: device@ },
            Request::CachedKey { device } => Ask::CachedKey { device: device@ },
            Request::CacheKey { device, key } => Ask::CacheKey { device: device@, key: key@ },
            Request::UnlockFido2 { tokens, pin } => Ask::UnlockFido2 {
                tokens: views(tokens@),
                pin: pin@,
            },
            Request::UnsealTpm2 { tokens, pin } => Ask::UnsealTpm2 {
                tokens: views(tokens@),
                pin: pin@,
            },
            Request::VolumeKey { device, slot, passphrase } => Ask::VolumeKey {
                device: device@,
                slot,
                passphrase: passphrase@,
            },
            Request::AddKeyslot { device, key, passphrase, minimal_pbkdf } => Ask::AddKeyslot {
                device: device@,
                key: key@,
                passphrase: passphrase@,
                minimal_pbkdf,
            },
            Request::SetToken { device, token, json } => Ask::SetToken {
                device: device@,
                token,
                json: match json {
                    Some(s) => Some(s@),
                    None => None,
                },
            },
            Request::DestroyKeyslot { device, slot } => Ask::DestroyKeyslot { device: device@, slot },
            Request::Format { device, area } => Ask::Format { device: device@, area },
            Request::Activate { device, name, key } => Ask::Activate {
                device: device@,
                name: name@,
                key: key@,
            },
            Request::Deactivate { name } => Ask::Deactivate { name: name@ },
            Request::MappingActive { name } => Ask::MappingActive { name: name@ },
            Request::MappingMounted { name } => Ask::MappingMounted { name: name@ },
            Request::EnrolledPaths { paths, creds } => Ask::EnrolledPaths {
                paths: texts(paths@),
                creds: views(creds@),
            },
            Request::EnrollFido2 { path, pin } => Ask::EnrollFido2 {
                path: path@,
                pin: match pin {
                    Some(s) => Some(s@),
                    None => None,
                },
            },
            Request::Seal { secret, pcrs, pin } => Ask::Seal {
                secret: secret@,
                pcrs: pcrs@,
                pin: pin@,
            },
            Request::PathKind { path } => Ask::PathKind { path: path@ },
            Request::CreateFile { path, last } => Ask::CreateFile { path: path@, last },
            Request::Chown { path, uid, gid } => Ask::Chown { path: path@, uid, gid },
            Request::Wipefs { device } => Ask::Wipefs { device: device@ },
            Request::Partition { device } => Ask::Partition { device: device@ },
            Request::WaitForNode { device, partition } => Ask::WaitForNode {
                device: device@,
                partition: partition@,
            },
        }
    }
}

/// Why a request on a LUKS2 volume failed.
pub enum Failure {
    /// The device could not be opened.
    Open,
    /// The device has no LUKS2 header.
    Load,
    /// The key derivation could not be set.
    Settings(String),
    /// The call itself failed.
    Call(String),
}

/// What is at a path.
#[derive(Clone, Copy, PartialEq, Eq, Structural)]
pub enum PathKind {
    Missing,
    RegularFile,
    Other,
}

/// The outcome of a [`Request`].
pub enum Answer {
    Ack,
    Text(Option<String>),
    Key(Option<Secret>),
    Derived(Result<Secret, String>),
    SlotKey(Result<(i32, Secret), Failure>),
    Number(Result<i32, Failure>),
    Outcome(Result<(), Failure>),
    NewKey(Result<Secret, Failure>),
    Flag(bool),
    Names(Vec<String>),
    Fido2(Result<Fido2Enrollment, String>),
    Sealed(Result<SealResult, String>),
    Path(PathKind),
}

/// How far a part of an operation has come: it needs a request answered, it has
/// failed, or it is done, with the number of answers that were used.
pub enum Step<T> {
    Ask(Request),
    Fail(Error),
    Done(T, usize),
}

/// The contents of a [`Step`].
#[verifier::ext_equal]
pub ghost enum Stage<T> {
    Ask(Ask),
    Fail(Seq<char>),
    Done(T, int),
}

impl<T: View> View for Step<T> {
    type V = Stage<T::V>;

    open spec fn view(&self) -> Stage<T::V> {
        match *self {
            Step::Ask(r) => Stage::Ask(r@),
            Step::Fail(e) => Stage::Fail(e@),
            Step::Done(t, n) => Stage::Done(t@, n as int),
        }
    }
}

/// What comes next in an operation: a request, or the result.
pub enum Next<T> {
    Ask(Request),
    Done(T),
}

/// The contents of a [`Next`].
#[verifier::ext_equal]
pub ghost enum Turn<T> {
    Ask(Ask),
    Done(T),
}

impl<T: View> View for Next<T> {
    type V = Turn<T::V>;

    open spec fn view(&self) -> Turn<T::V> {
        match *self {
            Next::Ask(r) => Turn::Ask(r@),
            Next::Done(t) => Turn::Done(t@),
        }
    }
}

} // verus!
