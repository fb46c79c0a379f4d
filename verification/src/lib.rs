//! Enrollment of LUKS2 volumes: FIDO2 tokens, TPM2 chips, recovery keys and
//! passphrases, as tokens and keyslots that systemd-cryptsetup understands.
//!
//! The library holds the decisions of a privileged service; what only the
//! machine can do is left to its caller. It comes in three forms:
//!
//! - an operation gives the next request, or its result, from the answers that
//!   it has received so far ([`host`], [`volume`], [`service`], [`format`],
//!   and for the two kinds of token [`fido2`] and [`tpm2`]; [`auth`] decides
//!   about the calls themselves);
//! - a query gives its result, or the question that it needs answered first,
//!   from what is known of the machine ([`facts`], [`devices`]);
//! - everything else is a plain function ([`luks`] reads a header's metadata,
//!   [`cache`] remembers volume keys, [`recovery`] makes recovery keys).
//!
//! What holds of them, whatever they are answered, is stated and proved on its own:
//! of the operations ([`courses`], [`trials`], [`reports`], [`outcomes`]), of the work
//! for tokens ([`keys`], [`unlocking`], [`sealing`]) and for disks ([`disks`]), of the
//! calls ([`gates`]), and of what is read and told ([`headers`], [`inventory`],
//! [`names`], [`reading`]).
//!
//! [`text`], [`order`], [`table`], [`json`] and [`codec`] are what they are
//! built on.

pub mod auth;
pub mod cache;
pub mod codec;
pub mod constants;
pub mod courses;
pub mod devices;
pub mod disks;
pub mod error;
pub mod facts;
pub mod fido2;
pub mod format;
pub mod gates;
pub mod headers;
pub mod host;
pub mod inventory;
pub mod json;
pub mod keys;
pub mod luks;
pub mod names;
pub mod order;
pub mod outcomes;
pub mod reading;
pub mod recovery;
pub mod reports;
pub mod sealing;
pub mod service;
pub mod settings;
pub mod table;
pub mod text;
pub mod tpm2;
pub mod trials;
pub mod unlocking;
pub mod volume;
