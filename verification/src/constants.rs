//! Identifiers that recur across the crate and in the files that install it:
//! the D-Bus names, the polkit action ids and the token types.
//!
//! They are a contract with the outside. The D-Bus names and action ids stand
//! in the bus policy, the activation file, the systemd unit and the polkit
//! policy; the token types are what systemd-cryptenroll writes into a LUKS2
//! header.

use vstd::prelude::*;

verus! {

/// Well-known bus name that the service owns.
pub const BUS_NAME: &'static str = "net.contemno.LuksEnroll";

/// Object path that the service is served at.
pub const OBJECT_PATH: &'static str = "/net/contemno/LuksEnroll";

/// D-Bus interface name.
pub const INTERFACE: &'static str = "net.contemno.LuksEnroll1";

/// polkit action that gates the methods that only read.
pub const POLKIT_ACTION_READ: &'static str = "net.contemno.luks-enroll.read";

/// polkit action that gates the methods that change something.
pub const POLKIT_ACTION_MANAGE: &'static str = "net.contemno.luks-enroll.manage";

/// Where the service binary is installed.
pub const SERVICE_BINARY_PATH: &'static str = "/usr/sbin/luks-enroll-service";

/// LUKS2 token type of a FIDO2 enrollment.
pub const TOKEN_TYPE_FIDO2: &'static str = "systemd-fido2";

/// LUKS2 token type of a TPM2 enrollment.
pub const TOKEN_TYPE_TPM2: &'static str = "systemd-tpm2";

/// LUKS2 token type of a recovery key.
pub const TOKEN_TYPE_RECOVERY: &'static str = "systemd-recovery";

} // verus!
