//! Runtime settings, which live in the `[defaults]` section of an INI file.
//!
//! There is no setting yet: every key is refused.

use vstd::prelude::*;

verus! {

/// The file that holds the settings.
pub const SETTINGS_FILE: &'static str = "/etc/luks-enroll.conf";

/// Whether there is a setting named `key`.
pub open spec fn allowed_key(key: Seq<char>) -> bool {
    false
}

/// The value of the setting `key`; empty for a key that is not allowed, which
/// every key is.
pub fn load_setting(key: &str) -> (r: String)
    ensures
        !allowed_key(key@) ==> r@ == ""@,
{
    "".to_string()
}

/// Stores the setting `key`, and says whether it did: a key that is not
/// allowed is refused, which every key is.
pub fn save_setting(key: &str, value: &str) -> (r: bool)
    ensures
        r == allowed_key(key@),
{
    false
}

} // verus!
