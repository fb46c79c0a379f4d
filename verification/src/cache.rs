//! Volume keys, remembered for a while.
//!
//! Times are points on a clock that never goes back, in nanoseconds.

use vstd::prelude::*;

use crate::luks::VolumeKey;
use crate::table::Table;

verus! {

/// How long a volume key is remembered: two minutes.
pub const VOLUME_KEY_CACHE_TTL: u64 = 120_000_000_000;

/// Whether something put in at `time` has been there for less than `ttl`.
pub open spec fn fresh(time: u64, now: u64, ttl: u64) -> bool {
    now - time < ttl
}

/// Whether something put in at `time` has been there for less than `ttl`.
pub fn is_fresh(time: u64, now: u64, ttl: u64) -> (r: bool)
    ensures
        r == fresh(time, now, ttl),
{
    now < time || now - time < ttl
}

/// The volume key that `cache` gives for `device` at the time `now`.
pub open spec fn remembered(
    cache: Map<Seq<char>, (Seq<u8>, u64)>,
    device: Seq<char>,
    now: u64,
) -> Option<Seq<u8>> {
    if cache.contains_key(device) && fresh(cache[device].1, now, VOLUME_KEY_CACHE_TTL) {
        Some(cache[device].0)
    } else {
        None
    }
}

/// The volume keys of devices, by the canonical path of the device. A key is
/// remembered for [`VOLUME_KEY_CACHE_TTL`], so that what follows an unlock needs
/// no second touch, unseal or passphrase.
pub struct VolumeKeyCache {
    keys: Table<(VolumeKey, u64)>,
}

impl View for VolumeKeyCache {
    type V = Map<Seq<char>, (Seq<u8>, u64)>;

    closed spec fn view(&self) -> Map<Seq<char>, (Seq<u8>, u64)> {
        self.keys@
    }
}

impl VolumeKeyCache {
    /// An empty cache.
    pub fn new() -> (c: VolumeKeyCache)
        ensures
            c@ == Map::<Seq<char>, (Seq<u8>, u64)>::empty(),
    {
        VolumeKeyCache { keys: Table::new() }
    }

    /// Forgets the volume key of `device`.
    pub fn clear_volume_key_cache(&mut self, device: &str)
        ensures
            final(self)@ == old(self)@.remove(device@),
    {
        self.keys.remove(device);
    }

    /// Remembers the volume key of `device`.
    pub fn cache_volume_key(&mut self, device: &str, key: VolumeKey, now: u64)
        ensures
            final(self)@ == old(self)@.insert(device@, (key@, now)),
    {
        self.keys.insert(device, (key, now));
    }

    /// The volume key of `device`, if it is remembered. One whose time is over
    /// is forgotten.
    pub fn cached_volume_key(&mut self, device: &str, now: u64) -> (r: Option<VolumeKey>)
        ensures
            match remembered(old(self)@, device@, now) {
                Some(key) => {
                    &&& r is Some
                    &&& r->Some_0@ == key
                    &&& final(self)@ == old(self)@
                },
                None => {
                    &&& r is None
                    &&& final(self)@ == old(self)@.remove(device@)
                },
            },
    {
        let found = match self.keys.get(device) {
            Some(entry) => {
                if is_fresh(entry.1, now, VOLUME_KEY_CACHE_TTL) {
                    Some(entry.0.copy())
                } else {
                    None
                }
            },
            None => None,
        };
        if found.is_none() {
            self.keys.remove(device);
        }
        found
    }
}

/// A key that was remembered at `time` is found for two minutes, and no longer.
pub proof fn law_cache_read_after_write(
    cache: Map<Seq<char>, (Seq<u8>, u64)>,
    device: Seq<char>,
    key: Seq<u8>,
    time: u64,
    now: u64,
)
    ensures
        remembered(cache.insert(device, (key, time)), device, now) == if now - time
            < 120_000_000_000 {
            Some(key)
        } else {
            None
        },
{
}

/// A key that was forgotten is not found.
pub proof fn law_cache_forgets(
    cache: Map<Seq<char>, (Seq<u8>, u64)>,
    device: Seq<char>,
    now: u64,
)
    ensures
        remembered(cache.remove(device), device, now) is None,
{
}

/// What is remembered or forgotten of one device changes nothing for another.
pub proof fn law_cache_keeps_others(
    cache: Map<Seq<char>, (Seq<u8>, u64)>,
    device: Seq<char>,
    other: Seq<char>,
    entry: (Seq<u8>, u64),
    now: u64,
)
    requires
        other != device,
    ensures
        remembered(cache.insert(other, entry), device, now) == remembered(cache, device, now),
        remembered(cache.remove(other), device, now) == remembered(cache, device, now),
{
}

} // verus!
