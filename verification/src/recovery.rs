//! Recovery keys: 256 random bits in the modhex form of systemd-cryptenroll.

use vstd::prelude::*;

use crate::codec::random_32;
use crate::error::Error;
use crate::text::concat;

verus! {

/// The modhex digit for the number `n` below 16: a hexadecimal digit spelled
/// with the letters that lie in the same place on most keyboards.
pub open spec fn modhex(n: int) -> char {
    seq!['c', 'b', 'd', 'e', 'f', 'g', 'h', 'i', 'j', 'k', 'l', 'n', 'r', 't', 'u', 'v'][n]
}

/// The `k`-th of the hexadecimal digits of `raw`.
pub open spec fn nibble(raw: Seq<u8>, k: int) -> int {
    if k % 2 == 0 {
        raw[k / 2] as int / 16
    } else {
        raw[k / 2] as int % 16
    }
}

/// The recovery key for the 32 bytes `raw`: 64 modhex digits in eight groups of
/// eight, with a dash between two groups.
pub open spec fn recovery_text(raw: Seq<u8>) -> Seq<char> {
    Seq::new(
        71,
        |i: int|
            if i % 9 == 8 {
                '-'
            } else {
                modhex(nibble(raw, 8 * (i / 9) + i % 9))
            },
    )
}

fn modhex_digit(n: u8) -> (c: char)
    requires
        n < 16,
    ensures
        c == modhex(n as int),
{
    let digits: [char; 16] = [
        'c', 'b', 'd', 'e', 'f', 'g', 'h', 'i', 'j', 'k', 'l', 'n', 'r', 't', 'u', 'v',
    ];
    digits[n as usize]
}

/// The recovery key for the bytes `raw`.
pub fn recovery_key_from(raw: &[u8]) -> (key: String)
    requires
        raw@.len() == 32,
    ensures
        key@ == recovery_text(raw@),
{
    let mut key = String::new();
    for i in 0..71usize
        invariant
            raw@.len() == 32,
            key@ == recovery_text(raw@).take(i as int),
    {
        let c = if i % 9 == 8 {
            '-'
        } else {
            let k: usize = 8 * (i / 9) + i % 9;
            let b: u8 = raw[k / 2];
            if k % 2 == 0 {
                modhex_digit(b / 16)
            } else {
                modhex_digit(b % 16)
            }
        };
        key.push(c);
        assert(recovery_text(raw@).take(i + 1) == recovery_text(raw@).take(i as int).push(
            recovery_text(raw@)[i as int],
        ));
    }
    assert(recovery_text(raw@).take(71) == recovery_text(raw@));
    key
}

/// A new recovery key. It fails only where the operating system's random number
/// generator does.
pub fn make_recovery_key() -> (r: Result<String, Error>)
    ensures
        r matches Ok(key) ==> exists|raw: Seq<u8>|
            raw.len() == 32 && key@ == #[trigger] recovery_text(raw),
        r matches Err(e) ==> exists|why: Seq<char>| e@ == "OS RNG unavailable: "@ + why,
{
    match random_32() {
        Ok(raw) => Ok(recovery_key_from(raw.as_slice())),
        Err(why) => {
            let e = Error(concat("OS RNG unavailable: ", why.as_str()));
            assert(e@ == "OS RNG unavailable: "@ + why@);
            Err(e)
        },
    }
}

proof fn lemma_modhex(a: int, b: int)
    requires
        0 <= a < 16,
        0 <= b < 16,
        modhex(a) == modhex(b),
    ensures
        a == b,
{
}

/// Two different 32-byte strings give two different recovery keys.
pub proof fn law_recovery_key_injective(a: Seq<u8>, b: Seq<u8>)
    requires
        a.len() == 32,
        b.len() == 32,
        recovery_text(a) == recovery_text(b),
    ensures
        a == b,
{
    assert forall|i: int| 0 <= i < 32 implies a[i] == b[i] by {
        let k = 2 * i;
        let p = 9 * (k / 8) + k % 8;
        let q = 9 * ((k + 1) / 8) + (k + 1) % 8;
        assert(p % 9 == k % 8 && p / 9 == k / 8);
        assert(q % 9 == (k + 1) % 8 && q / 9 == (k + 1) / 8);
        assert(recovery_text(a)[p] == modhex(nibble(a, k)));
        assert(recovery_text(b)[p] == modhex(nibble(b, k)));
        assert(recovery_text(a)[q] == modhex(nibble(a, k + 1)));
        assert(recovery_text(b)[q] == modhex(nibble(b, k + 1)));
        lemma_modhex(nibble(a, k), nibble(b, k));
        lemma_modhex(nibble(a, k + 1), nibble(b, k + 1));
    }
    assert(a =~= b);
}

/// Whether `c` is a modhex digit.
pub open spec fn is_modhex(c: char) -> bool {
    exists|n: int| 0 <= n < 16 && c == #[trigger] modhex(n)
}

/// A recovery key is 71 characters long: eight groups of eight modhex digits,
/// with a dash after each group but the last.
pub proof fn law_recovery_key_format(raw: Seq<u8>)
    requires
        raw.len() == 32,
    ensures
        recovery_text(raw).len() == 71,
        forall|i: int| 0 <= i < 71 && i % 9 == 8 ==> #[trigger] recovery_text(raw)[i] == '-',
        forall|i: int| 0 <= i < 71 && i % 9 != 8 ==> is_modhex(#[trigger] recovery_text(raw)[i]),
{
    assert forall|i: int| 0 <= i < 71 && i % 9 != 8 implies is_modhex(
        #[trigger] recovery_text(raw)[i],
    ) by {
        let k = 8 * (i / 9) + i % 9;
        assert(0 <= k / 2 < 32);
        assert(recovery_text(raw)[i] == modhex(nibble(raw, k)));
    }
}

} // verus!
