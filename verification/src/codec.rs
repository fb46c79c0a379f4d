//! Bytes: base64, SHA-256, random bytes, and secrets wiped when dropped.

use base64::engine::general_purpose::STANDARD;
use base64::Engine;
use sha2::Digest;
use vstd::prelude::*;
use zeroize::Zeroizing;

verus! {

// ---------------------------------------------------------------------------
// base64
// ---------------------------------------------------------------------------

/// The character of the standard base64 alphabet for the number `n` below 64.
pub open spec fn b64_char(n: int) -> char {
    if n < 26 {
        ('A' as int + n) as char
    } else if n < 52 {
        ('a' as int + (n - 26)) as char
    } else if n < 62 {
        ('0' as int + (n - 52)) as char
    } else if n == 62 {
        '+'
    } else {
        '/'
    }
}

/// The byte at `i`, or zero past the end.
pub open spec fn byte_or_zero(b: Seq<u8>, i: int) -> int {
    if 0 <= i < b.len() {
        b[i] as int
    } else {
        0
    }
}

/// Three bytes from `3 * g` on, as one number.
pub open spec fn triplet(b: Seq<u8>, g: int) -> int {
    byte_or_zero(b, 3 * g) * 0x10000 + byte_or_zero(b, 3 * g + 1) * 0x100 + byte_or_zero(
        b,
        3 * g + 2,
    )
}

/// The `j`-th of the four 6-bit digits of `w`.
pub open spec fn sextet(w: int, j: int) -> int {
    if j == 0 {
        w / 0x40000
    } else if j == 1 {
        w / 0x1000 % 64
    } else if j == 2 {
        w / 64 % 64
    } else {
        w % 64
    }
}

/// Standard base64: four characters for every three bytes, the last group
/// padded with `=`.
pub open spec fn b64_text(b: Seq<u8>) -> Seq<char> {
    Seq::new(
        (4 * ((b.len() + 2) / 3)) as nat,
        |k: int|
            if 3 * (k / 4) + k % 4 <= b.len() {
                b64_char(sextet(triplet(b, k / 4), k % 4))
            } else {
                '='
            },
    )
}

/// The bytes whose base64 text is `text`, if there are any.
pub open spec fn b64_bytes(text: Seq<char>) -> Option<Seq<u8>> {
    if exists|b: Seq<u8>| #[trigger] b64_text(b) == text {
        Some(choose|b: Seq<u8>| #[trigger] b64_text(b) == text)
    } else {
        None
    }
}

/// Decoding undoes encoding.
pub proof fn law_base64_round_trip(b: Seq<u8>)
    ensures
        b64_bytes(b64_text(b)) == Some(b),
{
    let c = choose|c: Seq<u8>| #[trigger] b64_text(c) == b64_text(b);
    law_base64_injective(b, c);
}

/// What `base64` says about a text that it does not decode.
pub uninterp spec fn b64_complaint(text: Seq<char>) -> Seq<char>;

/// `base64::Engine::encode` of the engine `STANDARD`: the standard alphabet,
/// with padding.
#[verifier::external_body]
fn standard_encode(bytes: &[u8]) -> (r: String)
    ensures
        r@ == b64_text(bytes@),
{
    STANDARD.encode(bytes)
}

/// `base64::Engine::decode` of the engine `STANDARD`, which requires padding
/// and refuses stray bits behind the last byte: it accepts exactly the texts
/// that `encode` writes. The error is handed out by its `Display` text.
#[verifier::external_body]
fn standard_decode(text: &str) -> (r: Result<Vec<u8>, String>)
    ensures
        match r {
            Ok(v) => b64_text(v@) == text@,
            Err(e) => e@ == b64_complaint(text@) && forall|b: Seq<u8>|
                #[trigger] b64_text(b) != text@,
        },
{
    STANDARD.decode(text).map_err(|e| e.to_string())
}

proof fn lemma_b64_char(a: int, b: int)
    requires
        0 <= a < 64,
        0 <= b < 64,
    ensures
        b64_char(a) == b64_char(b) ==> a == b,
        b64_char(a) != '=',
{
}

proof fn lemma_sextets(v: int, w: int)
    requires
        0 <= v < 0x1000000,
        0 <= w < 0x1000000,
        sextet(v, 0) == sextet(w, 0),
        sextet(v, 1) == sextet(w, 1),
        sextet(v, 2) == sextet(w, 2),
        sextet(v, 3) == sextet(w, 3),
    ensures
        v == w,
{
}

proof fn lemma_triplet(b: Seq<u8>, g: int)
    ensures
        0 <= triplet(b, g) < 0x1000000,
        forall|j: int| 0 <= j < 4 ==> 0 <= #[trigger] sextet(triplet(b, g), j) < 64,
        3 * g + 1 >= b.len() ==> sextet(triplet(b, g), 2) == 0,
        3 * g + 2 >= b.len() ==> sextet(triplet(b, g), 3) == 0,
{
}

proof fn lemma_b64_at(a: Seq<u8>, b: Seq<u8>, k: int)
    requires
        b64_text(a) == b64_text(b),
        0 <= k < b64_text(a).len(),
    ensures
        3 * (k / 4) + k % 4 <= a.len() <==> 3 * (k / 4) + k % 4 <= b.len(),
        3 * (k / 4) + k % 4 <= a.len() ==> sextet(triplet(a, k / 4), k % 4) == sextet(
            triplet(b, k / 4),
            k % 4,
        ),
{
    assert(b64_text(a)[k] == b64_text(b)[k]);
    lemma_triplet(a, k / 4);
    lemma_triplet(b, k / 4);
    let x = sextet(triplet(a, k / 4), k % 4);
    let y = sextet(triplet(b, k / 4), k % 4);
    lemma_b64_char(x, y);
    lemma_b64_char(y, x);
    let p = 3 * (k / 4) + k % 4;
    assert(b64_text(a)[k] == if p <= a.len() { b64_char(x) } else { '=' });
    assert(b64_text(b)[k] == if p <= b.len() { b64_char(y) } else { '=' });
}

proof fn lemma_b64_len(a: Seq<u8>, b: Seq<u8>)
    requires
        b64_text(a) == b64_text(b),
    ensures
        a.len() == b.len(),
{
    let groups = (a.len() as int + 2) / 3;
    assert(b64_text(a).len() == 4 * groups);
    assert(b64_text(b).len() == 4 * ((b.len() as int + 2) / 3));
    assert(3 * groups - 2 <= a.len() <= 3 * groups);
    assert(3 * groups - 2 <= b.len() <= 3 * groups);
    if groups > 0 {
        let last = 4 * (groups - 1);
        assert((last + 2) / 4 == groups - 1 && (last + 2) % 4 == 2);
        assert((last + 3) / 4 == groups - 1 && (last + 3) % 4 == 3);
        lemma_b64_at(a, b, last + 2);
        lemma_b64_at(a, b, last + 3);
        assert(3 * (groups - 1) + 2 <= a.len() <==> 3 * (groups - 1) + 2 <= b.len());
        assert(3 * (groups - 1) + 3 <= a.len() <==> 3 * (groups - 1) + 3 <= b.len());
    }
}

proof fn lemma_b64_group(a: Seq<u8>, b: Seq<u8>, g: int)
    requires
        b64_text(a) == b64_text(b),
        a.len() == b.len(),
        0 <= 3 * g < a.len(),
    ensures
        triplet(a, g) == triplet(b, g),
{
    lemma_triplet(a, g);
    lemma_triplet(b, g);
    assert forall|j: int| 0 <= j < 4 implies #[trigger] sextet(triplet(a, g), j) == sextet(
        triplet(b, g),
        j,
    ) by {
        let k = 4 * g + j;
        assert(k / 4 == g && k % 4 == j);
        lemma_b64_at(a, b, k);
    }
    lemma_sextets(triplet(a, g), triplet(b, g));
}

proof fn lemma_triplet_bytes(a: Seq<u8>, b: Seq<u8>, g: int)
    requires
        triplet(a, g) == triplet(b, g),
    ensures
        byte_or_zero(a, 3 * g) == byte_or_zero(b, 3 * g),
        byte_or_zero(a, 3 * g + 1) == byte_or_zero(b, 3 * g + 1),
        byte_or_zero(a, 3 * g + 2) == byte_or_zero(b, 3 * g + 2),
{
}

/// The base64 text of a byte string determines the bytes.
pub proof fn law_base64_injective(a: Seq<u8>, b: Seq<u8>)
    requires
        b64_text(a) == b64_text(b),
    ensures
        a == b,
{
    lemma_b64_len(a, b);
    assert forall|i: int| 0 <= i < a.len() implies a[i] == b[i] by {
        let g = i / 3;
        lemma_b64_group(a, b, g);
        lemma_triplet_bytes(a, b, g);
        assert(i == 3 * g || i == 3 * g + 1 || i == 3 * g + 2);
    }
    assert(a =~= b);
}

/// The base64 text of `bytes`.
pub fn b64_encode(bytes: &[u8]) -> (r: String)
    ensures
        r@ == b64_text(bytes@),
{
    standard_encode(bytes)
}

/// The bytes whose base64 text is `text`; where there are none, what is wrong
/// with it.
pub fn b64_decode(text: &str) -> (r: Result<Vec<u8>, String>)
    ensures
        match r {
            Ok(v) => b64_bytes(text@) == Some(v@) && b64_text(v@) == text@,
            Err(e) => b64_bytes(text@) is None && e@ == b64_complaint(text@),
        },
{
    let r = standard_decode(text);
    proof {
        if r is Ok {
            law_base64_round_trip(r->Ok_0@);
        }
    }
    r
}

// ---------------------------------------------------------------------------
// SHA-256
// ---------------------------------------------------------------------------

/// The SHA-256 digest of a byte string.
pub uninterp spec fn sha256(data: Seq<u8>) -> Seq<u8>;

/// `sha2::Sha256::digest`: the 32-byte SHA-256 digest of `data`.
#[verifier::external_body]
pub(crate) fn sha256_of(data: &[u8]) -> (r: Vec<u8>)
    ensures
        r@ == sha256(data@),
        r@.len() == 32,
{
    sha2::Sha256::digest(data).to_vec()
}

// ---------------------------------------------------------------------------
// Random bytes
// ---------------------------------------------------------------------------

/// `getrandom::fill`: fills a buffer of 32 bytes from the operating system's
/// random number generator, or fails with an error that is handed out by its
/// `Display` text. Nothing is known of the bytes.
#[verifier::external_body]
pub(crate) fn random_32() -> (r: Result<Vec<u8>, String>)
    ensures
        r matches Ok(v) ==> v@.len() == 32,
{
    let mut raw = [0u8; 32];
    getrandom::fill(&mut raw).map_err(|e| e.to_string())?;
    Ok(raw.to_vec())
}

// ---------------------------------------------------------------------------
// Secrets
// ---------------------------------------------------------------------------

/// Secret bytes in a `zeroize::Zeroizing` buffer, which wipes them from memory
/// when it is dropped.
#[verifier::external_body]
pub struct Secret(Zeroizing<Vec<u8>>);

/// The bytes that a secret holds.
pub uninterp spec fn secret_bytes(s: Secret) -> Seq<u8>;

impl View for Secret {
    type V = Seq<u8>;

    open spec fn view(&self) -> Seq<u8> {
        secret_bytes(*self)
    }
}

/// `Zeroizing::new` takes the buffer as it is.
#[verifier::external_body]
fn wipe_on_drop(bytes: Vec<u8>) -> (s: Secret)
    ensures
        secret_bytes(s) == bytes@,
{
    Secret(Zeroizing::new(bytes))
}

/// `Zeroizing` dereferences to the buffer inside.
#[verifier::external_body]
fn secret_slice(s: &Secret) -> (r: &[u8])
    ensures
        r@ == secret_bytes(*s),
{
    s.0.as_slice()
}

impl Secret {
    /// The secret `bytes`.
    pub fn new(bytes: Vec<u8>) -> (s: Secret)
        ensures
            s@ == bytes@,
    {
        wipe_on_drop(bytes)
    }

    /// The bytes of the secret.
    pub fn as_bytes(&self) -> (r: &[u8])
        ensures
            r@ == self@,
    {
        secret_slice(self)
    }

    /// A second secret with the same bytes.
    pub fn copy(&self) -> (s: Secret)
        ensures
            s@ == self@,
    {
        Secret::new(copy_bytes(self.as_bytes()))
    }
}

/// A copy of `bytes`.
pub fn copy_bytes(bytes: &[u8]) -> (r: Vec<u8>)
    ensures
        r@ == bytes@,
{
    let mut r: Vec<u8> = Vec::new();
    for i in 0..bytes.len()
        invariant
            r@ == bytes@.take(i as int),
    {
        r.push(bytes[i]);
        assert(bytes@.take(i + 1) == bytes@.take(i as int).push(bytes@[i as int]));
    }
    assert(bytes@.take(bytes@.len() as int) == bytes@);
    r
}

} // verus!
