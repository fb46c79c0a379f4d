//! TPM2: sealing a secret to PCRs, and unsealing it.
//!
//! What is sealed is what systemd-cryptenroll seals: an object below the storage
//! root key, whose policy is the current value of the PCRs and, where there is a
//! PIN, the digest of the PIN.

use vstd::prelude::*;
use vstd::utf8::encode_utf8;

use crate::codec::{copy_bytes, random_32, sha256, sha256_of, Secret};
use crate::error::Error;
use crate::luks::{Tpm2Ref, Tpm2TokenRef};
use crate::order::views;
use crate::text::{
    chars_of, concat, concat3, dec, dec_i64, dec_u64, has_nul, hex8, hex_u32, parse_i64,
    parse_i64_spec, split, split_chars, starts_with, str_eq, texts, trim, trim_str,
};
use crate::volume::{unexpected, unexpected_error};

verus! {

/// TPM2 algorithm: SHA-1.
pub const TPM2_ALG_SHA1: u16 = 0x0004;

/// TPM2 algorithm: SHA-256.
pub const TPM2_ALG_SHA256: u16 = 0x000b;

/// TPM2 algorithm: SHA-384.
pub const TPM2_ALG_SHA384: u16 = 0x000c;

/// TPM2 algorithm: SHA-512.
pub const TPM2_ALG_SHA512: u16 = 0x000d;

/// TPM2 algorithm: none.
pub const TPM2_ALG_NULL: u16 = 0x0010;

/// TPM2 session type: a policy session.
pub const TPM2_SE_POLICY: u8 = 0x01;

/// TPM2 session type: a trial session, which computes a policy digest.
pub const TPM2_SE_TRIAL: u8 = 0x03;

/// The handle at which a storage root key is kept.
pub const TPM2_PERSISTENT_SRK: u32 = 0x8100_0001;

/// The longest secret that can be sealed, in bytes.
pub const TPM2_MAX_SYM_DATA: usize = 256;

/// The attributes of a storage root key: fixedTPM, fixedParent,
/// sensitiveDataOrigin, userWithAuth, noDA, restricted and decrypt.
pub const SRK_ATTRIBUTES: u32 = 0x0003_0472;

/// The attributes of a sealed object: fixedTPM and fixedParent.
pub const SEAL_ATTRIBUTES: u32 = 0x0000_0012;

/// The attributes of a sealed object with a PIN: userWithAuth besides.
pub const SEAL_PIN_ATTRIBUTES: u32 = 0x0000_0052;

/// What sealing a secret yields.
pub struct SealResult {
    /// The private and the public part of the sealed object.
    pub blob: Vec<u8>,
    /// The policy digest that the object is sealed to.
    pub policy_hash: Vec<u8>,
    /// The algorithm of the storage root key: "ecc".
    pub primary_alg: &'static str,
    /// The storage root key, serialized.
    pub srk_blob: Vec<u8>,
}

/// A new secret to seal: 32 random bytes. It fails only where the operating
/// system's random number generator does.
pub fn new_secret() -> (r: Result<Secret, Error>)
    ensures
        r matches Ok(s) ==> s@.len() == 32,
{
    secret_from(random_32())
}

/// The secret to seal, by what the random number generator gave: its bytes, or what
/// it failed with.
pub fn secret_from(drawn: Result<Vec<u8>, String>) -> (r: Result<Secret, Error>)
    ensures
        match drawn {
            Ok(raw) => r matches Ok(s) && s@ == raw@,
            Err(why) => r matches Err(e) && e@ == why@,
        },
{
    match drawn {
        Ok(raw) => Ok(Secret::new(raw)),
        Err(why) => Err(Error(why)),
    }
}

// ---------------------------------------------------------------------------
// PCRs
// ---------------------------------------------------------------------------

/// `list` with `n` behind it, unless it is in it.
pub open spec fn with_index(list: Seq<u8>, n: u8) -> Seq<u8> {
    if list.contains(n) {
        list
    } else {
        list.push(n)
    }
}

/// The PCRs that the parts of a selection name, each once, in order; or what is
/// wrong with the first part that names none. An empty part is passed over.
pub open spec fn part_indices(parts: Seq<Seq<char>>) -> Result<Seq<u8>, Seq<char>>
    decreases parts.len(),
{
    if parts.len() == 0 {
        Ok(seq![])
    } else {
        match part_indices(parts.drop_last()) {
            Err(e) => Err(e),
            Ok(list) => {
                let p = trim(parts.last());
                if p.len() == 0 {
                    Ok(list)
                } else {
                    match parse_i64_spec(p) {
                        None => Err("Invalid PCR index '"@ + p + "'"@),
                        Some(n) => if 0 <= n <= 23 {
                            Ok(with_index(list, n as u8))
                        } else {
                            Err("PCR index "@ + dec(n as int) + " out of range (0-23)"@)
                        },
                    }
                }
            },
        }
    }
}

/// The PCRs that a selection such as "7+11" names, at least one.
pub open spec fn pcr_indices(pcrs: Seq<char>) -> Result<Seq<u8>, Seq<char>> {
    match part_indices(split(pcrs, '+')) {
        Err(e) => Err(e),
        Ok(list) => if list.len() == 0 {
            Err("PCR selection must not be empty"@)
        } else {
            Ok(list)
        },
    }
}

proof fn lemma_part_indices_err(parts: Seq<Seq<char>>, n: int)
    requires
        0 <= n <= parts.len(),
        part_indices(parts.take(n)) is Err,
    ensures
        part_indices(parts) == part_indices(parts.take(n)),
    decreases parts.len(),
{
    if n < parts.len() {
        assert(parts.drop_last().take(n) =~= parts.take(n));
        lemma_part_indices_err(parts.drop_last(), n);
    } else {
        assert(parts.take(n) =~= parts);
    }
}

fn has_index(list: &Vec<u8>, n: u8) -> (r: bool)
    ensures
        r == list@.contains(n),
{
    for i in 0..list.len()
        invariant
            forall|k: int| 0 <= k < i ==> list@[k] != n,
    {
        if list[i] == n {
            assert(list@[i as int] == n);
            return true;
        }
    }
    false
}

/// The PCRs that a selection such as "7+11" names. White space and empty parts
/// are passed over; an index is 0 to 23.
pub fn parse_pcr_indices(pcrs: &str) -> (r: Result<Vec<u8>, Error>)
    ensures
        match r {
            Ok(v) => pcr_indices(pcrs@) == Ok::<Seq<u8>, Seq<char>>(v@),
            Err(e) => pcr_indices(pcrs@) == Err::<Seq<u8>, Seq<char>>(e@),
        },
{
    let c = chars_of(pcrs);
    let parts = split_chars(c.as_slice(), '+');
    let ghost t = texts(parts@);
    let mut out: Vec<u8> = Vec::new();
    assert(out@ =~= seq![]);
    for i in 0..parts.len()
        invariant
            t == texts(parts@),
            t == split(pcrs@, '+'),
            part_indices(t.take(i as int)) == Ok::<Seq<u8>, Seq<char>>(out@),
    {
        assert(t.take(i + 1).drop_last() =~= t.take(i as int));
        let p = trim_str(parts[i].as_str());
        if !p.as_str().is_empty() {
            let d = chars_of(p.as_str());
            match parse_i64(d.as_slice()) {
                None => {
                    proof {
                        lemma_part_indices_err(t, i + 1);
                    }
                    return Err(Error(concat3("Invalid PCR index '", p.as_str(), "'")));
                },
                Some(n) => {
                    if n < 0 || n > 23 {
                        proof {
                            lemma_part_indices_err(t, i + 1);
                        }
                        let text = dec_i64(n);
                        return Err(
                            Error(concat3("PCR index ", text.as_str(), " out of range (0-23)")),
                        );
                    }
                    let n = n as u8;
                    if !has_index(&out, n) {
                        out.push(n);
                    }
                },
            }
        }
    }
    assert(t.take(t.len() as int) =~= t);
    if out.len() == 0 {
        return Err(Error::new("PCR selection must not be empty"));
    }
    Ok(out)
}

/// The algorithm of a PCR bank; SHA-256 for a name that is not known.
pub open spec fn bank_alg(bank: Seq<char>) -> u16 {
    if bank == "sha1"@ {
        TPM2_ALG_SHA1
    } else if bank == "sha384"@ {
        TPM2_ALG_SHA384
    } else if bank == "sha512"@ {
        TPM2_ALG_SHA512
    } else {
        TPM2_ALG_SHA256
    }
}

/// The algorithm of a PCR bank; SHA-256 for a name that is not known.
pub fn pcr_bank_to_alg(bank: &str) -> (r: u16)
    ensures
        r == bank_alg(bank@),
{
    if str_eq(bank, "sha1") {
        TPM2_ALG_SHA1
    } else if str_eq(bank, "sha384") {
        TPM2_ALG_SHA384
    } else if str_eq(bank, "sha512") {
        TPM2_ALG_SHA512
    } else {
        TPM2_ALG_SHA256
    }
}

/// A selection of PCRs of one bank, in the layout of a TPMS_PCR_SELECTION: three
/// bytes, in which bit `n % 8` of byte `n / 8` stands for PCR `n`.
#[derive(Clone, Copy, Debug)]
pub struct PcrSelection {
    pub hash: u16,
    pub sizeof_select: u8,
    pub pcr_select: (u8, u8, u8),
}

/// The bit `b`, if `list` holds `n`.
pub open spec fn pcr_bit(list: Seq<u8>, n: int, b: int) -> int {
    if list.contains(n as u8) {
        b
    } else {
        0
    }
}

/// The byte of a selection for the eight PCRs from `n` on.
pub open spec fn pcr_byte(list: Seq<u8>, n: int) -> u8 {
    (pcr_bit(list, n, 1) + pcr_bit(list, n + 1, 2) + pcr_bit(list, n + 2, 4) + pcr_bit(
        list,
        n + 3,
        8,
    ) + pcr_bit(list, n + 4, 16) + pcr_bit(list, n + 5, 32) + pcr_bit(list, n + 6, 64) + pcr_bit(
        list,
        n + 7,
        128,
    )) as u8
}

/// The selection of the PCRs `list` of the bank `hash`.
pub open spec fn selection_of(hash: u16, list: Seq<u8>) -> PcrSelection {
    PcrSelection {
        hash,
        sizeof_select: 3,
        pcr_select: (pcr_byte(list, 0), pcr_byte(list, 8), pcr_byte(list, 16)),
    }
}

fn bit_for(list: &Vec<u8>, n: u8, b: u8) -> (r: u8)
    ensures
        r == pcr_bit(list@, n as int, b as int),
        r == b || r == 0,
{
    if has_index(list, n) {
        b
    } else {
        0
    }
}

fn byte_for(list: &Vec<u8>, n: u8) -> (r: u8)
    requires
        n <= 16,
    ensures
        r == pcr_byte(list@, n as int),
{
    bit_for(list, n, 1) + bit_for(list, n + 1, 2) + bit_for(list, n + 2, 4) + bit_for(
        list,
        n + 3,
        8,
    ) + bit_for(list, n + 4, 16) + bit_for(list, n + 5, 32) + bit_for(list, n + 6, 64) + bit_for(
        list,
        n + 7,
        128,
    )
}

/// The selection of the PCRs `pcrs` of the bank `hash`.
pub open spec fn selection(hash: u16, pcrs: Seq<char>) -> Result<PcrSelection, Seq<char>> {
    match pcr_indices(pcrs) {
        Ok(list) => Ok(selection_of(hash, list)),
        Err(e) => Err(e),
    }
}

/// The selection of the PCRs `pcrs` of the bank `bank`.
pub fn build_pcr_selection_list(bank: u16, pcrs: &str) -> (r: Result<PcrSelection, Error>)
    ensures
        match r {
            Ok(v) => selection(bank, pcrs@) == Ok::<PcrSelection, Seq<char>>(v),
            Err(e) => selection(bank, pcrs@) == Err::<PcrSelection, Seq<char>>(e@),
        },
{
    match parse_pcr_indices(pcrs) {
        Ok(list) => Ok(
            PcrSelection {
                hash: bank,
                sizeof_select: 3,
                pcr_select: (byte_for(&list, 0), byte_for(&list, 8), byte_for(&list, 16)),
            },
        ),
        Err(e) => Err(e),
    }
}

proof fn lemma_part_indices(parts: Seq<Seq<char>>)
    ensures
        part_indices(parts) matches Ok(list) ==> list.no_duplicates() && forall|i: int|
            0 <= i < list.len() ==> #[trigger] list[i] <= 23,
    decreases parts.len(),
{
    if parts.len() > 0 {
        lemma_part_indices(parts.drop_last());
    }
}

/// The PCRs of a selection are different, are 0 to 23, and there is at least one.
pub proof fn law_pcr_indices(pcrs: Seq<char>)
    ensures
        pcr_indices(pcrs) matches Ok(list) ==> list.len() > 0 && list.no_duplicates() && forall|
            i: int,
        |
            0 <= i < list.len() ==> #[trigger] list[i] <= 23,
{
    lemma_part_indices(split(pcrs, '+'));
}

// ---------------------------------------------------------------------------
// Candidates
// ---------------------------------------------------------------------------

/// The tokens that ask for a PIN, if `pin` holds, and else those that do not, in
/// their order.
pub open spec fn by_pin(tokens: Seq<Tpm2Ref>, pin: bool) -> Seq<Tpm2Ref>
    decreases tokens.len(),
{
    if tokens.len() == 0 {
        seq![]
    } else {
        let before = by_pin(tokens.drop_last(), pin);
        if tokens.last().pin_required == pin {
            before.push(tokens.last())
        } else {
            before
        }
    }
}

/// The tokens to try, in order: with a PIN those that ask for one come first;
/// without one they are left out.
pub open spec fn candidates(tokens: Seq<Tpm2Ref>, pin_provided: bool) -> Seq<Tpm2Ref> {
    if pin_provided {
        by_pin(tokens, true) + by_pin(tokens, false)
    } else {
        by_pin(tokens, false)
    }
}

/// What the tokens that `r` refers to hold.
pub open spec fn ref_views(r: Seq<&Tpm2TokenRef>) -> Seq<Tpm2Ref> {
    Seq::new(r.len(), |i: int| r[i]@)
}

fn push_by_pin<'a>(tokens: &'a Vec<Tpm2TokenRef>, pin: bool, out: &mut Vec<&'a Tpm2TokenRef>)
    ensures
        ref_views(final(out)@) == ref_views(old(out)@) + by_pin(views(tokens@), pin),
{
    let ghost t = views(tokens@);
    let ghost first = ref_views(out@);
    assert(ref_views(out@) =~= first + by_pin(t.take(0), pin));
    for i in 0..tokens.len()
        invariant
            t == views(tokens@),
            ref_views(out@) == first + by_pin(t.take(i as int), pin),
    {
        assert(t.take(i + 1).drop_last() =~= t.take(i as int));
        if tokens[i].pin_required == pin {
            let ghost before = out@;
            out.push(&tokens[i]);
            assert(ref_views(out@) =~= ref_views(before).push(t[i as int]));
            assert(ref_views(out@) =~= first + by_pin(t.take(i + 1), pin));
        }
    }
    assert(t.take(t.len() as int) =~= t);
}

/// The tokens to try, in order: with a PIN those that ask for one come first;
/// without one they are left out.
pub fn candidate_tokens<'a>(tokens: &'a Vec<Tpm2TokenRef>, pin_provided: bool) -> (r: Vec<
    &'a Tpm2TokenRef,
>)
    ensures
        ref_views(r@) == candidates(views(tokens@), pin_provided),
{
    let mut r: Vec<&'a Tpm2TokenRef> = Vec::new();
    assert(ref_views(r@) =~= seq![]);
    if pin_provided {
        push_by_pin(tokens, true, &mut r);
    }
    push_by_pin(tokens, false, &mut r);
    assert(ref_views(r@) =~= candidates(views(tokens@), pin_provided));
    r
}

proof fn lemma_by_pin(tokens: Seq<Tpm2Ref>, pin: bool)
    ensures
        forall|i: int|
            0 <= i < by_pin(tokens, pin).len() ==> (#[trigger] by_pin(tokens, pin)[i]).pin_required
                == pin,
        by_pin(tokens, true).len() + by_pin(tokens, false).len() == tokens.len(),
        (by_pin(tokens, true) + by_pin(tokens, false)).to_multiset() == tokens.to_multiset(),
    decreases tokens.len(),
{
    broadcast use vstd::seq_lib::group_to_multiset_ensures;

    let a = by_pin(tokens, true);
    let b = by_pin(tokens, false);
    if tokens.len() > 0 {
        let rest = tokens.drop_last();
        let x = tokens.last();
        let c = by_pin(rest, true);
        let d = by_pin(rest, false);
        lemma_by_pin(rest, pin);
        assert(tokens =~= rest.push(x));
        if x.pin_required {
            assert(a + b =~= (c + d).insert(c.len() as int, x));
            assert((c + d).insert(c.len() as int, x).remove(c.len() as int) =~= c + d);
            assert((a + b)[c.len() as int] == x);
            assert((a + b).contains(x));
            assert((a + b).to_multiset().remove(x).insert(x) =~= (a + b).to_multiset());
        } else {
            assert(a + b =~= (c + d).push(x));
        }
    } else {
        assert(a + b =~= tokens);
    }
}

/// Without a PIN no token that asks for one is tried. With a PIN every token is
/// tried, and none that asks for a PIN comes behind one that does not.
pub proof fn law_candidate_order(tokens: Seq<Tpm2Ref>)
    ensures
        forall|i: int|
            0 <= i < candidates(tokens, false).len() ==> !(#[trigger] candidates(
                tokens,
                false,
            )[i]).pin_required,
        candidates(tokens, true).to_multiset() == tokens.to_multiset(),
        forall|i: int, j: int|
            #![trigger candidates(tokens, true)[i], candidates(tokens, true)[j]]
            0 <= i < j < candidates(tokens, true).len() && candidates(tokens, true)[j].pin_required
                ==> candidates(tokens, true)[i].pin_required,
{
    lemma_by_pin(tokens, true);
    lemma_by_pin(tokens, false);
}

/// The TPM to talk to: the first of the given settings that is not empty, and
/// else the kernel's resource manager.
pub open spec fn tcti_of(settings: Seq<Option<Seq<char>>>) -> Seq<char>
    decreases settings.len(),
{
    if settings.len() == 0 {
        "device:/dev/tpmrm0"@
    } else {
        match settings[0] {
            Some(s) => if s.len() > 0 {
                s
            } else {
                tcti_of(settings.skip(1))
            },
            None => tcti_of(settings.skip(1)),
        }
    }
}

/// What a list of settings holds.
pub open spec fn setting_texts(v: Seq<Option<String>>) -> Seq<Option<Seq<char>>> {
    Seq::new(v.len(), |i: int| crate::text::opt_text(v[i]))
}

/// The TPM to talk to, by the values of the environment variables
/// TPM2TOOLS_TCTI, TCTI and TEST_TCTI, in that order.
pub fn tcti_conf(settings: &Vec<Option<String>>) -> (r: String)
    ensures
        r@ == tcti_of(setting_texts(settings@)),
{
    let ghost t = setting_texts(settings@);
    assert(t.skip(0) =~= t);
    for i in 0..settings.len()
        invariant
            t == setting_texts(settings@),
            tcti_of(t) == tcti_of(t.skip(i as int)),
    {
        assert(t.skip(i as int)[0] == t[i as int]);
        assert(t.skip(i as int).skip(1) =~= t.skip(i + 1));
        match &settings[i] {
            Some(s) => {
                if !s.as_str().is_empty() {
                    return s.clone();
                }
            },
            None => {},
        }
    }
    "device:/dev/tpmrm0".to_string()
}

/// The bits of a selection: in the byte for the PCRs from `n` on, each of the
/// eight bits is set if and only if its PCR is selected.
pub proof fn law_selection_bits(list: Seq<u8>, n: int)
    requires
        0 <= n <= 16,
    ensures
        pcr_byte(list, n) % 2 == 1 <==> list.contains(n as u8),
        pcr_byte(list, n) / 2 % 2 == 1 <==> list.contains((n + 1) as u8),
        pcr_byte(list, n) / 4 % 2 == 1 <==> list.contains((n + 2) as u8),
        pcr_byte(list, n) / 8 % 2 == 1 <==> list.contains((n + 3) as u8),
        pcr_byte(list, n) / 16 % 2 == 1 <==> list.contains((n + 4) as u8),
        pcr_byte(list, n) / 32 % 2 == 1 <==> list.contains((n + 5) as u8),
        pcr_byte(list, n) / 64 % 2 == 1 <==> list.contains((n + 6) as u8),
        pcr_byte(list, n) / 128 % 2 == 1 <==> list.contains((n + 7) as u8),
{
}

// ---------------------------------------------------------------------------
// The TPM
// ---------------------------------------------------------------------------

/// Work for the TPM.
pub enum TpmRequest {
    /// Load the transport `conf`: [`TpmAnswer::Status`].
    OpenTcti { conf: String },
    /// Begin to talk to the TPM: [`TpmAnswer::Status`].
    OpenEsys,
    /// Find the storage root key at [`TPM2_PERSISTENT_SRK`]: [`TpmAnswer::Handle`].
    PersistentSrk,
    /// Create a storage root key with those attributes below the owner hierarchy,
    /// with an empty authorization: NIST P-256, AES-128-CFB, no scheme:
    /// [`TpmAnswer::Handle`].
    CreatePrimary { attributes: u32 },
    /// Serialize a key: [`TpmAnswer::Bytes`].
    Serialize { handle: u32 },
    /// Start a session without a key, with SHA-256: [`TpmAnswer::Handle`].
    StartSession { session_type: u8 },
    /// Bind a session to the current values of PCRs: [`TpmAnswer::Status`].
    PolicyPcr { session: u32, selection: PcrSelection },
    /// Bind a session to the authorization of the object: [`TpmAnswer::Status`].
    PolicyAuthValue { session: u32 },
    /// The policy digest of a session: [`TpmAnswer::Bytes`].
    PolicyDigest { session: u32 },
    /// Seal `data` below `parent`: [`TpmAnswer::Status`].
    Create { parent: u32, attributes: u32, policy: Vec<u8>, auth: Secret, data: Secret },
    /// The private part of what was sealed: [`TpmAnswer::Bytes`].
    MarshalPrivate,
    /// The public part of what was sealed: [`TpmAnswer::Bytes`].
    MarshalPublic,
    /// Read the private part of a sealed object from the start of `blob`:
    /// [`TpmAnswer::Status`].
    UnmarshalPrivate { blob: Vec<u8> },
    /// Read the public part from what comes behind it: [`TpmAnswer::Status`].
    UnmarshalPublic,
    /// Load the object that was read below `parent`: [`TpmAnswer::Handle`].
    Load { parent: u32 },
    /// Give the authorization of an object; the answer does not matter.
    SetAuth { handle: u32, auth: Secret },
    /// Unseal an object: [`TpmAnswer::Data`].
    Unseal { object: u32, session: u32 },
    /// Free a handle; the answer does not matter.
    Flush { handle: u32 },
}

/// The contents of a [`TpmRequest`].
#[verifier::ext_equal]
pub ghost enum TpmAsk {
    OpenTcti { conf: Seq<char> },
    OpenEsys,
    PersistentSrk,
    CreatePrimary { attributes: u32 },
    Serialize { handle: u32 },
    StartSession { session_type: u8 },
    PolicyPcr { session: u32, selection: PcrSelection },
    PolicyAuthValue { session: u32 },
    PolicyDigest { session: u32 },
    Create { parent: u32, attributes: u32, policy: Seq<u8>, auth: Seq<u8>, data: Seq<u8> },
    MarshalPrivate,
    MarshalPublic,
    UnmarshalPrivate { blob: Seq<u8> },
    UnmarshalPublic,
    Load { parent: u32 },
    SetAuth { handle: u32, auth: Seq<u8> },
    Unseal { object: u32, session: u32 },
    Flush { handle: u32 },
}

impl View for TpmRequest {
    type V = TpmAsk;

    open spec fn view(&self) -> TpmAsk {
        match *self {
            TpmRequest::OpenTcti { conf } => TpmAsk::OpenTcti { conf: conf@ },
            TpmRequest::OpenEsys => TpmAsk::OpenEsys,
            TpmRequest::PersistentSrk => TpmAsk::PersistentSrk,
            TpmRequest::CreatePrimary { attributes } => TpmAsk::CreatePrimary { attributes },
            TpmRequest::Serialize { handle } => TpmAsk::Serialize { handle },
            TpmRequest::StartSession { session_type } => TpmAsk::StartSession { session_type },
            TpmRequest::PolicyPcr { session, selection } => TpmAsk::PolicyPcr { session, selection },
            TpmRequest::PolicyAuthValue { session } => TpmAsk::PolicyAuthValue { session },
            TpmRequest::PolicyDigest { session } => TpmAsk::PolicyDigest { session },
            TpmRequest::Create { parent, attributes, policy, auth, data } => TpmAsk::Create {
                parent,
                attributes,
                policy: policy@,
                auth: auth@,
                data: data@,
            },
            TpmRequest::MarshalPrivate => TpmAsk::MarshalPrivate,
            TpmRequest::MarshalPublic => TpmAsk::MarshalPublic,
            TpmRequest::UnmarshalPrivate { blob } => TpmAsk::UnmarshalPrivate { blob: blob@ },
            TpmRequest::UnmarshalPublic => TpmAsk::UnmarshalPublic,
            TpmRequest::Load { parent } => TpmAsk::Load { parent },
            TpmRequest::SetAuth { handle, auth } => TpmAsk::SetAuth { handle, auth: auth@ },
            TpmRequest::Unseal { object, session } => TpmAsk::Unseal { object, session },
            TpmRequest::Flush { handle } => TpmAsk::Flush { handle },
        }
    }
}

/// Why work for the TPM failed: the code that a call returned, or a text.
pub enum TpmFailure {
    Code(u32),
    Text(String),
}

/// The outcome of a [`TpmRequest`].
pub enum TpmAnswer {
    Status(Result<(), TpmFailure>),
    Handle(Result<u32, TpmFailure>),
    Bytes(Result<Vec<u8>, TpmFailure>),
    Data(Result<Secret, TpmFailure>),
}

/// The message for the failed call `what`.
pub open spec fn tpm_failure(what: Seq<char>, f: TpmFailure) -> Seq<char> {
    match f {
        TpmFailure::Code(rc) => what + " failed: 0x"@ + hex8(rc),
        TpmFailure::Text(e) => e@,
    }
}

fn tpm_error(what: &str, f: &TpmFailure) -> (e: Error)
    ensures
        e@ == tpm_failure(what@, *f),
{
    match f {
        TpmFailure::Code(rc) => {
            let code = hex_u32(*rc);
            Error(concat3(what, " failed: 0x", code.as_str()))
        },
        TpmFailure::Text(e) => Error(e.clone()),
    }
}

/// One request to the TPM, and what came of it.
pub enum TpmStep<T> {
    Ask(TpmRequest),
    Fail(Error, usize),
    Done(T, usize),
}

/// The contents of a [`TpmStep`].
#[verifier::ext_equal]
pub ghost enum TpmStage<T> {
    Ask(TpmAsk),
    Fail(Seq<char>, int),
    Done(T, int),
}

impl<T: View> View for TpmStep<T> {
    type V = TpmStage<T::V>;

    open spec fn view(&self) -> TpmStage<T::V> {
        match *self {
            TpmStep::Ask(r) => TpmStage::Ask(r@),
            TpmStep::Fail(e, n) => TpmStage::Fail(e@, n as int),
            TpmStep::Done(t, n) => TpmStage::Done(t@, n as int),
        }
    }
}

/// A request that is answered with a handle.
pub open spec fn handle_stage(
    ask: TpmAsk,
    what: Seq<char>,
    log: Seq<TpmAnswer>,
    at: int,
) -> TpmStage<u32> {
    if at >= log.len() {
        TpmStage::Ask(ask)
    } else {
        match log[at] {
            TpmAnswer::Handle(Ok(h)) => TpmStage::Done(h, at + 1),
            TpmAnswer::Handle(Err(f)) => TpmStage::Fail(tpm_failure(what, f), at + 1),
            _ => TpmStage::Fail(unexpected(), at + 1),
        }
    }
}

fn ask_handle(ask: TpmRequest, what: &str, log: &Vec<TpmAnswer>, at: usize) -> (r: TpmStep<u32>)
    ensures
        r@ == handle_stage(ask@, what@, log@, at as int),
{
    if at >= log.len() {
        return TpmStep::Ask(ask);
    }
    match &log[at] {
        TpmAnswer::Handle(Ok(h)) => TpmStep::Done(*h, at + 1),
        TpmAnswer::Handle(Err(f)) => TpmStep::Fail(tpm_error(what, f), at + 1),
        _ => TpmStep::Fail(unexpected_error(), at + 1),
    }
}

/// A request that is answered with bytes.
pub open spec fn bytes_stage(
    ask: TpmAsk,
    what: Seq<char>,
    log: Seq<TpmAnswer>,
    at: int,
) -> TpmStage<Seq<u8>> {
    if at >= log.len() {
        TpmStage::Ask(ask)
    } else {
        match log[at] {
            TpmAnswer::Bytes(Ok(b)) => TpmStage::Done(b@, at + 1),
            TpmAnswer::Bytes(Err(f)) => TpmStage::Fail(tpm_failure(what, f), at + 1),
            _ => TpmStage::Fail(unexpected(), at + 1),
        }
    }
}

fn ask_bytes(ask: TpmRequest, what: &str, log: &Vec<TpmAnswer>, at: usize) -> (r: TpmStep<Vec<u8>>)
    ensures
        r@ == bytes_stage(ask@, what@, log@, at as int),
{
    if at >= log.len() {
        return TpmStep::Ask(ask);
    }
    match &log[at] {
        TpmAnswer::Bytes(Ok(b)) => TpmStep::Done(copy_bytes(b.as_slice()), at + 1),
        TpmAnswer::Bytes(Err(f)) => TpmStep::Fail(tpm_error(what, f), at + 1),
        _ => TpmStep::Fail(unexpected_error(), at + 1),
    }
}

/// A request that is answered with a status.
pub open spec fn status_stage(
    ask: TpmAsk,
    what: Seq<char>,
    log: Seq<TpmAnswer>,
    at: int,
) -> TpmStage<()> {
    if at >= log.len() {
        TpmStage::Ask(ask)
    } else {
        match log[at] {
            TpmAnswer::Status(Ok(_)) => TpmStage::Done((), at + 1),
            TpmAnswer::Status(Err(f)) => TpmStage::Fail(tpm_failure(what, f), at + 1),
            _ => TpmStage::Fail(unexpected(), at + 1),
        }
    }
}

fn ask_status(ask: TpmRequest, what: &str, log: &Vec<TpmAnswer>, at: usize) -> (r: TpmStep<()>)
    ensures
        r@ == status_stage(ask@, what@, log@, at as int),
{
    if at >= log.len() {
        return TpmStep::Ask(ask);
    }
    match &log[at] {
        TpmAnswer::Status(Ok(_)) => TpmStep::Done((), at + 1),
        TpmAnswer::Status(Err(f)) => TpmStep::Fail(tpm_error(what, f), at + 1),
        _ => TpmStep::Fail(unexpected_error(), at + 1),
    }
}

/// Beginning to talk to the TPM `conf`.
pub open spec fn connect_stage(conf: Seq<char>, log: Seq<TpmAnswer>, at: int) -> TpmStage<()> {
    if conf.contains('\0') {
        TpmStage::Fail("TCTI configuration contains a NUL byte"@, at)
    } else {
        match status_stage(TpmAsk::OpenTcti { conf }, "Tss2_TctiLdr_Initialize"@, log, at) {
            TpmStage::Done(_, n) => status_stage(TpmAsk::OpenEsys, "Esys_Initialize"@, log, n),
            other => other,
        }
    }
}

fn connect(conf: &str, log: &Vec<TpmAnswer>, at: usize) -> (r: TpmStep<()>)
    ensures
        r@ == connect_stage(conf@, log@, at as int),
{
    if has_nul(conf) {
        return TpmStep::Fail(Error::new("TCTI configuration contains a NUL byte"), at);
    }
    match ask_status(
        TpmRequest::OpenTcti { conf: conf.to_string() },
        "Tss2_TctiLdr_Initialize",
        log,
        at,
    ) {
        TpmStep::Done(_, n) => ask_status(TpmRequest::OpenEsys, "Esys_Initialize", log, n),
        other => other,
    }
}

/// How far a run has come: a request, or the end, with the handles that are still
/// held and the number of answers that were used.
pub enum TpmRun<T> {
    Ask(TpmRequest),
    End(Result<T, Error>, Vec<u32>, usize),
}

/// The contents of a [`TpmRun`].
#[verifier::ext_equal]
pub ghost enum Run<T> {
    Ask(TpmAsk),
    End(Result<T, Seq<char>>, Seq<u32>, int),
}

/// What a result holds.
pub open spec fn result_view<T: View>(r: Result<T, Error>) -> Result<T::V, Seq<char>> {
    match r {
        Ok(t) => Ok(t@),
        Err(e) => Err(e@),
    }
}

impl<T: View> View for TpmRun<T> {
    type V = Run<T::V>;

    open spec fn view(&self) -> Run<T::V> {
        match *self {
            TpmRun::Ask(r) => Run::Ask(r@),
            TpmRun::End(t, held, n) => Run::End(result_view(t), held@, n as int),
        }
    }
}

/// A run that goes on with `stage` while `held` is held, and ends where it fails.
pub open spec fn failed_run<T, U>(stage: TpmStage<T>, held: Seq<u32>) -> Run<U> {
    match stage {
        TpmStage::Ask(a) => Run::Ask(a),
        TpmStage::Fail(e, n) => Run::End(Err(e), held, n),
        TpmStage::Done(_, n) => Run::End(Err(unexpected()), held, n),
    }
}

/// Getting the storage root key: the one that the TPM keeps or, where it keeps
/// none, a new one, which is then held. Gives the key, whether it is new, and the
/// key serialized.
pub open spec fn srk_run(log: Seq<TpmAnswer>, at: int) -> Run<(u32, bool, Seq<u8>)> {
    if at >= log.len() {
        Run::Ask(TpmAsk::PersistentSrk)
    } else {
        match log[at] {
            TpmAnswer::Handle(Ok(srk)) => match bytes_stage(
                TpmAsk::Serialize { handle: srk },
                "Esys_TR_Serialize"@,
                log,
                at + 1,
            ) {
                TpmStage::Done(blob, n) => Run::End(Ok((srk, false, blob)), seq![], n),
                other => failed_run(other, seq![]),
            },
            TpmAnswer::Handle(Err(_)) => match handle_stage(
                TpmAsk::CreatePrimary { attributes: SRK_ATTRIBUTES },
                "Esys_CreatePrimary"@,
                log,
                at + 1,
            ) {
                TpmStage::Done(srk, n) => match bytes_stage(
                    TpmAsk::Serialize { handle: srk },
                    "Esys_TR_Serialize"@,
                    log,
                    n,
                ) {
                    TpmStage::Done(blob, m) => Run::End(Ok((srk, true, blob)), seq![srk], m),
                    other => failed_run(other, seq![srk]),
                },
                other => failed_run(other, seq![]),
            },
            _ => Run::End(Err(unexpected()), seq![], at + 1),
        }
    }
}

fn no_handles() -> (r: Vec<u32>)
    ensures
        r@ == Seq::<u32>::empty(),
{
    Vec::new()
}

fn one_handle(h: u32) -> (r: Vec<u32>)
    ensures
        r@ == seq![h],
{
    let mut r: Vec<u32> = Vec::new();
    r.push(h);
    assert(r@ =~= seq![h]);
    r
}

/// Gets the storage root key.
fn get_srk(log: &Vec<TpmAnswer>, at: usize) -> (r: TpmRun<(u32, bool, Vec<u8>)>)
    ensures
        r@ == srk_run(log@, at as int),
{
    if at >= log.len() {
        return TpmRun::Ask(TpmRequest::PersistentSrk);
    }
    match &log[at] {
        TpmAnswer::Handle(Ok(h)) => {
            let srk: u32 = *h;
            match ask_bytes(
                TpmRequest::Serialize { handle: srk },
                "Esys_TR_Serialize",
                log,
                at + 1,
            ) {
                TpmStep::Ask(r) => TpmRun::Ask(r),
                TpmStep::Fail(e, n) => TpmRun::End(Err(e), no_handles(), n),
                TpmStep::Done(blob, n) => TpmRun::End(Ok((srk, false, blob)), no_handles(), n),
            }
        },
        TpmAnswer::Handle(Err(_)) => {
            match ask_handle(
                TpmRequest::CreatePrimary { attributes: SRK_ATTRIBUTES },
                "Esys_CreatePrimary",
                log,
                at + 1,
            ) {
                TpmStep::Ask(r) => TpmRun::Ask(r),
                TpmStep::Fail(e, n) => TpmRun::End(Err(e), no_handles(), n),
                TpmStep::Done(srk, n) => match ask_bytes(
                    TpmRequest::Serialize { handle: srk },
                    "Esys_TR_Serialize",
                    log,
                    n,
                ) {
                    TpmStep::Ask(r) => TpmRun::Ask(r),
                    TpmStep::Fail(e, m) => TpmRun::End(Err(e), one_handle(srk), m),
                    TpmStep::Done(blob, m) => TpmRun::End(
                        Ok((srk, true, blob)),
                        one_handle(srk),
                        m,
                    ),
                },
            }
        },
        _ => TpmRun::End(Err(unexpected_error()), no_handles(), at + 1),
    }
}

/// The contents of a [`SealResult`].
#[verifier::ext_equal]
pub ghost struct Sealed {
    pub blob: Seq<u8>,
    pub policy_hash: Seq<u8>,
    pub primary_alg: Seq<char>,
    pub srk_blob: Seq<u8>,
}

impl View for SealResult {
    type V = Sealed;

    open spec fn view(&self) -> Sealed {
        Sealed {
            blob: self.blob@,
            policy_hash: self.policy_hash@,
            primary_alg: self.primary_alg@,
            srk_blob: self.srk_blob@,
        }
    }
}

/// The authorization that a PIN gives: its SHA-256 digest, or none without a PIN.
pub open spec fn pin_auth(pin: Seq<char>) -> Seq<u8> {
    if pin.len() == 0 {
        seq![]
    } else {
        sha256(encode_utf8(pin))
    }
}

fn pin_digest(pin: &str) -> (r: Secret)
    ensures
        r@ == pin_auth(pin@),
{
    if pin.is_empty() {
        let none: Vec<u8> = Vec::new();
        assert(none@ =~= seq![]);
        Secret::new(none)
    } else {
        Secret::new(sha256_of(pin.as_bytes()))
    }
}

/// Freeing `handle`; whatever the TPM says to that, the run goes on.
pub open spec fn freed(handle: u32, log: Seq<TpmAnswer>, at: int) -> TpmStage<()> {
    if at >= log.len() {
        TpmStage::Ask(TpmAsk::Flush { handle })
    } else {
        TpmStage::Done((), at + 1)
    }
}

/// Binding the session `session` to PCRs and, if `auth` holds, to the
/// authorization of the object.
pub open spec fn policy_stage(
    session: u32,
    selection: PcrSelection,
    auth: bool,
    log: Seq<TpmAnswer>,
    at: int,
) -> TpmStage<()> {
    match status_stage(TpmAsk::PolicyPcr { session, selection }, "Esys_PolicyPCR"@, log, at) {
        TpmStage::Done(_, n) => if auth {
            status_stage(TpmAsk::PolicyAuthValue { session }, "Esys_PolicyAuthValue"@, log, n)
        } else {
            TpmStage::Done((), n)
        },
        other => other,
    }
}

fn apply_policy(
    session: u32,
    selection: PcrSelection,
    auth: bool,
    log: &Vec<TpmAnswer>,
    at: usize,
) -> (r: TpmStep<()>)
    ensures
        r@ == policy_stage(session, selection, auth, log@, at as int),
{
    match ask_status(TpmRequest::PolicyPcr { session, selection }, "Esys_PolicyPCR", log, at) {
        TpmStep::Done(_, n) => {
            if auth {
                ask_status(TpmRequest::PolicyAuthValue { session }, "Esys_PolicyAuthValue", log, n)
            } else {
                TpmStep::Done((), n)
            }
        },
        other => other,
    }
}

/// Computing the policy digest in a trial session, which is freed again; `held`
/// is held all the time.
pub open spec fn trial_run(
    selection: PcrSelection,
    pin: Seq<char>,
    held: Seq<u32>,
    log: Seq<TpmAnswer>,
    at: int,
) -> Run<Seq<u8>> {
    match handle_stage(
        TpmAsk::StartSession { session_type: TPM2_SE_TRIAL },
        "Esys_StartAuthSession (trial)"@,
        log,
        at,
    ) {
        TpmStage::Done(session, n) => match policy_stage(
            session,
            selection,
            pin.len() > 0,
            log,
            n,
        ) {
            TpmStage::Done(_, m) => match bytes_stage(
                TpmAsk::PolicyDigest { session },
                "Esys_PolicyGetDigest"@,
                log,
                m,
            ) {
                TpmStage::Done(digest, k) => match freed(session, log, k) {
                    TpmStage::Done(_, j) => Run::End(Ok(digest), held, j),
                    other => failed_run(other, held),
                },
                other => failed_run(other, held.push(session)),
            },
            other => failed_run(other, held.push(session)),
        },
        other => failed_run(other, held),
    }
}

fn held_with(held: &Vec<u32>, h: u32) -> (r: Vec<u32>)
    ensures
        r@ == held@.push(h),
{
    let mut r = held.clone();
    assert(r@ =~= held@);
    r.push(h);
    r
}

fn copy_handles(held: &Vec<u32>) -> (r: Vec<u32>)
    ensures
        r@ == held@,
{
    let r = held.clone();
    assert(r@ =~= held@);
    r
}

fn trial_digest(
    selection: PcrSelection,
    pin: &str,
    held: &Vec<u32>,
    log: &Vec<TpmAnswer>,
    at: usize,
) -> (r: TpmRun<Vec<u8>>)
    ensures
        r@ == trial_run(selection, pin@, held@, log@, at as int),
{
    let (session, n) = match ask_handle(
        TpmRequest::StartSession { session_type: TPM2_SE_TRIAL },
        "Esys_StartAuthSession (trial)",
        log,
        at,
    ) {
        TpmStep::Ask(r) => {
            return TpmRun::Ask(r);
        },
        TpmStep::Fail(e, n) => {
            return TpmRun::End(Err(e), copy_handles(held), n);
        },
        TpmStep::Done(session, n) => (session, n),
    };
    let m = match apply_policy(session, selection, !pin.is_empty(), log, n) {
        TpmStep::Ask(r) => {
            return TpmRun::Ask(r);
        },
        TpmStep::Fail(e, m) => {
            return TpmRun::End(Err(e), held_with(held, session), m);
        },
        TpmStep::Done(_, m) => m,
    };
    match ask_bytes(TpmRequest::PolicyDigest { session }, "Esys_PolicyGetDigest", log, m) {
        TpmStep::Ask(r) => TpmRun::Ask(r),
        TpmStep::Fail(e, k) => TpmRun::End(Err(e), held_with(held, session), k),
        TpmStep::Done(digest, k) => {
            if k >= log.len() {
                return TpmRun::Ask(TpmRequest::Flush { handle: session });
            }
            TpmRun::End(Ok(digest), copy_handles(held), k + 1)
        },
    }
}

/// Sealing `secret` to the policy `policy` below `srk`: the blob.
pub open spec fn create_stage(
    srk: u32,
    policy: Seq<u8>,
    secret: Seq<u8>,
    pin: Seq<char>,
    log: Seq<TpmAnswer>,
    at: int,
) -> TpmStage<Seq<u8>> {
    if secret.len() > TPM2_MAX_SYM_DATA {
        TpmStage::Fail(
            "Secret too large to seal ("@ + dec(secret.len() as int) + " > 256 bytes)"@,
            at,
        )
    } else {
        match status_stage(
            TpmAsk::Create {
                parent: srk,
                attributes: if pin.len() > 0 {
                    SEAL_PIN_ATTRIBUTES
                } else {
                    SEAL_ATTRIBUTES
                },
                policy,
                auth: pin_auth(pin),
                data: secret,
            },
            "Esys_Create (seal)"@,
            log,
            at,
        ) {
            TpmStage::Ask(a) => TpmStage::Ask(a),
            TpmStage::Fail(e, n) => TpmStage::Fail(e, n),
            TpmStage::Done(_, n) => match bytes_stage(
                TpmAsk::MarshalPrivate,
                "Marshal"@,
                log,
                n,
            ) {
                TpmStage::Done(private, m) => match bytes_stage(
                    TpmAsk::MarshalPublic,
                    "Marshal"@,
                    log,
                    m,
                ) {
                    TpmStage::Done(public, k) => TpmStage::Done(private + public, k),
                    other => other,
                },
                other => other,
            },
        }
    }
}

fn create_sealed(
    srk: u32,
    policy: &Vec<u8>,
    secret: &Secret,
    pin: &str,
    log: &Vec<TpmAnswer>,
    at: usize,
) -> (r: TpmStep<Vec<u8>>)
    ensures
        r@ == create_stage(srk, policy@, secret@, pin@, log@, at as int),
{
    let size: usize = secret.as_bytes().len();
    if size > TPM2_MAX_SYM_DATA {
        let text = dec_u64(size as u64);
        return TpmStep::Fail(
            Error(concat3("Secret too large to seal (", text.as_str(), " > 256 bytes)")),
            at,
        );
    }
    let attributes: u32 = if pin.is_empty() { SEAL_ATTRIBUTES } else { SEAL_PIN_ATTRIBUTES };
    let ask = TpmRequest::Create {
        parent: srk,
        attributes,
        policy: copy_bytes(policy.as_slice()),
        auth: pin_digest(pin),
        data: secret.copy(),
    };
    let n = match ask_status(ask, "Esys_Create (seal)", log, at) {
        TpmStep::Ask(r) => {
            return TpmStep::Ask(r);
        },
        TpmStep::Fail(e, n) => {
            return TpmStep::Fail(e, n);
        },
        TpmStep::Done(_, n) => n,
    };
    match ask_bytes(TpmRequest::MarshalPrivate, "Marshal", log, n) {
        TpmStep::Done(private, m) => match ask_bytes(
            TpmRequest::MarshalPublic,
            "Marshal",
            log,
            m,
        ) {
            TpmStep::Done(public, k) => {
                let mut blob = private;
                let mut public = public;
                blob.append(&mut public);
                TpmStep::Done(blob, k)
            },
            other => other,
        },
        other => other,
    }
}

/// Sealing `secret`, up to the point where the handles that are still held are
/// freed.
pub open spec fn seal_run(
    secret: Seq<u8>,
    selection: PcrSelection,
    pin: Seq<char>,
    conf: Seq<char>,
    log: Seq<TpmAnswer>,
) -> Run<Sealed> {
    match connect_stage(conf, log, 0) {
        TpmStage::Done(_, n) => match srk_run(log, n) {
            Run::Ask(a) => Run::Ask(a),
            Run::End(Err(e), held, m) => Run::End(Err(e), held, m),
            Run::End(Ok((srk, new, srk_blob)), held, m) => match trial_run(
                selection,
                pin,
                held,
                log,
                m,
            ) {
                Run::Ask(a) => Run::Ask(a),
                Run::End(Err(e), still, k) => Run::End(Err(e), still, k),
                Run::End(Ok(policy_hash), still, k) => match create_stage(
                    srk,
                    policy_hash,
                    secret,
                    pin,
                    log,
                    k,
                ) {
                    TpmStage::Done(blob, j) => {
                        let sealed = Sealed {
                            blob,
                            policy_hash,
                            primary_alg: "ecc"@,
                            srk_blob,
                        };
                        if new {
                            match freed(srk, log, j) {
                                TpmStage::Done(_, i) => Run::End(Ok(sealed), seq![], i),
                                other => failed_run(other, still),
                            }
                        } else {
                            Run::End(Ok(sealed), still, j)
                        }
                    },
                    other => failed_run(other, still),
                },
            },
        },
        other => failed_run(other, seq![]),
    }
}

fn seal_inner(
    secret: &Secret,
    selection: PcrSelection,
    pin: &str,
    conf: &str,
    log: &Vec<TpmAnswer>,
) -> (r: TpmRun<SealResult>)
    ensures
        r@ == seal_run(secret@, selection, pin@, conf@, log@),
{
    let n = match connect(conf, log, 0) {
        TpmStep::Ask(r) => {
            return TpmRun::Ask(r);
        },
        TpmStep::Fail(e, n) => {
            return TpmRun::End(Err(e), no_handles(), n);
        },
        TpmStep::Done(_, n) => n,
    };
    let (srk, new, srk_blob, held, m) = match get_srk(log, n) {
        TpmRun::Ask(r) => {
            return TpmRun::Ask(r);
        },
        TpmRun::End(Err(e), held, m) => {
            return TpmRun::End(Err(e), held, m);
        },
        TpmRun::End(Ok((srk, new, blob)), held, m) => (srk, new, blob, held, m),
    };
    let (policy_hash, still, k) = match trial_digest(selection, pin, &held, log, m) {
        TpmRun::Ask(r) => {
            return TpmRun::Ask(r);
        },
        TpmRun::End(Err(e), still, k) => {
            return TpmRun::End(Err(e), still, k);
        },
        TpmRun::End(Ok(digest), still, k) => (digest, still, k),
    };
    let (blob, j) = match create_sealed(srk, &policy_hash, secret, pin, log, k) {
        TpmStep::Ask(r) => {
            return TpmRun::Ask(r);
        },
        TpmStep::Fail(e, j) => {
            return TpmRun::End(Err(e), still, j);
        },
        TpmStep::Done(blob, j) => (blob, j),
    };
    let sealed = SealResult { blob, policy_hash, primary_alg: "ecc", srk_blob };
    if new {
        if j >= log.len() {
            return TpmRun::Ask(TpmRequest::Flush { handle: srk });
        }
        return TpmRun::End(Ok(sealed), no_handles(), j + 1);
    }
    TpmRun::End(Ok(sealed), still, j)
}

/// What comes next: a request, or the result, with the number of answers that
/// were used.
pub enum TpmNext<T> {
    Ask(TpmRequest),
    Done(Result<T, Error>, usize),
}

/// The contents of a [`TpmNext`].
#[verifier::ext_equal]
pub ghost enum TpmTurn<T> {
    Ask(TpmAsk),
    Done(Result<T, Seq<char>>, int),
}

impl<T: View> View for TpmNext<T> {
    type V = TpmTurn<T::V>;

    open spec fn view(&self) -> TpmTurn<T::V> {
        match *self {
            TpmNext::Ask(r) => TpmTurn::Ask(r@),
            TpmNext::Done(t, n) => TpmTurn::Done(result_view(t), n as int),
        }
    }
}

/// The end of a run: the handles that it still holds are freed one by one,
/// whatever the TPM says to that, and then the result is given.
pub open spec fn finish<T>(run: Run<T>, log: Seq<TpmAnswer>) -> TpmTurn<T> {
    match run {
        Run::Ask(a) => TpmTurn::Ask(a),
        Run::End(result, held, n) => if log.len() < n + held.len() {
            TpmTurn::Ask(TpmAsk::Flush { handle: held[log.len() - n] })
        } else {
            TpmTurn::Done(result, n + held.len())
        },
    }
}

fn finish_run<T: View>(run: TpmRun<T>, log: &Vec<TpmAnswer>) -> (r: TpmNext<T>)
    requires
        run@ matches Run::End(_, _, n) ==> n <= log@.len(),
    ensures
        r@ == finish(run@, log@),
{
    match run {
        TpmRun::Ask(r) => TpmNext::Ask(r),
        TpmRun::End(result, held, n) => {
            let done: usize = log.len() - n;
            if done < held.len() {
                TpmNext::Ask(TpmRequest::Flush { handle: held[done] })
            } else {
                TpmNext::Done(result, n + held.len())
            }
        },
    }
}

/// Sealing `secret`.
pub open spec fn seal_turn(
    secret: Seq<u8>,
    pcrs: Seq<char>,
    pin: Seq<char>,
    conf: Seq<char>,
    log: Seq<TpmAnswer>,
) -> TpmTurn<Sealed> {
    match selection(TPM2_ALG_SHA256, pcrs) {
        Err(e) => TpmTurn::Done(Err(e), 0),
        Ok(sel) => finish(seal_run(secret, sel, pin, conf, log), log),
    }
}

proof fn lemma_seal_run_used(
    secret: Seq<u8>,
    selection: PcrSelection,
    pin: Seq<char>,
    conf: Seq<char>,
    log: Seq<TpmAnswer>,
)
    ensures
        seal_run(secret, selection, pin, conf, log) matches Run::End(_, _, n) ==> 0 <= n
            <= log.len(),
{
}

/// Seals `secret` in the TPM `conf`, bound to the PCRs `pcrs` of the SHA-256 bank
/// and, if `pin` is not empty, to the PIN. Every handle that the TPM gave out is
/// freed before the result is given, on success and on failure.
pub fn seal(secret: &Secret, pcrs: &str, pin: &str, conf: &str, log: &Vec<TpmAnswer>) -> (r: TpmNext<
    SealResult,
>)
    ensures
        r@ == seal_turn(secret@, pcrs@, pin@, conf@, log@),
{
    match build_pcr_selection_list(TPM2_ALG_SHA256, pcrs) {
        Err(e) => TpmNext::Done(Err(e), 0),
        Ok(sel) => {
            proof {
                lemma_seal_run_used(secret@, sel, pin@, conf@, log@);
            }
            finish_run(seal_inner(secret, sel, pin, conf, log), log)
        },
    }
}

/// Loading the object in `blob` below `srk`: its handle.
pub open spec fn load_stage(
    blob: Seq<u8>,
    srk: u32,
    log: Seq<TpmAnswer>,
    at: int,
) -> TpmStage<u32> {
    match status_stage(
        TpmAsk::UnmarshalPrivate { blob },
        "Unmarshal TPM2B_PRIVATE"@,
        log,
        at,
    ) {
        TpmStage::Ask(a) => TpmStage::Ask(a),
        TpmStage::Fail(e, n) => TpmStage::Fail(e, n),
        TpmStage::Done(_, n) => match status_stage(
            TpmAsk::UnmarshalPublic,
            "Unmarshal TPM2B_PUBLIC"@,
            log,
            n,
        ) {
            TpmStage::Ask(a) => TpmStage::Ask(a),
            TpmStage::Fail(e, m) => TpmStage::Fail(e, m),
            TpmStage::Done(_, m) => handle_stage(
                TpmAsk::Load { parent: srk },
                "Esys_Load"@,
                log,
                m,
            ),
        },
    }
}

fn load_object(blob: &Vec<u8>, srk: u32, log: &Vec<TpmAnswer>, at: usize) -> (r: TpmStep<u32>)
    ensures
        r@ == load_stage(blob@, srk, log@, at as int),
{
    let ask = TpmRequest::UnmarshalPrivate { blob: copy_bytes(blob.as_slice()) };
    let n = match ask_status(ask, "Unmarshal TPM2B_PRIVATE", log, at) {
        TpmStep::Ask(r) => {
            return TpmStep::Ask(r);
        },
        TpmStep::Fail(e, n) => {
            return TpmStep::Fail(e, n);
        },
        TpmStep::Done(_, n) => n,
    };
    let m = match ask_status(TpmRequest::UnmarshalPublic, "Unmarshal TPM2B_PUBLIC", log, n) {
        TpmStep::Ask(r) => {
            return TpmStep::Ask(r);
        },
        TpmStep::Fail(e, m) => {
            return TpmStep::Fail(e, m);
        },
        TpmStep::Done(_, m) => m,
    };
    ask_handle(TpmRequest::Load { parent: srk }, "Esys_Load", log, m)
}

/// Giving the PIN to the object `loaded`, if `wanted` holds; whatever the TPM
/// says to that, the run goes on.
pub open spec fn set_auth_stage(
    wanted: bool,
    loaded: u32,
    pin: Seq<char>,
    log: Seq<TpmAnswer>,
    at: int,
) -> TpmStage<()> {
    if !wanted {
        TpmStage::Done((), at)
    } else if at >= log.len() {
        TpmStage::Ask(TpmAsk::SetAuth { handle: loaded, auth: pin_auth(pin) })
    } else {
        TpmStage::Done((), at + 1)
    }
}

/// Unsealing the object `loaded` by a policy session; `held`, which has the
/// object in it, is held all the time.
pub open spec fn unseal_policy_run(
    token: Tpm2Ref,
    selection: PcrSelection,
    loaded: u32,
    held: Seq<u32>,
    log: Seq<TpmAnswer>,
    at: int,
) -> Run<Seq<u8>> {
    match handle_stage(
        TpmAsk::StartSession { session_type: TPM2_SE_POLICY },
        "Esys_StartAuthSession (policy)"@,
        log,
        at,
    ) {
        TpmStage::Done(session, n) => match policy_stage(
            session,
            selection,
            token.pin_required,
            log,
            n,
        ) {
            TpmStage::Done(_, m) => if m >= log.len() {
                Run::Ask(TpmAsk::Unseal { object: loaded, session })
            } else {
                match log[m] {
                    TpmAnswer::Data(Ok(secret)) => Run::End(
                        Ok(secret@),
                        held.push(session),
                        m + 1,
                    ),
                    TpmAnswer::Data(Err(f)) => Run::End(
                        Err(tpm_failure("Esys_Unseal"@, f)),
                        held.push(session),
                        m + 1,
                    ),
                    _ => Run::End(Err(unexpected()), held.push(session), m + 1),
                }
            },
            other => failed_run(other, held.push(session)),
        },
        other => failed_run(other, held),
    }
}

fn unseal_by_policy(
    token: &Tpm2TokenRef,
    selection: PcrSelection,
    loaded: u32,
    held: &Vec<u32>,
    log: &Vec<TpmAnswer>,
    at: usize,
) -> (r: TpmRun<Secret>)
    ensures
        r@ == unseal_policy_run(token@, selection, loaded, held@, log@, at as int),
{
    let (session, n) = match ask_handle(
        TpmRequest::StartSession { session_type: TPM2_SE_POLICY },
        "Esys_StartAuthSession (policy)",
        log,
        at,
    ) {
        TpmStep::Ask(r) => {
            return TpmRun::Ask(r);
        },
        TpmStep::Fail(e, n) => {
            return TpmRun::End(Err(e), copy_handles(held), n);
        },
        TpmStep::Done(session, n) => (session, n),
    };
    let m = match apply_policy(session, selection, token.pin_required, log, n) {
        TpmStep::Ask(r) => {
            return TpmRun::Ask(r);
        },
        TpmStep::Fail(e, m) => {
            return TpmRun::End(Err(e), held_with(held, session), m);
        },
        TpmStep::Done(_, m) => m,
    };
    if m >= log.len() {
        return TpmRun::Ask(TpmRequest::Unseal { object: loaded, session });
    }
    match &log[m] {
        TpmAnswer::Data(Ok(secret)) => TpmRun::End(
            Ok(secret.copy()),
            held_with(held, session),
            m + 1,
        ),
        TpmAnswer::Data(Err(f)) => TpmRun::End(
            Err(tpm_error("Esys_Unseal", f)),
            held_with(held, session),
            m + 1,
        ),
        _ => TpmRun::End(Err(unexpected_error()), held_with(held, session), m + 1),
    }
}

/// Unsealing the secret of `token`, up to the point where the handles that are
/// still held are freed.
pub open spec fn unseal_run(
    token: Tpm2Ref,
    selection: PcrSelection,
    pin: Seq<char>,
    conf: Seq<char>,
    log: Seq<TpmAnswer>,
    at: int,
) -> Run<Seq<u8>> {
    match connect_stage(conf, log, at) {
        TpmStage::Done(_, n) => match srk_run(log, n) {
            Run::Ask(a) => Run::Ask(a),
            Run::End(Err(e), held, m) => Run::End(Err(e), held, m),
            Run::End(Ok((srk, _, _)), held, m) => match load_stage(token.blob, srk, log, m) {
                TpmStage::Done(loaded, k) => match set_auth_stage(
                    token.pin_required && pin.len() > 0,
                    loaded,
                    pin,
                    log,
                    k,
                ) {
                    TpmStage::Done(_, j) => unseal_policy_run(
                        token,
                        selection,
                        loaded,
                        held.push(loaded),
                        log,
                        j,
                    ),
                    other => failed_run(other, held.push(loaded)),
                },
                other => failed_run(other, held),
            },
        },
        other => failed_run(other, seq![]),
    }
}

fn unseal_inner(
    token: &Tpm2TokenRef,
    selection: PcrSelection,
    pin: &str,
    conf: &str,
    log: &Vec<TpmAnswer>,
    at: usize,
) -> (r: TpmRun<Secret>)
    ensures
        r@ == unseal_run(token@, selection, pin@, conf@, log@, at as int),
{
    let n = match connect(conf, log, at) {
        TpmStep::Ask(r) => {
            return TpmRun::Ask(r);
        },
        TpmStep::Fail(e, n) => {
            return TpmRun::End(Err(e), no_handles(), n);
        },
        TpmStep::Done(_, n) => n,
    };
    let (srk, held, m) = match get_srk(log, n) {
        TpmRun::Ask(r) => {
            return TpmRun::Ask(r);
        },
        TpmRun::End(Err(e), held, m) => {
            return TpmRun::End(Err(e), held, m);
        },
        TpmRun::End(Ok((srk, _, _)), held, m) => (srk, held, m),
    };
    let (loaded, k) = match load_object(&token.blob, srk, log, m) {
        TpmStep::Ask(r) => {
            return TpmRun::Ask(r);
        },
        TpmStep::Fail(e, k) => {
            return TpmRun::End(Err(e), held, k);
        },
        TpmStep::Done(loaded, k) => (loaded, k),
    };
    let held = held_with(&held, loaded);
    let mut j: usize = k;
    if token.pin_required && !pin.is_empty() {
        if k >= log.len() {
            return TpmRun::Ask(TpmRequest::SetAuth { handle: loaded, auth: pin_digest(pin) });
        }
        j = k + 1;
    }
    unseal_by_policy(token, selection, loaded, &held, log, j)
}

/// Unsealing the secret of one token.
pub open spec fn try_unseal_turn(
    token: Tpm2Ref,
    pin: Seq<char>,
    conf: Seq<char>,
    log: Seq<TpmAnswer>,
    at: int,
) -> TpmTurn<Seq<u8>> {
    match selection(bank_alg(token.pcr_bank), token.pcrs) {
        Err(e) => TpmTurn::Done(Err(e), at),
        Ok(sel) => finish(unseal_run(token, sel, pin, conf, log, at), log),
    }
}

proof fn lemma_unseal_run_used(
    token: Tpm2Ref,
    selection: PcrSelection,
    pin: Seq<char>,
    conf: Seq<char>,
    log: Seq<TpmAnswer>,
    at: int,
)
    requires
        0 <= at <= log.len(),
    ensures
        unseal_run(token, selection, pin, conf, log, at) matches Run::End(_, _, n) ==> at <= n
            <= log.len(),
{
}

/// Unseals the secret of one token.
fn try_unseal_token(
    token: &Tpm2TokenRef,
    pin: &str,
    conf: &str,
    log: &Vec<TpmAnswer>,
    at: usize,
) -> (r: TpmNext<Secret>)
    requires
        at <= log@.len(),
    ensures
        r@ == try_unseal_turn(token@, pin@, conf@, log@, at as int),
        r@ matches TpmTurn::Done(_, n) ==> at <= n <= log@.len(),
{
    let alg = pcr_bank_to_alg(token.pcr_bank.as_str());
    match build_pcr_selection_list(alg, token.pcrs.as_str()) {
        Err(e) => TpmNext::Done(Err(e), at),
        Ok(sel) => {
            proof {
                lemma_unseal_run_used(token@, sel, pin@, conf@, log@, at as int);
            }
            finish_run(unseal_inner(token, sel, pin, conf, log, at), log)
        },
    }
}

/// Trying the tokens one after the other; `last` is the failure so far.
pub open spec fn try_tokens(
    tokens: Seq<Tpm2Ref>,
    pin: Seq<char>,
    conf: Seq<char>,
    last: Seq<char>,
    log: Seq<TpmAnswer>,
    at: int,
) -> TpmTurn<Seq<u8>>
    decreases tokens.len(),
{
    if tokens.len() == 0 {
        TpmTurn::Done(Err(last), at)
    } else {
        match try_unseal_turn(tokens[0], pin, conf, log, at) {
            TpmTurn::Ask(a) => TpmTurn::Ask(a),
            TpmTurn::Done(Ok(secret), n) => TpmTurn::Done(Ok(secret), n),
            TpmTurn::Done(Err(e), n) => try_tokens(
                tokens.skip(1),
                pin,
                conf,
                "Token "@ + tokens[0].token_id + ": "@ + e,
                log,
                n,
            ),
        }
    }
}

/// Unsealing the secret of one of the tokens.
pub open spec fn unseal_tokens_turn(
    tokens: Seq<Tpm2Ref>,
    pin: Seq<char>,
    conf: Seq<char>,
    log: Seq<TpmAnswer>,
) -> TpmTurn<Seq<u8>> {
    if tokens.len() == 0 {
        TpmTurn::Done(Err("No systemd-tpm2 token found"@), 0)
    } else {
        try_tokens(
            candidates(tokens, pin.len() > 0),
            pin,
            conf,
            "No systemd-tpm2 token could be unsealed"@,
            log,
            0,
        )
    }
}

/// Unseals the secret of one of the tokens: they are tried in the order of
/// [`candidate_tokens`], until one yields its secret. If none does, the failure of
/// the last is given.
pub fn unseal_from_tokens(
    tokens: &Vec<Tpm2TokenRef>,
    pin: &str,
    conf: &str,
    log: &Vec<TpmAnswer>,
) -> (r: TpmNext<Secret>)
    ensures
        r@ == unseal_tokens_turn(views(tokens@), pin@, conf@, log@),
{
    assert(tokens@.len() == views(tokens@).len());
    if tokens.len() == 0 {
        return TpmNext::Done(Err(Error::new("No systemd-tpm2 token found")), 0);
    }
    let list = candidate_tokens(tokens, !pin.is_empty());
    let ghost t = ref_views(list@);
    let mut last = Error::new("No systemd-tpm2 token could be unsealed");
    let mut at: usize = 0;
    assert(t.skip(0) =~= t);
    for i in 0..list.len()
        invariant
            t == ref_views(list@),
            at <= log@.len(),
            unseal_tokens_turn(views(tokens@), pin@, conf@, log@) == try_tokens(
                t.skip(i as int),
                pin@,
                conf@,
                last@,
                log@,
                at as int,
            ),
    {
        assert(t.skip(i as int)[0] == t[i as int]);
        assert(t.skip(i as int).skip(1) =~= t.skip(i + 1));
        match try_unseal_token(list[i], pin, conf, log, at) {
            TpmNext::Ask(r) => {
                return TpmNext::Ask(r);
            },
            TpmNext::Done(Ok(secret), n) => {
                return TpmNext::Done(Ok(secret), n);
            },
            TpmNext::Done(Err(e), n) => {
                let prefix = concat3("Token ", list[i].token_id.as_str(), ": ");
                last = Error(concat(prefix.as_str(), e.0.as_str()));
                at = n;
            },
        }
    }
    TpmNext::Done(Err(last), at)
}

// ---------------------------------------------------------------------------
// Laws
// ---------------------------------------------------------------------------

/// Whether a request makes the TPM give out a handle that has to be freed.
pub open spec fn gives_handle(ask: TpmAsk) -> bool {
    match ask {
        TpmAsk::CreatePrimary { .. } => true,
        TpmAsk::StartSession { .. } => true,
        TpmAsk::Load { .. } => true,
        _ => false,
    }
}

proof fn lemma_take<A>(log: Seq<A>, m: int)
    requires
        0 <= m <= log.len(),
    ensures
        log.take(m).len() == m,
        forall|i: int| 0 <= i < m ==> #[trigger] log.take(m)[i] == log[i],
{
}

/// A stage that is over reads no answer behind its end, and one that asks has no
/// answer left.
proof fn lemma_policy_prefix(
    session: u32,
    selection: PcrSelection,
    auth: bool,
    log: Seq<TpmAnswer>,
    at: int,
    m: int,
)
    requires
        0 <= at <= m <= log.len(),
    ensures
        match policy_stage(session, selection, auth, log, at) {
            TpmStage::Ask(_) => true,
            TpmStage::Fail(_, n) => at < n <= log.len() && (n <= m ==> policy_stage(
                session,
                selection,
                auth,
                log.take(m),
                at,
            ) == policy_stage(session, selection, auth, log, at)),
            TpmStage::Done(_, n) => at < n <= log.len() && (n <= m ==> policy_stage(
                session,
                selection,
                auth,
                log.take(m),
                at,
            ) == policy_stage(session, selection, auth, log, at)),
        },
{
    lemma_take(log, m);
}

proof fn lemma_trial_prefix(
    selection: PcrSelection,
    pin: Seq<char>,
    held: Seq<u32>,
    log: Seq<TpmAnswer>,
    at: int,
    m: int,
)
    requires
        0 <= at <= m <= log.len(),
        trial_run(selection, pin, held, log, at) is End,
    ensures
        ({
            let n = trial_run(selection, pin, held, log, at)->End_2;
            &&& at < n <= log.len()
            &&& n <= m ==> trial_run(selection, pin, held, log.take(m), at) == trial_run(
                selection,
                pin,
                held,
                log,
                at,
            )
        }),
{
    lemma_take(log, m);
    match handle_stage(
        TpmAsk::StartSession { session_type: TPM2_SE_TRIAL },
        "Esys_StartAuthSession (trial)"@,
        log,
        at,
    ) {
        TpmStage::Done(session, n) => {
            if n <= m {
                lemma_policy_prefix(session, selection, pin.len() > 0, log, n, m);
            } else {
                lemma_policy_prefix(session, selection, pin.len() > 0, log, n, n);
            }
        },
        _ => {},
    }
}

proof fn lemma_srk_prefix(log: Seq<TpmAnswer>, at: int, m: int)
    requires
        0 <= at <= m <= log.len(),
        srk_run(log, at) is End,
    ensures
        ({
            let n = srk_run(log, at)->End_2;
            &&& at < n <= log.len()
            &&& n <= m ==> srk_run(log.take(m), at) == srk_run(log, at)
        }),
{
    lemma_take(log, m);
}

proof fn lemma_create_prefix(
    srk: u32,
    policy: Seq<u8>,
    secret: Seq<u8>,
    pin: Seq<char>,
    log: Seq<TpmAnswer>,
    at: int,
    m: int,
)
    requires
        0 <= at <= m <= log.len(),
    ensures
        match create_stage(srk, policy, secret, pin, log, at) {
            TpmStage::Ask(_) => true,
            TpmStage::Fail(_, n) => at <= n <= log.len() && (n <= m ==> create_stage(
                srk,
                policy,
                secret,
                pin,
                log.take(m),
                at,
            ) == create_stage(srk, policy, secret, pin, log, at)),
            TpmStage::Done(_, n) => at <= n <= log.len() && (n <= m ==> create_stage(
                srk,
                policy,
                secret,
                pin,
                log.take(m),
                at,
            ) == create_stage(srk, policy, secret, pin, log, at)),
        },
{
    lemma_take(log, m);
}

proof fn lemma_connect_prefix(conf: Seq<char>, log: Seq<TpmAnswer>, at: int, m: int)
    requires
        0 <= at <= m <= log.len(),
    ensures
        match connect_stage(conf, log, at) {
            TpmStage::Ask(_) => true,
            TpmStage::Fail(_, n) => at <= n <= log.len() && (n <= m ==> connect_stage(
                conf,
                log.take(m),
                at,
            ) == connect_stage(conf, log, at)),
            TpmStage::Done(_, n) => n == at + 2 <= log.len() && (n <= m ==> connect_stage(
                conf,
                log.take(m),
                at,
            ) == connect_stage(conf, log, at)),
        },
{
    lemma_take(log, m);
}

proof fn lemma_seal_prefix(
    secret: Seq<u8>,
    selection: PcrSelection,
    pin: Seq<char>,
    conf: Seq<char>,
    log: Seq<TpmAnswer>,
    m: int,
)
    requires
        0 <= m <= log.len(),
        seal_run(secret, selection, pin, conf, log) is End,
        seal_run(secret, selection, pin, conf, log)->End_2 <= m,
    ensures
        seal_run(secret, selection, pin, conf, log.take(m)) == seal_run(
            secret,
            selection,
            pin,
            conf,
            log,
        ),
{
    lemma_take(log, m);
    lemma_connect_prefix(conf, log, 0, m);
    match connect_stage(conf, log, 0) {
        TpmStage::Done(_, n) => {
            match srk_run(log, n) {
                Run::End(Err(e), held, k) => {
                    lemma_srk_prefix(log, n, m);
                },
                Run::End(Ok((srk, new, srk_blob)), held, k) => {
                    lemma_srk_prefix(log, n, log.len() as int);
                    match trial_run(selection, pin, held, log, k) {
                        Run::End(Err(e), still, j) => {
                            lemma_trial_prefix(selection, pin, held, log, k, log.len() as int);
                            lemma_srk_prefix(log, n, m);
                            lemma_trial_prefix(selection, pin, held, log, k, m);
                        },
                        Run::End(Ok(policy_hash), still, j) => {
                            lemma_trial_prefix(selection, pin, held, log, k, log.len() as int);
                            lemma_create_prefix(
                                srk,
                                policy_hash,
                                secret,
                                pin,
                                log,
                                j,
                                log.len() as int,
                            );
                            lemma_srk_prefix(log, n, m);
                            lemma_trial_prefix(selection, pin, held, log, k, m);
                            lemma_create_prefix(srk, policy_hash, secret, pin, log, j, m);
                        },
                        _ => {},
                    }
                },
                _ => {},
            }
        },
        _ => {},
    }
}

/// The trial session is freed: before the trial is over, or because it is still
/// held then.
proof fn lemma_trial_frees(
    selection: PcrSelection,
    pin: Seq<char>,
    held: Seq<u32>,
    log: Seq<TpmAnswer>,
    at: int,
)
    requires
        0 <= at < log.len(),
        trial_run(selection, pin, held, log, at) is End,
        log[at] is Handle && log[at]->Handle_0 is Ok,
    ensures
        ({
            let session = log[at]->Handle_0->Ok_0;
            match trial_run(selection, pin, held, log, at) {
                Run::End(Ok(_), still, n) => still == held && at < n - 1 && trial_run(
                    selection,
                    pin,
                    held,
                    log.take(n - 1),
                    at,
                ) == Run::<Seq<u8>>::Ask(TpmAsk::Flush { handle: session }),
                Run::End(Err(_), still, n) => still == held.push(session),
                _ => true,
            }
        }),
{
    let session = log[at]->Handle_0->Ok_0;
    lemma_trial_prefix(selection, pin, held, log, at, log.len() as int);
    match trial_run(selection, pin, held, log, at) {
        Run::End(Ok(_), _, n) => {
            lemma_policy_prefix(session, selection, pin.len() > 0, log, at + 1, log.len() as int);
            lemma_policy_prefix(session, selection, pin.len() > 0, log, at + 1, n - 1);
            lemma_take(log, n - 1);
        },
        _ => {},
    }
}

/// In the middle of a trial no request gives out a handle.
proof fn lemma_trial_asks(
    selection: PcrSelection,
    pin: Seq<char>,
    held: Seq<u32>,
    log: Seq<TpmAnswer>,
    at: int,
)
    requires
        0 <= at < log.len(),
    ensures
        trial_run(selection, pin, held, log, at) matches Run::Ask(a) ==> !gives_handle(a),
{
}

/// What `seal_run` asks for on its way: a new storage root key comes as the fourth
/// request and the trial session as the one after the storage root key, and no
/// other request gives out a handle.
proof fn lemma_seal_asks(
    secret: Seq<u8>,
    selection: PcrSelection,
    pin: Seq<char>,
    conf: Seq<char>,
    log: Seq<TpmAnswer>,
)
    requires
        seal_run(secret, selection, pin, conf, log) is Ask,
        gives_handle(seal_run(secret, selection, pin, conf, log)->Ask_0),
    ensures
        connect_stage(conf, log, 0) == TpmStage::<()>::Done((), 2),
        (log.len() == 3 && log[2] is Handle && log[2]->Handle_0 is Err) || (srk_run(log, 2) is End
            && srk_run(log, 2)->End_0 is Ok && srk_run(log, 2)->End_2 == log.len()),
{
    lemma_connect_prefix(conf, log, 0, log.len() as int);
    match srk_run(log, 2) {
        Run::End(Ok((srk, new, blob)), held, k) => {
            lemma_srk_prefix(log, 2, log.len() as int);
            if k < log.len() {
                lemma_trial_asks(selection, pin, held, log, k);
            }
        },
        _ => {},
    }
}

/// Sealing frees every handle that the TPM gave out for it, on success and on
/// every failure: for each answer that holds one there is a later request to free
/// it.
pub proof fn law_seal_frees_handles(
    secret: Seq<u8>,
    pcrs: Seq<char>,
    pin: Seq<char>,
    conf: Seq<char>,
    log: Seq<TpmAnswer>,
    i: int,
    h: u32,
)
    requires
        seal_turn(secret, pcrs, pin, conf, log) is Done,
        0 <= i < seal_turn(secret, pcrs, pin, conf, log)->Done_1,
        seal_turn(secret, pcrs, pin, conf, log.take(i)) is Ask,
        gives_handle(seal_turn(secret, pcrs, pin, conf, log.take(i))->Ask_0),
        log[i] == TpmAnswer::Handle(Ok(h)),
    ensures
        exists|j: int|
            i < j < seal_turn(secret, pcrs, pin, conf, log)->Done_1 && #[trigger] seal_turn(
                secret,
                pcrs,
                pin,
                conf,
                log.take(j),
            ) == TpmTurn::<Sealed>::Ask(TpmAsk::Flush { handle: h }),
{
    let sel = selection(TPM2_ALG_SHA256, pcrs)->Ok_0;
    let run = seal_run(secret, sel, pin, conf, log);
    let held = run->End_1;
    let n = run->End_2;
    lemma_seal_run_used(secret, sel, pin, conf, log);
    if i >= n {
        lemma_seal_prefix(secret, sel, pin, conf, log, i);
        assert(false);
    }
    lemma_take(log, i);
    let before = log.take(i);
    lemma_seal_asks(secret, sel, pin, conf, before);
    lemma_connect_prefix(conf, log, 0, i);
    lemma_connect_prefix(conf, log, 0, log.len() as int);
    assert(connect_stage(conf, log, 0) == TpmStage::<()>::Done((), 2));
    if held.len() > 0 {
        lemma_seal_prefix(secret, sel, pin, conf, log, n);
        assert(seal_turn(secret, pcrs, pin, conf, log.take(n)) == TpmTurn::<Sealed>::Ask(
            TpmAsk::Flush { handle: held[0] },
        ));
        if held.len() > 1 {
            lemma_seal_prefix(secret, sel, pin, conf, log, n + 1);
            assert(seal_turn(secret, pcrs, pin, conf, log.take(n + 1)) == TpmTurn::<Sealed>::Ask(
                TpmAsk::Flush { handle: held[1] },
            ));
        }
    }
    let srk = srk_run(log, 2);
    lemma_srk_prefix(log, 2, log.len() as int);
    let k = srk->End_2;
    if i == 3 && log[2] is Handle && log[2]->Handle_0 is Err {
        assert(srk->End_1 == seq![h]);
        match srk->End_0 {
            Ok(_) => {
                let trial = trial_run(sel, pin, seq![h], log, k);
                lemma_trial_prefix(sel, pin, seq![h], log, k, log.len() as int);
                if trial->End_0 is Ok {
                    let policy = trial->End_0->Ok_0;
                    let q = trial->End_2;
                    lemma_create_prefix(h, policy, secret, pin, log, q, log.len() as int);
                    if run->End_0 is Ok {
                        lemma_create_prefix(h, policy, secret, pin, log, q, n - 1);
                        lemma_trial_prefix(sel, pin, seq![h], log, k, n - 1);
                        lemma_srk_prefix(log, 2, n - 1);
                        lemma_connect_prefix(conf, log, 0, n - 1);
                        lemma_take(log, n - 1);
                        assert(seal_turn(secret, pcrs, pin, conf, log.take(n - 1)) == TpmTurn::<
                            Sealed,
                        >::Ask(TpmAsk::Flush { handle: h }));
                    }
                }
            },
            Err(_) => {},
        }
    } else {
        lemma_srk_prefix(before, 2, i);
        assert(srk_run(log, 2) == srk_run(before, 2)) by {
            lemma_srk_prefix(log, 2, i);
        }
        assert(k == i);
        let first = srk->End_1;
        lemma_trial_frees(sel, pin, first, log, k);
        lemma_trial_prefix(sel, pin, first, log, k, log.len() as int);
        let trial = trial_run(sel, pin, first, log, k);
        if trial->End_0 is Ok {
            let q = trial->End_2;
            let (key, _, _) = srk->End_0->Ok_0;
            lemma_create_prefix(
                key,
                trial->End_0->Ok_0,
                secret,
                pin,
                log,
                q,
                log.len() as int,
            );
            lemma_srk_prefix(log, 2, q - 1);
            lemma_connect_prefix(conf, log, 0, q - 1);
            assert(seal_turn(secret, pcrs, pin, conf, log.take(q - 1)) == TpmTurn::<Sealed>::Ask(
                TpmAsk::Flush { handle: h },
            ));
        }
    }
}

proof fn lemma_load_prefix(blob: Seq<u8>, srk: u32, log: Seq<TpmAnswer>, at: int, m: int)
    requires
        0 <= at <= m <= log.len(),
    ensures
        match load_stage(blob, srk, log, at) {
            TpmStage::Ask(a) => gives_handle(a) ==> log.len() == at + 2,
            TpmStage::Fail(_, n) => at < n <= log.len() && (n <= m ==> load_stage(
                blob,
                srk,
                log.take(m),
                at,
            ) == load_stage(blob, srk, log, at)),
            TpmStage::Done(h, n) => n == at + 3 <= log.len() && log[at + 2] == TpmAnswer::Handle(
                Ok(h),
            ) && (n <= m ==> load_stage(blob, srk, log.take(m), at) == load_stage(
                blob,
                srk,
                log,
                at,
            )),
        },
{
    lemma_take(log, m);
}

proof fn lemma_unseal_policy_prefix(
    token: Tpm2Ref,
    selection: PcrSelection,
    loaded: u32,
    held: Seq<u32>,
    log: Seq<TpmAnswer>,
    at: int,
    m: int,
)
    requires
        0 <= at <= m <= log.len(),
    ensures
        match unseal_policy_run(token, selection, loaded, held, log, at) {
            Run::Ask(a) => gives_handle(a) ==> log.len() == at,
            Run::End(_, still, n) => {
                &&& at < n <= log.len()
                &&& n <= m ==> unseal_policy_run(token, selection, loaded, held, log.take(m), at)
                    == unseal_policy_run(token, selection, loaded, held, log, at)
                &&& still.len() >= held.len() && still.take(held.len() as int) == held
                &&& log[at] matches TpmAnswer::Handle(Ok(h)) ==> still == held.push(h)
            },
        },
{
    lemma_take(log, m);
    match handle_stage(
        TpmAsk::StartSession { session_type: TPM2_SE_POLICY },
        "Esys_StartAuthSession (policy)"@,
        log,
        at,
    ) {
        TpmStage::Done(session, n) => {
            lemma_policy_prefix(session, selection, token.pin_required, log, n, log.len() as int);
            if n <= m {
                lemma_policy_prefix(session, selection, token.pin_required, log, n, m);
            }
            assert(held.push(session).take(held.len() as int) =~= held);
        },
        _ => {
            assert(held.take(held.len() as int) =~= held);
        },
    }
}

/// A run that unseals reads no answer behind its end; it holds every handle that
/// it was given; and it asks for one only where its answer is still missing.
proof fn lemma_unseal_run(
    token: Tpm2Ref,
    selection: PcrSelection,
    pin: Seq<char>,
    conf: Seq<char>,
    log: Seq<TpmAnswer>,
    at: int,
    m: int,
)
    requires
        0 <= at <= m <= log.len(),
        unseal_run(token, selection, pin, conf, log, at) is End,
    ensures
        ({
            let run = unseal_run(token, selection, pin, conf, log, at);
            let before = unseal_run(token, selection, pin, conf, log.take(m), at);
            &&& run->End_2 <= m ==> before == run
            &&& m < run->End_2 && before is Ask && gives_handle(before->Ask_0) ==> (
            log[m] matches TpmAnswer::Handle(Ok(h)) ==> run->End_1.contains(h))
        }),
{
    let run = unseal_run(token, selection, pin, conf, log, at);
    let before = unseal_run(token, selection, pin, conf, log.take(m), at);
    let all = log.len() as int;
    lemma_take(log, m);
    lemma_connect_prefix(conf, log, at, m);
    lemma_connect_prefix(conf, log, at, all);
    lemma_connect_prefix(conf, log.take(m), at, m);
    if connect_stage(conf, log, at) is Done && at + 2 <= m {
        let srk = srk_run(log, at + 2);
        lemma_srk_prefix(log, at + 2, all);
        lemma_srk_prefix(log, at + 2, m);
        let k = srk->End_2;
        let held = srk->End_1;
        if k <= m && srk->End_0 is Ok {
            let (key, _, _) = srk->End_0->Ok_0;
            lemma_load_prefix(token.blob, key, log, k, all);
            lemma_load_prefix(token.blob, key, log, k, m);
            lemma_load_prefix(token.blob, key, log.take(m), k, m);
            match load_stage(token.blob, key, log, k) {
                TpmStage::Done(loaded, p) => {
                    let wanted = token.pin_required && pin.len() > 0;
                    let q = if wanted { p + 1 } else { p };
                    let with_object = held.push(loaded);
                    assert(with_object.contains(loaded)) by {
                        assert(with_object[held.len() as int] == loaded);
                    }
                    if q <= all {
                        lemma_unseal_policy_prefix(
                            token,
                            selection,
                            loaded,
                            with_object,
                            log,
                            q,
                            all,
                        );
                        let still = run->End_1;
                        assert forall|h: u32| with_object.contains(h) implies still.contains(h) by {
                            let x = choose|x: int|
                                0 <= x < with_object.len() && with_object[x] == h;
                            assert(still.take(with_object.len() as int)[x] == still[x]);
                        }
                        if q <= m {
                            lemma_unseal_policy_prefix(
                                token,
                                selection,
                                loaded,
                                with_object,
                                log,
                                q,
                                m,
                            );
                            lemma_unseal_policy_prefix(
                                token,
                                selection,
                                loaded,
                                with_object,
                                log.take(m),
                                q,
                                m,
                            );
                            if m == q && log[m] is Handle && log[m]->Handle_0 is Ok {
                                let h = log[m]->Handle_0->Ok_0;
                                assert(with_object.push(h)[with_object.len() as int] == h);
                            }
                        }
                    }
                },
                _ => {},
            }
        } else if m == at + 3 && log[at + 2] is Handle && log[at + 2]->Handle_0 is Err
            && log[m] is Handle && log[m]->Handle_0 is Ok {
            let h = log[m]->Handle_0->Ok_0;
            assert(held == seq![h]);
            assert(held[0] == h);
            if srk->End_0 is Ok {
                let (key, _, _) = srk->End_0->Ok_0;
                lemma_load_prefix(token.blob, key, log, k, all);
                match load_stage(token.blob, key, log, k) {
                    TpmStage::Done(loaded, p) => {
                        let wanted = token.pin_required && pin.len() > 0;
                        let q = if wanted { p + 1 } else { p };
                        let with_object = held.push(loaded);
                        if q <= all {
                            lemma_unseal_policy_prefix(
                                token,
                                selection,
                                loaded,
                                with_object,
                                log,
                                q,
                                all,
                            );
                            let still = run->End_1;
                            assert(still.take(with_object.len() as int)[0] == still[0]);
                        }
                    },
                    _ => {},
                }
            }
        }
    }
}

/// Unsealing frees every handle that the TPM gave out for it, on success and on
/// every failure: for each answer that holds one there is a later request to free
/// it.
pub proof fn law_unseal_frees_handles(
    token: Tpm2Ref,
    pin: Seq<char>,
    conf: Seq<char>,
    log: Seq<TpmAnswer>,
    at: int,
    i: int,
    h: u32,
)
    requires
        0 <= at <= i < log.len(),
        try_unseal_turn(token, pin, conf, log, at) is Done,
        i < try_unseal_turn(token, pin, conf, log, at)->Done_1,
        try_unseal_turn(token, pin, conf, log.take(i), at) is Ask,
        gives_handle(try_unseal_turn(token, pin, conf, log.take(i), at)->Ask_0),
        log[i] == TpmAnswer::Handle(Ok(h)),
    ensures
        exists|j: int|
            i < j < try_unseal_turn(token, pin, conf, log, at)->Done_1
                && #[trigger] try_unseal_turn(token, pin, conf, log.take(j), at) == TpmTurn::<
                Seq<u8>,
            >::Ask(TpmAsk::Flush { handle: h }),
{
    let sel = selection(bank_alg(token.pcr_bank), token.pcrs)->Ok_0;
    let run = unseal_run(token, sel, pin, conf, log, at);
    let held = run->End_1;
    let n = run->End_2;
    lemma_unseal_run_used(token, sel, pin, conf, log, at);
    lemma_unseal_run(token, sel, pin, conf, log, at, i);
    lemma_take(log, i);
    assert(i < n);
    assert(held.contains(h));
    let x = choose|x: int| 0 <= x < held.len() && held[x] == h;
    lemma_unseal_run(token, sel, pin, conf, log, at, n + x);
    lemma_take(log, n + x);
    assert(try_unseal_turn(token, pin, conf, log.take(n + x), at) == TpmTurn::<Seq<u8>>::Ask(
        TpmAsk::Flush { handle: h },
    ));
}

/// What is sealed is the secret, and the authorization that a PIN gives to the object
/// then is the one that the same PIN gives to it when it is loaded to be unsealed.
pub proof fn law_same_pin_same_authorization(
    secret: Seq<u8>,
    pcrs: Seq<char>,
    pin: Seq<char>,
    conf: Seq<char>,
    log: Seq<TpmAnswer>,
    token: Tpm2Ref,
    later_conf: Seq<char>,
    later: Seq<TpmAnswer>,
    at: int,
)
    requires
        0 <= at <= later.len(),
        seal_turn(secret, pcrs, pin, conf, log) is Ask,
        seal_turn(secret, pcrs, pin, conf, log)->Ask_0 is Create,
        try_unseal_turn(token, pin, later_conf, later, at) is Ask,
        try_unseal_turn(token, pin, later_conf, later, at)->Ask_0 is SetAuth,
    ensures
        try_unseal_turn(token, pin, later_conf, later, at)->Ask_0->SetAuth_auth == seal_turn(
            secret,
            pcrs,
            pin,
            conf,
            log,
        )->Ask_0->Create_auth,
        seal_turn(secret, pcrs, pin, conf, log)->Ask_0->Create_data == secret,
{
}

proof fn lemma_sha256_bank()
    ensures
        bank_alg("sha256"@) == TPM2_ALG_SHA256,
{
    reveal_strlit("sha1");
    reveal_strlit("sha256");
    reveal_strlit("sha384");
    reveal_strlit("sha512");
    assert("sha256"@[3] != "sha384"@[3] && "sha256"@[3] != "sha512"@[3]);
}

/// The PCRs that a secret is bound to when it is sealed are those that unsealing a
/// token with the same selection presents.
pub proof fn law_same_pcrs_same_policy(
    secret: Seq<u8>,
    pcrs: Seq<char>,
    pin: Seq<char>,
    conf: Seq<char>,
    log: Seq<TpmAnswer>,
    token: Tpm2Ref,
    later_conf: Seq<char>,
    later: Seq<TpmAnswer>,
    at: int,
)
    requires
        0 <= at <= later.len(),
        token.pcrs == pcrs,
        token.pcr_bank == "sha256"@,
        seal_turn(secret, pcrs, pin, conf, log) is Ask,
        seal_turn(secret, pcrs, pin, conf, log)->Ask_0 is PolicyPcr,
        try_unseal_turn(token, pin, later_conf, later, at) is Ask,
        try_unseal_turn(token, pin, later_conf, later, at)->Ask_0 is PolicyPcr,
    ensures
        try_unseal_turn(token, pin, later_conf, later, at)->Ask_0->PolicyPcr_selection == seal_turn(
            secret,
            pcrs,
            pin,
            conf,
            log,
        )->Ask_0->PolicyPcr_selection,
{
    lemma_sha256_bank();
}

/// What is reported of a single token: it is not tried where it asks for a PIN and
/// none is given; its secret is given as it is; and its failure comes with its
/// number.
pub proof fn law_one_token(
    token: Tpm2Ref,
    pin: Seq<char>,
    conf: Seq<char>,
    log: Seq<TpmAnswer>,
)
    ensures
        unseal_tokens_turn(seq![token], pin, conf, log) == if pin.len() == 0
            && token.pin_required {
            TpmTurn::Done(Err("No systemd-tpm2 token could be unsealed"@), 0)
        } else {
            match try_unseal_turn(token, pin, conf, log, 0) {
                TpmTurn::Ask(a) => TpmTurn::Ask(a),
                TpmTurn::Done(Ok(secret), n) => TpmTurn::Done(Ok(secret), n),
                TpmTurn::Done(Err(e), n) => TpmTurn::Done(
                    Err("Token "@ + token.token_id + ": "@ + e),
                    n,
                ),
            }
        },
{
    let tokens = seq![token];
    reveal_with_fuel(by_pin, 2);
    reveal_with_fuel(try_tokens, 2);
    assert(tokens.drop_last() =~= Seq::<Tpm2Ref>::empty());
    let list = candidates(tokens, pin.len() > 0);
    if pin.len() == 0 && token.pin_required {
        assert(list =~= Seq::<Tpm2Ref>::empty());
    } else {
        assert(list =~= tokens);
        assert(tokens.skip(1) =~= Seq::<Tpm2Ref>::empty());
    }
}

/// Unsealing one token gives what the TPM answers when it is asked to unseal: the
/// bytes as they are, or its failure. After that answer only handles are freed.
pub proof fn law_unseal_gives_the_answer(
    token: Tpm2Ref,
    pin: Seq<char>,
    conf: Seq<char>,
    log: Seq<TpmAnswer>,
    at: int,
    i: int,
)
    requires
        0 <= at <= i < log.len(),
        try_unseal_turn(token, pin, conf, log.take(i), at) is Ask,
        try_unseal_turn(token, pin, conf, log.take(i), at)->Ask_0 is Unseal,
        log[i] is Data,
    ensures
        match try_unseal_turn(token, pin, conf, log, at) {
            TpmTurn::Ask(a) => a is Flush,
            TpmTurn::Done(r, _) => r == match log[i]->Data_0 {
                Ok(secret) => Ok::<Seq<u8>, Seq<char>>(secret@),
                Err(f) => Err(tpm_failure("Esys_Unseal"@, f)),
            },
        },
{
    let before = log.take(i);
    assert forall|k: int| 0 <= k < i implies before[k] == log[k] by {}
}

/// What is asked for by `turn` on the way through the answers `log`.
pub open spec fn asks_of<T>(
    turn: spec_fn(Seq<TpmAnswer>) -> TpmTurn<T>,
    log: Seq<TpmAnswer>,
) -> Set<TpmAsk> {
    Set::new(
        |ask: TpmAsk|
            exists|i: int|
                0 <= i < log.len() && #[trigger] turn(log.take(i)) == TpmTurn::<T>::Ask(ask),
    )
}

/// Whether `made` makes an object with the authorization `auth` that holds `data`.
pub open spec fn makes(made: Set<TpmAsk>, auth: Seq<u8>, data: Seq<u8>) -> bool {
    exists|parent: u32, attributes: u32, policy: Seq<u8>| #[trigger]
        made.contains(TpmAsk::Create { parent, attributes, policy, auth, data })
}

/// Whether `made` binds an object to its authorization.
pub open spec fn binds_auth(made: Set<TpmAsk>) -> bool {
    exists|trial: u32| #[trigger] made.contains(TpmAsk::PolicyAuthValue { session: trial })
}

/// Whether `asks` opens the object that `made` made, loaded as `object`, in the session
/// `session`: by the same PCRs and, just where the object is bound to it, by its
/// authorization.
pub open spec fn opens(
    made: Set<TpmAsk>,
    asks: Set<TpmAsk>,
    object: u32,
    session: u32,
) -> bool {
    &&& exists|trial: u32, selection: PcrSelection| #[trigger]
        made.contains(TpmAsk::PolicyPcr { session: trial, selection }) && asks.contains(
            TpmAsk::PolicyPcr { session, selection },
        )
    &&& asks.contains(TpmAsk::PolicyAuthValue { session }) == binds_auth(made)
    &&& binds_auth(made) ==> exists|auth: Seq<u8>, data: Seq<u8>| #[trigger]
        makes(made, auth, data) && asks.contains(TpmAsk::SetAuth { handle: object, auth })
}

/// Whether `answer` is what a TPM whose PCRs have not changed answers when it is to
/// unseal: the data that `made` gave it, if `asks` opens the object, and else a failure.
pub open spec fn gives_back(
    made: Set<TpmAsk>,
    asks: Set<TpmAsk>,
    object: u32,
    session: u32,
    answer: TpmAnswer,
) -> bool {
    match answer {
        TpmAnswer::Data(Ok(data)) => opens(made, asks, object, session) && exists|auth: Seq<u8>|
            #[trigger] makes(made, auth, data@),
        TpmAnswer::Data(Err(_)) => !opens(made, asks, object, session),
        _ => false,
    }
}

/// Whether `answer` is one of a TPM that does what it is asked for. It may keep no
/// storage root key.
pub open spec fn obliges(ask: TpmAsk, answer: TpmAnswer) -> bool {
    match ask {
        TpmAsk::PersistentSrk => answer is Handle,
        TpmAsk::CreatePrimary { .. } | TpmAsk::StartSession { .. } | TpmAsk::Load { .. } => {
            answer is Handle && answer->Handle_0 is Ok
        },
        TpmAsk::Serialize { .. } => answer is Bytes && answer->Bytes_0 is Ok,
        TpmAsk::SetAuth { .. } | TpmAsk::Flush { .. } | TpmAsk::Unseal { .. } => true,
        _ => answer is Status && answer->Status_0 is Ok,
    }
}

/// Whether the answers `log` to `turn`, which unseals, are those of a TPM that does what
/// it is asked for, whose PCRs have not changed, and that made the object in `blob` by
/// `made`.
pub open spec fn faithful(
    made: Set<TpmAsk>,
    blob: Seq<u8>,
    turn: spec_fn(Seq<TpmAnswer>) -> TpmTurn<Seq<u8>>,
    log: Seq<TpmAnswer>,
) -> bool {
    forall|j: int|
        0 <= j < log.len() ==> match #[trigger] turn(log.take(j)) {
            TpmTurn::Ask(ask) => {
                &&& obliges(ask, log[j])
                &&& match ask {
                    TpmAsk::Unseal { object, session } => {
                        let asks = asks_of(turn, log.take(j));
                        asks.contains(TpmAsk::UnmarshalPrivate { blob }) ==> gives_back(
                            made,
                            asks,
                            object,
                            session,
                            log[j],
                        )
                    },
                    _ => true,
                }
            },
            TpmTurn::Done(_, _) => true,
        }
}

/// Where the TPM does what it is asked for, unsealing comes to the point where it asks
/// to unseal: it has loaded the blob, presented the PCRs and, if the token wants it,
/// the authorization of the PIN.
#[verifier::spinoff_prover]
#[verifier::rlimit(50)]
proof fn lemma_unseal_course(
    token: Tpm2Ref,
    sel: PcrSelection,
    pin: Seq<char>,
    conf: Seq<char>,
    log: Seq<TpmAnswer>,
) -> (r: (int, u32, u32))
    requires
        selection(bank_alg(token.pcr_bank), token.pcrs) == Ok::<PcrSelection, Seq<char>>(sel),
        token.pin_required ==> pin.len() > 0,
        !conf.contains('\0'),
        try_unseal_turn(token, pin, conf, log, 0) is Done,
        forall|j: int|
            0 <= j < log.len() ==> match #[trigger] try_unseal_turn(
                token,
                pin,
                conf,
                log.take(j),
                0,
            ) {
                TpmTurn::Ask(ask) => obliges(ask, log[j]),
                TpmTurn::Done(_, _) => true,
            },
    ensures
        ({
            let (j, object, session) = r;
            let asks = asks_of(
                |l: Seq<TpmAnswer>| try_unseal_turn(token, pin, conf, l, 0),
                log.take(j),
            );
            &&& 0 <= j < log.len()
            &&& try_unseal_turn(token, pin, conf, log.take(j), 0) == TpmTurn::<Seq<u8>>::Ask(
                TpmAsk::Unseal { object, session },
            )
            &&& asks.contains(TpmAsk::UnmarshalPrivate { blob: token.blob })
            &&& asks.contains(TpmAsk::PolicyPcr { session, selection: sel })
            &&& token.pin_required ==> asks.contains(TpmAsk::PolicyAuthValue { session })
                && asks.contains(TpmAsk::SetAuth { handle: object, auth: pin_auth(pin) })
        }),
{
    let turn = |l: Seq<TpmAnswer>| try_unseal_turn(token, pin, conf, l, 0);
    assert(turn(log.take(0)) == TpmTurn::<Seq<u8>>::Ask(TpmAsk::OpenTcti { conf }));
    assert(turn(log.take(1)) == TpmTurn::<Seq<u8>>::Ask(TpmAsk::OpenEsys));
    assert(turn(log.take(2)) == TpmTurn::<Seq<u8>>::Ask(TpmAsk::PersistentSrk));
    assert(turn(log.take(3)) is Ask);
    let m: int = if log[2]->Handle_0 is Ok {
        4
    } else {
        assert(turn(log.take(4)) is Ask);
        5
    };
    assert(srk_run(log, 2) is End && srk_run(log, 2)->End_0 is Ok && srk_run(log, 2)->End_2 == m);
    assert(turn(log.take(m)) == TpmTurn::<Seq<u8>>::Ask(
        TpmAsk::UnmarshalPrivate { blob: token.blob },
    ));
    assert(turn(log.take(m + 1)) == TpmTurn::<Seq<u8>>::Ask(TpmAsk::UnmarshalPublic));
    assert(turn(log.take(m + 2)) is Ask && turn(log.take(m + 2))->Ask_0 is Load);
    let object = log[m + 2]->Handle_0->Ok_0;
    let k = if token.pin_required {
        assert(turn(log.take(m + 3)) == TpmTurn::<Seq<u8>>::Ask(
            TpmAsk::SetAuth { handle: object, auth: pin_auth(pin) },
        ));
        m + 4
    } else {
        m + 3
    };
    assert(turn(log.take(k)) is Ask && turn(log.take(k))->Ask_0 is StartSession);
    let session = log[k]->Handle_0->Ok_0;
    assert(turn(log.take(k + 1)) == TpmTurn::<Seq<u8>>::Ask(
        TpmAsk::PolicyPcr { session, selection: sel },
    ));
    let j = if token.pin_required {
        assert(turn(log.take(k + 2)) == TpmTurn::<Seq<u8>>::Ask(
            TpmAsk::PolicyAuthValue { session },
        ));
        k + 3
    } else {
        k + 2
    };
    assert(turn(log.take(j)) == TpmTurn::<Seq<u8>>::Ask(TpmAsk::Unseal { object, session }));
    let before = log.take(j);
    assert forall|i: int| 0 <= i < j implies before.take(i) == #[trigger] log.take(i) by {
        assert(before.take(i) =~= log.take(i));
    }
    let asks = asks_of(turn, before);
    assert(turn(before.take(m)) == turn(log.take(m)));
    assert(turn(before.take(k + 1)) == turn(log.take(k + 1)));
    if token.pin_required {
        assert(turn(before.take(m + 3)) == turn(log.take(m + 3)));
        assert(turn(before.take(k + 2)) == turn(log.take(k + 2)));
    }
    (j, object, session)
}

/// What sealing asks for on any way: it binds the authorization only with a PIN, and
/// what it makes has the authorization of the PIN and holds the secret.
proof fn lemma_seal_asks_for(
    secret: Seq<u8>,
    pcrs: Seq<char>,
    pin: Seq<char>,
    conf: Seq<char>,
    log: Seq<TpmAnswer>,
)
    ensures
        match seal_turn(secret, pcrs, pin, conf, log) {
            TpmTurn::Ask(TpmAsk::PolicyAuthValue { .. }) => pin.len() > 0,
            TpmTurn::Ask(TpmAsk::Create { auth, data, .. }) => auth == pin_auth(pin) && data
                == secret,
            _ => true,
        },
{
}

/// Where a trial that succeeds asks for the PCRs and for the authorization.
#[verifier::spinoff_prover]
#[verifier::rlimit(50)]
proof fn lemma_seal_binds(
    secret: Seq<u8>,
    pcrs: Seq<char>,
    pin: Seq<char>,
    conf: Seq<char>,
    log: Seq<TpmAnswer>,
) -> (r: (int, u32))
    requires
        seal_turn(secret, pcrs, pin, conf, log) is Done,
        seal_turn(secret, pcrs, pin, conf, log)->Done_0 is Ok,
    ensures
        selection(TPM2_ALG_SHA256, pcrs) is Ok,
        0 <= r.0,
        r.0 + 1 < log.len(),
        seal_turn(secret, pcrs, pin, conf, log.take(r.0)) == TpmTurn::<Sealed>::Ask(
            TpmAsk::PolicyPcr {
                session: r.1,
                selection: selection(TPM2_ALG_SHA256, pcrs)->Ok_0,
            },
        ),
        pin.len() > 0 ==> seal_turn(secret, pcrs, pin, conf, log.take(r.0 + 1)) == TpmTurn::<
            Sealed,
        >::Ask(TpmAsk::PolicyAuthValue { session: r.1 }),
{
    let sel = selection(TPM2_ALG_SHA256, pcrs)->Ok_0;
    let m = srk_run(log, 2)->End_2;
    lemma_srk_prefix(log, 2, log.len() as int);
    let held = srk_run(log, 2)->End_1;
    let trial = log[m]->Handle_0->Ok_0;
    lemma_trial_prefix(sel, pin, held, log, m, log.len() as int);
    lemma_take(log, m + 1);
    lemma_srk_prefix(log, 2, m + 1);
    lemma_take(log, m + 2);
    lemma_srk_prefix(log, 2, m + 2);
    (m + 1, trial)
}

/// Where sealing that succeeds makes the object.
#[verifier::spinoff_prover]
#[verifier::rlimit(50)]
proof fn lemma_seal_makes(
    secret: Seq<u8>,
    pcrs: Seq<char>,
    pin: Seq<char>,
    conf: Seq<char>,
    log: Seq<TpmAnswer>,
) -> (k: int)
    requires
        seal_turn(secret, pcrs, pin, conf, log) is Done,
        seal_turn(secret, pcrs, pin, conf, log)->Done_0 is Ok,
    ensures
        0 <= k < log.len(),
        seal_turn(secret, pcrs, pin, conf, log.take(k)) is Ask,
        seal_turn(secret, pcrs, pin, conf, log.take(k))->Ask_0 is Create,
{
    let sel = selection(TPM2_ALG_SHA256, pcrs)->Ok_0;
    let m = srk_run(log, 2)->End_2;
    lemma_srk_prefix(log, 2, log.len() as int);
    let held = srk_run(log, 2)->End_1;
    let srk = srk_run(log, 2)->End_0->Ok_0.0;
    lemma_trial_prefix(sel, pin, held, log, m, log.len() as int);
    let trial = trial_run(sel, pin, held, log, m);
    let k = trial->End_2;
    lemma_create_prefix(srk, trial->End_0->Ok_0, secret, pin, log, k, log.len() as int);
    lemma_take(log, k);
    lemma_srk_prefix(log, 2, k);
    lemma_trial_prefix(sel, pin, held, log, m, k);
    k
}

/// What sealing asks for: the PCRs and, with a PIN, the authorization are bound, and
/// one kind of object is made, with the authorization of the PIN, that holds the secret.
#[verifier::spinoff_prover]
#[verifier::rlimit(50)]
proof fn lemma_seal_course(
    secret: Seq<u8>,
    pcrs: Seq<char>,
    pin: Seq<char>,
    conf: Seq<char>,
    log: Seq<TpmAnswer>,
) -> (trial: u32)
    requires
        seal_turn(secret, pcrs, pin, conf, log) is Done,
        seal_turn(secret, pcrs, pin, conf, log)->Done_0 is Ok,
    ensures
        ({
            let made = asks_of(
                |l: Seq<TpmAnswer>| seal_turn(secret, pcrs, pin, conf, l),
                log,
            );
            &&& selection(TPM2_ALG_SHA256, pcrs) is Ok
            &&& made.contains(
                TpmAsk::PolicyPcr {
                    session: trial,
                    selection: selection(TPM2_ALG_SHA256, pcrs)->Ok_0,
                },
            )
            &&& binds_auth(made) == (pin.len() > 0)
            &&& makes(made, pin_auth(pin), secret)
            &&& forall|auth: Seq<u8>, data: Seq<u8>| #[trigger]
                makes(made, auth, data) ==> auth == pin_auth(pin) && data == secret
        }),
{
    let turn = |l: Seq<TpmAnswer>| seal_turn(secret, pcrs, pin, conf, l);
    let made = asks_of(turn, log);
    let (i, trial) = lemma_seal_binds(secret, pcrs, pin, conf, log);
    let k = lemma_seal_makes(secret, pcrs, pin, conf, log);
    assert(turn(log.take(i)) is Ask && turn(log.take(i + 1)) == turn(log.take(i + 1)));
    if pin.len() > 0 {
        assert(made.contains(TpmAsk::PolicyAuthValue { session: trial }));
    }
    assert forall|ask: TpmAsk| #[trigger] made.contains(ask) implies match ask {
        TpmAsk::PolicyAuthValue { .. } => pin.len() > 0,
        TpmAsk::Create { auth, data, .. } => auth == pin_auth(pin) && data == secret,
        _ => true,
    } by {
        let n = choose|n: int|
            0 <= n < log.len() && #[trigger] turn(log.take(n)) == TpmTurn::<Sealed>::Ask(ask);
        lemma_seal_asks_for(secret, pcrs, pin, conf, log.take(n));
    }
    let create = turn(log.take(k))->Ask_0;
    assert(made.contains(create));
    assert(made.contains(
        TpmAsk::Create {
            parent: create->Create_parent,
            attributes: create->Create_attributes,
            policy: create->Create_policy,
            auth: pin_auth(pin),
            data: secret,
        },
    ));
    trial
}

/// What unsealing asks for on any way: the authorization of no other PIN, and that only
/// where the token wants one.
proof fn lemma_unseal_asks(
    token: Tpm2Ref,
    pin: Seq<char>,
    conf: Seq<char>,
    log: Seq<TpmAnswer>,
)
    ensures
        match try_unseal_turn(token, pin, conf, log, 0) {
            TpmTurn::Ask(TpmAsk::SetAuth { auth, .. }) => auth == pin_auth(pin),
            TpmTurn::Ask(TpmAsk::PolicyAuthValue { .. }) => token.pin_required,
            _ => true,
        },
{
}

/// A secret that is sealed comes back: where the TPM that sealed it is faithful, a token
/// that holds what sealing gave yields the secret, with the same PIN or without a need
/// for one. With another PIN it yields a failure that names the token, unless the two
/// PINs have one digest; without a PIN it is not tried.
#[verifier::spinoff_prover]
#[verifier::rlimit(50)]
pub proof fn law_sealed_secret_comes_back(
    secret: Seq<u8>,
    pcrs: Seq<char>,
    pin: Seq<char>,
    conf: Seq<char>,
    log: Seq<TpmAnswer>,
    token: Tpm2Ref,
    later_pin: Seq<char>,
    later_conf: Seq<char>,
    later: Seq<TpmAnswer>,
)
    requires
        seal_turn(secret, pcrs, pin, conf, log) is Done,
        seal_turn(secret, pcrs, pin, conf, log)->Done_0 is Ok,
        token.blob == seal_turn(secret, pcrs, pin, conf, log)->Done_0->Ok_0.blob,
        token.pcrs == pcrs,
        token.pcr_bank == "sha256"@,
        token.pin_required == (pin.len() > 0),
        !later_conf.contains('\0'),
        unseal_tokens_turn(seq![token], later_pin, later_conf, later) is Done,
        faithful(
            asks_of(|l: Seq<TpmAnswer>| seal_turn(secret, pcrs, pin, conf, l), log),
            token.blob,
            |l: Seq<TpmAnswer>| unseal_tokens_turn(seq![token], later_pin, later_conf, l),
            later,
        ),
    ensures
        ({
            let r = unseal_tokens_turn(seq![token], later_pin, later_conf, later)->Done_0;
            if pin.len() == 0 || later_pin == pin {
                r == Ok::<Seq<u8>, Seq<char>>(secret)
            } else if later_pin.len() == 0 {
                r == Err::<Seq<u8>, Seq<char>>("No systemd-tpm2 token could be unsealed"@)
            } else {
                pin_auth(later_pin) != pin_auth(pin) ==> r is Err && starts_with(
                    r->Err_0,
                    "Token "@ + token.token_id + ": "@,
                )
            }
        }),
{
    let seal = |l: Seq<TpmAnswer>| seal_turn(secret, pcrs, pin, conf, l);
    let turn = |l: Seq<TpmAnswer>| unseal_tokens_turn(seq![token], later_pin, later_conf, l);
    let one = |l: Seq<TpmAnswer>| try_unseal_turn(token, later_pin, later_conf, l, 0);
    let made = asks_of(seal, log);
    law_one_token(token, later_pin, later_conf, later);
    if !(later_pin.len() == 0 && token.pin_required) {
        let trial = lemma_seal_course(secret, pcrs, pin, conf, log);
        lemma_sha256_bank();
        let sel = selection(TPM2_ALG_SHA256, pcrs)->Ok_0;
        assert forall|l: Seq<TpmAnswer>| (#[trigger] turn(l) is Ask) == (one(l) is Ask) && (turn(
            l,
        ) is Ask ==> turn(l) == one(l)) by {
            law_one_token(token, later_pin, later_conf, l);
        }
        assert forall|j: int| 0 <= j < later.len() implies match #[trigger] try_unseal_turn(
            token,
            later_pin,
            later_conf,
            later.take(j),
            0,
        ) {
            TpmTurn::Ask(ask) => obliges(ask, later[j]),
            TpmTurn::Done(_, _) => true,
        } by {
            assert(one(later.take(j)) == try_unseal_turn(
                token,
                later_pin,
                later_conf,
                later.take(j),
                0,
            ));
            assert(turn(later.take(j)) is Ask == one(later.take(j)) is Ask);
        }
        let (j, object, session) = lemma_unseal_course(token, sel, later_pin, later_conf, later);
        let before = later.take(j);
        let asks = asks_of(one, before);
        assert(asks =~= asks_of(turn, before)) by {
            assert forall|ask: TpmAsk| asks.contains(ask) == asks_of(turn, before).contains(ask) by {
                if asks.contains(ask) {
                    let i = choose|i: int|
                        0 <= i < before.len() && #[trigger] one(before.take(i)) == TpmTurn::<
                            Seq<u8>,
                        >::Ask(ask);
                    assert(turn(before.take(i)) == TpmTurn::<Seq<u8>>::Ask(ask));
                }
                if asks_of(turn, before).contains(ask) {
                    let i = choose|i: int|
                        0 <= i < before.len() && #[trigger] turn(before.take(i)) == TpmTurn::<
                            Seq<u8>,
                        >::Ask(ask);
                    assert(one(before.take(i)) == TpmTurn::<Seq<u8>>::Ask(ask));
                }
            }
        }
        assert(turn(before) == TpmTurn::<Seq<u8>>::Ask(TpmAsk::Unseal { object, session }));
        assert(gives_back(made, asks, object, session, later[j]));
        law_unseal_gives_the_answer(token, later_pin, later_conf, later, 0, j);
        assert forall|ask: TpmAsk| #[trigger] asks.contains(ask) implies match ask {
            TpmAsk::SetAuth { auth, .. } => auth == pin_auth(later_pin),
            TpmAsk::PolicyAuthValue { .. } => token.pin_required,
            _ => true,
        } by {
            let i = choose|i: int|
                0 <= i < before.len() && #[trigger] one(before.take(i)) == TpmTurn::<
                    Seq<u8>,
                >::Ask(ask);
            lemma_unseal_asks(token, later_pin, later_conf, before.take(i));
        }
        if pin.len() == 0 || later_pin == pin {
            assert(made.contains(TpmAsk::PolicyPcr { session: trial, selection: sel }));
            assert(makes(made, pin_auth(pin), secret));
            assert(opens(made, asks, object, session));
        } else if pin_auth(later_pin) != pin_auth(pin) {
            assert(!opens(made, asks, object, session));
            let e = try_unseal_turn(token, later_pin, later_conf, later, 0)->Done_0->Err_0;
            let tag = "Token "@ + token.token_id + ": "@;
            assert((tag + e).take(tag.len() as int) =~= tag);
        }
    }
}

} // verus!
