//! Block devices: their names, their sizes, and which of them are encrypted.

use vstd::arithmetic::power2::{
    lemma2_to64, lemma2_to64_rest, lemma_pow2_adds, lemma_pow2_pos, lemma_pow2_strictly_increases,
    lemma_pow2_unfold, pow2,
};
use vstd::prelude::*;

use crate::facts::{
    asks, first_open, holds, law_some_world_agrees, lemma_open_add, lemma_open_cons,
    lemma_open_each, lemma_open_one, reads_each, settled, Facts, Found, Knowledge, Query,
    TagTexts, World,
};
use crate::json::{array, put, trees, value_tree, JsonTree, Members, ObjectBuilder};
use crate::order::{sort_of, sorted, views};
use crate::text::{
    all_digits, chars_of, chars_start_with, clone_strings, concat, concat3, contains_text, dec,
    dec_u64, digit, digits_only, is_digit, join, law_split_join, lemma_split_nonempty, opt_text,
    parse_u64, parse_u64_spec, split, split_chars, starts_with, str_eq, str_starts_with, sub_string,
    texts, trim, trim_chars, trim_str, words, words_of,
};

verus! {

// ---------------------------------------------------------------------------
// Names
// ---------------------------------------------------------------------------

/// The last component of a path.
pub open spec fn base_of(device: Seq<char>) -> Seq<char> {
    split(device, '/').last()
}

/// The last component of a path.
pub fn basename(device: &str) -> (r: String)
    ensures
        r@ == base_of(device@),
{
    let chars = chars_of(device);
    let mut parts = split_chars(chars.as_slice(), '/');
    proof {
        lemma_split_nonempty(device@, '/');
    }
    let ghost t = texts(parts@);
    assert(parts@.len() == t.len());
    let n: usize = parts.len();
    assert(t.last() == parts@[n - 1]@);
    parts[n - 1].clone()
}

/// The number of digits in a row in `s` from `i` on.
pub open spec fn digit_run(s: Seq<char>, i: int) -> int
    decreases s.len() - i,
{
    if 0 <= i < s.len() && is_digit(s[i]) {
        1 + digit_run(s, i + 1)
    } else {
        0
    }
}

fn digits_from(s: &[char], i: usize) -> (r: usize)
    requires
        i <= s@.len(),
    ensures
        r == digit_run(s@, i as int),
        i + r <= s@.len(),
{
    let mut k: usize = i;
    while k < s.len() && digit(s[k])
        invariant
            i <= k <= s@.len(),
            digit_run(s@, i as int) == (k - i) + digit_run(s@, k as int),
        decreases s@.len() - k,
    {
        k = k + 1;
    }
    k - i
}

/// Where the name of the whole disk ends in an NVMe name: `nvme`, a number, `n`
/// and a number; none in any other name.
pub open spec fn nvme_end(name: Seq<char>) -> Option<int> {
    let controller = digit_run(name, 4);
    let n = 4 + controller;
    let namespace = digit_run(name, n + 1);
    if starts_with(name, "nvme"@) && controller > 0 && n < name.len() && name[n] == 'n' && namespace
        > 0 {
        Some(n + 1 + namespace)
    } else {
        None
    }
}

/// Takes an NVMe name apart: how long the name of the whole disk is, and what
/// comes behind it.
pub fn parse_nvme(name: &str) -> (r: Option<(usize, String)>)
    ensures
        match r {
            Some((end, suffix)) => nvme_end(name@) == Some(end as int) && end <= name@.len()
                && suffix@ == name@.skip(end as int),
            None => nvme_end(name@) is None,
        },
{
    let s = chars_of(name);
    proof {
        reveal_strlit("nvme");
    }
    if !chars_start_with(s.as_slice(), "nvme") {
        return None;
    }
    let total: usize = s.len();
    let controller = digits_from(s.as_slice(), 4);
    let n: usize = 4 + controller;
    if controller == 0 || n >= total || s[n] != 'n' {
        return None;
    }
    let namespace = digits_from(s.as_slice(), n + 1);
    if namespace == 0 {
        return None;
    }
    let end: usize = n + 1 + namespace;
    let suffix = sub_string(s.as_slice(), end, s.len());
    assert(s@.subrange(end as int, s@.len() as int) =~= s@.skip(end as int));
    Some((end, suffix))
}

/// The whole disk that an NVMe partition lies on: the name in front of `p` and a
/// number.
pub open spec fn nvme_parent(name: Seq<char>) -> Option<Seq<char>> {
    match nvme_end(name) {
        Some(end) => {
            let suffix = name.skip(end);
            if suffix.len() > 1 && suffix[0] == 'p' && all_digits(suffix.skip(1)) {
                Some(name.take(end))
            } else {
                None
            }
        },
        None => None,
    }
}

fn nvme_partition_parent(name: &str) -> (r: Option<String>)
    ensures
        match r {
            Some(parent) => nvme_parent(name@) == Some(parent@),
            None => nvme_parent(name@) is None,
        },
{
    match parse_nvme(name) {
        Some((end, suffix)) => {
            let c = chars_of(suffix.as_str());
            if c.len() < 2 || c[0] != 'p' {
                return None;
            }
            let d = sub_string(c.as_slice(), 1, c.len());
            let d = chars_of(d.as_str());
            assert(d@ =~= suffix@.skip(1));
            if !digits_only(d.as_slice()) {
                return None;
            }
            let s = chars_of(name);
            let parent = sub_string(s.as_slice(), 0, end);
            assert(parent@ =~= name@.take(end as int));
            Some(parent)
        },
        None => None,
    }
}

/// Lower-case ASCII letters.
pub open spec fn is_lower(c: char) -> bool {
    'a' <= c && c <= 'z'
}

/// The number of lower-case letters in a row in `s` from `i` on.
pub open spec fn letter_run(s: Seq<char>, i: int) -> int
    decreases s.len() - i,
{
    if 0 <= i < s.len() && is_lower(s[i]) {
        1 + letter_run(s, i + 1)
    } else {
        0
    }
}

/// The letters of a name that is letters followed by a number.
pub open spec fn letters_parent(name: Seq<char>) -> Option<Seq<char>> {
    let n = letter_run(name, 0);
    if 0 < n < name.len() && all_digits(name.skip(n)) {
        Some(name.take(n))
    } else {
        None
    }
}

fn letters_then_digits_parent(name: &str) -> (r: Option<String>)
    ensures
        match r {
            Some(parent) => letters_parent(name@) == Some(parent@),
            None => letters_parent(name@) is None,
        },
{
    let s = chars_of(name);
    let mut n: usize = 0;
    while n < s.len() && 'a' <= s[n] && s[n] <= 'z'
        invariant
            n <= s@.len(),
            letter_run(s@, 0) == n + letter_run(s@, n as int),
        decreases s@.len() - n,
    {
        n = n + 1;
    }
    if n == 0 || n == s.len() {
        return None;
    }
    let d = sub_string(s.as_slice(), n, s.len());
    let d = chars_of(d.as_str());
    assert(d@ =~= name@.skip(n as int));
    if !digits_only(d.as_slice()) {
        return None;
    }
    let parent = sub_string(s.as_slice(), 0, n);
    assert(parent@ =~= name@.take(n as int));
    Some(parent)
}

/// The kernel's name of the disk that a device is, or is a partition of. A name
/// that is neither an NVMe partition nor letters and a number stays as it is.
pub open spec fn parent_of(device: Seq<char>) -> Seq<char> {
    let base = base_of(device);
    match nvme_parent(base) {
        Some(parent) => parent,
        None => match letters_parent(base) {
            Some(parent) => parent,
            None => base,
        },
    }
}

/// The kernel's name of the disk of a device: `sdb1` lies on `sdb`, and
/// `nvme0n1p2` on `nvme0n1`.
pub fn parent_device_name(device: &str) -> (r: String)
    ensures
        r@ == parent_of(device@),
{
    let base = basename(device);
    match nvme_partition_parent(base.as_str()) {
        Some(parent) => parent,
        None => match letters_then_digits_parent(base.as_str()) {
            Some(parent) => parent,
            None => base,
        },
    }
}

/// Whether a block device of that name is never of interest.
pub open spec fn is_virtual(name: Seq<char>) -> bool {
    starts_with(name, "loop"@) || starts_with(name, "ram"@) || starts_with(name, "zram"@)
}

/// Whether a block device of that name is never of interest.
pub fn is_virtual_block_name(name: &str) -> (r: bool)
    ensures
        r == is_virtual(name@),
{
    str_starts_with(name, "loop") || str_starts_with(name, "ram") || str_starts_with(name, "zram")
}

// ---------------------------------------------------------------------------
// Sizes
// ---------------------------------------------------------------------------

/// The integer nearest to `a / b`, the even one if two are.
pub open spec fn round_even(a: nat, b: nat) -> nat {
    let q = a / b;
    let r = a % b;
    if 2 * r > b || (2 * r == b && q % 2 == 1) {
        q + 1
    } else {
        q
    }
}

/// How often `u` can be doubled without exceeding `a`.
pub open spec fn doublings(a: nat, u: nat) -> nat
    decreases a - u,
{
    if u == 0 || a < 2 * u {
        0
    } else {
        1 + doublings(a, 2 * u)
    }
}

/// The double-precision number nearest to `n`, which is an integer.
pub open spec fn nearest_double(n: nat) -> nat {
    if n < 0x20_0000_0000_0000 {
        n
    } else {
        let e = doublings(n, 0x10_0000_0000_0000);
        round_even(n, pow2(e)) * pow2(e)
    }
}

/// `n / unit`, computed in double precision, in tenths: the quotient has a
/// mantissa of 53 bits, and the tenths are rounded to the nearest, even on a
/// tie. This is how a `{:.1}` of the quotient reads.
pub open spec fn tenths(n: nat, unit: nat) -> nat {
    let a = nearest_double(n);
    let k = (52 - doublings(a, unit)) as nat;
    let mantissa = round_even(a * pow2(k), unit);
    round_even(mantissa * 10, pow2(k))
}

/// A number of tenths as a decimal fraction, and a unit behind it.
pub open spec fn amount(t: nat, unit: Seq<char>) -> Seq<char> {
    dec((t / 10) as int) + "."@ + dec((t % 10) as int) + unit
}

/// A size in decimal units: `32.0 GB`, `1.5 TB`, `512 B`.
pub open spec fn size_text(n: nat) -> Seq<char> {
    if n >= 1_000_000_000_000 {
        amount(tenths(n, 1_000_000_000_000), " TB"@)
    } else if n >= 1_000_000_000 {
        amount(tenths(n, 1_000_000_000), " GB"@)
    } else if n >= 1_000_000 {
        amount(tenths(n, 1_000_000), " MB"@)
    } else if n >= 1_000 {
        amount(tenths(n, 1_000), " KB"@)
    } else {
        dec(n as int) + " B"@
    }
}

fn rounded(a: u128, b: u128) -> (r: u128)
    requires
        0 < b < 0x4000_0000_0000_0000_0000_0000_0000_0000,
        a < 0x4000_0000_0000_0000_0000_0000_0000_0000,
    ensures
        r == round_even(a as nat, b as nat),
        r <= a + 1,
{
    let q = a / b;
    let r = a % b;
    assert(q <= a) by (nonlinear_arith)
        requires
            q == a / b,
            b > 0,
    ;
    if 2 * r > b || (2 * r == b && q % 2 == 1) {
        q + 1
    } else {
        q
    }
}

/// How often `u` can be doubled without exceeding `a`, and that power of two.
fn count_doublings(a: u128, u: u128) -> (r: (u32, u128))
    requires
        0 < u <= a <= 0x1_0000_0000_0000_0000,
    ensures
        r.0 == doublings(a as nat, u as nat),
        r.1 == pow2(r.0 as nat),
        u * r.1 <= a,
        a < 2 * (u * r.1),
        r.0 <= 64,
{
    let mut e: u32 = 0;
    let mut p: u128 = 1;
    let mut v: u128 = u;
    proof {
        lemma2_to64();
        assert(u * 1 == u) by (nonlinear_arith);
    }
    while a >= 2 * v
        invariant
            0 < u <= v <= a <= 0x1_0000_0000_0000_0000,
            v == u * p,
            p == pow2(e as nat),
            p <= v,
            doublings(a as nat, u as nat) == e + doublings(a as nat, v as nat),
            e <= 64,
        decreases a - v,
    {
        proof {
            lemma2_to64();
            lemma_pow2_unfold((e + 1) as nat);
            assert(2 * v == u * (2 * p)) by (nonlinear_arith)
                requires
                    v == u * p,
            ;
            if e == 64 {
                assert(false);
            }
        }
        v = 2 * v;
        p = 2 * p;
        e = e + 1;
    }
    (e, p)
}

/// The double-precision number nearest to `n`.
fn to_double(n: u64) -> (r: u128)
    ensures
        r == nearest_double(n as nat),
        r <= 0x1_0000_0000_0000_0000,
        n < 0x20_0000_0000_0000 ==> r == n,
        n >= 0x20_0000_0000_0000 ==> r >= 0x10_0000_0000_0000,
{
    if n < 0x20_0000_0000_0000 {
        return n as u128;
    }
    let (e, p) = count_doublings(n as u128, 0x10_0000_0000_0000);
    proof {
        lemma_pow2_pos(e as nat);
    }
    let m = rounded(n as u128, p);
    proof {
        let q = n as nat / p as nat;
        assert(0x10_0000_0000_0000 <= q < 0x20_0000_0000_0000) by (nonlinear_arith)
            requires
                q == n as nat / p as nat,
                p > 0,
                0x10_0000_0000_0000 * p <= n,
                n < 2 * (0x10_0000_0000_0000 * p),
        ;
        assert(p < 0x1000);
        lemma2_to64();
        if e > 11 {
            if e > 12 {
                lemma_pow2_strictly_increases(12, e as nat);
            }
            assert(false);
        }
        if e < 11 {
            lemma_pow2_strictly_increases(e as nat, 11);
        }
        assert(0x10_0000_0000_0000 <= m * p <= 0x20_0000_0000_0000 * 0x800) by (nonlinear_arith)
            requires
                0x10_0000_0000_0000 <= m <= 0x20_0000_0000_0000,
                0 < p <= 0x800,
        ;
    }
    m * p
}

/// `n / unit` in tenths.
fn count_tenths(n: u64, unit: u64) -> (r: u64)
    requires
        1_000 <= unit <= 1_000_000_000_000,
        unit <= n,
        unit == 1_000_000_000_000 || n < 1_000 * unit,
    ensures
        r == tenths(n as nat, unit as nat),
{
    let a = to_double(n);
    let u = unit as u128;
    let (e, p) = count_doublings(a, u);
    proof {
        lemma2_to64();
        lemma_pow2_pos(e as nat);
        if unit == 1_000_000_000_000 {
            assert(p < 0x2000000) by (nonlinear_arith)
                requires
                    u * p <= a,
                    u == 1_000_000_000_000,
                    a <= 0x1_0000_0000_0000_0000,
            ;
        } else {
            assert(a == n);
            assert(p < 0x2000000) by (nonlinear_arith)
                requires
                    u * p <= a,
                    a < 1_000 * u,
                    u > 0,
            ;
        }
        if e >= 25 {
            if e > 25 {
                lemma_pow2_strictly_increases(25, e as nat);
            }
            assert(false);
        }
    }
    let k: u32 = 52 - e;
    let pk: u128 = 0x10_0000_0000_0000 / p;
    proof {
        lemma_pow2_adds(e as nat, k as nat);
        lemma_pow2_pos(k as nat);
        lemma2_to64_rest();
        let two = pow2(k as nat);
        assert(p * two == 0x10_0000_0000_0000);
        assert(0x10_0000_0000_0000int / p as int == two) by (nonlinear_arith)
            requires
                p * two == 0x10_0000_0000_0000,
                p > 0,
        ;
        assert(pk <= 0x10_0000_0000_0000) by (nonlinear_arith)
            requires
                p * pk == 0x10_0000_0000_0000,
                p > 0,
        ;
        assert(a * pk <= 0x1_0000_0000_0000_0000 * 0x10_0000_0000_0000) by (nonlinear_arith)
            requires
                a <= 0x1_0000_0000_0000_0000,
                pk <= 0x10_0000_0000_0000,
        ;
    }
    let m = rounded(a * pk, u);
    proof {
        let q = (a * pk) as int / u as int;
        assert(a * pk < u * 0x20_0000_0000_0000) by (nonlinear_arith)
            requires
                a < 2 * (u * p),
                p * pk == 0x10_0000_0000_0000,
                pk > 0,
        ;
        assert(q < 0x20_0000_0000_0000) by (nonlinear_arith)
            requires
                q == (a * pk) as int / u as int,
                a * pk < u * 0x20_0000_0000_0000,
                u > 0,
        ;
    }
    let t = rounded(m * 10, pk);
    t as u64
}

fn amount_text(t: u64, unit: &str) -> (r: String)
    ensures
        r@ == amount(t as nat, unit@),
{
    let whole = dec_u64(t / 10);
    let part = dec_u64(t % 10);
    let s = concat3(whole.as_str(), ".", part.as_str());
    concat(s.as_str(), unit)
}

/// A size in decimal units: `32.0 GB`, `1.5 TB`, `512 B`.
pub fn format_size(size_bytes: u64) -> (r: String)
    ensures
        r@ == size_text(size_bytes as nat),
{
    if size_bytes >= 1_000_000_000_000 {
        amount_text(count_tenths(size_bytes, 1_000_000_000_000), " TB")
    } else if size_bytes >= 1_000_000_000 {
        amount_text(count_tenths(size_bytes, 1_000_000_000), " GB")
    } else if size_bytes >= 1_000_000 {
        amount_text(count_tenths(size_bytes, 1_000_000), " MB")
    } else if size_bytes >= 1_000 {
        amount_text(count_tenths(size_bytes, 1_000), " KB")
    } else {
        let n = dec_u64(size_bytes);
        concat(n.as_str(), " B")
    }
}

// ---------------------------------------------------------------------------
// Queries
// ---------------------------------------------------------------------------

/// The text of a sysfs file, without the white space around it.
pub open spec fn sysfs_text(w: World, path: Seq<char>) -> Option<Seq<char>> {
    match (w.file)(path) {
        Some(s) => Some(trim(s)),
        None => None,
    }
}

/// The text of a sysfs file, without the white space around it.
pub fn read_sysfs(facts: &Facts, path: &str) -> (r: Found<Option<String>>)
    ensures
        match r {
            Found::Ready(v) => {
                &&& facts@.knows(Query::File(path@))
                &&& holds(facts@, opt_text(v), |w: World| sysfs_text(w, path@))
            },
            Found::Need(q) => q@ == Query::File(path@) && !facts@.knows(q@),
        },
{
    match facts.file(path) {
        Found::Ready(Some(s)) => Found::Ready(Some(trim_str(s))),
        Found::Ready(None) => Found::Ready(None),
        Found::Need(q) => Found::Need(q),
    }
}

/// The size in a sysfs `size` file, which counts sectors of 512 bytes; zero
/// where there is no number. The product is taken modulo 2^64.
pub open spec fn sysfs_size(w: World, path: Seq<char>) -> u64 {
    match sysfs_text(w, path) {
        Some(s) => match parse_u64_spec(s) {
            Some(n) => ((n * 512) % 0x1_0000_0000_0000_0000) as u64,
            None => 0,
        },
        None => 0,
    }
}

/// The size in bytes that a sysfs `size` file gives.
pub fn sysfs_size_bytes(facts: &Facts, path: &str) -> (r: Found<u64>)
    ensures
        match r {
            Found::Ready(v) => {
                &&& facts@.knows(Query::File(path@))
                &&& holds(facts@, v, |w: World| sysfs_size(w, path@))
            },
            Found::Need(q) => q@ == Query::File(path@) && !facts@.knows(q@),
        },
{
    match read_sysfs(facts, path) {
        Found::Ready(Some(s)) => {
            let c = chars_of(s.as_str());
            match parse_u64(c.as_slice()) {
                Some(n) => Found::Ready(((n as u128 * 512) % 0x1_0000_0000_0000_0000) as u64),
                None => Found::Ready(0),
            }
        },
        Found::Ready(None) => Found::Ready(0),
        Found::Need(q) => Found::Need(q),
    }
}

/// The names in a directory, in order.
pub open spec fn dir_names(w: World, dir: Seq<char>) -> Seq<Seq<char>> {
    sort_of::<String>((w.dir)(dir))
}

/// The names in a directory, in order.
pub fn sorted_dir_names(facts: &Facts, dir: &str) -> (r: Found<Vec<String>>)
    ensures
        match r {
            Found::Ready(v) => {
                &&& facts@.knows(Query::Dir(dir@))
                &&& holds(facts@, texts(v@), |w: World| dir_names(w, dir@))
            },
            Found::Need(q) => q@ == Query::Dir(dir@) && !facts@.knows(q@),
        },
{
    match facts.dir(dir) {
        Found::Ready(names) => {
            let copy = clone_strings(names);
            assert(views(copy@) =~= texts(names@));
            let r = sorted(copy);
            assert(views(r@) =~= texts(r@));
            Found::Ready(r)
        },
        Found::Need(q) => Found::Need(q),
    }
}

/// `v`, unless it is empty.
pub open spec fn nonempty(v: Option<Seq<char>>) -> Option<Seq<char>> {
    match v {
        Some(s) => if s.len() > 0 {
            Some(s)
        } else {
            None
        },
        None => None,
    }
}

/// A tag of a device by its name; an empty one does not count.
pub open spec fn tag_of(t: TagTexts, tag: Seq<char>) -> Option<Seq<char>> {
    if tag == "LABEL"@ {
        nonempty(t.label)
    } else if tag == "TYPE"@ {
        nonempty(t.kind)
    } else if tag == "UUID"@ {
        nonempty(t.uuid)
    } else {
        None
    }
}

fn nonempty_copy(v: &Option<String>) -> (r: Option<String>)
    ensures
        opt_text(r) == nonempty(opt_text(*v)),
{
    match v {
        Some(s) => {
            if s.as_str().is_empty() {
                None
            } else {
                Some(s.clone())
            }
        },
        None => None,
    }
}

/// A tag of a device: `LABEL`, `TYPE` or `UUID`.
pub fn blkid_tag(facts: &Facts, device: &str, tag: &str) -> (r: Found<Option<String>>)
    ensures
        match r {
            Found::Ready(v) => facts@.knows(Query::Tags(device@)) && holds(
                facts@,
                opt_text(v),
                |w: World| tag_of((w.tags)(device@), tag@),
            ),
            Found::Need(q) => q@ == Query::Tags(device@) && !facts@.knows(q@),
        },
{
    match facts.device_tags(device) {
        Found::Ready(t) => {
            if str_eq(tag, "LABEL") {
                Found::Ready(nonempty_copy(&t.label))
            } else if str_eq(tag, "TYPE") {
                Found::Ready(nonempty_copy(&t.kind))
            } else if str_eq(tag, "UUID") {
                Found::Ready(nonempty_copy(&t.uuid))
            } else {
                Found::Ready(None)
            }
        },
        Found::Need(q) => Found::Need(q),
    }
}

/// Whether a device, or the disk that it lies on, is removable.
pub open spec fn removable(w: World, device: Seq<char>) -> bool {
    sysfs_text(w, "/sys/block/"@ + parent_of(device) + "/removable"@) == Some("1"@)
}

/// The question whether a device is removable: it is about the disk.
pub open spec fn removable_file(device: Seq<char>) -> Query {
    Query::File("/sys/block/"@ + parent_of(device) + "/removable"@)
}

/// Whether a device, or the disk that it lies on, is removable.
pub fn is_removable(facts: &Facts, device: &str) -> (r: Found<bool>)
    ensures
        match r {
            Found::Ready(v) => {
                &&& facts@.knows(removable_file(device@))
                &&& holds(facts@, v, |w: World| removable(w, device@))
            },
            Found::Need(q) => q@ == removable_file(device@) && !facts@.knows(q@),
        },
{
    let parent = parent_device_name(device);
    let path = concat3("/sys/block/", parent.as_str(), "/removable");
    match read_sysfs(facts, path.as_str()) {
        Found::Ready(Some(s)) => Found::Ready(str_eq(s.as_str(), "1")),
        Found::Ready(None) => Found::Ready(false),
        Found::Need(q) => Found::Need(q),
    }
}

/// Whether a device is a partition.
pub open spec fn partition(w: World, device: Seq<char>) -> bool {
    (w.canonical)("/sys/class/block/"@ + base_of(device) + "/partition"@) is Some
}

/// The question whether a device is a partition.
pub open spec fn partition_link(device: Seq<char>) -> Query {
    Query::Canonical("/sys/class/block/"@ + base_of(device) + "/partition"@)
}

/// Whether a device is a partition, not a whole disk.
pub fn is_partition(facts: &Facts, device: &str) -> (r: Found<bool>)
    ensures
        match r {
            Found::Ready(v) => {
                &&& facts@.knows(partition_link(device@))
                &&& holds(facts@, v, |w: World| partition(w, device@))
            },
            Found::Need(q) => q@ == partition_link(device@) && !facts@.knows(q@),
        },
{
    let base = basename(device);
    let path = concat3("/sys/class/block/", base.as_str(), "/partition");
    match facts.canonical(path.as_str()) {
        Found::Ready(v) => Found::Ready(v.is_some()),
        Found::Need(q) => Found::Need(q),
    }
}

/// Whether the block device `name` is a LUKS device that is of interest.
pub open spec fn is_luks(w: World, name: Seq<char>) -> bool {
    !is_virtual(name) && tag_of((w.tags)("/dev/"@ + name), "TYPE"@) == Some("crypto_LUKS"@)
}

/// The device nodes of the LUKS devices among `names`.
pub open spec fn luks_nodes(w: World, names: Seq<Seq<char>>) -> Seq<Seq<char>>
    decreases names.len(),
{
    if names.len() == 0 {
        seq![]
    } else {
        let before = luks_nodes(w, names.drop_last());
        if is_luks(w, names.last()) {
            before.push("/dev/"@ + names.last())
        } else {
            before
        }
    }
}

/// The LUKS devices of the machine, in the order of their names.
pub open spec fn luks_devices(w: World) -> Seq<Seq<char>> {
    luks_nodes(w, dir_names(w, "/sys/class/block"@))
}

/// The question about the block device `name`, unless it is virtual: its tags.
pub open spec fn node_reads() -> spec_fn(Seq<char>) -> Seq<Query> {
    |name: Seq<char>|
        if is_virtual(name) {
            seq![]
        } else {
            seq![Query::Tags("/dev/"@ + name)]
        }
}

/// What the LUKS devices of the machine are found by: the block devices, and the tags
/// of each that is not virtual, in the order of their names.
pub open spec fn luks_reads(w: World) -> Seq<Query> {
    seq![Query::Dir("/sys/class/block"@)] + reads_each(
        dir_names(w, "/sys/class/block"@),
        node_reads(),
    )
}

proof fn lemma_luks_open(k: Knowledge)
    ensures
        forall|w: World|
            first_open(k, #[trigger] luks_reads(w)) == if k.knows(
                Query::Dir("/sys/class/block"@),
            ) {
                first_open(k, reads_each(dir_names(w, "/sys/class/block"@), node_reads()))
            } else {
                Some(Query::Dir("/sys/class/block"@))
            },
{
    assert forall|w: World|
        first_open(k, #[trigger] luks_reads(w)) == if k.knows(Query::Dir("/sys/class/block"@)) {
            first_open(k, reads_each(dir_names(w, "/sys/class/block"@), node_reads()))
        } else {
            Some(Query::Dir("/sys/class/block"@))
        } by {
        lemma_open_cons(
            k,
            Query::Dir("/sys/class/block"@),
            reads_each(dir_names(w, "/sys/class/block"@), node_reads()),
        );
    }
}

/// The LUKS devices of the machine, in the order of their names.
pub fn find_luks_block_devices(facts: &Facts) -> (r: Found<Vec<String>>)
    ensures
        match r {
            Found::Ready(v) => {
                &&& settled(facts@, |w: World| luks_reads(w))
                &&& holds(facts@, texts(v@), |w: World| luks_devices(w))
            },
            Found::Need(q) => asks(facts@, q@, |w: World| luks_reads(w)),
        },
{
    proof {
        lemma_luks_open(facts@);
    }
    let names = match sorted_dir_names(facts, "/sys/class/block") {
        Found::Ready(v) => v,
        Found::Need(q) => {
            return Found::Need(q);
        },
    };
    let ghost t = texts(names@);
    let mut out: Vec<String> = Vec::new();
    assert forall|w: World| #[trigger] facts@.agrees(w) implies texts(out@) == luks_nodes(
        w,
        t.take(0),
    ) by {
        assert(texts(out@) =~= luks_nodes(w, t.take(0)));
    }
    for i in 0..names.len()
        invariant
            t == texts(names@),
            facts@.knows(Query::Dir("/sys/class/block"@)),
            holds(facts@, t, |w: World| dir_names(w, "/sys/class/block"@)),
            first_open(facts@, reads_each(t.take(i as int), node_reads())) is None,
            forall|w: World| #[trigger]
                facts@.agrees(w) ==> texts(out@) == luks_nodes(w, t.take(i as int)),
    {
        assert(t.take(i + 1).drop_last() =~= t.take(i as int));
        let ghost before = out@;
        proof {
            lemma_luks_open(facts@);
            lemma_open_each(facts@, t, node_reads(), i as int);
            lemma_open_one(facts@, Query::Tags("/dev/"@ + t[i as int]));
        }
        let name = names[i].as_str();
        if !is_virtual_block_name(name) {
            let dev = concat("/dev/", name);
            match blkid_tag(facts, dev.as_str(), "TYPE") {
                Found::Ready(Some(kind)) => {
                    if str_eq(kind.as_str(), "crypto_LUKS") {
                        out.push(dev);
                        assert(texts(out@) =~= texts(before).push("/dev/"@ + t[i as int]));
                    }
                },
                Found::Ready(None) => {},
                Found::Need(q) => {
                    return Found::Need(q);
                },
            }
        }
    }
    assert(t.take(t.len() as int) =~= t);
    Found::Ready(out)
}

/// `list` with `item` behind it, unless it is in it.
pub open spec fn with_item(list: Seq<Seq<char>>, item: Seq<char>) -> Seq<Seq<char>> {
    if list.contains(item) {
        list
    } else {
        list.push(item)
    }
}

fn add_item(list: &mut Vec<String>, item: String)
    ensures
        texts(final(list)@) == with_item(texts(old(list)@), item@),
{
    if !contains_text(list, item.as_str()) {
        list.push(item);
        assert(texts(list@) =~= texts(old(list)@).push(item@));
    }
}

/// The path `b` taken from the directory `a`.
pub open spec fn path_join(a: Seq<char>, b: Seq<char>) -> Seq<char> {
    if starts_with(b, "/"@) {
        b
    } else if a.len() == 0 || a.last() == '/' {
        a + b
    } else {
        a + "/"@ + b
    }
}

/// The path `b` taken from the directory `a`.
pub fn join_path(a: &str, b: &str) -> (r: String)
    ensures
        r@ == path_join(a@, b@),
{
    if str_starts_with(b, "/") {
        return b.to_string();
    }
    let c = chars_of(a);
    if c.len() == 0 || c[c.len() - 1] == '/' {
        concat(a, b)
    } else {
        concat3(a, "/", b)
    }
}

/// The source field of a crypttab line; none in a comment, a blank line, or one
/// with a single field.
pub open spec fn crypttab_source(line: Seq<char>) -> Option<Seq<char>> {
    let l = trim(line);
    if l.len() == 0 || l[0] == '#' || words(l).len() < 2 {
        None
    } else {
        Some(words(l)[1])
    }
}

fn source_field(line: &str) -> (r: Option<String>)
    ensures
        opt_text(r) == crypttab_source(line@),
{
    let c = chars_of(line);
    let l = trim_chars(c.as_slice());
    if l.len() == 0 || l[0] == '#' {
        return None;
    }
    let fields = words_of(l.as_slice());
    assert(fields@.len() == texts(fields@).len());
    if fields.len() < 2 {
        return None;
    }
    assert(texts(fields@)[1] == fields@[1]@);
    Some(fields[1].clone())
}

/// The path that a crypttab source names.
pub open spec fn source_path(src: Seq<char>, by_uuid: Seq<char>) -> Seq<char> {
    if starts_with(src, "UUID="@) {
        path_join(by_uuid, src.skip(5))
    } else {
        src
    }
}

fn path_of_source(src: &str, by_uuid: &str) -> (r: String)
    ensures
        r@ == source_path(src@, by_uuid@),
{
    if str_starts_with(src, "UUID=") {
        proof {
            reveal_strlit("UUID=");
        }
        let c = chars_of(src);
        let uuid = sub_string(c.as_slice(), 5, c.len());
        assert(uuid@ =~= src@.skip(5));
        join_path(by_uuid, uuid.as_str())
    } else {
        src.to_string()
    }
}

/// The devices that lines of a crypttab name, as far as they are there: their
/// canonical paths, each once, in the order of the lines.
pub open spec fn line_devices(w: World, lines: Seq<Seq<char>>, by_uuid: Seq<char>) -> Seq<Seq<char>>
    decreases lines.len(),
{
    if lines.len() == 0 {
        seq![]
    } else {
        let before = line_devices(w, lines.drop_last(), by_uuid);
        match crypttab_source(lines.last()) {
            Some(src) => match (w.canonical)(source_path(src, by_uuid)) {
                Some(dev) => with_item(before, dev),
                None => before,
            },
            None => before,
        }
    }
}

/// The devices that the crypttab at the path `crypttab` names.
pub open spec fn crypttab_list(w: World, crypttab: Seq<char>, by_uuid: Seq<char>) -> Seq<
    Seq<char>,
> {
    match (w.file)(crypttab) {
        Some(text) => line_devices(w, split(text, '\n'), by_uuid),
        None => seq![],
    }
}

/// The question about a line of a crypttab: where its source leads.
pub open spec fn line_reads(by_uuid: Seq<char>) -> spec_fn(Seq<char>) -> Seq<Query> {
    |line: Seq<char>|
        match crypttab_source(line) {
            Some(src) => seq![Query::Canonical(source_path(src, by_uuid))],
            None => seq![],
        }
}

/// What the devices of a crypttab are found by: the crypttab, and where the source of
/// each of its lines leads.
pub open spec fn crypttab_reads(w: World, crypttab: Seq<char>, by_uuid: Seq<char>) -> Seq<Query> {
    seq![Query::File(crypttab)] + match (w.file)(crypttab) {
        Some(text) => reads_each(split(text, '\n'), line_reads(by_uuid)),
        None => seq![],
    }
}

proof fn lemma_crypttab_open(k: Knowledge, crypttab: Seq<char>, by_uuid: Seq<char>)
    ensures
        forall|w: World|
            first_open(k, #[trigger] crypttab_reads(w, crypttab, by_uuid)) == if !k.knows(
                Query::File(crypttab),
            ) {
                Some(Query::File(crypttab))
            } else {
                match (w.file)(crypttab) {
                    Some(text) => first_open(
                        k,
                        reads_each(split(text, '\n'), line_reads(by_uuid)),
                    ),
                    None => None,
                }
            },
{
    assert forall|w: World|
        first_open(k, #[trigger] crypttab_reads(w, crypttab, by_uuid)) == if !k.knows(
            Query::File(crypttab),
        ) {
            Some(Query::File(crypttab))
        } else {
            match (w.file)(crypttab) {
                Some(text) => first_open(k, reads_each(split(text, '\n'), line_reads(by_uuid))),
                None => None,
            }
        } by {
        lemma_open_cons(
            k,
            Query::File(crypttab),
            match (w.file)(crypttab) {
                Some(text) => reads_each(split(text, '\n'), line_reads(by_uuid)),
                None => seq![],
            },
        );
    }
}

/// The devices that a crypttab names. A source `UUID=<uuid>` is looked up in
/// `by_uuid_dir`.
pub fn crypttab_devices(facts: &Facts, crypttab: &str, by_uuid_dir: &str) -> (r: Found<Vec<String>>)
    ensures
        match r {
            Found::Ready(v) => {
                &&& settled(facts@, |w: World| crypttab_reads(w, crypttab@, by_uuid_dir@))
                &&& holds(
                    facts@,
                    texts(v@),
                    |w: World| crypttab_list(w, crypttab@, by_uuid_dir@),
                )
            },
            Found::Need(q) => asks(
                facts@,
                q@,
                |w: World| crypttab_reads(w, crypttab@, by_uuid_dir@),
            ),
        },
{
    proof {
        lemma_crypttab_open(facts@, crypttab@, by_uuid_dir@);
    }
    let mut out: Vec<String> = Vec::new();
    assert(texts(out@) =~= seq![]);
    let text = match facts.file(crypttab) {
        Found::Ready(Some(text)) => text,
        Found::Ready(None) => {
            return Found::Ready(out);
        },
        Found::Need(q) => {
            return Found::Need(q);
        },
    };
    let c = chars_of(text);
    let lines = split_chars(c.as_slice(), '\n');
    let ghost t = texts(lines@);
    assert(t.take(0) =~= seq![]);
    for i in 0..lines.len()
        invariant
            t == texts(lines@),
            facts@.knows(Query::File(crypttab@)),
            t == split(text@, '\n'),
            holds(facts@, Some(text@), |w: World| (w.file)(crypttab@)),
            first_open(facts@, reads_each(t.take(i as int), line_reads(by_uuid_dir@))) is None,
            forall|w: World| #[trigger]
                facts@.agrees(w) ==> texts(out@) == line_devices(
                    w,
                    t.take(i as int),
                    by_uuid_dir@,
                ),
    {
        assert(t.take(i + 1).drop_last() =~= t.take(i as int));
        proof {
            lemma_crypttab_open(facts@, crypttab@, by_uuid_dir@);
            lemma_open_each(facts@, t, line_reads(by_uuid_dir@), i as int);
        }
        match source_field(lines[i].as_str()) {
            Some(src) => {
                let path = path_of_source(src.as_str(), by_uuid_dir);
                proof {
                    lemma_open_one(facts@, Query::Canonical(path@));
                }
                match facts.canonical(path.as_str()) {
                    Found::Ready(Some(dev)) => {
                        add_item(&mut out, dev.to_string());
                    },
                    Found::Ready(None) => {},
                    Found::Need(q) => {
                        return Found::Need(q);
                    },
                }
            },
            None => {},
        }
    }
    assert(t.take(t.len() as int) =~= t);
    Found::Ready(out)
}

/// The canonical form of a path, or the path itself where nothing is there.
pub open spec fn canonical_or_self(w: World, path: Seq<char>) -> Seq<char> {
    match (w.canonical)(path) {
        Some(p) => p,
        None => path,
    }
}

/// `found` with the canonical paths of `devices` that are not in it yet.
pub open spec fn with_devices(w: World, found: Seq<Seq<char>>, devices: Seq<Seq<char>>) -> Seq<
    Seq<char>,
>
    decreases devices.len(),
{
    if devices.len() == 0 {
        found
    } else {
        with_item(
            with_devices(w, found, devices.drop_last()),
            canonical_or_self(w, devices.last()),
        )
    }
}

/// The LUKS devices of the machine: those that the crypttab names come first.
pub open spec fn all_luks_devices(w: World) -> Seq<Seq<char>> {
    with_devices(
        w,
        crypttab_list(w, "/etc/crypttab"@, "/dev/disk/by-uuid"@),
        luks_devices(w),
    )
}

/// The canonical form of a path, or the path itself where nothing is there.
pub fn canonicalize_lossy(facts: &Facts, path: &str) -> (r: Found<String>)
    ensures
        match r {
            Found::Ready(v) => {
                &&& facts@.knows(Query::Canonical(path@))
                &&& holds(facts@, v@, |w: World| canonical_or_self(w, path@))
            },
            Found::Need(q) => q@ == Query::Canonical(path@) && !facts@.knows(q@),
        },
{
    match facts.canonical(path) {
        Found::Ready(Some(p)) => Found::Ready(p.to_string()),
        Found::Ready(None) => Found::Ready(path.to_string()),
        Found::Need(q) => Found::Need(q),
    }
}

/// The question about a device node: where it leads.
pub open spec fn link_reads() -> spec_fn(Seq<char>) -> Seq<Query> {
    |node: Seq<char>| seq![Query::Canonical(node)]
}

/// What all LUKS devices are found by.
pub open spec fn all_luks_reads(w: World) -> Seq<Query> {
    crypttab_reads(w, "/etc/crypttab"@, "/dev/disk/by-uuid"@) + luks_reads(w) + reads_each(
        luks_devices(w),
        link_reads(),
    )
}

proof fn lemma_all_luks_open(k: Knowledge)
    ensures
        forall|w: World|
            first_open(k, #[trigger] all_luks_reads(w)) == match first_open(
                k,
                crypttab_reads(w, "/etc/crypttab"@, "/dev/disk/by-uuid"@),
            ) {
                Some(q) => Some(q),
                None => match first_open(k, luks_reads(w)) {
                    Some(q) => Some(q),
                    None => first_open(k, reads_each(luks_devices(w), link_reads())),
                },
            },
{
    assert forall|w: World|
        first_open(k, #[trigger] all_luks_reads(w)) == match first_open(
            k,
            crypttab_reads(w, "/etc/crypttab"@, "/dev/disk/by-uuid"@),
        ) {
            Some(q) => Some(q),
            None => match first_open(k, luks_reads(w)) {
                Some(q) => Some(q),
                None => first_open(k, reads_each(luks_devices(w), link_reads())),
            },
        } by {
        let first = crypttab_reads(w, "/etc/crypttab"@, "/dev/disk/by-uuid"@);
        lemma_open_add(k, first, luks_reads(w));
        lemma_open_add(k, first + luks_reads(w), reads_each(luks_devices(w), link_reads()));
    }
}

/// The LUKS devices of the machine, by their canonical paths, each once: those
/// that the crypttab names, and then all others.
pub fn detect_luks_devices(facts: &Facts) -> (r: Found<Vec<String>>)
    ensures
        match r {
            Found::Ready(v) => {
                &&& settled(facts@, |w: World| all_luks_reads(w))
                &&& holds(facts@, texts(v@), |w: World| all_luks_devices(w))
            },
            Found::Need(q) => asks(facts@, q@, |w: World| all_luks_reads(w)),
        },
{
    proof {
        lemma_all_luks_open(facts@);
    }
    let mut found = match crypttab_devices(facts, "/etc/crypttab", "/dev/disk/by-uuid") {
        Found::Ready(v) => v,
        Found::Need(q) => {
            return Found::Need(q);
        },
    };
    let devices = match find_luks_block_devices(facts) {
        Found::Ready(v) => v,
        Found::Need(q) => {
            return Found::Need(q);
        },
    };
    let ghost first = texts(found@);
    let ghost t = texts(devices@);
    for i in 0..devices.len()
        invariant
            t == texts(devices@),
            settled(
                facts@,
                |w: World| crypttab_reads(w, "/etc/crypttab"@, "/dev/disk/by-uuid"@),
            ),
            settled(facts@, |w: World| luks_reads(w)),
            holds(facts@, t, |w: World| luks_devices(w)),
            first_open(facts@, reads_each(t.take(i as int), link_reads())) is None,
            forall|w: World| #[trigger]
                facts@.agrees(w) ==> texts(found@) == with_devices(w, first, t.take(i as int)),
    {
        assert(t.take(i + 1).drop_last() =~= t.take(i as int));
        proof {
            lemma_all_luks_open(facts@);
            lemma_open_each(facts@, t, link_reads(), i as int);
            lemma_open_one(facts@, Query::Canonical(t[i as int]));
        }
        match canonicalize_lossy(facts, devices[i].as_str()) {
            Found::Ready(p) => {
                add_item(&mut found, p);
            },
            Found::Need(q) => {
                return Found::Need(q);
            },
        }
    }
    assert(t.take(t.len() as int) =~= t);
    Found::Ready(found)
}

/// The text in `v`, or nothing.
pub open spec fn or_empty(v: Option<Seq<char>>) -> Seq<char> {
    match v {
        Some(s) => s,
        None => ""@,
    }
}

/// A tag of a device, nothing where it has none.
fn tag_or_empty(facts: &Facts, device: &str, tag: &str) -> (r: Found<String>)
    ensures
        match r {
            Found::Ready(v) => facts@.knows(Query::Tags(device@)) && holds(
                facts@,
                v@,
                |w: World| or_empty(tag_of((w.tags)(device@), tag@)),
            ),
            Found::Need(q) => q@ == Query::Tags(device@) && !facts@.knows(q@),
        },
{
    match blkid_tag(facts, device, tag) {
        Found::Ready(Some(s)) => Found::Ready(s),
        Found::Ready(None) => Found::Ready("".to_string()),
        Found::Need(q) => Found::Need(q),
    }
}

/// The size of the block device `device`: that of the partition below its disk
/// or, where that is missing or zero, that of the whole disk; zero if neither is
/// known.
pub open spec fn block_size_of(w: World, device: Seq<char>) -> u64 {
    let base = base_of(device);
    let part = sysfs_size(
        w,
        "/sys/block/"@ + parent_of(device) + "/"@ + base + "/size"@,
    );
    if part == 0 {
        sysfs_size(w, "/sys/block/"@ + base + "/size"@)
    } else {
        part
    }
}

/// The size of a device as a text: of a regular file its length; nothing where
/// the size is not known.
pub open spec fn device_size_text(w: World, device: Seq<char>) -> Seq<char> {
    match (w.length)(device) {
        Some(n) => size_text(n as nat),
        None => if block_size_of(w, device) > 0 {
            size_text(block_size_of(w, device) as nat)
        } else {
            ""@
        },
    }
}

/// What the size of a device is found by: the length of a regular file, and of anything
/// else the sizes that sysfs has, as far as they are needed.
pub open spec fn size_reads(w: World, device: Seq<char>) -> Seq<Query> {
    let base = base_of(device);
    let part = "/sys/block/"@ + parent_of(device) + "/"@ + base + "/size"@;
    if (w.length)(device) is Some {
        seq![Query::Length(device)]
    } else if sysfs_size(w, part) != 0 {
        seq![Query::Length(device), Query::File(part)]
    } else {
        seq![
            Query::Length(device),
            Query::File(part),
            Query::File("/sys/block/"@ + base + "/size"@),
        ]
    }
}

proof fn lemma_size_open(k: Knowledge, device: Seq<char>)
    ensures
        forall|w: World|
            first_open(k, #[trigger] size_reads(w, device)) == ({
                let base = base_of(device);
                let part = "/sys/block/"@ + parent_of(device) + "/"@ + base + "/size"@;
                let whole = "/sys/block/"@ + base + "/size"@;
                if !k.knows(Query::Length(device)) {
                    Some(Query::Length(device))
                } else if (w.length)(device) is Some {
                    None
                } else if !k.knows(Query::File(part)) {
                    Some(Query::File(part))
                } else if sysfs_size(w, part) != 0 || k.knows(Query::File(whole)) {
                    None
                } else {
                    Some(Query::File(whole))
                }
            }),
{
    let base = base_of(device);
    let part = "/sys/block/"@ + parent_of(device) + "/"@ + base + "/size"@;
    let whole = "/sys/block/"@ + base + "/size"@;
    let a = Query::Length(device);
    let b = Query::File(part);
    let c = Query::File(whole);
    lemma_open_one(k, a);
    lemma_open_cons(k, a, seq![b]);
    lemma_open_one(k, b);
    lemma_open_cons(k, a, seq![b, c]);
    lemma_open_cons(k, b, seq![c]);
    lemma_open_one(k, c);
    assert(seq![a] + seq![b] =~= seq![a, b]);
    assert(seq![b] + seq![c] =~= seq![b, c]);
    assert(seq![a] + seq![b, c] =~= seq![a, b, c]);
}

fn device_size(facts: &Facts, device: &str) -> (r: Found<String>)
    ensures
        match r {
            Found::Ready(v) => {
                &&& settled(facts@, |w: World| size_reads(w, device@))
                &&& holds(facts@, v@, |w: World| device_size_text(w, device@))
            },
            Found::Need(q) => asks(facts@, q@, |w: World| size_reads(w, device@)),
        },
{
    proof {
        lemma_size_open(facts@, device@);
    }
    match facts.length(device) {
        Found::Ready(Some(n)) => {
            return Found::Ready(format_size(n));
        },
        Found::Ready(None) => {},
        Found::Need(q) => {
            return Found::Need(q);
        },
    }
    let parent = parent_device_name(device);
    let base = basename(device);
    let disk = concat3("/sys/block/", parent.as_str(), "/");
    let path = concat3(disk.as_str(), base.as_str(), "/size");
    let mut bytes: u64 = match sysfs_size_bytes(facts, path.as_str()) {
        Found::Ready(n) => n,
        Found::Need(q) => {
            return Found::Need(q);
        },
    };
    if bytes == 0 {
        let path = concat3("/sys/block/", base.as_str(), "/size");
        bytes = match sysfs_size_bytes(facts, path.as_str()) {
            Found::Ready(n) => n,
            Found::Need(q) => {
                return Found::Need(q);
            },
        };
    }
    assert(holds(facts@, bytes, |w: World| block_size_of(w, device@)));
    if bytes > 0 {
        Found::Ready(format_size(bytes))
    } else {
        Found::Ready("".to_string())
    }
}

/// Where `device` is mounted, by the first of the lines of a mount table that
/// names it.
pub open spec fn mount_in(lines: Seq<Seq<char>>, device: Seq<char>) -> Seq<char>
    decreases lines.len(),
{
    if lines.len() == 0 {
        ""@
    } else {
        let fields = words(lines[0]);
        if fields.len() >= 2 && fields[0] == device {
            fields[1]
        } else {
            mount_in(lines.skip(1), device)
        }
    }
}

/// Where `device` is mounted; nothing where it is not.
pub open spec fn mount_point(w: World, device: Seq<char>) -> Seq<char> {
    match (w.file)("/proc/mounts"@) {
        Some(text) => mount_in(split(text, '\n'), device),
        None => ""@,
    }
}

fn find_mount(text: &str, device: &str) -> (r: String)
    ensures
        r@ == mount_in(split(text@, '\n'), device@),
{
    let c = chars_of(text);
    let lines = split_chars(c.as_slice(), '\n');
    let ghost t = texts(lines@);
    assert(t.skip(0) =~= t);
    for i in 0..lines.len()
        invariant
            t == texts(lines@),
            t == split(text@, '\n'),
            mount_in(t, device@) == mount_in(t.skip(i as int), device@),
    {
        assert(t.skip(i as int)[0] == t[i as int]);
        assert(t.skip(i as int).skip(1) =~= t.skip(i + 1));
        let line = chars_of(lines[i].as_str());
        let fields = words_of(line.as_slice());
        assert(fields@.len() == texts(fields@).len());
        if fields.len() >= 2 {
            assert(texts(fields@)[0] == fields@[0]@ && texts(fields@)[1] == fields@[1]@);
            if str_eq(fields[0].as_str(), device) {
                return fields[1].clone();
            }
        }
    }
    "".to_string()
}

fn device_mount(facts: &Facts, device: &str) -> (r: Found<String>)
    ensures
        match r {
            Found::Ready(v) => {
                &&& facts@.knows(Query::File("/proc/mounts"@))
                &&& holds(facts@, v@, |w: World| mount_point(w, device@))
            },
            Found::Need(q) => q@ == Query::File("/proc/mounts"@) && !facts@.knows(q@),
        },
{
    match facts.file("/proc/mounts") {
        Found::Ready(Some(text)) => Found::Ready(find_mount(text, device)),
        Found::Ready(None) => Found::Ready("".to_string()),
        Found::Need(q) => Found::Need(q),
    }
}

/// Whether a file system of the mapping `name` is mounted.
pub fn mapping_is_mounted(facts: &Facts, name: &str) -> (r: Found<bool>)
    ensures
        match r {
            Found::Ready(v) => facts@.knows(Query::File("/proc/mounts"@)) && holds(
                facts@,
                v,
                |w: World| mount_point(w, "/dev/mapper/"@ + name@).len() > 0,
            ),
            Found::Need(q) => q@ == Query::File("/proc/mounts"@) && !facts@.knows(q@),
        },
{
    let node = concat("/dev/mapper/", name);
    match device_mount(facts, node.as_str()) {
        Found::Ready(mount) => Found::Ready(!mount.as_str().is_empty()),
        Found::Need(q) => Found::Need(q),
    }
}

/// Whether the mapping `name` has a node.
pub fn mapping_is_active(facts: &Facts, name: &str) -> (r: Found<bool>)
    ensures
        match r {
            Found::Ready(v) => facts@.knows(Query::Canonical("/dev/mapper/"@ + name@)) && holds(
                facts@,
                v,
                |w: World| (w.canonical)("/dev/mapper/"@ + name@) is Some,
            ),
            Found::Need(q) => q@ == Query::Canonical("/dev/mapper/"@ + name@) && !facts@.knows(q@),
        },
{
    let node = concat("/dev/mapper/", name);
    match facts.canonical(node.as_str()) {
        Found::Ready(target) => Found::Ready(target.is_some()),
        Found::Need(q) => Found::Need(q),
    }
}

/// What a client is told of one device.
pub open spec fn device_info(w: World, device: Seq<char>) -> Members {
    let m = put(seq![], "device"@, JsonTree::Str(device));
    let m = put(m, "size"@, JsonTree::Str(device_size_text(w, device)));
    let m = put(
        m,
        "label"@,
        JsonTree::Str(or_empty(tag_of((w.tags)(device), "LABEL"@))),
    );
    let m = put(m, "removable"@, JsonTree::Bool(removable(w, device)));
    let m = put(m, "mount_point"@, JsonTree::Str(mount_point(w, device)));
    let m = put(
        m,
        "filesystem"@,
        JsonTree::Str(or_empty(tag_of((w.tags)(device), "TYPE"@))),
    );
    put(m, "uuid"@, JsonTree::Str(or_empty(tag_of((w.tags)(device), "UUID"@))))
}

/// What a client is told of one device is found by: what its size is found by, the
/// mount table, its tags, and whether it is removable.
pub open spec fn info_reads(w: World, device: Seq<char>) -> Seq<Query> {
    size_reads(w, device) + seq![
        Query::File("/proc/mounts"@),
        Query::Tags(device),
        removable_file(device),
    ]
}

proof fn lemma_info_open(k: Knowledge, device: Seq<char>)
    ensures
        forall|w: World|
            first_open(k, #[trigger] info_reads(w, device)) == match first_open(
                k,
                size_reads(w, device),
            ) {
                Some(q) => Some(q),
                None => if !k.knows(Query::File("/proc/mounts"@)) {
                    Some(Query::File("/proc/mounts"@))
                } else if !k.knows(Query::Tags(device)) {
                    Some(Query::Tags(device))
                } else if !k.knows(removable_file(device)) {
                    Some(removable_file(device))
                } else {
                    None
                },
            },
{
    let a = Query::File("/proc/mounts"@);
    let b = Query::Tags(device);
    let c = removable_file(device);
    lemma_open_cons(k, a, seq![b, c]);
    lemma_open_cons(k, b, seq![c]);
    lemma_open_one(k, c);
    assert(seq![b] + seq![c] =~= seq![b, c]);
    assert(seq![a] + seq![b, c] =~= seq![a, b, c]);
    assert forall|w: World|
        first_open(k, #[trigger] info_reads(w, device)) == match first_open(
            k,
            size_reads(w, device),
        ) {
            Some(q) => Some(q),
            None => first_open(k, seq![a, b, c]),
        } by {
        lemma_open_add(k, size_reads(w, device), seq![a, b, c]);
    }
}

/// What a client is told of one device: its path, size, label, UUID, file
/// system, mount point, and whether it is removable.
pub fn get_device_info(facts: &Facts, device: &str) -> (r: Found<serde_json::Value>)
    ensures
        match r {
            Found::Ready(v) => settled(facts@, |w: World| info_reads(w, device@)) && holds(
                facts@,
                value_tree(v),
                |w: World| JsonTree::Object(device_info(w, device@)),
            ),
            Found::Need(q) => asks(facts@, q@, |w: World| info_reads(w, device@)),
        },
{
    proof {
        lemma_info_open(facts@, device@);
    }
    let size = match device_size(facts, device) {
        Found::Ready(s) => s,
        Found::Need(q) => {
            return Found::Need(q);
        },
    };
    let mount = match device_mount(facts, device) {
        Found::Ready(s) => s,
        Found::Need(q) => {
            return Found::Need(q);
        },
    };
    let label = match tag_or_empty(facts, device, "LABEL") {
        Found::Ready(s) => s,
        Found::Need(q) => {
            return Found::Need(q);
        },
    };
    let is_removable = match is_removable(facts, device) {
        Found::Ready(b) => b,
        Found::Need(q) => {
            return Found::Need(q);
        },
    };
    let filesystem = match tag_or_empty(facts, device, "TYPE") {
        Found::Ready(s) => s,
        Found::Need(q) => {
            return Found::Need(q);
        },
    };
    let uuid = match tag_or_empty(facts, device, "UUID") {
        Found::Ready(s) => s,
        Found::Need(q) => {
            return Found::Need(q);
        },
    };
    let b = ObjectBuilder::new().with_str("device", device).with_str("size", size.as_str()).with_str(
        "label",
        label.as_str(),
    ).with_bool("removable", is_removable).with_str("mount_point", mount.as_str()).with_str(
        "filesystem",
        filesystem.as_str(),
    ).with_str("uuid", uuid.as_str());
    Found::Ready(b.build())
}

/// What a client is told of the partition `name` of the disk `disk`.
pub open spec fn partition_info(w: World, disk: Seq<char>, name: Seq<char>) -> Members {
    let node = "/dev/"@ + name;
    let encrypted = luks_devices(w).contains(node);
    let m = put(seq![], "device"@, JsonTree::Str(node));
    let m = put(
        m,
        "size"@,
        JsonTree::Str(
            size_text(
                sysfs_size(w, "/sys/block/"@ + disk + "/"@ + name + "/size"@) as nat,
            ),
        ),
    );
    let m = put(m, "label"@, JsonTree::Str(or_empty(tag_of((w.tags)(node), "LABEL"@))));
    let m = put(m, "encrypted"@, JsonTree::Bool(encrypted));
    if encrypted {
        put(m, "luks_device"@, JsonTree::Str(node))
    } else {
        m
    }
}

/// The partitions of `disk` among the entries of its directory: those that begin
/// with its name.
pub open spec fn partition_infos(w: World, disk: Seq<char>, entries: Seq<Seq<char>>) -> Seq<
    JsonTree,
>
    decreases entries.len(),
{
    if entries.len() == 0 {
        seq![]
    } else {
        let before = partition_infos(w, disk, entries.drop_last());
        if starts_with(entries.last(), disk) {
            before.push(JsonTree::Object(partition_info(w, disk, entries.last())))
        } else {
            before
        }
    }
}

/// What a client is told of the removable disk `disk`.
pub open spec fn disk_info(w: World, disk: Seq<char>) -> Members {
    let node = "/dev/"@ + disk;
    let m = put(seq![], "device"@, JsonTree::Str(node));
    let m = put(
        m,
        "partitions"@,
        JsonTree::Array(partition_infos(w, disk, dir_names(w, "/sys/block/"@ + disk))),
    );
    let m = put(
        m,
        "size"@,
        JsonTree::Str(size_text(sysfs_size(w, "/sys/block/"@ + disk + "/size"@) as nat)),
    );
    put(m, "label"@, JsonTree::Str(or_empty(tag_of((w.tags)(node), "LABEL"@))))
}

/// The removable disks among `names`.
pub open spec fn disk_infos(w: World, names: Seq<Seq<char>>) -> Seq<JsonTree>
    decreases names.len(),
{
    if names.len() == 0 {
        seq![]
    } else {
        let before = disk_infos(w, names.drop_last());
        let disk = names.last();
        if !is_virtual(disk) && sysfs_text(w, "/sys/block/"@ + disk + "/removable"@) == Some("1"@) {
            before.push(JsonTree::Object(disk_info(w, disk)))
        } else {
            before
        }
    }
}

/// The removable disks of the machine.
pub open spec fn removable_disks(w: World) -> JsonTree {
    JsonTree::Array(disk_infos(w, dir_names(w, "/sys/block"@)))
}

/// What the partition `name` of the disk `disk` is described by.
pub open spec fn partition_reads(disk: Seq<char>, name: Seq<char>) -> Seq<Query> {
    seq![
        Query::File("/sys/block/"@ + disk + "/"@ + name + "/size"@),
        Query::Tags("/dev/"@ + name),
    ]
}

/// What the entry of the directory of the disk `disk` is described by, if it is a
/// partition.
pub open spec fn entry_reads(disk: Seq<char>) -> spec_fn(Seq<char>) -> Seq<Query> {
    |name: Seq<char>|
        if starts_with(name, disk) {
            partition_reads(disk, name)
        } else {
            seq![]
        }
}

/// What the partitions of the disk `disk` are described by.
pub open spec fn partitions_reads(w: World, disk: Seq<char>) -> Seq<Query> {
    seq![Query::Dir("/sys/block/"@ + disk)] + reads_each(
        dir_names(w, "/sys/block/"@ + disk),
        entry_reads(disk),
    )
}

/// What the removable disk `disk` is described by.
pub open spec fn disk_reads(w: World, disk: Seq<char>) -> Seq<Query> {
    seq![Query::File("/sys/block/"@ + disk + "/size"@), Query::Tags("/dev/"@ + disk)]
        + partitions_reads(w, disk)
}

/// What a disk is described by: unless it is virtual, whether it is removable and, if
/// so, all else.
pub open spec fn candidate_reads(w: World) -> spec_fn(Seq<char>) -> Seq<Query> {
    |disk: Seq<char>|
        if is_virtual(disk) {
            seq![]
        } else if sysfs_text(w, "/sys/block/"@ + disk + "/removable"@) == Some("1"@) {
            seq![Query::File("/sys/block/"@ + disk + "/removable"@)] + disk_reads(w, disk)
        } else {
            seq![Query::File("/sys/block/"@ + disk + "/removable"@)]
        }
}

/// What the removable disks of the machine are found by: the LUKS devices, the disks,
/// and what each disk is described by.
pub open spec fn removable_reads(w: World) -> Seq<Query> {
    luks_reads(w) + seq![Query::Dir("/sys/block"@)] + reads_each(
        dir_names(w, "/sys/block"@),
        candidate_reads(w),
    )
}

proof fn lemma_partition_open(k: Knowledge, disk: Seq<char>, name: Seq<char>)
    ensures
        first_open(k, partition_reads(disk, name)) == ({
            let size = "/sys/block/"@ + disk + "/"@ + name + "/size"@;
            if !k.knows(Query::File(size)) {
                Some(Query::File(size))
            } else if !k.knows(Query::Tags("/dev/"@ + name)) {
                Some(Query::Tags("/dev/"@ + name))
            } else {
                None
            }
        }),
{
    let a = Query::File("/sys/block/"@ + disk + "/"@ + name + "/size"@);
    let b = Query::Tags("/dev/"@ + name);
    lemma_open_cons(k, a, seq![b]);
    lemma_open_one(k, b);
    assert(seq![a] + seq![b] =~= seq![a, b]);
}

fn describe_partition(facts: &Facts, disk: &str, name: &str, luks: &Vec<String>) -> (r: Found<
    serde_json::Value,
>)
    requires
        holds(facts@, texts(luks@), |w: World| luks_devices(w)),
    ensures
        match r {
            Found::Ready(v) => settled(facts@, |w: World| partition_reads(disk@, name@)) && holds(
                facts@,
                value_tree(v),
                |w: World| JsonTree::Object(partition_info(w, disk@, name@)),
            ),
            Found::Need(q) => asks(facts@, q@, |w: World| partition_reads(disk@, name@)),
        },
{
    proof {
        lemma_partition_open(facts@, disk@, name@);
    }
    let node = concat("/dev/", name);
    let dir = concat3("/sys/block/", disk, "/");
    let path = concat3(dir.as_str(), name, "/size");
    let bytes = match sysfs_size_bytes(facts, path.as_str()) {
        Found::Ready(n) => n,
        Found::Need(q) => {
            return Found::Need(q);
        },
    };
    let label = match tag_or_empty(facts, node.as_str(), "LABEL") {
        Found::Ready(s) => s,
        Found::Need(q) => {
            return Found::Need(q);
        },
    };
    let encrypted = contains_text(luks, node.as_str());
    let size = format_size(bytes);
    let mut b = ObjectBuilder::new().with_str("device", node.as_str()).with_str(
        "size",
        size.as_str(),
    ).with_str("label", label.as_str()).with_bool("encrypted", encrypted);
    if encrypted {
        b = b.with_str("luks_device", node.as_str());
    }
    Found::Ready(b.build())
}

proof fn lemma_partitions_open(k: Knowledge, disk: Seq<char>)
    ensures
        forall|w: World|
            first_open(k, #[trigger] partitions_reads(w, disk)) == if k.knows(
                Query::Dir("/sys/block/"@ + disk),
            ) {
                first_open(k, reads_each(dir_names(w, "/sys/block/"@ + disk), entry_reads(disk)))
            } else {
                Some(Query::Dir("/sys/block/"@ + disk))
            },
{
    assert forall|w: World|
        first_open(k, #[trigger] partitions_reads(w, disk)) == if k.knows(
            Query::Dir("/sys/block/"@ + disk),
        ) {
            first_open(k, reads_each(dir_names(w, "/sys/block/"@ + disk), entry_reads(disk)))
        } else {
            Some(Query::Dir("/sys/block/"@ + disk))
        } by {
        lemma_open_cons(
            k,
            Query::Dir("/sys/block/"@ + disk),
            reads_each(dir_names(w, "/sys/block/"@ + disk), entry_reads(disk)),
        );
    }
}

fn describe_partitions(facts: &Facts, disk: &str, luks: &Vec<String>) -> (r: Found<
    Vec<serde_json::Value>,
>)
    requires
        holds(facts@, texts(luks@), |w: World| luks_devices(w)),
    ensures
        match r {
            Found::Ready(v) => settled(facts@, |w: World| partitions_reads(w, disk@)) && holds(
                facts@,
                trees(v@),
                |w: World| partition_infos(w, disk@, dir_names(w, "/sys/block/"@ + disk@)),
            ),
            Found::Need(q) => asks(facts@, q@, |w: World| partitions_reads(w, disk@)),
        },
{
    proof {
        lemma_partitions_open(facts@, disk@);
    }
    let dir = concat("/sys/block/", disk);
    let entries = match sorted_dir_names(facts, dir.as_str()) {
        Found::Ready(v) => v,
        Found::Need(q) => {
            return Found::Need(q);
        },
    };
    let ghost t = texts(entries@);
    let mut out: Vec<serde_json::Value> = Vec::new();
    assert(trees(out@) =~= seq![]);
    assert(t.take(0) =~= seq![]);
    for i in 0..entries.len()
        invariant
            t == texts(entries@),
            facts@.knows(Query::Dir("/sys/block/"@ + disk@)),
            holds(facts@, t, |w: World| dir_names(w, "/sys/block/"@ + disk@)),
            first_open(facts@, reads_each(t.take(i as int), entry_reads(disk@))) is None,
            holds(facts@, texts(luks@), |w: World| luks_devices(w)),
            forall|w: World| #[trigger]
                facts@.agrees(w) ==> trees(out@) == partition_infos(w, disk@, t.take(i as int)),
    {
        assert(t.take(i + 1).drop_last() =~= t.take(i as int));
        let ghost before = out@;
        proof {
            lemma_partitions_open(facts@, disk@);
            lemma_open_each(facts@, t, entry_reads(disk@), i as int);
            law_some_world_agrees(facts@);
        }
        let name = entries[i].as_str();
        if str_starts_with(name, disk) {
            match describe_partition(facts, disk, name, luks) {
                Found::Ready(v) => {
                    out.push(v);
                    assert(trees(out@) =~= trees(before).push(value_tree(v)));
                },
                Found::Need(q) => {
                    return Found::Need(q);
                },
            }
        }
    }
    assert(t.take(t.len() as int) =~= t);
    Found::Ready(out)
}

proof fn lemma_disk_open(k: Knowledge, disk: Seq<char>)
    ensures
        forall|w: World|
            first_open(k, #[trigger] disk_reads(w, disk)) == ({
                let size = Query::File("/sys/block/"@ + disk + "/size"@);
                if !k.knows(size) {
                    Some(size)
                } else if !k.knows(Query::Tags("/dev/"@ + disk)) {
                    Some(Query::Tags("/dev/"@ + disk))
                } else {
                    first_open(k, partitions_reads(w, disk))
                }
            }),
{
    let a = Query::File("/sys/block/"@ + disk + "/size"@);
    let b = Query::Tags("/dev/"@ + disk);
    lemma_open_cons(k, a, seq![b]);
    lemma_open_one(k, b);
    assert(seq![a] + seq![b] =~= seq![a, b]);
    assert forall|w: World|
        first_open(k, #[trigger] disk_reads(w, disk)) == match first_open(k, seq![a, b]) {
            Some(q) => Some(q),
            None => first_open(k, partitions_reads(w, disk)),
        } by {
        lemma_open_add(k, seq![a, b], partitions_reads(w, disk));
    }
}

fn describe_disk(facts: &Facts, disk: &str, luks: &Vec<String>) -> (r: Found<serde_json::Value>)
    requires
        holds(facts@, texts(luks@), |w: World| luks_devices(w)),
    ensures
        match r {
            Found::Ready(v) => settled(facts@, |w: World| disk_reads(w, disk@)) && holds(
                facts@,
                value_tree(v),
                |w: World| JsonTree::Object(disk_info(w, disk@)),
            ),
            Found::Need(q) => asks(facts@, q@, |w: World| disk_reads(w, disk@)),
        },
{
    proof {
        lemma_disk_open(facts@, disk@);
    }
    let node = concat("/dev/", disk);
    let path = concat3("/sys/block/", disk, "/size");
    let bytes = match sysfs_size_bytes(facts, path.as_str()) {
        Found::Ready(n) => n,
        Found::Need(q) => {
            return Found::Need(q);
        },
    };
    let label = match tag_or_empty(facts, node.as_str(), "LABEL") {
        Found::Ready(s) => s,
        Found::Need(q) => {
            return Found::Need(q);
        },
    };
    let partitions = match describe_partitions(facts, disk, luks) {
        Found::Ready(v) => v,
        Found::Need(q) => {
            return Found::Need(q);
        },
    };
    let size = format_size(bytes);
    let b = ObjectBuilder::new().with_str("device", node.as_str()).with(
        "partitions",
        array(partitions),
    ).with_str("size", size.as_str()).with_str("label", label.as_str());
    Found::Ready(b.build())
}

proof fn lemma_candidate_open(k: Knowledge, names: Seq<Seq<char>>, i: int)
    requires
        0 <= i < names.len(),
        forall|w: World| #[trigger]
            k.agrees(w) ==> first_open(k, reads_each(names.take(i), candidate_reads(w))) is None,
    ensures
        forall|w: World| #[trigger]
            k.agrees(w) ==> ({
                let first = candidate_open(k, w, names[i]);
                &&& first_open(k, reads_each(names.take(i + 1), candidate_reads(w))) == first
                &&& first is Some ==> first_open(k, reads_each(names, candidate_reads(w))) == first
            }),
{
    assert forall|w: World| #[trigger] k.agrees(w) implies ({
        let first = candidate_open(k, w, names[i]);
        &&& first_open(k, reads_each(names.take(i + 1), candidate_reads(w))) == first
        &&& first is Some ==> first_open(k, reads_each(names, candidate_reads(w))) == first
    }) by {
        let file = Query::File("/sys/block/"@ + names[i] + "/removable"@);
        lemma_open_each(k, names, candidate_reads(w), i);
        lemma_open_one(k, file);
        lemma_open_cons(k, file, disk_reads(w, names[i]));
    }
}

spec fn candidate_open(k: Knowledge, w: World, disk: Seq<char>) -> Option<Query> {
    let file = "/sys/block/"@ + disk + "/removable"@;
    if is_virtual(disk) {
        None
    } else if !k.knows(Query::File(file)) {
        Some(Query::File(file))
    } else if sysfs_text(w, file) == Some("1"@) {
        first_open(k, disk_reads(w, disk))
    } else {
        None
    }
}

proof fn lemma_removable_open(k: Knowledge)
    ensures
        forall|w: World|
            first_open(k, #[trigger] removable_reads(w)) == match first_open(k, luks_reads(w)) {
                Some(q) => Some(q),
                None => if k.knows(Query::Dir("/sys/block"@)) {
                    first_open(k, reads_each(dir_names(w, "/sys/block"@), candidate_reads(w)))
                } else {
                    Some(Query::Dir("/sys/block"@))
                },
            },
{
    let dir = Query::Dir("/sys/block"@);
    lemma_open_one(k, dir);
    assert forall|w: World|
        first_open(k, #[trigger] removable_reads(w)) == match first_open(k, luks_reads(w)) {
            Some(q) => Some(q),
            None => if k.knows(dir) {
                first_open(k, reads_each(dir_names(w, "/sys/block"@), candidate_reads(w)))
            } else {
                Some(dir)
            },
        } by {
        lemma_open_add(k, luks_reads(w), seq![dir]);
        lemma_open_add(
            k,
            luks_reads(w) + seq![dir],
            reads_each(dir_names(w, "/sys/block"@), candidate_reads(w)),
        );
    }
}

/// The removable disks of the machine with their partitions: for each its node,
/// size and label, and for a partition whether it is encrypted.
pub fn detect_removable_devices(facts: &Facts) -> (r: Found<serde_json::Value>)
    ensures
        match r {
            Found::Ready(v) => {
                &&& settled(facts@, |w: World| removable_reads(w))
                &&& holds(facts@, value_tree(v), |w: World| removable_disks(w))
            },
            Found::Need(q) => asks(facts@, q@, |w: World| removable_reads(w)),
        },
{
    proof {
        lemma_removable_open(facts@);
    }
    let luks = match find_luks_block_devices(facts) {
        Found::Ready(v) => v,
        Found::Need(q) => {
            return Found::Need(q);
        },
    };
    let names = match sorted_dir_names(facts, "/sys/block") {
        Found::Ready(v) => v,
        Found::Need(q) => {
            return Found::Need(q);
        },
    };
    let ghost t = texts(names@);
    let mut out: Vec<serde_json::Value> = Vec::new();
    assert(trees(out@) =~= seq![]);
    assert(t.take(0) =~= seq![]);
    for i in 0..names.len()
        invariant
            t == texts(names@),
            facts@.knows(Query::Dir("/sys/block"@)),
            settled(facts@, |w: World| luks_reads(w)),
            holds(facts@, t, |w: World| dir_names(w, "/sys/block"@)),
            forall|w: World| #[trigger]
                facts@.agrees(w) ==> first_open(
                    facts@,
                    reads_each(t.take(i as int), candidate_reads(w)),
                ) is None,
            holds(facts@, texts(luks@), |w: World| luks_devices(w)),
            forall|w: World| #[trigger]
                facts@.agrees(w) ==> trees(out@) == disk_infos(w, t.take(i as int)),
    {
        assert(t.take(i + 1).drop_last() =~= t.take(i as int));
        let ghost before = out@;
        proof {
            lemma_removable_open(facts@);
            lemma_candidate_open(facts@, t, i as int);
        }
        let disk = names[i].as_str();
        if !is_virtual_block_name(disk) {
            let path = concat3("/sys/block/", disk, "/removable");
            match read_sysfs(facts, path.as_str()) {
                Found::Ready(Some(s)) => {
                    if str_eq(s.as_str(), "1") {
                        match describe_disk(facts, disk, &luks) {
                            Found::Ready(v) => {
                                out.push(v);
                                assert(trees(out@) =~= trees(before).push(value_tree(v)));
                            },
                            Found::Need(q) => {
                                return Found::Need(q);
                            },
                        }
                    }
                },
                Found::Ready(None) => {},
                Found::Need(q) => {
                    return Found::Need(q);
                },
            }
        }
    }
    assert(t.take(t.len() as int) =~= t);
    Found::Ready(array(out))
}

// ---------------------------------------------------------------------------
// Laws
// ---------------------------------------------------------------------------

proof fn lemma_line_devices(w: World, lines: Seq<Seq<char>>, by_uuid: Seq<char>)
    ensures
        line_devices(w, lines, by_uuid).no_duplicates(),
    decreases lines.len(),
{
    if lines.len() > 0 {
        lemma_line_devices(w, lines.drop_last(), by_uuid);
    }
}

proof fn lemma_with_devices(w: World, found: Seq<Seq<char>>, devices: Seq<Seq<char>>)
    requires
        found.no_duplicates(),
    ensures
        with_devices(w, found, devices).no_duplicates(),
        with_devices(w, found, devices).len() >= found.len(),
        with_devices(w, found, devices).take(found.len() as int) == found,
        forall|i: int|
            0 <= i < devices.len() ==> with_devices(w, found, devices).contains(
                canonical_or_self(w, #[trigger] devices[i]),
            ),
    decreases devices.len(),
{
    if devices.len() > 0 {
        let rest = devices.drop_last();
        lemma_with_devices(w, found, rest);
        let before = with_devices(w, found, rest);
        let after = with_devices(w, found, devices);
        let last = canonical_or_self(w, devices.last());
        assert(after.take(found.len() as int) =~= before.take(found.len() as int));
        assert forall|i: int| 0 <= i < devices.len() implies after.contains(
            canonical_or_self(w, #[trigger] devices[i]),
        ) by {
            if i < rest.len() {
                assert(rest[i] == devices[i]);
                let x = canonical_or_self(w, rest[i]);
                let k = choose|k: int| 0 <= k < before.len() && before[k] == x;
                assert(after[k] == x);
            } else if !before.contains(last) {
                assert(after[before.len() as int] == last);
            }
        }
    } else {
        assert(found.take(found.len() as int) =~= found);
    }
}

/// The list of LUKS devices names no device twice. The devices of the crypttab come
/// first, and every LUKS device of the machine is in it.
pub proof fn law_luks_device_list(w: World)
    ensures
        all_luks_devices(w).no_duplicates(),
        ({
            let first = crypttab_list(w, "/etc/crypttab"@, "/dev/disk/by-uuid"@);
            &&& all_luks_devices(w).len() >= first.len()
            &&& all_luks_devices(w).take(first.len() as int) == first
        }),
        forall|i: int|
            0 <= i < luks_devices(w).len() ==> all_luks_devices(w).contains(
                canonical_or_self(w, #[trigger] luks_devices(w)[i]),
            ),
{
    let crypttab = "/etc/crypttab"@;
    let by_uuid = "/dev/disk/by-uuid"@;
    let first = crypttab_list(w, crypttab, by_uuid);
    assert(first.no_duplicates()) by {
        match (w.file)(crypttab) {
            Some(text) => {
                lemma_line_devices(w, split(text, '\n'), by_uuid);
            },
            None => {},
        }
    }
    lemma_with_devices(w, first, luks_devices(w));
}

/// Every listed node is that of a LUKS device that is of interest; so no virtual
/// block device is listed.
pub proof fn law_listed_nodes_are_luks(w: World, names: Seq<Seq<char>>, i: int)
    requires
        0 <= i < luks_nodes(w, names).len(),
    ensures
        exists|k: int|
            0 <= k < names.len() && is_luks(w, #[trigger] names[k]) && luks_nodes(w, names)[i]
                == "/dev/"@ + names[k],
    decreases names.len(),
{
    let rest = names.drop_last();
    let before = luks_nodes(w, rest);
    if i < before.len() {
        law_listed_nodes_are_luks(w, rest, i);
        let k = choose|k: int|
            0 <= k < rest.len() && is_luks(w, #[trigger] rest[k]) && before[i] == "/dev/"@
                + rest[k];
        assert(names[k] == rest[k]);
    } else {
        assert(names[names.len() - 1] == names.last());
    }
}

proof fn lemma_base_has_no_slash(device: Seq<char>)
    ensures
        !base_of(device).contains('/'),
    decreases device.len(),
{
    if device.len() > 0 {
        let front = device.drop_last();
        lemma_base_has_no_slash(front);
        lemma_split_nonempty(front, '/');
        let base = base_of(device);
        if base.contains('/') {
            let i = choose|i: int| 0 <= i < base.len() && base[i] == '/';
            assert(base == base_of(front).push(device.last()));
            assert(base_of(front)[i] == '/');
        }
    }
}

proof fn lemma_base_of_name(name: Seq<char>)
    requires
        !name.contains('/'),
    ensures
        base_of(name) == name,
{
    let parts = seq![name];
    law_split_join(parts, '/');
    assert(join(parts, '/') =~= name) by {
        reveal_with_fuel(join, 2);
    }
}

proof fn lemma_digit_run(s: Seq<char>, i: int)
    requires
        0 <= i <= s.len(),
    ensures
        0 <= digit_run(s, i) <= s.len() - i,
        forall|k: int| i <= k < i + digit_run(s, i) ==> is_digit(#[trigger] s[k]),
    decreases s.len() - i,
{
    if i < s.len() && is_digit(s[i]) {
        lemma_digit_run(s, i + 1);
    }
}

proof fn lemma_digit_run_take(s: Seq<char>, i: int, end: int)
    requires
        0 <= i,
        i + digit_run(s, i) <= end <= s.len(),
    ensures
        digit_run(s.take(end), i) == digit_run(s, i),
    decreases s.len() - i,
{
    if i < s.len() && is_digit(s[i]) {
        lemma_digit_run(s, i + 1);
        lemma_digit_run_take(s, i + 1, end);
    }
}

proof fn lemma_letter_run(s: Seq<char>, i: int)
    requires
        0 <= i <= s.len(),
    ensures
        0 <= letter_run(s, i) <= s.len() - i,
        forall|k: int| i <= k < i + letter_run(s, i) ==> is_lower(#[trigger] s[k]),
    decreases s.len() - i,
{
    if i < s.len() && is_lower(s[i]) {
        lemma_letter_run(s, i + 1);
    }
}

proof fn lemma_all_letters(s: Seq<char>, i: int)
    requires
        0 <= i <= s.len(),
        forall|k: int| 0 <= k < s.len() ==> is_lower(#[trigger] s[k]),
    ensures
        letter_run(s, i) == s.len() - i,
    decreases s.len() - i,
{
    if i < s.len() {
        lemma_all_letters(s, i + 1);
    }
}

proof fn lemma_nvme_disk_stays(name: Seq<char>)
    requires
        nvme_end(name) is Some,
    ensures
        0 <= nvme_end(name)->Some_0 <= name.len(),
        nvme_parent(name.take(nvme_end(name)->Some_0)) is None,
        letters_parent(name.take(nvme_end(name)->Some_0)) is None,
{
    reveal_strlit("nvme");
    let end = nvme_end(name)->Some_0;
    let controller = digit_run(name, 4);
    let n = 4 + controller;
    lemma_digit_run(name, 4);
    lemma_digit_run(name, n + 1);
    let disk = name.take(end);
    assert(disk.take(4) =~= name.take(4));
    lemma_digit_run_take(name, 4, end);
    lemma_digit_run_take(name, n + 1, end);
    assert(nvme_end(disk) == Some(end));
    assert(disk.skip(end).len() == 0);
    assert("nvme"@ =~= seq!['n', 'v', 'm', 'e']);
    assert(forall|k: int| 0 <= k < 4 ==> disk[k] == disk.take(4)[k]);
    assert(disk[0] == 'n' && disk[1] == 'v' && disk[2] == 'm' && disk[3] == 'e');
    assert(is_digit(name[4]));
    assert(letter_run(disk, 0) == 4) by {
        reveal_with_fuel(letter_run, 5);
    }
    assert(disk.skip(4)[n - 4] == 'n');
}

/// The disk that a partition lies on lies on no other: its name stays as it is.
pub proof fn law_parent_is_a_disk(device: Seq<char>)
    ensures
        parent_of(parent_of(device)) == parent_of(device),
{
    let base = base_of(device);
    let parent = parent_of(device);
    lemma_base_has_no_slash(device);
    lemma_letter_run(base, 0);
    if nvme_parent(base) is Some {
        lemma_nvme_disk_stays(base);
    } else if letters_parent(base) is Some {
        lemma_all_letters(parent, 0);
        assert(digit_run(parent, 4) > 0 ==> is_digit(parent[4]));
    }
    assert(!parent.contains('/')) by {
        if parent.contains('/') {
            let i = choose|i: int| 0 <= i < parent.len() && parent[i] == '/';
            assert(base[i] == '/');
        }
    }
    lemma_base_of_name(parent);
}

/// A partition is removable just where its disk is.
pub proof fn law_partition_is_as_removable_as_its_disk(w: World, device: Seq<char>)
    ensures
        removable(w, device) == removable(w, parent_of(device)),
        removable_file(device) == removable_file(parent_of(device)),
{
    law_parent_is_a_disk(device);
}

} // verus!
