//! How texts and settings are read: the laws of white space, of numbers, and of the names
//! that are accepted.

use vstd::prelude::*;

use crate::order::{law_sort_of, sort_of, Ranked};
use crate::service::{image_path_ok, unlock_token_ok};
use crate::settings::allowed_key;
use crate::text::{
    digits_value, hex8, hex_digit, hex_text, is_digit, is_space, lemma_text_lt_total,
    parse_i32_spec, parse_i64_spec, parse_int, parse_u64_spec, text_lt, trim, trim_end, trim_start,
    words,
};
use crate::tpm2::tcti_of;
use crate::volume::unlock_method_ok;

verus! {

// ---------------------------------------------------------------------------
// White space
// ---------------------------------------------------------------------------

/// Whether all of the text is white space.
pub open spec fn is_blank(s: Seq<char>) -> bool {
    forall|i: int| 0 <= i < s.len() ==> is_space(#[trigger] s[i])
}

proof fn lemma_trim_start(s: Seq<char>) -> (n: int)
    ensures
        0 <= n <= s.len(),
        is_blank(s.take(n)),
        trim_start(s) == s.skip(n),
        n < s.len() ==> !is_space(s[n]),
    decreases s.len(),
{
    if s.len() > 0 && is_space(s[0]) {
        let m = lemma_trim_start(s.skip(1));
        assert(s.skip(1).skip(m) =~= s.skip(m + 1));
        assert forall|i: int| 0 <= i < s.take(m + 1).len() implies is_space(
            #[trigger] s.take(m + 1)[i],
        ) by {
            if i > 0 {
                assert(s.skip(1).take(m)[i - 1] == s[i]);
            }
        }
        m + 1
    } else {
        assert(s.skip(0) =~= s);
        0
    }
}

proof fn lemma_trim_end(s: Seq<char>) -> (n: int)
    ensures
        0 <= n <= s.len(),
        is_blank(s.skip(n)),
        trim_end(s) == s.take(n),
        n > 0 ==> !is_space(s[n - 1]),
    decreases s.len(),
{
    if s.len() > 0 && is_space(s.last()) {
        let front = s.drop_last();
        let n = lemma_trim_end(front);
        assert(front.take(n) =~= s.take(n));
        assert forall|i: int| 0 <= i < s.skip(n).len() implies is_space(#[trigger] s.skip(n)[i]) by {
            if i < front.skip(n).len() {
                assert(front.skip(n)[i] == s.skip(n)[i]);
            }
        }
        n
    } else {
        assert(s.take(s.len() as int) =~= s);
        s.len() as int
    }
}

/// What is left of a text without the white space around it: a stretch of it that neither
/// begins nor ends with white space, and only white space comes before and behind it.
pub proof fn law_trim(s: Seq<char>)
    ensures
        exists|i: int, j: int|
            0 <= i <= j <= s.len() && trim(s) == #[trigger] s.subrange(i, j) && is_blank(s.take(i))
                && is_blank(s.skip(j)),
        trim(s).len() > 0 ==> !is_space(trim(s)[0]) && !is_space(trim(s).last()),
{
    let i = lemma_trim_start(s);
    let t = s.skip(i);
    let n = lemma_trim_end(t);
    let j = i + n;
    assert(t.take(n) =~= s.subrange(i, j));
    assert(s.skip(j) =~= t.skip(n));
}

/// Whether a text is one word: it is not empty, and no white space is in it.
pub open spec fn is_word(s: Seq<char>) -> bool {
    s.len() > 0 && forall|i: int| 0 <= i < s.len() ==> !is_space(#[trigger] s[i])
}

/// The words of one word are that word, and white space alone has none.
pub proof fn law_one_word(s: Seq<char>)
    ensures
        is_word(s) ==> words(s) == seq![s],
        is_blank(s) ==> words(s).len() == 0,
    decreases s.len(),
{
    if s.len() > 0 {
        let front = s.drop_last();
        law_one_word(front);
        assert(s[s.len() - 1] == s.last());
        assert forall|i: int| 0 <= i < front.len() implies front[i] == #[trigger] s[i] by {}
        if is_word(s) {
            if s.len() == 1 {
                assert(seq![s.last()] =~= s);
            } else {
                assert(is_word(front)) by {
                    assert forall|i: int| 0 <= i < front.len() implies !is_space(
                        #[trigger] front[i],
                    ) by {
                        assert(!is_space(s[i]));
                    }
                }
                assert(front.push(s.last()) =~= s);
                assert(!is_space(s[s.len() - 2]));
                assert(words(s) =~= seq![s]);
            }
        }
        if is_blank(s) {
            assert(is_blank(front)) by {
                assert forall|i: int| 0 <= i < front.len() implies is_space(
                    #[trigger] front[i],
                ) by {
                    assert(is_space(s[i]));
                }
            }
        }
    }
}

/// The words of two texts, one behind the other, are those of the first and then those of
/// the second, where white space is between them.
pub proof fn law_words_of_both(s: Seq<char>, t: Seq<char>)
    requires
        s.len() == 0 || t.len() == 0 || is_space(s.last()) || is_space(t[0]),
    ensures
        words(s + t) == words(s) + words(t),
    decreases t.len(),
{
    if t.len() == 0 {
        assert(s + t =~= s);
        assert(words(s) + words(t) =~= words(s));
    } else {
        let front = t.drop_last();
        let c = t.last();
        let whole = s + t;
        assert(whole.drop_last() =~= s + front);
        assert(whole.last() == c);
        law_words_of_both(s, front);
        if !is_space(c) {
            if front.len() > 0 {
                assert(whole[whole.len() - 2] == front.last());
                assert(t[t.len() - 2] == front.last());
                if !is_space(front.last()) {
                    assert(words(front).len() > 0);
                    let before = words(s) + words(front);
                    assert(before.last() == words(front).last());
                    assert(before.drop_last() =~= words(s) + words(front).drop_last());
                    assert(words(whole) =~= words(s) + words(t));
                } else {
                    assert(words(whole) =~= words(s) + words(t));
                }
            } else {
                assert(t =~= seq![c]);
                if s.len() > 0 {
                    assert(whole[whole.len() - 2] == s.last());
                }
                assert(words(front) =~= Seq::<Seq<char>>::empty());
                assert(words(whole) =~= words(s).push(seq![c]));
                assert(words(t) =~= seq![seq![c]]);
                assert(words(whole) =~= words(s) + words(t));
            }
        }
    }
}

// ---------------------------------------------------------------------------
// Numbers
// ---------------------------------------------------------------------------

/// Whether the text has digits only, from `from` on.
pub open spec fn digits_from(s: Seq<char>, from: int) -> bool {
    forall|i: int| from <= i < s.len() ==> is_digit(#[trigger] s[i])
}

/// Whether the text is a number in decimal: digits, at least one, with a sign before them
/// or none.
pub open spec fn is_decimal(s: Seq<char>) -> bool {
    ||| s.len() > 0 && digits_from(s, 0)
    ||| s.len() > 1 && (s[0] == '+' || s[0] == '-') && digits_from(s, 1)
}

/// A text is read as a number just where it is one, and then a digit more behind it adds
/// that digit to ten times the number, away from zero.
pub proof fn law_numbers(s: Seq<char>, c: char)
    ensures
        parse_int(s) is Some <==> is_decimal(s),
        is_decimal(s) && is_digit(c) ==> parse_int(s.push(c)) == Some(
            if s[0] == '-' {
                10 * parse_int(s)->Some_0 - (c as int - '0' as int)
            } else {
                10 * parse_int(s)->Some_0 + (c as int - '0' as int)
            },
        ),
        is_digit(c) ==> parse_int(seq![c]) == Some(c as int - '0' as int),
{
    let signed = s.len() > 0 && (s[0] == '+' || s[0] == '-');
    let from = if signed {
        1int
    } else {
        0int
    };
    let digits = if signed {
        s.skip(1)
    } else {
        s
    };
    assert forall|i: int| 0 <= i < digits.len() implies digits[i] == #[trigger] s[i + from] by {}
    if parse_int(s) is Some {
        assert forall|i: int| from <= i < s.len() implies is_digit(#[trigger] s[i]) by {
            assert(digits[i - from] == s[i]);
        }
        assert(digits_from(s, from));
    }
    if is_decimal(s) {
        assert(signed ==> !is_digit(s[0]));
        assert(digits_from(s, from));
        assert forall|i: int| 0 <= i < digits.len() implies is_digit(#[trigger] digits[i]) by {
            assert(is_digit(s[i + from]));
        }
        if is_digit(c) {
            let t = s.push(c);
            let more = digits.push(c);
            assert((if signed {
                t.skip(1)
            } else {
                t
            }) =~= more);
            assert(more.drop_last() =~= digits);
            assert(digits_value(more) == digits_value(digits) * 10 + (c as nat - '0' as nat) as nat);
            assert forall|i: int| 0 <= i < more.len() implies is_digit(#[trigger] more[i]) by {
                if i < digits.len() {
                    assert(more[i] == digits[i]);
                }
            }
        }
    }
    if is_digit(c) {
        let one = seq![c];
        assert(one.drop_last() =~= Seq::<char>::empty());
        assert(digits_value(one) == digits_value(one.drop_last()) * 10 + (c as nat - '0' as nat) as nat);
        assert(digits_value(one.drop_last()) == 0);
    }
}

/// The numbers of each size are those that fit it, and none without a sign has a minus.
pub proof fn law_number_ranges(s: Seq<char>)
    ensures
        parse_i32_spec(s) is Some <==> (parse_int(s) matches Some(v) && -0x8000_0000 <= v
            <= 0x7fff_ffff),
        parse_i64_spec(s) is Some <==> (parse_int(s) matches Some(v) && -0x8000_0000_0000_0000 <= v
            <= 0x7fff_ffff_ffff_ffff),
        parse_u64_spec(s) is Some <==> (parse_int(s) matches Some(v) && s[0] != '-' && v
            <= 0xffff_ffff_ffff_ffff),
        parse_i32_spec(s) matches Some(n) ==> parse_int(s) == Some(n as int),
        parse_i64_spec(s) matches Some(n) ==> parse_int(s) == Some(n as int),
        parse_u64_spec(s) matches Some(n) ==> parse_int(s) == Some(n as int),
{
}

// ---------------------------------------------------------------------------
// What is accepted
// ---------------------------------------------------------------------------

/// A volume is unlocked by its passphrase, a FIDO2 token or a TPM2 token, and by itself
/// only by one of the tokens.
pub proof fn law_unlock_methods(method: Seq<char>)
    ensures
        unlock_method_ok(method) <==> method == "passphrase"@ || method == "systemd-fido2"@
            || method == "systemd-tpm2"@,
        unlock_token_ok(method) <==> method == "systemd-fido2"@ || method == "systemd-tpm2"@,
{
}

/// Containers are made below `/home/` and `/tmp/` only.
pub proof fn law_container_places(path: Seq<char>)
    ensures
        image_path_ok(path) <==> (path.len() >= 6 && path.subrange(0, 6) == "/home/"@) || (path.len()
            >= 5 && path.subrange(0, 5) == "/tmp/"@),
{
    reveal_strlit("/home/");
    reveal_strlit("/tmp/");
    assert("/home/"@.len() == 6 && "/tmp/"@.len() == 5);
    if path.len() >= 6 {
        assert(path.take(6) =~= path.subrange(0, 6));
    }
    if path.len() >= 5 {
        assert(path.take(5) =~= path.subrange(0, 5));
    }
}

/// There is no setting.
pub proof fn law_no_settings(key: Seq<char>)
    ensures
        !allowed_key(key),
{
}

/// The TPM to talk to is the first setting that says something, and the kernel's resource
/// manager where none does.
pub proof fn law_tcti(settings: Seq<Option<Seq<char>>>)
    ensures
        ({
            let conf = tcti_of(settings);
            ||| exists|i: int|
                0 <= i < settings.len() && #[trigger] settings[i] == Some(conf) && conf.len() > 0
                    && forall|k: int|
                    0 <= k < i ==> says_nothing(#[trigger] settings[k])
            ||| conf == "device:/dev/tpmrm0"@ && forall|k: int|
                0 <= k < settings.len() ==> says_nothing(#[trigger] settings[k])
        }),
    decreases settings.len(),
{
    let conf = tcti_of(settings);
    if settings.len() > 0 {
        if says_nothing(settings[0]) {
            let rest = settings.skip(1);
            law_tcti(rest);
            assert(conf == tcti_of(rest));
            if exists|i: int|
                0 <= i < rest.len() && #[trigger] rest[i] == Some(conf) && conf.len() > 0
                    && forall|k: int| 0 <= k < i ==> says_nothing(#[trigger] rest[k]) {
                let i = choose|i: int|
                    0 <= i < rest.len() && #[trigger] rest[i] == Some(conf) && conf.len() > 0
                        && forall|k: int| 0 <= k < i ==> says_nothing(#[trigger] rest[k]);
                assert(settings[i + 1] == Some(conf));
                assert forall|k: int| 0 <= k < i + 1 implies says_nothing(
                    #[trigger] settings[k],
                ) by {
                    if k > 0 {
                        assert(rest[k - 1] == settings[k]);
                    }
                }
            } else {
                assert forall|k: int| 0 <= k < settings.len() implies says_nothing(
                    #[trigger] settings[k],
                ) by {
                    if k > 0 {
                        assert(rest[k - 1] == settings[k]);
                    }
                }
            }
        } else {
            assert(settings[0] == Some(conf));
        }
    }
}

/// Whether the setting is not there or empty.
pub open spec fn says_nothing(setting: Option<Seq<char>>) -> bool {
    setting matches Some(s) ==> s.len() == 0
}

/// What a hexadecimal digit counts, in small letters.
pub open spec fn hex_value(c: char) -> int {
    if '0' <= c && c <= '9' {
        c as int - '0' as int
    } else if 'a' <= c && c <= 'f' {
        c as int - 'a' as int + 10
    } else {
        -1
    }
}

/// The hexadecimal text of bytes: two digits for each, the one that counts sixteenfold
/// first.
pub proof fn law_hex(b: Seq<u8>, i: int)
    requires
        0 <= i < b.len(),
    ensures
        hex_text(b).len() == 2 * b.len(),
        0 <= hex_value(hex_text(b)[2 * i]) < 16,
        0 <= hex_value(hex_text(b)[2 * i + 1]) < 16,
        b[i] == 16 * hex_value(hex_text(b)[2 * i]) + hex_value(hex_text(b)[2 * i + 1]),
{
    let x = b[i] as int;
    assert((2 * i) / 2 == i && (2 * i) % 2 == 0);
    assert((2 * i + 1) / 2 == i && (2 * i + 1) % 2 == 1);
    assert(hex_text(b)[2 * i] == hex_digit(x / 16));
    assert(hex_text(b)[2 * i + 1] == hex_digit(x % 16));
    lemma_hex_digit(x / 16);
    lemma_hex_digit(x % 16);
}

proof fn lemma_hex_digit(n: int)
    requires
        0 <= n < 16,
    ensures
        hex_value(hex_digit(n)) == n,
{
}

/// The text of a 32-bit number in hexadecimal is that of its four bytes, the highest first.
pub proof fn law_hex_number(n: u32)
    ensures
        exists|b: Seq<u8>|
            b.len() == 4 && hex8(n) == #[trigger] hex_text(b) && n == 0x100_0000 * b[0] + 0x1_0000
                * b[1] + 0x100 * b[2] + b[3],
{
    let b = seq![
        (n / 0x100_0000) as u8,
        (n / 0x1_0000 % 0x100) as u8,
        (n / 0x100 % 0x100) as u8,
        (n % 0x100) as u8,
    ];
    assert(hex8(n) == hex_text(b));
}

// ---------------------------------------------------------------------------
// Order
// ---------------------------------------------------------------------------

/// Whether `a` comes before `b` in a dictionary, by what is at `k`: up to there they are
/// the same, and there `a` ends or has the smaller character.
pub open spec fn differs_at(a: Seq<char>, b: Seq<char>, k: int) -> bool {
    &&& 0 <= k <= a.len() && k < b.len()
    &&& a.take(k) == b.take(k)
    &&& k == a.len() || a[k] < b[k]
}

/// Texts are in the order of a dictionary.
pub proof fn law_text_order(a: Seq<char>, b: Seq<char>)
    ensures
        text_lt(a, b) <==> exists|k: int| differs_at(a, b, k),
    decreases a.len(),
{
    if b.len() > 0 && a.len() > 0 && a[0] == b[0] {
        let x = a.skip(1);
        let y = b.skip(1);
        law_text_order(x, y);
        if text_lt(x, y) {
            let k = choose|k: int| differs_at(x, y, k);
            assert(a.take(k + 1) =~= seq![a[0]] + x.take(k));
            assert(b.take(k + 1) =~= seq![b[0]] + y.take(k));
            assert(differs_at(a, b, k + 1));
        }
        if exists|k: int| differs_at(a, b, k) {
            let k = choose|k: int| differs_at(a, b, k);
            assert(k > 0);
            assert(x.take(k - 1) =~= a.take(k).skip(1));
            assert(y.take(k - 1) =~= b.take(k).skip(1));
            assert(differs_at(x, y, k - 1));
        }
    } else if b.len() > 0 {
        if text_lt(a, b) {
            assert(a.take(0) =~= b.take(0));
            assert(differs_at(a, b, 0));
        }
        if exists|k: int| differs_at(a, b, k) {
            let k = choose|k: int| differs_at(a, b, k);
            if k > 0 {
                assert(a.take(k)[0] == b.take(k)[0]);
            }
        }
    }
}

/// What is listed of the tokens is in the order of their numbers, and what is read of a
/// directory in that of the names.
pub proof fn law_listed_in_order(tokens: Seq<(i32, Seq<i32>)>, names: Seq<Seq<char>>, i: int, j: int)
    requires
        0 <= i < j,
    ensures
        j < tokens.len() ==> sort_of::<(i32, Vec<i32>)>(tokens).len() == tokens.len() && sort_of::<
            (i32, Vec<i32>),
        >(tokens)[i].0 <= sort_of::<(i32, Vec<i32>)>(tokens)[j].0,
        j < names.len() ==> sort_of::<String>(names).len() == names.len() && (sort_of::<String>(
            names,
        )[i] == sort_of::<String>(names)[j] || text_lt(
            sort_of::<String>(names)[i],
            sort_of::<String>(names)[j],
        )),
{
    broadcast use vstd::seq_lib::group_to_multiset_ensures;

    law_sort_of::<(i32, Vec<i32>)>(tokens);
    law_sort_of::<String>(names);
    let a = sort_of::<(i32, Vec<i32>)>(tokens);
    let b = sort_of::<String>(names);
    assert(a.to_multiset().len() == tokens.to_multiset().len());
    assert(b.to_multiset().len() == names.to_multiset().len());
    if j < tokens.len() {
        assert(!<(i32, Vec<i32>) as Ranked>::lt(a[j], a[i]));
    }
    if j < names.len() {
        assert(!<String as Ranked>::lt(b[j], b[i]));
        lemma_text_lt_total(b[i], b[j]);
    }
}

} // verus!
