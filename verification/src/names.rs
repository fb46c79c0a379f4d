//! The names of block devices: the laws of taking them apart and of making them up.

use vstd::prelude::*;

use crate::devices::{
    base_of, digit_run, is_lower, letter_run, nvme_end, parent_of, partition, removable,
};
use crate::facts::World;
use crate::format::first_partition;
use crate::host::{Answer, Ask, Turn};
use crate::inventory::says_one;
use crate::outcomes::law_format;
use crate::service::format_partition_turn;
use crate::text::{all_digits, is_digit, lemma_split_nonempty};

verus! {

/// The last component of a path: it has no slash in it, and what comes before it is
/// nothing or ends in one.
pub proof fn law_base_name(path: Seq<char>)
    ensures
        ({
            let base = base_of(path);
            let n = path.len() - base.len();
            &&& !base.contains('/')
            &&& 0 <= n && path.skip(n) == base
            &&& n > 0 ==> path[n - 1] == '/'
        }),
    decreases path.len(),
{
    let base = base_of(path);
    if path.len() > 0 {
        let front = path.drop_last();
        let c = path.last();
        law_base_name(front);
        lemma_split_nonempty(front, '/');
        let before = base_of(front);
        let k = front.len() - before.len();
        if c == '/' {
            assert(base =~= Seq::<char>::empty());
            assert(path.skip(path.len() as int) =~= base);
        } else {
            assert(base == before.push(c));
            assert(path.skip(k) =~= front.skip(k).push(c));
            if base.contains('/') {
                let i = choose|i: int| 0 <= i < base.len() && base[i] == '/';
                assert(i < before.len());
                assert(before[i] == '/');
            }
        }
    } else {
        assert(base =~= Seq::<char>::empty());
        assert(path.skip(0) =~= base);
    }
}

proof fn lemma_base_extends(path: Seq<char>, more: Seq<char>)
    requires
        !more.contains('/'),
    ensures
        base_of(path + more) == base_of(path) + more,
    decreases more.len(),
{
    if more.len() == 0 {
        assert(path + more =~= path);
        assert(base_of(path) + more =~= base_of(path));
    } else {
        let rest = more.drop_last();
        let c = more.last();
        assert(!rest.contains('/')) by {
            if rest.contains('/') {
                let i = choose|i: int| 0 <= i < rest.len() && rest[i] == '/';
                assert(more[i] == '/');
            }
        }
        lemma_base_extends(path, rest);
        assert(more[more.len() - 1] == c);
        let whole = path + more;
        assert(whole.drop_last() =~= path + rest);
        assert(whole.last() == c);
        lemma_split_nonempty(path + rest, '/');
        assert(base_of(whole) == base_of(path + rest).push(c));
        assert((base_of(path) + rest).push(c) =~= base_of(path) + more);
    }
}

proof fn lemma_digit_run_is(s: Seq<char>, i: int, k: int)
    requires
        0 <= i,
        0 <= k,
        i + k <= s.len(),
        forall|j: int| i <= j < i + k ==> is_digit(#[trigger] s[j]),
        i + k < s.len() ==> !is_digit(s[i + k]),
    ensures
        digit_run(s, i) == k,
    decreases k,
{
    if k > 0 {
        assert(is_digit(s[i]));
        lemma_digit_run_is(s, i + 1, k - 1);
    }
}

proof fn lemma_letter_run_is(s: Seq<char>, i: int, k: int)
    requires
        0 <= i,
        0 <= k,
        i + k <= s.len(),
        forall|j: int| i <= j < i + k ==> is_lower(#[trigger] s[j]),
        i + k < s.len() ==> !is_lower(s[i + k]),
    ensures
        letter_run(s, i) == k,
    decreases k,
{
    if k > 0 {
        assert(is_lower(s[i]));
        lemma_letter_run_is(s, i + 1, k - 1);
    }
}

/// Whether the text is a number: one or more digits.
pub open spec fn is_number(s: Seq<char>) -> bool {
    s.len() > 0 && all_digits(s)
}

/// Whether the text is one or more small letters.
pub open spec fn is_letters(s: Seq<char>) -> bool {
    s.len() > 0 && forall|i: int| 0 <= i < s.len() ==> 'a' <= #[trigger] s[i] <= 'z'
}

/// The name of an NVMe disk, by the number of its controller and that of its namespace.
pub open spec fn nvme_disk(controller: Seq<char>, namespace: Seq<char>) -> Seq<char> {
    "nvme"@ + controller + "n"@ + namespace
}

proof fn lemma_nvme_end_is(controller: Seq<char>, namespace: Seq<char>, more: Seq<char>)
    requires
        is_number(controller),
        is_number(namespace),
        more.len() > 0 ==> !is_digit(more[0]),
    ensures
        nvme_end(nvme_disk(controller, namespace) + more) == Some(
            nvme_disk(controller, namespace).len() as int,
        ),
{
    reveal_strlit("nvme");
    reveal_strlit("n");
    let disk = nvme_disk(controller, namespace);
    let s = disk + more;
    let n = 4 + controller.len() as int;
    assert("nvme"@.len() == 4 && "n"@.len() == 1);
    assert(s.take(4) =~= "nvme"@);
    assert forall|j: int| 4 <= j < n implies is_digit(#[trigger] s[j]) by {
        assert(s[j] == controller[j - 4]);
    }
    assert(s[n] == "n"@[0] && s[n] == 'n');
    assert(!is_digit(s[n]));
    lemma_digit_run_is(s, 4, controller.len() as int);
    assert forall|j: int| n + 1 <= j < n + 1 + namespace.len() implies is_digit(#[trigger] s[j]) by {
        assert(s[j] == namespace[j - n - 1]);
    }
    let end = n + 1 + namespace.len();
    assert(disk.len() == end);
    if end < s.len() {
        assert(s[end] == more[0]);
    }
    lemma_digit_run_is(s, n + 1, namespace.len() as int);
}

/// A partition of an NVMe disk lies on that disk: its name is the disk's, a `p` and a
/// number.
pub proof fn law_nvme_partition(
    controller: Seq<char>,
    namespace: Seq<char>,
    number: Seq<char>,
    dir: Seq<char>,
)
    requires
        is_number(controller),
        is_number(namespace),
        is_number(number),
        dir.len() > 0 ==> dir.last() == '/',
    ensures
        parent_of(dir + (nvme_disk(controller, namespace) + "p"@ + number)) == nvme_disk(
            controller,
            namespace,
        ),
{
    reveal_strlit("p");
    reveal_strlit("nvme");
    reveal_strlit("n");
    let disk = nvme_disk(controller, namespace);
    let name = disk + "p"@ + number;
    let more = "p"@ + number;
    assert(name =~= disk + more);
    assert(more[0] == 'p');
    lemma_nvme_end_is(controller, namespace, more);
    assert(!name.contains('/')) by {
        if name.contains('/') {
            let i = choose|i: int| 0 <= i < name.len() && name[i] == '/';
            lemma_nvme_chars(controller, namespace, i);
            if i > disk.len() {
                assert(name[i] == number[i - disk.len() - 1]);
            }
        }
    }
    lemma_base_in(dir, name);
    let suffix = name.skip(disk.len() as int);
    assert(suffix =~= more);
    assert(suffix.skip(1) =~= number);
    assert(name.take(disk.len() as int) =~= disk);
}

proof fn lemma_nvme_chars(controller: Seq<char>, namespace: Seq<char>, i: int)
    requires
        is_number(controller),
        is_number(namespace),
    ensures
        0 <= i < nvme_disk(controller, namespace).len() ==> nvme_disk(controller, namespace)[i]
            != '/',
{
    reveal_strlit("nvme");
    reveal_strlit("n");
    let disk = nvme_disk(controller, namespace);
    let n = 4 + controller.len() as int;
    assert("nvme"@.len() == 4 && "n"@.len() == 1);
    if 0 <= i < disk.len() {
        if i < 4 {
            assert(disk[i] == "nvme"@[i]);
        } else if i < n {
            assert(disk[i] == controller[i - 4]);
        } else if i == n {
            assert(disk[i] == "n"@[0]);
        } else {
            assert(disk[i] == namespace[i - n - 1]);
        }
    }
}

proof fn lemma_base_in(dir: Seq<char>, name: Seq<char>)
    requires
        dir.len() > 0 ==> dir.last() == '/',
        !name.contains('/'),
    ensures
        base_of(dir + name) == name,
{
    lemma_base_extends(dir, name);
    assert(base_of(dir) =~= Seq::<char>::empty()) by {
        law_base_name(dir);
        let base = base_of(dir);
        if base.len() > 0 {
            let n = dir.len() - base.len();
            assert(dir.skip(n)[base.len() - 1] == dir.last());
            assert(base[base.len() - 1] == '/');
        }
    }
    assert(Seq::<char>::empty() + name =~= name);
}

/// A partition of any other disk lies on that disk: its name is the disk's, which is
/// letters alone, and a number.
pub proof fn law_letter_partition(letters: Seq<char>, number: Seq<char>, dir: Seq<char>)
    requires
        is_letters(letters),
        is_number(number),
        dir.len() > 0 ==> dir.last() == '/',
    ensures
        parent_of(dir + (letters + number)) == letters,
{
    reveal_strlit("nvme");
    let name = letters + number;
    let n = letters.len() as int;
    assert forall|j: int| 0 <= j < n implies is_lower(#[trigger] name[j]) by {
        assert(name[j] == letters[j]);
    }
    assert(name[n] == number[0]);
    assert(is_digit(number[0]));
    lemma_letter_run_is(name, 0, n);
    assert(name.skip(n) =~= number);
    assert(name.take(n) =~= letters);
    assert(!name.contains('/')) by {
        if name.contains('/') {
            let i = choose|i: int| 0 <= i < name.len() && name[i] == '/';
            if i < n {
                assert(name[i] == letters[i]);
            } else {
                assert(name[i] == number[i - n]);
            }
        }
    }
    lemma_base_in(dir, name);
    assert(nvme_end(name) is None) by {
        if nvme_end(name) is Some {
            let controller = digit_run(name, 4);
            let at = 4 + controller;
            lemma_run_digits(name, 4);
            assert(is_digit(name[4]));
            assert(n <= 4);
            assert(name[at] == 'n');
            assert(name[at] == number[at - n]);
            assert(is_digit(number[at - n]));
        }
    }
}

proof fn lemma_run_digits(s: Seq<char>, i: int)
    requires
        0 <= i,
    ensures
        digit_run(s, i) >= 0,
        digit_run(s, i) > 0 ==> i < s.len() && is_digit(s[i]),
        i <= s.len() ==> i + digit_run(s, i) <= s.len(),
    decreases s.len() - i,
{
    if i < s.len() && is_digit(s[i]) {
        lemma_run_digits(s, i + 1);
    }
}

/// The first partition of a disk lies on that disk, and is its number one: behind the
/// name of an NVMe disk it has a `p`, and behind that of any other disk none.
pub proof fn law_first_partition(
    dir: Seq<char>,
    letters: Seq<char>,
    controller: Seq<char>,
    namespace: Seq<char>,
)
    requires
        dir.len() > 0 ==> dir.last() == '/',
        is_letters(letters),
        is_number(controller),
        is_number(namespace),
    ensures
        first_partition(dir + letters) == dir + letters + "1"@,
        parent_of(first_partition(dir + letters)) == letters,
        first_partition(dir + nvme_disk(controller, namespace)) == dir + nvme_disk(
            controller,
            namespace,
        ) + "p1"@,
        parent_of(first_partition(dir + nvme_disk(controller, namespace))) == nvme_disk(
            controller,
            namespace,
        ),
{
    reveal_strlit("1");
    reveal_strlit("p");
    reveal_strlit("p1");
    reveal_strlit("nvme");
    let disk = nvme_disk(controller, namespace);
    assert(!letters.contains('/'));
    lemma_base_in(dir, letters);
    assert(nvme_end(letters) is None) by {
        if nvme_end(letters) is Some {
            lemma_run_digits(letters, 4);
            assert(is_digit(letters[4]));
        }
    }
    law_letter_partition(letters, "1"@, dir);
    assert(dir + (letters + "1"@) =~= dir + letters + "1"@);
    assert(!disk.contains('/')) by {
        if disk.contains('/') {
            let i = choose|i: int| 0 <= i < disk.len() && disk[i] == '/';
            lemma_nvme_chars(controller, namespace, i);
        }
    }
    lemma_base_in(dir, disk);
    let none: Seq<char> = seq![];
    lemma_nvme_end_is(controller, namespace, none);
    assert(disk + none =~= disk);
    law_nvme_partition(controller, namespace, "1"@, dir);
    assert("p"@ + "1"@ =~= "p1"@);
    assert(dir + (disk + "p"@ + "1"@) =~= dir + disk + "p1"@);
}

/// Formatting on this machine: nothing at all is asked for unless sysfs says that the disk
/// of the device is removable, and the device is partitioned only where sysfs does not
/// know it as a partition.
pub proof fn law_format_on_this_machine(
    w: World,
    device: Seq<char>,
    passphrase: Seq<char>,
    log: Seq<Answer>,
)
    ensures
        ({
            let turn = format_partition_turn(
                device,
                passphrase,
                removable(w, device),
                partition(w, device),
                log,
            );
            let known = (w.canonical)("/sys/class/block/"@ + base_of(device) + "/partition"@);
            &&& turn is Ask ==> says_one(w, "/sys/block/"@ + parent_of(device) + "/removable"@)
            &&& turn matches Turn::Ask(Ask::Partition { device: d }) ==> d == device
                && known is None
            &&& turn matches Turn::Ask(Ask::AddKeyslot { device: d, .. }) ==> (d == device
                <==> known is Some)
            &&& turn is Done && turn->Done_0.0 ==> (turn->Done_0.1 == device <==> known is Some)
        }),
{
    reveal_strlit("1");
    reveal_strlit("p1");
    law_format(device, passphrase, removable(w, device), partition(w, device), log);
    assert((device + "1"@).len() > device.len());
    assert((device + "p1"@).len() > device.len());
}

} // verus!
