//! What a client is told of the devices of the machine: the laws of the queries, stated
//! over what the machine holds.

use vstd::prelude::*;

use crate::devices::{
    all_luks_devices, base_of, crypttab_list, device_info, device_size_text, dir_names, disk_info,
    disk_infos, is_luks, line_devices, luks_devices, luks_nodes, mount_in, mount_point, or_empty,
    parent_of, partition_info, partition_infos, path_join, removable, removable_disks, size_text,
    sysfs_size, tag_of, with_devices,
};
use crate::facts::World;
use crate::json::{law_put, member, put, JsonTree, Members};
use crate::order::law_sort_of;
use crate::text::{parse_u64_spec, split, starts_with, trim, words};

verus! {

// ---------------------------------------------------------------------------
// Mounts
// ---------------------------------------------------------------------------

/// Whether the line of a mount table says that `device` is mounted at `place`.
pub open spec fn mounts(line: Seq<char>, device: Seq<char>, place: Seq<char>) -> bool {
    words(line).len() >= 2 && words(line)[0] == device && words(line)[1] == place
}

/// Whether `place` is where the lines say that `device` is mounted: by the first that
/// speaks of the device, and nothing if none does.
pub open spec fn is_mount(lines: Seq<Seq<char>>, device: Seq<char>, place: Seq<char>) -> bool {
    ||| exists|i: int|
        0 <= i < lines.len() && mounts(#[trigger] lines[i], device, place) && forall|k: int|
            0 <= k < i ==> !mounts(#[trigger] lines[k], device, words(lines[k])[1])
    ||| place.len() == 0 && forall|k: int|
        0 <= k < lines.len() ==> !mounts(#[trigger] lines[k], device, words(lines[k])[1])
}

proof fn lemma_mount_in(lines: Seq<Seq<char>>, device: Seq<char>)
    ensures
        is_mount(lines, device, mount_in(lines, device)),
    decreases lines.len(),
{
    reveal_strlit("");
    let place = mount_in(lines, device);
    if lines.len() > 0 {
        if mounts(lines[0], device, words(lines[0])[1]) {
            assert(mounts(lines[0], device, place));
        } else {
            let rest = lines.skip(1);
            lemma_mount_in(rest, device);
            assert forall|k: int| 0 <= k < rest.len() implies lines[k + 1]
                == #[trigger] rest[k] by {}
            if exists|i: int|
                0 <= i < rest.len() && mounts(#[trigger] rest[i], device, place) && forall|k: int|
                    0 <= k < i ==> !mounts(#[trigger] rest[k], device, words(rest[k])[1]) {
                let i = choose|i: int|
                    0 <= i < rest.len() && mounts(#[trigger] rest[i], device, place) && forall|
                        k: int,
                    |
                        0 <= k < i ==> !mounts(#[trigger] rest[k], device, words(rest[k])[1]);
                assert(mounts(lines[i + 1], device, place));
                assert forall|k: int| 0 <= k < i + 1 implies !mounts(
                    #[trigger] lines[k],
                    device,
                    words(lines[k])[1],
                ) by {
                    if k > 0 {
                        assert(rest[k - 1] == lines[k]);
                    }
                }
            } else {
                assert forall|k: int| 0 <= k < lines.len() implies !mounts(
                    #[trigger] lines[k],
                    device,
                    words(lines[k])[1],
                ) by {
                    if k > 0 {
                        assert(rest[k - 1] == lines[k]);
                    }
                }
            }
        }
    }
}

/// A device is mounted where the first line of the mount table that speaks of it says.
pub proof fn law_mount_point(w: World, device: Seq<char>)
    ensures
        match (w.file)("/proc/mounts"@) {
            Some(text) => is_mount(split(text, '\n'), device, mount_point(w, device)),
            None => mount_point(w, device).len() == 0,
        },
{
    reveal_strlit("");
    match (w.file)("/proc/mounts"@) {
        Some(text) => {
            lemma_mount_in(split(text, '\n'), device);
        },
        None => {},
    }
}

// ---------------------------------------------------------------------------
// One device
// ---------------------------------------------------------------------------

/// Whether the member is the text of the tag, or an empty one where there is no tag.
pub open spec fn tells_tag(value: Option<JsonTree>, tag: Option<Seq<char>>) -> bool {
    value matches Some(JsonTree::Str(s)) && match tag {
        Some(t) => s == t,
        None => s.len() == 0,
    }
}

/// Whether the file of sysfs has just a one in it, but for white space.
pub open spec fn says_one(w: World, path: Seq<char>) -> bool {
    (w.file)(path) matches Some(s) && trim(s) == "1"@
}

/// What a client is told of a device: its path; the length of a regular file, or else the
/// size of the partition, or else that of the disk, or nothing; its tags; whether its disk
/// is removable; and where it is mounted.
pub proof fn law_device_info(w: World, device: Seq<char>)
    ensures
        ({
            let t = JsonTree::Object(device_info(w, device));
            let tags = (w.tags)(device);
            let part = sysfs_size(
                w,
                "/sys/block/"@ + parent_of(device) + "/"@ + base_of(device) + "/size"@,
            );
            let disk = sysfs_size(w, "/sys/block/"@ + base_of(device) + "/size"@);
            &&& member(t, "device"@) == Some(JsonTree::Str(device))
            &&& member(t, "size"@) matches Some(JsonTree::Str(s)) && match (w.length)(device) {
                Some(n) => s == size_text(n as nat),
                None => {
                    &&& part > 0 ==> s == size_text(part as nat)
                    &&& part == 0 && disk > 0 ==> s == size_text(disk as nat)
                    &&& part == 0 && disk == 0 ==> s.len() == 0
                },
            }
            &&& tells_tag(member(t, "label"@), tags.label)
            &&& tells_tag(member(t, "filesystem"@), tags.kind)
            &&& tells_tag(member(t, "uuid"@), tags.uuid)
            &&& member(t, "removable"@) == Some(
                JsonTree::Bool(says_one(w, "/sys/block/"@ + parent_of(device) + "/removable"@)),
            )
            &&& member(t, "mount_point"@) == Some(JsonTree::Str(mount_point(w, device)))
        }),
{
    reveal_strlit("");
    reveal_strlit("device");
    reveal_strlit("size");
    reveal_strlit("label");
    reveal_strlit("removable");
    reveal_strlit("mount_point");
    reveal_strlit("filesystem");
    reveal_strlit("uuid");
    reveal_strlit("LABEL");
    reveal_strlit("TYPE");
    reveal_strlit("UUID");
    assert("LABEL"@.len() == 5 && "TYPE"@.len() == 4 && "UUID"@.len() == 4);
    assert("device"@.len() == 6 && "size"@.len() == 4 && "label"@.len() == 5);
    assert("removable"@.len() == 9 && "mount_point"@.len() == 11);
    assert("filesystem"@.len() == 10 && "uuid"@.len() == 4 && ""@.len() == 0);
    assert("size"@[0] != "uuid"@[0]);
    assert("TYPE"@[0] != "UUID"@[0]);
    let tags = (w.tags)(device);
    assert(forall|s: Seq<char>| s.len() == 0 ==> s =~= ""@);
    let m0: Members = seq![];
    let v1 = JsonTree::Str(device);
    let v2 = JsonTree::Str(device_size_text(w, device));
    let v3 = JsonTree::Str(or_empty(tag_of(tags, "LABEL"@)));
    let v4 = JsonTree::Bool(removable(w, device));
    let v5 = JsonTree::Str(mount_point(w, device));
    let v6 = JsonTree::Str(or_empty(tag_of(tags, "TYPE"@)));
    let v7 = JsonTree::Str(or_empty(tag_of(tags, "UUID"@)));
    law_put(m0, "device"@, v1);
    let m1 = put(m0, "device"@, v1);
    law_put(m1, "size"@, v2);
    let m2 = put(m1, "size"@, v2);
    law_put(m2, "label"@, v3);
    let m3 = put(m2, "label"@, v3);
    law_put(m3, "removable"@, v4);
    let m4 = put(m3, "removable"@, v4);
    law_put(m4, "mount_point"@, v5);
    let m5 = put(m4, "mount_point"@, v5);
    law_put(m5, "filesystem"@, v6);
    let m6 = put(m5, "filesystem"@, v6);
    law_put(m6, "uuid"@, v7);
    let t = JsonTree::Object(put(m6, "uuid"@, v7));
    assert(device_info(w, device) == put(m6, "uuid"@, v7));
    assert(member(t, "device"@) == Some(v1));
    assert(member(t, "size"@) == Some(v2));
    assert(member(t, "label"@) == Some(v3));
    assert(member(t, "removable"@) == Some(v4));
    assert(member(t, "mount_point"@) == Some(v5));
    assert(member(t, "filesystem"@) == Some(v6));
    assert(member(t, "uuid"@) == Some(v7));
}

// ---------------------------------------------------------------------------
// LUKS devices
// ---------------------------------------------------------------------------

/// Whether the line of a crypttab leads to the device `dev`: its second field does, or
/// what has that UUID.
pub open spec fn leads_to(w: World, line: Seq<char>, by_uuid: Seq<char>, dev: Seq<char>) -> bool {
    let fields = words(trim(line));
    &&& trim(line).len() > 0 && trim(line)[0] != '#' && fields.len() >= 2
    &&& if starts_with(fields[1], "UUID="@) {
        (w.canonical)(path_join(by_uuid, fields[1].skip(5))) == Some(dev)
    } else {
        (w.canonical)(fields[1]) == Some(dev)
    }
}

proof fn lemma_line_devices(w: World, lines: Seq<Seq<char>>, by_uuid: Seq<char>, dev: Seq<char>)
    ensures
        line_devices(w, lines, by_uuid).contains(dev) <==> exists|i: int|
            0 <= i < lines.len() && leads_to(w, #[trigger] lines[i], by_uuid, dev),
    decreases lines.len(),
{
    if lines.len() > 0 {
        let rest = lines.drop_last();
        let end = lines.len() - 1;
        let before = line_devices(w, rest, by_uuid);
        let list = line_devices(w, lines, by_uuid);
        lemma_line_devices(w, rest, by_uuid, dev);
        let here = leads_to(w, lines[end], by_uuid, dev);
        assert(list.contains(dev) <==> before.contains(dev) || here) by {
            if before.contains(dev) {
                let k = choose|k: int| 0 <= k < before.len() && before[k] == dev;
                assert(list[k] == dev);
            }
            if here && !before.contains(dev) {
                assert(list[before.len() as int] == dev);
            }
            if list.contains(dev) && !here {
                let k = choose|k: int| 0 <= k < list.len() && list[k] == dev;
                assert(k < before.len() ==> before[k] == dev);
            }
        }
        if before.contains(dev) {
            let i = choose|i: int|
                0 <= i < rest.len() && leads_to(w, #[trigger] rest[i], by_uuid, dev);
            assert(lines[i] == rest[i]);
        }
        if exists|i: int| 0 <= i < lines.len() && leads_to(w, #[trigger] lines[i], by_uuid, dev) {
            let i = choose|i: int|
                0 <= i < lines.len() && leads_to(w, #[trigger] lines[i], by_uuid, dev);
            if i < end {
                assert(rest[i] == lines[i]);
            }
        }
    }
}

/// The devices of a crypttab are those that one of its lines leads to.
pub proof fn law_crypttab_devices(
    w: World,
    crypttab: Seq<char>,
    by_uuid: Seq<char>,
    dev: Seq<char>,
)
    ensures
        crypttab_list(w, crypttab, by_uuid).contains(dev) <==> ((w.file)(crypttab) matches Some(
            text,
        ) && exists|i: int|
            0 <= i < split(text, '\n').len() && leads_to(
                w,
                #[trigger] split(text, '\n')[i],
                by_uuid,
                dev,
            )),
{
    match (w.file)(crypttab) {
        Some(text) => {
            lemma_line_devices(w, split(text, '\n'), by_uuid, dev);
        },
        None => {},
    }
}

/// Whether the block device `name` holds a LUKS volume and is neither a loop device nor a
/// memory disk.
pub open spec fn holds_luks(w: World, name: Seq<char>) -> bool {
    &&& !starts_with(name, "loop"@) && !starts_with(name, "ram"@) && !starts_with(name, "zram"@)
    &&& (w.tags)("/dev/"@ + name).kind == Some("crypto_LUKS"@)
}

proof fn lemma_luks_nodes(w: World, names: Seq<Seq<char>>, node: Seq<char>)
    ensures
        luks_nodes(w, names).contains(node) <==> exists|i: int|
            0 <= i < names.len() && holds_luks(w, #[trigger] names[i]) && node == "/dev/"@
                + names[i],
    decreases names.len(),
{
    if names.len() > 0 {
        reveal_strlit("LABEL");
        reveal_strlit("TYPE");
        reveal_strlit("crypto_LUKS");
        assert("LABEL"@.len() == 5 && "TYPE"@.len() == 4 && "crypto_LUKS"@.len() == 11);
        let rest = names.drop_last();
        let end = names.len() - 1;
        let before = luks_nodes(w, rest);
        let list = luks_nodes(w, names);
        lemma_luks_nodes(w, rest, node);
        let here = holds_luks(w, names[end]) && node == "/dev/"@ + names[end];
        assert(is_luks(w, names[end]) == holds_luks(w, names[end]));
        assert(list.contains(node) <==> before.contains(node) || here) by {
            if before.contains(node) {
                let k = choose|k: int| 0 <= k < before.len() && before[k] == node;
                assert(list[k] == node);
            }
            if here {
                assert(list[before.len() as int] == node);
            }
            if list.contains(node) && !here {
                let k = choose|k: int| 0 <= k < list.len() && list[k] == node;
                assert(k < before.len() ==> before[k] == node);
            }
        }
        if before.contains(node) {
            let i = choose|i: int|
                0 <= i < rest.len() && holds_luks(w, #[trigger] rest[i]) && node == "/dev/"@
                    + rest[i];
            assert(names[i] == rest[i]);
        }
        if exists|i: int|
            0 <= i < names.len() && holds_luks(w, #[trigger] names[i]) && node == "/dev/"@
                + names[i] {
            let i = choose|i: int|
                0 <= i < names.len() && holds_luks(w, #[trigger] names[i]) && node == "/dev/"@
                    + names[i];
            if i < end {
                assert(rest[i] == names[i]);
            }
        }
    }
}

/// The LUKS devices of the machine are the nodes of all block devices that hold a LUKS
/// volume, but for loop devices and memory disks.
pub proof fn law_luks_devices(w: World, node: Seq<char>)
    ensures
        luks_devices(w).contains(node) <==> exists|i: int|
            0 <= i < (w.dir)("/sys/class/block"@).len() && holds_luks(
                w,
                #[trigger] (w.dir)("/sys/class/block"@)[i],
            ) && node == "/dev/"@ + (w.dir)("/sys/class/block"@)[i],
{
    let names = (w.dir)("/sys/class/block"@);
    let ordered = dir_names(w, "/sys/class/block"@);
    lemma_luks_nodes(w, ordered, node);
    lemma_names_stay(w, "/sys/class/block"@);
    if luks_devices(w).contains(node) {
        let i = choose|i: int|
            0 <= i < ordered.len() && holds_luks(w, #[trigger] ordered[i]) && node == "/dev/"@
                + ordered[i];
        assert(ordered.contains(ordered[i]));
        assert(names.contains(ordered[i]));
        let k = choose|k: int| 0 <= k < names.len() && names[k] == ordered[i];
        assert(holds_luks(w, names[k]));
    }
    if exists|i: int|
        0 <= i < names.len() && holds_luks(w, #[trigger] names[i]) && node == "/dev/"@ + names[i] {
        let i = choose|i: int|
            0 <= i < names.len() && holds_luks(w, #[trigger] names[i]) && node == "/dev/"@
                + names[i];
        assert(names.contains(names[i]));
        assert(ordered.contains(names[i]));
        let k = choose|k: int| 0 <= k < ordered.len() && ordered[k] == names[i];
        assert(holds_luks(w, ordered[k]));
    }
}

// ---------------------------------------------------------------------------
// Removable disks
// ---------------------------------------------------------------------------

proof fn lemma_names_stay(w: World, dir: Seq<char>)
    ensures
        forall|name: Seq<char>| #[trigger]
            dir_names(w, dir).contains(name) <==> (w.dir)(dir).contains(name),
{
    broadcast use vstd::seq_lib::group_to_multiset_ensures;

    let names = (w.dir)(dir);
    let ordered = dir_names(w, dir);
    law_sort_of::<String>(names);
    assert forall|name: Seq<char>| #[trigger] ordered.contains(name) <==> names.contains(name) by {
        assert(ordered.to_multiset().count(name) == names.to_multiset().count(name));
    }
}

/// What a client is told of a partition: its node, its size, its label, and whether it
/// holds a LUKS volume; if so, its node again as that of the volume.
pub proof fn law_partition_info(w: World, disk: Seq<char>, name: Seq<char>)
    ensures
        ({
            let t = JsonTree::Object(partition_info(w, disk, name));
            let node = "/dev/"@ + name;
            let encrypted = luks_devices(w).contains(node);
            &&& member(t, "device"@) == Some(JsonTree::Str(node))
            &&& member(t, "size"@) == Some(
                JsonTree::Str(
                    size_text(sysfs_size(w, "/sys/block/"@ + disk + "/"@ + name + "/size"@) as nat),
                ),
            )
            &&& tells_tag(member(t, "label"@), (w.tags)(node).label)
            &&& member(t, "encrypted"@) == Some(JsonTree::Bool(encrypted))
            &&& member(t, "luks_device"@) == if encrypted {
                Some(JsonTree::Str(node))
            } else {
                None
            }
        }),
{
    reveal_strlit("");
    reveal_strlit("device");
    reveal_strlit("size");
    reveal_strlit("label");
    reveal_strlit("encrypted");
    reveal_strlit("luks_device");
    reveal_strlit("LABEL");
    assert("device"@.len() == 6 && "size"@.len() == 4 && "label"@.len() == 5);
    assert("encrypted"@.len() == 9 && "luks_device"@.len() == 11 && ""@.len() == 0);
    assert(forall|s: Seq<char>| s.len() == 0 ==> s =~= ""@);
    let node = "/dev/"@ + name;
    let encrypted = luks_devices(w).contains(node);
    let m0: Members = seq![];
    let v1 = JsonTree::Str(node);
    let v2 = JsonTree::Str(
        size_text(sysfs_size(w, "/sys/block/"@ + disk + "/"@ + name + "/size"@) as nat),
    );
    let v3 = JsonTree::Str(or_empty(tag_of((w.tags)(node), "LABEL"@)));
    let v4 = JsonTree::Bool(encrypted);
    law_put(m0, "device"@, v1);
    let m1 = put(m0, "device"@, v1);
    law_put(m1, "size"@, v2);
    let m2 = put(m1, "size"@, v2);
    law_put(m2, "label"@, v3);
    let m3 = put(m2, "label"@, v3);
    law_put(m3, "encrypted"@, v4);
    let m4 = put(m3, "encrypted"@, v4);
    law_put(m4, "luks_device"@, v1);
    assert(member(JsonTree::Object(m0), "luks_device"@) is None);
    assert(member(JsonTree::Object(m1), "luks_device"@) is None);
    assert(member(JsonTree::Object(m2), "luks_device"@) is None);
    assert(member(JsonTree::Object(m3), "luks_device"@) is None);
    assert(member(JsonTree::Object(m4), "luks_device"@) is None);
    let t = JsonTree::Object(partition_info(w, disk, name));
    assert(member(t, "device"@) == Some(v1));
    assert(member(t, "size"@) == Some(v2));
    assert(member(t, "label"@) == Some(v3));
    assert(member(t, "encrypted"@) == Some(v4));
}

proof fn lemma_partition_infos(w: World, disk: Seq<char>, entries: Seq<Seq<char>>, x: JsonTree)
    ensures
        partition_infos(w, disk, entries).contains(x) <==> exists|name: Seq<char>| #[trigger]
            entries.contains(name) && starts_with(name, disk) && x == JsonTree::Object(
                partition_info(w, disk, name),
            ),
    decreases entries.len(),
{
    if entries.len() > 0 {
        let rest = entries.drop_last();
        let last = entries.last();
        let before = partition_infos(w, disk, rest);
        let list = partition_infos(w, disk, entries);
        lemma_partition_infos(w, disk, rest, x);
        let here = starts_with(last, disk) && x == JsonTree::Object(partition_info(w, disk, last));
        lemma_last_or_before(entries);
        assert(list.len() > before.len() ==> list.drop_last() =~= before);
        lemma_pushed(before, list, x, here);
        if list.contains(x) {
            if here {
                assert(entries.contains(last));
            } else {
                let name = choose|name: Seq<char>| #[trigger]
                    rest.contains(name) && starts_with(name, disk) && x == JsonTree::Object(
                        partition_info(w, disk, name),
                    );
                assert(entries.contains(name));
            }
        }
        if exists|name: Seq<char>| #[trigger]
            entries.contains(name) && starts_with(name, disk) && x == JsonTree::Object(
                partition_info(w, disk, name),
            ) {
            let name = choose|name: Seq<char>| #[trigger]
                entries.contains(name) && starts_with(name, disk) && x == JsonTree::Object(
                    partition_info(w, disk, name),
                );
            assert(rest.contains(name) || name == last);
        }
    }
}

proof fn lemma_last_or_before(entries: Seq<Seq<char>>)
    requires
        entries.len() > 0,
    ensures
        forall|name: Seq<char>| #[trigger]
            entries.contains(name) <==> entries.drop_last().contains(name) || name
                == entries.last(),
{
    let rest = entries.drop_last();
    assert forall|name: Seq<char>| #[trigger] entries.contains(name) <==> rest.contains(name)
        || name == entries.last() by {
        if entries.contains(name) {
            let i = choose|i: int| 0 <= i < entries.len() && entries[i] == name;
            if i < rest.len() {
                assert(rest[i] == name);
            }
        }
        if rest.contains(name) {
            let i = choose|i: int| 0 <= i < rest.len() && rest[i] == name;
            assert(entries[i] == name);
        }
        assert(entries[entries.len() - 1] == entries.last());
    }
}

proof fn lemma_pushed(before: Seq<JsonTree>, list: Seq<JsonTree>, x: JsonTree, here: bool)
    requires
        list == before || (list.len() == before.len() + 1 && list.drop_last() == before),
        here ==> list.len() == before.len() + 1 && list.last() == x,
        list.len() == before.len() + 1 && list.last() == x ==> here,
    ensures
        list.contains(x) <==> before.contains(x) || here,
{
    if before.contains(x) {
        let k = choose|k: int| 0 <= k < before.len() && before[k] == x;
        if list != before {
            assert(list.drop_last()[k] == list[k]);
        }
        assert(list[k] == x);
    }
    if here {
        assert(list[list.len() - 1] == x);
    }
    if list.contains(x) {
        let k = choose|k: int| 0 <= k < list.len() && list[k] == x;
        if k < before.len() {
            if list != before {
                assert(list.drop_last()[k] == list[k]);
            }
            assert(before[k] == x);
        }
    }
}

/// What a client is told of a removable disk: its node, its size, its label, and all its
/// partitions, which are the entries of its directory that begin with its name.
pub proof fn law_disk_info(w: World, disk: Seq<char>)
    ensures
        ({
            let t = JsonTree::Object(disk_info(w, disk));
            let node = "/dev/"@ + disk;
            &&& member(t, "device"@) == Some(JsonTree::Str(node))
            &&& member(t, "size"@) == Some(
                JsonTree::Str(size_text(sysfs_size(w, "/sys/block/"@ + disk + "/size"@) as nat)),
            )
            &&& tells_tag(member(t, "label"@), (w.tags)(node).label)
            &&& member(t, "partitions"@) matches Some(JsonTree::Array(a)) && forall|x: JsonTree|
                #[trigger] a.contains(x) <==> exists|name: Seq<char>| #[trigger]
                    (w.dir)("/sys/block/"@ + disk).contains(name) && starts_with(name, disk) && x
                        == JsonTree::Object(partition_info(w, disk, name))
        }),
{
    reveal_strlit("");
    reveal_strlit("device");
    reveal_strlit("size");
    reveal_strlit("label");
    reveal_strlit("partitions");
    reveal_strlit("LABEL");
    assert("device"@.len() == 6 && "size"@.len() == 4 && "label"@.len() == 5);
    assert("partitions"@.len() == 10 && ""@.len() == 0);
    assert(forall|s: Seq<char>| s.len() == 0 ==> s =~= ""@);
    let node = "/dev/"@ + disk;
    let dir = "/sys/block/"@ + disk;
    let infos = partition_infos(w, disk, dir_names(w, dir));
    let m0: Members = seq![];
    let v1 = JsonTree::Str(node);
    let v2 = JsonTree::Array(infos);
    let v3 = JsonTree::Str(size_text(sysfs_size(w, dir + "/size"@) as nat));
    let v4 = JsonTree::Str(or_empty(tag_of((w.tags)(node), "LABEL"@)));
    law_put(m0, "device"@, v1);
    let m1 = put(m0, "device"@, v1);
    law_put(m1, "partitions"@, v2);
    let m2 = put(m1, "partitions"@, v2);
    law_put(m2, "size"@, v3);
    let m3 = put(m2, "size"@, v3);
    law_put(m3, "label"@, v4);
    let t = JsonTree::Object(disk_info(w, disk));
    assert(member(t, "device"@) == Some(v1));
    assert(member(t, "partitions"@) == Some(v2));
    assert(member(t, "size"@) == Some(v3));
    assert(member(t, "label"@) == Some(v4));
    lemma_names_stay(w, dir);
    assert forall|x: JsonTree| #[trigger] infos.contains(x) <==> exists|name: Seq<char>| #[trigger]
        (w.dir)(dir).contains(name) && starts_with(name, disk) && x == JsonTree::Object(
            partition_info(w, disk, name),
        ) by {
        lemma_partition_infos(w, disk, dir_names(w, dir), x);
        if infos.contains(x) {
            let name = choose|name: Seq<char>| #[trigger]
                dir_names(w, dir).contains(name) && starts_with(name, disk) && x
                    == JsonTree::Object(partition_info(w, disk, name));
            assert((w.dir)(dir).contains(name));
        }
        if exists|name: Seq<char>| #[trigger]
            (w.dir)(dir).contains(name) && starts_with(name, disk) && x == JsonTree::Object(
                partition_info(w, disk, name),
            ) {
            let name = choose|name: Seq<char>| #[trigger]
                (w.dir)(dir).contains(name) && starts_with(name, disk) && x == JsonTree::Object(
                    partition_info(w, disk, name),
                );
            assert(dir_names(w, dir).contains(name));
        }
    }
}

/// Whether the disk is neither a loop device nor a memory disk, and sysfs says that it is
/// removable.
pub open spec fn is_offered(w: World, disk: Seq<char>) -> bool {
    &&& !starts_with(disk, "loop"@) && !starts_with(disk, "ram"@) && !starts_with(disk, "zram"@)
    &&& says_one(w, "/sys/block/"@ + disk + "/removable"@)
}

proof fn lemma_disk_infos(w: World, names: Seq<Seq<char>>, x: JsonTree)
    ensures
        disk_infos(w, names).contains(x) <==> exists|disk: Seq<char>| #[trigger]
            names.contains(disk) && is_offered(w, disk) && x == JsonTree::Object(
                disk_info(w, disk),
            ),
    decreases names.len(),
{
    if names.len() > 0 {
        let rest = names.drop_last();
        let last = names.last();
        let before = disk_infos(w, rest);
        let list = disk_infos(w, names);
        lemma_disk_infos(w, rest, x);
        let here = is_offered(w, last) && x == JsonTree::Object(disk_info(w, last));
        lemma_last_or_before(names);
        assert(list.len() > before.len() ==> list.drop_last() =~= before);
        lemma_pushed(before, list, x, here);
        if list.contains(x) {
            if here {
                assert(names.contains(last));
            } else {
                let disk = choose|disk: Seq<char>| #[trigger]
                    rest.contains(disk) && is_offered(w, disk) && x == JsonTree::Object(
                        disk_info(w, disk),
                    );
                assert(names.contains(disk));
            }
        }
        if exists|disk: Seq<char>| #[trigger]
            names.contains(disk) && is_offered(w, disk) && x == JsonTree::Object(
                disk_info(w, disk),
            ) {
            let disk = choose|disk: Seq<char>| #[trigger]
                names.contains(disk) && is_offered(w, disk) && x == JsonTree::Object(
                    disk_info(w, disk),
                );
            assert(rest.contains(disk) || disk == last);
        }
    }
}

/// The removable disks that a client is told of are all that sysfs says are removable, but
/// for loop devices and memory disks.
pub proof fn law_removable_disks(w: World, x: JsonTree)
    ensures
        removable_disks(w) matches JsonTree::Array(a) && (a.contains(x) <==> exists|
            disk: Seq<char>,
        | #[trigger]
            (w.dir)("/sys/block"@).contains(disk) && is_offered(w, disk) && x == JsonTree::Object(
                disk_info(w, disk),
            )),
{
    let dir = "/sys/block"@;
    lemma_names_stay(w, dir);
    lemma_disk_infos(w, dir_names(w, dir), x);
    let list = disk_infos(w, dir_names(w, dir));
    if list.contains(x) {
        let disk = choose|disk: Seq<char>| #[trigger]
            dir_names(w, dir).contains(disk) && is_offered(w, disk) && x == JsonTree::Object(
                disk_info(w, disk),
            );
        assert((w.dir)(dir).contains(disk));
    }
    if exists|disk: Seq<char>| #[trigger]
        (w.dir)(dir).contains(disk) && is_offered(w, disk) && x == JsonTree::Object(
            disk_info(w, disk),
        ) {
        let disk = choose|disk: Seq<char>| #[trigger]
            (w.dir)(dir).contains(disk) && is_offered(w, disk) && x == JsonTree::Object(
                disk_info(w, disk),
            );
        assert(dir_names(w, dir).contains(disk));
    }
}

// ---------------------------------------------------------------------------
// The list of LUKS devices, and sizes
// ---------------------------------------------------------------------------

/// Whether the path leads to `dev`, or to nothing and is `dev` itself.
pub open spec fn stands_for(w: World, path: Seq<char>, dev: Seq<char>) -> bool {
    match (w.canonical)(path) {
        Some(p) => p == dev,
        None => path == dev,
    }
}

proof fn lemma_with_devices(
    w: World,
    found: Seq<Seq<char>>,
    devices: Seq<Seq<char>>,
    dev: Seq<char>,
)
    ensures
        with_devices(w, found, devices).contains(dev) <==> found.contains(dev) || exists|i: int|
            0 <= i < devices.len() && stands_for(w, #[trigger] devices[i], dev),
    decreases devices.len(),
{
    if devices.len() > 0 {
        let rest = devices.drop_last();
        let end = devices.len() - 1;
        let before = with_devices(w, found, rest);
        let list = with_devices(w, found, devices);
        lemma_with_devices(w, found, rest, dev);
        let here = stands_for(w, devices[end], dev);
        assert(list.contains(dev) <==> before.contains(dev) || here) by {
            if before.contains(dev) {
                let k = choose|k: int| 0 <= k < before.len() && before[k] == dev;
                assert(list[k] == dev);
            }
            if here && !before.contains(dev) {
                assert(list[before.len() as int] == dev);
            }
            if list.contains(dev) && !here {
                let k = choose|k: int| 0 <= k < list.len() && list[k] == dev;
                assert(k < before.len() ==> before[k] == dev);
            }
        }
        if exists|i: int| 0 <= i < rest.len() && stands_for(w, #[trigger] rest[i], dev) {
            let i = choose|i: int| 0 <= i < rest.len() && stands_for(w, #[trigger] rest[i], dev);
            assert(devices[i] == rest[i]);
        }
        if exists|i: int| 0 <= i < devices.len() && stands_for(w, #[trigger] devices[i], dev) {
            let i = choose|i: int|
                0 <= i < devices.len() && stands_for(w, #[trigger] devices[i], dev);
            if i < end {
                assert(rest[i] == devices[i]);
            }
        }
    }
}

/// The LUKS devices that a client is told of are those of the crypttab and those of the
/// machine, by where their paths lead, and no other.
pub proof fn law_all_luks_devices(w: World, dev: Seq<char>)
    ensures
        all_luks_devices(w).contains(dev) <==> crypttab_list(
            w,
            "/etc/crypttab"@,
            "/dev/disk/by-uuid"@,
        ).contains(dev) || exists|i: int|
            0 <= i < luks_devices(w).len() && stands_for(w, #[trigger] luks_devices(w)[i], dev),
{
    lemma_with_devices(
        w,
        crypttab_list(w, "/etc/crypttab"@, "/dev/disk/by-uuid"@),
        luks_devices(w),
        dev,
    );
}

/// The size in a file of sysfs: its number, counted in blocks of 512 bytes, as far as 64
/// bits go, and zero where it has none.
pub proof fn law_sysfs_size(w: World, path: Seq<char>)
    ensures
        match (w.file)(path) {
            Some(s) => match parse_u64_spec(trim(s)) {
                Some(n) => n < 0x80_0000_0000_0000 ==> sysfs_size(w, path) == 512 * n,
                None => sysfs_size(w, path) == 0,
            },
            None => sysfs_size(w, path) == 0,
        },
{
}

} // verus!
