//! The listings of a frame: the network interface that carries the most
//! traffic, the table of disks and the table of device groups.

use crate::frame::{Disk, Interface, SMALL_DISK};
use crate::metric::{painted, value_metric, Metric};
use crate::sensors::{group_views, ComponentGroup, GroupView, ReadingKind};
use crate::text::{
    chars_of, contains, contains_text, decimal, pad_end, pad_start, push_number, push_number_left,
    push_pad_end, push_pad_start, starts_with, string_of, tail, texts_of,
};
use crate::units::{format_size, push_size, size_text};
use crate::visual::{mem_usage, usage_text, Palette};
use vstd::prelude::*;

verus! {

/// Whether an interface of this name, with these bytes received and sent in
/// all, is listed.  Virtual pairs, the loopback interface, bridges and
/// interfaces that never carried a byte are not.
pub open spec fn is_listed(name: Seq<char>, total_received: u64, total_transmitted: u64) -> bool {
    !(contains_text(name, "veth"@) || name == "lo"@ || "br-"@.is_prefix_of(name) || (total_received
        == 0 && total_transmitted == 0))
}

/// Whether an interface is listed.
pub open spec fn is_shown(interface: Interface) -> bool {
    is_listed(interface.name@, interface.total_received, interface.total_transmitted)
}

/// The bytes an interface has carried in all.
pub open spec fn traffic(interface: Interface) -> nat {
    (interface.total_received + interface.total_transmitted) as nat
}

/// The index of the listed interface that has carried the most bytes, the
/// last of them if several have carried as many; `None` if no interface is
/// listed.
pub open spec fn dominant(interfaces: Seq<Interface>) -> Option<int>
    decreases interfaces.len(),
{
    if interfaces.len() == 0 {
        None
    } else {
        let before = dominant(interfaces.drop_last());
        let last = interfaces.last();
        if is_shown(last) && (before is None || traffic(interfaces[before.unwrap()]) <= traffic(
            last,
        )) {
            Some(interfaces.len() - 1)
        } else {
            before
        }
    }
}

/// The network line: received and sent data in KiB, received and sent
/// packets, and the interface's name.
pub open spec fn network_line(p: Palette, i: Interface) -> Seq<char> {
    p.sky@ + "NETW"@ + p.reset@ + " "@ + p.green@ + "▼"@ + p.reset@ + p.blue@ + pad_start(
        decimal((i.received / 1024) as nat),
        4,
    ) + "K"@ + p.reset@ + "  "@ + p.magenta@ + "▲"@ + p.reset@ + p.blue@ + pad_start(
        decimal((i.transmitted / 1024) as nat),
        4,
    ) + "K"@ + p.reset@ + " "@ + p.green@ + pad_start(decimal(i.packets_received as nat), 4)
        + p.reset@ + "/"@ + p.magenta@ + pad_end(decimal(i.packets_transmitted as nat), 4) + " "@
        + p.cyan@ + "pkt/s"@ + p.reset@ + "  "@ + p.dim@ + i.name@ + p.reset@
}

/// The name under which a disk is listed: its device path without the
/// directory of devices, and nothing for any other path.
pub open spec fn disk_label(name: Seq<char>) -> Seq<char> {
    if "/dev/"@.is_prefix_of(name) {
        name.skip("/dev/"@.len() as int)
    } else {
        Seq::empty()
    }
}

/// The bytes of a disk that are in use.
pub open spec fn disk_used(disk: Disk) -> nat {
    if disk.free <= disk.total {
        (disk.total - disk.free) as nat
    } else {
        0
    }
}

/// The row of a disk: its name, its use, what was read and written since
/// the last sample, and what was read and written in all.
pub open spec fn disk_row(p: Palette, disk: Disk) -> Seq<char> {
    p.sky@ + disk_label(disk.name@) + p.reset@ + ";"@ + usage_text(
        p,
        disk_used(disk),
        disk.total as nat,
    ) + ";"@ + p.green@ + pad_start(size_text(disk.read as nat), 4) + p.reset@ + "/"@ + p.magenta@
        + pad_end(size_text(disk.written as nat), 4) + p.reset@ + ";Tot "@ + p.green@ + size_text(
        disk.total_read as nat,
    ) + p.reset@ + "/"@ + p.magenta@ + size_text(disk.total_written as nat) + p.reset@
}

/// The rows of the disks that are large enough to be listed.
pub open spec fn disk_rows(p: Palette, disks: Seq<Disk>) -> Seq<Seq<char>>
    decreases disks.len(),
{
    if disks.len() == 0 {
        Seq::empty()
    } else if disks.last().total > SMALL_DISK {
        disk_rows(p, disks.drop_last()).push(disk_row(p, disks.last()))
    } else {
        disk_rows(p, disks.drop_last())
    }
}

/// The values of a group, each in the colour of its grade, separated by
/// commas.
pub open spec fn values_text(p: Palette, values: Seq<u32>) -> Seq<char>
    decreases values.len(),
{
    if values.len() == 0 {
        Seq::empty()
    } else if values.len() == 1 {
        painted(p, value_metric(values[0], ReadingKind::Temperature))
    } else {
        values_text(p, values.drop_last()) + ", "@ + painted(
            p,
            value_metric(values.last(), ReadingKind::Temperature),
        )
    }
}

/// The row of a device group: its name, then its values.
pub open spec fn sensor_row(p: Palette, group: GroupView) -> Seq<char> {
    p.blue@ + group.name + p.reset@ + " ;"@ + values_text(p, group.values)
}

/// The rows of the device groups.
pub open spec fn sensor_rows(p: Palette, groups: Seq<GroupView>) -> Seq<Seq<char>> {
    groups.map_values(|group: GroupView| sensor_row(p, group))
}

/// The dominant interface is a listed one that no listed interface has
/// out-carried and that every listed interface behind it has carried less
/// than; there is none exactly if no interface is listed.
pub proof fn lemma_dominant(interfaces: Seq<Interface>)
    ensures
        match dominant(interfaces) {
            Some(i) => {
                &&& 0 <= i < interfaces.len()
                &&& is_shown(interfaces[i])
                &&& forall|j: int|
                    0 <= j < interfaces.len() && is_shown(#[trigger] interfaces[j]) ==> traffic(
                        interfaces[j],
                    ) <= traffic(interfaces[i])
                &&& forall|j: int|
                    i < j < interfaces.len() && is_shown(#[trigger] interfaces[j]) ==> traffic(
                        interfaces[j],
                    ) < traffic(interfaces[i])
            },
            None => forall|j: int| 0 <= j < interfaces.len() ==> !is_shown(#[trigger] interfaces[j]),
        },
    decreases interfaces.len(),
{
    if interfaces.len() > 0 {
        let rest = interfaces.drop_last();
        lemma_dominant(rest);
        assert forall|j: int| 0 <= j < rest.len() implies rest[j] == interfaces[j] by {}
        match dominant(interfaces) {
            Some(i) => {
                assert forall|j: int|
                    0 <= j < interfaces.len() && is_shown(
                        #[trigger] interfaces[j],
                    ) implies traffic(interfaces[j]) <= traffic(interfaces[i]) by {
                    if j < rest.len() {
                        assert(rest[j] == interfaces[j]);
                    }
                }
                assert forall|j: int|
                    i < j < interfaces.len() && is_shown(#[trigger] interfaces[j]) implies traffic(
                    interfaces[j],
                ) < traffic(interfaces[i]) by {
                    if j < rest.len() {
                        assert(rest[j] == interfaces[j]);
                    }
                }
            },
            None => {
                assert forall|j: int| 0 <= j < interfaces.len() implies !is_shown(
                    #[trigger] interfaces[j],
                ) by {
                    if j < rest.len() {
                        assert(rest[j] == interfaces[j]);
                    }
                }
            },
        }
    }
}

/// Whether an interface of this name, with these bytes received and sent in
/// all, is listed.
pub fn interface_is_listed(name: &str, total_received: u64, total_transmitted: u64) -> (shown:
    bool)
    ensures
        shown == is_listed(name@, total_received, total_transmitted),
{
    let name = chars_of(name);
    let loopback = chars_of("lo");
    let is_loopback = name.len() == loopback.len() && starts_with(&name, &loopback);
    assert(is_loopback == (name@ == "lo"@)) by {
        if name@.len() == loopback@.len() {
            assert(name@.subrange(0, name@.len() as int) == name@);
        }
    }
    !(contains(&name, &chars_of("veth")) || is_loopback || starts_with(&name, &chars_of("br-"))
        || (total_received == 0 && total_transmitted == 0))
}

/// Whether an interface is listed.
pub fn net_filter(interface: &Interface) -> (shown: bool)
    ensures
        shown == is_shown(*interface),
{
    interface_is_listed(
        interface.name.as_str(),
        interface.total_received,
        interface.total_transmitted,
    )
}

/// The listed interface that has carried the most bytes.
pub fn dominant_interface(interfaces: &Vec<Interface>) -> (found: Option<usize>)
    ensures
        match found {
            Some(i) => dominant(interfaces@) == Some(i as int) && i < interfaces.len(),
            None => dominant(interfaces@) is None,
        },
{
    let mut found: Option<usize> = None;
    let mut most: u128 = 0;
    let mut i: usize = 0;
    assert(interfaces@.take(0) == Seq::<Interface>::empty());
    while i < interfaces.len()
        invariant
            i <= interfaces.len(),
            match found {
                Some(k) => dominant(interfaces@.take(i as int)) == Some(k as int) && k < i && most
                    == traffic(interfaces@[k as int]),
                None => dominant(interfaces@.take(i as int)) is None,
            },
        decreases interfaces.len() - i,
    {
        let interface = &interfaces[i];
        let carried: u128 = interface.total_received as u128 + interface.total_transmitted as u128;
        proof {
            let seen = interfaces@.take(i + 1);
            assert(seen.drop_last() == interfaces@.take(i as int));
            assert(seen.last() == interfaces@[i as int]);
            if found is Some {
                assert(seen[found.unwrap() as int] == interfaces@[found.unwrap() as int]);
            }
        }
        if net_filter(interface) && (found.is_none() || most <= carried) {
            found = Some(i);
            most = carried;
        }
        i += 1;
    }
    assert(interfaces@.take(i as int) == interfaces@);
    found
}

/// The network line for an interface.
pub fn compose_network_line(p: &Palette, i: &Interface) -> (line: String)
    ensures
        line@ == network_line(*p, *i),
{
    let mut line = String::new();
    line.append(p.sky);
    assert(line@ == p.sky@);
    line.append("NETW");
    line.append(p.reset);
    line.append(" ");
    line.append(p.green);
    line.append("▼");
    line.append(p.reset);
    line.append(p.blue);
    push_number(&mut line, i.received / 1024, 4);
    line.append("K");
    line.append(p.reset);
    line.append("  ");
    line.append(p.magenta);
    line.append("▲");
    line.append(p.reset);
    line.append(p.blue);
    push_number(&mut line, i.transmitted / 1024, 4);
    line.append("K");
    line.append(p.reset);
    line.append(" ");
    line.append(p.green);
    push_number(&mut line, i.packets_received, 4);
    line.append(p.reset);
    line.append("/");
    line.append(p.magenta);
    push_number_left(&mut line, i.packets_transmitted, 4);
    line.append(" ");
    line.append(p.cyan);
    line.append("pkt/s");
    line.append(p.reset);
    line.append("  ");
    line.append(p.dim);
    line.append(i.name.as_str());
    line.append(p.reset);
    line
}

/// The name under which a disk is listed.
pub fn label_of_disk(name: &str) -> (label: String)
    ensures
        label@ == disk_label(name@),
{
    let path = chars_of(name);
    let directory = chars_of("/dev/");
    if starts_with(&path, &directory) {
        string_of(&tail(&path, directory.len()))
    } else {
        String::new()
    }
}

/// The row of a disk.
pub fn compose_disk_row(p: &Palette, disk: &Disk) -> (row: String)
    ensures
        row@ == disk_row(*p, *disk),
{
    let used: u64 = if disk.free <= disk.total {
        disk.total - disk.free
    } else {
        0
    };
    let mut row = String::new();
    row.append(p.sky);
    assert(row@ == p.sky@);
    row.append(label_of_disk(disk.name.as_str()).as_str());
    row.append(p.reset);
    row.append(";");
    row.append(mem_usage(p, used, disk.total).as_str());
    row.append(";");
    row.append(p.green);
    push_pad_start(&mut row, format_size(disk.read).as_str(), 4);
    row.append(p.reset);
    row.append("/");
    row.append(p.magenta);
    push_pad_end(&mut row, format_size(disk.written).as_str(), 4);
    row.append(p.reset);
    row.append(";Tot ");
    row.append(p.green);
    push_size(&mut row, disk.total_read);
    row.append(p.reset);
    row.append("/");
    row.append(p.magenta);
    push_size(&mut row, disk.total_written);
    row.append(p.reset);
    row
}

/// The rows of the disks that are large enough to be listed.
pub fn compose_disk_rows(p: &Palette, disks: &Vec<Disk>) -> (rows: Vec<String>)
    ensures
        texts_of(rows@) == disk_rows(*p, disks@),
{
    let mut rows: Vec<String> = Vec::new();
    let mut i: usize = 0;
    assert(disks@.take(0) == Seq::<Disk>::empty());
    assert(texts_of(rows@) =~= disk_rows(*p, disks@.take(0)));
    while i < disks.len()
        invariant
            i <= disks.len(),
            texts_of(rows@) == disk_rows(*p, disks@.take(i as int)),
        decreases disks.len() - i,
    {
        proof {
            assert(disks@.take(i + 1).drop_last() == disks@.take(i as int));
            assert(disks@.take(i + 1).last() == disks@[i as int]);
        }
        if disks[i].total > SMALL_DISK {
            let ghost before = texts_of(rows@);
            let row = compose_disk_row(p, &disks[i]);
            rows.push(row);
            assert(texts_of(rows@) =~= before.push(disk_row(*p, disks@[i as int])));
        }
        i += 1;
    }
    assert(disks@.take(i as int) == disks@);
    rows
}

/// The values of a group, each in the colour of its grade.
fn compose_values(p: &Palette, values: &Vec<u32>) -> (text: String)
    ensures
        text@ == values_text(*p, values@),
{
    let mut text = String::new();
    let mut i: usize = 0;
    assert(values@.take(0) == Seq::<u32>::empty());
    while i < values.len()
        invariant
            i <= values.len(),
            text@ == values_text(*p, values@.take(i as int)),
        decreases values.len() - i,
    {
        proof {
            assert(values@.take(i + 1).drop_last() == values@.take(i as int));
            assert(values@.take(i + 1).last() == values@[i as int]);
            assert(values@.take(i + 1)[0] == values@[0]);
        }
        if i > 0 {
            text.append(", ");
        }
        let value = Metric::from_value(values[i], ReadingKind::Temperature);
        text.append(value.paint(p).as_str());
        assert(i == 0 ==> text@ == painted(*p, value@));
        i += 1;
    }
    assert(values@.take(i as int) == values@);
    text
}

/// The rows of the device groups.
pub fn compose_sensor_rows(p: &Palette, groups: &Vec<ComponentGroup>) -> (rows: Vec<String>)
    ensures
        texts_of(rows@) == sensor_rows(*p, group_views(groups@)),
{
    let mut rows: Vec<String> = Vec::new();
    let mut i: usize = 0;
    while i < groups.len()
        invariant
            i <= groups.len(),
            rows.len() == i,
            forall|k: int| 0 <= k < i ==> (#[trigger] rows[k])@ == sensor_row(*p, groups[k]@),
        decreases groups.len() - i,
    {
        let group = &groups[i];
        let mut row = String::new();
        row.append(p.blue);
        assert(row@ == p.blue@);
        row.append(group.canonical_name.as_str());
        row.append(p.reset);
        row.append(" ;");
        row.append(compose_values(p, &group.values).as_str());
        rows.push(row);
        i += 1;
    }
    assert(texts_of(rows@) =~= sensor_rows(*p, group_views(groups@)));
    rows
}

} // verus!
