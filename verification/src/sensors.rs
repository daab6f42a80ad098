//! Sensor classification.
//!
//! Raw sensor labels differ from vendor to vendor.  The classifier strips the
//! vendor noise from each label, decides whether the reading belongs to the
//! processor package, to one of the processor cores or to a named device,
//! gathers the readings of one device under one canonical name, and orders
//! the device groups for display.

use crate::text::{
    after_digits_and_spaces, all_digits, chars_of, contains, contains_text, digits_from,
    prefix_related, replace, replace_all, skip_digits_and_spaces, starts_with, string_of, tail,
};
use vstd::prelude::*;

verus! {

/// What a reading measures.
#[derive(Clone, Copy, Debug, PartialEq, Eq, Structural)]
pub enum ReadingKind {
    Temperature,
    Usage,
    Frequency,
    Power,
    Other,
}

/// One sample of one sensor.
///
/// `value` is in thousandths of the sensor's unit (millidegrees Celsius for a
/// temperature).  `None` stands for a sensor that could not be read.
#[derive(Debug)]
pub struct Reading {
    pub label: String,
    pub value: Option<i64>,
    pub kind: ReadingKind,
}

/// The part a label plays once its vendor noise is stripped.
#[derive(Clone, Copy, Debug, PartialEq, Eq, Structural)]
pub enum Role {
    /// The processor package as a whole.
    Package,
    /// One processor core.
    Core,
    /// Any other device.
    Device,
}

/// The readings of one device.
#[derive(Debug)]
pub struct ComponentGroup {
    pub canonical_name: String,
    pub values: Vec<u32>,
    pub priority_key: u64,
}

/// The mathematical content of a [`ComponentGroup`].
pub struct GroupView {
    pub name: Seq<char>,
    pub values: Seq<u32>,
    pub priority_key: u64,
}

impl View for ComponentGroup {
    type V = GroupView;

    open spec fn view(&self) -> GroupView {
        GroupView {
            name: self.canonical_name@,
            values: self.values@,
            priority_key: self.priority_key,
        }
    }
}

/// The outcome of one classification pass.
#[derive(Debug)]
pub struct Classification {
    /// Processor package values, in discovery order.
    pub cpu: Vec<u32>,
    /// Per-core values, in discovery order.
    pub core: Vec<u32>,
    /// Device groups, in display order.
    pub groups: Vec<ComponentGroup>,
}

/// The mathematical content of a [`Classification`].
pub struct ClassificationView {
    pub cpu: Seq<u32>,
    pub core: Seq<u32>,
    pub groups: Seq<GroupView>,
}

/// The views of a sequence of groups.
pub open spec fn group_views(groups: Seq<ComponentGroup>) -> Seq<GroupView> {
    groups.map_values(|g: ComponentGroup| g@)
}

impl View for Classification {
    type V = ClassificationView;

    open spec fn view(&self) -> ClassificationView {
        ClassificationView {
            cpu: self.cpu@,
            core: self.core@,
            groups: group_views(self.groups@),
        }
    }
}

/// The label with the vendor spellings of the processor driver unified.
pub open spec fn strip_vendor_noise(label: Seq<char>) -> Seq<char> {
    replace_all(replace_all(label, "Core "@, "core "@), "coretemp "@, "core "@)
}

/// The role of a label whose vendor noise has been stripped.
pub open spec fn role_of(name: Seq<char>) -> Role {
    if contains_text(name, "core Package"@) {
        Role::Package
    } else if "core "@.is_prefix_of(name) && all_digits(name.skip("core "@.len() as int)) {
        Role::Core
    } else {
        Role::Device
    }
}

/// A device label without the storage driver's prefix and sensor index.
pub open spec fn strip_device_prefix(name: Seq<char>) -> Seq<char> {
    if "nvme Sensor "@.is_prefix_of(name) {
        skip_digits_and_spaces(name.skip("nvme Sensor "@.len() as int))
    } else if "nvme Composite "@.is_prefix_of(name) {
        name.skip("nvme Composite "@.len() as int)
    } else {
        name
    }
}

/// A device label with its noise tokens removed and the known device
/// identifiers spelled out.
pub open spec fn rename_device(name: Seq<char>) -> Seq<char> {
    replace_all(
        replace_all(
            replace_all(replace_all(name, "SSD "@, Seq::empty()), " temp1"@, Seq::empty()),
            "acpitz"@,
            "Motherboard"@,
        ),
        "spd5118"@,
        "RAM"@,
    )
}

/// The canonical name of a device, from its label without vendor noise.
pub open spec fn device_name(name: Seq<char>) -> Seq<char> {
    let cleaned = rename_device(strip_device_prefix(name));
    if contains_text(cleaned, "wifi"@) {
        "Wi-Fi"@
    } else {
        cleaned
    }
}

/// The value of a reading in whole units: rounded to the nearest unit, ties
/// away from zero, then clamped to what a `u32` holds.  A missing reading
/// counts as 0.
pub open spec fn whole_units(value: Option<i64>) -> u32 {
    match value {
        None => 0,
        Some(v) => if v <= 0 {
            0
        } else if (v + 500) / 1000 > u32::MAX {
            u32::MAX
        } else {
            ((v + 500) / 1000) as u32
        },
    }
}

/// The rank of a value among devices that are not composite: the higher the
/// value, the smaller the key.
pub open spec fn value_key(value: u32) -> u64 {
    (1 + (u32::MAX - value)) as u64
}

/// The display priority of one reading: 0 for a composite sensor, else the
/// rank of its value.
pub open spec fn reading_key(label: Seq<char>, value: u32) -> u64 {
    if contains_text(label, "Composite"@) {
        0
    } else {
        value_key(value)
    }
}

/// The index of the first group whose name is prefix-related to `name`, or
/// the number of groups if there is none.
pub open spec fn first_related(groups: Seq<GroupView>, name: Seq<char>) -> int
    decreases groups.len(),
{
    if groups.len() == 0 {
        0
    } else if prefix_related(groups[0].name, name) {
        0
    } else {
        1 + first_related(groups.skip(1), name)
    }
}

/// `group` after one more reading has joined it.
pub open spec fn joined(group: GroupView, value: u32, key: u64) -> GroupView {
    GroupView {
        name: group.name,
        values: group.values.push(value),
        priority_key: if key < group.priority_key {
            key
        } else {
            group.priority_key
        },
    }
}

/// The groups after a device reading has been taken in: it joins the first
/// group with a prefix-related name, or founds a group of its own.
pub open spec fn absorb(groups: Seq<GroupView>, name: Seq<char>, value: u32, key: u64) -> Seq<
    GroupView,
> {
    let at = first_related(groups, name);
    if at < groups.len() {
        groups.update(at, joined(groups[at], value, key))
    } else {
        groups.push(GroupView { name, values: seq![value], priority_key: key })
    }
}

/// The buckets after the readings have been taken in, in discovery order and
/// before the device groups are put in display order.
pub open spec fn gathered(readings: Seq<Reading>) -> ClassificationView
    decreases readings.len(),
{
    if readings.len() == 0 {
        ClassificationView { cpu: Seq::empty(), core: Seq::empty(), groups: Seq::empty() }
    } else {
        let before = gathered(readings.drop_last());
        let reading = readings.last();
        let name = strip_vendor_noise(reading.label@);
        let value = whole_units(reading.value);
        match role_of(name) {
            Role::Package => ClassificationView { cpu: before.cpu.push(value), ..before },
            Role::Core => ClassificationView { core: before.core.push(value), ..before },
            Role::Device => ClassificationView {
                groups: absorb(
                    before.groups,
                    device_name(name),
                    value,
                    reading_key(reading.label@, value),
                ),
                ..before
            },
        }
    }
}

/// Where a group with priority `key` goes into `ranked`: behind every group
/// that does not rank after it.
pub open spec fn rank_position(ranked: Seq<GroupView>, key: u64) -> int
    decreases ranked.len(),
{
    if ranked.len() == 0 {
        0
    } else if ranked.last().priority_key <= key {
        ranked.len() as int
    } else {
        rank_position(ranked.drop_last(), key)
    }
}

/// The groups in display order: ascending priority key, and discovery order
/// among groups with the same key.
pub open spec fn ranked(groups: Seq<GroupView>) -> Seq<GroupView>
    decreases groups.len(),
{
    if groups.len() == 0 {
        Seq::empty()
    } else {
        let before = ranked(groups.drop_last());
        before.insert(rank_position(before, groups.last().priority_key), groups.last())
    }
}

/// What classifying `readings` yields.
pub open spec fn classification(readings: Seq<Reading>) -> ClassificationView {
    let g = gathered(readings);
    ClassificationView { groups: ranked(g.groups), ..g }
}

/// The value of a reading in whole units.
pub fn whole(value: Option<i64>) -> (w: u32)
    ensures
        w == whole_units(value),
{
    match value {
        None => 0,
        Some(v) => {
            if v <= 0 {
                0
            } else if v > 4_294_967_295_499 {
                u32::MAX
            } else {
                ((v + 500) / 1000) as u32
            }
        },
    }
}

/// The label with the vendor spellings of the processor driver unified.
pub fn stripped_label(label: &str) -> (name: Vec<char>)
    ensures
        name@ == strip_vendor_noise(label@),
{
    let raw = chars_of(label);
    let lower = chars_of("core ");
    let first = replace(&raw, &chars_of("Core "), &lower);
    replace(&first, &chars_of("coretemp "), &lower)
}

/// The role of a label whose vendor noise has been stripped.
pub fn role(name: &Vec<char>) -> (r: Role)
    ensures
        r == role_of(name@),
{
    let prefix = chars_of("core ");
    if contains(name, &chars_of("core Package")) {
        Role::Package
    } else if starts_with(name, &prefix) && digits_from(name, prefix.len()) {
        Role::Core
    } else {
        Role::Device
    }
}

/// The canonical name of a device, from its label without vendor noise.
pub fn canonical_device_name(name: &Vec<char>) -> (out: Vec<char>)
    ensures
        out@ == device_name(name@),
{
    let sensor = chars_of("nvme Sensor ");
    let composite = chars_of("nvme Composite ");
    let base = if starts_with(name, &sensor) {
        after_digits_and_spaces(name, sensor.len())
    } else if starts_with(name, &composite) {
        tail(name, composite.len())
    } else {
        tail(name, 0)
    };
    assert(name@.skip(0) == name@);
    let nothing: Vec<char> = Vec::new();
    let a = replace(&base, &chars_of("SSD "), &nothing);
    let b = replace(&a, &chars_of(" temp1"), &nothing);
    let c = replace(&b, &chars_of("acpitz"), &chars_of("Motherboard"));
    let d = replace(&c, &chars_of("spd5118"), &chars_of("RAM"));
    if contains(&d, &chars_of("wifi")) {
        chars_of("Wi-Fi")
    } else {
        d
    }
}

/// The display priority of one reading.
pub fn priority_of(label: &str, value: u32) -> (key: u64)
    ensures
        key == reading_key(label@, value),
{
    if contains(&chars_of(label), &chars_of("Composite")) {
        0
    } else {
        1 + (u32::MAX - value) as u64
    }
}

/// `first_related` points at a group with a prefix-related name, or behind
/// the last group; no group before that place has a prefix-related name.
pub proof fn lemma_first_related_bound(groups: Seq<GroupView>, name: Seq<char>)
    ensures
        0 <= first_related(groups, name) <= groups.len(),
        first_related(groups, name) < groups.len() ==> prefix_related(
            groups[first_related(groups, name)].name,
            name,
        ),
        forall|i: int|
            0 <= i < first_related(groups, name) ==> !prefix_related(
                (#[trigger] groups[i]).name,
                name,
            ),
    decreases groups.len(),
{
    if groups.len() > 0 && !prefix_related(groups[0].name, name) {
        lemma_first_related_bound(groups.skip(1), name);
        let rest = first_related(groups.skip(1), name);
        assert forall|i: int| 0 <= i < 1 + rest implies !prefix_related(
            (#[trigger] groups[i]).name,
            name,
        ) by {
            if i > 0 {
                assert(groups.skip(1)[i - 1] == groups[i]);
            }
        }
        if rest < groups.skip(1).len() {
            assert(groups.skip(1)[rest] == groups[1 + rest]);
        }
    }
}

/// The index of the first group whose name is prefix-related to `name`, or
/// the number of groups if there is none.
pub fn find_related(groups: &Vec<ComponentGroup>, name: &Vec<char>) -> (at: usize)
    ensures
        at == first_related(group_views(groups@), name@),
        at <= groups.len(),
{
    let ghost views = group_views(groups@);
    let mut i: usize = 0;
    assert(views.skip(0) == views);
    while i < groups.len()
        invariant
            i <= groups.len(),
            views == group_views(groups@),
            first_related(views, name@) == i + first_related(views.skip(i as int), name@),
        decreases groups.len() - i,
    {
        let own = chars_of(groups[i].canonical_name.as_str());
        assert(views.skip(i as int)[0].name == own@);
        if starts_with(name, &own) || starts_with(&own, name) {
            return i;
        }
        assert(views.skip(i as int).skip(1) == views.skip(i + 1));
        i += 1;
    }
    i
}

/// Takes a device reading in: it joins the first group with a prefix-related
/// name, or founds a group of its own.
pub fn take_in(groups: &mut Vec<ComponentGroup>, name: &Vec<char>, value: u32, key: u64)
    ensures
        group_views(final(groups)@) == absorb(group_views(old(groups)@), name@, value, key),
{
    let at = find_related(groups, name);
    if at < groups.len() {
        let mut group = groups.remove(at);
        group.values.push(value);
        if key < group.priority_key {
            group.priority_key = key;
        }
        groups.insert(at, group);
        assert(group_views(groups@) =~= absorb(group_views(old(groups)@), name@, value, key));
    } else {
        let mut values: Vec<u32> = Vec::new();
        values.push(value);
        groups.push(ComponentGroup { canonical_name: string_of(name), values, priority_key: key });
        assert(group_views(groups@) =~= absorb(group_views(old(groups)@), name@, value, key));
    }
}

/// The groups in display order: ascending priority key, and discovery order
/// among groups with the same key.
pub fn rank(groups: Vec<ComponentGroup>) -> (out: Vec<ComponentGroup>)
    ensures
        group_views(out@) == ranked(group_views(groups@)),
{
    let ghost all = group_views(groups@);
    let mut rest = groups;
    let mut out: Vec<ComponentGroup> = Vec::new();
    let ghost mut done: int = 0;
    assert(all.take(0) == Seq::<GroupView>::empty());
    while rest.len() > 0
        invariant
            0 <= done <= all.len(),
            group_views(rest@) == all.skip(done),
            group_views(out@) == ranked(all.take(done)),
        decreases rest.len(),
    {
        assert(done < all.len()) by {
            assert(all.skip(done).len() == rest@.len());
        }
        let ghost waiting = rest@;
        let group = rest.remove(0);
        let ghost sorted = group_views(out@);
        proof {
            assert(group_views(waiting)[0] == group@);
            assert(all.skip(done).len() == all.len() - done);
            assert forall|j: int| 0 <= j < rest@.len() implies group_views(rest@)[j] == all.skip(
                done + 1,
            )[j] by {
                assert(rest@[j] == waiting[j + 1]);
                assert(group_views(waiting)[j + 1] == waiting[j + 1]@);
                assert(all.skip(done)[j + 1] == all[done + j + 1]);
            }
            assert(group_views(rest@) =~= all.skip(done + 1));
            assert(all.take(done + 1).drop_last() == all.take(done));
            assert(all.take(done + 1).last() == group@);
        }
        let mut at: usize = out.len();
        assert(sorted.take(at as int) == sorted);
        while at > 0 && out[at - 1].priority_key > group.priority_key
            invariant
                at <= out.len(),
                sorted == group_views(out@),
                rank_position(sorted, group.priority_key) == rank_position(
                    sorted.take(at as int),
                    group.priority_key,
                ),
            decreases at,
        {
            assert(sorted.take(at as int).drop_last() == sorted.take(at - 1));
            at -= 1;
        }
        out.insert(at, group);
        proof {
            assert(group_views(out@) =~= sorted.insert(at as int, group@));
            done = done + 1;
        }
    }
    assert(all.take(done) == all);
    out
}

/// Classifies one tick's readings.
///
/// Each reading lands in exactly one bucket: the processor package, the
/// processor cores, or the device group that its canonical name belongs to.
/// Values keep their discovery order inside a bucket; the device groups come
/// out in display order.
pub fn classify(readings: &Vec<Reading>) -> (out: Classification)
    ensures
        out@ == classification(readings@),
{
    let mut cpu: Vec<u32> = Vec::new();
    let mut core: Vec<u32> = Vec::new();
    let mut groups: Vec<ComponentGroup> = Vec::new();
    let mut i: usize = 0;
    assert(readings@.take(0) == Seq::<Reading>::empty());
    assert(group_views(groups@) =~= Seq::<GroupView>::empty());
    while i < readings.len()
        invariant
            i <= readings.len(),
            (ClassificationView { cpu: cpu@, core: core@, groups: group_views(groups@) })
                == gathered(readings@.take(i as int)),
        decreases readings.len() - i,
    {
        let reading = &readings[i];
        let name = stripped_label(reading.label.as_str());
        let value = whole(reading.value);
        proof {
            assert(readings@.take(i + 1).drop_last() == readings@.take(i as int));
            assert(readings@.take(i + 1).last() == readings@[i as int]);
        }
        match role(&name) {
            Role::Package => {
                cpu.push(value);
            },
            Role::Core => {
                core.push(value);
            },
            Role::Device => {
                let device = canonical_device_name(&name);
                let key = priority_of(reading.label.as_str(), value);
                take_in(&mut groups, &device, value, key);
            },
        }
        i += 1;
    }
    assert(readings@.take(i as int) == readings@);
    let groups = rank(groups);
    Classification { cpu, core, groups }
}

} // verus!
