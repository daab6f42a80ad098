//! What holds of every classification.
//!
//! The classifier is stated as a function of the readings,
//! [`classification`].  The lemmas of this module say what that function
//! guarantees whatever the readings are: nothing is lost, groups never share
//! a device, and the display order is the one the priority keys give.

use crate::sensors::{
    absorb, classification, device_name, first_related, gathered, joined, lemma_first_related_bound,
    rank_position, ranked, reading_key, role_of, strip_vendor_noise, value_key, whole_units,
    GroupView, Reading, Role,
};
use crate::text::prefix_related;
use crate::units::peak;
use vstd::prelude::*;

verus! {

/// The number of values that the groups hold, all together.
pub open spec fn total_values(groups: Seq<GroupView>) -> nat
    decreases groups.len(),
{
    if groups.len() == 0 {
        0
    } else {
        total_values(groups.drop_last()) + groups.last().values.len()
    }
}

/// No two groups have names of which one is a prefix of the other.  In
/// particular no two groups have the same name.
pub open spec fn devices_apart(groups: Seq<GroupView>) -> bool {
    forall|i: int, j: int|
        0 <= i < j < groups.len() ==> !prefix_related(
            (#[trigger] groups[i]).name,
            (#[trigger] groups[j]).name,
        )
}

/// The groups stand in ascending order of their priority keys.
pub open spec fn in_rank_order(groups: Seq<GroupView>) -> bool {
    forall|i: int, j: int|
        0 <= i < j < groups.len() ==> (#[trigger] groups[i]).priority_key <= (
        #[trigger] groups[j]).priority_key
}

/// A group holds at least one value, and its priority key is 0, the key of a
/// composite sensor, or else the rank of its highest value.
pub open spec fn well_formed(group: GroupView) -> bool {
    &&& group.values.len() > 0
    &&& (group.priority_key == 0 || group.priority_key == value_key(peak(group.values)))
}

/// Every group is well formed.
pub open spec fn all_well_formed(groups: Seq<GroupView>) -> bool {
    forall|i: int| 0 <= i < groups.len() ==> well_formed(#[trigger] groups[i])
}

proof fn lemma_total_after_update(groups: Seq<GroupView>, at: int, group: GroupView)
    requires
        0 <= at < groups.len(),
    ensures
        total_values(groups.update(at, group)) + groups[at].values.len() == total_values(groups)
            + group.values.len(),
    decreases groups.len(),
{
    let updated = groups.update(at, group);
    if at == groups.len() - 1 {
        assert(updated.drop_last() == groups.drop_last());
    } else {
        assert(updated.drop_last() == groups.drop_last().update(at, group));
        lemma_total_after_update(groups.drop_last(), at, group);
    }
}

proof fn lemma_total_after_insert(groups: Seq<GroupView>, at: int, group: GroupView)
    requires
        0 <= at <= groups.len(),
    ensures
        total_values(groups.insert(at, group)) == total_values(groups) + group.values.len(),
    decreases groups.len(),
{
    let inserted = groups.insert(at, group);
    if at == groups.len() {
        assert(inserted.drop_last() == groups);
    } else {
        assert(inserted.drop_last() == groups.drop_last().insert(at, group));
        lemma_total_after_insert(groups.drop_last(), at, group);
    }
}

/// Where a group goes lies inside the ranked groups; with the groups in rank
/// order, every group before that place ranks no later than the key and
/// every group from that place on ranks later.
pub proof fn lemma_rank_position(groups: Seq<GroupView>, key: u64)
    ensures
        0 <= rank_position(groups, key) <= groups.len(),
        in_rank_order(groups) ==> forall|i: int|
            0 <= i < rank_position(groups, key) ==> (#[trigger] groups[i]).priority_key <= key,
        forall|i: int|
            rank_position(groups, key) <= i < groups.len() ==> (#[trigger] groups[i]).priority_key
                > key,
    decreases groups.len(),
{
    if groups.len() > 0 && groups.last().priority_key > key {
        let rest = groups.drop_last();
        lemma_rank_position(rest, key);
        assert forall|i: int| rank_position(groups, key) <= i < groups.len() implies (
        #[trigger] groups[i]).priority_key > key by {
            if i < rest.len() {
                assert(rest[i] == groups[i]);
            }
        }
        if in_rank_order(groups) {
            assert forall|i: int, j: int| 0 <= i < j < rest.len() implies (
            #[trigger] rest[i]).priority_key <= (#[trigger] rest[j]).priority_key by {
                assert(rest[i] == groups[i]);
                assert(rest[j] == groups[j]);
            }
            assert forall|i: int| 0 <= i < rank_position(groups, key) implies (
            #[trigger] groups[i]).priority_key <= key by {
                assert(rest[i] == groups[i]);
            }
        }
    }
}

/// Ranking only moves groups: the ranked groups are the given groups, each
/// as often as it was given.
pub proof fn lemma_ranked_permutes(groups: Seq<GroupView>)
    ensures
        ranked(groups).to_multiset() == groups.to_multiset(),
        ranked(groups).len() == groups.len(),
    decreases groups.len(),
{
    broadcast use vstd::seq_lib::group_to_multiset_ensures;

    if groups.len() > 0 {
        let rest = groups.drop_last();
        lemma_ranked_permutes(rest);
        lemma_rank_position(ranked(rest), groups.last().priority_key);
        assert(rest.push(groups.last()) == groups);
    }
}

/// The ranked groups stand in ascending order of their priority keys:
/// composite sensors first, then the other groups from the hottest down.
pub proof fn lemma_ranked_in_order(groups: Seq<GroupView>)
    ensures
        in_rank_order(ranked(groups)),
    decreases groups.len(),
{
    if groups.len() > 0 {
        let before = ranked(groups.drop_last());
        let last = groups.last();
        let at = rank_position(before, last.priority_key);
        lemma_ranked_in_order(groups.drop_last());
        lemma_rank_position(before, last.priority_key);
        let after = before.insert(at, last);
        assert forall|i: int, j: int| 0 <= i < j < after.len() implies (
        #[trigger] after[i]).priority_key <= (#[trigger] after[j]).priority_key by {
            if j < at {
                assert(after[i] == before[i] && after[j] == before[j]);
            } else if j == at {
                assert(after[i] == before[i]);
            } else if i < at {
                assert(after[i] == before[i] && after[j] == before[j - 1]);
            } else if i == at {
                assert(after[j] == before[j - 1]);
            } else {
                assert(after[i] == before[i - 1] && after[j] == before[j - 1]);
            }
        }
    }
}

/// Groups that stand in rank order already are left as they are.  So the
/// order among groups of equal priority is their discovery order, and
/// ranking twice changes nothing.
pub proof fn lemma_ranked_keeps_order(groups: Seq<GroupView>)
    requires
        in_rank_order(groups),
    ensures
        ranked(groups) == groups,
    decreases groups.len(),
{
    if groups.len() > 0 {
        let rest = groups.drop_last();
        assert forall|i: int, j: int| 0 <= i < j < rest.len() implies (
        #[trigger] rest[i]).priority_key <= (#[trigger] rest[j]).priority_key by {
            assert(rest[i] == groups[i]);
            assert(rest[j] == groups[j]);
        }
        lemma_ranked_keeps_order(rest);
        if rest.len() > 0 {
            assert(rest.last() == groups[rest.len() - 1]);
            assert(groups.last() == groups[groups.len() - 1]);
        }
        assert(rest.insert(rest.len() as int, groups.last()) == groups);
    }
}

/// Ranking preserves the number of values.
proof fn lemma_ranked_total(groups: Seq<GroupView>)
    ensures
        total_values(ranked(groups)) == total_values(groups),
    decreases groups.len(),
{
    if groups.len() > 0 {
        let before = ranked(groups.drop_last());
        lemma_ranked_total(groups.drop_last());
        lemma_rank_position(before, groups.last().priority_key);
        lemma_total_after_insert(
            before,
            rank_position(before, groups.last().priority_key),
            groups.last(),
        );
    }
}

/// Every ranked group is one of the given groups.
proof fn lemma_ranked_members(groups: Seq<GroupView>, i: int)
    requires
        0 <= i < ranked(groups).len(),
    ensures
        groups.contains(ranked(groups)[i]),
{
    broadcast use vstd::seq_lib::group_to_multiset_ensures;

    lemma_ranked_permutes(groups);
    let group = ranked(groups)[i];
    assert(ranked(groups).contains(group));
    vstd::seq_lib::to_multiset_contains(ranked(groups), group);
    vstd::seq_lib::to_multiset_contains(groups, group);
}

/// Ranking keeps the groups apart and well formed.
proof fn lemma_ranked_keeps_groups(groups: Seq<GroupView>)
    requires
        devices_apart(groups),
        all_well_formed(groups),
    ensures
        devices_apart(ranked(groups)),
        all_well_formed(ranked(groups)),
    decreases groups.len(),
{
    let out = ranked(groups);
    assert forall|i: int| 0 <= i < out.len() implies well_formed(#[trigger] out[i]) by {
        lemma_ranked_members(groups, i);
        let k = choose|k: int| 0 <= k < groups.len() && groups[k] == out[i];
        assert(well_formed(groups[k]));
    }
    if groups.len() > 0 {
        let rest = groups.drop_last();
        let last = groups.last();
        let before = ranked(rest);
        assert forall|i: int, j: int| 0 <= i < j < rest.len() implies !prefix_related(
            (#[trigger] rest[i]).name,
            (#[trigger] rest[j]).name,
        ) by {
            assert(rest[i] == groups[i]);
            assert(rest[j] == groups[j]);
        }
        assert forall|i: int| 0 <= i < rest.len() implies well_formed(#[trigger] rest[i]) by {
            assert(rest[i] == groups[i]);
        }
        lemma_ranked_keeps_groups(rest);
        let at = rank_position(before, last.priority_key);
        lemma_rank_position(before, last.priority_key);
        assert forall|i: int| 0 <= i < before.len() implies !prefix_related(
            (#[trigger] before[i]).name,
            last.name,
        ) by {
            lemma_ranked_members(rest, i);
            let k = choose|k: int| 0 <= k < rest.len() && rest[k] == before[i];
            assert(rest[k] == groups[k]);
            assert(last == groups[groups.len() - 1]);
        }
        assert forall|i: int, j: int| 0 <= i < j < out.len() implies !prefix_related(
            (#[trigger] out[i]).name,
            (#[trigger] out[j]).name,
        ) by {
            if j < at {
                assert(out[i] == before[i] && out[j] == before[j]);
            } else if j == at {
                assert(out[i] == before[i]);
            } else if i < at {
                assert(out[i] == before[i] && out[j] == before[j - 1]);
            } else if i == at {
                assert(out[j] == before[j - 1]);
            } else {
                assert(out[i] == before[i - 1] && out[j] == before[j - 1]);
            }
        }
    }
}

/// The highest value after one more value has been added.
proof fn lemma_peak_push(values: Seq<u32>, value: u32)
    ensures
        peak(values.push(value)) == if peak(values) < value {
            value
        } else {
            peak(values)
        },
{
    assert(values.push(value).drop_last() == values);
}

/// Taking a device reading in adds exactly one value, keeps the groups apart
/// and well formed, and puts the value last in a group whose name is
/// prefix-related to the reading's.
pub proof fn lemma_absorb(groups: Seq<GroupView>, name: Seq<char>, value: u32, key: u64)
    requires
        devices_apart(groups),
        all_well_formed(groups),
        key == 0 || key == value_key(value),
    ensures
        devices_apart(absorb(groups, name, value, key)),
        all_well_formed(absorb(groups, name, value, key)),
        total_values(absorb(groups, name, value, key)) == total_values(groups) + 1,
        ({
            let at = first_related(groups, name);
            let after = absorb(groups, name, value, key);
            &&& 0 <= at < after.len()
            &&& after[at].values.last() == value
            &&& prefix_related(after[at].name, name)
            &&& at == groups.len() ==> after[at].name == name
        }),
{
    let at = first_related(groups, name);
    let after = absorb(groups, name, value, key);
    lemma_first_related_bound(groups, name);
    if at < groups.len() {
        let grown = joined(groups[at], value, key);
        lemma_total_after_update(groups, at, grown);
        lemma_peak_push(groups[at].values, value);
        assert forall|i: int| 0 <= i < after.len() implies well_formed(#[trigger] after[i]) by {
            if i != at {
                assert(after[i] == groups[i]);
            }
        }
        assert forall|i: int, j: int| 0 <= i < j < after.len() implies !prefix_related(
            (#[trigger] after[i]).name,
            (#[trigger] after[j]).name,
        ) by {
            assert(after[i].name == groups[i].name);
            assert(after[j].name == groups[j].name);
        }
    } else {
        assert(after.drop_last() == groups);
        assert(seq![value].drop_last() == Seq::<u32>::empty());
        assert(peak(seq![value]) == value) by {
            assert(peak(Seq::<u32>::empty()) == 0);
        }
        assert forall|i: int| 0 <= i < after.len() implies well_formed(#[trigger] after[i]) by {
            if i < groups.len() {
                assert(after[i] == groups[i]);
            }
        }
        assert forall|i: int, j: int| 0 <= i < j < after.len() implies !prefix_related(
            (#[trigger] after[i]).name,
            (#[trigger] after[j]).name,
        ) by {
            assert(after[i] == groups[i]);
            if j < groups.len() {
                assert(after[j] == groups[j]);
            }
        }
    }
}

/// What holds of the buckets before the groups are ranked.
proof fn lemma_gathered(readings: Seq<Reading>)
    ensures
        devices_apart(gathered(readings).groups),
        all_well_formed(gathered(readings).groups),
        gathered(readings).cpu.len() + gathered(readings).core.len() + total_values(
            gathered(readings).groups,
        ) == readings.len(),
    decreases readings.len(),
{
    if readings.len() > 0 {
        lemma_gathered(readings.drop_last());
        let before = gathered(readings.drop_last());
        let reading = readings.last();
        let name = strip_vendor_noise(reading.label@);
        let value = whole_units(reading.value);
        if role_of(name) == Role::Device {
            lemma_absorb(
                before.groups,
                device_name(name),
                value,
                reading_key(reading.label@, value),
            );
        }
    }
}

/// Every reading lands in exactly one bucket: the values of the processor
/// package, of the cores and of all device groups are as many as the
/// readings.
pub proof fn lemma_every_reading_counted(readings: Seq<Reading>)
    ensures
        classification(readings).cpu.len() + classification(readings).core.len() + total_values(
            classification(readings).groups,
        ) == readings.len(),
{
    lemma_gathered(readings);
    lemma_ranked_total(gathered(readings).groups);
}

/// The device groups of a classification never share a device: no name is a
/// prefix of another.  Each holds a value, and they stand in rank order.
pub proof fn lemma_groups_of_classification(readings: Seq<Reading>)
    ensures
        devices_apart(classification(readings).groups),
        all_well_formed(classification(readings).groups),
        in_rank_order(classification(readings).groups),
{
    lemma_gathered(readings);
    lemma_ranked_keeps_groups(gathered(readings).groups);
    lemma_ranked_in_order(gathered(readings).groups);
}

/// The display order in terms of the values: a group behind another is
/// composite only if the other is, and a group that is not composite is at
/// least as hot as every group behind it.
pub proof fn lemma_hottest_first(readings: Seq<Reading>, i: int, j: int)
    requires
        0 <= i < j < classification(readings).groups.len(),
    ensures
        ({
            let groups = classification(readings).groups;
            &&& groups[j].priority_key == 0 ==> groups[i].priority_key == 0
            &&& groups[i].priority_key != 0 ==> peak(groups[i].values) >= peak(groups[j].values)
        }),
{
    lemma_groups_of_classification(readings);
    let groups = classification(readings).groups;
    assert(well_formed(groups[i]) && well_formed(groups[j]));
    assert(groups[i].priority_key <= groups[j].priority_key);
}

/// Classification is a function of the labels and values alone, in their
/// order: readings that agree in those are classified alike, whenever and
/// however often it is done.
pub proof fn lemma_classification_repeats(first: Seq<Reading>, second: Seq<Reading>)
    requires
        first.len() == second.len(),
        forall|i: int|
            0 <= i < first.len() ==> (#[trigger] first[i]).label@ == second[i].label@ && first[i].value
                == second[i].value,
    ensures
        gathered(first) == gathered(second),
        classification(first) == classification(second),
    decreases first.len(),
{
    if first.len() > 0 {
        assert forall|i: int| 0 <= i < first.drop_last().len() implies (
        #[trigger] first.drop_last()[i]).label@ == second.drop_last()[i].label@
            && first.drop_last()[i].value == second.drop_last()[i].value by {
            assert(first.drop_last()[i] == first[i]);
            assert(second.drop_last()[i] == second[i]);
        }
        lemma_classification_repeats(first.drop_last(), second.drop_last());
        assert(first.last() == first[first.len() - 1]);
        assert(second.last() == second[second.len() - 1]);
    }
}

/// The merge rule on two device readings: where the canonical name of one
/// is a prefix of the other's, both values are in one group under the name
/// seen first; else each has a group of its own, and the two stand in the
/// order of their priority keys.
pub proof fn lemma_merge_rule(first: Reading, second: Reading)
    requires
        role_of(strip_vendor_noise(first.label@)) == Role::Device,
        role_of(strip_vendor_noise(second.label@)) == Role::Device,
    ensures
        ({
            let name1 = device_name(strip_vendor_noise(first.label@));
            let name2 = device_name(strip_vendor_noise(second.label@));
            let value1 = whole_units(first.value);
            let value2 = whole_units(second.value);
            let key1 = reading_key(first.label@, value1);
            let key2 = reading_key(second.label@, value2);
            let one = GroupView { name: name1, values: seq![value1], priority_key: key1 };
            let other = GroupView { name: name2, values: seq![value2], priority_key: key2 };
            let groups = classification(seq![first, second]).groups;
            if prefix_related(name1, name2) {
                groups == seq![joined(one, value2, key2)]
            } else if key2 < key1 {
                groups == seq![other, one]
            } else {
                groups == seq![one, other]
            }
        }),
{
    let name1 = device_name(strip_vendor_noise(first.label@));
    let name2 = device_name(strip_vendor_noise(second.label@));
    let value1 = whole_units(first.value);
    let value2 = whole_units(second.value);
    let key1 = reading_key(first.label@, value1);
    let key2 = reading_key(second.label@, value2);
    let one = GroupView { name: name1, values: seq![value1], priority_key: key1 };
    let other = GroupView { name: name2, values: seq![value2], priority_key: key2 };
    let nothing = Seq::<GroupView>::empty();
    let both = seq![first, second];
    let single = seq![first];
    assert(both.drop_last() == single);
    assert(both.last() == second);
    assert(single.drop_last() == Seq::<Reading>::empty());
    assert(single.last() == first);
    assert(gathered(Seq::<Reading>::empty()).groups == nothing);
    assert(first_related(nothing, name1) == 0);
    assert(absorb(nothing, name1, value1, key1) == seq![one]);
    assert(gathered(single).groups == seq![one]);
    assert(gathered(both).groups == absorb(seq![one], name2, value2, key2));
    assert(seq![one][0] == one);
    assert(seq![one].skip(1) == nothing);
    assert(first_related(nothing, name2) == 0);
    assert(ranked(nothing) == nothing);
    assert(rank_position(nothing, key1) == 0);
    if prefix_related(name1, name2) {
        let merged = joined(one, value2, key2);
        assert(first_related(seq![one], name2) == 0);
        assert(seq![one].update(0, merged) == seq![merged]);
        assert(gathered(both).groups == seq![merged]);
        assert(seq![merged].drop_last() == nothing);
        assert(seq![merged].last() == merged);
        assert(rank_position(nothing, merged.priority_key) == 0);
        assert(nothing.insert(0, merged) == seq![merged]);
        assert(ranked(seq![merged]) == seq![merged]);
    } else {
        assert(first_related(seq![one], name2) == 1);
        assert(seq![one].push(other) == seq![one, other]);
        let met = seq![one, other];
        assert(gathered(both).groups == met);
        assert(met.drop_last() == seq![one]);
        assert(met.last() == other);
        assert(seq![one].drop_last() == nothing);
        assert(seq![one].last() == one);
        assert(nothing.insert(0, one) == seq![one]);
        assert(ranked(seq![one]) == seq![one]);
        assert(ranked(met) == seq![one].insert(rank_position(seq![one], key2), other));
        if key2 < key1 {
            assert(rank_position(nothing, key2) == 0);
            assert(rank_position(seq![one], key2) == 0);
            assert(seq![one].insert(0, other) == seq![other, one]);
        } else {
            assert(rank_position(seq![one], key2) == 1);
            assert(seq![one].insert(1, other) == seq![one, other]);
        }
    }
}

} // verus!
