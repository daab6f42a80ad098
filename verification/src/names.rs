//! The device names of the inventory.
//!
//! The inventory names each device once, under its canonical name, and in
//! alphabetical order.

use crate::sensors::{
    canonical_device_name, device_name, role, role_of, strip_vendor_noise, stripped_label, Role,
};
use crate::text::{chars_of, prefix_related, starts_with, texts_of};
use vstd::prelude::*;

verus! {

/// `a` stands before `b` in the alphabet, or is `b`: the two are compared
/// character by character, and a text stands before its continuations.
pub open spec fn lex_le(a: Seq<char>, b: Seq<char>) -> bool
    decreases a.len(),
{
    if a.len() == 0 {
        true
    } else if b.len() == 0 {
        false
    } else if a[0] != b[0] {
        a[0] < b[0]
    } else {
        lex_le(a.skip(1), b.skip(1))
    }
}

/// The names stand in alphabetical order.
pub open spec fn in_alphabetical_order(names: Seq<Seq<char>>) -> bool {
    forall|i: int, j: int| 0 <= i < j < names.len() ==> lex_le(names[i], names[j])
}

/// One of `names` is prefix-related to `name`.
pub open spec fn related_to_any(names: Seq<Seq<char>>, name: Seq<char>) -> bool {
    exists|i: int| 0 <= i < names.len() && prefix_related(#[trigger] names[i], name)
}

/// The canonical names of the devices among the labels, in discovery order.
/// The processor and the motherboard are not devices of the inventory, and a
/// name that is prefix-related to one before it is left out.
pub open spec fn listed_devices(labels: Seq<Seq<char>>) -> Seq<Seq<char>>
    decreases labels.len(),
{
    if labels.len() == 0 {
        Seq::empty()
    } else {
        let before = listed_devices(labels.drop_last());
        let stripped = strip_vendor_noise(labels.last());
        let name = device_name(stripped);
        if role_of(stripped) == Role::Device && name != "Motherboard"@ && !related_to_any(
            before,
            name,
        ) {
            before.push(name)
        } else {
            before
        }
    }
}

/// Where `name` goes into names that stand in alphabetical order: behind
/// every name that does not stand after it.
pub open spec fn name_position(names: Seq<Seq<char>>, name: Seq<char>) -> int
    decreases names.len(),
{
    if names.len() == 0 {
        0
    } else if lex_le(names.last(), name) {
        names.len() as int
    } else {
        name_position(names.drop_last(), name)
    }
}

/// The names in alphabetical order.
pub open spec fn alphabetical(names: Seq<Seq<char>>) -> Seq<Seq<char>>
    decreases names.len(),
{
    if names.len() == 0 {
        Seq::empty()
    } else {
        let before = alphabetical(names.drop_last());
        before.insert(name_position(before, names.last()), names.last())
    }
}

/// The device names of the inventory for the given sensor labels.
pub open spec fn inventory_devices(labels: Seq<Seq<char>>) -> Seq<Seq<char>> {
    alphabetical(listed_devices(labels))
}

/// The contents of a vector of names.
pub open spec fn name_views(names: Seq<Vec<char>>) -> Seq<Seq<char>> {
    names.map_values(|name: Vec<char>| name@)
}

/// Of two names, one stands before the other or they are the same.
pub proof fn lemma_lex_total(a: Seq<char>, b: Seq<char>)
    ensures
        lex_le(a, b) || lex_le(b, a),
    decreases a.len(),
{
    if a.len() > 0 && b.len() > 0 && a[0] == b[0] {
        lemma_lex_total(a.skip(1), b.skip(1));
    }
}

/// What stands before a name stands before all that the name stands before.
pub proof fn lemma_lex_transitive(a: Seq<char>, b: Seq<char>, c: Seq<char>)
    requires
        lex_le(a, b),
        lex_le(b, c),
    ensures
        lex_le(a, c),
    decreases a.len(),
{
    if a.len() > 0 && b.len() > 0 && c.len() > 0 && a[0] == b[0] && b[0] == c[0] {
        lemma_lex_transitive(a.skip(1), b.skip(1), c.skip(1));
    }
}

/// Where a name goes lies inside the names; every name from that place on
/// stands after it, and with the names in alphabetical order every name
/// before that place stands before it or is the same.
pub proof fn lemma_name_position(names: Seq<Seq<char>>, name: Seq<char>)
    ensures
        0 <= name_position(names, name) <= names.len(),
        forall|i: int| name_position(names, name) <= i < names.len() ==> lex_le(name, names[i]),
        in_alphabetical_order(names) ==> forall|i: int|
            0 <= i < name_position(names, name) ==> lex_le(names[i], name),
    decreases names.len(),
{
    if names.len() > 0 {
        let rest = names.drop_last();
        if lex_le(names.last(), name) {
            if in_alphabetical_order(names) {
                assert forall|i: int| 0 <= i < names.len() implies lex_le(names[i], name) by {
                    if i < names.len() - 1 {
                        lemma_lex_transitive(names[i], names.last(), name);
                    }
                }
            }
        } else {
            lemma_name_position(rest, name);
            lemma_lex_total(names.last(), name);
            assert forall|i: int| name_position(names, name) <= i < names.len() implies lex_le(
                name,
                names[i],
            ) by {
                if i < rest.len() {
                    assert(rest[i] == names[i]);
                }
            }
            if in_alphabetical_order(names) {
                assert forall|i: int, j: int| 0 <= i < j < rest.len() implies lex_le(
                    rest[i],
                    rest[j],
                ) by {
                    assert(rest[i] == names[i]);
                    assert(rest[j] == names[j]);
                }
                assert forall|i: int| 0 <= i < name_position(names, name) implies lex_le(
                    names[i],
                    name,
                ) by {
                    assert(rest[i] == names[i]);
                }
            }
        }
    }
}

/// The names come out in alphabetical order, and they are the names that
/// went in, each as often as it went in.
pub proof fn lemma_alphabetical(names: Seq<Seq<char>>)
    ensures
        in_alphabetical_order(alphabetical(names)),
        alphabetical(names).to_multiset() == names.to_multiset(),
        alphabetical(names).len() == names.len(),
    decreases names.len(),
{
    broadcast use vstd::seq_lib::group_to_multiset_ensures;

    if names.len() > 0 {
        let before = alphabetical(names.drop_last());
        let last = names.last();
        let at = name_position(before, last);
        lemma_alphabetical(names.drop_last());
        lemma_name_position(before, last);
        let after = before.insert(at, last);
        assert(names.drop_last().push(last) == names);
        assert forall|i: int, j: int| 0 <= i < j < after.len() implies lex_le(
            after[i],
            after[j],
        ) by {
            if j < at {
                assert(after[i] == before[i] && after[j] == before[j]);
            } else if j == at {
                assert(after[i] == before[i]);
            } else if i < at {
                assert(after[i] == before[i] && after[j] == before[j - 1]);
            } else if i == at {
                assert(after[j] == before[j - 1]);
            } else {
                assert(after[i] == before[i - 1] && after[j] == before[j - 1]);
            }
        }
    }
}

/// Does `a` stand before `b` in the alphabet, or is it `b`?
pub fn precedes(a: &Vec<char>, b: &Vec<char>) -> (le: bool)
    ensures
        le == lex_le(a@, b@),
{
    let mut i: usize = 0;
    assert(a@.skip(0) == a@ && b@.skip(0) == b@);
    while i < a.len() && i < b.len() && a[i] == b[i]
        invariant
            i <= a.len(),
            i <= b.len(),
            lex_le(a@, b@) == lex_le(a@.skip(i as int), b@.skip(i as int)),
        decreases a.len() - i,
    {
        proof {
            assert(a@.skip(i as int)[0] == a@[i as int]);
            assert(b@.skip(i as int)[0] == b@[i as int]);
            assert(a@.skip(i as int).skip(1) == a@.skip(i + 1));
            assert(b@.skip(i as int).skip(1) == b@.skip(i + 1));
        }
        i += 1;
    }
    proof {
        if i < a.len() {
            assert(a@.skip(i as int)[0] == a@[i as int]);
        }
        if i < b.len() {
            assert(b@.skip(i as int)[0] == b@[i as int]);
        }
    }
    if i == a.len() {
        true
    } else if i == b.len() {
        false
    } else {
        a[i] < b[i]
    }
}

/// Is one of `names` prefix-related to `name`?
fn any_related(names: &Vec<Vec<char>>, name: &Vec<char>) -> (found: bool)
    ensures
        found == related_to_any(name_views(names@), name@),
{
    let ghost views = name_views(names@);
    let mut i: usize = 0;
    while i < names.len()
        invariant
            i <= names.len(),
            views == name_views(names@),
            forall|k: int| 0 <= k < i ==> !prefix_related(#[trigger] views[k], name@),
        decreases names.len() - i,
    {
        assert(views[i as int] == names@[i as int]@);
        if starts_with(name, &names[i]) || starts_with(&names[i], name) {
            return true;
        }
        i += 1;
    }
    false
}

/// The canonical names of the devices among the labels, in discovery order.
pub fn devices_among(labels: &Vec<String>) -> (names: Vec<Vec<char>>)
    ensures
        name_views(names@) == listed_devices(texts_of(labels@)),
{
    let ghost texts = texts_of(labels@);
    let board = chars_of("Motherboard");
    let mut names: Vec<Vec<char>> = Vec::new();
    let mut i: usize = 0;
    assert(texts.take(0) == Seq::<Seq<char>>::empty());
    assert(name_views(names@) =~= listed_devices(texts.take(0)));
    while i < labels.len()
        invariant
            i <= labels.len(),
            texts == texts_of(labels@),
            board@ == "Motherboard"@,
            name_views(names@) == listed_devices(texts.take(i as int)),
        decreases labels.len() - i,
    {
        proof {
            assert(texts.take(i + 1).drop_last() == texts.take(i as int));
            assert(texts.take(i + 1).last() == labels@[i as int]@);
        }
        let stripped = stripped_label(labels[i].as_str());
        if matches!(role(&stripped), Role::Device) {
            let name = canonical_device_name(&stripped);
            let is_board = name.len() == board.len() && starts_with(&name, &board);
            assert(is_board == (name@ == board@)) by {
                if name@.len() == board@.len() {
                    assert(name@.subrange(0, name@.len() as int) == name@);
                }
            }
            if !is_board && !any_related(&names, &name) {
                let ghost before = name_views(names@);
                names.push(name);
                assert(name_views(names@) =~= before.push(name@));
            }
        }
        i += 1;
    }
    assert(texts.take(i as int) == texts);
    names
}

/// The names in alphabetical order.
pub fn sort_names(names: Vec<Vec<char>>) -> (out: Vec<Vec<char>>)
    ensures
        name_views(out@) == alphabetical(name_views(names@)),
{
    let ghost all = name_views(names@);
    let mut rest = names;
    let mut out: Vec<Vec<char>> = Vec::new();
    let ghost mut done: int = 0;
    assert(all.take(0) == Seq::<Seq<char>>::empty());
    assert(name_views(out@) =~= alphabetical(all.take(0)));
    assert(all.skip(0) == all);
    while rest.len() > 0
        invariant
            0 <= done <= all.len(),
            name_views(rest@) == all.skip(done),
            name_views(out@) == alphabetical(all.take(done)),
        decreases rest.len(),
    {
        assert(done < all.len()) by {
            assert(all.skip(done).len() == rest@.len());
        }
        let ghost waiting = rest@;
        let name = rest.remove(0);
        let ghost sorted = name_views(out@);
        proof {
            assert(name_views(waiting)[0] == name@);
            assert(all.skip(done).len() == all.len() - done);
            assert forall|j: int| 0 <= j < rest@.len() implies name_views(rest@)[j] == all.skip(
                done + 1,
            )[j] by {
                assert(rest@[j] == waiting[j + 1]);
                assert(name_views(waiting)[j + 1] == waiting[j + 1]@);
                assert(all.skip(done)[j + 1] == all[done + j + 1]);
            }
            assert(name_views(rest@) =~= all.skip(done + 1));
            assert(all.take(done + 1).drop_last() == all.take(done));
            assert(all.take(done + 1).last() == name@);
        }
        let mut at: usize = out.len();
        assert(sorted.take(at as int) == sorted);
        while at > 0 && !precedes(&out[at - 1], &name)
            invariant
                at <= out.len(),
                sorted == name_views(out@),
                name_position(sorted, name@) == name_position(sorted.take(at as int), name@),
            decreases at,
        {
            assert(sorted.take(at as int).drop_last() == sorted.take(at - 1));
            assert(sorted.take(at as int).last() == out@[at - 1]@);
            at -= 1;
        }
        proof {
            if at > 0 {
                assert(sorted.take(at as int).last() == out@[at - 1]@);
            }
        }
        let ghost inserted = name@;
        out.insert(at, name);
        proof {
            assert(name_views(out@) =~= sorted.insert(at as int, inserted));
            done = done + 1;
        }
    }
    assert(all.take(done) == all);
    out
}

} // verus!
