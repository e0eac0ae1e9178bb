//! What reads give back of writes.

use vstd::prelude::*;

use crate::events::GroupEventView;
use crate::laws::Write;
use crate::model::{CacheView, Stored};
use crate::proto::{GroupUpdateView, GroupView, LocationView, Side, UnitView};

verus! {

/// All but the units, the groups and what subscribers were told of these is as
/// before.
pub open spec fn only_stored_changed(c: CacheView, d: CacheView) -> bool {
    &&& d.simulation_info == c.simulation_info
    &&& d.simulation_state == c.simulation_state
    &&& d.locations == c.locations
    &&& d.simulation_history == c.simulation_history
}

/// Law: a unit that was upserted is read back as it was given, under its group
/// and no other, and every other unit as before. No group comes or goes, and none
/// but the unit's group and the one it leaves is read otherwise; of a group that is
/// not cached nothing is told.
pub proof fn law_upserted_unit_is_read_back(c: CacheView, unit: UnitView, other: Seq<char>, group: Seq<char>)
    requires
        crate::model::stored_wf(c.stored),
    ensures
        ({
            let s = c.stored;
            let d = crate::laws::after(c, Write::UpsertUnit(unit));
            let t = d.stored;
            &&& crate::model::unit_at(t, unit.id) == Some(unit)
            &&& other != unit.id ==> crate::model::unit_at(t, other) == crate::model::unit_at(s, other)
            &&& crate::model::members_of(t, group).contains(unit.id) <==> group == unit.group_id
            &&& t.groups == s.groups
            &&& crate::model::joined(t, group) is None <==> crate::model::joined(s, group) is None
            &&& !crate::model::groups_of_unit(s, unit).contains(group) ==> crate::model::joined(t, group)
                == crate::model::joined(s, group)
            &&& crate::model::joined(s, group) is None ==> crate::model::change(
                group,
                crate::model::joined(s, group),
                crate::model::joined(t, group),
            ) == Seq::<GroupUpdateView>::empty()
            &&& only_stored_changed(c, d)
        }),
{
    let s = c.stored;
    let t = crate::laws::after(c, Write::UpsertUnit(unit)).stored;
    let ids = crate::model::groups_of_unit(s, unit);
    if !ids.contains(group) {
        assert(ids[0] == unit.group_id);
        if s.units.contains_key(unit.id) && s.units[unit.id].group_id == group {
            assert(ids[1] == group);
        }
        assert(crate::model::members_of(s, group) =~= crate::model::members_of(t, group));
        crate::laws::lemma_same_reading(s, t, group);
    }
}

/// Law: a unit that was removed is gone, every other unit is as before, and a
/// second removal finds nothing and tells nothing.
pub proof fn law_removed_unit_is_gone(c: CacheView, id: Seq<char>, other: Seq<char>)
    ensures
        ({
            let d = crate::laws::after(c, Write::RemoveUnit(id));
            &&& crate::model::unit_at(d.stored, id) is None
            &&& other != id ==> crate::model::unit_at(d.stored, other) == crate::model::unit_at(c.stored, other)
            &&& crate::laws::after(d, Write::RemoveUnit(id)) == d
        }),
{
    let d = crate::laws::after(c, Write::RemoveUnit(id));
    assert(d.stored.units.remove(id) =~= d.stored.units);
    crate::model::lemma_told_nothing(d);
}

/// Law: a group whose fields were upserted is read back with those fields and
/// the members that it had; the units that the message held are ignored. No unit
/// changes, and no other group.
pub proof fn law_upserted_group_is_read_back(c: CacheView, group: GroupView, other: Seq<char>)
    requires
        crate::model::stored_wf(c.stored),
    ensures
        ({
            let t = crate::laws::after(c, Write::UpsertGroup(group)).stored;
            &&& crate::model::joined(t, group.id) == Some(
                GroupView { units: crate::model::member_units(c.stored, group.id), ..group },
            )
            &&& t.units == c.stored.units
            &&& other != group.id ==> crate::model::joined(t, other) == crate::model::joined(c.stored, other)
        }),
{
    let s = c.stored;
    let t = crate::laws::after(c, Write::UpsertGroup(group)).stored;
    assert(crate::model::members_of(s, other) =~= crate::model::members_of(t, other));
    assert(crate::model::members_of(s, group.id) =~= crate::model::members_of(t, group.id));
    assert(crate::model::member_units(t, group.id) =~= crate::model::member_units(s, group.id));
    if other != group.id {
        crate::laws::lemma_same_reading(s, t, other);
    }
}

/// Law: a group that was upserted with its units has exactly the listed units as
/// members. Each listed unit is read back as one of the list, with the group's id
/// in place of the one it came with; one that belonged elsewhere has left there. A
/// former member that is not listed is gone. Any other unit is as before, and so are
/// the other groups' own fields, the simulation and the locations.
pub proof fn law_group_has_the_units_it_was_given(
    c: CacheView,
    group: GroupView,
    units: Seq<UnitView>,
    unit: Seq<char>,
    other: Seq<char>,
)
    requires
        crate::model::stored_wf(c.stored),
    ensures
        ({
            let s = c.stored;
            let d = crate::laws::after(c, Write::UpsertGroupWithUnits(group, units));
            let t = d.stored;
            let listed = crate::model::listed_ids(units);
            &&& only_stored_changed(c, d)
            &&& t.groups == s.groups.insert(group.id, crate::model::bare(group))
            &&& crate::model::joined(t, group.id) == Some(
                GroupView { units: crate::model::member_units(t, group.id), ..group },
            )
            &&& crate::model::members_of(t, group.id) == listed
            &&& other != group.id ==> crate::model::members_of(t, other) == crate::model::members_of(
                s,
                other,
            ).difference(listed)
            &&& listed.contains(unit) ==> exists|i: int|
                0 <= i < units.len() && (#[trigger] units[i]).id == unit && crate::model::unit_at(t, unit)
                    == Some(UnitView { group_id: group.id, ..units[i] })
            &&& !listed.contains(unit) && crate::model::members_of(s, group.id).contains(unit)
                ==> crate::model::unit_at(t, unit) is None
            &&& !listed.contains(unit) && !crate::model::members_of(s, group.id).contains(unit)
                ==> crate::model::unit_at(t, unit) == crate::model::unit_at(s, unit)
        }),
{
    let s = c.stored;
    let t = crate::laws::after(c, Write::UpsertGroupWithUnits(group, units)).stored;
    let mid = crate::model::regrouped(s, group.id, units);
    let listed = crate::model::listed_ids(units);
    let list = crate::model::adopted(units, group.id);
    let kept = crate::model::kept_units(s, group.id, listed);
    crate::model::lemma_regrouped(s, group.id, units, group.id);
    crate::model::lemma_regrouped(s, group.id, units, other);
    crate::model::lemma_with_all(kept, list);
    crate::model::lemma_adopted_ids(units, group.id);
    assert(crate::model::members_of(t, group.id) =~= crate::model::members_of(mid, group.id));
    assert(crate::model::members_of(t, other) =~= crate::model::members_of(mid, other));
    if listed.contains(unit) {
        let found = t.units[unit];
        let i = choose|i: int| 0 <= i < list.len() && list[i] == found;
        assert(found == UnitView { group_id: group.id, ..units[i] });
        assert(units[i].id == unit);
    }
}

/// Law: of units that bear one id, the last of the list counts.
pub proof fn law_last_unit_of_an_id_counts(c: CacheView, group: GroupView, units: Seq<UnitView>, last: int)
    requires
        crate::model::stored_wf(c.stored),
        is_last_of_its_id(units, last),
    ensures
        crate::model::unit_at(
            crate::laws::after(c, Write::UpsertGroupWithUnits(group, units)).stored,
            units[last].id,
        ) == Some(UnitView { group_id: group.id, ..units[last] }),
{
    let s = c.stored;
    let list = crate::model::adopted(units, group.id);
    let kept = crate::model::kept_units(s, group.id, crate::model::listed_ids(units));
    lemma_last_put_counts(kept, list, last);
}

/// The ids of a list of units, in its order.
pub open spec fn ids_in_order(units: Seq<UnitView>) -> Seq<Seq<char>> {
    units.map_values(|u: UnitView| u.id)
}

/// The unit at `k` is the last of the list that bears its id.
pub open spec fn is_last_of_its_id(units: Seq<UnitView>, k: int) -> bool {
    &&& 0 <= k < units.len()
    &&& forall|i: int| k < i < units.len() ==> (#[trigger] units[i]).id != units[k].id
}

/// The unit is the last of the list that bears its id, moved to `group`.
pub open spec fn is_taken_from(units: Seq<UnitView>, group: Seq<char>, unit: UnitView) -> bool {
    exists|k: int| #[trigger]
        is_last_of_its_id(units, k) && unit == (UnitView { group_id: group, ..units[k] })
}

/// Of the units that bear a listed id, one is the last.
proof fn lemma_last_of_an_id(units: Seq<UnitView>, k: int) -> (last: int)
    requires
        0 <= k < units.len(),
    ensures
        is_last_of_its_id(units, last),
        units[last].id == units[k].id,
    decreases units.len() - k,
{
    if exists|i: int| k < i < units.len() && (#[trigger] units[i]).id == units[k].id {
        let i = choose|i: int| k < i < units.len() && (#[trigger] units[i]).id == units[k].id;
        lemma_last_of_an_id(units, i)
    } else {
        k
    }
}

/// Law: a group that was upserted with its units is read back with these: one for
/// each id of the list, the last that bears it, with the group's id, in the order of
/// ids.
pub proof fn law_group_is_read_back_with_its_units(c: CacheView, group: GroupView, units: Seq<UnitView>)
    requires
        crate::model::stored_wf(c.stored),
    ensures
        ({
            let t = crate::laws::after(c, Write::UpsertGroupWithUnits(group, units)).stored;
            let read = crate::model::member_units(t, group.id);
            &&& crate::model::joined(t, group.id) == Some(GroupView { units: read, ..group })
            &&& crate::text::lists(ids_in_order(read), crate::model::listed_ids(units))
            &&& forall|i: int| 0 <= i < read.len() ==> #[trigger] is_taken_from(units, group.id, read[i])
        }),
{
    let t = crate::laws::after(c, Write::UpsertGroupWithUnits(group, units)).stored;
    let read = crate::model::member_units(t, group.id);
    let listed = crate::model::listed_ids(units);
    law_group_has_the_units_it_was_given(c, group, units, group.id, group.id);
    crate::laws::lemma_stored_wf(c, Write::UpsertGroupWithUnits(group, units));
    crate::text::lemma_listing_exists(listed);
    let ids = crate::text::listing(listed);
    assert forall|i: int| 0 <= i < ids.len() implies listed.contains(#[trigger] ids[i]) && t.units.contains_key(
        ids[i],
    ) by {
        assert(ids.contains(ids[i]));
        assert(crate::model::members_of(t, group.id).contains(ids[i]));
    }
    assert(ids_in_order(read) =~= ids);
    assert forall|i: int| 0 <= i < read.len() implies #[trigger] is_taken_from(
        units,
        group.id,
        read[i],
    ) by {
        assert(listed.contains(ids[i]));
        crate::model::lemma_listed(units, ids[i]);
        let j = choose|j: int| 0 <= j < units.len() && (#[trigger] units[j]).id == ids[i];
        let k = lemma_last_of_an_id(units, j);
        law_last_unit_of_an_id_counts(c, group, units, k);
        assert(is_last_of_its_id(units, k) && read[i] == (UnitView { group_id: group.id, ..units[k] }));
    }
}

/// Of units that bear one id, the one put in last is found.
proof fn lemma_last_put_counts(units: Map<Seq<char>, UnitView>, list: Seq<UnitView>, last: int)
    requires
        0 <= last < list.len(),
        forall|i: int| last < i < list.len() ==> (#[trigger] list[i]).id != list[last].id,
    ensures
        crate::model::with_all(units, list).contains_key(list[last].id),
        crate::model::with_all(units, list)[list[last].id] == list[last],
    decreases list.len(),
{
    if last < list.len() - 1 {
        let shorter = list.drop_last();
        assert forall|i: int| last < i < shorter.len() implies (#[trigger] shorter[i]).id != shorter[last].id by {
            assert(list[i].id != list[last].id);
        }
        lemma_last_put_counts(units, shorter, last);
        assert(list[list.len() - 1].id != list[last].id);
    }
}

/// Law: the members of a group that is read name it as their group, and stand in
/// the order of their ids, each once.
pub proof fn law_members_name_their_group(s: Stored, group: Seq<char>, i: int, j: int)
    requires
        crate::model::stored_wf(s),
        0 <= i < crate::model::member_units(s, group).len(),
        0 <= j < crate::model::member_units(s, group).len(),
    ensures
        crate::model::member_units(s, group)[i].group_id == group,
        crate::model::unit_at(s, crate::model::member_units(s, group)[i].id) == Some(
            crate::model::member_units(s, group)[i],
        ),
        i < j ==> crate::text::precedes(
            crate::model::member_units(s, group)[i].id,
            crate::model::member_units(s, group)[j].id,
        ),
{
    let members = crate::model::members_of(s, group);
    let ids = crate::text::listing(members);
    crate::text::lemma_listing_exists(members);
    assert(ids.contains(ids[i]) && ids.contains(ids[j]));
    assert(members.contains(ids[i]) && members.contains(ids[j]));
}

/// Law: a group that was removed is gone with all its members; the other groups
/// are read as before, and so are the other units. Just the removal is told, and a
/// second one changes nothing.
pub proof fn law_removed_group_is_gone(c: CacheView, id: Seq<char>, other: Seq<char>, unit: Seq<char>)
    requires
        crate::model::stored_wf(c.stored),
        c.stored.groups.contains_key(id),
    ensures
        ({
            let s = c.stored;
            let d = crate::laws::after(c, Write::RemoveGroup(id));
            &&& crate::model::joined(d.stored, id) is None
            &&& crate::model::members_of(d.stored, id) == Set::<Seq<char>>::empty()
            &&& other != id ==> crate::model::joined(d.stored, other) == crate::model::joined(s, other)
            &&& crate::model::members_of(s, id).contains(unit) ==> crate::model::unit_at(d.stored, unit) is None
            &&& !crate::model::members_of(s, id).contains(unit) ==> crate::model::unit_at(d.stored, unit)
                == crate::model::unit_at(s, unit)
            &&& d.sequence == c.sequence + 1
            &&& d.group_history == c.group_history.push(
                GroupEventView {
                    sequence: c.sequence + 1,
                    update: Some(GroupUpdateView::RemovedId(id)),
                },
            )
            &&& only_stored_changed(c, d)
            &&& crate::laws::after(d, Write::RemoveGroup(id)) == d
        }),
{
    let s = c.stored;
    let d = crate::laws::after(c, Write::RemoveGroup(id));
    let t = d.stored;
    assert(crate::model::members_of(t, id) =~= Set::empty());
    if other != id {
        assert(crate::model::members_of(s, other) =~= crate::model::members_of(t, other));
        crate::laws::lemma_same_reading(s, t, other);
    }
    assert(d.group_history =~= c.group_history.push(
        GroupEventView { sequence: c.sequence + 1, update: Some(GroupUpdateView::RemovedId(id)) },
    ));
}

/// Law: the removal of a group that is not cached changes nothing, not even a unit
/// that names the group, and tells nothing.
pub proof fn law_removal_of_an_unknown_group_changes_nothing(c: CacheView, id: Seq<char>)
    requires
        crate::model::joined(c.stored, id) is None,
    ensures
        crate::laws::after(c, Write::RemoveGroup(id)) == c,
{
}

/// Law: no unit from before a reset joins a group that is upserted after it.
pub proof fn law_no_unit_outlives_a_reset(c: CacheView, group: GroupView)
    ensures
        ({
            let d = crate::laws::after(crate::laws::after(c, Write::Clear), Write::UpsertGroup(group));
            crate::model::joined(d.stored, group.id) == Some(crate::model::bare(group))
        }),
{
    let d = crate::laws::after(crate::laws::after(c, Write::Clear), Write::UpsertGroup(group));
    let none = Seq::<Seq<char>>::empty();
    let members = crate::model::members_of(d.stored, group.id);
    assert(crate::text::lists(none, members));
    crate::text::lemma_listing(none, members);
    assert(crate::model::member_units(d.stored, group.id) =~= Seq::empty());
    assert(crate::model::joined(d.stored, group.id)->0 =~= crate::model::bare(group));
}

/// Law: after a reset nothing is read but what is written from then on, and the
/// numbers go on.
pub proof fn law_cleared_cache_is_empty(c: CacheView, id: Seq<char>, side: Option<Side>, group: Option<Seq<char>>)
    ensures
        ({
            let d = crate::laws::after(c, Write::Clear);
            &&& crate::model::unit_at(d.stored, id) is None
            &&& crate::model::joined(d.stored, id) is None
            &&& crate::model::listed_units(d.stored, side, group) == Seq::<UnitView>::empty()
            &&& crate::model::listed_groups(d.stored, side) == Seq::<GroupView>::empty()
            &&& crate::model::listed_locations(d, side) == Seq::<LocationView>::empty()
            &&& d.simulation_info is None
            &&& d.simulation_state is None
            &&& d.sequence > c.sequence
        }),
{
    let d = crate::laws::after(c, Write::Clear);
    reveal(Seq::filter);
    let none = Seq::<Seq<char>>::empty();
    assert(crate::text::lists(none, d.stored.units.dom()));
    crate::text::lemma_listing(none, d.stored.units.dom());
    crate::text::lemma_listing(none, d.stored.groups.dom());
    assert(crate::model::listed_units(d.stored, side, group) =~= Seq::empty());
    assert(crate::model::listed_groups(d.stored, side) =~= Seq::empty());
}

/// Law: a group is listed when it matches the filter, as it is read, and the list
/// is in the order of ids.
pub proof fn law_groups_listed(s: Stored, side: Option<Side>, group: GroupView)
    requires
        crate::model::stored_wf(s),
    ensures
        crate::model::listed_groups(s, side).contains(group) <==> crate::model::joined(s, group.id) == Some(group)
            && crate::proto::side_matches(side, group.side),
        forall|i: int, j: int|
            0 <= i < j < crate::model::listed_groups(s, side).len() ==> crate::text::precedes(
                (#[trigger] crate::model::listed_groups(s, side)[i]).id,
                (#[trigger] crate::model::listed_groups(s, side)[j]).id,
            ),
{
    let all = crate::text::listing(s.groups.dom());
    let pass = crate::model::group_filter(s, side);
    let ids = all.filter(pass);
    let list = crate::model::listed_groups(s, side);
    crate::text::lemma_listing_exists(s.groups.dom());
    assert forall|i: int| 0 <= i < ids.len() implies s.groups.contains_key(#[trigger] ids[i]) && pass(ids[i]) by {
        crate::laws::lemma_filter_from(all, pass, ids[i]);
        assert(ids.contains(ids[i]));
        assert(s.groups.dom().contains(ids[i]));
    }
    if list.contains(group) {
        let i = choose|i: int| 0 <= i < list.len() && list[i] == group;
        assert(s.groups.contains_key(ids[i]));
    }
    if crate::model::joined(s, group.id) == Some(group) && crate::proto::side_matches(side, group.side) {
        crate::laws::lemma_filter_from(all, pass, group.id);
        assert(s.groups.dom().contains(group.id));
        let i = choose|i: int| 0 <= i < ids.len() && ids[i] == group.id;
        assert(list[i] == group);
    }
    let by_id = |a: Seq<char>, b: Seq<char>| crate::text::precedes(a, b);
    assert forall|i: int, j: int| 0 <= i < j < all.len() implies by_id(#[trigger] all[i], #[trigger] all[j]) by {
        assert(crate::text::precedes(all[i], all[j]));
    }
    lemma_filter_ordered(all, pass, by_id);
    assert forall|i: int, j: int| 0 <= i < j < list.len() implies crate::text::precedes(
        (#[trigger] list[i]).id,
        (#[trigger] list[j]).id,
    ) by {
        assert(s.groups.contains_key(ids[i]) && s.groups.contains_key(ids[j]));
        assert(by_id(ids[i], ids[j]));
    }
}

/// Law: a unit is listed when it matches both filters; by its group where one is
/// asked for, and by its group's side, so that a unit whose group is not cached
/// matches no side. The list is in the order of ids.
pub proof fn law_units_listed(s: Stored, side: Option<Side>, group: Option<Seq<char>>, unit: UnitView)
    requires
        crate::model::stored_wf(s),
    ensures
        crate::model::listed_units(s, side, group).contains(unit) <==> {
            &&& crate::model::unit_at(s, unit.id) == Some(unit)
            &&& group is Some ==> unit.group_id == group->0
            &&& side is Some ==> s.groups.contains_key(unit.group_id) && crate::proto::is_side(
                s.groups[unit.group_id].side,
                side->0,
            )
        },
        forall|i: int, j: int|
            0 <= i < j < crate::model::listed_units(s, side, group).len() ==> crate::text::precedes(
                (#[trigger] crate::model::listed_units(s, side, group)[i]).id,
                (#[trigger] crate::model::listed_units(s, side, group)[j]).id,
            ),
{
    let ids = crate::text::listing(s.units.dom());
    let all = ids.map_values(|u: Seq<char>| s.units[u]);
    crate::text::lemma_listing_exists(s.units.dom());
    let by_id = |a: UnitView, b: UnitView| crate::text::precedes(a.id, b.id);
    assert forall|i: int, j: int| 0 <= i < j < all.len() implies by_id(#[trigger] all[i], #[trigger] all[j]) by {
        assert(ids.contains(ids[i]) && ids.contains(ids[j]));
        assert(s.units.dom().contains(ids[i]) && s.units.dom().contains(ids[j]));
        assert(crate::text::precedes(ids[i], ids[j]));
    }
    let list = crate::model::listed_units(s, side, group);
    lemma_filter_ordered(all, crate::model::unit_filter(s, side, group), by_id);
    assert forall|i: int, j: int| 0 <= i < j < list.len() implies crate::text::precedes(
        (#[trigger] list[i]).id,
        (#[trigger] list[j]).id,
    ) by {
        assert(by_id(list[i], list[j]));
    }
    crate::laws::lemma_filter_from(all, crate::model::unit_filter(s, side, group), unit);
    if all.contains(unit) {
        let i = choose|i: int| 0 <= i < all.len() && all[i] == unit;
        assert(ids.contains(ids[i]));
        assert(s.units.dom().contains(ids[i]));
    }
    if crate::model::unit_at(s, unit.id) == Some(unit) {
        assert(s.units.dom().contains(unit.id));
        let i = choose|i: int| 0 <= i < ids.len() && ids[i] == unit.id;
        assert(all[i] == unit);
    }
}

/// A filter keeps a list in its order.
proof fn lemma_filter_ordered<A>(list: Seq<A>, pass: spec_fn(A) -> bool, precedes: spec_fn(A, A) -> bool)
    requires
        forall|i: int, j: int|
            0 <= i < j < list.len() ==> precedes(#[trigger] list[i], #[trigger] list[j]),
    ensures
        forall|i: int, j: int|
            0 <= i < j < list.filter(pass).len() ==> precedes(
                #[trigger] list.filter(pass)[i],
                #[trigger] list.filter(pass)[j],
            ),
    decreases list.len(),
{
    reveal(Seq::filter);
    if list.len() > 0 {
        let shorter = list.drop_last();
        assert forall|i: int, j: int| 0 <= i < j < shorter.len() implies precedes(
            #[trigger] shorter[i],
            #[trigger] shorter[j],
        ) by {
            assert(precedes(list[i], list[j]));
        }
        lemma_filter_ordered(shorter, pass, precedes);
        let kept = shorter.filter(pass);
        assert forall|i: int| 0 <= i < kept.len() implies precedes(#[trigger] kept[i], list.last()) by {
            crate::laws::lemma_filter_from(shorter, pass, kept[i]);
            assert(kept.contains(kept[i]));
            let k = choose|k: int| 0 <= k < shorter.len() && shorter[k] == kept[i];
            assert(precedes(list[k], list[list.len() - 1]));
        }
    }
}

/// Law: a location is listed when it matches the filter.
pub proof fn law_locations_listed(c: CacheView, side: Option<Side>, location: LocationView)
    ensures
        crate::model::listed_locations(c, side).contains(location) <==> c.locations.contains(location)
            && crate::proto::side_matches(side, location.owner),
{
    crate::laws::lemma_filter_from(
        c.locations,
        |l: LocationView| crate::proto::side_matches(side, l.owner),
        location,
    );
}

/// Law: a change of side is told as the removal of the group, then as its upsert
/// with the new side.
pub proof fn law_change_of_side_is_told_as_removal_then_upsert(c: CacheView, group: GroupView)
    requires
        c.stored.groups.contains_key(group.id),
        c.stored.groups[group.id].side != group.side,
    ensures
        ({
            let write = Write::UpsertGroup(group);
            let now = crate::model::joined(crate::laws::after(c, write).stored, group.id);
            now is Some && now->0.side == group.side && crate::laws::updates_of(c, write) == seq![
                GroupUpdateView::RemovedId(group.id),
                GroupUpdateView::Upserted(now->0),
            ]
        }),
{
    let s = c.stored;
    let write = Write::UpsertGroup(group);
    let t = crate::laws::after(c, write).stored;
    crate::model::lemma_changes_one(group.id, s, t);
    assert(crate::laws::updates_of(c, write) =~= seq![
        GroupUpdateView::RemovedId(group.id),
        GroupUpdateView::Upserted(crate::model::joined(t, group.id)->0),
    ]);
}

/// Law: upserting a unit a second time changes nothing and tells nothing. A group
/// that holds a NaN is left out: it differs from itself, and is told of again.
pub proof fn law_repeated_unit_is_not_told(c: CacheView, unit: UnitView)
    requires
        crate::proto::joined_in_numbers(
            crate::model::joined(crate::laws::after(c, Write::UpsertUnit(unit)).stored, unit.group_id),
        ),
    ensures
        ({
            let d = crate::laws::after(c, Write::UpsertUnit(unit));
            crate::laws::after(d, Write::UpsertUnit(unit)) == d
        }),
{
    let d = crate::laws::after(c, Write::UpsertUnit(unit));
    let t = d.stored;
    assert(crate::model::with_unit(t, unit) =~= t);
    lemma_nothing_to_tell(t, unit.group_id);
    crate::model::lemma_told_nothing(d);
}

/// Law: upserting a group's fields a second time changes nothing and tells
/// nothing. A group that holds a NaN is left out.
pub proof fn law_repeated_group_is_not_told(c: CacheView, group: GroupView)
    requires
        crate::proto::joined_in_numbers(
            crate::model::joined(crate::laws::after(c, Write::UpsertGroup(group)).stored, group.id),
        ),
    ensures
        ({
            let d = crate::laws::after(c, Write::UpsertGroup(group));
            crate::laws::after(d, Write::UpsertGroup(group)) == d
        }),
{
    let d = crate::laws::after(c, Write::UpsertGroup(group));
    let t = d.stored;
    assert(crate::model::with_group(t, group) =~= t);
    lemma_nothing_to_tell(t, group.id);
    assert(crate::model::group_updates(t, group) =~= seq![]);
    crate::model::lemma_told_nothing(d);
}

/// Law: upserting a group with its units a second time changes nothing and tells
/// nothing. A group that holds a NaN is left out.
pub proof fn law_repeated_group_with_units_is_not_told(c: CacheView, group: GroupView, units: Seq<UnitView>)
    requires
        crate::model::stored_wf(c.stored),
        crate::proto::joined_in_numbers(
            crate::model::joined(
                crate::laws::after(c, Write::UpsertGroupWithUnits(group, units)).stored,
                group.id,
            ),
        ),
    ensures
        ({
            let d = crate::laws::after(c, Write::UpsertGroupWithUnits(group, units));
            crate::laws::after(d, Write::UpsertGroupWithUnits(group, units)) == d
        }),
{
    let s = c.stored;
    let d = crate::laws::after(c, Write::UpsertGroupWithUnits(group, units));
    let t = d.stored;
    let listed = crate::model::listed_ids(units);
    let list = crate::model::adopted(units, group.id);
    let kept = crate::model::kept_units(s, group.id, listed);
    crate::laws::lemma_stored_wf(c, Write::UpsertGroupWithUnits(group, units));
    crate::model::lemma_regrouped(s, group.id, units, group.id);
    crate::model::lemma_adopted_ids(units, group.id);
    assert(crate::model::members_of(t, group.id) =~= crate::model::members_of(
        crate::model::regrouped(s, group.id, units),
        group.id,
    ));
    assert(crate::model::members_of(t, group.id).difference(listed) =~= Set::empty());
    assert(crate::model::kept_units(t, group.id, listed) =~= t.units);
    lemma_put_again(kept, list);
    assert(crate::model::with_group_units(t, group, units) =~= t);
    let donors = crate::model::donors(t, group.id, units);
    assert forall|h: Seq<char>| !donors.contains(h) by {
        crate::model::lemma_donor(t, group.id, units, h);
        assert forall|u: Seq<char>| #[trigger] listed.contains(u) implies t.units[u].group_id == group.id by {
            assert(crate::model::members_of(t, group.id).contains(u));
        }
    }
    let none = Seq::<Seq<char>>::empty();
    assert(crate::text::lists(none, donors));
    crate::text::lemma_listing(none, donors);
    assert(seq![group.id] + none =~= seq![group.id]);
    lemma_nothing_to_tell(t, group.id);
    assert(crate::model::group_units_updates(t, group, units) =~= seq![]);
    crate::model::lemma_told_nothing(d);
}

/// Putting a list of units in again changes nothing.
proof fn lemma_put_again(units: Map<Seq<char>, UnitView>, list: Seq<UnitView>)
    ensures
        crate::model::with_all(crate::model::with_all(units, list), list) == crate::model::with_all(units, list),
{
    let once = crate::model::with_all(units, list);
    let twice = crate::model::with_all(once, list);
    crate::model::lemma_with_all(units, list);
    crate::model::lemma_with_all(once, list);
    assert forall|u: Seq<char>| once.contains_key(u) implies twice[u] == once[u] by {
        if crate::model::listed_ids(list).contains(u) {
            lemma_put_alike(units, once, list, u);
        }
    }
    assert(twice =~= once);
}

/// What is found of a listed unit does not depend on what was there before.
proof fn lemma_put_alike(
    a: Map<Seq<char>, UnitView>,
    b: Map<Seq<char>, UnitView>,
    list: Seq<UnitView>,
    id: Seq<char>,
)
    requires
        crate::model::listed_ids(list).contains(id),
    ensures
        crate::model::with_all(a, list)[id] == crate::model::with_all(b, list)[id],
    decreases list.len(),
{
    crate::model::lemma_listed(list, id);
    let shorter = list.drop_last();
    assert(list =~= shorter.push(list.last()));
    crate::model::lemma_listed_push(shorter, list.last());
    if list.last().id != id {
        lemma_put_alike(a, b, shorter, id);
    }
}

/// There is nothing to tell of a group that did not change, unless it holds a
/// NaN.
proof fn lemma_nothing_to_tell(s: Stored, g: Seq<char>)
    requires
        crate::proto::joined_in_numbers(crate::model::joined(s, g)),
    ensures
        crate::model::changes(seq![g], s, s) == Seq::<GroupUpdateView>::empty(),
{
    crate::model::lemma_changes_one(g, s, s);
    if let Some(group) = crate::model::joined(s, g) {
        crate::proto::law_same_group_reflexive(group);
    }
}

} // verus!
