//! What each write does to what the cache holds, and what it leaves alone.

use vstd::prelude::*;

use crate::events::{GroupEventView, SimulationEventView};
use crate::laws::Write;
use crate::model::{CacheView, Stored};
use crate::proto::{
    GroupUpdateView, GroupView, LocationView, SimulationInfoView, SimulationStateUpdateView,
    UnitView,
};

verus! {

/// Nothing is known of the simulation or the places but what was known before, and
/// simulation subscribers were told nothing.
pub open spec fn simulation_untouched(c: CacheView, d: CacheView) -> bool {
    d.simulation_info == c.simulation_info && d.simulation_state == c.simulation_state && d.locations
        == c.locations && d.simulation_history == c.simulation_history
}

/// Law: a new cache holds nothing and has told nothing.
pub proof fn law_new_cache_holds_nothing(id: Seq<char>)
    ensures
        ({
            let c = crate::model::empty_cache();
            &&& !c.stored.units.contains_key(id)
            &&& !c.stored.groups.contains_key(id)
            &&& c.simulation_info is None
            &&& c.simulation_state is None
            &&& c.locations.len() == 0
            &&& c.sequence == 0
            &&& c.group_history.len() == 0
            &&& c.simulation_history.len() == 0
        }),
{
}

/// Law: upserting a unit stores that unit under its id, whole, and touches neither
/// any other unit nor any group.
pub proof fn law_upsert_unit_stores_just_that_unit(c: CacheView, unit: UnitView)
    ensures
        ({
            let d = crate::laws::after(c, Write::UpsertUnit(unit));
            &&& d.stored.units == c.stored.units.insert(unit.id, unit)
            &&& d.stored.groups == c.stored.groups
            &&& simulation_untouched(c, d)
        }),
{
}

/// Law: removing a unit takes that unit out and touches neither any other unit nor
/// any group: each group is read with the same fields of its own, and with the same
/// members but for that unit. Where there is no such unit nothing changes at all.
pub proof fn law_remove_unit_takes_out_just_that_unit(c: CacheView, id: Seq<char>, group: Seq<char>)
    requires
        crate::model::stored_wf(c.stored),
    ensures
        ({
            let d = crate::laws::after(c, Write::RemoveUnit(id));
            let before = crate::model::joined(c.stored, group);
            let now = crate::model::joined(d.stored, group);
            &&& d.stored.units == c.stored.units.remove(id)
            &&& d.stored.groups == c.stored.groups
            &&& simulation_untouched(c, d)
            &&& !c.stored.units.contains_key(id) ==> d == c
            &&& now is Some <==> before is Some
            &&& now is Some ==> {
                &&& now->0.id == before->0.id
                &&& now->0.side == before->0.side
                &&& now->0.readiness == before->0.readiness
                &&& now->0.has_task == before->0.has_task
                &&& now->0.waypoints == before->0.waypoints
                &&& forall|u: UnitView| #[trigger]
                    now->0.units.contains(u) <==> before->0.units.contains(u) && u.id != id
            }
        }),
{
    let d = crate::laws::after(c, Write::RemoveUnit(id));
    if !c.stored.units.contains_key(id) {
        assert(d.stored.units =~= c.stored.units);
        assert(d.stored =~= c.stored);
        crate::model::lemma_told_nothing(c);
    }
    if c.stored.groups.contains_key(group) {
        let now = crate::model::joined(d.stored, group)->0;
        let before = crate::model::joined(c.stored, group)->0;
        assert forall|u: UnitView| #[trigger] now.units.contains(u) <==> before.units.contains(u) && u.id != id by {
            law_group_is_read_with_its_members(d.stored, group, u);
            law_group_is_read_with_its_members(c.stored, group, u);
        }
    }
}

/// Law: upserting a group's fields stores them under its id, all but the units, and
/// touches neither any unit nor any other group.
pub proof fn law_upsert_group_stores_just_that_group(c: CacheView, group: GroupView)
    ensures
        ({
            let d = crate::laws::after(c, Write::UpsertGroup(group));
            &&& d.stored.units == c.stored.units
            &&& d.stored.groups.dom() == c.stored.groups.dom().insert(group.id)
            &&& forall|g: Seq<char>| g != group.id && c.stored.groups.contains_key(g) ==> #[trigger] d.stored.groups[g]
                == c.stored.groups[g]
            &&& stores_fields(d.stored.groups[group.id], group)
            &&& simulation_untouched(c, d)
        }),
{
}

/// The stored group has the fields of the message, and no units.
pub open spec fn stores_fields(stored: GroupView, message: GroupView) -> bool {
    stored.id == message.id && stored.side == message.side && stored.readiness == message.readiness
        && stored.has_task == message.has_task && stored.waypoints == message.waypoints
        && stored.units.len() == 0
}

/// Law: upserting a group with its units stores the group's fields under its id; each
/// unit of the list, the last of those that bear one id, whole but with the group's
/// id; drops every other unit of the group; and touches no other unit and no other
/// group's fields.
pub proof fn law_upsert_with_units_stores_group_and_units(
    c: CacheView,
    group: GroupView,
    units: Seq<UnitView>,
    id: Seq<char>,
)
    requires
        crate::model::stored_wf(c.stored),
    ensures
        ({
            let d = crate::laws::after(c, Write::UpsertGroupWithUnits(group, units));
            let listed = exists|i: int| 0 <= i < units.len() && (#[trigger] units[i]).id == id;
            let kept = c.stored.units.contains_key(id) && c.stored.units[id].group_id != group.id;
            &&& d.stored.groups.dom() == c.stored.groups.dom().insert(group.id)
            &&& forall|g: Seq<char>| g != group.id && c.stored.groups.contains_key(g) ==> #[trigger] d.stored.groups[g]
                == c.stored.groups[g]
            &&& stores_fields(d.stored.groups[group.id], group)
            &&& d.stored.units.contains_key(id) <==> listed || kept
            &&& !listed && kept ==> d.stored.units[id] == c.stored.units[id]
            &&& forall|k: int| #[trigger]
                crate::laws::reading::is_last_of_its_id(units, k) && units[k].id == id ==> {
                    &&& d.stored.units[id].id == id
                    &&& d.stored.units[id].group_id == group.id
                    &&& d.stored.units[id].category == units[k].category
                    &&& d.stored.units[id].kind == units[k].kind
                    &&& d.stored.units[id].state == units[k].state
                }
            &&& simulation_untouched(c, d)
        }),
{
    let s = c.stored;
    let t = crate::laws::after(c, Write::UpsertGroupWithUnits(group, units)).stored;
    crate::laws::reading::law_group_has_the_units_it_was_given(c, group, units, id, group.id);
    crate::model::lemma_listed(units, id);
    let kept = crate::model::kept_units(s, group.id, crate::model::listed_ids(units));
    crate::model::lemma_with_all(kept, crate::model::adopted(units, group.id));
    crate::model::lemma_adopted_ids(units, group.id);
    assert forall|k: int| #[trigger] crate::laws::reading::is_last_of_its_id(units, k) && units[k].id == id implies
        t.units[id] == (UnitView { group_id: group.id, ..units[k] }) by {
        crate::laws::reading::law_last_unit_of_an_id_counts(c, group, units, k);
    }
}

/// Law: removing a group takes out the group and every unit that names it, and
/// touches no other group and no other unit. Where there is no such group nothing
/// changes at all.
pub proof fn law_remove_group_takes_out_group_and_members(c: CacheView, id: Seq<char>, unit: Seq<char>)
    ensures
        ({
            let d = crate::laws::after(c, Write::RemoveGroup(id));
            let goes = c.stored.units.contains_key(unit) && c.stored.units[unit].group_id == id;
            &&& !c.stored.groups.contains_key(id) ==> d == c
            &&& c.stored.groups.contains_key(id) ==> {
                &&& d.stored.groups == c.stored.groups.remove(id)
                &&& d.stored.units.contains_key(unit) <==> c.stored.units.contains_key(unit) && !goes
                &&& d.stored.units.contains_key(unit) ==> d.stored.units[unit] == c.stored.units[unit]
                &&& d.group_history == c.group_history.push(
                    GroupEventView {
                        sequence: c.sequence + 1,
                        update: Some(GroupUpdateView::RemovedId(id)),
                    },
                )
                &&& d.sequence == c.sequence + 1
            }
            &&& simulation_untouched(c, d)
        }),
{
    let d = crate::laws::after(c, Write::RemoveGroup(id));
    if c.stored.groups.contains_key(id) {
        assert(d.group_history =~= c.group_history.push(
            GroupEventView { sequence: c.sequence + 1, update: Some(GroupUpdateView::RemovedId(id)) },
        ));
    }
}

/// Law: clearing takes everything out; each group that was there is told of as
/// removed, once and none other; and simulation subscribers are told, last, that
/// there is no state.
pub proof fn law_clear_takes_out_everything(c: CacheView, group: Seq<char>)
    requires
        crate::model::stored_wf(c.stored),
    ensures
        ({
            let d = crate::laws::after(c, Write::Clear);
            let n = c.group_history.len();
            &&& d.stored.units.dom() == Set::<Seq<char>>::empty()
            &&& d.stored.groups.dom() == Set::<Seq<char>>::empty()
            &&& d.simulation_info is None
            &&& d.simulation_state is None
            &&& d.locations.len() == 0
            &&& d.group_history.len() == n + c.stored.groups.dom().len()
            &&& d.group_history.take(n as int) == c.group_history
            &&& c.stored.groups.contains_key(group) <==> exists|i: int|
                n <= i < d.group_history.len() && (#[trigger] d.group_history[i]).update == Some(
                    GroupUpdateView::RemovedId(group),
                )
            &&& d.sequence == c.sequence + c.stored.groups.dom().len() + 1
            &&& d.simulation_history == c.simulation_history.push(
                SimulationEventView { sequence: d.sequence, state: None },
            )
        }),
{
    let d = crate::laws::after(c, Write::Clear);
    let n = c.group_history.len() as int;
    let ids = crate::text::listing(c.stored.groups.dom());
    crate::text::lemma_listing_exists(c.stored.groups.dom());
    assert(ids.no_duplicates()) by {
        assert forall|i: int, j: int| 0 <= i < ids.len() && 0 <= j < ids.len() && i != j implies ids[i] != ids[j] by {
            crate::text::lemma_irreflexive(ids[i]);
            if i < j {
                assert(crate::text::precedes(ids[i], ids[j]));
            } else {
                assert(crate::text::precedes(ids[j], ids[i]));
            }
        }
    }
    ids.unique_seq_to_set();
    assert(ids.to_set() =~= c.stored.groups.dom());
    assert(d.group_history.take(n) =~= c.group_history);
    assert forall|i: int| n <= i < d.group_history.len() implies (#[trigger] d.group_history[i]).update == Some(
        GroupUpdateView::RemovedId(ids[i - n]),
    ) by {}
    if c.stored.groups.contains_key(group) {
        assert(c.stored.groups.dom().contains(group));
        let k = choose|k: int| 0 <= k < ids.len() && ids[k] == group;
        assert(d.group_history[n + k].update == Some(GroupUpdateView::RemovedId(ids[n + k - n])));
    }
    if exists|i: int|
        n <= i < d.group_history.len() && (#[trigger] d.group_history[i]).update == Some(
            GroupUpdateView::RemovedId(group),
        ) {
        let i = choose|i: int|
            n <= i < d.group_history.len() && (#[trigger] d.group_history[i]).update == Some(
                GroupUpdateView::RemovedId(group),
            );
        assert(ids.contains(ids[i - n]));
        assert(c.stored.groups.dom().contains(group));
    }
}

/// Law: a simulation state replaces the one before it, whole, whatever that was, and
/// just that state is told to simulation subscribers. Nothing else changes.
pub proof fn law_simulation_state_is_replaced(c: CacheView, state: SimulationStateUpdateView)
    ensures
        ({
            let d = crate::laws::after(c, Write::SetSimulationState(state));
            &&& d.simulation_state == Some(state)
            &&& d.sequence == c.sequence + 1
            &&& d.simulation_history == c.simulation_history.push(
                SimulationEventView { sequence: c.sequence + 1, state: Some(state) },
            )
            &&& d.stored == c.stored
            &&& d.simulation_info == c.simulation_info
            &&& d.locations == c.locations
            &&& d.group_history == c.group_history
        }),
{
}

/// Law: of two simulation states that are set in turn, the second is left, as if the
/// first had never been set.
pub proof fn law_only_the_last_simulation_state_counts(
    c: CacheView,
    first: SimulationStateUpdateView,
    second: SimulationStateUpdateView,
)
    ensures
        crate::laws::after(
            crate::laws::after(c, Write::SetSimulationState(first)),
            Write::SetSimulationState(second),
        ).simulation_state == crate::laws::after(c, Write::SetSimulationState(second)).simulation_state,
{
}

/// Law: the simulation info replaces the one before it, whole; nothing else changes
/// and nothing is told.
pub proof fn law_simulation_info_is_replaced(c: CacheView, info: SimulationInfoView)
    ensures
        ({
            let d = crate::laws::after(c, Write::SetSimulationInfo(info));
            &&& d.simulation_info == Some(info)
            &&& d.stored == c.stored
            &&& d.simulation_state == c.simulation_state
            &&& d.locations == c.locations
            &&& d.sequence == c.sequence
            &&& d.group_history == c.group_history
            &&& d.simulation_history == c.simulation_history
        }),
{
}

/// Law: the locations replace those before them, in their order; nothing else changes
/// and nothing is told.
pub proof fn law_locations_are_replaced(c: CacheView, locations: Seq<LocationView>)
    ensures
        ({
            let d = crate::laws::after(c, Write::SetLocations(locations));
            &&& d.locations == locations
            &&& d.stored == c.stored
            &&& d.simulation_info == c.simulation_info
            &&& d.simulation_state == c.simulation_state
            &&& d.sequence == c.sequence
            &&& d.group_history == c.group_history
            &&& d.simulation_history == c.simulation_history
        }),
{
}

/// Law: a unit is read as it is stored.
pub proof fn law_unit_is_read_as_stored(s: Stored, id: Seq<char>)
    ensures
        crate::model::unit_at(s, id) is Some <==> s.units.contains_key(id),
        s.units.contains_key(id) ==> crate::model::unit_at(s, id) == Some(s.units[id]),
{
}

/// Law: a group is read if it is stored, with the fields that are stored, and with
/// the units that name it, each whole, in the order of their ids, and no others.
pub proof fn law_group_is_read_with_its_members(s: Stored, group: Seq<char>, unit: UnitView)
    requires
        crate::model::stored_wf(s),
    ensures
        ({
            let read = crate::model::joined(s, group);
            &&& read is Some <==> s.groups.contains_key(group)
            &&& read is Some ==> {
                &&& read->0.id == s.groups[group].id
                &&& read->0.side == s.groups[group].side
                &&& read->0.readiness == s.groups[group].readiness
                &&& read->0.has_task == s.groups[group].has_task
                &&& read->0.waypoints == s.groups[group].waypoints
                &&& read->0.units.contains(unit) <==> {
                    &&& s.units.contains_key(unit.id)
                    &&& s.units[unit.id] == unit
                    &&& unit.group_id == group
                }
                &&& forall|i: int, j: int|
                    0 <= i < j < read->0.units.len() ==> crate::text::precedes(
                        (#[trigger] read->0.units[i]).id,
                        (#[trigger] read->0.units[j]).id,
                    )
            }
        }),
{
    let members = s.units.dom().filter(|u: Seq<char>| s.units[u].group_id == group);
    let ids = crate::text::listing(members);
    crate::text::lemma_listing_exists(members);
    if s.groups.contains_key(group) {
        let units = crate::model::joined(s, group)->0.units;
        assert forall|i: int| 0 <= i < ids.len() implies s.units.contains_key(#[trigger] ids[i])
            && s.units[ids[i]].group_id == group && units[i] == s.units[ids[i]] by {
            assert(ids.contains(ids[i]));
            assert(members.contains(ids[i]));
        }
        if units.contains(unit) {
            let i = choose|i: int| 0 <= i < units.len() && units[i] == unit;
            assert(s.units.contains_key(ids[i]));
        }
        if s.units.contains_key(unit.id) && s.units[unit.id] == unit && unit.group_id == group {
            assert(members.contains(unit.id));
            let i = choose|i: int| 0 <= i < ids.len() && ids[i] == unit.id;
            assert(units[i] == unit);
        }
        assert forall|i: int, j: int| 0 <= i < j < units.len() implies crate::text::precedes(
            (#[trigger] units[i]).id,
            (#[trigger] units[j]).id,
        ) by {
            assert(s.units.contains_key(ids[i]) && s.units.contains_key(ids[j]));
            assert(crate::text::precedes(ids[i], ids[j]));
        }
    }
}

/// Law: texts are ordered as `str` orders them: at the first place where they differ
/// the smaller character decides, and a text comes before what it begins.
pub proof fn law_texts_are_ordered_by_characters(a: Seq<char>, b: Seq<char>)
    ensures
        crate::text::precedes(a, b) <==> exists|k: int| #[trigger] first_difference(a, b, k) && (k == a.len()
            || (k < b.len() && a[k] < b[k])) && k < b.len(),
    decreases a.len(),
{
    if a.len() > 0 && b.len() > 0 && a[0] == b[0] {
        let x = a.drop_first();
        let y = b.drop_first();
        law_texts_are_ordered_by_characters(x, y);
        if crate::text::precedes(a, b) {
            let k = choose|k: int| #[trigger] first_difference(x, y, k) && (k == x.len() || (k < y.len() && x[k]
                < y[k])) && k < y.len();
            assert forall|i: int| 0 <= i < k + 1 implies a[i] == b[i] by {
                if i > 0 {
                    assert(x[i - 1] == y[i - 1]);
                }
            }
            assert(first_difference(a, b, k + 1));
        }
        if exists|k: int| #[trigger] first_difference(a, b, k) && (k == a.len() || (k < b.len() && a[k] < b[k]))
            && k < b.len() {
            let k = choose|k: int| #[trigger] first_difference(a, b, k) && (k == a.len() || (k < b.len() && a[k]
                < b[k])) && k < b.len();
            assert(k > 0);
            assert forall|i: int| 0 <= i < k - 1 implies x[i] == y[i] by {
                assert(a[i + 1] == b[i + 1]);
            }
            assert(first_difference(x, y, k - 1));
        }
    } else if crate::text::precedes(a, b) {
        assert(first_difference(a, b, 0));
    } else if exists|k: int| #[trigger] first_difference(a, b, k) && (k == a.len() || (k < b.len() && a[k] < b[k]))
        && k < b.len() {
        let k = choose|k: int| #[trigger] first_difference(a, b, k) && (k == a.len() || (k < b.len() && a[k] < b[k]))
            && k < b.len();
        if k > 0 {
            assert(a[0] == b[0]);
        }
    }
}

/// The two texts agree up to `k`, where one ends or they differ.
pub open spec fn first_difference(a: Seq<char>, b: Seq<char>, k: int) -> bool {
    &&& 0 <= k <= a.len() && k <= b.len()
    &&& forall|i: int| 0 <= i < k ==> #[trigger] a[i] == b[i]
    &&& k == a.len() || k == b.len() || a[k] != b[k]
}

} // verus!
