//! What the cache holds, what each write makes of it, and what subscribers are
//! told.

use vstd::prelude::*;

use crate::events::{GroupEventView, SimulationEventView};
use crate::proto::{
    GroupUpdateView, GroupView, LocationView, SimulationInfoView, SimulationStateUpdateView,
    UnitView,
};

verus! {

/// The units and the groups of the cache. A unit's `group_id` alone says which
/// group it belongs to.
#[verifier::ext_equal]
pub struct Stored {
    pub units: Map<Seq<char>, UnitView>,
    pub groups: Map<Seq<char>, GroupView>,
}

/// All that the cache holds, with the events that it has broadcast.
#[verifier::ext_equal]
pub struct CacheView {
    pub stored: Stored,
    pub simulation_info: Option<SimulationInfoView>,
    pub simulation_state: Option<SimulationStateUpdateView>,
    pub locations: Seq<LocationView>,
    pub sequence: nat,
    pub group_history: Seq<GroupEventView>,
    pub simulation_history: Seq<SimulationEventView>,
}

/// Units and groups are found under their own ids, and no group is stored with
/// units.
pub open spec fn stored_wf(s: Stored) -> bool {
    &&& s.units.dom().finite()
    &&& s.groups.dom().finite()
    &&& forall|u: Seq<char>| #[trigger] s.units.contains_key(u) ==> s.units[u].id == u
    &&& forall|g: Seq<char>| #[trigger]
        s.groups.contains_key(g) ==> s.groups[g].id == g && s.groups[g].units.len() == 0
}

/// The group events bear rising numbers up to `sequence`.
pub open spec fn groups_numbered(history: Seq<GroupEventView>, sequence: nat) -> bool {
    &&& forall|i: int| 0 <= i < history.len() ==> (#[trigger] history[i]).sequence <= sequence
    &&& forall|i: int, j: int|
        0 <= i < j < history.len() ==> (#[trigger] history[i]).sequence < (
        #[trigger] history[j]).sequence
}

/// The simulation events bear rising numbers up to `sequence`.
pub open spec fn simulation_numbered(history: Seq<SimulationEventView>, sequence: nat) -> bool {
    &&& forall|i: int| 0 <= i < history.len() ==> (#[trigger] history[i]).sequence <= sequence
    &&& forall|i: int, j: int|
        0 <= i < j < history.len() ==> (#[trigger] history[i]).sequence < (
        #[trigger] history[j]).sequence
}

/// The simulation state that subscribers were told last.
pub open spec fn last_told_state(history: Seq<SimulationEventView>) -> Option<SimulationStateUpdateView> {
    if history.len() == 0 {
        None
    } else {
        history.last().state
    }
}

/// What holds of the cache within a write.
pub open spec fn cache_numbered(c: CacheView) -> bool {
    &&& stored_wf(c.stored)
    &&& c.sequence <= u64::MAX
    &&& groups_numbered(c.group_history, c.sequence)
    &&& simulation_numbered(c.simulation_history, c.sequence)
}

/// What holds of the cache between writes.
pub open spec fn cache_wf(c: CacheView) -> bool {
    &&& cache_numbered(c)
    &&& c.simulation_state == last_told_state(c.simulation_history)
}

/// The ids of the units that belong to a group.
pub open spec fn members_of(s: Stored, group: Seq<char>) -> Set<Seq<char>> {
    s.units.dom().filter(|u: Seq<char>| s.units[u].group_id == group)
}

/// The units that belong to a group, in the order of their ids.
pub open spec fn member_units(s: Stored, group: Seq<char>) -> Seq<UnitView> {
    crate::text::listing(members_of(s, group)).map_values(|u: Seq<char>| s.units[u])
}

/// A group as it is read: its stored fields with its current members. `None`
/// where the group is not cached, whether or not it has members.
pub open spec fn joined(s: Stored, group: Seq<char>) -> Option<GroupView> {
    if s.groups.contains_key(group) {
        Some(GroupView { units: member_units(s, group), ..s.groups[group] })
    } else {
        None
    }
}

/// The two readings of a group are equal.
pub open spec fn same_joined(a: Option<GroupView>, b: Option<GroupView>) -> bool {
    match (a, b) {
        (Some(a), Some(b)) => crate::proto::same_group(a, b),
        (None, None) => true,
        _ => false,
    }
}

/// What subscribers are told of a group that was read as `before` and is now
/// read as `after`.
pub open spec fn change(id: Seq<char>, before: Option<GroupView>, after: Option<GroupView>) -> Seq<
    GroupUpdateView,
> {
    if same_joined(after, before) {
        seq![]
    } else {
        match after {
            Some(group) => seq![GroupUpdateView::Upserted(group)],
            None => seq![GroupUpdateView::RemovedId(id)],
        }
    }
}

/// What subscribers are told of the groups `ids`, in turn, when `old` became
/// `new`.
pub open spec fn changes(ids: Seq<Seq<char>>, old_stored: Stored, new_stored: Stored) -> Seq<GroupUpdateView>
    decreases ids.len(),
{
    if ids.len() == 0 {
        seq![]
    } else {
        changes(ids.drop_last(), old_stored, new_stored) + change(
            ids.last(),
            joined(old_stored, ids.last()),
            joined(new_stored, ids.last()),
        )
    }
}

/// The updates, numbered from the one after `sequence` on.
pub open spec fn numbered(sequence: nat, updates: Seq<GroupUpdateView>) -> Seq<GroupEventView> {
    Seq::new(
        updates.len(),
        |i: int| GroupEventView { sequence: (sequence + 1 + i) as nat, update: Some(updates[i]) },
    )
}

/// The cache after it has told subscribers `updates`.
pub open spec fn told(c: CacheView, updates: Seq<GroupUpdateView>) -> CacheView {
    CacheView {
        sequence: c.sequence + updates.len(),
        group_history: c.group_history + numbered(c.sequence, updates),
        ..c
    }
}

/// The cache with other units and groups, after it has told subscribers
/// `updates`.
pub open spec fn committed(c: CacheView, stored: Stored, updates: Seq<GroupUpdateView>) -> CacheView {
    told(CacheView { stored, ..c }, updates)
}

/// The cache has numbers left to tell `updates`. There are never more than `most`
/// of them, so that this many numbers are enough.
pub open spec fn has_numbers(c: CacheView, most: nat, updates: Seq<GroupUpdateView>) -> bool {
    c.sequence + most <= u64::MAX || c.sequence + updates.len() <= u64::MAX
}

/// A cache that holds nothing and has told nobody.
pub open spec fn empty_cache() -> CacheView {
    CacheView {
        stored: Stored { units: Map::empty(), groups: Map::empty() },
        simulation_info: None,
        simulation_state: None,
        locations: seq![],
        sequence: 0,
        group_history: seq![],
        simulation_history: seq![],
    }
}

/// The unit of an id.
pub open spec fn unit_at(s: Stored, id: Seq<char>) -> Option<UnitView> {
    if s.units.contains_key(id) {
        Some(s.units[id])
    } else {
        None
    }
}

/// The units and groups after a unit was upserted.
pub open spec fn with_unit(s: Stored, unit: UnitView) -> Stored {
    Stored { units: s.units.insert(unit.id, unit), ..s }
}

/// The groups whose reading an upsert of `unit` may change: its group, then the
/// one that it leaves.
pub open spec fn groups_of_unit(s: Stored, unit: UnitView) -> Seq<Seq<char>> {
    if s.units.contains_key(unit.id) && s.units[unit.id].group_id != unit.group_id {
        seq![unit.group_id, s.units[unit.id].group_id]
    } else {
        seq![unit.group_id]
    }
}

/// What is told of the upsert of a unit.
pub open spec fn unit_updates(s: Stored, unit: UnitView) -> Seq<GroupUpdateView> {
    changes(groups_of_unit(s, unit), s, with_unit(s, unit))
}

/// The units and groups after a unit was removed.
pub open spec fn without_unit(s: Stored, id: Seq<char>) -> Stored {
    Stored { units: s.units.remove(id), ..s }
}

/// What is told of the removal of a unit.
pub open spec fn unit_removal_updates(s: Stored, id: Seq<char>) -> Seq<GroupUpdateView> {
    if s.units.contains_key(id) {
        changes(seq![s.units[id].group_id], s, without_unit(s, id))
    } else {
        seq![]
    }
}

/// The group as it is stored: without units.
pub open spec fn bare(group: GroupView) -> GroupView {
    GroupView { units: seq![], ..group }
}

/// The units and groups after a group's own fields were upserted.
pub open spec fn with_group(s: Stored, group: GroupView) -> Stored {
    Stored { groups: s.groups.insert(group.id, bare(group)), ..s }
}

/// The removal that is told first when a group changes its side: a subscriber
/// that is filtered to the old side learns in no other way that the group no
/// longer matches.
pub open spec fn side_removal(s: Stored, group: GroupView) -> Seq<GroupUpdateView> {
    if s.groups.contains_key(group.id) && s.groups[group.id].side != group.side {
        seq![GroupUpdateView::RemovedId(group.id)]
    } else {
        seq![]
    }
}

/// What is told of the upsert of a group's own fields.
pub open spec fn group_updates(s: Stored, group: GroupView) -> Seq<GroupUpdateView> {
    side_removal(s, group) + changes(seq![group.id], s, with_group(s, group))
}

/// The units, each moved to `group`.
pub open spec fn adopted(units: Seq<UnitView>, group: Seq<char>) -> Seq<UnitView> {
    units.map_values(|u: UnitView| UnitView { group_id: group, ..u })
}

/// The ids of the units of a list.
pub open spec fn listed_ids(units: Seq<UnitView>) -> Set<Seq<char>> {
    units.map_values(|u: UnitView| u.id).to_set()
}

/// The map with every unit of the list put in, in turn.
pub open spec fn with_all(units: Map<Seq<char>, UnitView>, list: Seq<UnitView>) -> Map<Seq<char>, UnitView>
    decreases list.len(),
{
    if list.len() == 0 {
        units
    } else {
        with_all(units, list.drop_last()).insert(list.last().id, list.last())
    }
}

/// The units that stay when `group` gets the members `listed`: all but the
/// members that are not listed.
pub open spec fn kept_units(s: Stored, group: Seq<char>, listed: Set<Seq<char>>) -> Map<Seq<char>, UnitView> {
    s.units.remove_keys(members_of(s, group).difference(listed))
}

/// The units and groups after a group got new members.
pub open spec fn regrouped(s: Stored, group: Seq<char>, units: Seq<UnitView>) -> Stored {
    Stored {
        units: with_all(kept_units(s, group, listed_ids(units)), adopted(units, group)),
        ..s
    }
}

/// The units and groups after a group was upserted with its units.
pub open spec fn with_group_units(s: Stored, group: GroupView, units: Seq<UnitView>) -> Stored {
    with_group(regrouped(s, group.id, units), group)
}

/// The other groups that lose a unit of the list to `group`.
pub open spec fn donors(s: Stored, group: Seq<char>, units: Seq<UnitView>) -> Set<Seq<char>> {
    listed_ids(units).filter(
        |u: Seq<char>| s.units.contains_key(u) && s.units[u].group_id != group,
    ).map(|u: Seq<char>| s.units[u].group_id)
}

/// What is told of the upsert of a group with its units: of the group itself,
/// then of those that lost a unit to it.
pub open spec fn group_units_updates(s: Stored, group: GroupView, units: Seq<UnitView>) -> Seq<
    GroupUpdateView,
> {
    side_removal(s, group) + changes(
        seq![group.id] + crate::text::listing(donors(s, group.id, units)),
        s,
        with_group_units(s, group, units),
    )
}

/// The units and groups after a group was removed with its members.
pub open spec fn without_group(s: Stored, id: Seq<char>) -> Stored {
    Stored { units: s.units.remove_keys(members_of(s, id)), groups: s.groups.remove(id) }
}

/// The cache after a group was removed; one that is not cached is left alone.
pub open spec fn after_group_removal(c: CacheView, id: Seq<char>) -> CacheView {
    if c.stored.groups.contains_key(id) {
        committed(c, without_group(c.stored, id), seq![GroupUpdateView::RemovedId(id)])
    } else {
        c
    }
}

/// What is told of groups that are removed in turn.
pub open spec fn removals(ids: Seq<Seq<char>>) -> Seq<GroupUpdateView> {
    ids.map_values(|g: Seq<char>| GroupUpdateView::RemovedId(g))
}

/// What is told of the groups of a cache that is cleared.
pub open spec fn clear_updates(s: Stored) -> Seq<GroupUpdateView> {
    removals(crate::text::listing(s.groups.dom()))
}

/// The cache with another simulation state, after it has told subscribers of it.
pub open spec fn told_simulation(c: CacheView, state: Option<SimulationStateUpdateView>) -> CacheView {
    CacheView {
        simulation_state: state,
        sequence: c.sequence + 1,
        simulation_history: c.simulation_history.push(
            SimulationEventView { sequence: c.sequence + 1, state },
        ),
        ..c
    }
}

/// The cache after it was cleared: empty, but its numbers go on.
pub open spec fn cleared(c: CacheView) -> CacheView {
    told_simulation(
        told(
            CacheView {
                sequence: c.sequence,
                group_history: c.group_history,
                simulation_history: c.simulation_history,
                ..empty_cache()
            },
            clear_updates(c.stored),
        ),
        None,
    )
}

/// The side of the group that a unit belongs to matches the filter.
pub open spec fn unit_matches(s: Stored, side: Option<crate::proto::Side>, unit: UnitView) -> bool {
    match side {
        Some(side) => s.groups.contains_key(unit.group_id) && crate::proto::is_side(
            s.groups[unit.group_id].side,
            side,
        ),
        None => true,
    }
}

/// Which units pass a filter for a side and one for a group.
pub open spec fn unit_filter(
    s: Stored,
    side: Option<crate::proto::Side>,
    group: Option<Seq<char>>,
) -> spec_fn(UnitView) -> bool {
    |u: UnitView| (group is Some ==> u.group_id == group->0) && unit_matches(s, side, u)
}

/// The units that match the filters, in the order of their ids.
pub open spec fn listed_units(
    s: Stored,
    side: Option<crate::proto::Side>,
    group: Option<Seq<char>>,
) -> Seq<UnitView> {
    crate::text::listing(s.units.dom()).map_values(|u: Seq<char>| s.units[u]).filter(
        unit_filter(s, side, group),
    )
}

/// Which groups pass a filter for a side.
pub open spec fn group_filter(s: Stored, side: Option<crate::proto::Side>) -> spec_fn(Seq<char>) -> bool {
    |g: Seq<char>| crate::proto::side_matches(side, s.groups[g].side)
}

/// The groups `ids` as they are read.
pub open spec fn readings(s: Stored, ids: Seq<Seq<char>>) -> Seq<GroupView> {
    ids.map_values(|g: Seq<char>| joined(s, g)->0)
}

/// The groups that match the filter as they are read, in the order of their
/// ids.
pub open spec fn listed_groups(s: Stored, side: Option<crate::proto::Side>) -> Seq<GroupView> {
    readings(s, crate::text::listing(s.groups.dom()).filter(group_filter(s, side)))
}

/// The locations that match the filter, in their order.
pub open spec fn listed_locations(c: CacheView, side: Option<crate::proto::Side>) -> Seq<LocationView> {
    c.locations.filter(|l: LocationView| crate::proto::side_matches(side, l.owner))
}

/// A filter goes through a list from its start.
pub proof fn lemma_filter_take<A>(list: Seq<A>, pass: spec_fn(A) -> bool, n: int)
    requires
        0 <= n < list.len(),
    ensures
        list.take(n + 1).filter(pass) == if pass(list[n]) {
            list.take(n).filter(pass).push(list[n])
        } else {
            list.take(n).filter(pass)
        },
{
    reveal(Seq::filter);
    assert(list.take(n + 1).drop_last() =~= list.take(n));
    assert(list.take(n + 1).last() == list[n]);
}

/// What is told of one more group comes last.
pub proof fn lemma_changes_push(ids: Seq<Seq<char>>, id: Seq<char>, s: Stored, t: Stored)
    ensures
        changes(ids.push(id), s, t) == changes(ids, s, t) + change(id, joined(s, id), joined(t, id)),
{
    assert(ids.push(id).drop_last() =~= ids);
}

/// What is told of a single group.
pub proof fn lemma_changes_one(id: Seq<char>, s: Stored, t: Stored)
    ensures
        changes(seq![id], s, t) == change(id, joined(s, id), joined(t, id)),
{
    lemma_changes_push(seq![], id, s, t);
    assert(seq![id] =~= Seq::<Seq<char>>::empty().push(id));
    assert(changes(seq![id], s, t) =~= change(id, joined(s, id), joined(t, id)));
}

/// Telling updates in two parts is telling them at once.
pub proof fn lemma_told_twice(c: CacheView, a: Seq<GroupUpdateView>, b: Seq<GroupUpdateView>)
    ensures
        told(told(c, a), b) == told(c, a + b),
{
    assert(told(told(c, a), b) =~= told(c, a + b));
}

/// Telling nothing changes nothing.
pub proof fn lemma_told_nothing(c: CacheView)
    ensures
        told(c, seq![]) == c,
{
    assert(told(c, seq![]) =~= c);
}

/// The ids of a longer list.
pub proof fn lemma_listed_push(units: Seq<UnitView>, unit: UnitView)
    ensures
        listed_ids(units.push(unit)) == listed_ids(units).insert(unit.id),
{
    let by_id = |u: UnitView| u.id;
    assert(units.push(unit).map_values(by_id) =~= units.map_values(by_id).push(unit.id));
    units.map_values(by_id).lemma_push_to_set_commute(unit.id);
}

/// An id is listed when a unit of the list bears it.
pub proof fn lemma_listed(units: Seq<UnitView>, id: Seq<char>)
    ensures
        listed_ids(units).contains(id) <==> exists|i: int| 0 <= i < units.len() && (#[trigger] units[i]).id == id,
        listed_ids(units).finite(),
{
    let ids = units.map_values(|u: UnitView| u.id);
    vstd::seq_lib::seq_to_set_is_finite(ids);
    if listed_ids(units).contains(id) {
        let i = choose|i: int| 0 <= i < ids.len() && ids[i] == id;
        assert(units[i].id == id);
    }
    if exists|i: int| 0 <= i < units.len() && (#[trigger] units[i]).id == id {
        let i = choose|i: int| 0 <= i < units.len() && (#[trigger] units[i]).id == id;
        assert(ids[i] == id);
    }
}

/// Moving units to a group keeps their ids.
pub proof fn lemma_adopted_ids(units: Seq<UnitView>, group: Seq<char>)
    ensures
        listed_ids(adopted(units, group)) == listed_ids(units),
{
    assert(adopted(units, group).map_values(|u: UnitView| u.id) =~= units.map_values(|u: UnitView| u.id));
}

/// What a map holds after a list of units was put in.
pub proof fn lemma_with_all(units: Map<Seq<char>, UnitView>, list: Seq<UnitView>)
    ensures
        with_all(units, list).dom() == units.dom().union(listed_ids(list)),
        forall|u: Seq<char>|
            units.contains_key(u) && !listed_ids(list).contains(u) ==> #[trigger] with_all(units, list)[u] == units[u],
        forall|u: Seq<char>| #[trigger]
            listed_ids(list).contains(u) ==> with_all(units, list)[u].id == u && list.contains(
                with_all(units, list)[u],
            ),
    decreases list.len(),
{
    if list.len() == 0 {
        assert(listed_ids(list) =~= Set::empty());
        assert(with_all(units, list).dom() =~= units.dom().union(listed_ids(list)));
    } else {
        let shorter = list.drop_last();
        lemma_with_all(units, shorter);
        assert(list =~= shorter.push(list.last()));
        lemma_listed_push(shorter, list.last());
        assert(with_all(units, list).dom() =~= units.dom().union(listed_ids(list)));
        assert forall|u: Seq<char>| #[trigger] listed_ids(list).contains(u) implies with_all(units, list)[u].id == u
            && list.contains(with_all(units, list)[u]) by {
            if u == list.last().id {
                assert(list[list.len() - 1] == list.last());
            } else {
                let found = with_all(units, shorter)[u];
                let i = choose|i: int| 0 <= i < shorter.len() && shorter[i] == found;
                assert(list[i] == found);
            }
        }
    }
}

/// Who belongs to which group after a group got new members.
pub proof fn lemma_regrouped(s: Stored, group: Seq<char>, units: Seq<UnitView>, h: Seq<char>)
    requires
        stored_wf(s),
    ensures
        stored_wf(regrouped(s, group, units)),
        members_of(regrouped(s, group, units), h) == if h == group {
            listed_ids(units)
        } else {
            members_of(s, h).difference(listed_ids(units))
        },
{
    let t = regrouped(s, group, units);
    let kept = kept_units(s, group, listed_ids(units));
    let list = adopted(units, group);
    lemma_with_all(kept, list);
    lemma_adopted_ids(units, group);
    lemma_listed(units, h);
    assert(kept.dom() =~= s.units.dom().difference(members_of(s, group).difference(listed_ids(units))));
    assert forall|u: Seq<char>| #[trigger] t.units.contains_key(u) implies t.units[u].id == u && t.units[u].group_id
        == if listed_ids(units).contains(u) {
        group
    } else {
        s.units[u].group_id
    } by {
        if listed_ids(units).contains(u) {
            let i = choose|i: int| 0 <= i < list.len() && list[i] == t.units[u];
            assert(list[i].group_id == group);
        }
    }
    let expected = if h == group {
        listed_ids(units)
    } else {
        members_of(s, h).difference(listed_ids(units))
    };
    assert(members_of(t, h) =~= expected);
}

/// A group that loses a unit is one of the donors.
pub proof fn lemma_donor(s: Stored, group: Seq<char>, units: Seq<UnitView>, h: Seq<char>)
    ensures
        donors(s, group, units).contains(h) <==> exists|u: Seq<char>| #[trigger]
            listed_ids(units).contains(u) && s.units.contains_key(u) && s.units[u].group_id == h && h != group,
{
    let leaving = listed_ids(units).filter(
        |u: Seq<char>| s.units.contains_key(u) && s.units[u].group_id != group,
    );
    if donors(s, group, units).contains(h) {
        let u = choose|u: Seq<char>| leaving.contains(u) && h == s.units[u].group_id;
        assert(listed_ids(units).contains(u));
    }
    if exists|u: Seq<char>| #[trigger]
        listed_ids(units).contains(u) && s.units.contains_key(u) && s.units[u].group_id == h && h != group {
        let u = choose|u: Seq<char>| #[trigger]
            listed_ids(units).contains(u) && s.units.contains_key(u) && s.units[u].group_id == h && h != group;
        assert(leaving.contains(u));
    }
}

/// The donors of a longer list.
pub proof fn lemma_donors_push(s: Stored, group: Seq<char>, units: Seq<UnitView>, unit: UnitView)
    ensures
        donors(s, group, units.push(unit)) == if s.units.contains_key(unit.id) && s.units[unit.id].group_id
            != group {
            donors(s, group, units).insert(s.units[unit.id].group_id)
        } else {
            donors(s, group, units)
        },
{
    lemma_listed_push(units, unit);
    let longer = donors(s, group, units.push(unit));
    let expected = if s.units.contains_key(unit.id) && s.units[unit.id].group_id != group {
        donors(s, group, units).insert(s.units[unit.id].group_id)
    } else {
        donors(s, group, units)
    };
    assert forall|h: Seq<char>| longer.contains(h) <==> expected.contains(h) by {
        lemma_donor(s, group, units.push(unit), h);
        lemma_donor(s, group, units, h);
        if expected.contains(h) && donors(s, group, units).contains(h) {
            let u = choose|u: Seq<char>| #[trigger]
                listed_ids(units).contains(u) && s.units.contains_key(u) && s.units[u].group_id == h && h != group;
            assert(listed_ids(units.push(unit)).contains(u));
        }
        if expected.contains(h) && !donors(s, group, units).contains(h) {
            assert(listed_ids(units.push(unit)).contains(unit.id));
        }
        if longer.contains(h) {
            let u = choose|u: Seq<char>| #[trigger]
                listed_ids(units.push(unit)).contains(u) && s.units.contains_key(u) && s.units[u].group_id == h
                    && h != group;
            if u != unit.id {
                assert(listed_ids(units).contains(u));
            }
        }
    }
    assert(longer =~= expected);
}

/// Of fewer groups there is no more to tell.
pub proof fn lemma_changes_len(ids: Seq<Seq<char>>, n: int, s: Stored, t: Stored)
    requires
        0 <= n <= ids.len(),
    ensures
        changes(ids.take(n), s, t).len() <= changes(ids, s, t).len(),
    decreases ids.len() - n,
{
    if n < ids.len() {
        lemma_changes_len(ids, n + 1, s, t);
        assert(ids.take(n + 1) =~= ids.take(n).push(ids[n]));
        lemma_changes_push(ids.take(n), ids[n], s, t);
    } else {
        assert(ids.take(n) =~= ids);
    }
}

/// Only so many groups can lose a unit.
pub proof fn lemma_donors_finite(s: Stored, group: Seq<char>, units: Seq<UnitView>)
    ensures
        donors(s, group, units).finite(),
{
    lemma_listed(units, group);
    listed_ids(units).lemma_len_filter(
        |u: Seq<char>| s.units.contains_key(u) && s.units[u].group_id != group,
    );
    listed_ids(units).filter(
        |u: Seq<char>| s.units.contains_key(u) && s.units[u].group_id != group,
    ).lemma_map_finite(|u: Seq<char>| s.units[u].group_id);
}

/// What is told of some groups is at most one update for each.
pub proof fn lemma_changes_bound(
    ids: Seq<Seq<char>>,
    s: Stored,
    t: Stored,
)
    ensures
        changes(ids, s, t).len() <= ids.len(),
    decreases ids.len(),
{
    if ids.len() > 0 {
        lemma_changes_bound(ids.drop_last(), s, t);
    }
}

/// The groups that lose a unit are no more than the units.
pub proof fn lemma_donors_bound(
    s: Stored,
    group: Seq<char>,
    units: Seq<UnitView>,
)
    ensures
        crate::text::listing(donors(s, group, units)).len() <= units.len(),
{
    let donors = donors(s, group, units);
    let ids = crate::text::listing(donors);
    lemma_donors_finite(s, group, units);
    crate::text::lemma_listing_exists(donors);
    // Each of the groups is named by some unit of the list, each by another.
    let witness = |h: Seq<char>| choose|i: int|
        0 <= i < units.len() && s.units.contains_key((#[trigger] units[i]).id) && s.units[units[i].id].group_id == h;
    let places = ids.map_values(witness);
    assert forall|k: int| 0 <= k < ids.len() implies 0 <= #[trigger] places[k] < units.len()
        && s.units[units[places[k]].id].group_id == ids[k] by {
        let h = ids[k];
        assert(ids.contains(h));
        assert(donors.contains(h));
        lemma_donor(s, group, units, h);
        let u = choose|u: Seq<char>| #[trigger]
            listed_ids(units).contains(u) && s.units.contains_key(u) && s.units[u].group_id == h
                && h != group;
        lemma_listed(units, u);
        let i = choose|i: int| 0 <= i < units.len() && (#[trigger] units[i]).id == u;
        assert(s.units.contains_key(units[i].id) && s.units[units[i].id].group_id == h);
    }
    assert(places.no_duplicates()) by {
        assert forall|j: int, k: int| 0 <= j < k < places.len() implies places[j] != places[k] by {
            assert(crate::text::precedes(ids[j], ids[k]));
            crate::text::lemma_irreflexive(ids[j]);
        }
    }
    places.unique_seq_to_set();
    let all = vstd::set_lib::set_int_range(0, units.len() as int);
    vstd::set_lib::lemma_int_range(0, units.len() as int);
    assert(places.to_set().subset_of(all));
    vstd::set_lib::lemma_len_subset(places.to_set(), all);
}

} // verus!
