//! The state cache: what the engine reported last, and who is told of it.

use tokio::sync::broadcast;
use vstd::prelude::*;

use crate::events::{
    broadcast_group, broadcast_simulation, group_channel, simulation_channel, subscribe_groups,
    subscribe_simulation, GroupEvent, SimulationEvent,
};
use crate::ids::{GroupId, UnitId};
use crate::model::{CacheView, Stored};
use crate::proto::{
    copy_state, passes_side, Group, GroupUpdate, GroupUpdateView, GroupView, Location, LocationView, Side, SimulationInfo,
    SimulationInfoView, SimulationStateUpdate, SubscribeGroupUpdatesResponse,
    SubscribeSimulationUpdatesResponse, Unit, UnitView,
};
use crate::table::{IdSet, IdTable};
use crate::text::{place, Place};

verus! {

/// Number of buffered messages per update stream before a slow subscriber
/// starts missing them. A subscriber that lags is aborted rather than silently
/// skipped, since the server can no longer tell it how much it missed. So this
/// bounds how much a brief stall costs it (a resubscribe), not whether it stays
/// correct.
pub const BROADCAST_CAPACITY: usize = 256;

/// The view of a group that may be missing.
pub open spec fn group_view(group: Option<Group>) -> Option<GroupView> {
    match group {
        Some(group) => Some(group@),
        None => None,
    }
}

/// The view of a unit that may be missing.
pub open spec fn unit_view(unit: Option<Unit>) -> Option<UnitView> {
    match unit {
        Some(unit) => Some(unit@),
        None => None,
    }
}

/// The view of a simulation info that may be missing.
pub open spec fn info_view(info: Option<SimulationInfo>) -> Option<SimulationInfoView> {
    match info {
        Some(info) => Some(info@),
        None => None,
    }
}

/// What an index holds for a group.
pub open spec fn indexed(members: Map<Seq<char>, Set<Seq<char>>>, group: Seq<char>) -> Set<Seq<char>> {
    if members.contains_key(group) {
        members[group]
    } else {
        Set::empty()
    }
}

/// The index says of every group which units belong to it.
pub open spec fn index_wf(members: Map<Seq<char>, Set<Seq<char>>>, s: Stored) -> bool {
    forall|g: Seq<char>| #[trigger] indexed(members, g) == crate::model::members_of(s, g)
}

/// The index after a unit was taken out of a group; an emptied entry goes.
pub open spec fn unlinked(
    members: Map<Seq<char>, Set<Seq<char>>>,
    group: Seq<char>,
    unit: Seq<char>,
) -> Map<Seq<char>, Set<Seq<char>>> {
    if !members.contains_key(group) {
        members
    } else if members[group].remove(unit) == Set::<Seq<char>>::empty() {
        members.remove(group)
    } else {
        members.insert(group, members[group].remove(unit))
    }
}

/// The cached messages and the index over them.
struct Inner {
    units: IdTable<Unit>,
    groups: IdTable<Group>,
    /// Which units currently belong to each group. Derived from the units'
    /// `group_id` and kept in sync on every write that touches membership.
    members: IdTable<IdSet>,
    simulation_info: Option<SimulationInfo>,
    simulation_state: Option<SimulationStateUpdate>,
    locations: Vec<Location>,
    /// Bumped on every mutation of a group or of the simulation state (not of
    /// units, info or locations, which cannot be subscribed to).
    sequence: u64,
}

impl Inner {
    spec fn stored(&self) -> Stored {
        Stored { units: self.units@, groups: self.groups@ }
    }

    spec fn wf(&self) -> bool {
        &&& crate::model::stored_wf(self.stored())
        &&& index_wf(self.members@, self.stored())
    }

    fn new(sequence: u64) -> (inner: Self)
        ensures
            inner.wf(),
            inner.stored() == crate::model::empty_cache().stored,
            inner.simulation_info is None,
            inner.simulation_state is None,
            inner.locations@.len() == 0,
            inner.sequence == sequence,
    {
        let inner = Inner {
            units: IdTable::new(),
            groups: IdTable::new(),
            members: IdTable::new(),
            simulation_info: None,
            simulation_state: None,
            locations: Vec::new(),
            sequence,
        };
        proof {
            assert forall|g: Seq<char>| #[trigger]
                indexed(inner.members@, g) == crate::model::members_of(inner.stored(), g) by {
                assert(crate::model::members_of(inner.stored(), g) =~= Set::empty());
            }
        }
        inner
    }

    fn next_sequence(&mut self) -> (sequence: u64)
        requires
            old(self).sequence < u64::MAX,
        ensures
            sequence == old(self).sequence + 1,
            *final(self) == (Inner { sequence, ..*old(self) }),
    {
        self.sequence = self.sequence + 1;
        self.sequence
    }

    /// The group's stored fields joined with its current members, or `None` if
    /// the group isn't cached (regardless of whether it has members).
    fn joined_group(&self, id: &str) -> (group: Option<Group>)
        requires
            self.wf(),
        ensures
            group_view(group) == crate::model::joined(self.stored(), id@),
    {
        match self.groups.get(id) {
            Some(group) => {
                let mut group = group.clone();
                group.units = self.member_units(id);
                Some(group)
            },
            None => None,
        }
    }

    /// The units that belong to a group, in the order of their ids.
    fn member_units(&self, id: &str) -> (units: Vec<Unit>)
        requires
            self.wf(),
        ensures
            crate::proto::units_view(units@) == crate::model::member_units(self.stored(), id@),
    {
        let ghost s = self.stored();
        let ghost by_id = |u: Seq<char>| s.units[u];
        let mut units: Vec<Unit> = Vec::new();
        assert(indexed(self.members@, id@) == crate::model::members_of(s, id@));
        match self.members.get(id) {
            Some(members) => {
                let count: usize = members.len();
                let ghost ids = members.ids();
                let mut i: usize = 0;
                while i < count
                    invariant
                        i <= count,
                        count == ids.len(),
                        ids == members.ids(),
                        s == self.stored(),
                        by_id == (|u: Seq<char>| s.units[u]),
                        crate::text::lists(ids, crate::model::members_of(s, id@)),
                        crate::proto::units_view(units@) == ids.take(i as int).map_values(by_id),
                    decreases count - i,
                {
                    let unit_id = members.id_at(i);
                    assert(ids.contains(ids[i as int]));
                    assert(crate::model::members_of(s, id@).contains(ids[i as int]));
                    if let Some(unit) = self.units.get(unit_id) {
                        let ghost before = units@;
                        units.push(unit.clone());
                        assert(crate::proto::units_view(units@) =~= crate::proto::units_view(before).push(
                            s.units[ids[i as int]],
                        ));
                        assert(ids.take(i + 1).map_values(by_id) =~= ids.take(i as int).map_values(by_id).push(
                            s.units[ids[i as int]],
                        ));
                    }
                    i = i + 1;
                }
                assert(ids.take(count as int) =~= ids);
            },
            None => {
                proof {
                    crate::text::lemma_listing(Seq::empty(), crate::model::members_of(s, id@));
                    assert(crate::proto::units_view(units@) =~= crate::model::member_units(s, id@));
                }
            },
        }
        units
    }

    /// The side of the group that a unit belongs to.
    fn unit_side(&self, unit: &Unit) -> (side: Option<Side>)
        ensures
            match side {
                Some(side) => self.groups@.contains_key(unit@.group_id) && crate::proto::is_side(
                    self.groups@[unit@.group_id].side,
                    side,
                ),
                None => self.groups@.contains_key(unit@.group_id) ==> forall|side: Side|
                    !crate::proto::is_side(self.groups@[unit@.group_id].side, side),
            },
    {
        match self.groups.get(unit.group_id.as_str()) {
            Some(group) => match Side::try_from(group.side) {
                Ok(side) => Some(side),
                Err(_) => None,
            },
            None => None,
        }
    }

    /// Detaches a unit from a group's member set, dropping the set entirely once
    /// it's empty so an emptied-out group doesn't leak a forever-empty entry.
    fn unlink_member(&mut self, group_id: &str, unit_id: &str)
        ensures
            final(self).members@ == unlinked(old(self).members@, group_id@, unit_id@),
            *final(self) == (Inner { members: final(self).members, ..*old(self) }),
    {
        let ghost before = self.members@;
        if let Some(mut members) = self.members.remove(group_id) {
            members.remove(unit_id);
            if !members.is_empty() {
                self.members.insert(group_id.to_owned(), members);
                assert(self.members@ =~= before.insert(group_id@, before[group_id@].remove(unit_id@)));
            }
        }
    }

    /// Attaches a unit to a group's member set.
    fn link_member(&mut self, group_id: &str, unit_id: &str)
        ensures
            final(self).members@ == old(self).members@.insert(
                group_id@,
                indexed(old(self).members@, group_id@).insert(unit_id@),
            ),
            *final(self) == (Inner { members: final(self).members, ..*old(self) }),
    {
        let ghost before = self.members@;
        let mut members = match self.members.remove(group_id) {
            Some(members) => members,
            None => IdSet::new(),
        };
        members.insert(unit_id.to_owned());
        self.members.insert(group_id.to_owned(), members);
        assert(self.members@ =~= before.insert(group_id@, indexed(before, group_id@).insert(unit_id@)));
    }
}

/// A group as it was read before a write.
struct Reading {
    group: Option<Group>,
}

impl View for Reading {
    type V = Option<GroupView>;

    closed spec fn view(&self) -> Option<GroupView> {
        group_view(self.group)
    }
}

/// Moves every unit of the list to a group.
fn adopt(units: &mut Vec<Unit>, group_id: &str)
    ensures
        crate::proto::units_view(final(units)@) == crate::model::adopted(
            crate::proto::units_view(old(units)@),
            group_id@,
        ),
{
    let ghost before = crate::proto::units_view(units@);
    let ghost after = crate::model::adopted(before, group_id@);
    let count: usize = units.len();
    let mut i: usize = 0;
    while i < count
        invariant
            i <= count,
            count == units@.len(),
            count == before.len(),
            after == crate::model::adopted(before, group_id@),
            forall|k: int| 0 <= k < i ==> (#[trigger] units@[k])@ == after[k],
            forall|k: int| i <= k < count ==> (#[trigger] units@[k])@ == before[k],
        decreases count - i,
    {
        units[i].group_id = group_id.to_owned();
        i = i + 1;
    }
    assert(crate::proto::units_view(units@) =~= after);
}

/// The ids of the units of a list.
fn ids_of(units: &Vec<Unit>) -> (ids: IdSet)
    ensures
        ids@ == crate::model::listed_ids(crate::proto::units_view(units@)),
{
    let ghost views = crate::proto::units_view(units@);
    let mut ids = IdSet::new();
    let mut i: usize = 0;
    proof {
        assert(crate::model::listed_ids(views.take(0)) =~= Set::empty());
    }
    while i < units.len()
        invariant
            i <= units@.len(),
            views == crate::proto::units_view(units@),
            ids@ == crate::model::listed_ids(views.take(i as int)),
        decreases units@.len() - i,
    {
        ids.insert(units[i].id.clone());
        proof {
            crate::model::lemma_listed_push(views.take(i as int), views[i as int]);
            assert(views.take(i + 1) =~= views.take(i as int).push(views[i as int]));
        }
        i = i + 1;
    }
    assert(views.take(i as int) =~= views);
    ids
}

impl Inner {
    /// Reads every other group that will lose a unit of the list to `group_id`.
    fn read_donors(&self, units: &Vec<Unit>, group_id: &String) -> (readings: IdTable<Reading>)
        requires
            self.wf(),
        ensures
            readings@.dom() == crate::model::donors(
                self.stored(),
                group_id@,
                crate::proto::units_view(units@),
            ),
            forall|h: Seq<char>| #[trigger]
                readings@.contains_key(h) ==> readings@[h] == crate::model::joined(self.stored(), h),
    {
        let ghost s = self.stored();
        let ghost views = crate::proto::units_view(units@);
        let mut readings: IdTable<Reading> = IdTable::new();
        let mut i: usize = 0;
        proof {
            assert(crate::model::donors(s, group_id@, views.take(0)) =~= Set::empty()) by {
                assert forall|h: Seq<char>| !crate::model::donors(s, group_id@, views.take(0)).contains(h) by {
                    crate::model::lemma_donor(s, group_id@, views.take(0), h);
                    assert forall|u: Seq<char>| !crate::model::listed_ids(views.take(0)).contains(u) by {
                        crate::model::lemma_listed(views.take(0), u);
                    }
                }
            }
            assert(readings@.dom() =~= Set::empty());
        }
        while i < units.len()
            invariant
                i <= units@.len(),
                self.wf(),
                s == self.stored(),
                views == crate::proto::units_view(units@),
                readings@.dom() == crate::model::donors(s, group_id@, views.take(i as int)),
                forall|h: Seq<char>| #[trigger]
                    readings@.contains_key(h) ==> readings@[h] == crate::model::joined(s, h),
            decreases units@.len() - i,
        {
            proof {
                crate::model::lemma_donors_push(s, group_id@, views.take(i as int), views[i as int]);
                assert(views.take(i + 1) =~= views.take(i as int).push(views[i as int]));
            }
            let ghost before = readings@;
            if let Some(existing) = self.units.get(units[i].id.as_str()) {
                if existing.group_id != *group_id {
                    let previous_group = existing.group_id.clone();
                    if !readings.contains_key(previous_group.as_str()) {
                        let group = self.joined_group(previous_group.as_str());
                        readings.insert(previous_group, Reading { group });
                    }
                    assert(readings@.dom() =~= before.dom().insert(existing@.group_id));
                }
            }
            i = i + 1;
        }
        assert(views.take(i as int) =~= views);
        readings
    }

    /// Drops the members of a group that are not listed.
    fn drop_unlisted(&mut self, group_id: &str, listed: &IdSet)
        requires
            old(self).wf(),
        ensures
            final(self).units@ == crate::model::kept_units(old(self).stored(), group_id@, listed@),
            *final(self) == (Inner { units: final(self).units, ..*old(self) }),
    {
        let ghost s = self.stored();
        let ghost members = crate::model::members_of(s, group_id@);
        assert(indexed(self.members@, group_id@) == members);
        let mut units: IdTable<Unit> = IdTable::new();
        std::mem::swap(&mut units, &mut self.units);
        match self.members.get(group_id) {
            Some(old_ids) => {
                let count: usize = old_ids.len();
                let ghost ids = old_ids.ids();
                let mut i: usize = 0;
                assert(s.units.remove_keys(Set::<Seq<char>>::empty()) =~= s.units);
                assert(ids.take(0).to_set().difference(listed@) =~= Set::empty());
                while i < count
                    invariant
                        i <= count,
                        count == ids.len(),
                        ids == old_ids.ids(),
                        units@ == s.units.remove_keys(ids.take(i as int).to_set().difference(listed@)),
                    decreases count - i,
                {
                    let id = old_ids.id_at(i);
                    let ghost gone = ids.take(i as int).to_set();
                    proof {
                        assert(ids.take(i + 1) =~= ids.take(i as int).push(id@));
                        ids.take(i as int).lemma_push_to_set_commute(id@);
                    }
                    if !listed.contains(id) {
                        units.remove(id);
                        assert(gone.insert(id@).difference(listed@) =~= gone.difference(listed@).insert(id@));
                        assert(units@ =~= s.units.remove_keys(gone.insert(id@).difference(listed@)));
                    } else {
                        assert(gone.insert(id@).difference(listed@) =~= gone.difference(listed@));
                    }
                    i = i + 1;
                }
                assert(ids.take(i as int) =~= ids);
                assert(ids.to_set() =~= members);
            },
            None => {
                assert(members.difference(listed@) =~= Set::empty());
                assert(units@ =~= crate::model::kept_units(s, group_id@, listed@));
            },
        }
        self.units = units;
    }

    /// Removes every unit of a set.
    fn remove_units(&mut self, ids: &IdSet)
        ensures
            final(self).units@ == old(self).units@.remove_keys(ids@),
            *final(self) == (Inner { units: final(self).units, ..*old(self) }),
    {
        let ghost before = *self;
        let count: usize = ids.len();
        let ghost list = ids.ids();
        let mut i: usize = 0;
        assert(list.take(0).to_set() =~= Set::empty());
        assert(self.units@ =~= before.units@.remove_keys(list.take(0).to_set()));
        while i < count
            invariant
                i <= count,
                count == list.len(),
                list == ids.ids(),
                *self == (Inner { units: self.units, ..before }),
                self.units@ == before.units@.remove_keys(list.take(i as int).to_set()),
            decreases count - i,
        {
            let id = ids.id_at(i);
            self.units.remove(id);
            proof {
                assert(list.take(i + 1) =~= list.take(i as int).push(id@));
                list.take(i as int).lemma_push_to_set_commute(id@);
                assert(self.units@ =~= before.units@.remove_keys(list.take(i + 1).to_set()));
            }
            i = i + 1;
        }
        assert(list.take(i as int) =~= list);
        assert(list.to_set() =~= ids@);
    }

    /// Detaches every unit of the list from the group where it used to belong,
    /// if that is not `group_id`.
    fn detach(&mut self, units: &Vec<Unit>, group_id: &String)
        requires
            forall|h: Seq<char>|
                h != group_id@ ==> #[trigger] indexed(old(self).members@, h) == crate::model::members_of(
                    old(self).stored(),
                    h,
                ),
        ensures
            forall|h: Seq<char>|
                h != group_id@ ==> #[trigger] indexed(final(self).members@, h) == indexed(
                    old(self).members@,
                    h,
                ).difference(crate::model::listed_ids(crate::proto::units_view(units@))),
            *final(self) == (Inner { members: final(self).members, ..*old(self) }),
    {
        let ghost before = *self;
        let ghost s = self.stored();
        let ghost views = crate::proto::units_view(units@);
        let mut i: usize = 0;
        proof {
            assert(crate::model::listed_ids(views.take(0)) =~= Set::empty());
            assert forall|h: Seq<char>| h != group_id@ implies #[trigger] indexed(self.members@, h) == indexed(
                before.members@,
                h,
            ).difference(crate::model::listed_ids(views.take(0))) by {
                assert(indexed(self.members@, h) =~= indexed(before.members@, h).difference(
                    crate::model::listed_ids(views.take(0)),
                ));
            }
        }
        while i < units.len()
            invariant
                i <= units@.len(),
                views == crate::proto::units_view(units@),
                s == before.stored(),
                *self == (Inner { members: self.members, ..before }),
                forall|h: Seq<char>|
                    h != group_id@ ==> #[trigger] indexed(before.members@, h) == crate::model::members_of(s, h),
                forall|h: Seq<char>|
                    h != group_id@ ==> #[trigger] indexed(self.members@, h) == indexed(
                        before.members@,
                        h,
                    ).difference(crate::model::listed_ids(views.take(i as int))),
            decreases units@.len() - i,
        {
            let ghost index = self.members@;
            let ghost listed = crate::model::listed_ids(views.take(i as int));
            let ghost id = views[i as int].id;
            let previous: Option<String> = match self.units.get(units[i].id.as_str()) {
                Some(existing) => if existing.group_id != *group_id {
                    Some(existing.group_id.clone())
                } else {
                    None
                },
                None => None,
            };
            if let Some(previous) = &previous {
                self.unlink_member(previous.as_str(), units[i].id.as_str());
            }
            proof {
                crate::model::lemma_listed_push(views.take(i as int), views[i as int]);
                assert(views.take(i + 1) =~= views.take(i as int).push(views[i as int]));
                assert forall|h: Seq<char>| h != group_id@ implies #[trigger] indexed(self.members@, h) == indexed(
                    before.members@,
                    h,
                ).difference(listed.insert(id)) by {
                    assert(indexed(index, h) == indexed(before.members@, h).difference(listed));
                    assert(indexed(before.members@, h) == crate::model::members_of(s, h));
                    assert(indexed(self.members@, h) =~= indexed(before.members@, h).difference(
                        listed.insert(id),
                    ));
                }
            }
            i = i + 1;
        }
        assert(views.take(i as int) =~= views);
    }

    /// Stores every unit of the list, in turn.
    fn store_all(&mut self, list: Vec<Unit>)
        ensures
            final(self).units@ == crate::model::with_all(
                old(self).units@,
                crate::proto::units_view(list@),
            ),
            *final(self) == (Inner { units: final(self).units, ..*old(self) }),
    {
        let ghost before = *self;
        let ghost views = crate::proto::units_view(list@);
        let mut i: usize = 0;
        while i < list.len()
            invariant
                i <= list@.len(),
                views == crate::proto::units_view(list@),
                *self == (Inner { units: self.units, ..before }),
                self.units@ == crate::model::with_all(before.units@, views.take(i as int)),
            decreases list@.len() - i,
        {
            self.units.insert(list[i].id.clone(), list[i].clone());
            proof {
                let longer = views.take(i + 1);
                assert(longer.drop_last() =~= views.take(i as int));
                assert(longer.last() == views[i as int]);
            }
            i = i + 1;
        }
        assert(views.take(i as int) =~= views);
    }

    /// Gives a group exactly the members of the list, which must all name it.
    fn replace_members(&mut self, group_id: &String, units: Vec<Unit>)
        requires
            old(self).wf(),
            crate::model::adopted(crate::proto::units_view(units@), group_id@) == crate::proto::units_view(units@),
        ensures
            final(self).wf(),
            final(self).stored() == crate::model::regrouped(
                old(self).stored(),
                group_id@,
                crate::proto::units_view(units@),
            ),
            *final(self) == (Inner { units: final(self).units, members: final(self).members, ..*old(self) }),
    {
        let ghost s = self.stored();
        let ghost views = crate::proto::units_view(units@);
        let ghost t = crate::model::regrouped(s, group_id@, views);
        let ghost listed = crate::model::listed_ids(views);
        let ghost index = self.members@;
        let new_ids = ids_of(&units);
        self.drop_unlisted(group_id.as_str(), &new_ids);
        proof {
            assert forall|h: Seq<char>| h != group_id@ implies #[trigger] indexed(self.members@, h)
                == crate::model::members_of(self.stored(), h) by {
                assert(indexed(index, h) == crate::model::members_of(s, h));
                assert(crate::model::members_of(self.stored(), h) =~= crate::model::members_of(s, h));
            }
        }
        self.detach(&units, group_id);
        let ghost detached = self.members@;
        self.members.insert(group_id.clone(), new_ids);
        self.store_all(units);
        proof {
            assert(self.stored() =~= t);
            crate::model::lemma_regrouped(s, group_id@, views, group_id@);
            assert forall|h: Seq<char>| #[trigger] indexed(self.members@, h) == crate::model::members_of(t, h) by {
                crate::model::lemma_regrouped(s, group_id@, views, h);
                assert(indexed(index, h) == crate::model::members_of(s, h));
                if h != group_id@ {
                    assert(indexed(detached, h) == indexed(index, h).difference(listed));
                }
            }
        }
    }
}

/// Normalized, in-memory snapshot of simulation state, fed by the engine and
/// read by the services. A unit's `group_id` is the only place where group
/// membership is recorded; the member index is derived from it and kept in sync
/// by every write below, not a second source of truth.
///
/// A write broadcasts its events before it returns, so subscribers see events
/// in exactly the order in which their writes were made.
pub struct StateCache {
    inner: Inner,
    simulation_updates: broadcast::Sender<SimulationEvent>,
    group_updates: broadcast::Sender<GroupEvent>,
}

impl View for StateCache {
    type V = CacheView;

    closed spec fn view(&self) -> CacheView {
        CacheView {
            stored: self.inner.stored(),
            simulation_info: info_view(self.inner.simulation_info),
            simulation_state: crate::proto::simulation_state_view(self.inner.simulation_state),
            locations: crate::proto::locations_view(self.inner.locations@),
            sequence: self.inner.sequence as nat,
            group_history: crate::events::group_history(self.group_updates),
            simulation_history: crate::events::simulation_history(self.simulation_updates),
        }
    }
}

impl Default for StateCache {
    fn default() -> (cache: Self)
        ensures
            cache.wf(),
            cache@ == crate::model::empty_cache(),
            cache.room() == BROADCAST_CAPACITY,
    {
        Self::new()
    }
}

impl StateCache {
    /// The member index agrees with the units, and both channels keep as many
    /// events as they should.
    pub closed spec fn wf(&self) -> bool {
        &&& self.consistent()
        &&& crate::model::cache_wf(self@)
    }

    /// What of [`Self::wf`] holds within a write.
    spec fn consistent(&self) -> bool {
        &&& self.inner.wf()
        &&& crate::model::cache_numbered(self@)
        &&& crate::events::simulation_room(self.simulation_updates) == self.room()
    }

    /// How many events a subscriber may be behind before it misses one.
    pub closed spec fn room(&self) -> nat {
        crate::events::group_room(self.group_updates)
    }

    /// Law: what holds of a cache between writes holds of every cache that the
    /// calls below hand out or leave behind.
    pub proof fn law_cache_is_well_formed(&self)
        requires
            self.wf(),
        ensures
            crate::model::cache_wf(self@),
    {
    }

    pub fn new() -> (cache: Self)
        ensures
            cache.wf(),
            cache@ == crate::model::empty_cache(),
            cache.room() == BROADCAST_CAPACITY,
    {
        let cache = StateCache {
            inner: Inner::new(0),
            simulation_updates: simulation_channel(BROADCAST_CAPACITY),
            group_updates: group_channel(BROADCAST_CAPACITY),
        };
        proof {
            assert(crate::events::power_of_two_for(BROADCAST_CAPACITY as nat) == 256) by {
                reveal_with_fuel(crate::events::power_of_two_for, 9);
            }
            assert(cache@ =~= crate::model::empty_cache());
        }
        cache
    }

    // --- writes (engine) ---

    /// Upserts a single unit without otherwise touching group membership.
    /// Re-broadcasts its (new) group, and its previous group if this moved it
    /// away from one, since both groups' joined views just changed.
    pub fn upsert_unit(&mut self, unit: Unit)
        requires
            old(self).wf(),
            crate::model::has_numbers(
                old(self)@,
                2,
                crate::model::unit_updates(old(self)@.stored, unit@),
            ),
        ensures
            final(self).wf(),
            final(self).room() == old(self).room(),
            final(self)@ == crate::model::committed(
                old(self)@,
                crate::model::with_unit(old(self)@.stored, unit@),
                crate::model::unit_updates(old(self)@.stored, unit@),
            ),
            final(self)@.sequence <= old(self)@.sequence + 2,
            final(self)@ == crate::laws::after(old(self)@, crate::laws::Write::UpsertUnit(unit@)),
    {
        let ghost c = self@;
        let ghost s = c.stored;
        let ghost u = unit@;
        let ghost t = crate::model::with_unit(s, u);
        let id = unit.id.clone();
        let new_group = unit.group_id.clone();
        let old_group: Option<String> = match self.inner.units.get(id.as_str()) {
            Some(existing) => if existing.group_id == new_group {
                None
            } else {
                Some(existing.group_id.clone())
            },
            None => None,
        };
        let before_new = self.inner.joined_group(new_group.as_str());
        let before_old = match &old_group {
            Some(old_group) => self.inner.joined_group(old_group.as_str()),
            None => None,
        };

        let ghost index = self.inner.members@;
        if let Some(old_group) = &old_group {
            self.inner.unlink_member(old_group.as_str(), id.as_str());
        }
        self.inner.link_member(new_group.as_str(), id.as_str());
        self.inner.units.insert(id, unit);

        proof {
            assert(self.inner.stored() =~= t);
            assert forall|g: Seq<char>| #[trigger]
                indexed(self.inner.members@, g) == crate::model::members_of(t, g) by {
                assert(indexed(index, g) == crate::model::members_of(s, g));
                assert(indexed(index, u.group_id) == crate::model::members_of(s, u.group_id));
                assert(indexed(self.inner.members@, g) =~= crate::model::members_of(t, g));
            }
        }
        let ghost now = self@;
        proof {
            assert(now =~= (CacheView { stored: t, ..c }));
            crate::model::lemma_changes_bound(crate::model::groups_of_unit(s, u), s, t);
            crate::model::lemma_changes_one(u.group_id, s, t);
            if old_group is Some {
                crate::model::lemma_changes_push(seq![u.group_id], s.units[u.id].group_id, s, t);
                assert(crate::model::groups_of_unit(s, u) =~= seq![u.group_id].push(s.units[u.id].group_id));
                crate::model::lemma_told_twice(
                    now,
                    crate::model::changes(seq![u.group_id], s, t),
                    crate::model::change(
                        s.units[u.id].group_id,
                        crate::model::joined(s, s.units[u.id].group_id),
                        crate::model::joined(t, s.units[u.id].group_id),
                    ),
                );
            }
        }
        self.emit_if_changed(new_group.as_str(), before_new);
        if let Some(old_group) = old_group {
            self.emit_if_changed(old_group.as_str(), before_old);
        }
    }

    /// Removes a unit and re-broadcasts the group it belonged to, since its
    /// joined view just lost a member.
    pub fn remove_unit(&mut self, id: &UnitId) -> (removed: Option<Unit>)
        requires
            old(self).wf(),
            crate::model::has_numbers(
                old(self)@,
                1,
                crate::model::unit_removal_updates(old(self)@.stored, id@),
            ),
        ensures
            final(self).wf(),
            final(self).room() == old(self).room(),
            final(self)@ == crate::model::committed(
                old(self)@,
                crate::model::without_unit(old(self)@.stored, id@),
                crate::model::unit_removal_updates(old(self)@.stored, id@),
            ),
            unit_view(removed) == crate::model::unit_at(old(self)@.stored, id@),
            final(self)@.sequence <= old(self)@.sequence + 1,
            final(self)@ == crate::laws::after(old(self)@, crate::laws::Write::RemoveUnit(id@)),
    {
        let ghost c = self@;
        let ghost s = c.stored;
        let ghost t = crate::model::without_unit(s, id@);
        // The group must be read while the unit is still stored: read after
        // the removal it would show the unit gone on both sides of the
        // comparison, and subscribers would never be told that it left.
        let group_id: Option<String> = match self.inner.units.get(id.as_str()) {
            Some(unit) => Some(unit.group_id.clone()),
            None => None,
        };
        let before = match &group_id {
            Some(group_id) => self.inner.joined_group(group_id.as_str()),
            None => None,
        };
        let ghost index = self.inner.members@;
        let removed = self.inner.units.remove(id.as_str());
        match group_id {
            Some(group_id) => {
                self.inner.unlink_member(group_id.as_str(), id.as_str());
                proof {
                    assert(self.inner.stored() =~= t);
                    assert forall|g: Seq<char>| #[trigger]
                        indexed(self.inner.members@, g) == crate::model::members_of(t, g) by {
                        assert(indexed(index, g) == crate::model::members_of(s, g));
                        assert(indexed(self.inner.members@, g) =~= crate::model::members_of(t, g));
                    }
                    assert(self@ =~= (CacheView { stored: t, ..c }));
                    crate::model::lemma_changes_bound(seq![group_id@], s, t);
                    crate::model::lemma_changes_one(group_id@, s, t);
                }
                self.emit_if_changed(group_id.as_str(), before);
            },
            None => {
                proof {
                    assert(t =~= s);
                    crate::model::lemma_told_nothing(c);
                }
            },
        }
        removed
    }

    /// Upserts a group's own fields (side, readiness, task and waypoints)
    /// without touching its membership. `group.units` is ignored: use
    /// [`Self::upsert_group_with_units`] to update both together.
    ///
    /// If `group` changes side relative to what was cached, first broadcasts a
    /// removal for its id: a subscriber filtered to the old side has no other
    /// way to learn this group no longer matches its filter.
    pub fn upsert_group(&mut self, group: Group)
        requires
            old(self).wf(),
            crate::model::has_numbers(
                old(self)@,
                2,
                crate::model::group_updates(old(self)@.stored, group@),
            ),
        ensures
            final(self).wf(),
            final(self).room() == old(self).room(),
            final(self)@ == crate::model::committed(
                old(self)@,
                crate::model::with_group(old(self)@.stored, group@),
                crate::model::group_updates(old(self)@.stored, group@),
            ),
            final(self)@.sequence <= old(self)@.sequence + 2,
            final(self)@ == crate::laws::after(old(self)@, crate::laws::Write::UpsertGroup(group@)),
    {
        let ghost c = self@;
        let ghost s = c.stored;
        let ghost t = crate::model::with_group(s, group@);
        let id = group.id.clone();
        let before = self.inner.joined_group(id.as_str());
        proof {
            crate::model::lemma_changes_bound(seq![group@.id], s, t);
            crate::model::lemma_changes_one(group@.id, s, t);
        }
        let ghost first = crate::model::side_removal(s, group@);
        let ghost second = crate::model::changes(seq![group@.id], s, t);
        self.replace_group_fields(id.as_str(), group);
        proof {
            crate::model::lemma_told_twice(CacheView { stored: t, ..c }, first, second);
        }
        self.emit_if_changed(id.as_str(), before);
    }

    /// Upserts a group's fields and replaces its member set: any unit previously
    /// in this group but not in `units` is dropped, and a unit listed here that
    /// belonged to a different group is moved. Each unit's `group_id` is set to
    /// `group.id` regardless of what it arrived with: the server, not the
    /// caller, decides membership for a unit embedded in a group's upsert.
    ///
    /// Broadcasts every group whose joined view changed: this group, plus any
    /// other group that lost a member to it.
    pub fn upsert_group_with_units(&mut self, group: Group, units: Vec<Unit>)
        requires
            old(self).wf(),
            crate::model::has_numbers(
                old(self)@,
                units@.len() + 2,
                crate::model::group_units_updates(
                    old(self)@.stored,
                    group@,
                    crate::proto::units_view(units@),
                ),
            ),
        ensures
            final(self).wf(),
            final(self).room() == old(self).room(),
            final(self)@ == crate::model::committed(
                old(self)@,
                crate::model::with_group_units(
                    old(self)@.stored,
                    group@,
                    crate::proto::units_view(units@),
                ),
                crate::model::group_units_updates(
                    old(self)@.stored,
                    group@,
                    crate::proto::units_view(units@),
                ),
            ),
            final(self)@.sequence <= old(self)@.sequence + units@.len() + 2,
            final(self)@ == crate::laws::after(
                old(self)@,
                crate::laws::Write::UpsertGroupWithUnits(group@, crate::proto::units_view(units@)),
            ),
    {
        let ghost c = self@;
        let ghost s = c.stored;
        let ghost g = group@;
        let ghost views = crate::proto::units_view(units@);
        let ghost t = crate::model::with_group_units(s, g, views);
        let ghost first = crate::model::side_removal(s, g);
        let ghost base = CacheView { stored: t, ..c };
        let group_id = group.id.clone();
        let mut units = units;
        adopt(&mut units, group_id.as_str());
        let ghost moved = crate::proto::units_view(units@);
        proof {
            assert(crate::model::adopted(moved, g.id) =~= moved);
            crate::model::lemma_adopted_ids(views, g.id);
            assert(crate::model::regrouped(s, g.id, moved) == crate::model::regrouped(s, g.id, views));
            assert(crate::model::donors(s, g.id, moved) == crate::model::donors(s, g.id, views));
        }

        // Every other group that will lose a member is read before any
        // mutation, so it can be compared after.
        let other_before = self.inner.read_donors(&units, &group_id);
        let before = self.inner.joined_group(group_id.as_str());
        self.inner.replace_members(&group_id, units);
        assert(self@ =~= (CacheView { stored: crate::model::regrouped(s, g.id, views), ..c }));

        let count: usize = other_before.len();
        let ghost others = other_before.keys();
        let ghost ids = seq![g.id] + others;
        proof {
            assert(crate::model::group_units_updates(s, g, views) == first + crate::model::changes(ids, s, t));
            assert(ids.take(1) =~= seq![g.id]);
            crate::model::lemma_changes_bound(ids, s, t);
            crate::model::lemma_donors_bound(s, g.id, views);
            crate::model::lemma_changes_one(g.id, s, t);
            crate::model::lemma_changes_len(ids, 1, s, t);
        }
        self.replace_group_fields(group_id.as_str(), group);
        assert(self@ == crate::model::told(base, first));
        self.emit_if_changed(group_id.as_str(), before);
        proof {
            crate::model::lemma_told_twice(base, first, crate::model::changes(ids.take(1), s, t));
        }
        let mut i: usize = 0;
        while i < count
            invariant
                i <= count,
                count == others.len(),
                others == other_before.keys(),
                ids == seq![g.id] + others,
                self.wf(),
                self.room() == old(self).room(),
                base.stored == t,
                base.sequence == c.sequence,
                forall|h: Seq<char>| #[trigger]
                    other_before@.contains_key(h) ==> other_before@[h] == crate::model::joined(s, h),
                c.sequence + (first + crate::model::changes(ids, s, t)).len() <= u64::MAX,
                self@ == crate::model::told(base, first + crate::model::changes(ids.take(i + 1), s, t)),
            decreases count - i,
        {
            let other_id = other_before.key_at(i);
            let reading = match &other_before.value_at(i).group {
                Some(group) => Some(group.clone()),
                None => None,
            };
            let ghost told_so_far = crate::model::changes(ids.take(i + 1), s, t);
            let ghost next = crate::model::change(
                other_id@,
                crate::model::joined(s, other_id@),
                crate::model::joined(t, other_id@),
            );
            proof {
                assert(ids.take(i + 2) =~= ids.take(i + 1).push(other_id@));
                crate::model::lemma_changes_push(ids.take(i + 1), other_id@, s, t);
                crate::model::lemma_changes_len(ids, i + 2, s, t);
                crate::model::lemma_told_twice(base, first + told_so_far, next);
                assert((first + told_so_far) + next =~= first + (told_so_far + next));
            }
            self.emit_if_changed(other_id, reading);
            i = i + 1;
        }
        assert(ids.take(i + 1) =~= ids);
    }

    /// Replaces a group's stored (unit-less) fields, broadcasting a removal
    /// first if this changed its side. Shared by [`Self::upsert_group`] and
    /// [`Self::upsert_group_with_units`]; doesn't broadcast the upsert itself:
    /// callers do that via [`Self::emit_if_changed`] once their own membership
    /// changes are also applied.
    fn replace_group_fields(&mut self, id: &str, group: Group)
        requires
            old(self).wf(),
            id@ == group@.id,
            old(self)@.sequence + crate::model::side_removal(old(self)@.stored, group@).len() <= u64::MAX,
        ensures
            final(self).wf(),
            final(self).room() == old(self).room(),
            final(self)@ == crate::model::committed(
                old(self)@,
                crate::model::with_group(old(self)@.stored, group@),
                crate::model::side_removal(old(self)@.stored, group@),
            ),
    {
        let ghost c = self@;
        let ghost s = c.stored;
        let ghost t = crate::model::with_group(s, group@);
        let changes_side = match self.inner.groups.get(id) {
            Some(existing) => existing.side != group.side,
            None => false,
        };
        let ghost g = group@;
        let mut group = group;
        group.units = Vec::new();
        proof {
            assert(group@ =~= crate::model::bare(g));
        }
        self.inner.groups.insert(id.to_owned(), group);
        proof {
            assert(self.inner.stored() =~= t);
            assert forall|h: Seq<char>| #[trigger]
                indexed(self.inner.members@, h) == crate::model::members_of(t, h) by {
                assert(indexed(self.inner.members@, h) == crate::model::members_of(s, h));
                assert(crate::model::members_of(s, h) =~= crate::model::members_of(t, h));
            }
            assert(self@ =~= (CacheView { stored: t, ..c }));
        }
        if changes_side {
            self.send_group(group_removed(id.to_owned()));
        } else {
            proof {
                crate::model::lemma_told_nothing(self@);
            }
        }
    }

    /// Sends an event for a group if its joined value now differs from `before`
    /// (its value just prior to the write in progress). The cache must already
    /// reflect that write.
    fn emit_if_changed(&mut self, id: &str, before: Option<Group>)
        requires
            old(self).wf(),
            old(self)@.sequence + crate::model::change(
                id@,
                group_view(before),
                crate::model::joined(old(self)@.stored, id@),
            ).len() <= u64::MAX,
        ensures
            final(self).wf(),
            final(self).room() == old(self).room(),
            final(self)@ == crate::model::told(
                old(self)@,
                crate::model::change(
                    id@,
                    group_view(before),
                    crate::model::joined(old(self)@.stored, id@),
                ),
            ),
    {
        let ghost c = self@;
        let after = self.inner.joined_group(id);
        if after == before {
            assert(crate::model::told(c, seq![]) =~= c);
            return ;
        }
        let response = match after {
            Some(group) => group_upserted(group),
            None => group_removed(id.to_owned()),
        };
        self.send_group(response);
    }

    /// Removes a group and every unit that belonged to it, broadcasting a single
    /// removal. Returns the group as it was just before removal (including its
    /// units), or `None` if it wasn't cached.
    pub fn remove_group(&mut self, id: &GroupId) -> (removed: Option<Group>)
        requires
            old(self).wf(),
            old(self)@.stored.groups.contains_key(id@) ==> old(self)@.sequence < u64::MAX,
        ensures
            final(self).wf(),
            final(self).room() == old(self).room(),
            final(self)@ == crate::model::after_group_removal(old(self)@, id@),
            group_view(removed) == crate::model::joined(old(self)@.stored, id@),
            final(self)@ == crate::laws::after(old(self)@, crate::laws::Write::RemoveGroup(id@)),
    {
        let ghost c = self@;
        let ghost s = c.stored;
        let ghost t = crate::model::without_group(s, id@);
        if !self.inner.groups.contains_key(id.as_str()) {
            return None;
        }
        let removed = self.inner.joined_group(id.as_str());
        let ghost index = self.inner.members@;
        self.inner.groups.remove(id.as_str());
        let ghost members = crate::model::members_of(s, id@);
        assert(indexed(index, id@) == members);
        match self.inner.members.remove(id.as_str()) {
            Some(ids) => {
                self.inner.remove_units(&ids);
            },
            None => {
                assert(s.units.remove_keys(members) =~= s.units);
            },
        }
        proof {
            assert(self.inner.stored() =~= t);
            assert(t.units.dom() =~= s.units.dom().difference(members));
            assert forall|h: Seq<char>| #[trigger]
                indexed(self.inner.members@, h) == crate::model::members_of(t, h) by {
                assert(indexed(index, h) == crate::model::members_of(s, h));
                assert(indexed(self.inner.members@, h) =~= crate::model::members_of(t, h));
            }
            assert(self@ =~= (CacheView { stored: t, ..c }));
        }
        self.send_group(group_removed(id.to_string()));
        removed
    }

    /// Drops all cached state, broadcasting a removal for every group that was
    /// present and an empty simulation update, so subscribers don't retain stale
    /// entries or a stale simulation state across a reset. Does not affect
    /// existing subscriptions or in-flight commands: see
    /// [`crate::Dispatcher::cancel_all`] for that.
    pub fn clear(&mut self)
        requires
            old(self).wf(),
            old(self)@.sequence + crate::model::clear_updates(old(self)@.stored).len() < u64::MAX,
        ensures
            final(self).wf(),
            final(self).room() == old(self).room(),
            final(self)@ == crate::model::cleared(old(self)@),
            final(self)@ == crate::laws::after(old(self)@, crate::laws::Write::Clear),
    {
        let ghost c = self@;
        let count: usize = self.inner.groups.len();
        let ghost keys = self.inner.groups.keys();
        let mut ids: Vec<String> = Vec::new();
        let mut i: usize = 0;
        while i < count
            invariant
                i <= count,
                count == keys.len(),
                keys == self.inner.groups.keys(),
                ids@.len() == i,
                forall|k: int| 0 <= k < i ==> (#[trigger] ids@[k])@ == keys[k],
            decreases count - i,
        {
            ids.push(self.inner.groups.key_at(i).to_owned());
            i = i + 1;
        }
        // The sequence goes on: subscribers discard events at or below their
        // snapshot's sequence, so starting it over would silently drop these
        // removals, and every update after them until the counter caught up.
        self.inner = Inner::new(self.inner.sequence);
        let ghost base = CacheView {
            sequence: c.sequence,
            group_history: c.group_history,
            simulation_history: c.simulation_history,
            ..crate::model::empty_cache()
        };
        let ghost updates = crate::model::clear_updates(c.stored);
        proof {
            assert(self@ =~= base);
            crate::model::lemma_told_nothing(base);
            assert(updates.take(0) =~= seq![]);
        }
        let mut j: usize = 0;
        while j < count
            invariant
                j <= count,
                count == keys.len(),
                ids@.len() == count,
                forall|k: int| 0 <= k < count ==> (#[trigger] ids@[k])@ == keys[k],
                updates == crate::model::removals(keys),
                base.sequence == c.sequence,
                c.sequence + updates.len() < u64::MAX,
                self.consistent(),
                self.room() == old(self).room(),
                self@ == crate::model::told(base, updates.take(j as int)),
            decreases count - j,
        {
            proof {
                crate::model::lemma_told_twice(base, updates.take(j as int), seq![updates[j as int]]);
                assert(updates.take(j + 1) =~= updates.take(j as int) + seq![updates[j as int]]);
            }
            self.send_group(group_removed(ids[j].clone()));
            j = j + 1;
        }
        assert(updates.take(j as int) =~= updates);
        self.send_simulation(None);
    }

    pub fn set_simulation_info(&mut self, info: SimulationInfo)
        requires
            old(self).wf(),
        ensures
            final(self).wf(),
            final(self).room() == old(self).room(),
            final(self)@ == (CacheView { simulation_info: Some(info@), ..old(self)@ }),
            final(self)@ == crate::laws::after(old(self)@, crate::laws::Write::SetSimulationInfo(info@)),
    {
        self.inner.simulation_info = Some(info);
    }

    pub fn set_simulation_state(&mut self, state: SimulationStateUpdate)
        requires
            old(self).wf(),
            old(self)@.sequence < u64::MAX,
        ensures
            final(self).wf(),
            final(self).room() == old(self).room(),
            final(self)@ == crate::model::told_simulation(old(self)@, Some(state@)),
            final(self)@ == crate::laws::after(old(self)@, crate::laws::Write::SetSimulationState(state@)),
    {
        self.send_simulation(Some(state));
    }

    pub fn set_locations(&mut self, locations: Vec<Location>)
        requires
            old(self).wf(),
        ensures
            final(self).wf(),
            final(self).room() == old(self).room(),
            final(self)@ == (CacheView {
                locations: crate::proto::locations_view(locations@),
                ..old(self)@
            }),
            final(self)@ == crate::laws::after(
                old(self)@,
                crate::laws::Write::SetLocations(crate::proto::locations_view(locations@)),
            ),
    {
        self.inner.locations = locations;
    }

    // --- reads (services) ---

    /// The number of the last event.
    pub fn sequence(&self) -> (sequence: u64)
        ensures
            sequence == self@.sequence,
    {
        self.inner.sequence
    }

    /// How many groups are cached.
    pub fn group_count(&self) -> (count: usize)
        ensures
            count == crate::text::listing(self@.stored.groups.dom()).len(),
    {
        self.inner.groups.len()
    }

    pub fn get_unit(&self, id: &UnitId) -> (unit: Option<Unit>)
        ensures
            unit_view(unit) == crate::model::unit_at(self@.stored, id@),
    {
        match self.inner.units.get(id.as_str()) {
            Some(unit) => Some(unit.clone()),
            None => None,
        }
    }

    /// The units that match both filters, in the order of their ids.
    pub fn list_units(&self, side: Option<Side>, group_id: Option<&GroupId>) -> (units: Vec<Unit>)
        ensures
            crate::proto::units_view(units@) == crate::model::listed_units(
                self@.stored,
                side,
                match group_id {
                    Some(id) => Some(id@),
                    None => None,
                },
            ),
    {
        let ghost s = self@.stored;
        let ghost group = match group_id {
            Some(id) => Some(id@),
            None => None,
        };
        let ghost by_id = |u: Seq<char>| s.units[u];
        let ghost pass = crate::model::unit_filter(s, side, group);
        let count: usize = self.inner.units.len();
        let ghost all = self.inner.units.keys().map_values(by_id);
        let mut units: Vec<Unit> = Vec::new();
        let mut i: usize = 0;
        proof {
            reveal(Seq::filter);
            assert(all.take(0).filter(pass) =~= crate::proto::units_view(units@));
        }
        while i < count
            invariant
                i <= count,
                count == self.inner.units.keys().len(),
                s == self.inner.stored(),
                by_id == (|u: Seq<char>| s.units[u]),
                all == self.inner.units.keys().map_values(by_id),
                group == match group_id {
                    Some(id) => Some(id@),
                    None => None,
                },
                pass == crate::model::unit_filter(s, side, group),
                crate::proto::units_view(units@) == all.take(i as int).filter(pass),
            decreases count - i,
        {
            let unit = self.inner.units.value_at(i);
            let in_group = match group_id {
                Some(id) => match place(unit.group_id.as_str(), id.as_str()) {
                    Place::Same => true,
                    _ => false,
                },
                None => true,
            };
            let on_side = match side {
                Some(side) => match self.inner.unit_side(unit) {
                    Some(found) => found == side,
                    None => false,
                },
                None => true,
            };
            proof {
                crate::model::lemma_filter_take(all, pass, i as int);
            }
            if in_group && on_side {
                let ghost before = units@;
                units.push(unit.clone());
                assert(crate::proto::units_view(units@) =~= crate::proto::units_view(before).push(unit@));
            }
            i = i + 1;
        }
        assert(all.take(i as int) =~= all);
        units
    }

    pub fn get_group(&self, id: &GroupId) -> (group: Option<Group>)
        requires
            self.wf(),
        ensures
            group_view(group) == crate::model::joined(self@.stored, id@),
    {
        self.inner.joined_group(id.as_str())
    }

    /// The groups that match the filter, joined with their units, in the order
    /// of their ids.
    pub fn list_groups(&self, side: Option<Side>) -> (groups: Vec<Group>)
        requires
            self.wf(),
        ensures
            crate::proto::groups_view(groups@) == crate::model::listed_groups(self@.stored, side),
    {
        let ghost s = self@.stored;
        let ghost pass = crate::model::group_filter(s, side);
        let count: usize = self.inner.groups.len();
        let ghost keys = self.inner.groups.keys();
        let mut groups: Vec<Group> = Vec::new();
        let mut i: usize = 0;
        proof {
            reveal(Seq::filter);
            assert(crate::model::readings(s, keys.take(0).filter(pass)) =~= crate::proto::groups_view(groups@));
        }
        while i < count
            invariant
                i <= count,
                count == keys.len(),
                keys == self.inner.groups.keys(),
                self.inner.wf(),
                s == self.inner.stored(),
                pass == crate::model::group_filter(s, side),
                crate::proto::groups_view(groups@) == crate::model::readings(
                    s,
                    keys.take(i as int).filter(pass),
                ),
            decreases count - i,
        {
            let group = self.inner.groups.value_at(i);
            proof {
                crate::model::lemma_filter_take(keys, pass, i as int);
            }
            if passes_side(side, group.side) {
                let ghost before = groups@;
                let ghost passed = keys.take(i as int).filter(pass);
                let mut group = group.clone();
                group.units = self.inner.member_units(self.inner.groups.key_at(i));
                let ghost joined = group@;
                groups.push(group);
                assert(joined =~= crate::model::joined(s, keys[i as int])->0);
                assert(crate::proto::groups_view(groups@) =~= crate::proto::groups_view(before).push(joined));
                assert(crate::model::readings(s, passed.push(keys[i as int])) =~= crate::model::readings(
                    s,
                    passed,
                ).push(joined));
            }
            i = i + 1;
        }
        assert(keys.take(i as int) =~= keys);
        groups
    }

    pub fn simulation_info(&self) -> (info: Option<SimulationInfo>)
        ensures
            info_view(info) == self@.simulation_info,
    {
        match &self.inner.simulation_info {
            Some(info) => Some(info.clone()),
            None => None,
        }
    }

    pub fn simulation_state(&self) -> (state: Option<SimulationStateUpdate>)
        ensures
            crate::proto::simulation_state_view(state) == self@.simulation_state,
    {
        copy_state(&self.inner.simulation_state)
    }

    /// The locations that match the filter, in the order in which they were set.
    pub fn list_locations(&self, side: Option<Side>) -> (locations: Vec<Location>)
        ensures
            crate::proto::locations_view(locations@) == crate::model::listed_locations(self@, side),
    {
        let ghost all = self@.locations;
        let ghost pass = |l: LocationView| crate::proto::side_matches(side, l.owner);
        let mut locations: Vec<Location> = Vec::new();
        let mut i: usize = 0;
        proof {
            reveal(Seq::filter);
            assert(all.take(0).filter(pass) =~= crate::proto::locations_view(locations@));
        }
        while i < self.inner.locations.len()
            invariant
                i <= self.inner.locations@.len(),
                all == crate::proto::locations_view(self.inner.locations@),
                pass == (|l: LocationView| crate::proto::side_matches(side, l.owner)),
                crate::proto::locations_view(locations@) == all.take(i as int).filter(pass),
            decreases self.inner.locations@.len() - i,
        {
            let location = &self.inner.locations[i];
            proof {
                crate::model::lemma_filter_take(all, pass, i as int);
            }
            if passes_side(side, location.owner) {
                let ghost before = locations@;
                locations.push(location.clone());
                assert(crate::proto::locations_view(locations@) =~= crate::proto::locations_view(before).push(
                    location@,
                ));
            }
            i = i + 1;
        }
        assert(all.take(i as int) =~= all);
        locations
    }

    // --- subscriptions ---

    /// Returns the current simulation state (if any), its sequence number, and
    /// a receiver for updates from this point on.
    pub fn subscribe_simulation_updates(&self) -> (subscription: (
        Option<SimulationStateUpdate>,
        u64,
        broadcast::Receiver<SimulationEvent>,
    ))
        ensures
            crate::proto::simulation_state_view(subscription.0) == self@.simulation_state,
            subscription.1 == self@.sequence,
            crate::events::simulation_before(subscription.2) == self@.simulation_history,
    {
        let receiver = subscribe_simulation(&self.simulation_updates);
        (self.simulation_state(), self.inner.sequence, receiver)
    }

    /// Returns the groups (joined with their units) currently matching `side`,
    /// the sequence number that snapshot was taken at, and a receiver for
    /// updates from this point on.
    pub fn subscribe_group_updates(&self, side: Option<Side>) -> (subscription: (
        Vec<Group>,
        u64,
        broadcast::Receiver<GroupEvent>,
    ))
        requires
            self.wf(),
        ensures
            crate::proto::groups_view(subscription.0@) == crate::model::listed_groups(self@.stored, side),
            subscription.1 == self@.sequence,
            crate::events::group_before(subscription.2) == self@.group_history,
    {
        let receiver = subscribe_groups(&self.group_updates);
        (self.list_groups(side), self.inner.sequence, receiver)
    }

    /// Stores a simulation state, numbers it and sends it.
    fn send_simulation(&mut self, state: Option<SimulationStateUpdate>)
        requires
            old(self).consistent(),
            old(self)@.sequence < u64::MAX,
        ensures
            final(self).wf(),
            final(self).room() == old(self).room(),
            final(self)@ == crate::model::told_simulation(
                old(self)@,
                crate::proto::simulation_state_view(state),
            ),
    {
        self.inner.simulation_state = copy_state(&state);
        let sequence: u64 = self.inner.next_sequence();
        let event = SimulationEvent {
            sequence,
            response: SubscribeSimulationUpdatesResponse { state },
        };
        broadcast_simulation(&mut self.simulation_updates, event);
    }

    /// Numbers an update and sends it.
    fn send_group(&mut self, response: SubscribeGroupUpdatesResponse)
        requires
            old(self).consistent(),
            old(self)@.sequence < u64::MAX,
            response@ is Some,
        ensures
            final(self).consistent(),
            final(self).room() == old(self).room(),
            final(self)@ == crate::model::told(old(self)@, seq![response@->0]),
    {
        let ghost c = self@;
        let ghost updates = seq![response@->0];
        let sequence: u64 = self.inner.next_sequence();
        let event = GroupEvent { sequence, response };
        broadcast_group(&mut self.group_updates, event);
        proof {
            assert(self@.group_history =~= c.group_history + crate::model::numbered(c.sequence, updates));
            assert(self@ =~= crate::model::told(c, updates));
        }
    }
}

fn group_upserted(group: Group) -> (response: SubscribeGroupUpdatesResponse)
    ensures
        response@ == Some(GroupUpdateView::Upserted(group@)),
{
    SubscribeGroupUpdatesResponse { event: Some(GroupUpdate::Upserted(group)) }
}

fn group_removed(id: String) -> (response: SubscribeGroupUpdatesResponse)
    ensures
        response@ == Some(GroupUpdateView::RemovedId(id@)),
{
    SubscribeGroupUpdatesResponse { event: Some(GroupUpdate::RemovedId(id)) }
}

} // verus!
