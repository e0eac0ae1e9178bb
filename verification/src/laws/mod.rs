//! What holds of the cache and its subscribers as a whole.

use vstd::prelude::*;

use crate::model::{CacheView, Stored};
use crate::proto::{
    GroupUpdateView, GroupView, LocationView, SimulationInfoView, SimulationStateUpdateView, UnitView,
};

pub mod messages;
pub mod numbering;
pub mod reading;
pub mod requests;
pub mod subscriber;
pub mod telling;
pub mod writing;

verus! {

/// A write to the cache: one of the calls of [`crate::StateCache`] that change
/// it, with what they are given.
pub enum Write {
    UpsertUnit(UnitView),
    RemoveUnit(Seq<char>),
    UpsertGroup(GroupView),
    UpsertGroupWithUnits(GroupView, Seq<UnitView>),
    RemoveGroup(Seq<char>),
    SetSimulationInfo(SimulationInfoView),
    SetSimulationState(SimulationStateUpdateView),
    SetLocations(Seq<LocationView>),
    Clear,
}

/// The cache after a write, as the call says.
pub open spec fn after(c: CacheView, write: Write) -> CacheView {
    match write {
        Write::UpsertUnit(unit) => crate::model::committed(
            c,
            crate::model::with_unit(c.stored, unit),
            crate::model::unit_updates(c.stored, unit),
        ),
        Write::RemoveUnit(id) => crate::model::committed(
            c,
            crate::model::without_unit(c.stored, id),
            crate::model::unit_removal_updates(c.stored, id),
        ),
        Write::UpsertGroup(group) => crate::model::committed(
            c,
            crate::model::with_group(c.stored, group),
            crate::model::group_updates(c.stored, group),
        ),
        Write::UpsertGroupWithUnits(group, units) => crate::model::committed(
            c,
            crate::model::with_group_units(c.stored, group, units),
            crate::model::group_units_updates(c.stored, group, units),
        ),
        Write::RemoveGroup(id) => crate::model::after_group_removal(c, id),
        Write::SetSimulationInfo(info) => CacheView { simulation_info: Some(info), ..c },
        Write::SetSimulationState(state) => crate::model::told_simulation(c, Some(state)),
        Write::SetLocations(locations) => CacheView { locations, ..c },
        Write::Clear => crate::model::cleared(c),
    }
}

/// The cache after a list of writes.
pub open spec fn after_all(c: CacheView, writes: Seq<Write>) -> CacheView
    decreases writes.len(),
{
    if writes.len() == 0 {
        c
    } else {
        after(after_all(c, writes.drop_last()), writes.last())
    }
}

/// What a write has group subscribers told.
pub open spec fn updates_of(c: CacheView, write: Write) -> Seq<GroupUpdateView> {
    match write {
        Write::UpsertUnit(unit) => crate::model::unit_updates(c.stored, unit),
        Write::RemoveUnit(id) => crate::model::unit_removal_updates(c.stored, id),
        Write::UpsertGroup(group) => crate::model::group_updates(c.stored, group),
        Write::UpsertGroupWithUnits(group, units) => crate::model::group_units_updates(
            c.stored,
            group,
            units,
        ),
        Write::RemoveGroup(id) => if c.stored.groups.contains_key(id) {
            seq![GroupUpdateView::RemovedId(id)]
        } else {
            seq![]
        },
        Write::Clear => crate::model::clear_updates(c.stored),
        _ => seq![],
    }
}

/// A write adds its updates to what group subscribers are told, numbered on
/// from the cache's number.
pub proof fn lemma_history(c: CacheView, write: Write)
    ensures
        after(c, write).group_history == c.group_history + crate::model::numbered(
            c.sequence,
            updates_of(c, write),
        ),
{
    let nothing = Seq::<GroupUpdateView>::empty();
    assert(c.group_history + crate::model::numbered(c.sequence, nothing) =~= c.group_history);
}

/// The units and groups stay well-formed through a write.
pub proof fn lemma_stored_wf(c: CacheView, write: Write)
    requires
        crate::model::stored_wf(c.stored),
    ensures
        crate::model::stored_wf(after(c, write).stored),
{
    let s = c.stored;
    match write {
        Write::UpsertGroupWithUnits(group, units) => {
            crate::model::lemma_regrouped(s, group.id, units, group.id);
        },
        Write::RemoveGroup(id) => {
            let t = crate::model::without_group(s, id);
            assert(t.units.dom() =~= s.units.dom().difference(crate::model::members_of(s, id)));
        },
        _ => {},
    }
}

/// A group is read the same when neither its fields nor its members changed.
pub proof fn lemma_same_reading(s: Stored, t: Stored, g: Seq<char>)
    requires
        crate::model::stored_wf(s),
        s.groups.contains_key(g) == t.groups.contains_key(g),
        s.groups.contains_key(g) ==> s.groups[g] == t.groups[g],
        crate::model::members_of(s, g) == crate::model::members_of(t, g),
        forall|u: Seq<char>| #[trigger]
            crate::model::members_of(s, g).contains(u) ==> s.units[u] == t.units[u],
    ensures
        crate::model::joined(s, g) == crate::model::joined(t, g),
{
    let members = crate::model::members_of(s, g);
    crate::text::lemma_listing_exists(members);
    let ids = crate::text::listing(members);
    assert forall|i: int| 0 <= i < ids.len() implies s.units[#[trigger] ids[i]] == t.units[ids[i]] by {
        assert(ids.contains(ids[i]));
        assert(members.contains(ids[i]));
    }
    assert(crate::model::member_units(s, g) =~= crate::model::member_units(t, g));
}

/// What a filter leaves of a list.
pub proof fn lemma_filter_from<A>(list: Seq<A>, pass: spec_fn(A) -> bool, x: A)
    ensures
        list.filter(pass).contains(x) <==> list.contains(x) && pass(x),
    decreases list.len(),
{
    reveal(Seq::filter);
    if list.len() > 0 {
        let shorter = list.drop_last();
        lemma_filter_from(shorter, pass, x);
        let kept = list.filter(pass);
        let kept_before = shorter.filter(pass);
        if list.contains(x) {
            let i = choose|i: int| 0 <= i < list.len() && list[i] == x;
            if i < shorter.len() {
                assert(shorter[i] == x);
            }
        }
        if shorter.contains(x) {
            let i = choose|i: int| 0 <= i < shorter.len() && shorter[i] == x;
            assert(list[i] == x);
        }
        if kept_before.contains(x) {
            let i = choose|i: int| 0 <= i < kept_before.len() && kept_before[i] == x;
            assert(kept[i] == x);
        }
        if kept.contains(x) {
            let i = choose|i: int| 0 <= i < kept.len() && kept[i] == x;
            if i < kept_before.len() {
                assert(kept_before[i] == x);
            } else {
                assert(x == list.last());
            }
        }
        if pass(list.last()) {
            assert(kept[kept.len() - 1] == list.last());
        }
        assert(list[list.len() - 1] == list.last());
    }
}

} // verus!
