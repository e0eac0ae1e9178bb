//! The numbers of events.

use vstd::prelude::*;

use crate::laws::Write;
use crate::model::CacheView;

verus! {

/// `d` is the cache `c`, or what it became: it has told all that `c` had told,
/// and what it told since bears higher numbers.
pub open spec fn later(c: CacheView, d: CacheView) -> bool {
    &&& c.sequence <= d.sequence
    &&& c.group_history.len() <= d.group_history.len()
    &&& d.group_history.take(c.group_history.len() as int) == c.group_history
    &&& forall|i: int|
        c.group_history.len() <= i < d.group_history.len() ==> c.sequence < (
        #[trigger] d.group_history[i]).sequence
    &&& c.simulation_history.len() <= d.simulation_history.len()
    &&& d.simulation_history.take(c.simulation_history.len() as int) == c.simulation_history
    &&& forall|i: int|
        c.simulation_history.len() <= i < d.simulation_history.len() ==> c.sequence < (
        #[trigger] d.simulation_history[i]).sequence
}

/// Law: a write never lowers the cache's number, takes back no event, and gives
/// every new event a number above all earlier ones.
pub proof fn law_numbers_rise(c: CacheView, write: Write)
    requires
        crate::model::cache_wf(c),
        crate::laws::after(c, write).sequence <= u64::MAX,
    ensures
        later(c, crate::laws::after(c, write)),
        crate::model::cache_wf(crate::laws::after(c, write)),
{
    crate::laws::lemma_stored_wf(c, write);
    crate::laws::lemma_history(c, write);
    let d = crate::laws::after(c, write);
    assert(d.group_history.take(c.group_history.len() as int) =~= c.group_history);
    assert(d.simulation_history.take(c.simulation_history.len() as int) =~= c.simulation_history);
}

/// A write never lowers the cache's number.
pub proof fn lemma_sequence_rises(c: CacheView, write: Write)
    ensures
        c.sequence <= crate::laws::after(c, write).sequence,
{
}

/// Law: what holds of one write holds of any number of them.
pub proof fn law_numbers_rise_through_all_writes(c: CacheView, writes: Seq<Write>)
    requires
        crate::model::cache_wf(c),
        crate::laws::after_all(c, writes).sequence <= u64::MAX,
    ensures
        later(c, crate::laws::after_all(c, writes)),
        crate::model::cache_wf(crate::laws::after_all(c, writes)),
    decreases writes.len(),
{
    if writes.len() == 0 {
        assert(c.group_history.take(c.group_history.len() as int) =~= c.group_history);
        assert(c.simulation_history.take(c.simulation_history.len() as int) =~= c.simulation_history);
    } else {
        let d = crate::laws::after_all(c, writes.drop_last());
        let e = crate::laws::after_all(c, writes);
        lemma_sequence_rises(d, writes.last());
        law_numbers_rise_through_all_writes(c, writes.drop_last());
        law_numbers_rise(d, writes.last());
        let n = c.group_history.len() as int;
        let m = c.simulation_history.len() as int;
        assert(e.group_history.take(n) =~= d.group_history.take(n)) by {
            assert(d.group_history =~= e.group_history.take(d.group_history.len() as int));
        }
        assert(e.simulation_history.take(m) =~= d.simulation_history.take(m)) by {
            assert(d.simulation_history =~= e.simulation_history.take(d.simulation_history.len() as int));
        }
        assert forall|i: int| n <= i < e.group_history.len() implies c.sequence < (
        #[trigger] e.group_history[i]).sequence by {
            if i < d.group_history.len() {
                assert(e.group_history.take(d.group_history.len() as int)[i] == d.group_history[i]);
            }
        }
        assert forall|i: int| m <= i < e.simulation_history.len() implies c.sequence < (
        #[trigger] e.simulation_history[i]).sequence by {
            if i < d.simulation_history.len() {
                assert(e.simulation_history.take(d.simulation_history.len() as int)[i]
                    == d.simulation_history[i]);
            }
        }
    }
}

/// Law: the number taken with a snapshot tells the events that the snapshot
/// reflects from those that came after it.
pub proof fn law_snapshot_number_splits_the_events(c: CacheView, writes: Seq<Write>, i: int)
    requires
        crate::model::cache_wf(c),
        crate::laws::after_all(c, writes).sequence <= u64::MAX,
    ensures
        0 <= i < crate::laws::after_all(c, writes).group_history.len() ==> (crate::laws::after_all(
            c,
            writes,
        ).group_history[i].sequence <= c.sequence <==> i < c.group_history.len()),
        0 <= i < crate::laws::after_all(c, writes).simulation_history.len() ==> (crate::laws::after_all(
            c,
            writes,
        ).simulation_history[i].sequence <= c.sequence <==> i < c.simulation_history.len()),
{
    let d = crate::laws::after_all(c, writes);
    law_numbers_rise_through_all_writes(c, writes);
    if 0 <= i < c.group_history.len() {
        assert(d.group_history.take(c.group_history.len() as int)[i] == d.group_history[i]);
    }
    if 0 <= i < c.simulation_history.len() {
        assert(d.simulation_history.take(c.simulation_history.len() as int)[i] == d.simulation_history[i]);
    }
}

/// Law: every event takes the number after the last one, so that no number is
/// used twice and none is left out; a write's group events come before its
/// simulation event.
pub proof fn law_each_event_takes_the_next_number(c: CacheView, write: Write)
    ensures
        ({
            let d = crate::laws::after(c, write);
            let groups = d.group_history.len() - c.group_history.len();
            let states = d.simulation_history.len() - c.simulation_history.len();
            &&& groups >= 0 && states >= 0
            &&& d.sequence == c.sequence + groups + states
            &&& forall|i: int|
                c.group_history.len() <= i < d.group_history.len() ==> (
                #[trigger] d.group_history[i]).sequence == c.sequence + 1 + i - c.group_history.len()
            &&& forall|i: int|
                c.simulation_history.len() <= i < d.simulation_history.len() ==> (
                #[trigger] d.simulation_history[i]).sequence == c.sequence + 1 + groups + i
                    - c.simulation_history.len()
        }),
{
    crate::laws::lemma_history(c, write);
}

/// Law: how far a write can raise the cache's number. A caller that keeps this
/// distance from the largest number can make the write.
pub proof fn law_a_write_uses_few_numbers(c: CacheView, write: Write)
    requires
        crate::model::stored_wf(c.stored),
    ensures
        crate::laws::after(c, write).sequence <= c.sequence + match write {
            Write::UpsertUnit(_) => 2,
            Write::RemoveUnit(_) => 1,
            Write::UpsertGroup(_) => 2,
            Write::UpsertGroupWithUnits(_, units) => units.len() + 2,
            Write::RemoveGroup(_) => 1,
            Write::SetSimulationState(_) => 1,
            Write::Clear => crate::text::listing(c.stored.groups.dom()).len() + 1,
            _ => 0,
        },
{
    let s = c.stored;
    let t = crate::laws::after(c, write).stored;
    match write {
        Write::UpsertUnit(unit) => {
            crate::model::lemma_changes_bound(crate::model::groups_of_unit(s, unit), s, t);
        },
        Write::RemoveUnit(id) => {
            crate::model::lemma_changes_bound(seq![s.units[id].group_id], s, t);
        },
        Write::UpsertGroup(group) => {
            crate::model::lemma_changes_bound(seq![group.id], s, t);
        },
        Write::UpsertGroupWithUnits(group, units) => {
            let others = crate::text::listing(crate::model::donors(s, group.id, units));
            crate::model::lemma_changes_bound(seq![group.id] + others, s, t);
            crate::model::lemma_donors_bound(s, group.id, units);
        },
        _ => {},
    }
}

/// Law: a write can be made if there are numbers left for the most that it can tell,
/// or for what it does tell.
pub proof fn law_a_write_needs_only_its_numbers(
    c: CacheView,
    most: nat,
    updates: Seq<crate::proto::GroupUpdateView>,
)
    ensures
        crate::model::has_numbers(c, most, updates) <==> c.sequence + most <= u64::MAX || c.sequence
            + updates.len() <= u64::MAX,
        crate::model::clear_updates(c.stored).len() == crate::text::listing(c.stored.groups.dom()).len(),
{
}

} // verus!
