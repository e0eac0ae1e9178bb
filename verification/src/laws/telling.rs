//! What group subscribers are told of a write: all that it changed, and nothing
//! else.

use vstd::prelude::*;

use crate::laws::Write;
use crate::model::{CacheView, Stored};
use crate::proto::{GroupUpdateView, GroupView};

verus! {

/// What group subscribers are told of a write, in turn.
pub open spec fn told_of(c: CacheView, write: Write) -> Seq<Option<GroupUpdateView>> {
    let history = crate::laws::after(c, write).group_history;
    Seq::new(
        (history.len() - c.group_history.len()) as nat,
        |i: int| history[c.group_history.len() + i].update,
    )
}

/// The two readings of a group differ: it came or went, or one of its fields, of its
/// waypoints or of its units is another.
pub open spec fn differ(before: Option<GroupView>, now: Option<GroupView>) -> bool {
    if before is Some && now is Some {
        !crate::laws::messages::equal_groups(now->0, before->0)
    } else {
        before is Some || now is Some
    }
}

/// The group that an update is about.
pub open spec fn subject(update: GroupUpdateView) -> Seq<char> {
    match update {
        GroupUpdateView::Upserted(group) => group.id,
        GroupUpdateView::RemovedId(id) => id,
    }
}

/// The update that tells how a group is now read.
pub open spec fn news_of(g: Seq<char>, now: Option<GroupView>) -> GroupUpdateView {
    match now {
        Some(group) => GroupUpdateView::Upserted(group),
        None => GroupUpdateView::RemovedId(g),
    }
}

/// What is told of one group is its news, if its readings differ.
proof fn lemma_change_is_news(g: Seq<char>, before: Option<GroupView>, now: Option<GroupView>)
    ensures
        crate::model::change(g, before, now) == if differ(before, now) {
            seq![news_of(g, now)]
        } else {
            Seq::<GroupUpdateView>::empty()
        },
{
    if before is Some && now is Some {
        crate::laws::messages::law_groups_compare_by_fields(now->0, before->0);
    }
}

/// What is told of some groups is the news of those whose readings differ, once each.
proof fn lemma_changes_are_news(ids: Seq<Seq<char>>, s: Stored, t: Stored)
    requires
        crate::model::stored_wf(t),
        ids.no_duplicates(),
    ensures
        ({
            let told = crate::model::changes(ids, s, t);
            &&& forall|g: Seq<char>| #[trigger]
                ids.contains(g) && differ(crate::model::joined(s, g), crate::model::joined(t, g))
                    ==> told.contains(news_of(g, crate::model::joined(t, g)))
            &&& forall|i: int|
                0 <= i < told.len() ==> ({
                    let g = subject(#[trigger] told[i]);
                    &&& ids.contains(g)
                    &&& told[i] == news_of(g, crate::model::joined(t, g))
                    &&& differ(crate::model::joined(s, g), crate::model::joined(t, g))
                })
            &&& forall|i: int, j: int|
                0 <= i < j < told.len() ==> subject(#[trigger] told[i]) != subject(#[trigger] told[j])
        }),
    decreases ids.len(),
{
    if ids.len() > 0 {
        let shorter = ids.drop_last();
        let last = ids.last();
        let before = crate::model::joined(s, last);
        let now = crate::model::joined(t, last);
        let earlier = crate::model::changes(shorter, s, t);
        let told = crate::model::changes(ids, s, t);
        lemma_changes_are_news(shorter, s, t);
        lemma_change_is_news(last, before, now);
        assert forall|g: Seq<char>| #[trigger] ids.contains(g) && differ(
            crate::model::joined(s, g),
            crate::model::joined(t, g),
        ) implies told.contains(news_of(g, crate::model::joined(t, g))) by {
            let n = news_of(g, crate::model::joined(t, g));
            let i = choose|i: int| 0 <= i < ids.len() && ids[i] == g;
            if i < shorter.len() {
                assert(shorter[i] == g);
                assert(shorter.contains(g));
                let k = choose|k: int| 0 <= k < earlier.len() && earlier[k] == n;
                assert(told[k] == n);
            } else {
                assert(told[told.len() - 1] == n);
            }
        }
        assert forall|i: int| 0 <= i < earlier.len() implies #[trigger] told[i] == earlier[i] && ids.contains(
            subject(told[i]),
        ) && subject(told[i]) != last by {
            let g = subject(earlier[i]);
            let k = choose|k: int| 0 <= k < shorter.len() && shorter[k] == g;
            assert(ids[k] == g);
            assert(ids[ids.len() - 1] == last);
        }
        assert(ids[ids.len() - 1] == last);
        assert(ids.contains(last));
    }
}

/// What is told of groups in two lists is told of the first, then of the second.
proof fn lemma_changes_add(a: Seq<Seq<char>>, b: Seq<Seq<char>>, s: Stored, t: Stored)
    ensures
        crate::model::changes(a + b, s, t) == crate::model::changes(a, s, t) + crate::model::changes(b, s, t),
    decreases b.len(),
{
    if b.len() == 0 {
        assert(a + b =~= a);
        assert(crate::model::changes(a, s, t) + crate::model::changes(b, s, t) =~= crate::model::changes(a, s, t));
    } else {
        lemma_changes_add(a, b.drop_last(), s, t);
        assert((a + b).drop_last() =~= a + b.drop_last());
        assert(crate::model::changes(a + b, s, t) =~= crate::model::changes(a, s, t) + crate::model::changes(
            b,
            s,
            t,
        ));
    }
}

/// The group is read otherwise than before.
pub open spec fn changed(g: Seq<char>, s: Stored, t: Stored) -> bool {
    &&& crate::model::joined(s, g) != crate::model::joined(t, g)
    &&& differ(crate::model::joined(s, g), crate::model::joined(t, g))
}

/// What holds of a list of updates that tells all of a change, and nothing else.
spec fn tells_all(told: Seq<GroupUpdateView>, s: Stored, t: Stored) -> bool {
    &&& forall|g: Seq<char>| #[trigger]
        changed(g, s, t) ==> told.contains(news_of(g, crate::model::joined(t, g)))
    &&& forall|i: int| 0 <= i < told.len() ==> #[trigger] well_told(told, i, s, t)
    &&& forall|i: int, j: int|
        0 <= i < j < told.len() && subject(#[trigger] told[i]) == subject(#[trigger] told[j]) ==> j == i + 1
            && told[i] is RemovedId && told[j] is Upserted
}

/// The update at `i` tells what is so: how a group that changed is now read; that a
/// group is gone; or, right before the former, that it is on another side now.
pub open spec fn well_told(told: Seq<GroupUpdateView>, i: int, s: Stored, t: Stored) -> bool {
    let g = subject(told[i]);
    let before = crate::model::joined(s, g);
    let now = crate::model::joined(t, g);
    match told[i] {
        GroupUpdateView::Upserted(group) => now == Some(group) && differ(before, now),
        GroupUpdateView::RemovedId(_) => before is Some && (now is None || (before->0.side != now->0.side && i + 1
            < told.len() && told[i + 1] == GroupUpdateView::Upserted(now->0))),
    }
}

proof fn lemma_changes_tell_all(ids: Seq<Seq<char>>, s: Stored, t: Stored)
    requires
        crate::model::stored_wf(t),
        ids.no_duplicates(),
        forall|g: Seq<char>| !ids.contains(g) ==> #[trigger] crate::model::joined(s, g) == crate::model::joined(t, g),
    ensures
        tells_all(crate::model::changes(ids, s, t), s, t),
{
    lemma_changes_are_news(ids, s, t);
    let told = crate::model::changes(ids, s, t);
    assert forall|i: int| 0 <= i < told.len() implies #[trigger] well_told(told, i, s, t) by {
        let g = subject(told[i]);
        assert(told[i] == news_of(g, crate::model::joined(t, g)));
    }
    assert forall|g: Seq<char>| #[trigger] changed(g, s, t) implies told.contains(
        news_of(g, crate::model::joined(t, g)),
    ) by {
        assert(ids.contains(g));
    }
}

/// An upsert of a group tells all, with the removal that comes first when the side
/// changes.
proof fn lemma_group_upsert_tells_all(
    group: GroupView,
    others: Seq<Seq<char>>,
    s: Stored,
    t: Stored,
)
    requires
        crate::model::stored_wf(s),
        crate::model::stored_wf(t),
        others.no_duplicates(),
        !others.contains(group.id),
        t.groups == s.groups.insert(group.id, crate::model::bare(group)),
        forall|g: Seq<char>|
            g != group.id && !others.contains(g) ==> #[trigger] crate::model::joined(s, g)
                == crate::model::joined(t, g),
    ensures
        tells_all(
            crate::model::side_removal(s, group) + crate::model::changes(seq![group.id] + others, s, t),
            s,
            t,
        ),
{
    let first = crate::model::side_removal(s, group);
    let ids = seq![group.id] + others;
    let rest = crate::model::changes(ids, s, t);
    let told = first + rest;
    assert(ids[0] == group.id);
    assert forall|g: Seq<char>| !ids.contains(g) implies #[trigger] crate::model::joined(s, g) == crate::model::joined(
        t,
        g,
    ) by {
        if others.contains(g) {
            let k = choose|k: int| 0 <= k < others.len() && others[k] == g;
            assert(ids[k + 1] == g);
        }
    }
    assert(ids.no_duplicates()) by {
        assert forall|i: int, j: int| 0 <= i < ids.len() && 0 <= j < ids.len() && i != j implies ids[i] != ids[j] by {
            if i > 0 {
                assert(ids[i] == others[i - 1]);
                assert(others.contains(others[i - 1]));
            }
            if j > 0 {
                assert(ids[j] == others[j - 1]);
                assert(others.contains(others[j - 1]));
            }
        }
    }
    lemma_changes_tell_all(ids, s, t);
    if first.len() == 0 {
        assert(told =~= rest);
    } else {
        let before = crate::model::joined(s, group.id);
        let now = crate::model::joined(t, group.id);
        lemma_changes_add(seq![group.id], others, s, t);
        crate::model::lemma_changes_one(group.id, s, t);
        lemma_change_is_news(group.id, before, now);
        assert(differ(before, now));
        assert(rest[0] == GroupUpdateView::Upserted(now->0));
        assert(told[0] == GroupUpdateView::RemovedId(group.id));
        assert forall|g: Seq<char>| #[trigger] changed(g, s, t) implies told.contains(
            news_of(g, crate::model::joined(t, g)),
        ) by {
            let n = news_of(g, crate::model::joined(t, g));
            let k = choose|k: int| 0 <= k < rest.len() && rest[k] == n;
            assert(told[k + 1] == n);
        }
        assert forall|i: int| 0 <= i < told.len() implies #[trigger] well_told(told, i, s, t) by {
            if i == 0 {
                assert(told[1] == rest[0]);
            } else {
                assert(told[i] == rest[i - 1]);
                assert(well_told(rest, i - 1, s, t));
                if i < rest.len() {
                    assert(told[i + 1] == rest[i]);
                }
            }
        }
        assert forall|i: int, j: int|
            0 <= i < j < told.len() && subject(#[trigger] told[i]) == subject(#[trigger] told[j]) implies j == i + 1
            && told[i] is RemovedId && told[j] is Upserted by {
            assert(told[j] == rest[j - 1]);
            if i == 0 {
                if j > 1 {
                    assert(subject(rest[0]) == subject(rest[j - 1]));
                    assert(false);
                }
            } else {
                assert(told[i] == rest[i - 1]);
            }
        }
    }
}

/// Removing groups in turn tells all.
proof fn lemma_removals_tell_all(ids: Seq<Seq<char>>, s: Stored, t: Stored)
    requires
        ids.no_duplicates(),
        forall|g: Seq<char>| !ids.contains(g) ==> #[trigger] crate::model::joined(s, g) == crate::model::joined(t, g),
        forall|g: Seq<char>| #[trigger]
            ids.contains(g) ==> crate::model::joined(s, g) is Some && crate::model::joined(t, g) is None,
    ensures
        tells_all(crate::model::removals(ids), s, t),
{
    let told = crate::model::removals(ids);
    assert forall|i: int| 0 <= i < told.len() implies #[trigger] well_told(told, i, s, t) by {
        assert(ids.contains(ids[i]));
    }
    assert forall|g: Seq<char>| #[trigger] changed(g, s, t) implies told.contains(
        news_of(g, crate::model::joined(t, g)),
    ) by {
        assert(ids.contains(g));
        let k = choose|k: int| 0 <= k < ids.len() && ids[k] == g;
        assert(told[k] == GroupUpdateView::RemovedId(g));
    }
}

/// The ids of an ascending list are distinct.
proof fn lemma_listing_distinct(set: Set<Seq<char>>)
    requires
        set.finite(),
    ensures
        crate::text::listing(set).no_duplicates(),
{
    let ids = crate::text::listing(set);
    crate::text::lemma_listing_exists(set);
    assert forall|i: int, j: int| 0 <= i < ids.len() && 0 <= j < ids.len() && i != j implies ids[i] != ids[j] by {
        crate::text::lemma_irreflexive(ids[i]);
        if i < j {
            assert(crate::text::precedes(ids[i], ids[j]));
        } else {
            assert(crate::text::precedes(ids[j], ids[i]));
        }
    }
}

/// Every write tells all.
proof fn lemma_write_tells_all(c: CacheView, write: Write)
    requires
        crate::model::stored_wf(c.stored),
    ensures
        tells_all(crate::laws::updates_of(c, write), c.stored, crate::laws::after(c, write).stored),
{
    let s = c.stored;
    let t = crate::laws::after(c, write).stored;
    crate::laws::lemma_stored_wf(c, write);
    match write {
        Write::UpsertUnit(unit) => {
            let ids = crate::model::groups_of_unit(s, unit);
            assert forall|g: Seq<char>| !ids.contains(g) implies #[trigger] crate::model::joined(s, g)
                == crate::model::joined(t, g) by {
                crate::laws::reading::law_upserted_unit_is_read_back(c, unit, unit.id, g);
            }
            lemma_changes_tell_all(ids, s, t);
        },
        Write::RemoveUnit(id) => {
            if s.units.contains_key(id) {
                let ids = seq![s.units[id].group_id];
                assert forall|g: Seq<char>| !ids.contains(g) implies #[trigger] crate::model::joined(s, g)
                    == crate::model::joined(t, g) by {
                    assert(ids[0] == s.units[id].group_id);
                    assert(crate::model::members_of(s, g) =~= crate::model::members_of(t, g));
                    crate::laws::lemma_same_reading(s, t, g);
                }
                lemma_changes_tell_all(ids, s, t);
            } else {
                assert(t =~= s);
            }
        },
        Write::UpsertGroup(group) => {
            let others = Seq::<Seq<char>>::empty();
            assert(seq![group.id] + others =~= seq![group.id]);
            assert forall|g: Seq<char>| g != group.id && !others.contains(g) implies #[trigger] crate::model::joined(
                s,
                g,
            ) == crate::model::joined(t, g) by {
                crate::laws::reading::law_upserted_group_is_read_back(c, group, g);
            }
            lemma_group_upsert_tells_all(group, others, s, t);
        },
        Write::UpsertGroupWithUnits(group, units) => {
            let donors = crate::model::donors(s, group.id, units);
            let others = crate::text::listing(donors);
            crate::model::lemma_donor(s, group.id, units, group.id);
            crate::model::lemma_donors_finite(s, group.id, units);
            crate::text::lemma_listing_exists(donors);
            lemma_listing_distinct(donors);
            assert(!donors.contains(group.id));
            assert forall|g: Seq<char>| g != group.id && !others.contains(g) implies #[trigger] crate::model::joined(
                s,
                g,
            ) == crate::model::joined(t, g) by {
                assert(!donors.contains(g));
                crate::laws::subscriber::lemma_group_units_readings(s, group, units, g);
            }
            lemma_group_upsert_tells_all(group, others, s, t);
        },
        Write::RemoveGroup(id) => {
            if s.groups.contains_key(id) {
                let ids = seq![id];
                assert(ids[0] == id);
                assert forall|g: Seq<char>| !ids.contains(g) implies #[trigger] crate::model::joined(s, g)
                    == crate::model::joined(t, g) by {
                    crate::laws::reading::law_removed_group_is_gone(c, id, g, g);
                }
                assert(crate::model::removals(ids) =~= seq![GroupUpdateView::RemovedId(id)]);
                lemma_removals_tell_all(ids, s, t);
            }
        },
        Write::Clear => {
            let ids = crate::text::listing(s.groups.dom());
            crate::text::lemma_listing_exists(s.groups.dom());
            lemma_listing_distinct(s.groups.dom());
            assert forall|g: Seq<char>| #[trigger] ids.contains(g) implies crate::model::joined(s, g) is Some
                && crate::model::joined(t, g) is None by {
                assert(s.groups.dom().contains(g));
            }
            assert forall|g: Seq<char>| !ids.contains(g) implies #[trigger] crate::model::joined(s, g)
                == crate::model::joined(t, g) by {
                assert(!s.groups.dom().contains(g));
            }
            lemma_removals_tell_all(ids, s, t);
        },
        _ => {},
    }
}

/// What a write has told are its updates.
proof fn lemma_told_of(c: CacheView, write: Write)
    ensures
        told_of(c, write).len() == crate::laws::updates_of(c, write).len(),
        forall|i: int|
            0 <= i < told_of(c, write).len() ==> #[trigger] told_of(c, write)[i] == Some(
                crate::laws::updates_of(c, write)[i],
            ),
{
    crate::laws::lemma_history(c, write);
}

/// Law: all that a write changed about a group is told. Where the group is then read
/// with another side, readiness or task flag, with other waypoints or other units, or
/// with a unit of another id, group, category, kind, rest or position, or where it is
/// new, subscribers are told how it is now read; where it is gone they are told that.
pub proof fn law_every_change_is_told(c: CacheView, write: Write, g: Seq<char>)
    requires
        crate::model::stored_wf(c.stored),
    ensures
        ({
            let before = crate::model::joined(c.stored, g);
            let now = crate::model::joined(crate::laws::after(c, write).stored, g);
            let told = told_of(c, write);
            &&& now is Some && (before is None || (before->0 != now->0 && !crate::laws::messages::equal_groups(
                now->0,
                before->0,
            ))) ==> told.contains(Some(GroupUpdateView::Upserted(now->0)))
            &&& now is None && before is Some ==> told.contains(Some(GroupUpdateView::RemovedId(g)))
        }),
{
    let s = c.stored;
    let t = crate::laws::after(c, write).stored;
    let updates = crate::laws::updates_of(c, write);
    let told = told_of(c, write);
    lemma_write_tells_all(c, write);
    lemma_told_of(c, write);
    if changed(g, s, t) {
        let n = news_of(g, crate::model::joined(t, g));
        let k = choose|k: int| 0 <= k < updates.len() && updates[k] == n;
        assert(told[k] == Some(n));
    }
}

/// Law: only what a write changed is told, and it is told as it is. An upsert carries
/// the group as it is now read, and comes only if that is not how it was read before.
/// A removal comes only for a group that was there, and is gone or changes its side;
/// in the latter case its upsert comes next.
pub proof fn law_only_changes_are_told(c: CacheView, write: Write, i: int)
    requires
        crate::model::stored_wf(c.stored),
        0 <= i < told_of(c, write).len(),
    ensures
        ({
            let s = c.stored;
            let t = crate::laws::after(c, write).stored;
            let told = told_of(c, write);
            match told[i] {
                Some(GroupUpdateView::Upserted(group)) => {
                    let before = crate::model::joined(s, group.id);
                    &&& crate::model::joined(t, group.id) == Some(group)
                    &&& before is Some ==> !crate::laws::messages::equal_groups(group, before->0)
                },
                Some(GroupUpdateView::RemovedId(g)) => {
                    let before = crate::model::joined(s, g);
                    let now = crate::model::joined(t, g);
                    &&& before is Some
                    &&& now is Some ==> now->0.side != before->0.side && i + 1 < told.len() && told[i + 1] == Some(
                        GroupUpdateView::Upserted(now->0),
                    )
                },
                None => false,
            }
        }),
{
    lemma_write_tells_all(c, write);
    lemma_told_of(c, write);
    let updates = crate::laws::updates_of(c, write);
    assert(well_told(updates, i, c.stored, crate::laws::after(c, write).stored));
    assert(told_of(c, write)[i] == Some(updates[i]));
    if i + 1 < updates.len() {
        assert(told_of(c, write)[i + 1] == Some(updates[i + 1]));
    }
}

/// Law: a write tells of a group once, but for a change of side, which it tells as a
/// removal and, next, an upsert.
pub proof fn law_each_group_is_told_of_once(c: CacheView, write: Write, i: int, j: int)
    requires
        crate::model::stored_wf(c.stored),
        0 <= i < j < told_of(c, write).len(),
        subject(told_of(c, write)[i]->0) == subject(told_of(c, write)[j]->0),
    ensures
        j == i + 1,
        told_of(c, write)[i]->0 is RemovedId,
        told_of(c, write)[j]->0 is Upserted,
{
    lemma_write_tells_all(c, write);
    lemma_told_of(c, write);
    let updates = crate::laws::updates_of(c, write);
    assert(told_of(c, write)[i] == Some(updates[i]));
    assert(told_of(c, write)[j] == Some(updates[j]));
}

/// Law: where a write moves a group to another side, its removal is told before all
/// else, and next how it is now read, so that a subscriber to the old side lets go of
/// it.
pub proof fn law_a_new_side_is_told_as_removal_and_upsert(c: CacheView, write: Write, g: Seq<char>)
    requires
        crate::model::stored_wf(c.stored),
    ensures
        ({
            let before = crate::model::joined(c.stored, g);
            let now = crate::model::joined(crate::laws::after(c, write).stored, g);
            let told = told_of(c, write);
            before is Some && now is Some && before->0.side != now->0.side ==> {
                &&& told.len() >= 2
                &&& told[0] == Some(GroupUpdateView::RemovedId(g))
                &&& told[1] == Some(GroupUpdateView::Upserted(now->0))
            }
        }),
{
    let s = c.stored;
    let t = crate::laws::after(c, write).stored;
    let before = crate::model::joined(s, g);
    let now = crate::model::joined(t, g);
    if before is Some && now is Some && before->0.side != now->0.side {
        lemma_told_of(c, write);
        let updates = crate::laws::updates_of(c, write);
        assert(updates[0] == GroupUpdateView::RemovedId(g));
        assert(told_of(c, write)[0] == Some(updates[0]));
        law_only_changes_are_told(c, write, 0);
    }
}

/// Law: of an upsert, the group that is upserted, or that the unit is in, is told of
/// before those that lost a unit to it.
pub proof fn law_the_upserted_group_is_told_of_first(c: CacheView, write: Write, own: Seq<char>, i: int, j: int)
    requires
        crate::model::stored_wf(c.stored),
        match write {
            Write::UpsertUnit(unit) => own == unit.group_id,
            Write::UpsertGroupWithUnits(group, _) => own == group.id,
            _ => false,
        },
        0 <= i < j < told_of(c, write).len(),
        subject(told_of(c, write)[j]->0) == own,
    ensures
        subject(told_of(c, write)[i]->0) == own,
{
    let s = c.stored;
    let t = crate::laws::after(c, write).stored;
    let updates = crate::laws::updates_of(c, write);
    crate::laws::lemma_stored_wf(c, write);
    lemma_told_of(c, write);
    assert(told_of(c, write)[i] == Some(updates[i]));
    assert(told_of(c, write)[j] == Some(updates[j]));
    let others = match write {
        Write::UpsertUnit(unit) => if crate::model::groups_of_unit(s, unit).len() == 2 {
            seq![s.units[unit.id].group_id]
        } else {
            Seq::<Seq<char>>::empty()
        },
        Write::UpsertGroupWithUnits(group, units) => crate::text::listing(
            crate::model::donors(s, group.id, units),
        ),
        _ => Seq::<Seq<char>>::empty(),
    };
    if let Write::UpsertUnit(unit) = write {
        assert(crate::model::groups_of_unit(s, unit) =~= seq![own] + others);
    }
    if let Write::UpsertGroupWithUnits(group, units) = write {
        let donors = crate::model::donors(s, group.id, units);
        crate::model::lemma_donor(s, group.id, units, group.id);
        crate::model::lemma_donors_finite(s, group.id, units);
        crate::text::lemma_listing_exists(donors);
        lemma_listing_distinct(donors);
        assert(!donors.contains(own));
    }
    assert(!others.contains(own));
    lemma_changes_add(seq![own], others, s, t);
    crate::model::lemma_changes_one(own, s, t);
    lemma_change_is_news(own, crate::model::joined(s, own), crate::model::joined(t, own));
    lemma_changes_are_news(others, s, t);
    let last = crate::model::changes(others, s, t);
    let first = (updates.len() - last.len()) as int;
    assert forall|k: int| first <= k < updates.len() implies #[trigger] updates[k] == last[k - first] by {}
    if j >= first {
        assert(others.contains(subject(last[j - first])));
    }
}

} // verus!
