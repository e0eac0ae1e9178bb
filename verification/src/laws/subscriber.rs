//! What a group subscriber knows.

use vstd::prelude::*;

use crate::events::{GroupEventView, SimulationEventView};
use crate::laws::Write;
use crate::model::{CacheView, Stored};
use crate::proto::{GroupUpdateView, GroupView, Side, SimulationStateUpdateView};
use crate::services::{ReceivedView, StepView};

verus! {

/// The groups that a subscriber knows of, as it was last told of each.
pub type Picture = Map<Seq<char>, GroupView>;

/// The picture after a message.
pub open spec fn redrawn(picture: Picture, message: Option<GroupUpdateView>) -> Picture {
    match message {
        Some(GroupUpdateView::Upserted(group)) => picture.insert(group.id, group),
        Some(GroupUpdateView::RemovedId(id)) => picture.remove(id),
        None => picture,
    }
}

/// The picture after the messages that a subscriber is sent first.
pub open spec fn drawn(messages: Seq<Option<GroupUpdateView>>) -> Picture
    decreases messages.len(),
{
    if messages.len() == 0 {
        Map::empty()
    } else {
        redrawn(drawn(messages.drop_last()), messages.last())
    }
}

/// The picture after a subscriber to `side` has come upon `events`.
pub open spec fn followed(
    picture: Picture,
    snapshot_sequence: nat,
    side: Option<Side>,
    events: Seq<GroupEventView>,
) -> Picture
    decreases events.len(),
{
    if events.len() == 0 {
        picture
    } else {
        let before = followed(picture, snapshot_sequence, side, events.drop_last());
        match crate::services::group::group_step(
            snapshot_sequence,
            side,
            ReceivedView::Event(events.last()),
        ) {
            StepView::Send(message) => redrawn(before, message),
            _ => before,
        }
    }
}

/// The two are the same group, up to the two zeros of a number.
pub open spec fn alike(a: GroupView, b: GroupView) -> bool {
    a == b || crate::proto::same_group(a, b)
}

/// The picture is right about a group that is now read as `reading`: it shows
/// the group when the group is on the subscriber's side, and shows it as it is.
pub open spec fn right_about(
    picture: Picture,
    side: Option<Side>,
    g: Seq<char>,
    reading: Option<GroupView>,
) -> bool {
    match reading {
        Some(group) => if crate::proto::side_matches(side, group.side) {
            picture.contains_key(g) && alike(picture[g], group)
        } else {
            !picture.contains_key(g)
        },
        None => !picture.contains_key(g),
    }
}

/// The picture shows the groups of a side, and shows them as they are read.
pub open spec fn up_to_date(picture: Picture, side: Option<Side>, s: Stored) -> bool {
    forall|g: Seq<char>| #[trigger] right_about(picture, side, g, crate::model::joined(s, g))
}

/// The picture after a subscriber to `side` was told `updates`.
spec fn told_to(picture: Picture, side: Option<Side>, updates: Seq<GroupUpdateView>) -> Picture
    decreases updates.len(),
{
    if updates.len() == 0 {
        picture
    } else {
        let before = told_to(picture, side, updates.drop_last());
        if crate::services::group::concerns(side, Some(updates.last())) {
            redrawn(before, Some(updates.last()))
        } else {
            before
        }
    }
}

/// Being told in two parts is being told at once.
proof fn lemma_told_to_add(
    picture: Picture,
    side: Option<Side>,
    a: Seq<GroupUpdateView>,
    b: Seq<GroupUpdateView>,
)
    ensures
        told_to(picture, side, a + b) == told_to(told_to(picture, side, a), side, b),
    decreases b.len(),
{
    if b.len() == 0 {
        assert(a + b =~= a);
    } else {
        lemma_told_to_add(picture, side, a, b.drop_last());
        assert((a + b).drop_last() =~= a + b.drop_last());
    }
}

/// Being told a single update.
proof fn lemma_told_to_one(picture: Picture, side: Option<Side>, update: GroupUpdateView)
    ensures
        told_to(picture, side, seq![update]) == if crate::services::group::concerns(side, Some(update)) {
            redrawn(picture, Some(update))
        } else {
            picture
        },
{
    let one = seq![update];
    assert(one.drop_last() =~= Seq::empty());
    reveal_with_fuel(told_to, 2);
}

/// Following events in two parts is following them at once.
proof fn lemma_followed_add(
    picture: Picture,
    n: nat,
    side: Option<Side>,
    a: Seq<GroupEventView>,
    b: Seq<GroupEventView>,
)
    ensures
        followed(picture, n, side, a + b) == followed(followed(picture, n, side, a), n, side, b),
    decreases b.len(),
{
    if b.len() == 0 {
        assert(a + b =~= a);
    } else {
        lemma_followed_add(picture, n, side, a, b.drop_last());
        assert((a + b).drop_last() =~= a + b.drop_last());
    }
}

/// Events up to the snapshot are passed over.
proof fn lemma_followed_old(picture: Picture, n: nat, side: Option<Side>, events: Seq<GroupEventView>)
    requires
        forall|i: int| 0 <= i < events.len() ==> (#[trigger] events[i]).sequence <= n,
    ensures
        followed(picture, n, side, events) == picture,
    decreases events.len(),
{
    if events.len() > 0 {
        lemma_followed_old(picture, n, side, events.drop_last());
        assert(events[events.len() - 1].sequence <= n);
    }
}

/// Events after the snapshot are forwarded by what they tell.
proof fn lemma_followed_new(
    picture: Picture,
    n: nat,
    side: Option<Side>,
    sequence: nat,
    updates: Seq<GroupUpdateView>,
)
    requires
        n <= sequence,
    ensures
        followed(picture, n, side, crate::model::numbered(sequence, updates)) == told_to(
            picture,
            side,
            updates,
        ),
    decreases updates.len(),
{
    let events = crate::model::numbered(sequence, updates);
    if updates.len() > 0 {
        lemma_followed_new(picture, n, side, sequence, updates.drop_last());
        assert(events.drop_last() =~= crate::model::numbered(sequence, updates.drop_last()));
    }
}

/// What holds of a picture before it is told how a group changed: it is right
/// about the group as it was, or already as it is, or was made to forget it.
spec fn ready(
    picture: Picture,
    side: Option<Side>,
    g: Seq<char>,
    before: Option<GroupView>,
    now: Option<GroupView>,
) -> bool {
    ||| right_about(picture, side, g, now)
    ||| {
        &&& right_about(picture, side, g, before)
        &&& before is Some && now is Some ==> before->0.side == now->0.side
    }
    ||| {
        &&& !picture.contains_key(g)
        &&& !crate::model::same_joined(now, before)
    }
}

/// Telling how a group changed makes the picture right about it, and touches no
/// other.
proof fn lemma_told_change(
    picture: Picture,
    side: Option<Side>,
    g: Seq<char>,
    before: Option<GroupView>,
    now: Option<GroupView>,
)
    requires
        ready(picture, side, g, before, now),
        now is Some ==> now->0.id == g,
    ensures
        right_about(told_to(picture, side, crate::model::change(g, before, now)), side, g, now),
        forall|h: Seq<char>, reading: Option<GroupView>|
            h != g ==> #[trigger] right_about(
                told_to(picture, side, crate::model::change(g, before, now)),
                side,
                h,
                reading,
            ) == right_about(picture, side, h, reading),
{
    if crate::model::same_joined(now, before) {
        if now is Some && picture.contains_key(g) {
            if alike(picture[g], before->0) {
                crate::proto::law_same_group_symmetric(now->0, before->0);
                if picture[g] != before->0 {
                    crate::proto::law_same_group_transitive(picture[g], before->0, now->0);
                }
            }
        }
    } else {
        match now {
            Some(group) => {
                lemma_told_to_one(picture, side, GroupUpdateView::Upserted(group));
            },
            None => {
                lemma_told_to_one(picture, side, GroupUpdateView::RemovedId(g));
            },
        }
    }
}

/// Telling how some groups changed makes the picture right about them, and
/// touches no other.
proof fn lemma_told_changes(picture: Picture, side: Option<Side>, ids: Seq<Seq<char>>, s: Stored, t: Stored)
    requires
        crate::model::stored_wf(t),
        forall|g: Seq<char>| #[trigger]
            ids.contains(g) ==> ready(
                picture,
                side,
                g,
                crate::model::joined(s, g),
                crate::model::joined(t, g),
            ),
    ensures
        forall|g: Seq<char>| #[trigger]
            ids.contains(g) ==> right_about(
                told_to(picture, side, crate::model::changes(ids, s, t)),
                side,
                g,
                crate::model::joined(t, g),
            ),
        forall|h: Seq<char>, reading: Option<GroupView>|
            !ids.contains(h) ==> #[trigger] right_about(
                told_to(picture, side, crate::model::changes(ids, s, t)),
                side,
                h,
                reading,
            ) == right_about(picture, side, h, reading),
    decreases ids.len(),
{
    if ids.len() > 0 {
        let shorter = ids.drop_last();
        let last = ids.last();
        let before = crate::model::joined(s, last);
        let now = crate::model::joined(t, last);
        assert forall|g: Seq<char>| #[trigger] shorter.contains(g) implies ready(
            picture,
            side,
            g,
            crate::model::joined(s, g),
            crate::model::joined(t, g),
        ) by {
            let i = choose|i: int| 0 <= i < shorter.len() && shorter[i] == g;
            assert(ids[i] == g);
            assert(ids.contains(g));
        }
        lemma_told_changes(picture, side, shorter, s, t);
        let told = told_to(picture, side, crate::model::changes(shorter, s, t));
        assert(ids[ids.len() - 1] == last);
        assert(ids.contains(last));
        assert(ready(picture, side, last, before, now));
        assert(ready(told, side, last, before, now)) by {
            if !shorter.contains(last) {
                assert(right_about(told, side, last, now) == right_about(picture, side, last, now));
                assert(right_about(told, side, last, before) == right_about(picture, side, last, before));
                assert(right_about(told, side, last, None) == right_about(picture, side, last, None));
            }
        }
        lemma_told_change(told, side, last, before, now);
        lemma_told_to_add(
            picture,
            side,
            crate::model::changes(shorter, s, t),
            crate::model::change(last, before, now),
        );
        assert forall|g: Seq<char>| #[trigger] ids.contains(g) implies g == last || shorter.contains(g) by {
            let i = choose|i: int| 0 <= i < ids.len() && ids[i] == g;
            if i < shorter.len() {
                assert(shorter[i] == g);
            }
        }
        assert forall|g: Seq<char>| #[trigger] shorter.contains(g) implies ids.contains(g) by {
            let i = choose|i: int| 0 <= i < shorter.len() && shorter[i] == g;
            assert(ids[i] == g);
        }
    }
}

/// A unit that is upserted changes no group but the one it comes to and the one
/// it leaves.
proof fn lemma_unit_readings(s: Stored, t: Stored, unit: Seq<char>, g: Seq<char>)
    requires
        crate::model::stored_wf(s),
        t.groups == s.groups,
        forall|u: Seq<char>|
            u != unit ==> #[trigger] s.units.contains_key(u) == t.units.contains_key(u),
        forall|u: Seq<char>|
            u != unit && s.units.contains_key(u) ==> #[trigger] s.units[u] == t.units[u],
        s.units.contains_key(unit) ==> s.units[unit].group_id != g,
        t.units.contains_key(unit) ==> t.units[unit].group_id != g,
    ensures
        crate::model::joined(s, g) == crate::model::joined(t, g),
{
    let a = crate::model::members_of(s, g);
    let b = crate::model::members_of(t, g);
    assert forall|u: Seq<char>| a.contains(u) <==> b.contains(u) by {
        if u != unit {
            assert(s.units.contains_key(u) == t.units.contains_key(u));
            assert(s.units.contains_key(u) ==> s.units[u] == t.units[u]);
        }
    }
    assert(a =~= b);
    crate::laws::lemma_same_reading(s, t, g);
}

/// The groups that an upsert with units does not concern are read as before.
pub proof fn lemma_group_units_readings(s: Stored, group: GroupView, units: Seq<crate::proto::UnitView>, g: Seq<char>)
    requires
        crate::model::stored_wf(s),
        g != group.id,
        !crate::model::donors(s, group.id, units).contains(g),
    ensures
        crate::model::joined(s, g) == crate::model::joined(
            crate::model::with_group_units(s, group, units),
            g,
        ),
{
    let t = crate::model::with_group_units(s, group, units);
    let mid = crate::model::regrouped(s, group.id, units);
    let listed = crate::model::listed_ids(units);
    let kept = crate::model::kept_units(s, group.id, listed);
    crate::model::lemma_regrouped(s, group.id, units, g);
    crate::model::lemma_donor(s, group.id, units, g);
    crate::model::lemma_with_all(kept, crate::model::adopted(units, group.id));
    crate::model::lemma_adopted_ids(units, group.id);
    assert(crate::model::members_of(t, g) =~= crate::model::members_of(mid, g));
    assert forall|u: Seq<char>| #[trigger] crate::model::members_of(s, g).contains(u) implies !listed.contains(u)
        && s.units[u] == t.units[u] by {
        if listed.contains(u) {
            assert(crate::model::donors(s, group.id, units).contains(g));
        }
        assert(kept.contains_key(u));
    }
    assert(crate::model::members_of(s, g) =~= crate::model::members_of(t, g));
    crate::laws::lemma_same_reading(s, t, g);
}

/// The other groups are read as before when one is removed.
proof fn lemma_removal_readings(s: Stored, id: Seq<char>, g: Seq<char>)
    requires
        crate::model::stored_wf(s),
        g != id,
    ensures
        crate::model::joined(s, g) == crate::model::joined(crate::model::without_group(s, id), g),
{
    let t = crate::model::without_group(s, id);
    assert(crate::model::members_of(s, g) =~= crate::model::members_of(t, g));
    crate::laws::lemma_same_reading(s, t, g);
}

/// A write that only has groups told of keeps a picture up to date.
proof fn lemma_told_all(
    picture: Picture,
    side: Option<Side>,
    ids: Seq<Seq<char>>,
    s: Stored,
    t: Stored,
)
    requires
        crate::model::stored_wf(t),
        up_to_date(picture, side, s),
        forall|g: Seq<char>| !ids.contains(g) ==> #[trigger] crate::model::joined(s, g) == crate::model::joined(t, g),
        forall|g: Seq<char>| #[trigger]
            s.groups.contains_key(g) && t.groups.contains_key(g) ==> s.groups[g].side == t.groups[g].side,
    ensures
        up_to_date(told_to(picture, side, crate::model::changes(ids, s, t)), side, t),
{
    assert forall|g: Seq<char>| #[trigger] ids.contains(g) implies ready(
        picture,
        side,
        g,
        crate::model::joined(s, g),
        crate::model::joined(t, g),
    ) by {
        assert(right_about(picture, side, g, crate::model::joined(s, g)));
        assert(s.groups.contains_key(g) && t.groups.contains_key(g) ==> s.groups[g].side == t.groups[g].side);
    }
    lemma_told_changes(picture, side, ids, s, t);
    let told = told_to(picture, side, crate::model::changes(ids, s, t));
    assert forall|g: Seq<char>| #[trigger] right_about(told, side, g, crate::model::joined(t, g)) by {
        if !ids.contains(g) {
            assert(right_about(picture, side, g, crate::model::joined(s, g)));
            assert(crate::model::joined(s, g) == crate::model::joined(t, g));
        }
    }
}

/// An upsert of a group keeps a picture up to date: a change of side is told as
/// a removal first.
proof fn lemma_told_group(
    picture: Picture,
    side: Option<Side>,
    group: GroupView,
    others: Seq<Seq<char>>,
    s: Stored,
    t: Stored,
)
    requires
        crate::model::stored_wf(s),
        crate::model::stored_wf(t),
        up_to_date(picture, side, s),
        !others.contains(group.id),
        t.groups == s.groups.insert(group.id, crate::model::bare(group)),
        forall|g: Seq<char>|
            g != group.id && !others.contains(g) ==> #[trigger] crate::model::joined(s, g)
                == crate::model::joined(t, g),
    ensures
        up_to_date(
            told_to(
                picture,
                side,
                crate::model::side_removal(s, group) + crate::model::changes(seq![group.id] + others, s, t),
            ),
            side,
            t,
        ),
{
    let ids = seq![group.id] + others;
    let first = crate::model::side_removal(s, group);
    let changes = crate::model::changes(ids, s, t);
    let start = told_to(picture, side, first);
    lemma_told_to_add(picture, side, first, changes);
    if first.len() > 0 {
        lemma_told_to_one(picture, side, GroupUpdateView::RemovedId(group.id));
    }
    assert forall|g: Seq<char>, reading: Option<GroupView>| g != group.id implies #[trigger] right_about(
        start,
        side,
        g,
        reading,
    ) == right_about(picture, side, g, reading) by {}
    assert forall|g: Seq<char>| #[trigger] ids.contains(g) implies ready(
        start,
        side,
        g,
        crate::model::joined(s, g),
        crate::model::joined(t, g),
    ) by {
        assert(right_about(picture, side, g, crate::model::joined(s, g)));
        if g != group.id {
            assert(right_about(start, side, g, crate::model::joined(s, g)));
        }
    }
    lemma_told_changes(start, side, ids, s, t);
    let told = told_to(start, side, changes);
    assert forall|g: Seq<char>| #[trigger] right_about(told, side, g, crate::model::joined(t, g)) by {
        if ids.contains(g) {
        } else {
            assert(ids[0] == group.id);
            assert(g != group.id);
            if others.contains(g) {
                let i = choose|i: int| 0 <= i < others.len() && others[i] == g;
                assert(ids[i + 1] == g);
            }
            assert(right_about(picture, side, g, crate::model::joined(s, g)));
            assert(crate::model::joined(s, g) == crate::model::joined(t, g));
            assert(right_about(start, side, g, crate::model::joined(t, g)));
        }
    }
}

/// Clearing the cache empties every picture.
proof fn lemma_told_removals(picture: Picture, side: Option<Side>, ids: Seq<Seq<char>>)
    ensures
        forall|g: Seq<char>| #[trigger]
            told_to(picture, side, crate::model::removals(ids)).contains_key(g) <==> picture.contains_key(g)
                && !ids.contains(g),
    decreases ids.len(),
{
    let updates = crate::model::removals(ids);
    if ids.len() > 0 {
        let shorter = ids.drop_last();
        lemma_told_removals(picture, side, shorter);
        assert(updates.drop_last() =~= crate::model::removals(shorter));
        assert(updates.last() == GroupUpdateView::RemovedId(ids.last()));
        let before = told_to(picture, side, updates.drop_last());
        assert(told_to(picture, side, updates) == before.remove(ids.last()));
        assert forall|g: Seq<char>| ids.contains(g) <==> #[trigger] shorter.contains(g) || g == ids.last() by {
            if ids.contains(g) {
                let i = choose|i: int| 0 <= i < ids.len() && ids[i] == g;
                if i < shorter.len() {
                    assert(shorter[i] == g);
                }
            }
            if shorter.contains(g) {
                let i = choose|i: int| 0 <= i < shorter.len() && shorter[i] == g;
                assert(ids[i] == g);
            }
            if g == ids.last() {
                assert(ids[ids.len() - 1] == g);
            }
        }
        assert forall|g: Seq<char>| #[trigger]
            told_to(picture, side, updates).contains_key(g) <==> picture.contains_key(g) && !ids.contains(g) by {
            assert(ids.contains(g) <==> shorter.contains(g) || g == ids.last());
            assert(before.contains_key(g) <==> picture.contains_key(g) && !shorter.contains(g));
        }
    }
}

/// What a write has a subscriber told keeps its picture up to date.
proof fn lemma_told_write(picture: Picture, side: Option<Side>, c: CacheView, write: Write)
    requires
        crate::model::stored_wf(c.stored),
        up_to_date(picture, side, c.stored),
    ensures
        up_to_date(
            told_to(picture, side, crate::laws::updates_of(c, write)),
            side,
            crate::laws::after(c, write).stored,
        ),
{
    let s = c.stored;
    let t = crate::laws::after(c, write).stored;
    crate::laws::lemma_stored_wf(c, write);
    match write {
        Write::UpsertUnit(unit) => {
            let ids = crate::model::groups_of_unit(s, unit);
            assert forall|g: Seq<char>| !ids.contains(g) implies #[trigger] crate::model::joined(s, g)
                == crate::model::joined(t, g) by {
                assert(ids[0] == unit.group_id);
                if s.units.contains_key(unit.id) && s.units[unit.id].group_id == g {
                    assert(ids[1] == g);
                }
                lemma_unit_readings(s, t, unit.id, g);
            }
            lemma_told_all(picture, side, ids, s, t);
        },
        Write::RemoveUnit(id) => {
            if s.units.contains_key(id) {
                let ids = seq![s.units[id].group_id];
                assert forall|g: Seq<char>| !ids.contains(g) implies #[trigger] crate::model::joined(s, g)
                    == crate::model::joined(t, g) by {
                    assert(ids[0] == s.units[id].group_id);
                    lemma_unit_readings(s, t, id, g);
                }
                lemma_told_all(picture, side, ids, s, t);
            } else {
                assert(t =~= s);
            }
        },
        Write::UpsertGroup(group) => {
            let others = Seq::<Seq<char>>::empty();
            assert(seq![group.id] + others =~= seq![group.id]);
            assert forall|g: Seq<char>| g != group.id && !others.contains(g) implies #[trigger] crate::model::joined(
                s,
                g,
            ) == crate::model::joined(t, g) by {
                assert(crate::model::members_of(s, g) =~= crate::model::members_of(t, g));
                crate::laws::lemma_same_reading(s, t, g);
            }
            lemma_told_group(picture, side, group, others, s, t);
        },
        Write::UpsertGroupWithUnits(group, units) => {
            let donors = crate::model::donors(s, group.id, units);
            let others = crate::text::listing(donors);
            crate::model::lemma_listed(units, group.id);
            crate::model::lemma_donor(s, group.id, units, group.id);
            crate::model::lemma_donors_finite(s, group.id, units);
            crate::text::lemma_listing_exists(donors);
            assert(!donors.contains(group.id));
            assert(!others.contains(group.id));
            assert forall|g: Seq<char>| g != group.id && !others.contains(g) implies #[trigger] crate::model::joined(
                s,
                g,
            ) == crate::model::joined(t, g) by {
                assert(!donors.contains(g));
                lemma_group_units_readings(s, group, units, g);
            }
            lemma_told_group(picture, side, group, others, s, t);
        },
        Write::RemoveGroup(id) => {
            if s.groups.contains_key(id) {
                lemma_told_to_one(picture, side, GroupUpdateView::RemovedId(id));
                let told = told_to(picture, side, crate::laws::updates_of(c, write));
                assert forall|g: Seq<char>| #[trigger] right_about(told, side, g, crate::model::joined(t, g)) by {
                    assert(right_about(picture, side, g, crate::model::joined(s, g)));
                    if g != id {
                        lemma_removal_readings(s, id, g);
                    }
                }
            }
        },
        Write::Clear => {
            let ids = crate::text::listing(s.groups.dom());
            crate::text::lemma_listing_exists(s.groups.dom());
            lemma_told_removals(picture, side, ids);
            let told = told_to(picture, side, crate::laws::updates_of(c, write));
            assert forall|g: Seq<char>| #[trigger] right_about(told, side, g, crate::model::joined(t, g)) by {
                assert(right_about(picture, side, g, crate::model::joined(s, g)));
                assert(s.groups.dom().contains(g) <==> ids.contains(g));
                assert(told.contains_key(g) <==> picture.contains_key(g) && !ids.contains(g));
            }
        },
        _ => {},
    }
}

/// What the messages for the groups `ids` draw.
proof fn lemma_drawn(s: Stored, ids: Seq<Seq<char>>)
    requires
        crate::model::stored_wf(s),
        forall|i: int| 0 <= i < ids.len() ==> s.groups.contains_key(#[trigger] ids[i]),
    ensures
        ({
            let picture = drawn(crate::services::group::opening(crate::model::readings(s, ids)));
            forall|g: Seq<char>|
                #![trigger picture.contains_key(g)]
                (picture.contains_key(g) <==> ids.contains(g)) && (picture.contains_key(g) ==> picture[g]
                    == crate::model::joined(s, g)->0)
        }),
    decreases ids.len(),
{
    let messages = crate::services::group::opening(crate::model::readings(s, ids));
    let picture = drawn(messages);
    if ids.len() == 0 {
        assert(forall|g: Seq<char>| !ids.contains(g));
    } else {
        let shorter = ids.drop_last();
        let before = drawn(crate::services::group::opening(crate::model::readings(s, shorter)));
        assert forall|i: int| 0 <= i < shorter.len() implies s.groups.contains_key(#[trigger] shorter[i]) by {
            assert(ids[i] == shorter[i]);
        }
        lemma_drawn(s, shorter);
        let last = ids.last();
        assert(s.groups.contains_key(ids[ids.len() - 1]));
        assert(messages.drop_last() =~= crate::services::group::opening(
            crate::model::readings(s, shorter),
        ));
        assert(picture == before.insert(last, crate::model::joined(s, last)->0));
        assert forall|g: Seq<char>|
            #![trigger picture.contains_key(g)]
            (picture.contains_key(g) <==> ids.contains(g)) && (picture.contains_key(g) ==> picture[g]
                == crate::model::joined(s, g)->0) by {
            assert(before.contains_key(g) <==> shorter.contains(g));
            if ids.contains(g) {
                let i = choose|i: int| 0 <= i < ids.len() && ids[i] == g;
                if i < shorter.len() {
                    assert(shorter[i] == g);
                }
            }
            if shorter.contains(g) {
                let i = choose|i: int| 0 <= i < shorter.len() && shorter[i] == g;
                assert(ids[i] == g);
            }
        }
    }
}

/// Law: the messages that a subscriber is sent first draw the groups of its
/// side as they are.
pub proof fn law_snapshot_is_up_to_date(side: Option<Side>, s: Stored)
    requires
        crate::model::stored_wf(s),
    ensures
        up_to_date(
            drawn(crate::services::group::opening(crate::model::listed_groups(s, side))),
            side,
            s,
        ),
{
    let all = crate::text::listing(s.groups.dom());
    let pass = crate::model::group_filter(s, side);
    let ids = all.filter(pass);
    crate::text::lemma_listing_exists(s.groups.dom());
    assert forall|i: int| 0 <= i < ids.len() implies s.groups.contains_key(#[trigger] ids[i]) && pass(ids[i]) by {
        crate::laws::lemma_filter_from(all, pass, ids[i]);
        assert(ids.contains(ids[i]));
        assert(s.groups.dom().contains(ids[i]));
    }
    lemma_drawn(s, ids);
    let picture = drawn(crate::services::group::opening(crate::model::listed_groups(s, side)));
    assert forall|g: Seq<char>| #[trigger] right_about(picture, side, g, crate::model::joined(s, g)) by {
        assert(picture.contains_key(g) <==> ids.contains(g));
        crate::laws::lemma_filter_from(all, pass, g);
        assert(s.groups.dom().contains(g) <==> all.contains(g));
    }
}

/// Law: a subscriber that was sent the snapshot of the cache `c`, and comes upon
/// every event since (and perhaps on some from before), knows the groups of its
/// side as they are, whatever was written meanwhile.
pub proof fn law_subscriber_stays_up_to_date(side: Option<Side>, c: CacheView, writes: Seq<Write>, from: int)
    requires
        crate::model::cache_wf(c),
        0 <= from <= c.group_history.len(),
    ensures
        up_to_date(
            followed(
                drawn(crate::services::group::opening(crate::model::listed_groups(c.stored, side))),
                c.sequence,
                side,
                crate::laws::after_all(c, writes).group_history.skip(from),
            ),
            side,
            crate::laws::after_all(c, writes).stored,
        ),
        crate::model::stored_wf(crate::laws::after_all(c, writes).stored),
        c.sequence <= crate::laws::after_all(c, writes).sequence,
        c.group_history.len() <= crate::laws::after_all(c, writes).group_history.len(),
    decreases writes.len(),
{
    let start = drawn(crate::services::group::opening(crate::model::listed_groups(c.stored, side)));
    if writes.len() == 0 {
        law_snapshot_is_up_to_date(side, c.stored);
        lemma_followed_old(start, c.sequence, side, c.group_history.skip(from));
    } else {
        let d = crate::laws::after_all(c, writes.drop_last());
        let write = writes.last();
        law_subscriber_stays_up_to_date(side, c, writes.drop_last(), from);
        let picture = followed(start, c.sequence, side, d.group_history.skip(from));
        let updates = crate::laws::updates_of(d, write);
        crate::laws::lemma_history(d, write);
        crate::laws::lemma_stored_wf(d, write);
        crate::laws::numbering::lemma_sequence_rises(d, write);
        let news = crate::model::numbered(d.sequence, updates);
        assert((d.group_history + news).skip(from) =~= d.group_history.skip(from) + news);
        lemma_followed_add(start, c.sequence, side, d.group_history.skip(from), news);
        lemma_followed_new(picture, c.sequence, side, d.sequence, updates);
        lemma_told_write(picture, side, d, write);
    }
}

/// The simulation state that a subscriber knows of after it has come upon
/// `events`.
pub open spec fn state_followed(
    known: Option<SimulationStateUpdateView>,
    snapshot_sequence: nat,
    events: Seq<SimulationEventView>,
) -> Option<SimulationStateUpdateView>
    decreases events.len(),
{
    if events.len() == 0 {
        known
    } else {
        match crate::services::simulation::simulation_step(
            snapshot_sequence,
            ReceivedView::Event(events.last()),
        ) {
            StepView::Send(message) => message,
            _ => state_followed(known, snapshot_sequence, events.drop_last()),
        }
    }
}

/// Events up to the snapshot are passed over.
proof fn lemma_state_followed_old(
    known: Option<SimulationStateUpdateView>,
    n: nat,
    events: Seq<SimulationEventView>,
)
    requires
        forall|i: int| 0 <= i < events.len() ==> (#[trigger] events[i]).sequence <= n,
    ensures
        state_followed(known, n, events) == known,
    decreases events.len(),
{
    if events.len() > 0 {
        lemma_state_followed_old(known, n, events.drop_last());
        assert(events[events.len() - 1].sequence <= n);
    }
}

/// Law: a subscriber that was sent the simulation state of the cache `c`, and
/// comes upon every event since (and perhaps on some from before), knows the
/// simulation state as it is, whatever was written meanwhile.
pub proof fn law_simulation_subscriber_stays_up_to_date(c: CacheView, writes: Seq<Write>, from: int)
    requires
        crate::model::cache_wf(c),
        crate::laws::after_all(c, writes).sequence <= u64::MAX,
        0 <= from <= c.simulation_history.len(),
    ensures
        state_followed(
            c.simulation_state,
            c.sequence,
            crate::laws::after_all(c, writes).simulation_history.skip(from),
        ) == crate::laws::after_all(c, writes).simulation_state,
{
    let d = crate::laws::after_all(c, writes);
    let events = d.simulation_history.skip(from);
    crate::laws::numbering::law_numbers_rise_through_all_writes(c, writes);
    if d.simulation_history.len() == c.simulation_history.len() {
        assert(d.simulation_history =~= c.simulation_history) by {
            assert(d.simulation_history.take(c.simulation_history.len() as int) =~= d.simulation_history);
        }
        lemma_state_followed_old(c.simulation_state, c.sequence, events);
    } else {
        assert(events.last() == d.simulation_history.last());
        assert(c.sequence < d.simulation_history[d.simulation_history.len() - 1].sequence);
    }
}

/// Law: a subscriber to either stream that lags is never left to go on without
/// what it missed: it is told so, and its stream ends.
pub proof fn law_lagging_subscriber_is_aborted(snapshot_sequence: nat, side: Option<Side>)
    ensures
        crate::services::group::group_step(snapshot_sequence, side, ReceivedView::Lagged)
            == StepView::<Option<GroupUpdateView>>::Abort(crate::services::group::lagged()),
        crate::services::simulation::simulation_step(snapshot_sequence, ReceivedView::Lagged)
            == StepView::<Option<SimulationStateUpdateView>>::Abort(crate::services::group::lagged()),
        crate::services::group::lagged().code == crate::status::Code::Aborted,
{
}

/// Law: a picture that is up to date shows just the groups of the subscriber's side,
/// each with the fields of the group as it is stored and with its units as they are
/// stored, positions being equal as numbers.
pub proof fn law_an_up_to_date_picture_shows_what_is_stored(
    picture: Picture,
    side: Option<Side>,
    s: Stored,
    g: Seq<char>,
)
    requires
        crate::model::stored_wf(s),
        up_to_date(picture, side, s),
    ensures
        picture.contains_key(g) <==> s.groups.contains_key(g) && (side is Some
            ==> crate::laws::messages::stands_for(s.groups[g].side, side->0)),
        picture.contains_key(g) ==> {
            let shown = picture[g];
            let read = crate::model::joined(s, g)->0;
            &&& shown.id == g
            &&& shown.side == s.groups[g].side
            &&& shown.readiness == s.groups[g].readiness
            &&& shown.has_task == s.groups[g].has_task
            &&& shown.waypoints.len() == s.groups[g].waypoints.len()
            &&& shown.units.len() == read.units.len()
            &&& forall|i: int| #![trigger shown.units[i]]
                0 <= i < shown.units.len() ==> {
                    let unit = s.units[shown.units[i].id];
                    &&& s.units.contains_key(shown.units[i].id)
                    &&& shown.units[i].group_id == g && unit.group_id == g
                    &&& shown.units[i].category == unit.category
                    &&& shown.units[i].kind == unit.kind
                    &&& shown.units[i] == unit || crate::laws::messages::equal_states(
                        shown.units[i].state,
                        unit.state,
                    )
                }
            &&& shown == read || crate::laws::messages::equal_groups(shown, read)
        },
{
    assert(right_about(picture, side, g, crate::model::joined(s, g)));
    if s.groups.contains_key(g) {
        let code = s.groups[g].side;
        if side is Some {
            crate::laws::messages::law_sides_go_by_their_numbers(side->0, code);
        }
    }
    if picture.contains_key(g) {
        let shown = picture[g];
        let read = crate::model::joined(s, g)->0;
        crate::laws::messages::law_groups_compare_by_fields(shown, read);
        assert forall|i: int| #![trigger shown.units[i]] 0 <= i < shown.units.len() implies ({
            let unit = s.units[shown.units[i].id];
            &&& s.units.contains_key(shown.units[i].id)
            &&& shown.units[i].group_id == g && unit.group_id == g
            &&& shown.units[i].category == unit.category
            &&& shown.units[i].kind == unit.kind
            &&& shown.units[i] == unit || crate::laws::messages::equal_states(shown.units[i].state, unit.state)
        }) by {
            crate::laws::reading::law_members_name_their_group(s, g, i, i);
            if shown != read {
                assert(crate::laws::messages::equal_units(shown.units[i], read.units[i]));
            }
        }
    }
}

} // verus!
