//! How a party gets from its start to its round.
use crate::farm::party::laws::lemma_points_exclusive;
use crate::farm::party::member::{
    BotPlanView, GroupState, InMenuTask, Member, MemberStepView, SyncPoint, SyncStepView,
};
use crate::farm::party::model::{
    all_slaves, bot_plan, can_clear, fresh_member, groups_reached, inviting, join_events, joining,
    joining_member, lists, matched, matches_agree, menu_sound, noted, players, plays, report_state,
    report_step, slave_reached, sync_state, sync_step, synced, team_plays, PartyState,
};
use crate::ids::{id_of, lemma_id_of, SessionTag};
use crate::protocol::game::Team;
use crate::protocol::session;
use crate::sim::{in_round, invite_received, match_received, menu_done};
use vstd::prelude::*;

verus! {

/// What a member's report asks of the party as a whole, at once or once the
/// member's menu bot has been stopped.
pub open spec fn asked<E>(s: PartyState<E>, sid: u64, event: session::Event) -> SyncStepView {
    match report_step(s, id_of(sid), event) {
        Ok(MemberStepView::Sync(step)) => step,
        Ok(MemberStepView::SendThenSync(_)) => sync_step(report_state(s, sid, event)),
        _ => SyncStepView::Idle,
    }
}

/// The party after a member's report, when every event that comes of it has been
/// delivered.
pub open spec fn settled<E>(s: PartyState<E>, sid: u64, event: session::Event) -> PartyState<E> {
    let t = match report_step(s, id_of(sid), event) {
        Ok(MemberStepView::SendThenSync(_)) => sync_state(report_state(s, sid, event)),
        _ => report_state(s, sid, event),
    };
    match asked(s, sid, event) {
        SyncStepView::Join(events) => t.told_to_join(events.len()),
        _ => t,
    }
}

/// The party after several reports, one after the other.
pub open spec fn settled_all<E>(
    s: PartyState<E>,
    reports: Seq<(u64, session::Event)>,
) -> PartyState<E>
    decreases reports.len(),
{
    if reports.len() == 0 {
        s
    } else {
        settled(settled_all(s, reports.drop_last()), reports.last().0, reports.last().1)
    }
}

/// What the last of several reports asks for.
pub open spec fn asked_last<E>(
    s: PartyState<E>,
    reports: Seq<(u64, session::Event)>,
) -> SyncStepView {
    asked(settled_all(s, reports.drop_last()), reports.last().0, reports.last().1)
}

/// Everybody reports once, in the order in which they joined, from the place
/// `from` on.
pub open spec fn everybody(
    order: Seq<u64>,
    from: int,
    event: spec_fn(int) -> session::Event,
) -> Seq<(u64, session::Event)> {
    Seq::new((order.len() - from) as nat, |i: int| (order[from + i], event(from + i)))
}

/// A report that is taken note of leads to a look at the sync points.
proof fn lemma_settled<E>(s: PartyState<E>, sid: u64, event: session::Event)
    requires
        s.members.contains_key(sid),
        noted(s, sid, event) is Some,
    ensures
        ({
            let after = noted(s, sid, event)->0;
            &&& asked(s, sid, event) == sync_step(after)
            &&& settled(s, sid, event) == (match sync_step(after) {
                SyncStepView::Join(events) => sync_state(after).told_to_join(events.len()),
                _ => sync_state(after),
            })
        }),
{
    lemma_id_of::<SessionTag>(sid);
}

/// Somebody is at none of the sync points.
spec fn quiet<E>(s: PartyState<E>, sid: u64) -> bool {
    &&& s.members.contains_key(sid)
    &&& s.members[sid].sync != SyncPoint::Ready
    &&& s.members[sid].sync != SyncPoint::RecvMatch
    &&& s.members[sid].sync != SyncPoint::GameReady
}

/// The party when the members before the place `j` have changed by `change`,
/// and the groups, with the first of them, to `groups`.
spec fn moved<E>(
    s: PartyState<E>,
    change: spec_fn(int, Member) -> Member,
    groups: Map<u64, GroupState>,
    j: int,
) -> PartyState<E> {
    PartyState {
        members: s.members.map_entries(
            |k: u64, m: Member|
                if s.order.index_of(k) < j {
                    change(s.order.index_of(k), m)
                } else {
                    m
                },
        ),
        groups: if j <= 0 {
            s.groups
        } else {
            groups
        },
        ..s
    }
}

/// One member after the other moves on.
proof fn lemma_moved<E>(
    s: PartyState<E>,
    change: spec_fn(int, Member) -> Member,
    groups: Map<u64, GroupState>,
    j: int,
)
    requires
        lists(s.order, s.members),
        0 <= j < s.order.len(),
    ensures
        s.members.contains_key(s.order[j]),
        s.order.index_of(s.order[j]) == j,
        moved(s, change, groups, j).members.contains_key(s.order[j]),
        moved(s, change, groups, j).members[s.order[j]] == s.members[s.order[j]],
        moved(s, change, groups, j + 1).members == moved(s, change, groups, j).members.insert(
            s.order[j],
            change(j, s.members[s.order[j]]),
        ),
{
    let k = s.order[j];
    assert(s.order.contains(k));
    assert(s.members.contains_key(k));
    assert forall|q: u64| s.members.contains_key(q) && q != k implies s.order.index_of(q) != j by {
        assert(s.order.contains(q));
        assert(s.order[s.order.index_of(q)] == q);
    }
    assert(moved(s, change, groups, j + 1).members =~= moved(s, change, groups, j).members.insert(
        k,
        change(j, s.members[k]),
    ));
}

/// As long as somebody is at no sync point, reports only move members on.
proof fn lemma_walk<E>(
    s: PartyState<E>,
    change: spec_fn(int, Member) -> Member,
    groups: Map<u64, GroupState>,
    event: spec_fn(int) -> session::Event,
    from: int,
    j: int,
    still: u64,
)
    requires
        lists(s.order, s.members),
        0 <= from <= j <= s.order.len(),
        moved(s, change, groups, from) == s,
        forall|i: int|
            from <= i < j ==> noted(
                #[trigger] moved(s, change, groups, i),
                s.order[i],
                event(i),
            ) == Some(moved(s, change, groups, i + 1)),
        forall|i: int| from < i <= j ==> quiet(#[trigger] moved(s, change, groups, i), still),
    ensures
        settled_all(s, everybody(s.order, from, event).take(j - from)) == moved(
            s,
            change,
            groups,
            j,
        ),
    decreases j,
{
    let reports = everybody(s.order, from, event);
    if j > from {
        lemma_walk(s, change, groups, event, from, j - 1, still);
        let taken = reports.take(j - from);
        assert(taken.drop_last() =~= reports.take(j - 1 - from));
        assert(taken.last() == (s.order[j - 1], event(j - 1)));
        lemma_moved(s, change, groups, j - 1);
        let t = moved(s, change, groups, j - 1);
        assert(noted(t, s.order[j - 1], event(j - 1)) == Some(moved(s, change, groups, j)));
        lemma_settled(t, s.order[j - 1], event(j - 1));
        assert(quiet(moved(s, change, groups, j), still));
    }
}

/// The party before the last report of a walk, and what that report asks for.
proof fn lemma_walk_ends<E>(
    s: PartyState<E>,
    change: spec_fn(int, Member) -> Member,
    groups: Map<u64, GroupState>,
    event: spec_fn(int) -> session::Event,
    from: int,
    still: u64,
)
    requires
        lists(s.order, s.members),
        0 <= from < s.order.len(),
        moved(s, change, groups, from) == s,
        forall|i: int|
            from <= i < s.order.len() ==> noted(
                #[trigger] moved(s, change, groups, i),
                s.order[i],
                event(i),
            ) == Some(moved(s, change, groups, i + 1)),
        forall|i: int|
            from < i < s.order.len() ==> quiet(#[trigger] moved(s, change, groups, i), still),
    ensures
        ({
            let reports = everybody(s.order, from, event);
            let end = moved(s, change, groups, s.order.len() as int);
            &&& asked_last(s, reports) == sync_step(end)
            &&& settled_all(s, reports) == (match sync_step(end) {
                SyncStepView::Join(events) => sync_state(end).told_to_join(events.len()),
                _ => sync_state(end),
            })
        }),
{
    let n = s.order.len() as int;
    let reports = everybody(s.order, from, event);
    lemma_walk(s, change, groups, event, from, n - 1, still);
    assert(reports.drop_last() =~= reports.take(n - 1 - from));
    assert(reports.last() == (s.order[n - 1], event(n - 1)));
    lemma_moved(s, change, groups, n - 1);
    let t = moved(s, change, groups, n - 1);
    assert(noted(t, s.order[n - 1], event(n - 1)) == Some(moved(s, change, groups, n)));
    lemma_settled(t, s.order[n - 1], event(n - 1));
}

/// Everybody is in the given epoch, at the point and with the menu steps that go
/// with their place.
pub open spec fn stands<E>(
    s: PartyState<E>,
    epoch: u32,
    point: spec_fn(int) -> SyncPoint,
    task: spec_fn(int) -> Option<InMenuTask>,
) -> bool {
    &&& lists(s.order, s.members)
    &&& forall|i: int|
        0 <= i < s.order.len() ==> {
            let m = s.members[#[trigger] s.order[i]];
            m.sync_epoch == epoch && m.sync == point(i) && m.menu_task == task(i)
        }
}

/// Everybody is at the same point.
pub open spec fn all_at(point: SyncPoint) -> spec_fn(int) -> SyncPoint {
    |i: int| point
}

/// Everybody has the same menu steps to do.
pub open spec fn all_with(task: Option<InMenuTask>) -> spec_fn(int) -> Option<InMenuTask> {
    |i: int| task
}

/// The first member has menu steps to do.
pub open spec fn master_with(task: InMenuTask) -> spec_fn(int) -> Option<InMenuTask> {
    |i: int|
        if i == 0 {
            Some(task)
        } else {
            None
        }
}

/// Everybody but the first member has menu steps to do.
pub open spec fn slaves_with(task: InMenuTask) -> spec_fn(int) -> Option<InMenuTask> {
    |i: int|
        if i == 0 {
            None
        } else {
            Some(task)
        }
}

/// The first member waits, and the others are in the lobby.
pub open spec fn slaves_in_lobby() -> spec_fn(int) -> SyncPoint {
    |i: int|
        if i == 0 {
            SyncPoint::Waiting
        } else {
            SyncPoint::Lobby
        }
}

/// The steps by which the master of a party of `n` invites the others.
pub open spec fn inviting_steps(n: nat) -> InMenuTask {
    InMenuTask { total: (2 * n - 1) as usize, next_sync: SyncPoint::Ready }
}

/// The steps by which a slave joins its master.
pub open spec fn joining_steps() -> InMenuTask {
    InMenuTask { total: 2, next_sync: SyncPoint::Lobby }
}

/// The step by which a match is accepted.
pub open spec fn accepting_steps() -> InMenuTask {
    InMenuTask { total: 1, next_sync: SyncPoint::GameLoading }
}

/// The two parties have the same members in the same order, and the same setup,
/// round and engine.
pub open spec fn same_setup<E>(s: PartyState<E>, t: PartyState<E>) -> bool {
    &&& t.pid == s.pid
    &&& t.map == s.map
    &&& t.party_size == s.party_size
    &&& t.delay == s.delay
    &&& t.engine == s.engine
    &&& t.round == s.round
    &&& t.order == s.order
    &&& t.group_ids == s.group_ids
    &&& t.bots == s.bots
}

/// The members form one group: the first is its master, the others are its
/// slaves.
pub open spec fn one_group<E>(s: PartyState<E>) -> bool {
    &&& s.order.len() > 0
    &&& s.group_ids.len() == 1
    &&& lists(s.group_ids, s.groups)
    &&& s.groups[s.group_ids[0]].master == s.order[0]
    &&& s.groups[s.group_ids[0]].slaves == s.order.skip(1)
}

/// Who is at a point by place is there by key.
proof fn lemma_synced_by_place<E>(s: PartyState<E>, epoch: u32, point: SyncPoint)
    requires
        lists(s.order, s.members),
        forall|i: int|
            0 <= i < s.order.len() ==> s.members[#[trigger] s.order[i]].sync == point
                && s.members[s.order[i]].sync_epoch == epoch,
    ensures
        synced(s.members, point),
{
    assert forall|k: u64| #[trigger] s.members.contains_key(k) implies s.members[k].sync == point
        && s.members[k].sync_epoch == epoch by {
        assert(s.order.contains(k));
        assert(s.order[s.order.index_of(k)] == k);
    }
}

/// Nobody's epoch is at its limit if everybody's is below it by place.
proof fn lemma_can_clear_by_place<E>(s: PartyState<E>, epoch: u32)
    requires
        lists(s.order, s.members),
        epoch < u32::MAX,
        forall|i: int|
            0 <= i < s.order.len() ==> s.members[#[trigger] s.order[i]].sync_epoch == epoch,
    ensures
        can_clear(s.members),
{
    assert forall|k: u64| #[trigger] s.members.contains_key(k) implies s.members[k].sync_epoch
        < u32::MAX by {
        assert(s.order.contains(k));
        assert(s.order[s.order.index_of(k)] == k);
    }
}

/// The members of a party that has moved, by place.
proof fn lemma_moved_by_place<E>(
    s: PartyState<E>,
    change: spec_fn(int, Member) -> Member,
    groups: Map<u64, GroupState>,
    j: int,
)
    requires
        lists(s.order, s.members),
        0 <= j <= s.order.len(),
    ensures
        lists(s.order, moved(s, change, groups, j).members),
        forall|i: int|
            0 <= i < s.order.len() ==> moved(s, change, groups, j).members.contains_key(
                #[trigger] s.order[i],
            ) && moved(s, change, groups, j).members[s.order[i]] == (if i < j {
                change(i, s.members[s.order[i]])
            } else {
                s.members[s.order[i]]
            }),
{
    let t = moved(s, change, groups, j);
    assert forall|k: u64| #[trigger] t.members.contains_key(k) <==> s.order.contains(k) by {
        assert(s.members.contains_key(k) <==> s.order.contains(k));
    }
    assert forall|i: int| 0 <= i < s.order.len() implies t.members.contains_key(
        #[trigger] s.order[i],
    ) && t.members[s.order[i]] == (if i < j {
        change(i, s.members[s.order[i]])
    } else {
        s.members[s.order[i]]
    }) by {
        lemma_moved(s, change, groups, i);
    }
}

/// Nothing has moved yet.
proof fn lemma_not_moved<E>(
    s: PartyState<E>,
    change: spec_fn(int, Member) -> Member,
    groups: Map<u64, GroupState>,
)
    requires
        lists(s.order, s.members),
    ensures
        moved(s, change, groups, 0) == s,
{
    assert forall|k: u64| s.members.contains_key(k) implies s.order.index_of(k) >= 0 by {
        assert(s.order.contains(k));
    }
    assert(moved(s, change, groups, 0).members =~= s.members);
}

/// When all slaves have been told to join, they have two menu steps to do, and
/// everybody waits in the next epoch.
proof fn lemma_told_to_join<E>(s: PartyState<E>, epoch: u32, sent: nat)
    requires
        lists(s.order, s.members),
        one_group(s),
        epoch < u32::MAX,
        forall|i: int|
            0 <= i < s.order.len() ==> s.members[#[trigger] s.order[i]].sync_epoch == epoch,
        s.members[s.order[0]].menu_task is None,
        sent == 2 * (s.order.len() - 1),
    ensures
        stands(
            s.told_to_join(sent),
            (epoch + 1) as u32,
            all_at(SyncPoint::Waiting),
            slaves_with(joining_steps()),
        ),
        same_setup(s, s.told_to_join(sent)),
        s.told_to_join(sent).groups == s.groups,
{
    let gs = s.group_seq();
    let slaves = s.order.skip(1);
    lemma_only_slaves(s);
    let t = s.told_to_join(sent);
    lemma_can_clear_by_place(s, epoch);
    assert forall|k: u64| #[trigger] t.members.contains_key(k) <==> s.order.contains(k) by {
        assert(s.members.contains_key(k) <==> s.order.contains(k));
    }
    assert forall|i: int| 0 <= i < s.order.len() implies {
        let m = t.members[#[trigger] s.order[i]];
        m.sync_epoch == epoch + 1 && m.sync == SyncPoint::Waiting && m.menu_task == (if i == 0 {
            None
        } else {
            Some(InMenuTask { total: 2, next_sync: SyncPoint::Lobby })
        })
    } by {
        let k = s.order[i];
        assert(s.order.contains(k));
        assert(s.members.contains_key(k));
        assert(joining(s.members, gs, sent)[k] == joining_member(gs, k, s.members[k], sent));
        if i > 0 {
            assert(slaves[i - 1] == k);
            assert(slave_reached(slaves, k, sent));
        } else if slave_reached(slaves, k, sent) {
            let p = choose|p: int|
                0 <= p < slaves.len() && #[trigger] slaves[p] == k && 2 * p <= sent;
            assert(s.order[p + 1] == s.order[0]);
        }
    }
}

/// The slaves of a party with one group.
proof fn lemma_only_slaves<E>(s: PartyState<E>)
    requires
        one_group(s),
    ensures
        all_slaves(s.group_seq()) == s.order.skip(1),
        matches_agree(s.group_seq()),
{
    let gs = s.group_seq();
    assert(gs.len() == 1);
    assert(gs.drop_last() =~= Seq::empty());
    assert(all_slaves(gs.drop_last()) =~= Seq::<u64>::empty());
    assert(all_slaves(gs) =~= s.order.skip(1));
}

/// The report by which each member becomes ready: the master is done with
/// inviting, and the others receive its invite.
pub open spec fn ready_report(n: nat) -> spec_fn(int) -> session::Event {
    |i: int|
        if i == 0 {
            menu_done((2 * (n - 1)) as usize)
        } else {
            invite_received()
        }
}

/// In a party whose master has taken up the inviting, the slaves are told to join
/// when the master is done and every slave has received its invite; and then
/// everybody waits, the slaves with two menu steps to do.
pub proof fn lemma_invites_lead_to_join<E>(s: PartyState<E>, epoch: u32)
    requires
        one_group(s),
        1 + 2 * s.order.len() <= usize::MAX,
        epoch < u32::MAX,
        stands(
            s,
            epoch,
            all_at(SyncPoint::Waiting),
            master_with(inviting_steps(s.order.len())),
        ),
    ensures
        ({
            let reports = everybody(s.order, 0, ready_report(s.order.len()));
            let t = settled_all(s, reports);
            &&& asked_last(s, reports) == SyncStepView::Join(join_events(s.order.skip(1)))
            &&& same_setup(s, t)
            &&& one_group(t)
            &&& stands(
                t,
                (epoch + 1) as u32,
                all_at(SyncPoint::Waiting),
                slaves_with(joining_steps()),
            )
        }),
{
    let n = s.order.len() as int;
    let event = ready_report(s.order.len());
    let change = |i: int, m: Member|
        if i == 0 {
            Member { menu_task: None, sync: SyncPoint::Ready, ..m }
        } else {
            Member { sync: SyncPoint::Ready, ..m }
        };
    let still = s.order[n - 1];
    lemma_not_moved(s, change, s.groups);
    assert forall|i: int| 0 <= i < n implies noted(
        #[trigger] moved(s, change, s.groups, i),
        s.order[i],
        event(i),
    ) == Some(moved(s, change, s.groups, i + 1)) by {
        lemma_moved(s, change, s.groups, i);
    }
    assert forall|i: int| 0 < i < n implies quiet(
        #[trigger] moved(s, change, s.groups, i),
        still,
    ) by {
        lemma_moved_by_place(s, change, s.groups, i);
    }
    lemma_walk_ends(s, change, s.groups, event, 0, still);
    let end = moved(s, change, s.groups, n);
    lemma_moved_by_place(s, change, s.groups, n);
    lemma_synced_by_place(end, epoch, SyncPoint::Ready);
    lemma_only_slaves(end);
    lemma_told_to_join(end, epoch, join_events(s.order.skip(1)).len());
}

/// The slaves get from their two menu steps to the lobby, and nothing else
/// happens.
pub proof fn lemma_slaves_reach_lobby<E>(s: PartyState<E>, epoch: u32)
    requires
        one_group(s),
        stands(s, epoch, all_at(SyncPoint::Waiting), slaves_with(joining_steps())),
    ensures
        ({
            let reports = everybody(s.order, 1, |i: int| menu_done(1));
            let t = settled_all(s, reports);
            &&& same_setup(s, t)
            &&& one_group(t)
            &&& stands(t, epoch, slaves_in_lobby(), all_with(None))
        }),
{
    let n = s.order.len() as int;
    let event = |i: int| menu_done(1);
    let change = |i: int, m: Member|
        if i == 0 {
            m
        } else {
            Member { menu_task: None, sync: SyncPoint::Lobby, ..m }
        };
    let still = s.order[0];
    lemma_not_moved(s, change, s.groups);
    lemma_moved(s, change, s.groups, 0);
    assert(moved(s, change, s.groups, 1).members =~= s.members);
    assert(moved(s, change, s.groups, 1) == s);
    assert forall|i: int| 1 <= i < n implies noted(
        #[trigger] moved(s, change, s.groups, i),
        s.order[i],
        event(i),
    ) == Some(moved(s, change, s.groups, i + 1)) by {
        lemma_moved(s, change, s.groups, i);
    }
    assert forall|i: int| 1 < i <= n implies quiet(
        #[trigger] moved(s, change, s.groups, i),
        still,
    ) by {
        lemma_moved_by_place(s, change, s.groups, i);
    }
    lemma_walk(s, change, s.groups, event, 1, n, still);
    let reports = everybody(s.order, 1, event);
    assert(reports.take(n - 1) =~= reports);
    lemma_moved_by_place(s, change, s.groups, n);
}

/// When everybody has reported a match, it is accepted after the configured
/// delay.
pub proof fn lemma_match_leads_to_accept<E>(s: PartyState<E>, epoch: u32, match_id: u64)
    requires
        one_group(s),
        stands(s, epoch, slaves_in_lobby(), all_with(None)),
    ensures
        ({
            let reports = everybody(s.order, 0, |i: int| match_received(match_id));
            let t = settled_all(s, reports);
            &&& asked_last(s, reports) == SyncStepView::AcceptAfter(s.delay)
            &&& same_setup(s, t)
            &&& one_group(t)
            &&& stands(t, epoch, all_at(SyncPoint::RecvMatch), all_with(None))
        }),
{
    let n = s.order.len() as int;
    let event = |i: int| match_received(match_id);
    let change = |i: int, m: Member| Member { sync: SyncPoint::RecvMatch, ..m };
    let groups = matched(s.groups, s.order[0], match_id);
    let still = s.order[n - 1];
    lemma_not_moved(s, change, groups);
    assert forall|i: int| 0 <= i < n implies noted(
        #[trigger] moved(s, change, groups, i),
        s.order[i],
        event(i),
    ) == Some(moved(s, change, groups, i + 1)) by {
        lemma_moved(s, change, groups, i);
        if i > 0 {
            assert forall|g: u64| s.groups.contains_key(g) implies groups[g].master
                != s.order[i] by {
                assert(s.group_ids.contains(g));
                assert(s.group_ids[0] == g);
                assert(s.order[i] != s.order[0]);
            }
            assert(matched(groups, s.order[i], match_id) =~= groups);
        }
    }
    assert forall|i: int| 0 < i < n implies quiet(
        #[trigger] moved(s, change, groups, i),
        still,
    ) by {
        lemma_moved_by_place(s, change, groups, i);
    }
    lemma_walk_ends(s, change, groups, event, 0, still);
    let end = moved(s, change, groups, n);
    lemma_moved_by_place(s, change, groups, n);
    lemma_synced_by_place(end, epoch, SyncPoint::RecvMatch);
    lemma_only_slaves(end);
    lemma_points_exclusive_at(end, s.order[0]);
}

/// Where everybody has a match, nobody is ready.
proof fn lemma_points_exclusive_at<E>(s: PartyState<E>, sid: u64)
    requires
        s.members.contains_key(sid),
        synced(s.members, SyncPoint::RecvMatch),
    ensures
        !synced(s.members, SyncPoint::Ready),
{
    if synced(s.members, SyncPoint::Ready) {
        lemma_points_exclusive(s.members, sid, SyncPoint::RecvMatch, SyncPoint::Ready);
    }
}

/// When everybody has been told to accept the match, everybody gets from the one
/// menu step to loading the game.
pub proof fn lemma_accept_leads_to_loading<E>(s: PartyState<E>, epoch: u32, sent: nat)
    requires
        one_group(s),
        epoch < u32::MAX,
        stands(s, epoch, all_at(SyncPoint::RecvMatch), all_with(None)),
        sent == 2 * s.order.len(),
    ensures
        ({
            let reports = everybody(s.order, 0, |i: int| menu_done(0));
            let t = settled_all(s.told_to_accept().accepted(sent), reports);
            &&& same_setup(s, t)
            &&& one_group(t)
            &&& stands(t, (epoch + 1) as u32, all_at(SyncPoint::GameLoading), all_with(None))
        }),
{
    let told = s.told_to_accept().accepted(sent);
    let n = s.order.len() as int;
    let event = |i: int| menu_done(0);
    let change = |i: int, m: Member|
        Member { menu_task: None, sync: SyncPoint::GameLoading, ..m };
    let still = s.order[0];
    lemma_can_clear_by_place(s, epoch);
    assert forall|k: u64| #[trigger] told.members.contains_key(k) <==> s.order.contains(k) by {
        assert(s.members.contains_key(k) <==> s.order.contains(k));
    }
    assert forall|i: int| 0 <= i < n implies {
        let m = told.members[#[trigger] s.order[i]];
        m.sync_epoch == epoch + 1 && m.sync == SyncPoint::Waiting && m.menu_task == Some(
            accepting_steps(),
        )
    } by {
        assert(s.order.contains(s.order[i]));
        assert(s.members.contains_key(s.order[i]));
    }
    lemma_not_moved(told, change, told.groups);
    assert forall|i: int| 0 <= i < n implies noted(
        #[trigger] moved(told, change, told.groups, i),
        told.order[i],
        event(i),
    ) == Some(moved(told, change, told.groups, i + 1)) by {
        lemma_moved(told, change, told.groups, i);
    }
    assert forall|i: int| 0 < i <= n implies quiet(
        #[trigger] moved(told, change, told.groups, i),
        still,
    ) by {
        lemma_moved_by_place(told, change, told.groups, i);
    }
    lemma_walk(told, change, told.groups, event, 0, n, still);
    let reports = everybody(s.order, 0, event);
    assert(reports.take(n) =~= reports);
    lemma_moved_by_place(told, change, told.groups, n);
}

/// Each player is in the round on the map, under a name and in a team of its own.
pub open spec fn round_report(
    map: String,
    names: Seq<String>,
    teams: Seq<Team>,
    round: u32,
) -> spec_fn(int) -> session::Event {
    |i: int| in_round(teams[i], names[i], map, round)
}

/// When everybody is in the party's round on the party's map, in a team that
/// plays, the round is played with a bot for everybody.
pub proof fn lemma_round_leads_to_play<E>(
    s: PartyState<E>,
    epoch: u32,
    map: String,
    names: Seq<String>,
    teams: Seq<Team>,
    round: u32,
)
    requires
        s.order.len() > 0,
        stands(s, epoch, all_at(SyncPoint::GameLoading), all_with(None)),
        map@ == s.map,
        round == s.round,
        names.len() == s.order.len(),
        teams.len() == s.order.len(),
        forall|i: int| 0 <= i < teams.len() ==> team_plays(#[trigger] teams[i]),
    ensures
        asked_last(s, everybody(s.order, 0, round_report(map, names, teams, round)))
            == SyncStepView::Play(
            Seq::new(
                s.order.len(),
                |i: int| BotPlanView { sid: s.order[i], name: names[i]@, team: teams[i] },
            ),
        ),
{
    let n = s.order.len() as int;
    let event = round_report(map, names, teams, round);
    let change = |i: int, m: Member|
        Member { name: Some(names[i]), team: Some(teams[i]), sync: SyncPoint::GameReady, ..m };
    let still = s.order[n - 1];
    lemma_not_moved(s, change, s.groups);
    assert forall|i: int| 0 <= i < n implies noted(
        #[trigger] moved(s, change, s.groups, i),
        s.order[i],
        event(i),
    ) == Some(moved(s, change, s.groups, i + 1)) by {
        lemma_moved(s, change, s.groups, i);
        assert(team_plays(teams[i]));
    }
    assert forall|i: int| 0 < i < n implies quiet(
        #[trigger] moved(s, change, s.groups, i),
        still,
    ) by {
        lemma_moved_by_place(s, change, s.groups, i);
    }
    lemma_walk_ends(s, change, s.groups, event, 0, still);
    let end = moved(s, change, s.groups, n);
    lemma_moved_by_place(s, change, s.groups, n);
    lemma_synced_by_place(end, epoch, SyncPoint::GameReady);
    assert(end.members.contains_key(s.order[0]));
    assert(end.members[s.order[0]].sync == SyncPoint::GameReady);
    lemma_all_play(s.order, end.members);
    assert(bot_plan(s.order, end.members) =~= Seq::new(
        s.order.len(),
        |i: int| BotPlanView { sid: s.order[i], name: names[i]@, team: teams[i] },
    ));
}

/// Where everybody plays, the players are everybody.
proof fn lemma_all_play(order: Seq<u64>, members: Map<u64, Member>)
    requires
        forall|i: int| 0 <= i < order.len() ==> plays(members[#[trigger] order[i]]),
    ensures
        players(order, members) == order,
    decreases order.len(),
{
    reveal(Seq::filter);
    if order.len() > 0 {
        let front = order.drop_last();
        assert forall|i: int| 0 <= i < front.len() implies plays(members[#[trigger] front[i]]) by {
            assert(front[i] == order[i]);
        }
        lemma_all_play(front, members);
        assert(plays(members[order[order.len() - 1]]));
        assert(players(order, members) =~= players(front, members).push(order.last()));
        assert(order =~= front.push(order.last()));
    }
}

/// A party of any number of fresh members gets from its start to its round: the
/// master invites, everybody becomes ready, the slaves join, a match is found and
/// accepted after the configured delay, everybody loads the game, and once
/// everybody is in the round on the party's map it is played, with a bot for
/// everybody under the name and for the team that was reported.
pub proof fn lemma_party_plays<E>(
    s: PartyState<E>,
    epoch: u32,
    match_id: u64,
    map: String,
    names: Seq<String>,
    teams: Seq<Team>,
    round: u32,
)
    requires
        s.wf(),
        s.complete(),
        s.order.len() > 0,
        s.group_ids.len() == 0,
        1 + 2 * s.order.len() <= usize::MAX,
        epoch + 2 <= u32::MAX,
        stands(s, epoch, all_at(SyncPoint::Waiting), all_with(None)),
        map@ == s.map,
        round == s.round,
        names.len() == s.order.len(),
        teams.len() == s.order.len(),
        forall|i: int| 0 <= i < teams.len() ==> team_plays(#[trigger] teams[i]),
    ensures
        ({
            let n = s.order.len();
            let started = s.grouped().invited(2);
            let ready = everybody(s.order, 0, ready_report(n));
            let waiting = settled_all(started, ready);
            let lobby = settled_all(waiting, everybody(s.order, 1, |i: int| menu_done(1)));
            let found = everybody(s.order, 0, |i: int| match_received(match_id));
            let matched = settled_all(lobby, found);
            let loading = settled_all(
                matched.told_to_accept().accepted(2 * n),
                everybody(s.order, 0, |i: int| menu_done(0)),
            );
            let playing = everybody(s.order, 0, round_report(map, names, teams, round));
            &&& s.can_start()
            &&& asked_last(started, ready) == SyncStepView::Join(join_events(s.order.skip(1)))
            &&& asked_last(lobby, found) == SyncStepView::AcceptAfter(s.delay)
            &&& asked_last(loading, playing) == SyncStepView::Play(
                Seq::new(
                    n,
                    |i: int| BotPlanView { sid: s.order[i], name: names[i]@, team: teams[i] },
                ),
            )
        }),
{
    let n = s.order.len();
    assert forall|g: u64| !s.groups.contains_key(g) by {
        assert(s.groups.contains_key(g) <==> s.group_ids.contains(g));
    }
    let started = s.grouped().invited(2);
    lemma_started(s, epoch);
    lemma_invites_lead_to_join(started, epoch);
    let waiting = settled_all(started, everybody(s.order, 0, ready_report(n)));
    let e1 = (epoch + 1) as u32;
    lemma_slaves_reach_lobby(waiting, e1);
    let lobby = settled_all(waiting, everybody(s.order, 1, |i: int| menu_done(1)));
    lemma_match_leads_to_accept(lobby, e1, match_id);
    let matched = settled_all(lobby, everybody(s.order, 0, |i: int| match_received(match_id)));
    lemma_accept_leads_to_loading(matched, e1, 2 * n);
    let loading = settled_all(
        matched.told_to_accept().accepted(2 * n),
        everybody(s.order, 0, |i: int| menu_done(0)),
    );
    lemma_round_leads_to_play(loading, (e1 + 1) as u32, map, names, teams, round);
}

/// A party that has just been started has one group, whose master invites.
proof fn lemma_started<E>(s: PartyState<E>, epoch: u32)
    requires
        s.order.len() > 0,
        s.group_ids.len() == 0,
        lists(s.group_ids, s.groups),
        1 + 2 * s.order.len() <= usize::MAX,
        stands(s, epoch, all_at(SyncPoint::Waiting), all_with(None)),
    ensures
        one_group(s.grouped().invited(2)),
        same_members(s, s.grouped().invited(2)),
        stands(
            s.grouped().invited(2),
            epoch,
            all_at(SyncPoint::Waiting),
            master_with(inviting_steps(s.order.len())),
        ),
{
    let g = s.grouped();
    let gs = g.group_seq();
    let master = s.order[0];
    assert forall|k: u64| #[trigger] g.groups.contains_key(k) <==> g.group_ids.contains(k) by {
        assert(s.groups.contains_key(k) <==> s.group_ids.contains(k));
        assert(g.group_ids.contains(k) <==> k == s.next_group) by {
            assert(!s.groups.contains_key(s.next_group));
            assert(g.group_ids[0] == s.next_group);
        }
    }
    assert(!s.groups.contains_key(s.next_group));
    assert(gs.len() == 1);
    assert(gs.last() == s.next_group_state());
    assert(groups_reached(1, 2) == 1);
    assert(gs.take(1) =~= gs);
    assert(gs.drop_last() =~= Seq::empty());
    assert(inviting(s.members, gs.drop_last()) == s.members);
    assert(s.order.contains(master));
    assert(s.members.contains_key(master));
    let t = g.invited(2);
    assert forall|k: u64| #[trigger] t.members.contains_key(k) <==> s.order.contains(k) by {
        assert(s.members.contains_key(k) <==> s.order.contains(k));
    }
    assert forall|i: int| 0 <= i < s.order.len() implies {
        let m = t.members[#[trigger] s.order[i]];
        m.sync_epoch == epoch && m.sync == SyncPoint::Waiting && m.menu_task == master_with(
            inviting_steps(s.order.len()),
        )(i)
    } by {
        if i > 0 {
            assert(s.order[i] != s.order[0]);
        }
    }
}

/// The two parties have the same order, setup and round.
spec fn same_members<E>(s: PartyState<E>, t: PartyState<E>) -> bool {
    &&& t.order == s.order
    &&& t.map == s.map
    &&& t.delay == s.delay
    &&& t.round == s.round
}

/// The party once the sessions have joined it, one after the other, with their
/// friend codes.
pub open spec fn joined_all<E>(
    s: PartyState<E>,
    sids: Seq<u64>,
    codes: Seq<String>,
) -> PartyState<E>
    decreases sids.len(),
{
    if sids.len() == 0 {
        s
    } else {
        joined_all(s, sids.drop_last(), codes).joined_by(sids.last(), codes[sids.len() - 1])
    }
}

/// What different sessions make of a new party when they join it.
proof fn lemma_joined_all<E>(s: PartyState<E>, sids: Seq<u64>, codes: Seq<String>)
    requires
        s == PartyState::<E>::fresh(s.pid, s.map, s.party_size, s.delay),
        sids.no_duplicates(),
    ensures
        ({
            let t = joined_all(s, sids, codes);
            &&& t == (PartyState { order: sids, members: t.members, ..s })
            &&& forall|k: u64| #[trigger] t.members.contains_key(k) <==> sids.contains(k)
            &&& forall|i: int|
                0 <= i < sids.len() ==> #[trigger] t.members[sids[i]] == fresh_member(codes[i])
        }),
    decreases sids.len(),
{
    let t = joined_all(s, sids, codes);
    if sids.len() > 0 {
        let front = sids.drop_last();
        let before = joined_all(s, front, codes);
        lemma_joined_all(s, front, codes);
        assert(!front.contains(sids.last()));
        assert(before.order.push(sids.last()) =~= sids);
        assert forall|k: u64| #[trigger] t.members.contains_key(k) <==> sids.contains(k) by {
            if front.contains(k) {
                assert(sids[front.index_of(k)] == k);
            }
            if sids.contains(k) && k != sids.last() {
                assert(front[sids.index_of(k)] == k);
            }
        }
        assert forall|i: int| 0 <= i < sids.len() implies #[trigger] t.members[sids[i]]
            == fresh_member(codes[i]) by {
            if i < front.len() {
                assert(front[i] == sids[i]);
                assert(sids[i] != sids.last());
            }
        }
    } else {
        assert(t.order =~= sids);
    }
}

/// A new party that as many different sessions have joined as it is meant for can
/// be started, and all its members wait: it is ready for the walk.
pub proof fn lemma_joined_party_can_start<E>(
    s: PartyState<E>,
    sids: Seq<u64>,
    codes: Seq<String>,
)
    requires
        s == PartyState::<E>::fresh(s.pid, s.map, s.party_size, s.delay),
        sids.no_duplicates(),
        sids.len() == s.party_size,
        sids.len() > 0,
    ensures
        ({
            let t = joined_all(s, sids, codes);
            &&& t.order == sids
            &&& t.wf()
            &&& t.can_start()
            &&& t.group_ids.len() == 0
            &&& t.round == 0
            &&& stands(t, 0, all_at(SyncPoint::Waiting), all_with(None))
        }),
{
    lemma_joined_all(s, sids, codes);
    let t = joined_all(s, sids, codes);
    assert forall|k: u64| #[trigger] t.members.contains_key(k) implies menu_sound(
        t.members[k].menu_task,
    ) by {
        assert(sids[sids.index_of(k)] == k);
    }
    assert forall|g: u64| !#[trigger] t.groups.contains_key(g) by {}
    assert(lists(t.group_ids, t.groups));
}

} // verus!
