//! Walks over the tables of a party.
use crate::farm::party::member::{
    plan_views, BotPlan, BotPlanView, Group, GroupState, InMenuTask, Member, SyncPoint,
};
use crate::farm::party::model::{
    accepting, all_matched, all_slaves, at_point, bot_plan, bots_bound, can_clear, cleared,
    cleared_member, found_matches, group_sound, inviting, is_latest_epoch, joining, lists,
    master_reached, matched, matches_agree, plays, slave_reached,
};
use crate::farm::party::roster::{
    bot_pairs, bots_insert, group_map, group_order, groups_get_index, groups_get_mut, groups_len,
    member_map, member_order, members_get, members_get_index, members_get_mut, members_len,
};
use crate::ids::{numbers, SessionId};
use crate::path_engine::BotId;
use crate::protocol::game::Team;
use bimap::BiHashMap;
use indexmap::IndexMap;
use vstd::prelude::*;

verus! {

/// Moves everybody on to the next epoch.
pub(crate) fn clear_members(m: &mut IndexMap<u64, Member>)
    requires
        lists(member_order(*old(m)), member_map(*old(m))),
        can_clear(member_map(*old(m))),
    ensures
        member_order(*final(m)) == member_order(*old(m)),
        member_map(*final(m)) == cleared(member_map(*old(m))),
{
    let ghost order = member_order(*m);
    let ghost before = member_map(*m);
    let n = members_len(m);
    let mut i: usize = 0;
    while i < n
        invariant
            i <= n,
            n == order.len(),
            lists(order, before),
            can_clear(before),
            member_order(*m) == order,
            member_map(*m).dom() == before.dom(),
            forall|j: int|
                0 <= j < i ==> #[trigger] member_map(*m)[order[j]] == cleared_member(
                    before[order[j]],
                ),
            forall|j: int|
                i <= j < n ==> #[trigger] member_map(*m)[order[j]] == before[order[j]],
        decreases n - i,
    {
        if let Some((k, _)) = members_get_index(m, i) {
            assert(before.contains_key(k));
            if let Some(v) = members_get_mut(m, k) {
                v.sync_epoch = v.sync_epoch + 1;
                v.sync = SyncPoint::Waiting;
            }
        }
        i += 1;
    }
    assert(member_map(*m) =~= cleared(before));
}

/// Gives everybody the single step of accepting the match.
pub(crate) fn accept_members(m: &mut IndexMap<u64, Member>)
    requires
        lists(member_order(*old(m)), member_map(*old(m))),
    ensures
        member_order(*final(m)) == member_order(*old(m)),
        member_map(*final(m)) == accepting(member_map(*old(m))),
{
    let ghost order = member_order(*m);
    let ghost before = member_map(*m);
    let n = members_len(m);
    let mut i: usize = 0;
    while i < n
        invariant
            i <= n,
            n == order.len(),
            lists(order, before),
            member_order(*m) == order,
            member_map(*m).dom() == before.dom(),
            forall|j: int|
                0 <= j < i ==> #[trigger] member_map(*m)[order[j]] == accepting(before)[order[j]],
            forall|j: int|
                i <= j < n ==> #[trigger] member_map(*m)[order[j]] == before[order[j]],
        decreases n - i,
    {
        if let Some((k, _)) = members_get_index(m, i) {
            assert(before.contains_key(k));
            if let Some(v) = members_get_mut(m, k) {
                v.menu_task = Some(InMenuTask { total: 1, next_sync: SyncPoint::GameLoading });
            }
        }
        i += 1;
    }
    assert(member_map(*m) =~= accepting(before));
}

/// The latest epoch of any member, or zero where there is none.
pub(crate) fn latest_epoch(m: &IndexMap<u64, Member>) -> (r: u32)
    requires
        lists(member_order(*m), member_map(*m)),
    ensures
        is_latest_epoch(member_map(*m), r),
{
    let ghost order = member_order(*m);
    let ghost map = member_map(*m);
    let n = members_len(m);
    let mut latest: u32 = 0;
    let mut i: usize = 0;
    while i < n
        invariant
            i <= n,
            n == order.len(),
            order == member_order(*m),
            map == member_map(*m),
            lists(order, map),
            forall|j: int| 0 <= j < i ==> (#[trigger] map[order[j]]).sync_epoch <= latest,
            i == 0 ==> latest == 0,
            i > 0 ==> exists|j: int|
                0 <= j < i && (#[trigger] map[order[j]]).sync_epoch == latest,
        decreases n - i,
    {
        if let Some((k, v)) = members_get_index(m, i) {
            assert(map[order[i as int]].sync_epoch == v.sync_epoch);
            if i == 0 || v.sync_epoch > latest {
                latest = v.sync_epoch;
            }
        }
        i += 1;
    }
    proof {
        if n == 0 {
            assert(map.dom() =~= Set::empty());
        } else {
            let j = choose|j: int|
                0 <= j < n && (#[trigger] map[order[j]]).sync_epoch == latest;
            assert(map.contains_key(order[j]));
        }
    }
    latest
}

/// Whether everybody is at the point, in the given epoch.
pub(crate) fn everybody_at(m: &IndexMap<u64, Member>, epoch: u32, point: SyncPoint) -> (r: bool)
    requires
        lists(member_order(*m), member_map(*m)),
    ensures
        r == at_point(member_map(*m), epoch, point),
{
    let ghost order = member_order(*m);
    let ghost map = member_map(*m);
    let n = members_len(m);
    let mut i: usize = 0;
    while i < n
        invariant
            i <= n,
            n == order.len(),
            order == member_order(*m),
            map == member_map(*m),
            lists(order, map),
            forall|j: int|
                0 <= j < i ==> (#[trigger] map[order[j]]).sync_epoch == epoch && map[order[j]].sync
                    == point,
        decreases n - i,
    {
        if let Some((_, v)) = members_get_index(m, i) {
            assert(map.contains_key(order[i as int]));
            if v.sync_epoch != epoch || v.sync != point {
                return false;
            }
        }
        i += 1;
    }
    true
}

/// Whether everybody but one is at the point, in the given epoch.
pub(crate) fn others_at(
    m: &IndexMap<u64, Member>,
    sid: u64,
    epoch: u32,
    point: SyncPoint,
) -> (r: bool)
    requires
        lists(member_order(*m), member_map(*m)),
    ensures
        r == (forall|k: u64| #[trigger]
            member_map(*m).contains_key(k) && k != sid ==> member_map(*m)[k].sync_epoch == epoch
                && member_map(*m)[k].sync == point),
{
    let ghost order = member_order(*m);
    let ghost map = member_map(*m);
    let n = members_len(m);
    let mut i: usize = 0;
    while i < n
        invariant
            i <= n,
            n == order.len(),
            order == member_order(*m),
            map == member_map(*m),
            lists(order, map),
            forall|j: int|
                0 <= j < i && order[j] != sid ==> (#[trigger] map[order[j]]).sync_epoch == epoch
                    && map[order[j]].sync == point,
        decreases n - i,
    {
        if let Some((k, v)) = members_get_index(m, i) {
            assert(map.contains_key(order[i as int]));
            if k != sid && (v.sync_epoch != epoch || v.sync != point) {
                return false;
            }
        }
        i += 1;
    }
    true
}

/// The groups of a table in their order.
pub open spec fn groups_in_order(m: IndexMap<u64, Group>) -> Seq<GroupState> {
    group_order(m).map_values(|g: u64| group_map(m)[g]@)
}

/// The contents of the groups of a table, by key.
pub open spec fn group_views(m: IndexMap<u64, Group>) -> Map<u64, GroupState> {
    group_map(m).map_values(|g: Group| g@)
}

/// The slaves of all groups, group by group.
pub(crate) fn slaves_of(m: &IndexMap<u64, Group>) -> (r: Vec<SessionId>)
    ensures
        numbers(r@) == all_slaves(groups_in_order(*m)),
{
    let ghost gs = groups_in_order(*m);
    let n = groups_len(m);
    let mut out: Vec<SessionId> = Vec::new();
    let mut i: usize = 0;
    assert(numbers(out@) =~= all_slaves(gs.take(0)));
    while i < n
        invariant
            i <= n,
            n == group_order(*m).len(),
            gs == groups_in_order(*m),
            numbers(out@) == all_slaves(gs.take(i as int)),
        decreases n - i,
    {
        if let Some((_, group)) = groups_get_index(m, i) {
            let ghost flat = all_slaves(gs.take(i as int));
            assert(gs[i as int] == group@);
            let k = group.slaves.len();
            let mut j: usize = 0;
            while j < k
                invariant
                    j <= k,
                    k == group.slaves@.len(),
                    numbers(out@) == flat + group@.slaves.take(j as int),
                decreases k - j,
            {
                let ghost done = out@;
                out.push(group.slaves[j]);
                assert(group@.slaves[j as int] == group.slaves@[j as int]@);
                assert(numbers(out@) =~= numbers(done).push(group@.slaves[j as int]));
                assert(group@.slaves.take(j + 1) =~= group@.slaves.take(j as int).push(
                    group@.slaves[j as int],
                ));
                j += 1;
                assert(numbers(out@) =~= flat + group@.slaves.take(j as int));
            }
            assert(group@.slaves.take(k as int) =~= group@.slaves);
            assert(gs.take(i + 1).drop_last() =~= gs.take(i as int));
        }
        i += 1;
    }
    assert(gs.take(n as int) =~= gs);
    out
}

/// Lets the masters of the first `reach` groups take up the inviting.
pub(crate) fn mark_inviting(
    m: &mut IndexMap<u64, Member>,
    groups: &IndexMap<u64, Group>,
    reach: usize,
)
    requires
        reach <= groups_in_order(*groups).len(),
        forall|i: int|
            0 <= i < groups_in_order(*groups).len() ==> group_sound(
                #[trigger] groups_in_order(*groups)[i],
            ),
    ensures
        member_order(*final(m)) == member_order(*old(m)),
        member_map(*final(m)) == inviting(
            member_map(*old(m)),
            groups_in_order(*groups).take(reach as int),
        ),
{
    let ghost before = member_map(*m);
    let ghost order = member_order(*m);
    let ghost gs = groups_in_order(*groups);
    let mut i: usize = 0;
    while i < reach
        invariant
            i <= reach <= gs.len(),
            gs == groups_in_order(*groups),
            forall|i: int| 0 <= i < gs.len() ==> group_sound(#[trigger] gs[i]),
            member_order(*m) == order,
            member_map(*m) == inviting(before, gs.take(i as int)),
        decreases reach - i,
    {
        assert(gs.take(i + 1).drop_last() =~= gs.take(i as int));
        if let Some((_, group)) = groups_get_index(groups, i) {
            assert(gs[i as int] == group@);
            let total = 1 + 2 * group.slaves.len();
            if let Some(master) = members_get_mut(m, group.master.inner()) {
                master.menu_task = Some(InMenuTask { total, next_sync: SyncPoint::Ready });
            }
        }
        i += 1;
    }
}

/// The session is the master of one of the first `n` groups, and that group's
/// turn has come.
spec fn master_reached_among(gs: Seq<GroupState>, n: int, sid: u64, sent: nat) -> bool {
    exists|i: int|
        0 <= i < n && (#[trigger] gs[i]).master == sid && 2 * all_slaves(gs.take(i)).len() <= sent
}

/// The session is one of the first `n` slaves, and its turn has come.
spec fn slave_reached_among(slaves: Seq<u64>, n: int, sid: u64, sent: nat) -> bool {
    exists|p: int| 0 <= p < n && #[trigger] slaves[p] == sid && 2 * p <= sent
}

/// The slaves of the first `i` groups are no more than those of all groups.
proof fn lemma_slaves_before(gs: Seq<GroupState>, i: int)
    requires
        0 <= i <= gs.len(),
    ensures
        all_slaves(gs.take(i)).len() <= all_slaves(gs).len(),
        i < gs.len() ==> all_slaves(gs.take(i + 1)).len() == all_slaves(gs.take(i)).len()
            + gs[i].slaves.len(),
    decreases gs.len() - i,
{
    if i < gs.len() {
        assert(gs.take(i + 1).drop_last() =~= gs.take(i));
        lemma_slaves_before(gs, i + 1);
    } else {
        assert(gs.take(i) =~= gs);
    }
}

/// Puts the masters whose turn has come into the lobby.
fn mark_lobby(m: &mut IndexMap<u64, Member>, groups: &IndexMap<u64, Group>, sent: usize)
    requires
        all_slaves(groups_in_order(*groups)).len() <= usize::MAX,
    ensures
        member_order(*final(m)) == member_order(*old(m)),
        member_map(*final(m)).dom() == member_map(*old(m)).dom(),
        forall|k: u64| #[trigger]
            member_map(*old(m)).contains_key(k) ==> member_map(*final(m))[k] == (Member {
                sync: if master_reached(groups_in_order(*groups), k, sent as nat) {
                    SyncPoint::Lobby
                } else {
                    member_map(*old(m))[k].sync
                },
                ..member_map(*old(m))[k]
            }),
{
    let ghost before = member_map(*m);
    let ghost order = member_order(*m);
    let ghost gs = groups_in_order(*groups);
    let n = groups_len(groups);
    let mut ahead: usize = 0;
    let mut i: usize = 0;
    while i < n
        invariant
            i <= n,
            n == gs.len(),
            gs == groups_in_order(*groups),
            all_slaves(gs).len() <= usize::MAX,
            ahead == all_slaves(gs.take(i as int)).len(),
            member_order(*m) == order,
            member_map(*m).dom() == before.dom(),
            forall|k: u64| #[trigger]
                before.contains_key(k) ==> member_map(*m)[k] == (Member {
                    sync: if master_reached_among(gs, i as int, k, sent as nat) {
                        SyncPoint::Lobby
                    } else {
                        before[k].sync
                    },
                    ..before[k]
                }),
        decreases n - i,
    {
        proof {
            lemma_slaves_before(gs, i as int);
            lemma_slaves_before(gs, i + 1);
        }
        let ghost upto = member_map(*m);
        if let Some((_, group)) = groups_get_index(groups, i) {
            assert(gs[i as int] == group@);
            if ahead <= sent / 2 {
                if let Some(master) = members_get_mut(m, group.master.inner()) {
                    master.sync = SyncPoint::Lobby;
                }
            }
            ahead = ahead + group.slaves.len();
            assert forall|k: u64| #[trigger] before.contains_key(k) implies member_map(*m)[k] == (
            Member {
                sync: if master_reached_among(gs, i + 1, k, sent as nat) {
                    SyncPoint::Lobby
                } else {
                    before[k].sync
                },
                ..before[k]
            }) by {
                let now = gs[i as int].master == k && 2 * all_slaves(gs.take(i as int)).len()
                    <= sent;
                assert(master_reached_among(gs, i + 1, k, sent as nat) == (master_reached_among(
                    gs,
                    i as int,
                    k,
                    sent as nat,
                ) || now)) by {
                    if master_reached_among(gs, i + 1, k, sent as nat) {
                        let j = choose|j: int|
                            0 <= j < i + 1 && (#[trigger] gs[j]).master == k && 2 * all_slaves(
                                gs.take(j),
                            ).len() <= sent;
                        if j < i {
                            assert(gs[j].master == k);
                        }
                    }
                    if master_reached_among(gs, i as int, k, sent as nat) {
                        let j = choose|j: int|
                            0 <= j < i && (#[trigger] gs[j]).master == k && 2 * all_slaves(
                                gs.take(j),
                            ).len() <= sent;
                        assert(gs[j].master == k);
                    }
                }
                assert(upto.contains_key(k));
            }
        }
        i += 1;
    }
}

/// Gives the slaves whose turn has come the steps of joining.
fn mark_joining(m: &mut IndexMap<u64, Member>, slaves: &Vec<SessionId>, sent: usize)
    ensures
        member_order(*final(m)) == member_order(*old(m)),
        member_map(*final(m)).dom() == member_map(*old(m)).dom(),
        forall|k: u64| #[trigger]
            member_map(*old(m)).contains_key(k) ==> member_map(*final(m))[k] == (Member {
                menu_task: if slave_reached(numbers(slaves@), k, sent as nat) {
                    Some(InMenuTask { total: 2, next_sync: SyncPoint::Lobby })
                } else {
                    member_map(*old(m))[k].menu_task
                },
                ..member_map(*old(m))[k]
            }),
{
    let ghost before = member_map(*m);
    let ghost order = member_order(*m);
    let ghost flat = numbers(slaves@);
    let n = slaves.len();
    let mut p: usize = 0;
    while p < n
        invariant
            p <= n,
            n == flat.len(),
            flat == numbers(slaves@),
            member_order(*m) == order,
            member_map(*m).dom() == before.dom(),
            forall|k: u64| #[trigger]
                before.contains_key(k) ==> member_map(*m)[k] == (Member {
                    menu_task: if slave_reached_among(flat, p as int, k, sent as nat) {
                        Some(InMenuTask { total: 2, next_sync: SyncPoint::Lobby })
                    } else {
                        before[k].menu_task
                    },
                    ..before[k]
                }),
        decreases n - p,
    {
        let ghost upto = member_map(*m);
        assert(flat[p as int] == slaves@[p as int]@);
        if p <= sent / 2 {
            if let Some(slave) = members_get_mut(m, slaves[p].inner()) {
                slave.menu_task = Some(InMenuTask { total: 2, next_sync: SyncPoint::Lobby });
            }
        }
        assert forall|k: u64| #[trigger] before.contains_key(k) implies member_map(*m)[k] == (
        Member {
            menu_task: if slave_reached_among(flat, p + 1, k, sent as nat) {
                Some(InMenuTask { total: 2, next_sync: SyncPoint::Lobby })
            } else {
                before[k].menu_task
            },
            ..before[k]
        }) by {
            let now = flat[p as int] == k && 2 * p <= sent;
            assert(slave_reached_among(flat, p + 1, k, sent as nat) == (slave_reached_among(
                flat,
                p as int,
                k,
                sent as nat,
            ) || now)) by {
                if slave_reached_among(flat, p as int, k, sent as nat) {
                    let q = choose|q: int| 0 <= q < p && #[trigger] flat[q] == k && 2 * q <= sent;
                    assert(flat[q] == k);
                }
            }
            assert(upto.contains_key(k));
        }
        p += 1;
    }
}

/// Lets the slaves whose turn has come join, and puts their masters into the
/// lobby.
pub(crate) fn mark_joins(
    m: &mut IndexMap<u64, Member>,
    groups: &IndexMap<u64, Group>,
    slaves: &Vec<SessionId>,
    sent: usize,
)
    requires
        numbers(slaves@) == all_slaves(groups_in_order(*groups)),
    ensures
        member_order(*final(m)) == member_order(*old(m)),
        member_map(*final(m)) == joining(
            member_map(*old(m)),
            groups_in_order(*groups),
            sent as nat,
        ),
{
    let ghost before = member_map(*m);
    assert(slaves.len() == numbers(slaves@).len());
    mark_lobby(m, groups, sent);
    mark_joining(m, slaves, sent);
    assert(member_map(*m) =~= joining(before, groups_in_order(*groups), sent as nat));
}

/// Notes the match for the groups that the session is master of.
pub(crate) fn note_match(groups: &mut IndexMap<u64, Group>, sid: SessionId, match_id: u64)
    requires
        lists(group_order(*old(groups)), group_map(*old(groups))),
    ensures
        group_order(*final(groups)) == group_order(*old(groups)),
        group_views(*final(groups)) == matched(group_views(*old(groups)), sid@, match_id),
{
    let ghost order = group_order(*groups);
    let ghost before = group_map(*groups);
    let n = groups_len(groups);
    let mut i: usize = 0;
    while i < n
        invariant
            i <= n,
            n == order.len(),
            lists(order, before),
            group_order(*groups) == order,
            group_map(*groups).dom() == before.dom(),
            forall|j: int|
                0 <= j < i ==> (#[trigger] group_map(*groups)[order[j]])@ == (
                if before[order[j]]@.master == sid@ {
                    GroupState { match_id: Some(match_id), ..before[order[j]]@ }
                } else {
                    before[order[j]]@
                }),
            forall|j: int|
                i <= j < n ==> #[trigger] group_map(*groups)[order[j]] == before[order[j]],
        decreases n - i,
    {
        if let Some((k, group)) = groups_get_index(groups, i) {
            assert(before.contains_key(k));
            if sid == group.master {
                if let Some(g) = groups_get_mut(groups, k) {
                    g.match_id = Some(match_id);
                }
            }
        }
        i += 1;
    }
    assert forall|k: u64| #[trigger] before.contains_key(k) implies group_views(*groups)[k]
        == matched(before.map_values(|g: Group| g@), sid@, match_id)[k] by {
        let j = order.index_of(k);
        assert(order[j] == k);
        assert(group_map(*groups)[order[j]]@ == group_map(*groups)[k]@);
    }
    assert(group_views(*groups) =~= matched(before.map_values(|g: Group| g@), sid@, match_id));
}

/// The matches that the groups have found, in order, once those whose master has
/// reported one have found that one.
pub(crate) fn matches_found(
    groups: &IndexMap<u64, Group>,
    report: Option<(SessionId, u64)>,
) -> (r: Vec<u64>)
    ensures
        r@ == found_matches(
            match report {
                Some((sid, match_id)) => all_matched(groups_in_order(*groups), sid@, match_id),
                None => groups_in_order(*groups),
            },
        ),
{
    let ghost gs = match report {
        Some((sid, match_id)) => all_matched(groups_in_order(*groups), sid@, match_id),
        None => groups_in_order(*groups),
    };
    let n = groups_len(groups);
    let mut r: Vec<u64> = Vec::new();
    let mut i: usize = 0;
    while i < n
        invariant
            i <= n,
            n == gs.len(),
            gs == (match report {
                Some((sid, match_id)) => all_matched(groups_in_order(*groups), sid@, match_id),
                None => groups_in_order(*groups),
            }),
            r@ == found_matches(gs.take(i as int)),
        decreases n - i,
    {
        if let Some((_, group)) = groups_get_index(groups, i) {
            let found = match report {
                Some((sid, match_id)) if group.master == sid => Some(match_id),
                _ => group.match_id,
            };
            assert(gs.take(i + 1).drop_last() =~= gs.take(i as int));
            assert(gs[i as int].match_id == found);
            if let Some(id) = found {
                r.push(id);
            }
        }
        i += 1;
    }
    assert(gs.take(n as int) =~= gs);
    r
}

/// What was found was found by some group, and what some group has found was
/// found.
proof fn lemma_found(gs: Seq<GroupState>, id: u64)
    ensures
        found_matches(gs).contains(id) <==> exists|i: int|
            0 <= i < gs.len() && (#[trigger] gs[i]).match_id == Some(id),
    decreases gs.len(),
{
    if gs.len() > 0 {
        let front = gs.drop_last();
        let before = found_matches(front);
        lemma_found(front, id);
        if let Some(last) = gs.last().match_id {
            let all = before.push(last);
            if before.contains(id) {
                assert(all[before.index_of(id)] == id);
            }
            assert(all[before.len() as int] == last);
            if all.contains(id) && id != last {
                assert(before[all.index_of(id)] == id);
            }
        }
        if found_matches(gs).contains(id) {
            if before.contains(id) {
                let i = choose|i: int|
                    0 <= i < front.len() && (#[trigger] front[i]).match_id == Some(id);
                assert(gs[i].match_id == Some(id));
            } else {
                assert(gs[gs.len() - 1].match_id == Some(id));
            }
        }
        if exists|i: int| 0 <= i < gs.len() && (#[trigger] gs[i]).match_id == Some(id) {
            let i = choose|i: int| 0 <= i < gs.len() && (#[trigger] gs[i]).match_id == Some(id);
            if i < front.len() {
                assert(front[i].match_id == Some(id));
            }
        }
    }
}

/// Whether the groups agree, given the matches that they have found.
pub(crate) fn agree(found: &Vec<u64>, Ghost(gs): Ghost<Seq<GroupState>>) -> (r: bool)
    requires
        found@ == found_matches(gs),
    ensures
        r == matches_agree(gs),
{
    let mut i: usize = 0;
    while i < found.len()
        invariant
            i <= found.len(),
            found@ == found_matches(gs),
            forall|j: int| 0 <= j < i ==> #[trigger] found@[j] == found@[0],
        decreases found.len() - i,
    {
        if found[i] != found[0] {
            proof {
                lemma_found(gs, found@[0]);
                lemma_found(gs, found@[i as int]);
            }
            return false;
        }
        i += 1;
    }
    assert forall|a: int, b: int|
        #![trigger gs[a], gs[b]]
        0 <= a < gs.len() && 0 <= b < gs.len() && gs[a].match_id is Some && gs[b].match_id
            is Some implies gs[a].match_id == gs[b].match_id by {
        lemma_found(gs, gs[a].match_id->0);
        lemma_found(gs, gs[b].match_id->0);
    }
    true
}

/// The bots that the members who play need.
pub(crate) fn plan_bots(m: &IndexMap<u64, Member>) -> (r: Vec<BotPlan>)
    ensures
        plan_views(r@) == bot_plan(member_order(*m), member_map(*m)),
{
    let ghost order = member_order(*m);
    let ghost map = member_map(*m);
    let ghost pred = |k: u64| plays(map[k]);
    let ghost view = |k: u64|
        BotPlanView { sid: k, name: map[k].name->0@, team: map[k].team->0 };
    let n = members_len(m);
    let mut out: Vec<BotPlan> = Vec::new();
    let mut i: usize = 0;
    proof {
        reveal(Seq::filter);
        assert(order.take(0).filter(pred) =~= Seq::<u64>::empty());
        assert(plan_views(out@) =~= order.take(0).filter(pred).map_values(view));
    }
    while i < n
        invariant
            i <= n,
            n == order.len(),
            order == member_order(*m),
            map == member_map(*m),
            pred == (|k: u64| plays(map[k])),
            view == (|k: u64|
                BotPlanView { sid: k, name: map[k].name->0@, team: map[k].team->0 }),
            plan_views(out@) == order.take(i as int).filter(pred).map_values(view),
        decreases n - i,
    {
        let ghost done = out@;
        let ghost taken = order.take(i as int);
        if let Some((k, member)) = members_get_index(m, i) {
            proof {
                taken.lemma_filter_push(k, pred);
                assert(order.take(i + 1) =~= taken.push(k));
            }
            if let (Some(team), Some(name)) = (&member.team, &member.name) {
                if matches!(*team, Team::CounterTerrorists | Team::Terrorists) {
                    out.push(
                        BotPlan { sid: SessionId::from_raw(k), name: name.clone(), team: *team },
                    );
                }
            }
            proof {
                if pred(k) {
                    assert(plan_views(out@) =~= plan_views(done).push(view(k)));
                    assert(taken.filter(pred).push(k).map_values(view) =~= taken.filter(
                        pred,
                    ).map_values(view).push(view(k)));
                }
            }
        }
        i += 1;
    }
    assert(order.take(n as int) =~= order);
    out
}

/// Pairs each bot with the session that was planned for it.
pub(crate) fn bind_bots(
    bots: &mut BiHashMap<u32, u64>,
    plan: &Vec<BotPlan>,
    created: &Vec<BotId>,
    Ghost(sids): Ghost<Seq<u64>>,
)
    requires
        created@.len() <= plan@.len(),
        sids.len() == plan@.len(),
        forall|i: int| 0 <= i < plan@.len() ==> (#[trigger] plan@[i]).sid@ == sids[i],
    ensures
        bot_pairs(*final(bots)) == bots_bound(bot_pairs(*old(bots)), created@, sids),
{
    let ghost before = bot_pairs(*bots);
    let n = created.len();
    let mut i: usize = 0;
    while i < n
        invariant
            i <= n,
            n == created@.len(),
            n <= plan@.len(),
            sids.len() == plan@.len(),
            forall|i: int| 0 <= i < plan@.len() ==> (#[trigger] plan@[i]).sid@ == sids[i],
            bot_pairs(*bots) == bots_bound(before, created@.take(i as int), sids),
        decreases n - i,
    {
        bots_insert(bots, created[i].0, plan[i].sid.inner());
        assert(created@.take(i + 1).drop_last() =~= created@.take(i as int));
        i += 1;
    }
    assert(created@.take(n as int) =~= created@);
}

/// Whether nobody's epoch is at its limit.
pub(crate) fn members_can_clear(m: &IndexMap<u64, Member>) -> (r: bool)
    requires
        lists(member_order(*m), member_map(*m)),
    ensures
        r == can_clear(member_map(*m)),
{
    let ghost order = member_order(*m);
    let ghost map = member_map(*m);
    let n = members_len(m);
    let mut i: usize = 0;
    while i < n
        invariant
            i <= n,
            n == order.len(),
            order == member_order(*m),
            map == member_map(*m),
            lists(order, map),
            forall|j: int| 0 <= j < i ==> (#[trigger] map[order[j]]).sync_epoch < u32::MAX,
        decreases n - i,
    {
        if let Some((_, v)) = members_get_index(m, i) {
            assert(map.contains_key(order[i as int]));
            if v.sync_epoch == u32::MAX {
                return false;
            }
        }
        i += 1;
    }
    true
}

/// Whether all of the sessions are members.
pub(crate) fn all_members(m: &IndexMap<u64, Member>, sids: &Vec<SessionId>) -> (r: bool)
    ensures
        r == (forall|i: int|
            0 <= i < numbers(sids@).len() ==> member_map(*m).contains_key(
                #[trigger] numbers(sids@)[i],
            )),
{
    let n = sids.len();
    let mut i: usize = 0;
    while i < n
        invariant
            i <= n,
            n == sids@.len(),
            forall|j: int|
                0 <= j < i ==> member_map(*m).contains_key(#[trigger] numbers(sids@)[j]),
        decreases n - i,
    {
        assert(numbers(sids@)[i as int] == sids@[i as int]@);
        if members_get(m, sids[i].inner()).is_none() {
            return false;
        }
        i += 1;
    }
    true
}

} // verus!
