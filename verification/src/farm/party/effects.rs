//! What each step changes of a party, and what it leaves as it was.
use crate::config::Delay;
use crate::error::Error;
use crate::farm::party::laws::lemma_players_planned;
use crate::farm::party::member::{Event, Group, GroupState, InMenuTask, Member, SyncPoint};
use crate::farm::party::model::{
    all_slaves, at_point, bots_bound, can_clear, groups_reached, inviting, is_latest_epoch, joining,
    joining_member, players, PartyState,
};
use crate::farm::party::roster::{group_map, group_order};
use crate::farm::party::tables::{group_views, groups_in_order};
use crate::ids::PartyId;
use crate::path_engine::BotId;
use indexmap::IndexMap;
use vstd::prelude::*;

verus! {

/// A new party has the id and the setup it was given, and nothing else: no member,
/// no group, no engine, no bot, and the first round and group come next.
pub proof fn lemma_new_party<E>(pid: PartyId, map: Seq<char>, party_size: usize, delay: Delay)
    ensures
        ({
            let s = PartyState::<E>::fresh(pid, map, party_size, delay);
            &&& s.pid == pid
            &&& s.map == map
            &&& s.party_size == party_size
            &&& s.delay == delay
            &&& s.engine is None
            &&& s.round == 0
            &&& s.next_group == 0
            &&& s.order.len() == 0
            &&& s.group_ids.len() == 0
            &&& forall|k: u64| !#[trigger] s.members.contains_key(k)
            &&& forall|g: u64| !#[trigger] s.groups.contains_key(g)
            &&& forall|b: u32| !#[trigger] s.bots.contains_key(b)
        }),
{
}

/// A message of a party is the party's id and the event.
pub proof fn lemma_message<E>(s: PartyState<E>, event: Event)
    ensures
        s.message(event).0 == s.pid,
        s.message(event).1 == event,
{
}

/// A session that joins is a member who waits, in the first epoch, with nothing
/// to do, and with nothing known of it but the friend code it came with. It comes
/// last, or stays in its place if it was a member. Nothing else changes.
pub proof fn lemma_joining<E>(s: PartyState<E>, sid: u64, friend_code: String)
    ensures
        ({
            let t = s.joined_by(sid, friend_code);
            let m = t.members[sid];
            &&& t == (PartyState { order: t.order, members: t.members, ..s })
            &&& t.members == s.members.insert(sid, m)
            &&& m.sync_epoch == 0
            &&& m.sync == SyncPoint::Waiting
            &&& m.menu_task is None
            &&& m.friend_code == friend_code
            &&& m.team is None
            &&& m.name is None
            &&& s.members.contains_key(sid) ==> t.order == s.order
            &&& !s.members.contains_key(sid) ==> t.order == s.order.push(sid)
        }),
{
}

/// A session that has left is no member, and all others stay what they were, in
/// the same order. Nothing else changes.
pub proof fn lemma_leaving<E>(s: PartyState<E>, sid: u64, i: int, j: int)
    requires
        s.wf(),
    ensures
        ({
            let t = s.left_by(sid);
            &&& t == (PartyState { order: t.order, members: t.members, ..s })
            &&& t.members == s.members.remove(sid)
            &&& s.members.contains_key(sid) ==> t.order.len() == s.order.len() - 1
            &&& !s.members.contains_key(sid) ==> t.order == s.order
            &&& 0 <= i < t.order.len() ==> t.order[i] != sid && s.order.contains(t.order[i])
            &&& 0 <= i < j < t.order.len() ==> s.order.index_of(t.order[i]) < s.order.index_of(
                t.order[j],
            )
        }),
{
    let t = s.left_by(sid);
    s.order.index_of_first_ensures(sid);
    assert(s.members.contains_key(sid) <==> s.order.contains(sid));
    if s.order.contains(sid) {
        let at = s.order.index_of_first(sid)->0;
        assert(t.order == s.order.remove(at));
        assert forall|n: int| 0 <= n < t.order.len() implies #[trigger] t.order[n]
            == s.order[if n < at { n } else { n + 1 }] by {}
        assert forall|n: int| 0 <= n < s.order.len() implies s.order.index_of(
            #[trigger] s.order[n],
        ) == n by {}
    } else {
        assert forall|n: int| 0 <= n < s.order.len() implies s.order.index_of(
            #[trigger] s.order[n],
        ) == n by {}
    }
}

/// When a party starts over, everybody waits, in the epoch after the one they
/// were in, and keeps everything else. Nothing else changes.
pub proof fn lemma_starting_over<E>(s: PartyState<E>, k: u64)
    requires
        can_clear(s.members),
    ensures
        ({
            let t = s.restarted();
            &&& t == (PartyState { members: t.members, ..s })
            &&& t.members.contains_key(k) <==> s.members.contains_key(k)
            &&& s.members.contains_key(k) ==> {
                &&& t.members[k].sync == SyncPoint::Waiting
                &&& t.members[k].sync_epoch == s.members[k].sync_epoch + 1
                &&& t.members[k].menu_task == s.members[k].menu_task
                &&& t.members[k].friend_code == s.members[k].friend_code
                &&& t.members[k].team == s.members[k].team
                &&& t.members[k].name == s.members[k].name
            }
        }),
{
}

/// Nobody's epoch is at its limit if and only if everybody can move on by one.
pub proof fn lemma_room_to_start_over(members: Map<u64, Member>)
    ensures
        can_clear(members) <==> forall|k: u64| #[trigger]
            members.contains_key(k) ==> members[k].sync_epoch + 1 <= u32::MAX,
{
}

/// The latest epoch is that of some member and no member is ahead of it; without
/// members it is zero. There is only one.
pub proof fn lemma_latest_epoch(members: Map<u64, Member>, e: u32, d: u32, k: u64)
    requires
        is_latest_epoch(members, e),
    ensures
        members.contains_key(k) ==> members[k].sync_epoch <= e,
        members.contains_key(k) ==> exists|j: u64| #[trigger]
            members.contains_key(j) && members[j].sync_epoch == e,
        members.is_empty() ==> e == 0,
        is_latest_epoch(members, d) ==> d == e,
{
}

/// Everybody is at a point in an epoch if and only if nobody is at another point
/// or in another epoch.
pub proof fn lemma_everybody_there(members: Map<u64, Member>, epoch: u32, point: SyncPoint)
    ensures
        !at_point(members, epoch, point) <==> exists|k: u64| #[trigger]
            members.contains_key(k) && (members[k].sync != point || members[k].sync_epoch
                != epoch),
{
}

/// A party can be started if it has exactly the number of members it is meant
/// for, at least one of them, and nobody is missing who was grouped as a slave.
/// If it does not have that number, the refusal names the party and both numbers.
pub proof fn lemma_start_conditions<E>(s: PartyState<E>)
    ensures
        s.complete() <==> s.order.len() == s.party_size,
        s.can_group() ==> s.order.len() > 0,
        s.order.len() > 0 && !s.can_group() ==> exists|g: u64, i: int|
            #![trigger s.groups[g].slaves[i]]
            s.groups.contains_key(g) && 0 <= i < s.groups[g].slaves.len()
                && !s.members.contains_key(s.groups[g].slaves[i]),
        s.can_start() <==> s.order.len() == s.party_size && s.can_group(),
        s.order.len() <= usize::MAX ==> {
            &&& s.wrong_size() matches Error::PartySize { pid, members, party_size }
            &&& pid == s.pid
            &&& members == s.order.len()
            &&& party_size == s.party_size
        },
{
}

/// Nobody who was grouped as a slave is missing where the members can be grouped.
pub proof fn lemma_slaves_are_members<E>(s: PartyState<E>, g: u64, i: int)
    requires
        s.can_group(),
        s.groups.contains_key(g),
        0 <= i < s.groups[g].slaves.len(),
    ensures
        s.members.contains_key(s.groups[g].slaves[i]),
{
}

/// Grouping forms one group, under the next number: the first member is its
/// master, all others are its slaves, in the order in which they joined, and it
/// has no match. It comes last, or in the place of the group that had the number.
/// Nothing else changes.
pub proof fn lemma_grouping<E>(s: PartyState<E>, i: int)
    requires
        s.order.len() > 0,
    ensures
        ({
            let t = s.grouped();
            let g = t.groups[s.next_group];
            &&& t == (PartyState {
                next_group: t.next_group,
                group_ids: t.group_ids,
                groups: t.groups,
                ..s
            })
            &&& t.next_group == (s.next_group + 1) % 0x1_0000_0000_0000_0000
            &&& t.groups == s.groups.insert(s.next_group, g)
            &&& s.groups.contains_key(s.next_group) ==> t.group_ids == s.group_ids
            &&& !s.groups.contains_key(s.next_group) ==> t.group_ids == s.group_ids.push(
                s.next_group,
            )
            &&& g.master == s.order[0]
            &&& g.match_id is None
            &&& g.slaves.len() == s.order.len() - 1
            &&& 0 <= i < g.slaves.len() ==> g.slaves[i] == s.order[i + 1]
        }),
{
}

/// When `sent` of the invites have been delivered, a member has taken up the
/// inviting if it is the master of a group whose invite is delivered or comes
/// next: it has a clean menu, and an invite and a clean menu for each of its
/// slaves, to do, and is ready with the last of them. Where it is the master of
/// several such groups, the last of them counts. Nothing else changes.
pub proof fn lemma_inviting_taken_up<E>(s: PartyState<E>, sent: nat, k: u64, i: int)
    ensures
        ({
            let t = s.invited(sent);
            let gs = s.group_seq();
            let its_turn = |n: int| 0 <= n < gs.len() && gs[n].master == k && 2 * n <= sent;
            &&& t == (PartyState { members: t.members, ..s })
            &&& t.members.dom() == s.members.dom()
            &&& s.members.contains_key(k) && its_turn(i) && (forall|n: int|
                i < n ==> !#[trigger] its_turn(n)) ==> t.members[k] == (Member {
                menu_task: Some(
                    InMenuTask {
                        total: (1 + 2 * gs[i].slaves.len()) as usize,
                        next_sync: SyncPoint::Ready,
                    },
                ),
                ..s.members[k]
            })
            &&& (forall|n: int| !#[trigger] its_turn(n)) ==> t.members[k] == s.members[k]
        }),
{
    let gs = s.group_seq();
    let reach = groups_reached(gs.len(), sent) as int;
    let its_turn = |n: int| 0 <= n < gs.len() && gs[n].master == k && 2 * n <= sent;
    let taken = gs.take(reach);
    lemma_inviting_dom(s.members, taken);
    assert(s.invited(sent).members.dom() =~= s.members.dom());
    if s.members.contains_key(k) && its_turn(i) && (forall|n: int|
        i < n ==> !#[trigger] its_turn(n)) {
        assert forall|n: int| i < n < taken.len() implies (#[trigger] taken[n]).master != k by {
            assert(!its_turn(n));
        }
        lemma_last_invite(s.members, taken, k, i);
    }
    if forall|n: int| !#[trigger] its_turn(n) {
        assert forall|n: int| 0 <= n < taken.len() implies (#[trigger] taken[n]).master != k by {
            assert(!its_turn(n));
        }
        lemma_no_invite(s.members, taken, k);
    }
}

proof fn lemma_inviting_dom(members: Map<u64, Member>, gs: Seq<GroupState>)
    ensures
        inviting(members, gs).dom() == members.dom(),
    decreases gs.len(),
{
    if gs.len() > 0 {
        lemma_inviting_dom(members, gs.drop_last());
    }
    assert(inviting(members, gs).dom() =~= members.dom());
}

proof fn lemma_no_invite(members: Map<u64, Member>, gs: Seq<GroupState>, k: u64)
    requires
        forall|n: int| 0 <= n < gs.len() ==> (#[trigger] gs[n]).master != k,
    ensures
        inviting(members, gs)[k] == members[k],
    decreases gs.len(),
{
    if gs.len() > 0 {
        let front = gs.drop_last();
        assert forall|n: int| 0 <= n < front.len() implies (#[trigger] front[n]).master != k by {
            assert(front[n] == gs[n]);
        }
        lemma_no_invite(members, front, k);
        assert(gs[gs.len() - 1].master != k);
    }
}

proof fn lemma_last_invite(members: Map<u64, Member>, gs: Seq<GroupState>, k: u64, i: int)
    requires
        members.contains_key(k),
        0 <= i < gs.len(),
        gs[i].master == k,
        forall|n: int| i < n < gs.len() ==> (#[trigger] gs[n]).master != k,
    ensures
        inviting(members, gs)[k] == (Member {
            menu_task: Some(
                InMenuTask {
                    total: (1 + 2 * gs[i].slaves.len()) as usize,
                    next_sync: SyncPoint::Ready,
                },
            ),
            ..members[k]
        }),
    decreases gs.len(),
{
    let front = gs.drop_last();
    lemma_inviting_dom(members, front);
    assert(inviting(members, front).dom().contains(k));
    if i < front.len() {
        assert forall|n: int| i < n < front.len() implies (#[trigger] front[n]).master != k by {
            assert(front[n] == gs[n]);
        }
        lemma_last_invite(members, front, k, i);
        assert(gs[gs.len() - 1].master != k);
    } else {
        lemma_inviting_keeps(members, front, k);
    }
}

/// Taking up the inviting changes nothing of a member but what it has to do.
proof fn lemma_inviting_keeps(members: Map<u64, Member>, gs: Seq<GroupState>, k: u64)
    requires
        members.contains_key(k),
    ensures
        inviting(members, gs)[k] == (Member {
            menu_task: inviting(members, gs)[k].menu_task,
            ..members[k]
        }),
    decreases gs.len(),
{
    if gs.len() > 0 {
        lemma_inviting_keeps(members, gs.drop_last(), k);
    }
}

/// When `sent` of the orders to join have been delivered, every master is in the
/// lobby all of whose groups before it have been told, and every slave has two
/// steps to do, which lead to the lobby, whose order is delivered or comes next.
/// If all have been delivered, everybody starts over with that. Nothing else
/// changes.
pub proof fn lemma_told_to_join<E>(s: PartyState<E>, sent: nat, k: u64)
    ensures
        ({
            let t = s.told_to_join(sent);
            let gs = s.group_seq();
            let slaves = all_slaves(gs);
            let told = 2 * slaves.len() <= sent;
            let master = exists|i: int|
                0 <= i < gs.len() && (#[trigger] gs[i]).master == k && 2 * all_slaves(
                    gs.take(i),
                ).len() <= sent;
            let slave = exists|p: int|
                0 <= p < slaves.len() && #[trigger] slaves[p] == k && 2 * p <= sent;
            &&& t == (PartyState { members: t.members, ..s })
            &&& t.members.dom() == s.members.dom()
            &&& s.members.contains_key(k) ==> t.members[k] == (Member {
                sync_epoch: if told {
                    (s.members[k].sync_epoch + 1) as u32
                } else {
                    s.members[k].sync_epoch
                },
                sync: if told {
                    SyncPoint::Waiting
                } else if master {
                    SyncPoint::Lobby
                } else {
                    s.members[k].sync
                },
                menu_task: if slave {
                    Some(InMenuTask { total: 2, next_sync: SyncPoint::Lobby })
                } else {
                    s.members[k].menu_task
                },
                ..s.members[k]
            })
        }),
{
    let gs = s.group_seq();
    let between = joining(s.members, gs, sent);
    if s.members.contains_key(k) {
        assert(between.contains_key(k));
        assert(between[k] == joining_member(gs, k, s.members[k], sent));
    }
    assert(s.told_to_join(sent).members.dom() =~= s.members.dom());
}

/// The order to accept the match gives everybody a single step, which leads into
/// the game, whatever they had to do before; it changes nothing else.
pub proof fn lemma_told_to_accept<E>(s: PartyState<E>, k: u64)
    ensures
        ({
            let t = s.told_to_accept();
            &&& t == (PartyState { members: t.members, ..s })
            &&& t.members.dom() == s.members.dom()
            &&& s.members.contains_key(k) ==> t.members[k] == (Member {
                menu_task: Some(InMenuTask { total: 1, next_sync: SyncPoint::GameLoading }),
                ..s.members[k]
            })
        }),
{
    assert(s.told_to_accept().members.dom() =~= s.members.dom());
}

/// Once the orders to accept have been delivered to everybody, two each, the
/// party starts over; as long as one has not, nothing changes.
pub proof fn lemma_accepting_delivered<E>(s: PartyState<E>, sent: nat)
    ensures
        sent >= 2 * s.order.len() ==> s.accepted(sent) == s.restarted(),
        sent < 2 * s.order.len() ==> s.accepted(sent) == s,
{
}

/// When an engine has been started the party has it, and starts over; if it could
/// not be, everybody stays where they are, and the party keeps the engine it had.
/// Either way nothing but the bots changes besides.
pub proof fn lemma_engine_created<E>(s: PartyState<E>, created: Seq<BotId>, engine: Option<E>)
    ensures
        ({
            let t = s.playing(created, engine);
            &&& engine is Some ==> t == (PartyState { bots: t.bots, engine, ..s.restarted() })
            &&& engine is None ==> t == (PartyState { bots: t.bots, ..s })
        }),
{
}

/// The bots that an engine has created steer, place by place, the members who
/// play: a bot steers the player at the last place that it has. Any other bot
/// steers what it steered, unless its session got a new bot; then it steers
/// nothing.
pub proof fn lemma_bots_steer<E>(
    s: PartyState<E>,
    created: Seq<BotId>,
    engine: Option<E>,
    i: int,
    b: u32,
)
    requires
        s.wf(),
        created.len() <= players(s.order, s.members).len(),
    ensures
        ({
            let after = s.playing(created, engine).bots;
            let ps = players(s.order, s.members);
            let is_new = exists|n: int| 0 <= n < created.len() && (#[trigger] created[n]).0 == b;
            let taken = exists|n: int| 0 <= n < created.len() && #[trigger] ps[n] == s.bots[b];
            &&& 0 <= i < created.len() && created[i].0 == b && (forall|n: int|
                i < n < created.len() ==> (#[trigger] created[n]).0 != b)
                ==> after.contains_key(b) && after[b] == ps[i]
            &&& !is_new && s.bots.contains_key(b) && !taken ==> after.contains_key(b) && after[b]
                == s.bots[b]
            &&& !is_new && (taken || !s.bots.contains_key(b)) ==> !after.contains_key(b)
        }),
{
    lemma_players_planned(s);
    lemma_bound(s.bots, created, players(s.order, s.members), i, b);
}

proof fn lemma_bound(
    bots: Map<u32, u64>,
    created: Seq<BotId>,
    ps: Seq<u64>,
    i: int,
    b: u32,
)
    requires
        created.len() <= ps.len(),
        ps.no_duplicates(),
    ensures
        ({
            let after = bots_bound(bots, created, ps);
            let is_new = exists|n: int| 0 <= n < created.len() && (#[trigger] created[n]).0 == b;
            let taken = exists|n: int| 0 <= n < created.len() && #[trigger] ps[n] == bots[b];
            &&& 0 <= i < created.len() && created[i].0 == b && (forall|n: int|
                i < n < created.len() ==> (#[trigger] created[n]).0 != b)
                ==> after.contains_key(b) && after[b] == ps[i]
            &&& !is_new && bots.contains_key(b) && !taken ==> after.contains_key(b) && after[b]
                == bots[b]
            &&& !is_new && (taken || !bots.contains_key(b)) ==> !after.contains_key(b)
        }),
    decreases created.len(),
{
    if created.len() > 0 {
        let front = created.drop_last();
        let last = created.len() - 1;
        let before = bots_bound(bots, front, ps);
        lemma_bound(bots, front, ps, i, b);
        assert forall|n: int| 0 <= n < front.len() implies #[trigger] front[n] == created[n] by {}
        let is_new = exists|n: int| 0 <= n < created.len() && (#[trigger] created[n]).0 == b;
        if 0 <= i < last && created[i].0 == b && (forall|n: int|
            i < n < created.len() ==> (#[trigger] created[n]).0 != b) {
            assert(created[last].0 != b);
            assert(ps[i] != ps[last]);
        }
        if !is_new {
            assert(created[last].0 != b);
            assert(!(exists|n: int| 0 <= n < front.len() && (#[trigger] front[n]).0 == b)) by {
                if exists|n: int| 0 <= n < front.len() && (#[trigger] front[n]).0 == b {
                    let n = choose|n: int| 0 <= n < front.len() && (#[trigger] front[n]).0 == b;
                    assert(created[n].0 == b);
                }
            }
        }
    }
}

/// Once the engine has finished there is none, and no bot; nothing else changes.
pub proof fn lemma_engine_finished<E>(s: PartyState<E>, b: u32)
    ensures
        ({
            let t = s.engine_stopped();
            &&& t == (PartyState { engine: t.engine, bots: t.bots, ..s })
            &&& t.engine is None
            &&& !t.bots.contains_key(b)
        }),
{
}

/// What a table of groups holds is the content of each group, under its number,
/// and in order that of the group that was formed at each place.
pub proof fn lemma_table_of_groups(m: IndexMap<u64, Group>, g: u64, i: int)
    ensures
        group_views(m).contains_key(g) <==> group_map(m).contains_key(g),
        group_map(m).contains_key(g) ==> group_views(m)[g] == group_map(m)[g]@,
        groups_in_order(m).len() == group_order(m).len(),
        0 <= i < group_order(m).len() ==> groups_in_order(m)[i] == group_map(m)[group_order(m)[i]]@,
{
}

} // verus!
