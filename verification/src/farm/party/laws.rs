//! What a party promises beyond single calls.
use crate::config::Delay;
use crate::error::Error;
use crate::farm::party::member::{
    BotPlanView, Event, EventView, GroupState, InMenuTask, Member, MemberStepView, SyncPoint,
    SyncStepView,
};
use crate::farm::party::model::{
    all_slaves, bot_command, bot_plan, bots_bound, can_clear, cbot_event, cleared, cleared_member,
    found_matches, fresh_member, groups_reached, invite_tasks, inviting, joining, joining_member,
    matches_agree, menu_sound, noted, players, plays, report_ok, report_state, report_step,
    same_epoch, slave_reached, sync_state, sync_step, synced, team_plays, PartyState,
};
use crate::farm::party::Party;
use crate::ids::SessionId;
use crate::pairing::{lemma_left_of, lemma_paired, one_to_one};
use crate::path_engine::{BotId, CBotEvent};
use crate::protocol::game;
use crate::protocol::game::{GameMap, MatchState, MenuTaskView, Phase, PlayerState, SignOnState};
use crate::protocol::session;
use vstd::prelude::*;

verus! {

/// Where there is a member, the party is at one sync point at a time.
pub proof fn lemma_points_exclusive(
    members: Map<u64, Member>,
    sid: u64,
    p: SyncPoint,
    q: SyncPoint,
)
    requires
        members.contains_key(sid),
        synced(members, p),
        synced(members, q),
    ensures
        p == q,
{
}

/// When a party starts over, it has to come to each sync point anew: nobody is
/// at any point.
pub proof fn lemma_restart_waits<E>(s: PartyState<E>, sid: u64, point: SyncPoint)
    requires
        can_clear(s.members),
        s.members.contains_key(sid),
        point != SyncPoint::Waiting,
    ensures
        s.restarted().members[sid].sync == SyncPoint::Waiting,
        s.restarted().members[sid].sync_epoch == s.members[sid].sync_epoch + 1,
        !synced(s.restarted().members, point),
        sync_step(s.restarted()) == SyncStepView::Idle,
        sync_state(s.restarted()) == s.restarted(),
{
    assert(s.restarted().members.contains_key(sid));
    assert(cleared(s.members)[sid] == cleared_member(s.members[sid]));
}

/// The sync points ask for something only when everybody is there: the slaves
/// join when all are ready, a match is accepted when all have one, and the game
/// is played when all are in it.
pub proof fn lemma_sync_needs_everybody<E>(s: PartyState<E>, sid: u64)
    requires
        s.members.contains_key(sid),
    ensures
        sync_step(s) is Join <==> synced(s.members, SyncPoint::Ready),
        sync_step(s) is AcceptAfter <==> synced(s.members, SyncPoint::RecvMatch) && matches_agree(
            s.group_seq(),
        ),
        sync_step(s) is Mismatch <==> synced(s.members, SyncPoint::RecvMatch) && !matches_agree(
            s.group_seq(),
        ),
        sync_step(s) is Play <==> synced(s.members, SyncPoint::GameReady),
{
}

/// The point a report takes a member to, if it is the report of an arrival at a
/// sync point.
pub open spec fn arrival<E>(
    s: PartyState<E>,
    sid: u64,
    event: session::Event,
) -> Option<SyncPoint> {
    match event {
        session::Event::Game(game::Event::MenuTaskCompleted { .. }) => None,
        _ => match noted(s, sid, event) {
            Some(after) => Some(after.members[sid].sync),
            None => None,
        },
    }
}

/// Everybody but one is at the point, and all are in the same epoch.
pub open spec fn all_but_one(members: Map<u64, Member>, sid: u64, point: SyncPoint) -> bool {
    &&& same_epoch(members)
    &&& forall|k: u64| #[trigger]
        members.contains_key(k) && k != sid ==> members[k].sync == point
}

/// The last to arrive at a sync point sets off what the point asks for; an
/// arrival while somebody else is missing sets off nothing.
pub proof fn lemma_last_arrival<E>(s: PartyState<E>, sid: SessionId, event: session::Event)
    requires
        s.wf(),
        s.members.contains_key(sid@),
        arrival(s, sid@, event) is Some,
    ensures
        ({
            let point = arrival(s, sid@, event)->0;
            let after = noted(s, sid@, event)->0;
            &&& point == SyncPoint::Ready || point == SyncPoint::RecvMatch || point
                == SyncPoint::GameReady
            &&& all_but_one(s.members, sid@, point) <==> synced(after.members, point)
            &&& report_step(s, sid, event) == Ok::<MemberStepView, Error>(
                MemberStepView::Sync(sync_step(after)),
            )
            &&& !all_but_one(s.members, sid@, point) ==> sync_step(after) == SyncStepView::Idle
                && report_state(s, sid@, event) == after
        }),
{
    let point = arrival(s, sid@, event)->0;
    let after = noted(s, sid@, event)->0;
    let m = after.members[sid@];
    assert(m.sync == point);
    assert(m.sync_epoch == s.members[sid@].sync_epoch);
    assert(after.members =~= s.members.insert(sid@, m));
    assert forall|k: u64| #[trigger] after.members.contains_key(k) <==> s.members.contains_key(
        k,
    ) by {}
    if synced(after.members, point) {
        assert forall|k: u64| #[trigger]
            s.members.contains_key(k) && k != sid@ implies s.members[k].sync == point by {
            assert(after.members.contains_key(k));
        }
        assert forall|a: u64, b: u64| #[trigger]
            s.members.contains_key(a) && #[trigger] s.members.contains_key(
                b,
            ) implies s.members[a].sync_epoch == s.members[b].sync_epoch by {
            assert(after.members.contains_key(a));
            assert(after.members.contains_key(b));
        }
    }
    assert(after.members.contains_key(sid@));
}

/// The members of `t` are those of `s`, with the same friend codes, and all of
/// them `d` epochs further on.
pub open spec fn in_step(s: Map<u64, Member>, t: Map<u64, Member>, d: nat) -> bool {
    &&& forall|k: u64| #[trigger] t.contains_key(k) <==> s.contains_key(k)
    &&& forall|k: u64| #[trigger]
        t.contains_key(k) ==> t[k].sync_epoch == s[k].sync_epoch + d && t[k].friend_code
            == s[k].friend_code
}

/// Everything that happens to a party, but that members join or leave, keeps its
/// members in step.
pub proof fn lemma_members_in_step<E>(
    s: PartyState<E>,
    sid: u64,
    event: session::Event,
    sent: nat,
    created: Seq<BotId>,
    engine: Option<E>,
)
    requires
        s.wf(),
        can_clear(s.members),
    ensures
        in_step(s.members, report_state(s, sid, event).members, 0) || in_step(
            s.members,
            report_state(s, sid, event).members,
            1,
        ),
        in_step(s.members, s.grouped().members, 0),
        in_step(s.members, s.invited(sent).members, 0),
        in_step(s.members, s.told_to_join(sent).members, 0) || in_step(
            s.members,
            s.told_to_join(sent).members,
            1,
        ),
        in_step(s.members, s.told_to_accept().members, 0),
        in_step(s.members, s.accepted(sent).members, 0) || in_step(
            s.members,
            s.accepted(sent).members,
            1,
        ),
        in_step(s.members, s.playing(created, engine).members, 0) || in_step(
            s.members,
            s.playing(created, engine).members,
            1,
        ),
        in_step(s.members, s.engine_stopped().members, 0),
{
    lemma_inviting_in_step(
        s.members,
        s.group_seq().take(groups_reached(s.group_seq().len(), sent) as int),
    );
    if s.members.contains_key(sid) && noted(s, sid, event) is Some {
        let after = noted(s, sid, event)->0;
        assert(in_step(s.members, after.members, 0));
        assert forall|k: u64| #[trigger] after.members.contains_key(k) implies cleared(
            after.members,
        )[k].sync_epoch == s.members[k].sync_epoch + 1 by {
            assert(s.members.contains_key(k));
        }
    }
    assert forall|k: u64| #[trigger] s.members.contains_key(k) implies s.members[k].sync_epoch
        < u32::MAX by {}
}

proof fn lemma_inviting_in_step(members: Map<u64, Member>, gs: Seq<GroupState>)
    ensures
        in_step(members, inviting(members, gs), 0),
    decreases gs.len(),
{
    if gs.len() > 0 {
        lemma_inviting_in_step(members, gs.drop_last());
    }
}

/// Members in step stay in the same epoch, or apart, as they were. So one who
/// joins a party that has already started over keeps it from every further sync
/// point until either of them leaves.
pub proof fn lemma_in_step_keeps_epochs(s: Map<u64, Member>, t: Map<u64, Member>, d: nat)
    requires
        in_step(s, t, d),
    ensures
        same_epoch(t) <==> same_epoch(s),
        !same_epoch(s) ==> forall|point: SyncPoint| !#[trigger] synced(t, point),
{
    if same_epoch(t) {
        assert forall|a: u64, b: u64| #[trigger] s.contains_key(a) && #[trigger] s.contains_key(
            b,
        ) implies s[a].sync_epoch == s[b].sync_epoch by {
            assert(t.contains_key(a) && t.contains_key(b));
        }
    }
    if same_epoch(s) {
        assert forall|a: u64, b: u64| #[trigger] t.contains_key(a) && #[trigger] t.contains_key(
            b,
        ) implies t[a].sync_epoch == t[b].sync_epoch by {
            assert(s.contains_key(a) && s.contains_key(b));
        }
    }
}

/// A member is taken to the game only by the report that it is fully signed on
/// to the party's map, in the party's round, out of the freeze, and in a team
/// that plays.
pub proof fn lemma_game_ready_on_map<E>(s: PartyState<E>, sid: u64, event: session::Event)
    requires
        s.wf(),
        s.members.contains_key(sid),
        noted(s, sid, event) matches Some(after) && after.members[sid].sync
            == SyncPoint::GameReady,
    ensures
        event matches session::Event::Game(
            game::Event::StateUpdate {
                sign_on_state: SignOnState::Full,
                player: Some(PlayerState { team, name }),
                map: GameMap::Base { name: map_name },
                match_state: Some(MatchState { phase: Phase::Round { number }, freeze: false }),
            },
        ) && map_name@ == s.map && number == s.round && team_plays(team),
{
    assert(menu_sound(s.members[sid].menu_task));
}

/// Once a round is being played, the report that began it is of no interest any
/// more: the party waits for the next round.
pub proof fn lemma_round_moves_on<E>(s: PartyState<E>, sid: SessionId, event: session::Event)
    requires
        s.wf(),
        s.members.contains_key(sid@),
        s.round < usize::MAX,
        report_step(s, sid, event) matches Ok(step) && step matches MemberStepView::Sync(
            sync,
        ) && sync is Play,
    ensures
        report_state(s, sid@, event).round == s.round + 1,
        report_step(report_state(s, sid@, event), sid, event) == Ok::<MemberStepView, Error>(
            MemberStepView::Idle,
        ),
        report_state(report_state(s, sid@, event), sid@, event) == report_state(s, sid@, event),
{
    let after = noted(s, sid@, event)->0;
    assert(synced(after.members, SyncPoint::GameReady));
    assert(after.members.contains_key(sid@));
    lemma_game_ready_on_map(s, sid@, event);
}

/// A party with one group never disagrees on a match.
pub proof fn lemma_one_group_agrees<E>(s: PartyState<E>)
    requires
        s.group_ids.len() <= 1,
    ensures
        matches_agree(s.group_seq()),
{
}

/// When everybody has a match, it is accepted after the configured delay if the
/// groups agree on it; otherwise the party starts over, and every group has to
/// find a match again.
pub proof fn lemma_match_decides<E>(s: PartyState<E>, sid: u64)
    requires
        s.members.contains_key(sid),
        can_clear(s.members),
        synced(s.members, SyncPoint::RecvMatch),
    ensures
        matches_agree(s.group_seq()) ==> sync_step(s) == SyncStepView::AcceptAfter(s.delay)
            && sync_state(s) == s,
        !matches_agree(s.group_seq()) ==> sync_step(s) == SyncStepView::Mismatch(
            found_matches(s.group_seq()),
        ) && sync_state(s) == s.restarted() && !synced(sync_state(s).members, SyncPoint::RecvMatch),
{
    if !matches_agree(s.group_seq()) {
        lemma_restart_waits(s, sid, SyncPoint::RecvMatch);
    }
}

/// A master invites each of its slaves by the slave's friend code, in order, with
/// a clean menu before and after.
pub proof fn lemma_every_slave_invited(members: Map<u64, Member>, slaves: Seq<u64>, i: int)
    requires
        0 <= i < slaves.len(),
    ensures
        invite_tasks(members, slaves).len() == 2 * slaves.len() + 1,
        invite_tasks(members, slaves)[2 * i + 1] == (MenuTaskView::SendInvite {
            code: members[slaves[i]].friend_code@,
        }),
        invite_tasks(members, slaves)[2 * i] == MenuTaskView::Clear,
        invite_tasks(members, slaves)[2 * i + 2] == MenuTaskView::Clear,
{
}

/// When a party has been started, its first member is the master of the new
/// group and all others are its slaves, in the order in which they joined; and
/// the master becomes ready with the last of its steps, and with no other.
pub proof fn lemma_master_becomes_ready<E>(s: PartyState<E>, sent: nat, id: usize)
    requires
        s.wf(),
        s.can_start(),
        !s.groups.contains_key(s.next_group),
        sent >= 2 * s.group_ids.len(),
        1 + 2 * s.order.len() <= usize::MAX,
    ensures
        ({
            let master = s.order[0];
            let started = s.grouped().invited(sent);
            let done = session::Event::Game(game::Event::MenuTaskCompleted { id });
            &&& s.grouped().group_seq().last() == (GroupState {
                master,
                slaves: s.order.skip(1),
                match_id: None,
            })
            &&& started.members.contains_key(master)
            &&& started.members[master].menu_task == Some(
                InMenuTask {
                    total: invite_tasks(s.members, s.order.skip(1)).len() as usize,
                    next_sync: SyncPoint::Ready,
                },
            )
            &&& id == 2 * (s.order.len() - 1) ==> noted(started, master, done) is Some && noted(
                started,
                master,
                done,
            )->0.members[master].sync == SyncPoint::Ready
            &&& id != 2 * (s.order.len() - 1) ==> noted(started, master, done) is None
        }),
{
    let g = s.grouped();
    let gs = g.group_seq();
    assert(gs.last() == s.next_group_state());
    assert(groups_reached(gs.len(), sent) == gs.len());
    assert(gs.take(gs.len() as int) =~= gs);
    lemma_inviting_in_step(s.members, gs.drop_last());
    assert(s.order.contains(s.order[0]));
    assert(s.members.contains_key(s.order[0]));
    assert(inviting(s.members, gs.drop_last()).contains_key(s.order[0]));
}

/// When the slaves have been told to join, a slave is in the lobby with the
/// second of its two steps, and with no other.
pub proof fn lemma_slave_joins<E>(s: PartyState<E>, sent: nat, p: int, id: usize)
    requires
        s.wf(),
        can_clear(s.members),
        2 * all_slaves(s.group_seq()).len() <= sent,
        0 <= p < all_slaves(s.group_seq()).len(),
        s.members.contains_key(all_slaves(s.group_seq())[p]),
    ensures
        ({
            let slave = all_slaves(s.group_seq())[p];
            let told = s.told_to_join(sent);
            let done = session::Event::Game(game::Event::MenuTaskCompleted { id });
            &&& told.members[slave].sync == SyncPoint::Waiting
            &&& id == 1 ==> noted(told, slave, done) is Some && noted(
                told,
                slave,
                done,
            )->0.members[slave].sync == SyncPoint::Lobby
            &&& id != 1 ==> noted(told, slave, done) is None
        }),
{
    let gs = s.group_seq();
    let slave = all_slaves(gs)[p];
    assert(slave_reached(all_slaves(gs), slave, sent));
    assert(joining(s.members, gs, sent)[slave] == joining_member(
        gs,
        slave,
        s.members[slave],
        sent,
    ));
}

/// When everybody has been told to accept the match, each member loads the game
/// with its single step, and with no other.
pub proof fn lemma_everybody_accepts<E>(s: PartyState<E>, sent: nat, sid: u64, id: usize)
    requires
        s.members.contains_key(sid),
    ensures
        ({
            let told = s.told_to_accept().accepted(sent);
            let done = session::Event::Game(game::Event::MenuTaskCompleted { id });
            &&& told.members.contains_key(sid)
            &&& id == 0 ==> noted(told, sid, done) is Some && noted(
                told,
                sid,
                done,
            )->0.members[sid].sync == SyncPoint::GameLoading
            &&& id != 0 ==> noted(told, sid, done) is None
        }),
{
    let told = s.told_to_accept();
    assert(told.members.contains_key(sid));
    assert(told.restarted().members.contains_key(sid));
}

/// The bots are planned for exactly the members who play, each once, in the
/// order in which they joined, under the names and for the teams they reported.
pub proof fn lemma_players_planned<E>(s: PartyState<E>)
    requires
        s.wf(),
    ensures
        players(s.order, s.members).no_duplicates(),
        forall|k: u64| #[trigger]
            players(s.order, s.members).contains(k) <==> s.members.contains_key(k) && plays(
                s.members[k],
            ),
        bot_plan(s.order, s.members).len() == players(s.order, s.members).len(),
        forall|i: int|
            0 <= i < players(s.order, s.members).len() ==> #[trigger] bot_plan(
                s.order,
                s.members,
            )[i] == (BotPlanView {
                sid: players(s.order, s.members)[i],
                name: s.members[players(s.order, s.members)[i]].name->0@,
                team: s.members[players(s.order, s.members)[i]].team->0,
            }),
{
    lemma_filtered(s.order, |k: u64| plays(s.members[k]));
}

/// Filtering a list without duplicates gives one that holds what is kept, each
/// once.
proof fn lemma_filtered(order: Seq<u64>, keep: spec_fn(u64) -> bool)
    requires
        order.no_duplicates(),
    ensures
        order.filter(keep).no_duplicates(),
        forall|k: u64| #[trigger]
            order.filter(keep).contains(k) <==> order.contains(k) && keep(k),
    decreases order.len(),
{
    reveal(Seq::filter);
    if order.len() > 0 {
        let front = order.drop_last();
        let rest = front.filter(keep);
        let all = order.filter(keep);
        lemma_filtered(front, keep);
        assert(!front.contains(order.last()));
        assert forall|k: u64| #[trigger] all.contains(k) <==> order.contains(k) && keep(k) by {
            if order.contains(k) && k != order.last() {
                assert(front[order.index_of(k)] == k);
            }
            if front.contains(k) {
                assert(order[front.index_of(k)] == k);
            }
            if rest.contains(k) {
                assert(all[rest.index_of(k)] == k);
            }
            if keep(order.last()) {
                assert(all[rest.len() as int] == order.last());
                if all.contains(k) && k != order.last() {
                    assert(rest[all.index_of(k)] == k);
                }
            }
        }
        if keep(order.last()) {
            assert(!rest.contains(order.last()));
        }
    }
}

/// The bots that were created lead to the players, one to one.
proof fn lemma_bots_lead_to_players(
    bots: Map<u32, u64>,
    created: Seq<BotId>,
    sids: Seq<u64>,
    i: int,
)
    requires
        one_to_one(bots),
        created.no_duplicates(),
        created.len() <= sids.len(),
        sids.no_duplicates(),
        0 <= i < created.len(),
    ensures
        one_to_one(bots_bound(bots, created, sids)),
        bots_bound(bots, created, sids).contains_key(created[i].0),
        bots_bound(bots, created, sids)[created[i].0] == sids[i],
    decreases created.len(),
{
    let front = created.drop_last();
    let last = created.len() - 1;
    if i < last {
        lemma_bots_lead_to_players(bots, front, sids, i);
        assert(front[i] == created[i]);
        assert(created[i] != created[last]);
        assert(sids[i] != sids[last]);
    } else if front.len() > 0 {
        lemma_bots_lead_to_players(bots, front, sids, 0);
    }
    lemma_paired(bots_bound(bots, front, sids), created[last].0, sids[last]);
}

/// Once an engine has created a bot for each player, under ids of their own, its
/// orders for a bot go to that bot's player, and a step that the player has
/// completed is reported to the engine as that bot's.
pub proof fn lemma_bot_round_trip<E>(
    s: PartyState<E>,
    created: Seq<BotId>,
    engine: Option<E>,
    i: int,
    order: CBotEvent,
    id: usize,
    player: SessionId,
)
    requires
        s.wf(),
        created.no_duplicates(),
        created.len() == players(s.order, s.members).len(),
        engine is Some,
        0 <= i < created.len(),
        player@ == players(s.order, s.members)[i],
    ensures
        ({
            let after = s.playing(created, engine);
            let done = session::Event::Game(game::Event::BotTaskCompleted { id });
            &&& cbot_event(after.bots, created[i], order) == Some(
                EventView::Session(player@, session::CommandView::Game(bot_command(order))),
            )
            &&& report_step(after, player, done) == Ok::<MemberStepView, Error>(
                MemberStepView::TaskCompleted { bot: created[i], id },
            )
        }),
{
    let sids = players(s.order, s.members);
    lemma_players_planned(s);
    lemma_bots_lead_to_players(s.bots, created, sids, i);
    lemma_left_of(bots_bound(s.bots, created, sids), created[i].0);
    assert(sids.contains(sids[i]));
    assert(s.playing(created, engine).members.contains_key(player@));
}

/// Once the engine has stopped, nothing is sent for its bots any more, and no
/// completed step is passed on to it.
pub proof fn lemma_engine_stopped<E>(
    s: PartyState<E>,
    bot: BotId,
    order: CBotEvent,
    sid: SessionId,
    id: usize,
)
    ensures
        cbot_event(s.engine_stopped().bots, bot, order) is None,
        report_step(
            s.engine_stopped(),
            sid,
            session::Event::Game(game::Event::BotTaskCompleted { id }),
        ) == Err::<MemberStepView, Error>(Error::SessionNotFound(sid)),
{
}

/// The list without a value.
pub open spec fn all_but(order: Seq<u64>, x: u64) -> Seq<u64> {
    order.filter(|y: u64| y != x)
}

/// What a session reports after it has left is refused and changes nothing, and
/// the other members are what they were, in the same order.
pub proof fn lemma_dead_member<E>(s: PartyState<E>, sid: SessionId, event: session::Event, k: u64)
    requires
        s.wf(),
        k != sid@,
    ensures
        report_step(s.left_by(sid@), sid, event) == Err::<MemberStepView, Error>(
            Error::SessionNotFound(sid),
        ),
        report_state(s.left_by(sid@), sid@, event) == s.left_by(sid@),
        s.left_by(sid@).members.contains_key(k) == s.members.contains_key(k),
        s.left_by(sid@).members[k] == s.members[k],
        s.left_by(sid@).order == all_but(s.order, sid@),
{
    lemma_removed(s.order, sid@);
}

/// Taking a value out of a list without duplicates keeps all others, in order.
proof fn lemma_removed(order: Seq<u64>, x: u64)
    requires
        order.no_duplicates(),
    ensures
        order.remove_value(x) == all_but(order, x),
    decreases order.len(),
{
    reveal(Seq::filter);
    order.index_of_first_ensures(x);
    if order.len() > 0 {
        let front = order.drop_last();
        lemma_removed(front, x);
        front.index_of_first_ensures(x);
        if order.last() == x {
            assert(!front.contains(x));
            assert(order.remove_value(x) =~= front);
        } else if front.contains(x) {
            let at = front.index_of_first(x)->0;
            assert(order[at] == x);
            assert(order.remove_value(x) =~= front.remove_value(x).push(order.last()));
        } else {
            assert(!order.contains(x)) by {
                if order.contains(x) {
                    assert(front[order.index_of(x)] == x);
                }
            }
            assert(order.remove_value(x) =~= order);
            assert(front.remove_value(x) =~= front);
            assert(order =~= front.push(order.last()));
        }
    }
}

/// A report changes neither who the members are, nor their order, nor who is
/// grouped with whom, nor what the party is set up for; and of the other members
/// it changes nothing but that they start over with everybody else.
pub proof fn lemma_report_frame<E>(s: PartyState<E>, sid: u64, event: session::Event, k: u64)
    requires
        s.wf(),
        s.members.contains_key(k),
        k != sid,
    ensures
        ({
            let after = report_state(s, sid, event);
            &&& after.pid == s.pid
            &&& after.map == s.map
            &&& after.party_size == s.party_size
            &&& after.delay == s.delay
            &&& after.engine == s.engine
            &&& after.bots == s.bots
            &&& after.order == s.order
            &&& after.group_ids == s.group_ids
            &&& after.next_group == s.next_group
            &&& forall|g: u64| #[trigger]
                s.groups.contains_key(g) ==> after.groups.contains_key(g) && after.groups[g].master
                    == s.groups[g].master && after.groups[g].slaves == s.groups[g].slaves
            &&& after.members.contains_key(k)
            &&& after.members[k] == s.members[k] || after.members[k] == cleared_member(s.members[k])
        }),
{
}

/// A party that can start over and play one more round can take any report but
/// that of a menu step that cannot be counted.
pub proof fn lemma_advance_suffices<E>(s: PartyState<E>, sid: u64, event: session::Event)
    requires
        s.wf(),
        s.can_advance(),
        event != session::Event::Game(game::Event::MenuTaskCompleted { id: usize::MAX }),
    ensures
        report_ok(s, sid, event),
        s.sync_ok(),
        noted(s, sid, event) matches Some(after) ==> s.members.contains_key(sid)
            ==> after.sync_ok(),
{
    if s.members.contains_key(sid) && noted(s, sid, event) is Some {
        let after = noted(s, sid, event)->0;
        assert(can_clear(after.members)) by {
            assert forall|k: u64| #[trigger]
                after.members.contains_key(k) implies after.members[k].sync_epoch < u32::MAX by {
                assert(s.members.contains_key(k));
            }
        }
    }
}

/// Whoever joins again starts over in the same place; whoever is new comes last.
pub proof fn lemma_join_order<E>(s: PartyState<E>, sid: u64, friend_code: String, k: u64)
    requires
        s.wf(),
        k != sid,
    ensures
        s.members.contains_key(sid) ==> s.joined_by(sid, friend_code).order == s.order,
        !s.members.contains_key(sid) ==> s.joined_by(sid, friend_code).order == s.order.push(sid),
        s.joined_by(sid, friend_code).members[sid] == fresh_member(friend_code),
        s.joined_by(sid, friend_code).members.contains_key(k) == s.members.contains_key(k),
        s.joined_by(sid, friend_code).members[k] == s.members[k],
{
}

/// Something that happens to a party.
pub enum PartyStep<E> {
    /// A member joins, with a friend code.
    Join(u64, String),
    /// A member leaves.
    Leave(u64),
    /// A member's session reports something.
    Report(u64, session::Event),
    /// The sync points are looked at.
    Sync,
    /// The party starts over.
    Restart,
    /// The members are grouped.
    Start,
    /// So many of the events that tell the masters to invite were delivered.
    Invited(nat),
    /// So many of the events that tell the slaves to join were delivered.
    ToldToJoin(nat),
    /// Everybody is given the step of accepting the match.
    ToldToAccept,
    /// So many of the events that tell everybody to accept were delivered.
    Accepted(nat),
    /// The next round begins.
    Round,
    /// The creation of an engine got as far as the bots.
    Playing(Seq<BotId>, Option<E>),
    /// The engine has finished.
    EngineStopped,
}

/// The step takes the party from `s` to `t`.
pub open spec fn stepped<E>(s: PartyState<E>, step: PartyStep<E>, t: PartyState<E>) -> bool {
    t == (match step {
        PartyStep::Join(sid, friend_code) => s.joined_by(sid, friend_code),
        PartyStep::Leave(sid) => s.left_by(sid),
        PartyStep::Report(sid, event) => report_state(s, sid, event),
        PartyStep::Sync => sync_state(s),
        PartyStep::Restart => s.restarted(),
        PartyStep::Start => s.grouped(),
        PartyStep::Invited(sent) => s.invited(sent),
        PartyStep::ToldToJoin(sent) => s.told_to_join(sent),
        PartyStep::ToldToAccept => s.told_to_accept(),
        PartyStep::Accepted(sent) => s.accepted(sent),
        PartyStep::Round => PartyState { round: (s.round + 1) as usize, ..s },
        PartyStep::Playing(created, engine) => s.playing(created, engine),
        PartyStep::EngineStopped => s.engine_stopped(),
    })
}

/// No step changes the party's id, or what it is set up for.
pub proof fn lemma_setup_kept<E>(s: PartyState<E>, step: PartyStep<E>, t: PartyState<E>)
    requires
        stepped(s, step, t),
    ensures
        t.pid == s.pid,
        t.map == s.map,
        t.party_size == s.party_size,
        t.delay == s.delay,
{
}

/// Whatever happens to a party after it was created, every message that it sends
/// carries the id it was created with.
pub proof fn lemma_messages_carry_the_id<E>(
    party: Party,
    delay: Delay,
    hs: Seq<PartyState<E>>,
    steps: Seq<PartyStep<E>>,
    event: Event,
)
    requires
        hs.len() == steps.len() + 1,
        hs[0] == PartyState::<E>::fresh(
            party.pid,
            party.layout.map@,
            party.layout.party_size,
            delay,
        ),
        forall|i: int| 0 <= i < steps.len() ==> #[trigger] stepped(hs[i], steps[i], hs[i + 1]),
    ensures
        hs[0].order.len() == 0,
        hs.last().message(event).0 == party.pid,
        hs.last().map == party.layout.map@,
        hs.last().party_size == party.layout.party_size,
    decreases steps.len(),
{
    if steps.len() > 0 {
        let front = hs.drop_last();
        let before = steps.drop_last();
        assert forall|i: int| 0 <= i < before.len() implies #[trigger] stepped(
            front[i],
            before[i],
            front[i + 1],
        ) by {
            assert(stepped(hs[i], steps[i], hs[i + 1]));
        }
        lemma_messages_carry_the_id(party, delay, front, before, event);
        let n = steps.len() - 1;
        assert(stepped(hs[n], steps[n], hs[n + 1]));
        lemma_setup_kept(hs[n], steps[n], hs[n + 1]);
    }
}

} // verus!
