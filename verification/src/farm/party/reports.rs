//! What the reports of members do to a party, and what they make it ask for.
use crate::error::Error;
use crate::farm::party::laws::{lemma_players_planned, stepped, PartyStep};
use crate::farm::party::member::{
    Command, CommandStepView, EventView, GroupState, Member, MemberStepView, SyncPoint,
    SyncStepView,
};
use crate::farm::party::model::{
    accept_events, all_slaves, bot_plan, can_clear, cbot_event, command_state, command_step,
    engine_answer, engine_state, found_matches, groups_reached, invite_events, inviting,
    join_events, matches_agree, noted, players, plays, report_ok, report_state, report_step,
    sync_state, sync_step, synced, PartyState,
};
use crate::ids::SessionId;
use crate::pairing::lemma_left_of;
use crate::path_engine;
use crate::path_engine::BotId;
use crate::protocol::game;
use crate::protocol::game::{GameMap, MatchState, Phase, PlayerState, SignOnState, Team};
use crate::protocol::session;
use crate::protocol::session::State;
use vstd::prelude::*;

verus! {

/// A report from a session that is no member is refused, and changes nothing.
pub proof fn lemma_stranger_is_refused<E>(
    s: PartyState<E>,
    sid: SessionId,
    event: session::Event,
)
    requires
        !s.members.contains_key(sid@),
    ensures
        report_step(s, sid, event) == Err::<MemberStepView, Error>(Error::SessionNotFound(sid)),
        report_state(s, sid@, event) == s,
{
}

/// A member that has received an invite is ready, and nothing else changes. The
/// slaves of all groups are told to join if with that everybody is ready, in one
/// and the same epoch; otherwise nothing is asked for.
pub proof fn lemma_invite_received<E>(s: PartyState<E>, sid: SessionId)
    requires
        s.members.contains_key(sid@),
    ensures
        ({
            let event = session::Event::Game(game::Event::InviteReceived);
            let t = report_state(s, sid@, event);
            let everybody = forall|k: u64| #[trigger]
                s.members.contains_key(k) ==> (k == sid@ || s.members[k].sync == SyncPoint::Ready)
                    && s.members[k].sync_epoch == s.members[sid@].sync_epoch;
            &&& t == (PartyState {
                members: s.members.insert(
                    sid@,
                    Member { sync: SyncPoint::Ready, ..s.members[sid@] },
                ),
                ..s
            })
            &&& everybody ==> report_step(s, sid, event) == Ok::<MemberStepView, Error>(
                MemberStepView::Sync(SyncStepView::Join(join_events(all_slaves(s.group_seq())))),
            )
            &&& !everybody ==> report_step(s, sid, event) == Ok::<MemberStepView, Error>(
                MemberStepView::Sync(SyncStepView::Idle),
            )
        }),
{
    let event = session::Event::Game(game::Event::InviteReceived);
    let after = noted(s, sid@, event)->0;
    lemma_together(s, after, sid@, SyncPoint::Ready);
    assert(after.group_seq() =~= s.group_seq());
}

/// Where one member has come to a point, everybody is there if the others are,
/// in the same epoch, and nobody is at another point.
proof fn lemma_together<E>(s: PartyState<E>, t: PartyState<E>, sid: u64, point: SyncPoint)
    requires
        s.members.contains_key(sid),
        forall|k: u64| #[trigger] t.members.contains_key(k) <==> s.members.contains_key(k),
        forall|k: u64| #[trigger]
            t.members.contains_key(k) && k != sid ==> t.members[k] == s.members[k],
        t.members[sid].sync == point,
        t.members[sid].sync_epoch == s.members[sid].sync_epoch,
    ensures
        synced(t.members, point) <==> forall|k: u64| #[trigger]
            s.members.contains_key(k) ==> (k == sid || s.members[k].sync == point)
                && s.members[k].sync_epoch == s.members[sid].sync_epoch,
        forall|q: SyncPoint| q != point ==> !#[trigger] synced(t.members, q),
{
    assert(t.members.contains_key(sid));
    if synced(t.members, point) {
        assert forall|k: u64| #[trigger] s.members.contains_key(k) implies (k == sid
            || s.members[k].sync == point) && s.members[k].sync_epoch
            == s.members[sid].sync_epoch by {
            assert(t.members.contains_key(k));
        }
    }
}

/// A member that has found a match has it, and so have the groups whose master
/// it is, whatever match they had before; of the other groups and members nothing
/// changes. If with that everybody has a match, in one and the same epoch, the
/// match is to be accepted after the party's delay if no two groups have
/// different ones; if two do, everybody starts over, and all matches are told.
pub proof fn lemma_match_received<E>(
    s: PartyState<E>,
    sid: SessionId,
    match_id: u64,
    g: u64,
    k: u64,
)
    requires
        s.wf(),
        s.members.contains_key(sid@),
    ensures
        ({
            let event = session::Event::Game(game::Event::MatchReceived { match_id });
            let t = report_state(s, sid@, event);
            let step = report_step(s, sid, event);
            let everybody = forall|j: u64| #[trigger]
                s.members.contains_key(j) ==> (j == sid@ || s.members[j].sync
                    == SyncPoint::RecvMatch) && s.members[j].sync_epoch
                    == s.members[sid@].sync_epoch;
            let over = everybody && !matches_agree(t.group_seq());
            &&& t == (PartyState { members: t.members, groups: t.groups, ..s })
            &&& t.groups.dom() == s.groups.dom()
            &&& s.groups.contains_key(g) ==> {
                &&& t.groups[g].master == s.groups[g].master
                &&& t.groups[g].slaves == s.groups[g].slaves
                &&& t.groups[g].match_id == (if s.groups[g].master == sid@ {
                    Some(match_id)
                } else {
                    s.groups[g].match_id
                })
            }
            &&& t.members.dom() == s.members.dom()
            &&& s.members.contains_key(k) && !over ==> t.members[k] == (if k == sid@ {
                Member { sync: SyncPoint::RecvMatch, ..s.members[k] }
            } else {
                s.members[k]
            })
            &&& s.members.contains_key(k) && over ==> t.members[k] == (Member {
                sync: SyncPoint::Waiting,
                sync_epoch: (s.members[k].sync_epoch + 1) as u32,
                ..s.members[k]
            })
            &&& !everybody ==> step == Ok::<MemberStepView, Error>(
                MemberStepView::Sync(SyncStepView::Idle),
            )
            &&& everybody && !over ==> step == Ok::<MemberStepView, Error>(
                MemberStepView::Sync(SyncStepView::AcceptAfter(s.delay)),
            )
            &&& over ==> step == Ok::<MemberStepView, Error>(
                MemberStepView::Sync(SyncStepView::Mismatch(found_matches(t.group_seq()))),
            )
        }),
{
    let event = session::Event::Game(game::Event::MatchReceived { match_id });
    let after = noted(s, sid@, event)->0;
    let t = report_state(s, sid@, event);
    lemma_together(s, after, sid@, SyncPoint::RecvMatch);
    assert(after.members.contains_key(k) <==> s.members.contains_key(k));
    assert(t.group_seq() =~= after.group_seq());
    assert(t.groups.dom() =~= s.groups.dom());
    assert(t.members.dom() =~= s.members.dom());
}

/// A report that a member is fully signed on to the party's map, in the party's
/// round, out of the freeze and in a team that plays, overwrites the member's team
/// and name, whatever they were and wherever the member was, and takes it to the
/// game; nobody else changes. If with that everybody is in the game, in one and
/// the same epoch, the next round begins, and bots are asked for.
pub proof fn lemma_player_reports<E>(
    s: PartyState<E>,
    sid: SessionId,
    team: Team,
    name: String,
    map: String,
    number: u32,
)
    requires
        s.members.contains_key(sid@),
    ensures
        ({
            let event = session::Event::Game(
                game::Event::StateUpdate {
                    sign_on_state: SignOnState::Full,
                    player: Some(PlayerState { team, name }),
                    map: GameMap::Base { name: map },
                    match_state: Some(MatchState { phase: Phase::Round { number }, freeze: false }),
                },
            );
            let t = report_state(s, sid@, event);
            let step = report_step(s, sid, event);
            let counts = map@ == s.map && number == s.round && (team == Team::CounterTerrorists
                || team == Team::Terrorists);
            let everybody = forall|k: u64| #[trigger]
                s.members.contains_key(k) ==> (k == sid@ || s.members[k].sync
                    == SyncPoint::GameReady) && s.members[k].sync_epoch
                    == s.members[sid@].sync_epoch;
            &&& !counts ==> t == s && step == Ok::<MemberStepView, Error>(MemberStepView::Idle)
            &&& counts ==> {
                &&& t.members == s.members.insert(
                    sid@,
                    Member {
                        team: Some(team),
                        name: Some(name),
                        sync: SyncPoint::GameReady,
                        ..s.members[sid@]
                    },
                )
                &&& t == (PartyState { members: t.members, round: t.round, ..s })
                &&& !everybody ==> t.round == s.round && step == Ok::<MemberStepView, Error>(
                    MemberStepView::Sync(SyncStepView::Idle),
                )
                &&& everybody ==> t.round == (s.round + 1) as usize && step == Ok::<
                    MemberStepView,
                    Error,
                >(MemberStepView::Sync(SyncStepView::Play(bot_plan(t.order, t.members))))
            }
        }),
{
    let event = session::Event::Game(
        game::Event::StateUpdate {
            sign_on_state: SignOnState::Full,
            player: Some(PlayerState { team, name }),
            map: GameMap::Base { name: map },
            match_state: Some(MatchState { phase: Phase::Round { number }, freeze: false }),
        },
    );
    if noted(s, sid@, event) is Some {
        let after = noted(s, sid@, event)->0;
        lemma_together(s, after, sid@, SyncPoint::GameReady);
    }
}

/// A member that completes the last of its menu steps has none any more and is at
/// the point that they lead to; its menu bot is told to stop, whichever point
/// that is, and then the sync points are looked at. Any other step that it
/// completes means nothing, nor does one where it has none to do.
pub proof fn lemma_menu_step_completed<E>(s: PartyState<E>, sid: SessionId, id: usize)
    requires
        s.members.contains_key(sid@),
    ensures
        ({
            let event = session::Event::Game(game::Event::MenuTaskCompleted { id });
            let m = s.members[sid@];
            let last = m.menu_task is Some && id + 1 == m.menu_task->0.total;
            &&& last ==> {
                &&& report_step(s, sid, event) == Ok::<MemberStepView, Error>(
                    MemberStepView::SendThenSync(
                        EventView::Session(
                            sid@,
                            session::CommandView::Game(game::CommandView::BotMenuStop),
                        ),
                    ),
                )
                &&& report_state(s, sid@, event) == (PartyState {
                    members: s.members.insert(
                        sid@,
                        Member { menu_task: None, sync: m.menu_task->0.next_sync, ..m },
                    ),
                    ..s
                })
            }
            &&& !last ==> {
                &&& report_step(s, sid, event) == Ok::<MemberStepView, Error>(MemberStepView::Idle)
                &&& report_state(s, sid@, event) == s
            }
        }),
{
}

/// A gameplay step that a member's session has completed is passed on to the
/// engine, under its own number, as that of the bot that steers the session. It
/// is refused where no bot does, and where there is no engine; it changes nothing.
pub proof fn lemma_bot_step_completed<E>(s: PartyState<E>, sid: SessionId, bot: u32, id: usize)
    requires
        s.wf(),
        s.members.contains_key(sid@),
    ensures
        ({
            let event = session::Event::Game(game::Event::BotTaskCompleted { id });
            let step = report_step(s, sid, event);
            &&& report_state(s, sid@, event) == s
            &&& s.bots.contains_key(bot) && s.bots[bot] == sid@ ==> step == (if s.engine is Some {
                Ok::<MemberStepView, Error>(MemberStepView::TaskCompleted { bot: BotId(bot), id })
            } else {
                Err::<MemberStepView, Error>(Error::NoEngine)
            })
            &&& (forall|b: u32| #[trigger] s.bots.contains_key(b) ==> s.bots[b] != sid@) ==> step
                == Err::<MemberStepView, Error>(Error::SessionNotFound(sid))
        }),
{
    if s.bots.contains_key(bot) && s.bots[bot] == sid@ {
        lemma_left_of(s.bots, bot);
    }
}

/// Every other report of a member means nothing: that its session is up or being
/// started, its friend code, and every state of the game but that of a player on
/// a map, fully signed on, in a round and out of the freeze.
pub proof fn lemma_other_reports<E>(
    s: PartyState<E>,
    sid: SessionId,
    state: State,
    code: String,
    sign_on_state: SignOnState,
    player: Option<PlayerState>,
    map: GameMap,
    match_state: Option<MatchState>,
)
    requires
        s.members.contains_key(sid@),
    ensures
        ({
            let up = session::Event::StateUpdate(state);
            let known = session::Event::Game(game::Event::InviteCodeUpdate { code });
            let game = session::Event::Game(
                game::Event::StateUpdate { sign_on_state, player, map, match_state },
            );
            let in_round = sign_on_state == SignOnState::Full && player is Some && map is Base
                && match_state is Some && match_state->0.phase is Round
                && !match_state->0.freeze;
            &&& report_state(s, sid@, up) == s
            &&& report_step(s, sid, up) == Ok::<MemberStepView, Error>(MemberStepView::Idle)
            &&& report_state(s, sid@, known) == s
            &&& report_step(s, sid, known) == Ok::<MemberStepView, Error>(MemberStepView::Idle)
            &&& !in_round ==> report_state(s, sid@, game) == s && report_step(s, sid, game) == Ok::<
                MemberStepView,
                Error,
            >(MemberStepView::Idle)
        }),
{
}

/// A look at the sync points asks for something only if everybody is at one of
/// them, in one and the same epoch: the slaves of all groups are told to join if
/// all are ready; where all have a match, it is to be accepted after the party's
/// delay, or the matches are told if two groups have different ones; and bots are
/// asked for if all are in the game. Nothing changes but that everybody starts
/// over after a disagreement, and that the next round begins with the game.
pub proof fn lemma_sync_points<E>(s: PartyState<E>, k: u64)
    requires
        s.members.contains_key(k),
    ensures
        ({
            let at = |p: SyncPoint|
                forall|j: u64| #[trigger]
                    s.members.contains_key(j) ==> s.members[j].sync == p
                        && s.members[j].sync_epoch == s.members[k].sync_epoch;
            let agree = matches_agree(s.group_seq());
            &&& at(SyncPoint::Ready) ==> sync_step(s) == SyncStepView::Join(
                join_events(all_slaves(s.group_seq())),
            ) && sync_state(s) == s
            &&& at(SyncPoint::RecvMatch) && agree ==> sync_step(s) == SyncStepView::AcceptAfter(
                s.delay,
            ) && sync_state(s) == s
            &&& at(SyncPoint::RecvMatch) && !agree ==> {
                &&& sync_step(s) == SyncStepView::Mismatch(found_matches(s.group_seq()))
                &&& sync_state(s) == (PartyState { members: sync_state(s).members, ..s })
                &&& sync_state(s).members.dom() == s.members.dom()
                &&& sync_state(s).members[k] == (Member {
                    sync: SyncPoint::Waiting,
                    sync_epoch: (s.members[k].sync_epoch + 1) as u32,
                    ..s.members[k]
                })
            }
            &&& at(SyncPoint::GameReady) ==> sync_step(s) == SyncStepView::Play(
                bot_plan(s.order, s.members),
            ) && sync_state(s) == (PartyState { round: (s.round + 1) as usize, ..s })
            &&& !at(SyncPoint::Ready) && !at(SyncPoint::RecvMatch) && !at(SyncPoint::GameReady)
                ==> sync_step(s) == SyncStepView::Idle && sync_state(s) == s
        }),
{
    lemma_synced_with(s.members, k, SyncPoint::Ready);
    lemma_synced_with(s.members, k, SyncPoint::RecvMatch);
    lemma_synced_with(s.members, k, SyncPoint::GameReady);
    assert(sync_state(s).members.dom() =~= s.members.dom());
}

/// Where there is a member, everybody is together if they are where it is.
proof fn lemma_synced_with(members: Map<u64, Member>, k: u64, p: SyncPoint)
    requires
        members.contains_key(k),
    ensures
        synced(members, p) <==> forall|j: u64| #[trigger]
            members.contains_key(j) ==> members[j].sync == p && members[j].sync_epoch
                == members[k].sync_epoch,
{
}

/// A party without members counts as ready: the slaves that were grouped are told
/// to join.
pub proof fn lemma_sync_of_nobody<E>(s: PartyState<E>)
    requires
        forall|k: u64| !#[trigger] s.members.contains_key(k),
    ensures
        sync_step(s) == SyncStepView::Join(join_events(all_slaves(s.group_seq()))),
        sync_state(s) == s,
{
}

/// The plan of bots has one for each member with a name and a team that plays, and
/// none for anybody else: under the member's name, for the member's team, in the
/// order in which the members joined.
pub proof fn lemma_plan_of_bots<E>(s: PartyState<E>, k: u64, i: int, j: int)
    requires
        s.wf(),
    ensures
        ({
            let plan = bot_plan(s.order, s.members);
            let plays = s.members.contains_key(k) && s.members[k].name is Some && (
            s.members[k].team == Some(Team::CounterTerrorists) || s.members[k].team == Some(
                Team::Terrorists,
            ));
            &&& plays <==> exists|n: int| 0 <= n < plan.len() && (#[trigger] plan[n]).sid == k
            &&& 0 <= i < plan.len() ==> {
                &&& s.members.contains_key(plan[i].sid)
                &&& s.members[plan[i].sid].name matches Some(name) && plan[i].name == name@
                &&& s.members[plan[i].sid].team == Some(plan[i].team)
                &&& plan[i].team == Team::CounterTerrorists || plan[i].team == Team::Terrorists
            }
            &&& 0 <= i < j < plan.len() ==> s.order.index_of(plan[i].sid) < s.order.index_of(
                plan[j].sid,
            )
            &&& players(s.order, s.members).len() == plan.len()
            &&& 0 <= i < plan.len() ==> players(s.order, s.members)[i] == plan[i].sid
        }),
{
    let ps = players(s.order, s.members);
    let plan = bot_plan(s.order, s.members);
    lemma_players_planned(s);
    lemma_in_order(s.order, |k: u64| plays(s.members[k]), i, j);
    if ps.contains(k) {
        let n = ps.index_of(k);
        assert(plan[n].sid == k);
    }
    if exists|n: int| 0 <= n < plan.len() && (#[trigger] plan[n]).sid == k {
        let n = choose|n: int| 0 <= n < plan.len() && (#[trigger] plan[n]).sid == k;
        assert(ps[n] == k);
        assert(ps.contains(k));
    }
    if 0 <= i < plan.len() {
        assert(ps.contains(ps[i]));
    }
}

/// Filtering a list keeps the order of what is kept.
proof fn lemma_in_order(order: Seq<u64>, keep: spec_fn(u64) -> bool, i: int, j: int)
    requires
        order.no_duplicates(),
    ensures
        0 <= i < order.filter(keep).len() ==> order.contains(order.filter(keep)[i]),
        0 <= i < j < order.filter(keep).len() ==> order.index_of(order.filter(keep)[i])
            < order.index_of(order.filter(keep)[j]),
    decreases order.len(),
{
    reveal(Seq::filter);
    if order.len() > 0 && 0 <= i < order.filter(keep).len() {
        let front = order.drop_last();
        let rest = front.filter(keep);
        let all = order.filter(keep);
        lemma_in_order(front, keep, i, j);
        if i < rest.len() {
            lemma_place(order, all[i]);
        } else {
            assert(order[order.len() - 1] == all[i]);
        }
        if 0 <= i < j < all.len() {
            if j < rest.len() {
                lemma_in_order(front, keep, j, j);
                lemma_place(order, all[j]);
            } else {
                assert(all[j] == order[order.len() - 1]);
                assert(order.index_of(all[j]) == order.len() - 1);
            }
        }
    }
}

/// What stands in the front of a list stands there in the list.
proof fn lemma_place(order: Seq<u64>, x: u64)
    requires
        order.no_duplicates(),
        order.len() > 0,
        order.drop_last().contains(x),
    ensures
        order.contains(x),
        order.index_of(x) == order.drop_last().index_of(x),
        order.index_of(x) < order.len() - 1,
{
    let front = order.drop_last();
    let i = front.index_of(x);
    assert(order[i] == x);
    let j = order.index_of(x);
    assert(order[j] == x);
}

/// What a member last reported of itself as a player: the team and the name of the
/// latest report, since the session joined, that it is fully signed on to the
/// party's map, in the party's round, out of the freeze and in a team that plays.
pub open spec fn latest_report<E>(
    hs: Seq<PartyState<E>>,
    steps: Seq<PartyStep<E>>,
    sid: u64,
) -> Option<(Team, String)>
    decreases steps.len(),
{
    if steps.len() == 0 {
        None
    } else {
        let s = hs[steps.len() - 1];
        let before = latest_report(hs, steps.drop_last(), sid);
        match steps.last() {
            PartyStep::Join(k, _) => if k == sid {
                None
            } else {
                before
            },
            PartyStep::Report(
                k,
                session::Event::Game(
                    game::Event::StateUpdate {
                        sign_on_state: SignOnState::Full,
                        player: Some(PlayerState { team, name }),
                        map: GameMap::Base { name: map },
                        match_state: Some(
                            MatchState { phase: Phase::Round { number }, freeze: false },
                        ),
                    },
                ),
            ) => if k == sid && map@ == s.map && number == s.round && team
                != Team::Spectators {
                Some((team, name))
            } else {
                before
            },
            _ => before,
        }
    }
}

/// Whatever has happened to a party since it was created, what it holds of a
/// member as a player is what the member last reported, in whichever round: so
/// the bot that is planned for a member has the team and the name of that report,
/// and a member who has made none since joining has no bot.
pub proof fn lemma_latest_report_counts<E>(
    hs: Seq<PartyState<E>>,
    steps: Seq<PartyStep<E>>,
    sid: u64,
    i: int,
)
    requires
        hs.len() == steps.len() + 1,
        hs[0].members == Map::<u64, Member>::empty(),
        forall|i: int| 0 <= i < steps.len() ==> #[trigger] stepped(hs[i], steps[i], hs[i + 1]),
    ensures
        hs.last().members.contains_key(sid) ==> match latest_report(hs, steps, sid) {
            Some((team, name)) => hs.last().members[sid].team == Some(team)
                && hs.last().members[sid].name == Some(name),
            None => hs.last().members[sid].team is None && hs.last().members[sid].name is None,
        },
        ({
            let plan = bot_plan(hs.last().order, hs.last().members);
            hs.last().wf() && 0 <= i < plan.len() && plan[i].sid == sid ==> {
                &&& latest_report(hs, steps, sid) matches Some((team, name))
                &&& plan[i].team == team
                &&& plan[i].name == name@
            }
        }),
    decreases steps.len(),
{
    if steps.len() > 0 {
        let front = hs.drop_last();
        let before = steps.drop_last();
        let n = steps.len() - 1;
        assert forall|i: int| 0 <= i < before.len() implies #[trigger] stepped(
            front[i],
            before[i],
            front[i + 1],
        ) by {
            assert(stepped(hs[i], steps[i], hs[i + 1]));
        }
        lemma_latest_report_counts(front, before, sid, i);
        lemma_same_reports(hs, front, before, sid);
        assert(stepped(hs[n], steps[n], hs[n + 1]));
        if hs.last().members.contains_key(sid) {
            lemma_player_kept(hs[n], steps[n], hs[n + 1], sid);
        }
    }
    if hs.last().wf() {
        lemma_plan_of_bots(hs.last(), sid, i, i);
    }
}

/// What was last reported is found in the states up to the last step alone.
proof fn lemma_same_reports<E>(
    hs: Seq<PartyState<E>>,
    front: Seq<PartyState<E>>,
    steps: Seq<PartyStep<E>>,
    sid: u64,
)
    requires
        steps.len() <= front.len() <= hs.len(),
        forall|i: int| 0 <= i < front.len() ==> front[i] == #[trigger] hs[i],
    ensures
        latest_report(hs, steps, sid) == latest_report(front, steps, sid),
    decreases steps.len(),
{
    if steps.len() > 0 {
        lemma_same_reports(hs, front, steps.drop_last(), sid);
        assert(front[steps.len() - 1] == hs[steps.len() - 1]);
    }
}

/// A step changes what is held of a member as a player only if the member joins,
/// or makes a report that counts.
proof fn lemma_player_kept<E>(s: PartyState<E>, step: PartyStep<E>, t: PartyState<E>, sid: u64)
    requires
        stepped(s, step, t),
        t.members.contains_key(sid),
    ensures
        s.members.contains_key(sid) || step is Join,
        match step {
            PartyStep::Join(k, _) => k != sid,
            PartyStep::Report(k, _) => k != sid,
            _ => true,
        } ==> s.members.contains_key(sid) && t.members[sid].team == s.members[sid].team
            && t.members[sid].name == s.members[sid].name,
{
    if let PartyStep::Invited(sent) = step {
        let gs = s.group_seq();
        lemma_inviting_keeps_players(
            s.members,
            gs.take(groups_reached(gs.len(), sent) as int),
            sid,
        );
    }
}

/// Taking up the inviting changes nothing of what is held of players.
proof fn lemma_inviting_keeps_players(members: Map<u64, Member>, gs: Seq<GroupState>, sid: u64)
    ensures
        inviting(members, gs).contains_key(sid) <==> members.contains_key(sid),
        members.contains_key(sid) ==> inviting(members, gs)[sid].team == members[sid].team
            && inviting(members, gs)[sid].name == members[sid].name,
    decreases gs.len(),
{
    if gs.len() > 0 {
        lemma_inviting_keeps_players(members, gs.drop_last(), sid);
    }
}

/// A look at the sync points runs into a limit in two cases only: the groups
/// disagree on the match that everybody has, and somebody's epoch is the last one;
/// or everybody is in the game, and the round is the last one.
pub proof fn lemma_sync_limits<E>(s: PartyState<E>, k: u64)
    requires
        s.members.contains_key(k),
    ensures
        ({
            let at = |p: SyncPoint|
                forall|j: u64| #[trigger]
                    s.members.contains_key(j) ==> s.members[j].sync == p
                        && s.members[j].sync_epoch == s.members[k].sync_epoch;
            !s.sync_ok() <==> (at(SyncPoint::RecvMatch) && !matches_agree(s.group_seq())
                && s.members[k].sync_epoch == u32::MAX) || (at(SyncPoint::GameReady) && s.round
                == usize::MAX)
        }),
{
    lemma_synced_with(s.members, k, SyncPoint::Ready);
    lemma_synced_with(s.members, k, SyncPoint::RecvMatch);
    lemma_synced_with(s.members, k, SyncPoint::GameReady);
    if synced(s.members, SyncPoint::RecvMatch) {
        assert(can_clear(s.members) <==> s.members[k].sync_epoch < u32::MAX);
    }
}

/// A report runs into a limit in three cases only: it is the step behind the last
/// countable one of a member that has menu steps to do; it is the last match, on
/// which the groups disagree, and somebody's epoch is the last one; or it brings
/// the last member into the game, and the round is the last one.
pub proof fn lemma_report_limits<E>(s: PartyState<E>, sid: SessionId, event: session::Event)
    requires
        s.wf(),
    ensures
        ({
            let t = report_state(s, sid@, event);
            let step = report_step(s, sid, event);
            let counted = event matches session::Event::Game(
                game::Event::MenuTaskCompleted { id },
            ) && id == usize::MAX && s.members[sid@].menu_task is Some;
            let disagree = step matches Ok(MemberStepView::Sync(sync)) && sync is Mismatch
                && s.members[sid@].sync_epoch == u32::MAX;
            let play = step matches Ok(MemberStepView::Sync(sync)) && sync is Play && s.round
                == usize::MAX;
            !report_ok(s, sid@, event) <==> s.members.contains_key(sid@) && (counted || disagree
                || play)
        }),
{
    if s.members.contains_key(sid@) && noted(s, sid@, event) is Some {
        let after = noted(s, sid@, event)->0;
        assert(after.members.contains_key(sid@));
        assert(after.members[sid@].sync_epoch == s.members[sid@].sync_epoch);
        assert(after.round == s.round);
        lemma_sync_limits(after, sid@);
        lemma_synced_with(after.members, sid@, SyncPoint::Ready);
        lemma_synced_with(after.members, sid@, SyncPoint::RecvMatch);
        lemma_synced_with(after.members, sid@, SyncPoint::GameReady);
    }
}

/// What a party does with a command: a member's report is taken as such; a member
/// that is gone leaves, and nothing is asked for; a party that is complete groups
/// its members and tells every master to invite, one that is not stays as it is and
/// names both numbers; and everybody is told to accept the match.
pub proof fn lemma_commands<E>(s: PartyState<E>, sid: SessionId, event: session::Event)
    ensures
        command_state(s, Command::Member(sid, event)) == report_state(s, sid@, event),
        report_step(s, sid, event) matches Ok(step) ==> command_step(
            s,
            Command::Member(sid, event),
        ) == Ok::<CommandStepView, Error>(CommandStepView::Member(step)),
        report_step(s, sid, event) matches Err(e) ==> command_step(s, Command::Member(sid, event))
            == Err::<CommandStepView, Error>(e),
        command_state(s, Command::MemberDead(sid)) == s.left_by(sid@),
        command_step(s, Command::MemberDead(sid)) == Ok::<CommandStepView, Error>(
            CommandStepView::Idle,
        ),
        s.order.len() == s.party_size ==> command_state(s, Command::Start) == s.grouped()
            && command_step(s, Command::Start) == Ok::<CommandStepView, Error>(
            CommandStepView::Invite(invite_events(s.members, s.grouped().group_seq())),
        ),
        s.order.len() != s.party_size ==> command_state(s, Command::Start) == s && command_step(
            s,
            Command::Start,
        ) == Err::<CommandStepView, Error>(
            Error::PartySize {
                pid: s.pid,
                members: s.order.len() as usize,
                party_size: s.party_size,
            },
        ),
        command_state(s, Command::AcceptMatchNow) == s.told_to_accept(),
        command_step(s, Command::AcceptMatchNow) == Ok::<CommandStepView, Error>(
            CommandStepView::Accept(accept_events(s.order)),
        ),
{
}

/// What a party does with a report of its engine: progress means nothing, an order
/// for a bot is passed on and changes nothing, and when the engine has finished
/// its bots are forgotten, and the party reports that it is done.
pub proof fn lemma_engine_reports<E>(
    s: PartyState<E>,
    bot: BotId,
    progress: path_engine::BotEvent,
    order: path_engine::CBotEvent,
)
    ensures
        engine_answer(s.bots, path_engine::Event::Bot(bot, progress)) is None,
        engine_state(s, path_engine::Event::Bot(bot, progress)) == s,
        engine_answer(s.bots, path_engine::Event::CBot(bot, order)) == cbot_event(
            s.bots,
            bot,
            order,
        ),
        engine_state(s, path_engine::Event::CBot(bot, order)) == s,
        engine_answer(s.bots, path_engine::Event::Stop) == Some(EventView::Done),
        engine_state(s, path_engine::Event::Stop) == s.engine_stopped(),
{
}

} // verus!
