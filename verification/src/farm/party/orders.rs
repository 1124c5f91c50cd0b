//! What the members of a party are told, message by message.
use crate::config::Delay;
use crate::farm::party::member::{
    event_views, plan_views, BotPlan, CommandStep, CommandStepView, Event, EventView, Group,
    GroupState, Member, MemberStep, MemberStepView, SyncStep, SyncStepView,
};
use crate::farm::party::model::{
    accept_events, all_slaves, cbot_event, found_matches, invite_events, join_events, matches_agree,
    PartyState,
};
use crate::ids::SessionId;
use crate::path_engine::{BotId, CBotEvent};
use crate::protocol::game;
use crate::protocol::game::{GameplayTask, MenuTask, MenuTaskView};
use crate::protocol::session;
use crate::protocol::session::User;
use vstd::prelude::*;

verus! {

/// The content of a menu step is which one it is and, for an invite, the code.
pub proof fn lemma_menu_task_content(code: String)
    ensures
        MenuTask::Clear@ == MenuTaskView::Clear,
        (MenuTask::SendInvite { code })@ == (MenuTaskView::SendInvite { code: code@ }),
        MenuTask::AcceptInvite@ == MenuTaskView::AcceptInvite,
        MenuTask::AcceptMatch@ == MenuTaskView::AcceptMatch,
{
}

/// The content of a command for the game is which one it is and, where it brings
/// steps, every step at its place, and the offset.
pub proof fn lemma_game_command_content(
    menu: Vec<MenuTask>,
    tasks: Vec<GameplayTask>,
    offset: usize,
)
    ensures
        (game::Command::BotMenuSetTasks { tasks: menu, offset })@ is BotMenuSetTasks,
        (game::Command::BotMenuSetTasks { tasks: menu, offset })@->BotMenuSetTasks_offset
            == offset,
        (game::Command::BotMenuSetTasks { tasks: menu, offset })@->BotMenuSetTasks_tasks.len()
            == menu@.len(),
        forall|i: int|
            0 <= i < menu@.len() ==> #[trigger] (game::Command::BotMenuSetTasks {
                tasks: menu,
                offset,
            })@->BotMenuSetTasks_tasks[i] == menu@[i]@,
        (game::Command::BotGameplaySetTasks { tasks, offset })@
            == (game::CommandView::BotGameplaySetTasks { tasks: tasks@, offset }),
        game::Command::BotMenuStart@ == game::CommandView::BotMenuStart,
        game::Command::BotMenuStop@ == game::CommandView::BotMenuStop,
        game::Command::BotGameplayStart@ == game::CommandView::BotGameplayStart,
        game::Command::BotGameplayStop@ == game::CommandView::BotGameplayStop,
        game::Command::BotGameplaySignal@ == game::CommandView::BotGameplaySignal,
{
}

/// The content of an event of a party is which one it is and, for a command, the
/// session and the command.
pub proof fn lemma_event_content(sid: SessionId, cmd: game::Command, user: User)
    ensures
        Event::Session(sid, session::Command::Game(cmd))@ == EventView::Session(
            sid@,
            session::CommandView::Game(cmd@),
        ),
        Event::Session(sid, session::Command::Create { user })@ == EventView::Session(
            sid@,
            session::CommandView::Create {
                username: user.username@,
                password: user.password@,
                secret: user.secret@,
            },
        ),
        Event::RoundComplete@ == EventView::RoundComplete,
        Event::Done@ == EventView::Done,
{
}

/// The content of a list of events is the content of each, at its place.
pub proof fn lemma_events_content(events: Seq<Event>, i: int)
    ensures
        event_views(events).len() == events.len(),
        0 <= i < events.len() ==> event_views(events)[i] == events[i]@,
{
}

/// The content of a planned bot is its session, its name and its team; that of a
/// list of them is the content of each, at its place.
pub proof fn lemma_plans_content(plans: Seq<BotPlan>, i: int)
    ensures
        plan_views(plans).len() == plans.len(),
        0 <= i < plans.len() ==> {
            &&& plan_views(plans)[i].sid == plans[i].sid@
            &&& plan_views(plans)[i].name == plans[i].name@
            &&& plan_views(plans)[i].team == plans[i].team
        },
{
}

/// The content of a group is its master, its slaves in order, and its match.
pub proof fn lemma_group_content(group: Group, i: int)
    ensures
        group@.master == group.master@,
        group@.match_id == group.match_id,
        group@.slaves.len() == group.slaves@.len(),
        0 <= i < group.slaves@.len() ==> group@.slaves[i] == group.slaves@[i]@,
{
}

/// The content of a step is which one it is, and the content of what it brings.
pub proof fn lemma_step_content(
    events: Vec<Event>,
    delay: Delay,
    ids: Vec<u64>,
    plans: Vec<BotPlan>,
    bot: BotId,
    id: usize,
    event: Event,
    sync: SyncStep,
    member: MemberStep,
)
    ensures
        SyncStep::Idle@ == SyncStepView::Idle,
        SyncStep::Join(events)@ == SyncStepView::Join(event_views(events@)),
        SyncStep::AcceptAfter(delay)@ == SyncStepView::AcceptAfter(delay),
        SyncStep::Mismatch(ids)@ == SyncStepView::Mismatch(ids@),
        SyncStep::Play(plans)@ == SyncStepView::Play(plan_views(plans@)),
        MemberStep::Idle@ == MemberStepView::Idle,
        (MemberStep::TaskCompleted { bot, id })@ == (MemberStepView::TaskCompleted { bot, id }),
        MemberStep::SendThenSync(event)@ == MemberStepView::SendThenSync(event@),
        MemberStep::Sync(sync)@ == MemberStepView::Sync(sync@),
        CommandStep::Idle@ == CommandStepView::Idle,
        CommandStep::Member(member)@ == CommandStepView::Member(member@),
        CommandStep::Invite(events)@ == CommandStepView::Invite(event_views(events@)),
        CommandStep::Accept(events)@ == CommandStepView::Accept(event_views(events@)),
{
}

/// Every master, group by group, is told to go through its menu: it is cleared,
/// and for each slave in order the slave's friend code is invited and the menu
/// cleared again. Then the master is told to start. Nobody is told anything else.
pub proof fn lemma_masters_are_told_to_invite(
    members: Map<u64, Member>,
    gs: Seq<GroupState>,
    i: int,
    j: int,
)
    ensures
        invite_events(members, gs).len() == 2 * gs.len(),
        0 <= i < gs.len() ==> {
            let events = invite_events(members, gs);
            let master = gs[i].master;
            let slaves = gs[i].slaves;
            &&& events[2 * i + 1] == EventView::Session(
                master,
                session::CommandView::Game(game::CommandView::BotMenuStart),
            )
            &&& events[2 * i] matches EventView::Session(
                sid,
                session::CommandView::Game(
                    game::CommandView::BotMenuSetTasks { tasks, offset },
                ),
            ) && {
                &&& sid == master
                &&& offset == 0
                &&& tasks.len() == 1 + 2 * slaves.len()
                &&& tasks[0] == MenuTaskView::Clear
                &&& 0 <= j < slaves.len() ==> {
                    &&& tasks[2 * j + 1] == (MenuTaskView::SendInvite {
                        code: members[slaves[j]].friend_code@,
                    })
                    &&& tasks[2 * j + 2] == MenuTaskView::Clear
                }
            }
        },
{
}

/// The answer to the order to accept the match goes to every member, in the order
/// in which they joined: each is told the single step of accepting the match, and
/// to start. Nobody is told anything else.
pub proof fn lemma_everybody_is_told_to_accept(order: Seq<u64>, i: int)
    ensures
        accept_events(order).len() == 2 * order.len(),
        0 <= i < order.len() ==> {
            &&& accept_events(order)[2 * i] == EventView::Session(
                order[i],
                session::CommandView::Game(
                    game::CommandView::BotMenuSetTasks {
                        tasks: seq![MenuTaskView::AcceptMatch],
                        offset: 0,
                    },
                ),
            )
            &&& accept_events(order)[2 * i + 1] == EventView::Session(
                order[i],
                session::CommandView::Game(game::CommandView::BotMenuStart),
            )
        },
{
}

/// The order to join goes to every slave, in order: each is told to clear its
/// menu and accept the invite, and to start. Nobody is told anything else.
pub proof fn lemma_slaves_are_told_to_join(slaves: Seq<u64>, i: int)
    ensures
        join_events(slaves).len() == 2 * slaves.len(),
        0 <= i < slaves.len() ==> {
            &&& join_events(slaves)[2 * i] == EventView::Session(
                slaves[i],
                session::CommandView::Game(
                    game::CommandView::BotMenuSetTasks {
                        tasks: seq![MenuTaskView::Clear, MenuTaskView::AcceptInvite],
                        offset: 0,
                    },
                ),
            )
            &&& join_events(slaves)[2 * i + 1] == EventView::Session(
                slaves[i],
                session::CommandView::Game(game::CommandView::BotMenuStart),
            )
        },
{
}

/// The slaves of several groups are those of the first, then those of the second,
/// and so on: the slaves of a group come, in order, behind those of the groups
/// before it, and nothing else does.
pub proof fn lemma_slaves_group_by_group(gs: Seq<GroupState>, i: int, j: int)
    requires
        0 <= i < gs.len(),
    ensures
        all_slaves(gs.take(0)).len() == 0,
        all_slaves(gs.take(i + 1)).len() == all_slaves(gs.take(i)).len() + gs[i].slaves.len(),
        all_slaves(gs.take(i + 1)).len() <= all_slaves(gs).len(),
        0 <= j < gs[i].slaves.len() ==> all_slaves(gs)[all_slaves(gs.take(i)).len() + j]
            == gs[i].slaves[j],
    decreases gs.len(),
{
    assert(gs.take(i + 1).drop_last() =~= gs.take(i));
    if i < gs.len() - 1 {
        let front = gs.drop_last();
        lemma_slaves_group_by_group(front, i, j);
        assert(front.take(i) =~= gs.take(i));
        assert(front.take(i + 1) =~= gs.take(i + 1));
        assert(front[i] == gs[i]);
    } else {
        assert(gs.take(i + 1) =~= gs);
    }
}

/// The matches that several groups have found are that of the first, if it has
/// one, then that of the second, and so on.
pub proof fn lemma_matches_group_by_group(gs: Seq<GroupState>, i: int)
    requires
        0 <= i < gs.len(),
    ensures
        found_matches(gs.take(0)).len() == 0,
        gs[i].match_id is None ==> found_matches(gs.take(i + 1)) == found_matches(gs.take(i)),
        gs[i].match_id matches Some(id) ==> {
            &&& found_matches(gs.take(i + 1)).len() == found_matches(gs.take(i)).len() + 1
            &&& found_matches(gs).len() > found_matches(gs.take(i)).len()
            &&& found_matches(gs)[found_matches(gs.take(i)).len() as int] == id
        },
        found_matches(gs.take(i + 1)).len() <= found_matches(gs).len(),
    decreases gs.len(),
{
    assert(gs.take(i + 1).drop_last() =~= gs.take(i));
    if i < gs.len() - 1 {
        let front = gs.drop_last();
        lemma_matches_group_by_group(front, i);
        assert(front.take(i) =~= gs.take(i));
        assert(front.take(i + 1) =~= gs.take(i + 1));
        assert(front[i] == gs[i]);
    } else {
        assert(gs.take(i + 1) =~= gs);
    }
}

/// The groups of a party, in the order in which they were formed.
pub proof fn lemma_groups_in_order<E>(s: PartyState<E>, i: int)
    ensures
        s.group_seq().len() == s.group_ids.len(),
        0 <= i < s.group_ids.len() ==> s.group_seq()[i] == s.groups[s.group_ids[i]],
{
}

/// Groups disagree if and only if two of them have found different matches.
pub proof fn lemma_disagreement(gs: Seq<GroupState>)
    ensures
        !matches_agree(gs) <==> exists|i: int, j: int|
            #![trigger gs[i], gs[j]]
            0 <= i < j < gs.len() && gs[i].match_id is Some && gs[j].match_id is Some
                && gs[i].match_id->0 != gs[j].match_id->0,
{
    if !matches_agree(gs) {
        let (i, j) = choose|i: int, j: int|
            #![trigger gs[i], gs[j]]
            0 <= i < gs.len() && 0 <= j < gs.len() && gs[i].match_id is Some && gs[j].match_id
                is Some && gs[i].match_id != gs[j].match_id;
        if i < j {
            assert(gs[i].match_id->0 != gs[j].match_id->0);
        } else {
            assert(gs[j].match_id->0 != gs[i].match_id->0);
        }
    }
}

/// The engine's order for a bot reaches the session that the bot steers as it
/// was given: the steps are the same, place by place, from the same offset on,
/// and start, stop and signal stay what they are. A bot that steers no session
/// makes nothing be sent.
pub proof fn lemma_orders_reach_the_session(
    bots: Map<u32, u64>,
    bot: BotId,
    tasks: Vec<GameplayTask>,
    offset: usize,
    i: int,
)
    requires
        bots.contains_key(bot.0),
    ensures
        cbot_event(bots, bot, CBotEvent::SetTasks { tasks, offset }) matches Some(
            EventView::Session(
                sid,
                session::CommandView::Game(
                    game::CommandView::BotGameplaySetTasks { tasks: sent, offset: from },
                ),
            ),
        ) && {
            &&& sid == bots[bot.0]
            &&& from == offset
            &&& sent.len() == tasks@.len()
            &&& 0 <= i < tasks@.len() ==> sent[i] == tasks@[i]
        },
        cbot_event(bots, bot, CBotEvent::Start) == Some(
            EventView::Session(
                bots[bot.0],
                session::CommandView::Game(game::CommandView::BotGameplayStart),
            ),
        ),
        cbot_event(bots, bot, CBotEvent::Stop) == Some(
            EventView::Session(
                bots[bot.0],
                session::CommandView::Game(game::CommandView::BotGameplayStop),
            ),
        ),
        cbot_event(bots, bot, CBotEvent::Signal) == Some(
            EventView::Session(
                bots[bot.0],
                session::CommandView::Game(game::CommandView::BotGameplaySignal),
            ),
        ),
{
}

/// Nothing is sent for a bot that steers no session.
pub proof fn lemma_idle_bot(bots: Map<u32, u64>, bot: BotId, event: CBotEvent)
    requires
        !bots.contains_key(bot.0),
    ensures
        cbot_event(bots, bot, event) is None,
{
}

} // verus!
