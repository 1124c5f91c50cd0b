//! The commands that a party gives to its members' sessions.
use crate::farm::party::member::{event_views, Event, Group, Member};
use crate::farm::party::model::{
    accept_events, invite_events, invite_tasks, join_events, set_menu, start_menu, stop_menu,
};
use crate::farm::party::roster::{
    group_map, group_order, groups_get_index, groups_len, member_map, member_order, members_get,
    members_get_index, members_len,
};
use crate::farm::party::tables::groups_in_order;
use crate::ids::{numbers, SessionId};
use crate::protocol::game;
use crate::protocol::game::{menu_tasks, MenuTask, MenuTaskView};
use crate::protocol::session;
use indexmap::IndexMap;
use vstd::prelude::*;

verus! {

/// Tells a session to work through the menu steps from the first one on.
pub(crate) fn set_menu_event(sid: SessionId, tasks: Vec<MenuTask>) -> (r: Event)
    ensures
        r@ == set_menu(sid@, menu_tasks(tasks@)),
{
    Event::Session(
        sid,
        session::Command::Game(game::Command::BotMenuSetTasks { tasks, offset: 0 }),
    )
}

/// Tells a session to start with its menu steps.
pub(crate) fn start_menu_event(sid: SessionId) -> (r: Event)
    ensures
        r@ == start_menu(sid@),
{
    Event::Session(sid, session::Command::Game(game::Command::BotMenuStart))
}

/// Tells a session to stop its menu bot.
pub(crate) fn stop_menu_event(sid: SessionId) -> (r: Event)
    ensures
        r@ == stop_menu(sid@),
{
    Event::Session(sid, session::Command::Game(game::Command::BotMenuStop))
}

/// The steps by which a master invites its slaves.
fn invite_steps(members: &IndexMap<u64, Member>, slaves: &Vec<SessionId>) -> (r: Vec<MenuTask>)
    requires
        forall|i: int|
            0 <= i < slaves@.len() ==> member_map(*members).contains_key(#[trigger] slaves@[i]@),
    ensures
        menu_tasks(r@) == invite_tasks(member_map(*members), numbers(slaves@)),
{
    let ghost codes = invite_tasks(member_map(*members), numbers(slaves@));
    let mut tasks: Vec<MenuTask> = Vec::new();
    tasks.push(MenuTask::Clear);
    assert(menu_tasks(tasks@) =~= codes.take(1));
    let n = slaves.len();
    let mut i: usize = 0;
    while i < n
        invariant
            i <= n,
            n == slaves@.len(),
            forall|i: int|
                0 <= i < slaves@.len() ==> member_map(*members).contains_key(
                    #[trigger] slaves@[i]@,
                ),
            codes == invite_tasks(member_map(*members), numbers(slaves@)),
            menu_tasks(tasks@) == codes.take(1 + 2 * i),
        decreases n - i,
    {
        let ghost done = tasks@;
        if let Some(slave) = members_get(members, slaves[i].inner()) {
            tasks.push(MenuTask::SendInvite { code: slave.friend_code.clone() });
            tasks.push(MenuTask::Clear);
            assert(numbers(slaves@)[i as int] == slaves@[i as int]@);
            assert(codes[1 + 2 * i] == MenuTaskView::SendInvite { code: slave.friend_code@ });
            assert(codes[2 + 2 * i] == MenuTaskView::Clear);
            assert(menu_tasks(tasks@) =~= menu_tasks(done).push(codes[1 + 2 * i]).push(
                codes[2 + 2 * i],
            ));
            assert(codes.take(1 + 2 * (i + 1)) =~= codes.take(1 + 2 * i).push(
                codes[1 + 2 * i],
            ).push(codes[2 + 2 * i]));
        }
        i += 1;
    }
    assert(codes.take(1 + 2 * n) =~= codes);
    tasks
}

/// Tells every master to invite its slaves, and to start.
pub(crate) fn inviting_events(members: &IndexMap<u64, Member>, groups: &IndexMap<u64, Group>) -> (r:
    Vec<Event>)
    requires
        forall|g: u64, i: int|
            #![trigger group_map(*groups)[g]@.slaves[i]]
            group_map(*groups).contains_key(g) && 0 <= i < group_map(*groups)[g]@.slaves.len()
                ==> member_map(*members).contains_key(group_map(*groups)[g]@.slaves[i]),
    ensures
        event_views(r@) == invite_events(member_map(*members), groups_in_order(*groups)),
        forall|i: int|
            0 <= i < groups_in_order(*groups).len() ==> 1 + 2 * (#[trigger] groups_in_order(
                *groups,
            )[i]).slaves.len() <= usize::MAX,
{
    let ghost gs = groups_in_order(*groups);
    let ghost all = invite_events(member_map(*members), gs);
    let mut events: Vec<Event> = Vec::new();
    let n = groups_len(groups);
    let mut i: usize = 0;
    assert(event_views(events@) =~= all.take(0));
    while i < n
        invariant
            i <= n,
            n == group_order(*groups).len(),
            gs == groups_in_order(*groups),
            all == invite_events(member_map(*members), gs),
            forall|g: u64, i: int|
                #![trigger group_map(*groups)[g]@.slaves[i]]
                group_map(*groups).contains_key(g) && 0 <= i < group_map(*groups)[g]@.slaves.len()
                    ==> member_map(*members).contains_key(group_map(*groups)[g]@.slaves[i]),
            event_views(events@) == all.take(2 * i),
            forall|j: int| 0 <= j < i ==> 1 + 2 * (#[trigger] gs[j]).slaves.len() <= usize::MAX,
        decreases n - i,
    {
        let ghost done = events@;
        if let Some((gid, group)) = groups_get_index(groups, i) {
            assert(gs[i as int] == group@);
            assert forall|j: int| 0 <= j < group.slaves@.len() implies member_map(
                *members,
            ).contains_key(#[trigger] group.slaves@[j]@) by {
                assert(group_map(*groups)[gid]@.slaves[j] == group.slaves@[j]@);
            }
            let tasks = invite_steps(members, &group.slaves);
            assert(menu_tasks(tasks@).len() == 1 + 2 * gs[i as int].slaves.len());
            assert(tasks.len() == menu_tasks(tasks@).len());
            events.push(set_menu_event(group.master, tasks));
            events.push(start_menu_event(group.master));
            assert(all[2 * i] == set_menu(
                group.master@,
                invite_tasks(member_map(*members), group@.slaves),
            ));
            assert(all[2 * i + 1] == start_menu(group.master@));
            assert(event_views(events@) =~= event_views(done).push(all[2 * i]).push(
                all[2 * i + 1],
            ));
            assert(all.take(2 * (i + 1)) =~= all.take(2 * i).push(all[2 * i]).push(all[2 * i + 1]));
        }
        i += 1;
    }
    assert(all.take(2 * n) =~= all);
    events
}

/// Tells everybody to accept the match, and to start.
pub(crate) fn accepting_events(members: &IndexMap<u64, Member>) -> (r: Vec<Event>)
    ensures
        event_views(r@) == accept_events(member_order(*members)),
{
    let ghost order = member_order(*members);
    let ghost all = accept_events(order);
    let mut events: Vec<Event> = Vec::new();
    let n = members_len(members);
    let mut i: usize = 0;
    assert(event_views(events@) =~= all.take(0));
    while i < n
        invariant
            i <= n,
            n == order.len(),
            order == member_order(*members),
            all == accept_events(order),
            event_views(events@) == all.take(2 * i),
        decreases n - i,
    {
        let ghost done = events@;
        if let Some((k, _)) = members_get_index(members, i) {
            let sid = SessionId::from_raw(k);
            let mut tasks: Vec<MenuTask> = Vec::new();
            tasks.push(MenuTask::AcceptMatch);
            assert(menu_tasks(tasks@) =~= seq![MenuTaskView::AcceptMatch]);
            events.push(set_menu_event(sid, tasks));
            events.push(start_menu_event(sid));
            assert(all[2 * i] == set_menu(order[i as int], seq![MenuTaskView::AcceptMatch]));
            assert(all[2 * i + 1] == start_menu(order[i as int]));
            assert(event_views(events@) =~= event_views(done).push(all[2 * i]).push(
                all[2 * i + 1],
            ));
            assert(all.take(2 * (i + 1)) =~= all.take(2 * i).push(all[2 * i]).push(all[2 * i + 1]));
        }
        i += 1;
    }
    assert(all.take(2 * n) =~= all);
    events
}

/// Tells every slave to accept the invite, and to start.
pub(crate) fn joining_events(slaves: &Vec<SessionId>) -> (r: Vec<Event>)
    ensures
        event_views(r@) == join_events(numbers(slaves@)),
{
    let ghost flat = numbers(slaves@);
    let ghost all = join_events(flat);
    let mut events: Vec<Event> = Vec::new();
    let n = slaves.len();
    let mut i: usize = 0;
    assert(event_views(events@) =~= all.take(0));
    while i < n
        invariant
            i <= n,
            n == slaves@.len(),
            flat == numbers(slaves@),
            all == join_events(flat),
            event_views(events@) == all.take(2 * i),
        decreases n - i,
    {
        let ghost done = events@;
        let sid = slaves[i];
        let mut tasks: Vec<MenuTask> = Vec::new();
        tasks.push(MenuTask::Clear);
        tasks.push(MenuTask::AcceptInvite);
        assert(menu_tasks(tasks@) =~= seq![MenuTaskView::Clear, MenuTaskView::AcceptInvite]);
        events.push(set_menu_event(sid, tasks));
        events.push(start_menu_event(sid));
        assert(flat[i as int] == sid@);
        assert(all[2 * i] == set_menu(
            sid@,
            seq![MenuTaskView::Clear, MenuTaskView::AcceptInvite],
        ));
        assert(all[2 * i + 1] == start_menu(sid@));
        assert(event_views(events@) =~= event_views(done).push(all[2 * i]).push(all[2 * i + 1]));
        assert(all.take(2 * (i + 1)) =~= all.take(2 * i).push(all[2 * i]).push(all[2 * i + 1]));
        i += 1;
    }
    assert(all.take(2 * n) =~= all);
    events
}

} // verus!
