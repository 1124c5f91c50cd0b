//! Messages of the game that runs inside a session.
use vstd::prelude::*;

verus! {

/// One step of a bot's gameplay.
#[derive(Debug, Clone, Copy, PartialEq, Eq, Structural)]
pub struct GameplayTask {
    /// The step's number.
    pub id: u32,
}

/// One step in the game's menus.
#[derive(Debug, Clone)]
pub enum MenuTask {
    /// Go back to a clean menu.
    Clear,
    /// Invite the player with the given friend code.
    SendInvite { code: String },
    /// Accept a pending invite.
    AcceptInvite,
    /// Accept the match that was found.
    AcceptMatch,
}

/// The side a player is on.
#[derive(Debug, Clone, Copy, PartialEq, Eq, Structural)]
pub enum Team {
    /// The counter-terrorists.
    CounterTerrorists,
    /// The terrorists.
    Terrorists,
    /// Nobody who plays.
    Spectators,
}

/// How far the game has signed on to its server.
#[derive(Debug, Clone, Copy, PartialEq, Eq, Structural)]
pub enum SignOnState {
    /// Not at all.
    Absent,
    /// Completely.
    Full,
}

/// The local player.
#[derive(Debug, Clone)]
pub struct PlayerState {
    /// The side the player is on.
    pub team: Team,
    /// The player's name.
    pub name: String,
}

/// The map the game has loaded.
#[derive(Debug, Clone)]
pub enum GameMap {
    /// No map.
    Absent,
    /// A map of the base game.
    Base { name: String },
}

/// The phase a match is in.
#[derive(Debug, Clone, Copy, PartialEq, Eq, Structural)]
pub enum Phase {
    /// Before the first round.
    Warmup,
    /// In a round.
    Round { number: u32 },
}

/// The state of a match.
#[derive(Debug, Clone, Copy, PartialEq, Eq, Structural)]
pub struct MatchState {
    /// The match's phase.
    pub phase: Phase,
    /// Whether players are frozen.
    pub freeze: bool,
}

/// What the game reports.
#[derive(Debug, Clone)]
pub enum Event {
    /// The player's friend code is known.
    InviteCodeUpdate { code: String },
    /// An invite has arrived.
    InviteReceived,
    /// A match has been found.
    MatchReceived { match_id: u64 },
    /// The game's state has changed.
    StateUpdate {
        sign_on_state: SignOnState,
        player: Option<PlayerState>,
        map: GameMap,
        match_state: Option<MatchState>,
    },
    /// A gameplay step is done.
    BotTaskCompleted { id: usize },
    /// A menu step is done.
    MenuTaskCompleted { id: usize },
}

/// What the game is told.
#[derive(Debug, Clone)]
pub enum Command {
    /// Replace the menu bot's steps, starting at `offset`.
    BotMenuSetTasks { tasks: Vec<MenuTask>, offset: usize },
    /// Start the menu bot.
    BotMenuStart,
    /// Stop the menu bot.
    BotMenuStop,
    /// Replace the gameplay bot's steps, starting at `offset`.
    BotGameplaySetTasks { tasks: Vec<GameplayTask>, offset: usize },
    /// Start the gameplay bot.
    BotGameplayStart,
    /// Stop the gameplay bot.
    BotGameplayStop,
    /// Signal the gameplay bot.
    BotGameplaySignal,
}

/// The content of a [`MenuTask`].
pub enum MenuTaskView {
    /// The content of [`MenuTask::Clear`].
    Clear,
    /// The content of [`MenuTask::SendInvite`].
    SendInvite { code: Seq<char> },
    /// The content of [`MenuTask::AcceptInvite`].
    AcceptInvite,
    /// The content of [`MenuTask::AcceptMatch`].
    AcceptMatch,
}

impl View for MenuTask {
    type V = MenuTaskView;

    open spec fn view(&self) -> MenuTaskView {
        match *self {
            MenuTask::Clear => MenuTaskView::Clear,
            MenuTask::SendInvite { code } => MenuTaskView::SendInvite { code: code@ },
            MenuTask::AcceptInvite => MenuTaskView::AcceptInvite,
            MenuTask::AcceptMatch => MenuTaskView::AcceptMatch,
        }
    }
}

/// The content of a list of menu steps.
pub open spec fn menu_tasks(tasks: Seq<MenuTask>) -> Seq<MenuTaskView> {
    tasks.map_values(|t: MenuTask| t@)
}

/// The content of a [`Command`].
pub enum CommandView {
    /// The content of [`Command::BotMenuSetTasks`].
    BotMenuSetTasks { tasks: Seq<MenuTaskView>, offset: usize },
    /// The content of [`Command::BotMenuStart`].
    BotMenuStart,
    /// The content of [`Command::BotMenuStop`].
    BotMenuStop,
    /// The content of [`Command::BotGameplaySetTasks`].
    BotGameplaySetTasks { tasks: Seq<GameplayTask>, offset: usize },
    /// The content of [`Command::BotGameplayStart`].
    BotGameplayStart,
    /// The content of [`Command::BotGameplayStop`].
    BotGameplayStop,
    /// The content of [`Command::BotGameplaySignal`].
    BotGameplaySignal,
}

impl View for Command {
    type V = CommandView;

    open spec fn view(&self) -> CommandView {
        match *self {
            Command::BotMenuSetTasks { tasks, offset } => CommandView::BotMenuSetTasks {
                tasks: menu_tasks(tasks@),
                offset,
            },
            Command::BotMenuStart => CommandView::BotMenuStart,
            Command::BotMenuStop => CommandView::BotMenuStop,
            Command::BotGameplaySetTasks { tasks, offset } => CommandView::BotGameplaySetTasks {
                tasks: tasks@,
                offset,
            },
            Command::BotGameplayStart => CommandView::BotGameplayStart,
            Command::BotGameplayStop => CommandView::BotGameplayStop,
            Command::BotGameplaySignal => CommandView::BotGameplaySignal,
        }
    }
}

} // verus!
