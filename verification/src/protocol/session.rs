//! Messages of a single session.
use crate::protocol::game;
use vstd::prelude::*;

verus! {

/// The credentials a session logs in with.
#[derive(Debug, Clone)]
pub struct User {
    /// The account's name.
    pub username: String,
    /// The account's password.
    pub password: String,
    /// The account's second factor.
    pub secret: String,
}

/// How far a session has come up.
#[derive(Debug, Clone, Copy, PartialEq, Eq, Structural)]
pub enum State {
    /// The session is being started.
    Starting,
    /// The session is up.
    Running,
}

/// What a session is told.
#[derive(Debug, Clone)]
pub enum Command {
    /// Start, logging in as `user`.
    Create { user: User },
    /// A command for the game.
    Game(game::Command),
}

/// What a session reports.
#[derive(Debug, Clone)]
pub enum Event {
    /// The session has changed its state.
    StateUpdate(State),
    /// An event of the game.
    Game(game::Event),
}

/// The content of a [`Command`].
pub enum CommandView {
    /// The content of [`Command::Create`].
    Create { username: Seq<char>, password: Seq<char>, secret: Seq<char> },
    /// The content of [`Command::Game`].
    Game(game::CommandView),
}

impl View for Command {
    type V = CommandView;

    open spec fn view(&self) -> CommandView {
        match *self {
            Command::Create { user } => CommandView::Create {
                username: user.username@,
                password: user.password@,
                secret: user.secret@,
            },
            Command::Game(cmd) => CommandView::Game(cmd@),
        }
    }
}

} // verus!
