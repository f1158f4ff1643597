use vstd::prelude::*;
use vstd::string::StringExecFns;

use crate::game::Game;
use crate::grid::Grid;
use crate::hex::Hex;
use crate::point::Point;

verus! {

pub const CMD_CLICK: &'static str = "click";
pub const CMD_SKIP_TURN: &'static str = "skip_turn";
pub const CMD_START_GAME: &'static str = "start_game";

/// The discriminator of an inbound frame.
#[derive(Debug)]
pub struct Message {
    pub cmd: String,
}

/// The intents a client can send.
#[derive(Clone, Copy, Debug, PartialEq, Eq, Structural)]
pub enum Command {
    Click,
    SkipTurn,
    StartGame,
}

impl Message {
    /// The intent that the discriminator names, if any.
    pub fn command(&self) -> (r: Option<Command>)
        ensures
            r == if self.cmd@ == CMD_CLICK@ {
                Some(Command::Click)
            } else if self.cmd@ == CMD_SKIP_TURN@ {
                Some(Command::SkipTurn)
            } else if self.cmd@ == CMD_START_GAME@ {
                Some(Command::StartGame)
            } else {
                None
            },
    {
        if self.cmd == String::from_str(CMD_CLICK) {
            Some(Command::Click)
        } else if self.cmd == String::from_str(CMD_SKIP_TURN) {
            Some(Command::SkipTurn)
        } else if self.cmd == String::from_str(CMD_START_GAME) {
            Some(Command::StartGame)
        } else {
            None
        }
    }
}

/// A click on the hex at `target`.
#[derive(Clone, Copy, Debug)]
pub struct Click {
    pub target: Point,
}

/// The active player ends the turn.
#[derive(Clone, Copy, Debug)]
pub struct SkipTurn;

/// A client asks for a match to begin.
#[derive(Clone, Copy, Debug)]
pub struct StartGame;

/// What a client's screen shows: its turn is not on (`Wait`), it watches a
/// match (`Watch`), it may select a unit (`Select`), act with the selected
/// one (`Action`), or attack after a move (`Attack`).
#[derive(Clone, Copy, Debug, PartialEq, Eq, Structural)]
pub enum StateKind {
    Wait,
    Watch,
    Select,
    Action,
    Attack,
}

/// How a match ended for a client.
#[derive(Clone, Copy, Debug, PartialEq, Eq, Structural)]
pub enum EndState {
    Win,
    Lose,
    Disconnected,
}

/// The whole field.
#[derive(Debug)]
pub struct Field {
    pub num_x: u32,
    pub num_y: u32,
    pub field: Grid,
}

/// A unit was selected; `highlight_hexes` are the points it can reach.
#[derive(Debug)]
pub struct Selecting {
    pub target: Point,
    pub highlight_hexes: Vec<Point>,
}

/// The selection was dropped.
#[derive(Debug)]
pub struct Deselecting {
    pub target: Point,
}

/// A unit went along the hexes of `coords`.
#[derive(Debug)]
pub struct Moving {
    pub coords: Vec<Hex>,
}

/// The unit on `from` attacked the unit on `to`.
#[derive(Debug)]
pub struct Attacking {
    pub from: Point,
    pub to: Point,
}

/// The screen a client is to show.
#[derive(Debug)]
pub struct State {
    pub state: StateKind,
}

/// An intent of the client was refused; `message` names the intent.
#[derive(Debug)]
pub struct Error {
    pub message: String,
}

/// Units that were hit and live on.
#[derive(Debug)]
pub struct Hurt {
    pub hexes: Vec<Hex>,
}

/// Units that were hit and died.
#[derive(Debug)]
pub struct Die {
    pub hexes: Vec<Hex>,
}

/// Hexes whose units changed.
#[derive(Debug)]
pub struct Update {
    pub hexes: Vec<Hex>,
}

/// The match is over.
#[derive(Debug)]
pub struct End {
    pub you_win: EndState,
}

/// A client's place in the connection queue.
#[derive(Debug)]
pub struct ConnectionQueue {
    pub players_number: u32,
    pub your_number: u32,
    pub game_started: bool,
}

impl Field {
    pub fn new(game: &Game) -> (r: Field)
        ensures
            r.num_x == game.field.num_x,
            r.num_y == game.field.num_y,
            r.field.num_x == game.field.num_x,
            r.field.num_y == game.field.num_y,
            r.field.hexes@ == game.field.hexes@,
    {
        Field { num_x: game.field.num_x, num_y: game.field.num_y, field: game.field.snapshot() }
    }
}

impl Selecting {
    pub fn new(target: Point, highlight_hexes: &[Point]) -> (r: Selecting)
        ensures
            r.target == target,
            r.highlight_hexes@ == highlight_hexes@,
    {
        Selecting { target, highlight_hexes: vstd::slice::slice_to_vec(highlight_hexes) }
    }
}

impl Deselecting {
    pub fn new(target: Point) -> (r: Deselecting)
        ensures
            r.target == target,
    {
        Deselecting { target }
    }
}

impl Moving {
    pub fn new(hexes: Vec<Hex>) -> (r: Moving)
        ensures
            r.coords == hexes,
    {
        Moving { coords: hexes }
    }
}

impl Attacking {
    pub fn new(from: Point, to: Point) -> (r: Attacking)
        ensures
            r.from == from,
            r.to == to,
    {
        Attacking { from, to }
    }
}

impl State {
    pub fn new(state: StateKind) -> (r: State)
        ensures
            r.state == state,
    {
        State { state }
    }
}

impl Error {
    pub fn new(message: String) -> (r: Error)
        ensures
            r.message == message,
    {
        Error { message }
    }
}

impl Hurt {
    pub fn new(hexes: Vec<Hex>) -> (r: Hurt)
        ensures
            r.hexes == hexes,
    {
        Hurt { hexes }
    }
}

impl Die {
    pub fn new(hexes: Vec<Hex>) -> (r: Die)
        ensures
            r.hexes == hexes,
    {
        Die { hexes }
    }
}

impl Update {
    pub fn new(hexes: Vec<Hex>) -> (r: Update)
        ensures
            r.hexes == hexes,
    {
        Update { hexes }
    }
}

impl End {
    pub fn new(you_win: EndState) -> (r: End)
        ensures
            r.you_win == you_win,
    {
        End { you_win }
    }
}

impl ConnectionQueue {
    pub fn new(total_players: u32, queue_number: u32, game_started: bool) -> (r: ConnectionQueue)
        ensures
            r.players_number == total_players,
            r.your_number == queue_number,
            r.game_started == game_started,
    {
        ConnectionQueue { players_number: total_players, your_number: queue_number, game_started }
    }
}

} // verus!
