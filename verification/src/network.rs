//! The messages exchanged between the players' clients and the server.

use vstd::prelude::*;
use crate::events::GEvent;
use crate::leaderboard::Leaderboard;
use crate::sense::{Senses, SensesInfo};
use crate::types::{ClientAction, GameOver, PlayerId, ServerAction, StageId, StageTurn, Timeline, Turn};

verus! {

pub struct CommandMessage {
    pub player_id: PlayerId,
    /// The avatar's turn. Used to keep track of which response corresponds to which command
    pub turn: Turn,
    /// Action the avatar takes this tick
    pub action: ClientAction,
    /// Info then avatar wants to gather this tick
    pub senses: Senses,
}

pub struct TurnMessage {
    pub player_id: PlayerId,
    /// The avatar's turn. Used to Keep track of which response corresponds to which command
    pub turn: Turn,
    /// The stage turn, interesting info to know where people are relative to each other
    pub stage_turn: Turn,
    pub stage: StageId,
    pub info: Option<SensesInfo>,
    pub action: ServerAction,
    pub events: Vec<GEvent>,
    pub timeline: Timeline,
}

pub struct TransitionMessage {
    pub player_id: PlayerId,
    /// The avatar's turn. Used to Keep track of which response corresponds to which command
    pub turn: Turn,
    /// The stage turn, interesting info to know where people are relative to each other
    pub stage_turn: Turn,
    pub stage: StageId,
    /// Senses info gathered when entering the stage
    pub info: Option<SensesInfo>,
    pub timeline: Timeline,
}

pub struct LimboMessage {}

pub type GameOverMessage = GameOver;

pub struct ClientMessage {
    pub player_id: Option<PlayerId>,
    pub content: ClientMessageContent,
}

pub enum ClientMessageContent {
    Start(PlayerId, Option<String>),
    Leaderboard,
    LeaderboardSubmit(PlayerId, String),
    Command(CommandMessage),
}

pub enum ServerMessage {
    Leaderboard(Leaderboard),
    Turn(TurnMessage),
    Transition(TransitionMessage),
    GameOver(GameOverMessage),
    Limbo { averted: bool, senses_info: Option<SensesInfo> },
    /// Sent when someone plays, it updates where the head and tail of the stage is
    Timeline(StageId, StageTurn, Timeline, Option<SensesInfo>),
}

pub struct GameLogsMessage {
    /// From wich stage turn the game logs has been sent
    pub from: StageTurn,
    /// Logs computed from server. Ordered incr by stage turn
    pub logs: Vec<(StageTurn, GEvent)>,
}

impl Default for GameLogsMessage {
    fn default() -> (r: GameLogsMessage)
        ensures
            r.from == 0,
            r.logs@.len() == 0,
    {
        GameLogsMessage { from: 0, logs: Vec::new() }
    }
}

/// Who a server message goes to.
pub enum Recipient {
    Broadcast,
    Single(PlayerId),
    Multi(Vec<PlayerId>),
}

/// Server message with recipient
pub struct ServerMessageWithRecipient {
    pub recipient: Recipient,
    pub message: ServerMessage,
}

} // verus!
