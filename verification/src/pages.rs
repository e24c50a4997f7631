//! What the player's input does on the game page: how the screens change, and
//! which request goes out to the server.

use vstd::prelude::*;
use crate::client::{
    Event, GameOverState, GameState, HelpState, HelpWidget, KeyCode, LimboState, PageSelection,
    sense_strengthened, sense_weakened, spec_help_step,
};
use crate::client_world::{WorldState, WorldView};
use crate::leaderboard::{Leaderboard, utf8_len};
use crate::network::{ClientMessage, ClientMessageContent, CommandMessage, GameOverMessage};
use crate::sense::{SenseType, Senses};
use crate::types::{ClientAction, Direction, PlayerId, spec_position_add};

verus! {

/// `String::len`: the number of bytes of the string's UTF-8 encoding.
#[verifier::external_body]
fn string_byte_len(s: &String) -> (r: usize)
    ensures
        r == utf8_len(s@),
{
    s.len()
}

/// `String::push`: the character is appended.
#[verifier::external_body]
fn string_push(s: &mut String, c: char)
    ensures
        final(s)@ == old(s)@.push(c),
{
    s.push(c)
}

/// `String::pop`: the last character is taken off and returned, if there is one.
#[verifier::external_body]
fn string_pop(s: &mut String) -> (r: Option<char>)
    ensures
        old(s)@.len() == 0 ==> r is None && final(s)@ == old(s)@,
        old(s)@.len() > 0 ==> r == Some(old(s)@.last()) && final(s)@ == old(s)@.drop_last(),
{
    s.pop()
}

/// The longest name, in bytes, that the game over screen lets the player type.
pub const NAME_INPUT_MAX: usize = 8;

/// What the page asks of the rest of the client once it handled an event.
pub enum InputRequest {
    /// The avatar acts with these senses.
    Act(ClientAction, Senses),
    /// The player's name goes to the leaderboard.
    SubmitLeaderboard(String),
    /// The news of a saved avatar has been read.
    ClearLimbo,
}

/// What the client shares between its screens and the server's messages.
pub struct SharedState {
    pub player_id: PlayerId,
    pub gameover: Option<GameOverMessage>,
    pub limbo: Option<bool>,
    pub leaderboard: Leaderboard,
    pub world: WorldView,
}

impl SharedState {
    pub fn new(player_id: PlayerId) -> (r: SharedState)
        ensures
            r.player_id == player_id,
            r.gameover is None,
            r.limbo is None,
            r.leaderboard.view() == Seq::<crate::leaderboard::LeaderboardEntry>::empty(),
            r.world.wf(),
            r.world.turn == 1,
            r.world.stage == 0,
            r.world.history@.len() == 0,
    {
        SharedState {
            player_id,
            gameover: None,
            limbo: None,
            leaderboard: Leaderboard::new(),
            world: WorldView::new(),
        }
    }

    /// The avatar acts: the world view records the turn, and the command for
    /// that turn is the message to send.
    pub fn act(&mut self, action: ClientAction, senses: Senses) -> (m: ClientMessage)
        requires
            old(self).world.wf(),
        ensures
            final(self).world.wf(),
            final(self).player_id == old(self).player_id,
            final(self).gameover == old(self).gameover,
            final(self).limbo == old(self).limbo,
            final(self).leaderboard == old(self).leaderboard,
            final(self).world.stage == old(self).world.stage,
            final(self).world.turn == if old(self).world.turn < u64::MAX {
                (old(self).world.turn + 1) as u64
            } else {
                0
            },
            final(self).world.history@.last().action == action,
            m == (ClientMessage {
                player_id: Some(old(self).player_id),
                content: ClientMessageContent::Command(CommandMessage {
                    player_id: old(self).player_id,
                    turn: final(self).world.turn,
                    action,
                    senses,
                }),
            }),
    {
        self.world.act(&action, &senses);
        let player_id = self.player_id;
        ClientMessage {
            player_id: Some(player_id),
            content: ClientMessageContent::Command(CommandMessage { player_id, turn: self.world.turn, action, senses }),
        }
    }

    /// The message that sends `name` to the leaderboard.
    pub fn submit_leaderboard(&self, name: String) -> (m: ClientMessage)
        ensures
            m == (ClientMessage {
                player_id: Some(self.player_id),
                content: ClientMessageContent::LeaderboardSubmit(self.player_id, name),
            }),
    {
        ClientMessage {
            player_id: Some(self.player_id),
            content: ClientMessageContent::LeaderboardSubmit(self.player_id, name),
        }
    }

    /// The message that starts a new game.
    pub fn new_game(&self) -> (m: ClientMessage)
        ensures
            m == (ClientMessage {
                player_id: Some(self.player_id),
                content: ClientMessageContent::Start(self.player_id, None),
            }),
    {
        ClientMessage { player_id: Some(self.player_id), content: ClientMessageContent::Start(self.player_id, None) }
    }

    pub fn clear_gameover(&mut self)
        ensures
            final(self).gameover is None,
            final(self).limbo == old(self).limbo,
            final(self).player_id == old(self).player_id,
            final(self).leaderboard == old(self).leaderboard,
            final(self).world == old(self).world,
    {
        self.gameover = None;
    }

    pub fn clear_limbo(&mut self)
        ensures
            final(self).limbo is None,
            final(self).gameover == old(self).gameover,
            final(self).player_id == old(self).player_id,
            final(self).leaderboard == old(self).leaderboard,
            final(self).world == old(self).world,
    {
        self.limbo = None;
    }

    /// Carries out a request of the page; an action and a name are messages
    /// to send.
    pub fn perform(&mut self, request: InputRequest) -> (m: Option<ClientMessage>)
        requires
            old(self).world.wf(),
        ensures
            final(self).world.wf(),
            final(self).player_id == old(self).player_id,
            final(self).gameover == old(self).gameover,
            final(self).leaderboard == old(self).leaderboard,
            match request {
                InputRequest::Act(action, senses) => {
                    &&& final(self).limbo == old(self).limbo
                    &&& final(self).world.history@.last().action == action
                    &&& m == Some(ClientMessage {
                        player_id: Some(old(self).player_id),
                        content: ClientMessageContent::Command(CommandMessage {
                            player_id: old(self).player_id,
                            turn: final(self).world.turn,
                            action,
                            senses,
                        }),
                    })
                },
                InputRequest::SubmitLeaderboard(name) => {
                    &&& final(self).limbo == old(self).limbo
                    &&& final(self).world == old(self).world
                    &&& m == Some(ClientMessage {
                        player_id: Some(old(self).player_id),
                        content: ClientMessageContent::LeaderboardSubmit(old(self).player_id, name),
                    })
                },
                InputRequest::ClearLimbo => {
                    &&& final(self).limbo is None
                    &&& final(self).world == old(self).world
                    &&& m is None
                },
            },
    {
        match request {
            InputRequest::Act(action, senses) => Some(self.act(action, senses)),
            InputRequest::SubmitLeaderboard(name) => Some(self.submit_leaderboard(name)),
            InputRequest::ClearLimbo => {
                self.clear_limbo();
                None
            },
        }
    }
}

/// The game over screen after `event`, when it was not yet sent: enter sends
/// a name that is not empty, backspace erases, a character is typed while the
/// name is under eight bytes, escape closes the screen.
pub open spec fn gameover_step(event: Event, old: GameOverState, new: GameOverState, request: Option<InputRequest>) -> bool {
    match event {
        Event::Key(key) => match key.code {
            KeyCode::Enter => if old.name@.len() > 0 {
                &&& request matches Some(InputRequest::SubmitLeaderboard(name)) && name@ == old.name@
                &&& new.sent
                &&& new.open == old.open
                &&& new.name@ == old.name@
            } else {
                &&& request is None
                &&& new.sent == old.sent
                &&& new.open == old.open
                &&& new.name@ == old.name@
            },
            KeyCode::Backspace => {
                &&& request is None
                &&& new.sent == old.sent
                &&& new.open == old.open
                &&& new.name@ == if old.name@.len() > 0 { old.name@.drop_last() } else { old.name@ }
            },
            KeyCode::Char(c) => {
                &&& request is None
                &&& new.sent == old.sent
                &&& new.open == old.open
                &&& new.name@ == if utf8_len(old.name@) < NAME_INPUT_MAX { old.name@.push(c) } else { old.name@ }
            },
            KeyCode::Esc => {
                &&& request is None
                &&& new.sent == old.sent
                &&& !new.open
                &&& new.name@ == old.name@
            },
            _ => {
                &&& request is None
                &&& new.sent == old.sent
                &&& new.open == old.open
                &&& new.name@ == old.name@
            },
        },
        _ => false,
    }
}

/// The game over screen takes the event: every event once the score is sent,
/// every key before.
pub open spec fn gameover_takes(event: Event, state: GameOverState) -> bool {
    state.sent || event is Key
}

/// `new` is `old`, name included.
pub open spec fn gameover_same(old: GameOverState, new: GameOverState) -> bool {
    new.open == old.open && new.sent == old.sent && new.name@ == old.name@
}

/// The screen shown when the game is over.
pub struct GameOverWidget;

impl GameOverWidget {
    /// Once the score is sent any event closes the screen; before, the keys
    /// type the player's name and enter sends it.
    pub fn on_event(&self, event: &Event, state: &mut GameOverState) -> (r: (bool, Option<InputRequest>))
        ensures
            r.0 == gameover_takes(*event, *old(state)),
            old(state).sent ==> {
                &&& r.1 is None
                &&& !final(state).open
                &&& final(state).sent
                &&& final(state).name@ == old(state).name@
            },
            !old(state).sent && *event is Key ==> gameover_step(*event, *old(state), *final(state), r.1),
            !gameover_takes(*event, *old(state)) ==> r.1 is None && gameover_same(*old(state), *final(state)),
    {
        if state.sent {
            // Already sent, any key closes win screen
            state.open = false;
            return (true, None);
        }
        let key = match event {
            Event::Key(key) => key,
            _ => return (false, None),
        };
        let mut request = None;
        match key.code {
            KeyCode::Enter => {
                if string_byte_len(&state.name) > 0 {
                    request = Some(InputRequest::SubmitLeaderboard(state.name.clone()));
                    state.sent = true;
                }
            },
            KeyCode::Backspace => {
                string_pop(&mut state.name);
            },
            KeyCode::Char(c) => {
                if string_byte_len(&state.name) < NAME_INPUT_MAX {
                    string_push(&mut state.name, c);
                }
            },
            KeyCode::Esc => {
                state.open = false;
            },
            _ => {},
        }
        (true, request)
    }
}

/// The screen shown while the avatar waits in limbo.
pub struct LimboWidget;

impl LimboWidget {
    /// When the avatar was saved, any event closes the news and clears it;
    /// otherwise the screen lets events through.
    pub fn on_event(&self, event: &Event, state: &mut LimboState) -> (r: (bool, Option<InputRequest>))
        ensures
            r.0 == old(state).averted,
            old(state).averted ==> (r.1 matches Some(InputRequest::ClearLimbo)),
            old(state).averted ==> *final(state) == (LimboState { open: false, ..*old(state) }),
            !old(state).averted ==> (r.1 is None),
            !old(state).averted ==> *final(state) == *old(state),
    {
        if state.averted {
            // Any key dismisses the popup
            state.open = false;
            (true, Some(InputRequest::ClearLimbo))
        } else {
            (false, None)
        }
    }
}

/// The state of the client's screens.
pub struct TuiState {
    pub game: GameState,
    pub you_win: GameOverState,
    pub limbo: LimboState,
    pub page: PageSelection,
    pub should_exit: bool,
}

/// The senses in the order the page lists them.
pub open spec fn sense_row(i: int) -> SenseType {
    if i == 0 {
        SenseType::SelfSense
    } else if i == 1 {
        SenseType::Touch
    } else if i == 2 {
        SenseType::Hearing
    } else {
        SenseType::Sight
    }
}

/// How a key moves among the senses or tunes the selected one, with shift held.
pub enum SenseKey {
    Previous,
    Next,
    Stronger,
    Weaker,
}

pub open spec fn spec_sense_key(code: KeyCode) -> Option<SenseKey> {
    match code {
        KeyCode::Up | KeyCode::Char('8') | KeyCode::Char('K') => Some(SenseKey::Previous),
        KeyCode::Down | KeyCode::Char('2') | KeyCode::Char('J') => Some(SenseKey::Next),
        KeyCode::Right | KeyCode::Char('6') | KeyCode::Char('L') => Some(SenseKey::Stronger),
        KeyCode::Left | KeyCode::Char('4') | KeyCode::Char('H') => Some(SenseKey::Weaker),
        _ => None,
    }
}

fn sense_key(code: KeyCode) -> (r: Option<SenseKey>)
    ensures
        r == spec_sense_key(code),
{
    match code {
        KeyCode::Up | KeyCode::Char('8') | KeyCode::Char('K') => Some(SenseKey::Previous),
        KeyCode::Down | KeyCode::Char('2') | KeyCode::Char('J') => Some(SenseKey::Next),
        KeyCode::Right | KeyCode::Char('6') | KeyCode::Char('L') => Some(SenseKey::Stronger),
        KeyCode::Left | KeyCode::Char('4') | KeyCode::Char('H') => Some(SenseKey::Weaker),
        _ => None,
    }
}

/// The action a key asks for: the arrows, the keypad digits and the vi keys
/// move or attack, five and space wait.
pub open spec fn spec_key_action(code: KeyCode) -> Option<ClientAction> {
    match code {
        KeyCode::Up | KeyCode::Char('8') | KeyCode::Char('k') => Some(ClientAction::MoveOrAttack(Direction::Up)),
        KeyCode::Down | KeyCode::Char('2') | KeyCode::Char('j') => Some(ClientAction::MoveOrAttack(Direction::Down)),
        KeyCode::Left | KeyCode::Char('4') | KeyCode::Char('h') => Some(ClientAction::MoveOrAttack(Direction::Left)),
        KeyCode::Right | KeyCode::Char('6') | KeyCode::Char('l') => Some(ClientAction::MoveOrAttack(Direction::Right)),
        KeyCode::Char('7') | KeyCode::Char('y') => Some(ClientAction::MoveOrAttack(Direction::UpLeft)),
        KeyCode::Char('9') | KeyCode::Char('u') => Some(ClientAction::MoveOrAttack(Direction::UpRight)),
        KeyCode::Char('1') | KeyCode::Char('b') => Some(ClientAction::MoveOrAttack(Direction::DownLeft)),
        KeyCode::Char('3') | KeyCode::Char('n') => Some(ClientAction::MoveOrAttack(Direction::DownRight)),
        KeyCode::Char('5') | KeyCode::Char(' ') => Some(ClientAction::Wait),
        _ => None,
    }
}

fn key_action(code: KeyCode) -> (r: Option<ClientAction>)
    ensures
        r == spec_key_action(code),
{
    match code {
        KeyCode::Up | KeyCode::Char('8') | KeyCode::Char('k') => Some(ClientAction::MoveOrAttack(Direction::Up)),
        KeyCode::Down | KeyCode::Char('2') | KeyCode::Char('j') => Some(ClientAction::MoveOrAttack(Direction::Down)),
        KeyCode::Left | KeyCode::Char('4') | KeyCode::Char('h') => Some(ClientAction::MoveOrAttack(Direction::Left)),
        KeyCode::Right | KeyCode::Char('6') | KeyCode::Char('l') => Some(ClientAction::MoveOrAttack(Direction::Right)),
        KeyCode::Char('7') | KeyCode::Char('y') => Some(ClientAction::MoveOrAttack(Direction::UpLeft)),
        KeyCode::Char('9') | KeyCode::Char('u') => Some(ClientAction::MoveOrAttack(Direction::UpRight)),
        KeyCode::Char('1') | KeyCode::Char('b') => Some(ClientAction::MoveOrAttack(Direction::DownLeft)),
        KeyCode::Char('3') | KeyCode::Char('n') => Some(ClientAction::MoveOrAttack(Direction::DownRight)),
        KeyCode::Char('5') | KeyCode::Char(' ') => Some(ClientAction::Wait),
        _ => None,
    }
}

/// A move into a tile that, as far as the client knows, cannot be travelled.
pub open spec fn blocked_move(action: ClientAction, state: WorldState) -> bool {
    match action {
        ClientAction::MoveOrAttack(dir) => !state.spec_tile_at(
            spec_position_add(state.position, dir.spec_offset()),
        ).spec_can_travel(),
        _ => false,
    }
}

/// What the game page does with a key when no screen is open above it.
pub open spec fn game_key_step(
    key_code: KeyCode,
    shift: bool,
    old: GameState,
    new: GameState,
    world: WorldState,
    r: (bool, Option<InputRequest>),
) -> bool {
    if shift && spec_sense_key(key_code) is Some {
        &&& r.0
        &&& r.1 is None
        &&& new.help == old.help
        &&& new.stage == old.stage
        &&& match spec_sense_key(key_code).unwrap() {
            SenseKey::Previous => new == GameState {
                sense_selection: if old.sense_selection > 0 { (old.sense_selection - 1) as usize } else { 0 },
                ..old
            },
            SenseKey::Next => new == GameState {
                sense_selection: if old.sense_selection < (if old.stage < 3 { old.stage as usize } else { 3 }) {
                    (old.sense_selection + 1) as usize
                } else {
                    old.sense_selection
                },
                ..old
            },
            SenseKey::Stronger => {
                &&& new.sense_selection == old.sense_selection
                &&& old.sense_selection < 4 ==> sense_strengthened(old.senses, new.senses, sense_row(old.sense_selection as int))
                &&& old.sense_selection >= 4 ==> new.senses == old.senses
            },
            SenseKey::Weaker => {
                &&& new.sense_selection == old.sense_selection
                &&& old.sense_selection < 4 ==> sense_weakened(old.senses, new.senses, sense_row(old.sense_selection as int))
                &&& old.sense_selection >= 4 ==> new.senses == old.senses
            },
        }
    } else if key_code == KeyCode::Char('?') {
        &&& r.0
        &&& r.1 is None
        &&& new == GameState { help: HelpState { open: true, ..old.help }, ..old }
    } else {
        &&& new == old
        &&& match spec_key_action(key_code) {
            None => !r.0 && r.1 is None,
            Some(action) => {
                &&& r.0
                &&& if blocked_move(action, world) {
                    r.1 is None
                } else {
                    r.1 matches Some(InputRequest::Act(a, s)) && a == action && s == old.senses
                }
            },
        }
    }
}

/// The game page.
pub struct GamePage;

impl GamePage {
    /// Before the page is drawn it catches up with the client: every sense is
    /// offered, and news of a change of fate from the server opens the limbo
    /// screen, telling whether the avatar was saved.
    pub fn sync(&self, tui: &mut TuiState, shared: &SharedState)
        ensures
            final(tui).game == (GameState { stage: 5, ..old(tui).game }),
            final(tui).limbo == match shared.limbo {
                Some(averted) => LimboState { open: true, averted },
                None => old(tui).limbo,
            },
            final(tui).you_win == old(tui).you_win,
            final(tui).page == old(tui).page,
            final(tui).should_exit == old(tui).should_exit,
    {
        tui.game.stage = 5;
        if let Some(averted) = shared.limbo {
            tui.limbo.open = true;
            tui.limbo.averted = averted;
        }
    }

    /// The screens above the page take the event first: the game over screen,
    /// then the limbo news, then the help. Otherwise, with shift held, keys
    /// move among the senses and tune them; `?` opens the help; the other keys
    /// act, except a move into a tile known not to be travelled. Tells whether
    /// the event was taken, and what to ask of the client.
    pub fn on_event(&self, event: &Event, tui: &mut TuiState, shared: &SharedState) -> (r: (bool, Option<InputRequest>))
        requires
            shared.world.wf(),
        ensures
            final(tui).page == old(tui).page,
            final(tui).should_exit == old(tui).should_exit,
            shared.gameover is Some && gameover_takes(*event, old(tui).you_win) ==> {
                &&& r.0
                &&& final(tui).limbo == old(tui).limbo
                &&& final(tui).game == old(tui).game
                &&& old(tui).you_win.sent ==> r.1 is None && !final(tui).you_win.open && final(tui).you_win.sent
                    && final(tui).you_win.name@ == old(tui).you_win.name@
                &&& !old(tui).you_win.sent ==> gameover_step(*event, old(tui).you_win, final(tui).you_win, r.1)
            },
            !(shared.gameover is Some && gameover_takes(*event, old(tui).you_win)) ==> {
                &&& gameover_same(old(tui).you_win, final(tui).you_win)
                &&& if old(tui).limbo.open {
                    &&& final(tui).game == old(tui).game
                    &&& r.0 == old(tui).limbo.averted
                    &&& old(tui).limbo.averted ==> (r.1 matches Some(InputRequest::ClearLimbo))
                    &&& old(tui).limbo.averted ==> final(tui).limbo == (LimboState { open: false, ..old(tui).limbo })
                    &&& !old(tui).limbo.averted ==> (r.1 is None)
                    &&& !old(tui).limbo.averted ==> final(tui).limbo == old(tui).limbo
                } else if old(tui).game.help.open {
                    &&& final(tui).limbo == old(tui).limbo
                    &&& r.0
                    &&& r.1 is None
                    &&& final(tui).game == (GameState { help: spec_help_step(*event, old(tui).game.help), ..old(tui).game })
                } else {
                    &&& final(tui).limbo == old(tui).limbo
                    &&& match *event {
                        Event::Key(key) => game_key_step(
                            key.code,
                            key.modifiers.shift,
                            old(tui).game,
                            final(tui).game,
                            shared.world.current_state,
                            r,
                        ),
                        _ => !r.0 && r.1 is None && final(tui).game == old(tui).game,
                    }
                }
            },
    {
        if shared.gameover.is_some() {
            let (taken, request) = GameOverWidget.on_event(event, &mut tui.you_win);
            if taken {
                return (true, request);
            }
        }
        // If limbo is visible, let the limbo screen handle the event
        if tui.limbo.open {
            return LimboWidget.on_event(event, &mut tui.limbo);
        }
        // If help is visible, let the help handle the event
        if tui.game.help.open {
            let taken = HelpWidget.on_event(event, &mut tui.game.help);
            return (taken, None);
        }
        let key = match event {
            Event::Key(key) => *key,
            _ => return (false, None),
        };
        let game_state = &mut tui.game;
        if key.modifiers.shift {
            match sense_key(key.code) {
                Some(SenseKey::Previous) => {
                    game_state.sense_selection = game_state.sense_selection.saturating_sub(1);
                    return (true, None);
                },
                Some(SenseKey::Next) => {
                    let max_sense: u8 = if game_state.stage < 3 { game_state.stage } else { 3 };
                    if game_state.sense_selection < max_sense as usize {
                        game_state.sense_selection = game_state.sense_selection + 1;
                    }
                    return (true, None);
                },
                Some(SenseKey::Stronger) => {
                    let rows = vec![SenseType::SelfSense, SenseType::Touch, SenseType::Hearing, SenseType::Sight];
                    proof {
                        assert(game_state.sense_selection < 4 ==> rows@[game_state.sense_selection as int] == sense_row(
                            game_state.sense_selection as int,
                        ));
                    }
                    game_state.incr_sense(rows.as_slice());
                    return (true, None);
                },
                Some(SenseKey::Weaker) => {
                    let rows = vec![SenseType::SelfSense, SenseType::Touch, SenseType::Hearing, SenseType::Sight];
                    proof {
                        assert(game_state.sense_selection < 4 ==> rows@[game_state.sense_selection as int] == sense_row(
                            game_state.sense_selection as int,
                        ));
                    }
                    game_state.decr_sense(rows.as_slice());
                    return (true, None);
                },
                None => {},
            }
        }
        if key.code == KeyCode::Char('?') {
            game_state.help.open = true;
            return (true, None);
        }
        match key_action(key.code) {
            Some(action) => {
                // Check for wall collision before moving
                if let ClientAction::MoveOrAttack(dir) = action {
                    let current = &shared.world.current_state;
                    let new_pos = current.position.move_once(dir);
                    let tile = current.tile_at(new_pos);
                    if !tile.can_travel() {
                        // Cancel move into wall
                        return (true, None);
                    }
                }
                (true, Some(InputRequest::Act(action, game_state.senses)))
            },
            None => (false, None),
        }
    }
}

} // verus!
