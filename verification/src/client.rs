//! The client's state around the game: its input events, its pages, the
//! senses the player chose and the help screens.

use vstd::prelude::*;
use crate::sense::{HearingLevel, SenseStrength, SenseType, Senses, SightLevel};

verus! {

#[derive(Debug, Clone)]
pub enum Event {
    /// Terminal gained focus
    FocusGained,
    /// Terminal lost focus
    FocusLost,
    /// Key press event with modifiers
    Key(KeyEvent),
    /// Mouse event with coordinates and button info
    Mouse(MouseEvent),
    /// Text pasted into terminal (bracketed paste)
    Paste(String),
    /// Terminal resized (columns, rows)
    Resize(u16, u16),
}

#[derive(Debug, Clone, Copy, PartialEq, Eq, Structural)]
pub struct KeyEvent {
    pub code: KeyCode,
    pub modifiers: KeyModifiers,
    pub kind: KeyEventKind,
    pub state: KeyEventState,
}

#[derive(Debug, Clone, Copy, PartialEq, Eq, Structural)]
pub enum KeyCode {
    Backspace,
    Enter,
    Left,
    Right,
    Up,
    Down,
    Home,
    End,
    PageUp,
    PageDown,
    Tab,
    BackTab,
    Delete,
    Insert,
    F(u8),
    Char(char),
    Null,
    Esc,
    CapsLock,
    ScrollLock,
    NumLock,
    PrintScreen,
    Pause,
    Menu,
    KeypadBegin,
    Media(MediaKeyCode),
    Modifier(ModifierKeyCode),
}

#[derive(Debug, Clone, Copy, PartialEq, Eq, Structural)]
pub enum MediaKeyCode {
    Play,
    Pause,
    PlayPause,
    Reverse,
    Stop,
    FastForward,
    Rewind,
    TrackNext,
    TrackPrevious,
    Record,
    LowerVolume,
    RaiseVolume,
    MuteVolume,
}

#[derive(Debug, Clone, Copy, PartialEq, Eq, Structural)]
pub enum ModifierKeyCode {
    LeftShift,
    LeftControl,
    LeftAlt,
    LeftSuper,
    LeftHyper,
    LeftMeta,
    RightShift,
    RightControl,
    RightAlt,
    RightSuper,
    RightHyper,
    RightMeta,
    IsoLevel3Shift,
    IsoLevel5Shift,
}

#[derive(Debug, Clone, Copy, PartialEq, Eq, Structural)]
pub struct KeyModifiers {
    pub shift: bool,
    pub control: bool,
    pub alt: bool,
    pub super_key: bool,
    pub hyper: bool,
    pub meta: bool,
}

#[derive(Debug, Clone, Copy, PartialEq, Eq, Structural)]
pub enum KeyEventKind {
    Press,
    Repeat,
    Release,
}

#[derive(Debug, Clone, Copy, PartialEq, Eq, Structural)]
pub enum KeyEventState {
    /// No particular state.
    Normal,
    Keypad,
    CapsLock,
    NumLock,
}

#[derive(Debug, Clone, Copy, PartialEq, Eq, Structural)]
pub struct MouseEvent {
    pub kind: MouseEventKind,
    pub column: u16,
    pub row: u16,
    pub modifiers: KeyModifiers,
}

#[derive(Debug, Clone, Copy, PartialEq, Eq, Structural)]
pub enum MouseEventKind {
    Down(MouseButton),
    Up(MouseButton),
    Drag(MouseButton),
    Moved,
    ScrollDown,
    ScrollUp,
    ScrollLeft,
    ScrollRight,
}

#[derive(Debug, Clone, Copy, PartialEq, Eq, Structural)]
pub enum MouseButton {
    Left,
    Right,
    Middle,
}

/// The page the client shows.
#[derive(Debug, Clone, Copy, PartialEq, Eq, Structural)]
pub enum PageSelection {
    Menu,
    Game,
}

#[derive(Debug)]
pub struct GameOverState {
    pub open: bool,
    pub name: String,
    pub sent: bool,
}

impl Default for GameOverState {
    fn default() -> (r: GameOverState)
        ensures
            !r.open,
            r.name@.len() == 0,
            !r.sent,
    {
        GameOverState { open: false, name: String::new(), sent: false }
    }
}

#[derive(Debug, Clone, Copy, PartialEq, Eq, Structural)]
pub struct LimboState {
    pub open: bool,
    pub averted: bool,
}

impl Default for LimboState {
    fn default() -> (r: LimboState)
        ensures
            !r.open,
            !r.averted,
    {
        LimboState { open: false, averted: false }
    }
}

/// The help screens.
pub struct HelpWidget;

#[derive(Debug, Clone, Copy, PartialEq, Eq, Structural)]
pub struct HelpState {
    pub open: bool,
    pub selection: u8,
    /// max help screen that can be shown
    pub max: u8,
}

impl Default for HelpState {
    fn default() -> (r: HelpState)
        ensures
            r == (HelpState { open: false, selection: 0, max: 0 }),
    {
        HelpState { open: false, selection: 0, max: 0 }
    }
}

/// The help screens after `event`, while they are open: `?` and escape close
/// them, left and right turn the pages, from the first to the last.
pub open spec fn spec_help_step(event: Event, old: HelpState) -> HelpState {
    match event {
        Event::Key(key) => match key.code {
            KeyCode::Char('?') | KeyCode::Esc => HelpState { open: false, ..old },
            KeyCode::Left => HelpState {
                selection: if old.selection > 0 { (old.selection - 1) as u8 } else { 0 },
                ..old
            },
            KeyCode::Right => HelpState {
                selection: if old.selection + 1 <= old.max { (old.selection + 1) as u8 } else { old.max },
                ..old
            },
            _ => old,
        },
        _ => old,
    }
}

impl HelpWidget {
    /// While the help is open it takes every event: `?` and escape close it,
    /// left and right turn its pages, from the first to the last. Tells
    /// whether it took the event.
    pub fn on_event(&self, event: &Event, state: &mut HelpState) -> (r: bool)
        ensures
            r == old(state).open,
            final(state).max == old(state).max,
            *final(state) == if !old(state).open { *old(state) } else { spec_help_step(*event, *old(state)) },
    {
        if !state.open {
            return false;
        }
        let key = match event {
            Event::Key(key) => key,
            _ => return true,  // Consume all non-key events when help is visible
        };
        match key.code {
            KeyCode::Char('?') | KeyCode::Esc => {
                state.open = false;
            },
            KeyCode::Left => {
                state.selection = state.selection.saturating_sub(1);
            },
            KeyCode::Right => {
                let next: u16 = state.selection as u16 + 1;
                state.selection = if next <= state.max as u16 { next as u8 } else { state.max };
            },
            _ => {},  // Consume all other key events when help is visible
        }
        // always preempt other bindings if open
        true
    }
}

/// A sense the player can strengthen or weaken.
pub trait ClientSense {
    /// Make it stronger
    fn incr(&mut self);

    /// Make it weaker
    fn decr(&mut self);
}

impl ClientSense for bool {
    fn incr(&mut self)
        ensures
            *final(self),
    {
        *self = SenseStrength::incr(*self);
    }

    fn decr(&mut self)
        ensures
            !*final(self),
    {
        *self = SenseStrength::decr(*self);
    }
}

impl ClientSense for SightLevel {
    fn incr(&mut self)
        ensures
            final(self).spec_get() == if old(self).spec_get() < 10 { (old(self).spec_get() + 1) as u8 } else { old(self).spec_get() },
    {
        *self = SenseStrength::incr(*self);
    }

    fn decr(&mut self)
        ensures
            final(self).spec_get() == if old(self).spec_get() > 0 { (old(self).spec_get() - 1) as u8 } else { old(self).spec_get() },
    {
        *self = SenseStrength::decr(*self);
    }
}

impl ClientSense for HearingLevel {
    fn incr(&mut self)
        ensures
            final(self).spec_get() == if old(self).spec_get() < 5 { (old(self).spec_get() + 1) as u8 } else { old(self).spec_get() },
    {
        *self = SenseStrength::incr(*self);
    }

    fn decr(&mut self)
        ensures
            final(self).spec_get() == if old(self).spec_get() > 0 { (old(self).spec_get() - 1) as u8 } else { old(self).spec_get() },
    {
        *self = SenseStrength::decr(*self);
    }
}

/// `new` is `old` with the sense `t` one step stronger.
pub open spec fn sense_strengthened(old: Senses, new: Senses, t: SenseType) -> bool {
    match t {
        SenseType::SelfSense => new == Senses { selfs: true, ..old },
        SenseType::Touch => new == Senses { touch: true, ..old },
        SenseType::Hearing => {
            &&& new.hearing.spec_get() == if old.hearing.spec_get() < 5 {
                (old.hearing.spec_get() + 1) as u8
            } else {
                old.hearing.spec_get()
            }
            &&& new.sight == old.sight
            &&& new.selfs == old.selfs
            &&& new.touch == old.touch
        },
        SenseType::Sight => {
            &&& new.sight.spec_get() == if old.sight.spec_get() < 10 {
                (old.sight.spec_get() + 1) as u8
            } else {
                old.sight.spec_get()
            }
            &&& new.hearing == old.hearing
            &&& new.selfs == old.selfs
            &&& new.touch == old.touch
        },
    }
}

/// `new` is `old` with the sense `t` one step weaker.
pub open spec fn sense_weakened(old: Senses, new: Senses, t: SenseType) -> bool {
    match t {
        SenseType::SelfSense => new == Senses { selfs: false, ..old },
        SenseType::Touch => new == Senses { touch: false, ..old },
        SenseType::Hearing => {
            &&& new.hearing.spec_get() == if old.hearing.spec_get() > 0 {
                (old.hearing.spec_get() - 1) as u8
            } else {
                0
            }
            &&& new.sight == old.sight
            &&& new.selfs == old.selfs
            &&& new.touch == old.touch
        },
        SenseType::Sight => {
            &&& new.sight.spec_get() == if old.sight.spec_get() > 0 {
                (old.sight.spec_get() - 1) as u8
            } else {
                0
            }
            &&& new.hearing == old.hearing
            &&& new.selfs == old.selfs
            &&& new.touch == old.touch
        },
    }
}

/// The senses the player chose and the help screens of the game page.
#[derive(Clone, Copy)]
pub struct GameState {
    pub senses: Senses,
    pub sense_selection: usize,
    pub help: HelpState,
    /// The stage reached, which decides how many senses the page offers.
    pub stage: u8,
}

impl Default for GameState {
    fn default() -> (r: GameState)
        ensures
            r.senses.selfs,
            !r.senses.touch,
            r.senses.sight.spec_get() == 5,
            r.senses.hearing.spec_get() == 0,
            r.sense_selection == 0,
            r.help == (HelpState { open: false, selection: 0, max: 0 }),
            r.stage == 0,
    {
        GameState { senses: Senses::default(), sense_selection: 0, help: HelpState::default(), stage: 0 }
    }
}

impl GameState {
    /// Weakens the selected sense among those the stage offers.
    pub fn decr_sense(&mut self, available_senses: &[SenseType])
        ensures
            final(self).sense_selection == old(self).sense_selection,
            final(self).help == old(self).help,
            final(self).stage == old(self).stage,
            old(self).sense_selection >= available_senses@.len() ==> final(self).senses == old(self).senses,
            old(self).sense_selection < available_senses@.len() ==> sense_weakened(
                old(self).senses,
                final(self).senses,
                available_senses@[old(self).sense_selection as int],
            ),
    {
        if self.sense_selection >= available_senses.len() {
            return;
        }
        let sense_type = available_senses[self.sense_selection];
        match sense_type {
            SenseType::SelfSense => self.senses.selfs = SenseStrength::decr(self.senses.selfs),
            SenseType::Touch => self.senses.touch = SenseStrength::decr(self.senses.touch),
            SenseType::Hearing => self.senses.hearing = SenseStrength::decr(self.senses.hearing),
            SenseType::Sight => self.senses.sight = SenseStrength::decr(self.senses.sight),
        }
    }

    /// Strengthens the selected sense among those the stage offers.
    pub fn incr_sense(&mut self, available_senses: &[SenseType])
        ensures
            final(self).sense_selection == old(self).sense_selection,
            final(self).help == old(self).help,
            final(self).stage == old(self).stage,
            old(self).sense_selection >= available_senses@.len() ==> final(self).senses == old(self).senses,
            old(self).sense_selection < available_senses@.len() ==> sense_strengthened(
                old(self).senses,
                final(self).senses,
                available_senses@[old(self).sense_selection as int],
            ),
    {
        if self.sense_selection >= available_senses.len() {
            return;
        }
        let sense_type = available_senses[self.sense_selection];
        match sense_type {
            SenseType::SelfSense => self.senses.selfs = SenseStrength::incr(self.senses.selfs),
            SenseType::Touch => self.senses.touch = SenseStrength::incr(self.senses.touch),
            SenseType::Hearing => self.senses.hearing = SenseStrength::incr(self.senses.hearing),
            SenseType::Sight => self.senses.sight = SenseStrength::incr(self.senses.sight),
        }
    }
}

} // verus!
