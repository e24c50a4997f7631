//! Events of the game, as the players perceive them.

use vstd::prelude::*;
use crate::sense::SenseType;
use crate::types::{FoeId, PlayerId};

verus! {

/// Who takes part in an event, as far as the receiving player can tell.
#[derive(Debug, Clone, PartialEq, Eq)]
pub enum Target {
    Foe(FoeId),
    Avatar(PlayerId),
    You,
    Player(PlayerId, String),
    DiscardedAvatar,
    Unknown,
}

/// A target with its player name as a sequence of characters.
pub ghost enum TargetView {
    Foe(FoeId),
    Avatar(PlayerId),
    You,
    Player(PlayerId, Seq<char>),
    DiscardedAvatar,
    Unknown,
}

impl View for Target {
    type V = TargetView;

    open spec fn view(&self) -> TargetView {
        match self {
            Target::Foe(f) => TargetView::Foe(*f),
            Target::Avatar(id) => TargetView::Avatar(*id),
            Target::You => TargetView::You,
            Target::Player(id, name) => TargetView::Player(*id, name@),
            Target::DiscardedAvatar => TargetView::DiscardedAvatar,
            Target::Unknown => TargetView::Unknown,
        }
    }
}

impl Target {
    /// A copy of the target.
    pub fn clone_target(&self) -> (r: Target)
        ensures
            r@ == self@,
    {
        match self {
            Target::Foe(f) => Target::Foe(*f),
            Target::Avatar(id) => Target::Avatar(*id),
            Target::You => Target::You,
            Target::Player(id, name) => Target::Player(*id, name.clone()),
            Target::DiscardedAvatar => Target::DiscardedAvatar,
            Target::Unknown => Target::Unknown,
        }
    }

    pub open spec fn spec_is_player(&self, pid: PlayerId) -> bool {
        match self {
            Target::Avatar(id) => pid == *id,
            Target::You => true,
            Target::Player(id, _) => pid == *id,
            _ => false,
        }
    }

    /// Whether both targets are the same.
    pub fn same(&self, other: &Target) -> (r: bool)
        ensures
            r == (self@ == other@),
    {
        match (self, other) {
            (Target::Foe(a), Target::Foe(b)) => *a == *b,
            (Target::Avatar(a), Target::Avatar(b)) => *a == *b,
            (Target::You, Target::You) => true,
            (Target::Player(a, n), Target::Player(b, m)) => *a == *b && n.eq(m),
            (Target::DiscardedAvatar, Target::DiscardedAvatar) => true,
            (Target::Unknown, Target::Unknown) => true,
            _ => false,
        }
    }

    pub fn is_player(&self, pid: PlayerId) -> (r: bool)
        ensures
            r == self.spec_is_player(pid),
    {
        match self {
            Target::Avatar(id) => pid == *id,
            Target::You => true,
            Target::Player(id, _) => pid == *id,
            _ => false,
        }
    }
}

#[derive(Debug, Clone, PartialEq, Eq)]
pub enum GameEvent {
    Attack { subject: Target, source: Target },
    /// When a player tried to attack but rollback made it impossible to
    Fumble(Target),
    Kill { subject: Target, source: Target },
    /// When a foe is killed by a death bound
    ParadoxDeath(FoeId),
    /// When a foe is teleported by a position bound
    ParadoxTeleport(FoeId),
    OrbSeen,
    OrbTaken(Target),
    AvatarFadedOut(Target),
}

pub ghost enum GameEventView {
    Attack { subject: TargetView, source: TargetView },
    Fumble(TargetView),
    Kill { subject: TargetView, source: TargetView },
    ParadoxDeath(FoeId),
    ParadoxTeleport(FoeId),
    OrbSeen,
    OrbTaken(TargetView),
    AvatarFadedOut(TargetView),
}

impl View for GameEvent {
    type V = GameEventView;

    open spec fn view(&self) -> GameEventView {
        match self {
            GameEvent::Attack { subject, source } => GameEventView::Attack { subject: subject@, source: source@ },
            GameEvent::Fumble(t) => GameEventView::Fumble(t@),
            GameEvent::Kill { subject, source } => GameEventView::Kill { subject: subject@, source: source@ },
            GameEvent::ParadoxDeath(f) => GameEventView::ParadoxDeath(*f),
            GameEvent::ParadoxTeleport(f) => GameEventView::ParadoxTeleport(*f),
            GameEvent::OrbSeen => GameEventView::OrbSeen,
            GameEvent::OrbTaken(t) => GameEventView::OrbTaken(t@),
            GameEvent::AvatarFadedOut(t) => GameEventView::AvatarFadedOut(t@),
        }
    }
}

impl GameEvent {
    /// A copy of the event.
    pub fn clone_event(&self) -> (r: GameEvent)
        ensures
            r@ == self@,
    {
        match self {
            GameEvent::Attack { subject, source } => GameEvent::Attack { subject: subject.clone_target(), source: source.clone_target() },
            GameEvent::Fumble(t) => GameEvent::Fumble(t.clone_target()),
            GameEvent::Kill { subject, source } => GameEvent::Kill { subject: subject.clone_target(), source: source.clone_target() },
            GameEvent::ParadoxDeath(f) => GameEvent::ParadoxDeath(*f),
            GameEvent::ParadoxTeleport(f) => GameEvent::ParadoxTeleport(*f),
            GameEvent::OrbSeen => GameEvent::OrbSeen,
            GameEvent::OrbTaken(t) => GameEvent::OrbTaken(t.clone_target()),
            GameEvent::AvatarFadedOut(t) => GameEvent::AvatarFadedOut(t.clone_target()),
        }
    }

    /// Whether both events are the same.
    pub fn same(&self, other: &GameEvent) -> (r: bool)
        ensures
            r == (self@ == other@),
    {
        match (self, other) {
            (GameEvent::Attack { subject: a, source: b }, GameEvent::Attack { subject: c, source: d }) => a.same(c) && b.same(d),
            (GameEvent::Fumble(a), GameEvent::Fumble(b)) => a.same(b),
            (GameEvent::Kill { subject: a, source: b }, GameEvent::Kill { subject: c, source: d }) => a.same(c) && b.same(d),
            (GameEvent::ParadoxDeath(a), GameEvent::ParadoxDeath(b)) => *a == *b,
            (GameEvent::ParadoxTeleport(a), GameEvent::ParadoxTeleport(b)) => *a == *b,
            (GameEvent::OrbSeen, GameEvent::OrbSeen) => true,
            (GameEvent::OrbTaken(a), GameEvent::OrbTaken(b)) => a.same(b),
            (GameEvent::AvatarFadedOut(a), GameEvent::AvatarFadedOut(b)) => a.same(b),
            _ => false,
        }
    }

    pub open spec fn spec_has_player(&self, pid: PlayerId) -> bool {
        match self {
            GameEvent::Attack { subject, source } => subject.spec_is_player(pid) || source.spec_is_player(pid),
            GameEvent::Fumble(target) => target.spec_is_player(pid),
            GameEvent::Kill { subject, source } => subject.spec_is_player(pid) || source.spec_is_player(pid),
            GameEvent::OrbTaken(target) => target.spec_is_player(pid),
            _ => false,
        }
    }

    /// Whether the player takes part in the event.
    pub fn has_player(&self, pid: PlayerId) -> (r: bool)
        ensures
            r == self.spec_has_player(pid),
    {
        match self {
            GameEvent::Attack { subject, source } => subject.is_player(pid) || source.is_player(pid),
            GameEvent::Fumble(target) => target.is_player(pid),
            GameEvent::Kill { subject, source } => subject.is_player(pid) || source.is_player(pid),
            GameEvent::OrbTaken(target) => target.is_player(pid),
            _ => false,
        }
    }
}

/// An event together with the senses that perceived it.
#[derive(Debug, Clone, PartialEq, Eq)]
pub struct GEvent {
    sources: Vec<SenseType>,
    event: GameEvent,
}

impl GEvent {
    pub closed spec fn spec_sources(&self) -> Seq<SenseType> {
        self.sources@
    }

    pub closed spec fn spec_event(&self) -> GameEventView {
        self.event@
    }

    pub fn new(sources: Vec<SenseType>, event: GameEvent) -> (r: GEvent)
        ensures
            r.spec_sources() == sources@,
            r.spec_event() == event@,
    {
        GEvent { sources, event }
    }

    /// A copy of the event.
    pub fn copy(&self) -> (r: GEvent)
        ensures
            r.spec_sources() == self.spec_sources(),
            r.spec_event() == self.spec_event(),
    {
        GEvent { sources: crate::maps::copy_vec(&self.sources), event: self.event.clone_event() }
    }

    /// Whether both events were perceived by the same senses and are the same.
    pub fn same(&self, other: &GEvent) -> (r: bool)
        ensures
            r == (self.spec_sources() == other.spec_sources() && self.spec_event() == other.spec_event()),
    {
        let n = self.sources.len();
        if n != other.sources.len() {
            return false;
        }
        let mut i: usize = 0;
        while i < n
            invariant
                n == self.sources@.len(),
                n == other.sources@.len(),
                i <= n,
                forall|j: int| 0 <= j < i ==> self.sources@[j] == other.sources@[j],
            decreases n - i,
        {
            if self.sources[i] != other.sources[i] {
                return false;
            }
            i = i + 1;
        }
        proof {
            assert(self.sources@ =~= other.sources@);
        }
        self.event.same(&other.event)
    }

    pub fn sources(&self) -> (r: &[SenseType])
        ensures
            r@ == self.spec_sources(),
    {
        self.sources.as_slice()
    }

    pub fn event(&self) -> (r: &GameEvent)
        ensures
            r@ == self.spec_event(),
    {
        &self.event
    }
}

} // verus!
