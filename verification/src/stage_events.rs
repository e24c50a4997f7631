//! Events raised on a stage, and what each player perceives of them.

use vstd::prelude::*;
use crate::events::{GEvent, GameEvent, GameEventView, Target, TargetView};
use crate::fov::{fov, fov_cells, radius_ok, view_shape, view_sound, world_of_view};
use crate::sense::{SenseStrength, SenseType, Senses};
use crate::stage::{Stage, StageState};
use crate::types::{PlayerId, Position, Tile, Tiles, spec_dist, spec_position_add, spec_position_diff, Offset};

verus! {

/// The senses that can perceive an event.
#[derive(Debug, Clone, Copy, PartialEq, Eq, Structural)]
pub enum EventSenses {
    All,
}

/// Where an event happens.
#[derive(Debug, Clone, Copy, PartialEq, Eq, Structural)]
pub enum EventSource {
    Position(Position),
}

/// An event raised on a stage.
#[derive(Debug)]
pub struct GameEventSource {
    /// Senses that can detect it
    pub senses: EventSenses,
    pub source: EventSource,
    pub event: GameEvent,
}

impl Clone for GameEventSource {
    fn clone(&self) -> (r: Self)
        ensures
            r.senses == self.senses,
            r.source == self.source,
            r.event@ == self.event@,
    {
        GameEventSource { senses: self.senses, source: self.source, event: self.event.clone_event() }
    }
}

pub open spec fn spec_all_senses() -> Seq<SenseType> {
    seq![SenseType::Touch, SenseType::Hearing, SenseType::Sight, SenseType::SelfSense]
}

impl EventSenses {
    pub open spec fn spec_slice(&self) -> Seq<SenseType> {
        match self {
            EventSenses::All => spec_all_senses(),
        }
    }

    /// The senses that can perceive the event, in the order they are tried.
    pub fn slice(&self) -> (r: Vec<SenseType>)
        ensures
            r@ == self.spec_slice(),
    {
        match self {
            EventSenses::All => {
                let r = vec![SenseType::Touch, SenseType::Hearing, SenseType::Sight, SenseType::SelfSense];
                assert(r@ == spec_all_senses());
                r
            },
        }
    }
}

/// The event source lies in the sight view (the offset from the source to the viewer is used).
pub open spec fn spec_is_seen(viewer: Position, source: EventSource, sight_tiles: Tiles) -> bool {
    match source {
        EventSource::Position(pos) => {
            let offset = spec_position_diff(viewer, pos);
            sight_tiles.spec_get(spec_position_add(sight_tiles.spec_center(), offset)) != Tile::Unknown
        },
    }
}

pub open spec fn spec_is_touched(avatar_pos: Position, source: EventSource) -> bool {
    match source {
        EventSource::Position(pos) => spec_dist(avatar_pos, pos) <= 1,
    }
}

pub open spec fn spec_is_heard(avatar_pos: Position, source: EventSource, strength: u8) -> bool {
    match source {
        EventSource::Position(pos) => spec_dist(avatar_pos, pos) <= strength,
    }
}

fn is_seen(viewer: Position, source: &EventSource, sight_tiles: &Tiles) -> (r: bool)
    ensures
        r == spec_is_seen(viewer, *source, *sight_tiles),
{
    match source {
        EventSource::Position(pos) => {
            let offset = viewer.diff(*pos);
            let view_pos = sight_tiles.center().offset_by(offset);
            sight_tiles.get(view_pos) != Tile::Unknown
        },
    }
}

/// Whether the source is at most one tile away.
pub fn is_touched(avatar_pos: Position, source: &EventSource) -> (r: bool)
    ensures
        r == spec_is_touched(avatar_pos, *source),
{
    match source {
        EventSource::Position(pos) => avatar_pos.dist(pos) <= 1,
    }
}

/// Whether the source is within hearing strength.
pub fn is_heard(avatar_pos: Position, source: &EventSource, hearing_strength: u8) -> (r: bool)
    ensures
        r == spec_is_heard(avatar_pos, *source, hearing_strength),
{
    match source {
        EventSource::Position(pos) => avatar_pos.dist(pos) <= hearing_strength as usize,
    }
}

/// The target as the player `pid` perceives it: itself as `You`, other avatars
/// by their player's name when sight is on, and nothing but `Unknown` without
/// sight.
pub open spec fn spec_transform_target(
    target: TargetView,
    pid: PlayerId,
    names: Map<PlayerId, Seq<char>>,
    sight_active: bool,
) -> TargetView {
    match target {
        TargetView::Foe(foe_type) => if sight_active {
            TargetView::Foe(foe_type)
        } else {
            TargetView::Unknown
        },
        TargetView::Avatar(id) => if id == pid {
            TargetView::You
        } else if !sight_active {
            TargetView::Unknown
        } else if names.contains_key(id) {
            TargetView::Player(id, names[id])
        } else {
            TargetView::DiscardedAvatar
        },
        _ => target,
    }
}

pub open spec fn spec_transform_event(
    event: GameEventView,
    pid: PlayerId,
    names: Map<PlayerId, Seq<char>>,
    sight_active: bool,
) -> GameEventView {
    let t = |x: TargetView| spec_transform_target(x, pid, names, sight_active);
    match event {
        GameEventView::Attack { subject, source } => GameEventView::Attack { subject: t(subject), source: t(source) },
        GameEventView::Fumble(target) => GameEventView::Fumble(t(target)),
        GameEventView::Kill { subject, source } => GameEventView::Kill { subject: t(subject), source: t(source) },
        GameEventView::OrbTaken(target) => GameEventView::OrbTaken(t(target)),
        GameEventView::AvatarFadedOut(target) => GameEventView::AvatarFadedOut(t(target)),
        _ => event,
    }
}

/// The names of the players that still play on the stage.
pub open spec fn player_names(stage: Stage) -> Map<PlayerId, Seq<char>> {
    Map::new(|id: PlayerId| stage.avatar_trackers@.contains_key(id), |id: PlayerId| stage.avatar_trackers@[id].player_name@)
}

fn transform_target(target: &Target, pid: PlayerId, stage: &Stage, sight_active: bool) -> (r: Target)
    ensures
        r@ == spec_transform_target(target@, pid, player_names(*stage), sight_active),
{
    match target {
        Target::Foe(foe_type) => if sight_active {
            Target::Foe(*foe_type)
        } else {
            Target::Unknown
        },
        Target::Avatar(id) => {
            if *id == pid {
                Target::You
            } else if !sight_active {
                Target::Unknown
            } else {
                match stage.avatar_trackers.get(id) {
                    Some(player) => Target::Player(*id, player.player_name.clone()),
                    None => Target::DiscardedAvatar,
                }
            }
        },
        _ => target.clone_target(),
    }
}

/// The event as the player `pid` perceives it.
pub fn transform_event_targets(event: &GameEvent, pid: PlayerId, stage: &Stage, sight_active: bool) -> (r: GameEvent)
    ensures
        r@ == spec_transform_event(event@, pid, player_names(*stage), sight_active),
{
    match event {
        GameEvent::Attack { subject, source } => GameEvent::Attack {
            subject: transform_target(subject, pid, stage, sight_active),
            source: transform_target(source, pid, stage, sight_active),
        },
        GameEvent::Fumble(target) => GameEvent::Fumble(transform_target(target, pid, stage, sight_active)),
        GameEvent::Kill { subject, source } => GameEvent::Kill {
            subject: transform_target(subject, pid, stage, sight_active),
            source: transform_target(source, pid, stage, sight_active),
        },
        GameEvent::ParadoxDeath(foe_type) => GameEvent::ParadoxDeath(*foe_type),
        GameEvent::ParadoxTeleport(foe_type) => GameEvent::ParadoxTeleport(*foe_type),
        GameEvent::OrbSeen => GameEvent::OrbSeen,
        GameEvent::OrbTaken(target) => GameEvent::OrbTaken(transform_target(target, pid, stage, sight_active)),
        GameEvent::AvatarFadedOut(target) => GameEvent::AvatarFadedOut(transform_target(target, pid, stage, sight_active)),
    }
}

/// Whether a sense perceives an event: a sense in use perceives every event
/// the player takes part in; otherwise sight perceives what lies in its view,
/// touch what lies at most a tile away, hearing what lies within its strength.
pub open spec fn spec_detects(
    stype: SenseType,
    senses: Senses,
    e: GameEventSource,
    pid: PlayerId,
    viewer: Position,
    sight_tiles: Tiles,
) -> bool {
    let mine = e.event.spec_has_player(pid);
    match stype {
        SenseType::SelfSense => senses.selfs && mine,
        SenseType::Sight => senses.sight.spec_get() != 0 && (mine || spec_is_seen(viewer, e.source, sight_tiles)),
        SenseType::Touch => senses.touch && (mine || spec_is_touched(viewer, e.source)),
        SenseType::Hearing => senses.hearing.spec_get() != 0 && (mine || spec_is_heard(viewer, e.source, senses.hearing.spec_get())),
    }
}

/// The senses, among those that can perceive the event, that do.
pub open spec fn spec_detected(
    e: GameEventSource,
    senses: Senses,
    pid: PlayerId,
    viewer: Position,
    sight_tiles: Tiles,
) -> Seq<SenseType> {
    e.senses.spec_slice().filter(|st: SenseType| spec_detects(st, senses, e, pid, viewer, sight_tiles))
}

/// What the player perceives of the first `n` events: each perceived event with
/// the senses that perceived it, in order.
pub open spec fn spec_perceived(
    events: Seq<GameEventSource>,
    n: nat,
    senses: Senses,
    pid: PlayerId,
    viewer: Position,
    sight_tiles: Tiles,
    names: Map<PlayerId, Seq<char>>,
) -> Seq<(Seq<SenseType>, GameEventView)>
    decreases n,
{
    if n == 0 {
        Seq::empty()
    } else {
        let prev = spec_perceived(events, (n - 1) as nat, senses, pid, viewer, sight_tiles, names);
        let e = events[n - 1];
        let detected = spec_detected(e, senses, pid, viewer, sight_tiles);
        if detected.len() == 0 {
            prev
        } else {
            prev.push((detected, spec_transform_event(e.event@, pid, names, senses.sight.spec_get() != 0)))
        }
    }
}

/// The events as `GEvent` views: senses and event.
pub open spec fn gevent_views(v: Seq<GEvent>) -> Seq<(Seq<SenseType>, GameEventView)> {
    v.map_values(|g: GEvent| (g.spec_sources(), g.spec_event()))
}

fn detected_senses(
    e: &GameEventSource,
    senses: &Senses,
    pid: PlayerId,
    viewer: Position,
    sight_tiles: &Tiles,
) -> (r: Vec<SenseType>)
    ensures
        r@ == spec_detected(*e, *senses, pid, viewer, *sight_tiles),
{
    let mine = e.event.has_player(pid);
    let slice = e.senses.slice();
    let mut r: Vec<SenseType> = Vec::new();
    let n = slice.len();
    let mut i: usize = 0;
    let ghost pred = |st: SenseType| spec_detects(st, *senses, *e, pid, viewer, *sight_tiles);
    while i < n
        invariant
            n == slice@.len(),
            i <= n,
            slice@ == e.senses.spec_slice(),
            mine == e.event.spec_has_player(pid),
            pred == (|st: SenseType| spec_detects(st, *senses, *e, pid, viewer, *sight_tiles)),
            r@ == slice@.take(i as int).filter(pred),
        decreases n - i,
    {
        let stype = slice[i];
        let detected = match stype {
            SenseType::SelfSense => senses.selfs.is_active() && mine,
            SenseType::Sight => senses.sight.is_active() && (mine || is_seen(viewer, &e.source, sight_tiles)),
            SenseType::Touch => senses.touch.is_active() && (mine || is_touched(viewer, &e.source)),
            SenseType::Hearing => senses.hearing.is_active() && (mine || is_heard(viewer, &e.source, senses.hearing.get())),
        };
        proof {
            assert(slice@.take(i + 1) =~= slice@.take(i as int).push(stype));
            slice@.take(i as int).lemma_filter_push(stype, pred);
        }
        if detected {
            r.push(stype);
        }
        i = i + 1;
    }
    proof {
        assert(slice@.take(n as int) =~= slice@);
    }
    r
}

/// What the player perceives of the events of a state, given the view its
/// sight gives.
pub fn gather_events_in_view(
    senses: &Senses,
    stage: &Stage,
    state: &StageState,
    pid: PlayerId,
    viewer: Position,
    sight_tiles: &Tiles,
) -> (r: Vec<GEvent>)
    ensures
        gevent_views(r@) == spec_perceived(
            state.events@,
            state.events@.len(),
            *senses,
            pid,
            viewer,
            *sight_tiles,
            player_names(*stage),
        ),
{
    let mut detected_events: Vec<GEvent> = Vec::new();
    let n = state.events.len();
    let mut i: usize = 0;
    while i < n
        invariant
            n == state.events@.len(),
            i <= n,
            gevent_views(detected_events@) == spec_perceived(
                state.events@,
                i as nat,
                *senses,
                pid,
                viewer,
                *sight_tiles,
                player_names(*stage),
            ),
        decreases n - i,
    {
        let event = &state.events[i];
        let detected = detected_senses(event, senses, pid, viewer, sight_tiles);
        if detected.len() > 0 {
            let transformed = transform_event_targets(&event.event, pid, stage, senses.sight.is_active());
            let g = GEvent::new(detected, transformed);
            let ghost before = detected_events@;
            detected_events.push(g);
            proof {
                assert(gevent_views(detected_events@) =~= gevent_views(before).push((g.spec_sources(), g.spec_event())));
            }
        }
        i = i + 1;
    }
    detected_events
}

/// `r` is what the player `pid` perceives with `senses` of the events of
/// `state` on `stage`: its sight view is the field of view of its sight
/// strength around its avatar.
pub open spec fn perceives_events(r: Seq<GEvent>, senses: Senses, stage: Stage, state: StageState, pid: PlayerId) -> bool {
    exists|view: Tiles| #[trigger] gevent_views(r) == spec_perceived(
            state.events@,
            state.events@.len(),
            senses,
            pid,
            state.avatars@[pid].position,
            view,
            player_names(stage),
        ) && (senses.sight.spec_get() != 0 ==> view_sound(view, state.avatars@[pid].position, senses.sight.spec_get() as usize, stage.template.tiles))
            && forall|p: Position| #[trigger] view.spec_get(p) == if fov_cells(state.avatars@[pid].position,
                senses.sight.spec_get() as usize, stage.template.tiles).contains(p) {
                stage.template.tiles.spec_get(world_of_view(state.avatars@[pid].position, senses.sight.spec_get() as usize, p))
            } else {
                Tile::Unknown
            }
}

/// What the player perceives of the events of a state. Its sight view is the
/// field of view of its sight strength around its avatar.
pub fn gather_events(senses: &Senses, stage: &Stage, state: &StageState, pid: PlayerId) -> (r: Vec<GEvent>)
    requires
        state.avatars@.contains_key(pid),
    ensures
        perceives_events(r@, *senses, *stage, *state, pid),
{
    let avatar = match state.avatars.get(&pid) {
        Some(a) => a,
        None => {
            proof {
                assert(false);
            }
            return Vec::new();
        },
    };
    let sight = senses.sight.get();
    let sight_tiles = if sight > 0 {
        proof {
            assert((2 * sight + 1) * (2 * sight + 1) <= 441) by (nonlinear_arith)
                requires
                    sight <= 10,
            ;
        }
        fov(avatar.position, sight as usize, &stage.template.tiles)
    } else {
        proof {
            assert(fov_cells(avatar.position, 0, stage.template.tiles) =~= Set::<Position>::empty());
        }
        Tiles::new(0, 0)
    };
    gather_events_in_view(senses, stage, state, pid, avatar.position, &sight_tiles)
}

} // verus!
