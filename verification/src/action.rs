//! What the actions of the players do to a stage.

use vstd::prelude::*;
use crate::events::{GameEvent, Target};
use crate::stage::{Stage, StageState};
use crate::stage_events::{EventSenses, EventSource, GameEventSource};
use crate::types::{
    Avatar, ClientAction, Direction, Foe, PlayerId, Position, ServerAction, same_avatar, spec_dist,
    spec_position_add,
};

verus! {

broadcast use {
    vstd::std_specs::btree::group_btree_axioms,
    vstd::laws_cmp::group_laws_cmp,
    vstd::std_specs::btree::axiom_key_obeys_cmp_spec_meaning,
};

/// The foe after one hit.
pub open spec fn spec_hit(f: Foe) -> Foe {
    match f {
        Foe::MindSnare(p) => Foe::MindSnare(p),
        Foe::Simple(p, hp) => Foe::Simple(p, if hp > 0 { (hp - 1) as u8 } else { 0 }),
    }
}

/// Whether the avatar can hit the foe at `index`: it exists, can be attacked,
/// and stands at most one tile away.
pub open spec fn spec_can_hit(avatar: Avatar, foes: Seq<Foe>, index: usize) -> bool {
    &&& index < foes.len()
    &&& foes[index as int].spec_can_be_attacked()
    &&& spec_dist(foes[index as int].spec_position(), avatar.position) <= 1
}

/// Everything about the avatar but its position is kept.
pub open spec fn moved_avatar(before: Avatar, after: Avatar, position: Position) -> bool {
    &&& after.position == position
    &&& after.player_id == before.player_id
    &&& after.hp == before.hp
    &&& after.focus == before.focus
    &&& after.tired == before.tired
    &&& after.turns == before.turns
    &&& after.transition == before.transition
    &&& after.logs == before.logs
}

/// Execute an action for an avatar
pub fn act(action: &ServerAction, avatar: &mut Avatar, state: &mut StageState)
    ensures
        match *action {
            ServerAction::Move(position) => moved_avatar(*old(avatar), *final(avatar), position)
                && final(state).foes@ == old(state).foes@ && final(state).events@ == old(state).events@,
            ServerAction::Attack(index) => moved_avatar(*old(avatar), *final(avatar), old(avatar).position)
                && final(state).foes@ == if spec_can_hit(*old(avatar), old(state).foes@, index) {
                    old(state).foes@.update(index as int, spec_hit(old(state).foes@[index as int]))
                } else {
                    old(state).foes@
                } && final(state).events@.len() == old(state).events@.len() + 1
                && forall|i: int| 0 <= i < old(state).events@.len() ==> #[trigger] final(state).events@[i] == old(state).events@[i],
            _ => moved_avatar(*old(avatar), *final(avatar), old(avatar).position)
                && final(state).foes@ == old(state).foes@ && final(state).events@ == old(state).events@,
        },
        final(state).turn == old(state).turn,
        final(state).orb == old(state).orb,
        final(state).avatars@ == old(state).avatars@,
{
    match action {
        ServerAction::Move(position) => act_move(avatar, *position),
        ServerAction::Attack(target_index) => act_attack(avatar, *target_index, state),
        ServerAction::Wait | ServerAction::Spawn => {},
    }
}

/// The avatar moves to `position`.
pub fn act_move(avatar: &mut Avatar, position: Position)
    ensures
        moved_avatar(*old(avatar), *final(avatar), position),
{
    avatar.position = position;
}

/// The avatar hits the foe at `target_index` when it can: an attack, or a kill
/// when the foe has no health left; otherwise it fumbles. Either way an event
/// is raised where it happened.
pub fn act_attack(avatar: &mut Avatar, target_index: usize, state: &mut StageState)
    ensures
        moved_avatar(*old(avatar), *final(avatar), old(avatar).position),
        final(state).foes@ == if spec_can_hit(*old(avatar), old(state).foes@, target_index) {
            old(state).foes@.update(target_index as int, spec_hit(old(state).foes@[target_index as int]))
        } else {
            old(state).foes@
        },
        final(state).events@.len() == old(state).events@.len() + 1,
        forall|i: int| 0 <= i < old(state).events@.len() ==> #[trigger] final(state).events@[i] == old(state).events@[i],
        ({
            let e = final(state).events@.last();
            if spec_can_hit(*old(avatar), old(state).foes@, target_index) {
                let f = spec_hit(old(state).foes@[target_index as int]);
                &&& e.source == EventSource::Position(f.spec_position())
                &&& e.senses == EventSenses::All
                &&& e.event@ == if f.spec_alive() {
                    GameEvent::Attack { subject: Target::Foe(f.spec_foe_id()), source: Target::Avatar(old(avatar).player_id) }@
                } else {
                    GameEvent::Kill { subject: Target::Foe(f.spec_foe_id()), source: Target::Avatar(old(avatar).player_id) }@
                }
            } else {
                &&& e.source == EventSource::Position(old(avatar).position)
                &&& e.senses == EventSenses::All
                &&& e.event@ == GameEvent::Fumble(Target::Avatar(old(avatar).player_id))@
            }
        }),
        final(state).turn == old(state).turn,
        final(state).orb == old(state).orb,
        final(state).avatars@ == old(state).avatars@,
{
    let can_hit = if target_index < state.foes.len() {
        let foe = state.foes[target_index];
        foe.can_be_attacked() && foe.position().dist(&avatar.position) <= 1
    } else {
        false
    };
    if can_hit {
        let foe = state.foes[target_index];
        let hit = match foe {
            Foe::MindSnare(p) => Foe::MindSnare(p),
            Foe::Simple(p, hp) => Foe::Simple(p, if hp > 0 { hp - 1 } else { 0 }),
        };
        state.foes.set(target_index, hit);
        let event = if hit.alive() {
            GameEvent::Attack { subject: Target::Foe(hit.foe_id()), source: Target::Avatar(avatar.player_id) }
        } else {
            GameEvent::Kill { subject: Target::Foe(hit.foe_id()), source: Target::Avatar(avatar.player_id) }
        };
        state.events.push(
            GameEventSource { senses: EventSenses::All, source: EventSource::Position(hit.position()), event },
        );
    } else {
        state.events.push(
            GameEventSource {
                senses: EventSenses::All,
                source: EventSource::Position(avatar.position),
                event: GameEvent::Fumble(Target::Avatar(avatar.player_id)),
            },
        );
    }
}

/// What a move or attack in `dir` becomes on the stage: an attack on a foe
/// that can be attacked in the next cell, a move when the next cell can be
/// travelled, nothing otherwise (also when the avatar is unknown).
pub open spec fn spec_move_or_attack(
    dir: Direction,
    position: Option<Position>,
    foes: Seq<Foe>,
    stage: Stage,
) -> Option<ServerAction> {
    match position {
        None => None,
        Some(p) => {
            let next = spec_position_add(p, dir.spec_offset());
            let first = first_foe_at(foes, next);
            if first < foes.len() && foes[first].spec_can_be_attacked() {
                Some(ServerAction::Attack(first as usize))
            } else if stage.template.tiles.spec_get(next).spec_can_travel() {
                Some(ServerAction::Move(next))
            } else {
                None
            }
        },
    }
}

/// Index of the first foe at `p`, or the number of foes when there is none.
pub open spec fn first_foe_at(foes: Seq<Foe>, p: Position) -> int
    decreases foes.len(),
{
    if foes.len() == 0 {
        0
    } else if first_foe_at(foes.drop_last(), p) < foes.len() - 1 {
        first_foe_at(foes.drop_last(), p)
    } else if foes.last().spec_position() == p {
        foes.len() - 1
    } else {
        foes.len() as int
    }
}

proof fn lemma_first_foe_at(foes: Seq<Foe>, p: Position, i: int)
    requires
        0 <= i <= foes.len(),
        forall|j: int| 0 <= j < i ==> #[trigger] foes[j].spec_position() != p,
        i < foes.len() ==> foes[i].spec_position() == p,
    ensures
        first_foe_at(foes, p) == i,
    decreases foes.len(),
{
    if foes.len() > 0 {
        let init = foes.drop_last();
        if i == foes.len() {
            lemma_first_foe_at(init, p, i - 1);
            if i - 1 < init.len() {
            } else {
                lemma_first_foe_at(init, p, init.len() as int);
            }
        } else if i == foes.len() - 1 {
            lemma_first_foe_at(init, p, init.len() as int);
        } else {
            lemma_first_foe_at(init, p, i);
        }
    }
}

/// The server action for a client action: a move or an attack when the way
/// allows it, waiting otherwise.
pub open spec fn spec_convert_client(action: ClientAction, stage: Stage, pid: PlayerId) -> ServerAction {
    match action {
        ClientAction::MoveOrAttack(dir) => {
            let t = stage.avatar_trackers@[pid].turn;
            let state = stage.spec_states()[t];
            let pos = if stage.avatar_trackers@.contains_key(pid) && state.avatars@.contains_key(pid) {
                Some(state.avatars@[pid].position)
            } else {
                None
            };
            match spec_move_or_attack(dir, pos, state.foes@, stage) {
                Some(a) => a,
                None => ServerAction::Wait,
            }
        },
        ClientAction::Wait => ServerAction::Wait,
        ClientAction::Spawn => ServerAction::Spawn,
    }
}

/// The server action for a client action.
pub fn convert_client(action: ClientAction, stage: &Stage, pid: PlayerId) -> (r: ServerAction)
    requires
        stage.wf(),
    ensures
        r == spec_convert_client(action, *stage, pid),
{
    match action {
        ClientAction::MoveOrAttack(direction) => match convert_move_or_attack_action(direction, stage, pid) {
            Some(a) => a,
            None => ServerAction::Wait,
        },
        ClientAction::Wait => ServerAction::Wait,
        ClientAction::Spawn => ServerAction::Spawn,
    }
}

fn convert_move_or_attack_action(dir: Direction, stage: &Stage, aid: PlayerId) -> (r: Option<ServerAction>)
    requires
        stage.wf(),
    ensures
        ({
            let t = stage.avatar_trackers@[aid].turn;
            let state = stage.spec_states()[t];
            let pos = if stage.avatar_trackers@.contains_key(aid) && state.avatars@.contains_key(aid) {
                Some(state.avatars@[aid].position)
            } else {
                None
            };
            r == spec_move_or_attack(dir, pos, state.foes@, *stage)
        }),
{
    let state = match stage.state_for(aid) {
        Some(s) => s,
        None => return None,
    };
    let avatar = match state.avatars.get(&aid) {
        Some(a) => a,
        None => return None,
    };
    let next_pos = avatar.position.offset_by(dir.offset());
    let found = state.find_foe(next_pos);
    proof {
        match found {
            Some((i, f)) => lemma_first_foe_at(state.foes@, next_pos, i as int),
            None => lemma_first_foe_at(state.foes@, next_pos, state.foes@.len() as int),
        }
    }
    if let Some((id, foe)) = found {
        if foe.can_be_attacked() {
            return Some(ServerAction::Attack(id));
        }
    }
    let tile = stage.template.tiles.get(next_pos);
    if tile.can_travel() {
        Some(ServerAction::Move(next_pos))
    } else {
        None
    }
}

} // verus!
