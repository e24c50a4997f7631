//! Sense bounds: what a player has witnessed binds the earlier states of the
//! stage, so that a rollback cannot contradict it.

use vstd::prelude::*;
use std::collections::BTreeMap;
use crate::events::GameEvent;
use crate::sense::{SelfInfo, SightInfo, SightedFoe};
use crate::stage::StageState;
use crate::stage_events::{EventSenses, EventSource, GameEventSource};
use crate::maps::{map_keys, pair_keys, player_keys, increasing_pairs, increasing_u32};
use crate::types::{Avatar, Foe, Offset, PlayerId, Position, StageTurn, spec_position_add};

verus! {

broadcast use {
    vstd::std_specs::btree::group_btree_axioms,
    vstd::laws_cmp::group_laws_cmp,
    vstd::std_specs::btree::axiom_key_obeys_cmp_spec_meaning,
};

/// The avatar's health has been witnessed at this turn.
#[derive(Debug, Clone, Copy, PartialEq, Eq, Structural)]
pub struct MaxHpBound {
    pub value: u8,
    pub turn: StageTurn,
    pub source: PlayerId,
}

/// The foe has been witnessed as dead at this turn.
#[derive(Debug, Clone, Copy, PartialEq, Eq, Structural)]
pub struct DeathBound {
    pub turn: StageTurn,
    pub source: PlayerId,
}

/// The foe has been witnessed at a position at this turn.
#[derive(Debug, Clone, Copy, PartialEq, Eq, Structural)]
pub struct PositionBound {
    pub value: Position,
    pub turn: StageTurn,
    pub source: PlayerId,
}

impl MaxHpBound {
    /// At the bound's turn, the avatar has at least the witnessed health.
    pub fn enforce(&self, turn: StageTurn, avatar: &mut Avatar)
        ensures
            final(avatar).hp == if turn == self.turn && old(avatar).hp < self.value {
                self.value
            } else {
                old(avatar).hp
            },
            final(avatar).player_id == old(avatar).player_id,
            final(avatar).position == old(avatar).position,
            final(avatar).focus == old(avatar).focus,
            final(avatar).tired == old(avatar).tired,
            final(avatar).turns == old(avatar).turns,
            final(avatar).transition == old(avatar).transition,
            final(avatar).logs == old(avatar).logs,
    {
        if turn == self.turn {
            if avatar.hp < self.value {
                avatar.hp = self.value;
            }
        }
    }
}

/// The foe with no health left.
pub open spec fn spec_killed(f: Foe) -> Foe {
    match f {
        Foe::MindSnare(p) => Foe::MindSnare(p),
        Foe::Simple(p, _) => Foe::Simple(p, 0),
    }
}

impl DeathBound {
    /// At the bound's turn a living foe loses all its health; tells whether it did.
    pub fn enforce(&self, turn: StageTurn, foe: &mut Foe) -> (r: bool)
        ensures
            r == (turn == self.turn && old(foe).spec_alive()),
            *final(foe) == if r {
                spec_killed(*old(foe))
            } else {
                *old(foe)
            },
    {
        if turn == self.turn && foe.alive() {
            match foe {
                Foe::MindSnare(_) => {},
                Foe::Simple(_, hp) => *hp = 0,
            }
            true
        } else {
            false
        }
    }
}

impl PositionBound {
    /// At the bound's turn the foe stands at the witnessed position; tells
    /// whether it had to be moved there.
    pub fn enforce(&self, turn: StageTurn, foe: &mut Foe) -> (r: bool)
        ensures
            r == (turn == self.turn && old(foe).spec_position() != self.value),
            *final(foe) == if r {
                old(foe).spec_moved_to(self.value)
            } else {
                *old(foe)
            },
    {
        if turn == self.turn && foe.position() != self.value {
            foe.move_to(self.value);
            true
        } else {
            false
        }
    }
}

/// Bounds witnessed by the players of a stage.
#[derive(Debug, Clone)]
pub struct SenseBounds {
    pub avatars: BTreeMap<PlayerId, MaxHpBound>,
    /// By index of the foe in the stage.
    pub death_bounds: BTreeMap<usize, DeathBound>,
    /// By index of the foe in the stage, then by witness.
    pub position_bounds: BTreeMap<(usize, PlayerId), PositionBound>,
}

/// The keys of a map whose values are left as they are or are dropped.
pub open spec fn dropped_where<K, V>(before: Map<K, V>, after: Map<K, V>, drop: spec_fn(V) -> bool) -> bool {
    &&& forall|k: K| #[trigger] after.contains_key(k) <==> before.contains_key(k) && !drop(before[k])
    &&& forall|k: K| #[trigger] after.contains_key(k) ==> after[k] == before[k]
}

/// Among the first `n` foes of a sight, the last one seen alive with the id
/// `id`.
pub open spec fn last_seen_alive(foes: Seq<SightedFoe>, id: usize, n: nat) -> Option<int>
    decreases n,
{
    if n == 0 {
        None
    } else if foes[n - 1].alive && foes[n - 1].id == id {
        Some(n - 1)
    } else {
        last_seen_alive(foes, id, (n - 1) as nat)
    }
}

/// The bound that sight of a living foe at `offset` from `avatar` puts on it:
/// the tile where it was seen, at the turn it was seen, witnessed by the
/// avatar's player.
pub open spec fn seen_bound(avatar: Avatar, turn: StageTurn, offset: Offset) -> PositionBound {
    PositionBound { value: spec_position_add(avatar.position, offset), turn, source: avatar.player_id }
}

impl SenseBounds {
    pub fn new() -> (r: SenseBounds)
        ensures
            r.avatars@ == Map::<PlayerId, MaxHpBound>::empty(),
            r.death_bounds@ == Map::<usize, DeathBound>::empty(),
            r.position_bounds@ == Map::<(usize, PlayerId), PositionBound>::empty(),
    {
        SenseBounds { avatars: BTreeMap::new(), death_bounds: BTreeMap::new(), position_bounds: BTreeMap::new() }
    }

    /// The health witnessed by the player binds its avatar at this turn.
    pub fn add_self_bounds(&mut self, pid: PlayerId, turn: StageTurn, avatar_id: PlayerId, selfi: &SelfInfo)
        ensures
            final(self).avatars@ == old(self).avatars@.insert(avatar_id, MaxHpBound { value: selfi.hp, turn, source: pid }),
            final(self).death_bounds@ == old(self).death_bounds@,
            final(self).position_bounds@ == old(self).position_bounds@,
    {
        self.avatars.insert(avatar_id, MaxHpBound { value: selfi.hp, turn, source: pid });
    }

    /// What the avatar saw binds the foes: a dead foe is dead from the earliest
    /// turn it was seen dead, a living one stands where it was seen.
    pub fn add_sight_bounds(&mut self, avatar: &Avatar, turn: StageTurn, sight: &SightInfo)
        ensures
            forall|k: usize| #[trigger] final(self).death_bounds@.contains_key(k) <==> old(self).death_bounds@.contains_key(k)
                || (exists|i: int| 0 <= i < sight.foes@.len() && !sight.foes@[i].alive && sight.foes@[i].id == k),
            forall|k: usize| #[trigger] final(self).death_bounds@.contains_key(k) ==> final(self).death_bounds@[k].turn <= turn
                || (old(self).death_bounds@.contains_key(k) && final(self).death_bounds@[k] == old(self).death_bounds@[k]),
            forall|k: usize| old(self).death_bounds@.contains_key(k) ==> #[trigger] final(self).death_bounds@[k].turn <= old(self).death_bounds@[k].turn,
            forall|k: (usize, PlayerId)| #[trigger] final(self).position_bounds@.contains_key(k) <==> old(self).position_bounds@.contains_key(k)
                || (k.1 == avatar.player_id && exists|i: int| 0 <= i < sight.foes@.len() && sight.foes@[i].alive && sight.foes@[i].id == k.0),
            forall|k: (usize, PlayerId)| #[trigger] final(self).position_bounds@.contains_key(k) && !old(self).position_bounds@.contains_key(k)
                ==> final(self).position_bounds@[k].turn == turn && final(self).position_bounds@[k].source == avatar.player_id,
            forall|k: (usize, PlayerId)| #[trigger] final(self).position_bounds@.contains_key(k) ==> match last_seen_alive(sight.foes@, k.0, sight.foes@.len()) {
                Some(j) => k.1 == avatar.player_id ==> final(self).position_bounds@[k] == seen_bound(*avatar, turn, sight.foes@[j].offset),
                None => true,
            },
            forall|k: (usize, PlayerId)| #[trigger] final(self).position_bounds@.contains_key(k)
                && (k.1 != avatar.player_id || last_seen_alive(sight.foes@, k.0, sight.foes@.len()) is None)
                ==> final(self).position_bounds@[k] == old(self).position_bounds@[k],
            final(self).avatars@ == old(self).avatars@,
    {
        let player_id = avatar.player_id;
        let n = sight.foes.len();
        let mut i: usize = 0;
        while i < n
            invariant
                n == sight.foes@.len(),
                i <= n,
                player_id == avatar.player_id,
                self.avatars@ == old(self).avatars@,
                forall|k: usize| #[trigger] self.death_bounds@.contains_key(k) <==> old(self).death_bounds@.contains_key(k)
                    || (exists|j: int| 0 <= j < i && !sight.foes@[j].alive && sight.foes@[j].id == k),
                forall|k: usize| #[trigger] self.death_bounds@.contains_key(k) ==> self.death_bounds@[k].turn <= turn
                    || (old(self).death_bounds@.contains_key(k) && self.death_bounds@[k] == old(self).death_bounds@[k]),
                forall|k: usize| old(self).death_bounds@.contains_key(k) ==> #[trigger] self.death_bounds@[k].turn <= old(self).death_bounds@[k].turn,
                forall|k: (usize, PlayerId)| #[trigger] self.position_bounds@.contains_key(k) <==> old(self).position_bounds@.contains_key(k)
                    || (k.1 == avatar.player_id && exists|j: int| 0 <= j < i && sight.foes@[j].alive && sight.foes@[j].id == k.0),
                forall|k: (usize, PlayerId)| #[trigger] self.position_bounds@.contains_key(k) && !old(self).position_bounds@.contains_key(k)
                    ==> self.position_bounds@[k].turn == turn && self.position_bounds@[k].source == avatar.player_id,
                forall|k: (usize, PlayerId)| #[trigger] self.position_bounds@.contains_key(k) ==> match last_seen_alive(sight.foes@, k.0, i as nat) {
                    Some(j) => k.1 == avatar.player_id ==> self.position_bounds@[k] == seen_bound(*avatar, turn, sight.foes@[j].offset),
                    None => true,
                },
                forall|k: (usize, PlayerId)| #[trigger] self.position_bounds@.contains_key(k)
                    && (k.1 != avatar.player_id || last_seen_alive(sight.foes@, k.0, i as nat) is None)
                    ==> self.position_bounds@[k] == old(self).position_bounds@[k],
            decreases n - i,
        {
            let foe = sight.foes[i];
            if !foe.alive {
                match self.death_bounds.get(&foe.id) {
                    None => {
                        self.death_bounds.insert(foe.id, DeathBound { turn, source: player_id });
                    },
                    Some(existing) => {
                        let existing = *existing;
                        let t = if existing.turn < turn {
                            existing.turn
                        } else {
                            turn
                        };
                        self.death_bounds.insert(foe.id, DeathBound { turn: t, source: existing.source });
                    },
                }
            } else {
                let value = avatar.position.offset_by(foe.offset);
                self.position_bounds.insert((foe.id, player_id), PositionBound { value, turn, source: player_id });
            }
            proof {
                assert forall|k: usize| #[trigger] self.death_bounds@.contains_key(k) <==> old(self).death_bounds@.contains_key(k)
                    || (exists|j: int| 0 <= j < i + 1 && !sight.foes@[j].alive && sight.foes@[j].id == k) by {
                    if exists|j: int| 0 <= j < i + 1 && !sight.foes@[j].alive && sight.foes@[j].id == k {
                        let j = choose|j: int| 0 <= j < i + 1 && !sight.foes@[j].alive && sight.foes@[j].id == k;
                        if j < i {
                        }
                    }
                }
                assert forall|k: (usize, PlayerId)| #[trigger] self.position_bounds@.contains_key(k) <==> old(self).position_bounds@.contains_key(k)
                    || (k.1 == avatar.player_id && exists|j: int| 0 <= j < i + 1 && sight.foes@[j].alive && sight.foes@[j].id == k.0) by {
                    if k.1 == avatar.player_id && exists|j: int| 0 <= j < i + 1 && sight.foes@[j].alive && sight.foes@[j].id == k.0 {
                        let j = choose|j: int| 0 <= j < i + 1 && sight.foes@[j].alive && sight.foes@[j].id == k.0;
                        if j < i {
                        }
                    }
                }
            }
            i = i + 1;
        }
    }

    /// Drops every bound that the player witnessed.
    pub fn release(&mut self, pid: PlayerId)
        ensures
            dropped_where(old(self).avatars@, final(self).avatars@, |b: MaxHpBound| b.source == pid),
            dropped_where(old(self).death_bounds@, final(self).death_bounds@, |b: DeathBound| b.source == pid),
            dropped_where(old(self).position_bounds@, final(self).position_bounds@, |b: PositionBound| b.source == pid),
    {
        release_hp_bounds(&mut self.avatars, pid);
        release_death_bounds(&mut self.death_bounds, pid);
        release_position_bounds(&mut self.position_bounds, pid);
    }
}


/// The avatar of `pid` once its witnessed health is restored at `turn`.
pub open spec fn spec_hp_enforced_at(a: Avatar, pid: PlayerId, hp_bounds: Map<PlayerId, MaxHpBound>, turn: u64) -> Avatar {
    if hp_bounds.contains_key(pid) && hp_bounds[pid].turn == turn && a.hp < hp_bounds[pid].value {
        Avatar { hp: hp_bounds[pid].value, ..a }
    } else {
        a
    }
}

/// The avatars once their witnessed health is restored at `turn`.
pub open spec fn spec_hp_enforced(avatars: Map<PlayerId, Avatar>, hp_bounds: Map<PlayerId, MaxHpBound>, turn: u64) -> Map<PlayerId, Avatar> {
    Map::new(|pid: PlayerId| avatars.contains_key(pid), |pid: PlayerId| spec_hp_enforced_at(avatars[pid], pid, hp_bounds, turn))
}

/// The event of a foe that a bound changed.
pub open spec fn paradox_event(p: Position, event: GameEvent) -> GameEventSource {
    GameEventSource { senses: EventSenses::All, source: EventSource::Position(p), event }
}

/// The foes once the first `n` of them that were witnessed dead at `turn` are
/// dead, with one event for each foe that died so.
pub open spec fn spec_deaths(foes: Seq<Foe>, dbounds: Map<usize, DeathBound>, turn: u64, n: nat) -> (Seq<Foe>, Seq<GameEventSource>)
    decreases n,
{
    if n == 0 {
        (foes, Seq::empty())
    } else {
        let (fs, evs) = spec_deaths(foes, dbounds, turn, (n - 1) as nat);
        let i = (n - 1) as int;
        if i < fs.len() && dbounds.contains_key(i as usize) && dbounds[i as usize].turn == turn && fs[i].spec_alive() {
            (fs.update(i, spec_killed(fs[i])), evs.push(paradox_event(fs[i].spec_position(), GameEvent::ParadoxDeath(fs[i].spec_foe_id()))))
        } else {
            (fs, evs)
        }
    }
}

/// The foes once the first `n` bounds of `ks` (keys of position bounds) put
/// the foes where they were witnessed at `turn`, with one event for each foe
/// that had to be moved.
pub open spec fn spec_teleports(
    foes: Seq<Foe>,
    pbounds: Map<(usize, PlayerId), PositionBound>,
    turn: u64,
    ks: Seq<(usize, PlayerId)>,
    n: nat,
) -> (Seq<Foe>, Seq<GameEventSource>)
    decreases n,
{
    if n == 0 {
        (foes, Seq::empty())
    } else {
        let (fs, evs) = spec_teleports(foes, pbounds, turn, ks, (n - 1) as nat);
        let k = ks[n - 1];
        let b = pbounds[k];
        let i = k.0 as int;
        if i < fs.len() && b.turn == turn && fs[i].spec_position() != b.value {
            let moved = fs[i].spec_moved_to(b.value);
            (fs.update(i, moved), evs.push(paradox_event(b.value, GameEvent::ParadoxTeleport(moved.spec_foe_id()))))
        } else {
            (fs, evs)
        }
    }
}

/// `after` is `before` once the bounds are enforced: the witnessed health
/// restored, the foes seen dead killed, then the foes seen somewhere put
/// there, in the order of the keys of their bounds, with the paradox events.
pub open spec fn enforced(b: SenseBounds, before: StageState, after: StageState) -> bool {
    &&& after.turn == before.turn
    &&& after.orb == before.orb
    &&& after.avatars@ == spec_hp_enforced(before.avatars@, b.avatars@, before.turn)
    &&& ({
        let (fs1, ev1) = spec_deaths(before.foes@, b.death_bounds@, before.turn, before.foes@.len());
        exists|ks: Seq<(usize, PlayerId)>| {
            &&& #[trigger] ks.to_set() == b.position_bounds@.dom()
            &&& increasing_pairs(ks)
            &&& after.foes@ == spec_teleports(fs1, b.position_bounds@, before.turn, ks, ks.len()).0
            &&& after.events@ == before.events@ + ev1 + spec_teleports(fs1, b.position_bounds@, before.turn, ks, ks.len()).1
        }
    })
}

/// The state agrees with what the players witnessed at its turn: an avatar
/// seen with some health has at least that health; a foe seen dead, other
/// than a trap, is dead; a foe seen somewhere stands where one of its
/// witnesses saw it at that turn.
pub open spec fn agrees_with_witnesses(b: SenseBounds, s: StageState) -> bool {
    &&& forall|pid: PlayerId| #[trigger] s.avatars@.contains_key(pid) && b.avatars@.contains_key(pid)
        && b.avatars@[pid].turn == s.turn ==> s.avatars@[pid].hp >= b.avatars@[pid].value
    &&& forall|i: int| 0 <= i < s.foes@.len() && b.death_bounds@.contains_key(i as usize)
        && b.death_bounds@[i as usize].turn == s.turn && (#[trigger] s.foes@[i]) is Simple ==> !s.foes@[i].spec_alive()
    &&& forall|k: (usize, PlayerId)| #[trigger] b.position_bounds@.contains_key(k) && b.position_bounds@[k].turn == s.turn
        && (k.0 as int) < s.foes@.len() ==> exists|w: (usize, PlayerId)| #[trigger] b.position_bounds@.contains_key(w)
            && w.0 == k.0 && b.position_bounds@[w].turn == s.turn
            && s.foes@[k.0 as int].spec_position() == b.position_bounds@[w].value
}

proof fn lemma_teleports_frame(
    fs: Seq<Foe>,
    pb: Map<(usize, PlayerId), PositionBound>,
    turn: u64,
    ks: Seq<(usize, PlayerId)>,
    n: nat,
)
    requires
        n <= ks.len(),
    ensures
        spec_teleports(fs, pb, turn, ks, n).0.len() == fs.len(),
        forall|i: int| 0 <= i < fs.len() ==> (#[trigger] spec_teleports(fs, pb, turn, ks, n).0[i]).spec_alive() == fs[i].spec_alive()
            && (spec_teleports(fs, pb, turn, ks, n).0[i] is Simple) == (fs[i] is Simple),
        forall|j: int| 0 <= j < n && (ks[j].0 as int) < fs.len() && pb[#[trigger] ks[j]].turn == turn ==> exists|m: int|
            0 <= m < n && ks[m].0 == ks[j].0 && pb[ks[m]].turn == turn
            && spec_teleports(fs, pb, turn, ks, n).0[ks[j].0 as int].spec_position() == pb[ks[m]].value,
    decreases n,
{
    if n > 0 {
        lemma_teleports_frame(fs, pb, turn, ks, (n - 1) as nat);
        let (prev, _) = spec_teleports(fs, pb, turn, ks, (n - 1) as nat);
        let k = ks[n - 1];
        let b = pb[k];
        let i = k.0 as int;
        let cur = spec_teleports(fs, pb, turn, ks, n).0;
        if i < prev.len() && b.turn == turn && prev[i].spec_position() != b.value {
            crate::types::lemma_moved_foe(prev[i], b.value);
        }
        assert forall|j: int| 0 <= j < n && (ks[j].0 as int) < fs.len() && pb[#[trigger] ks[j]].turn == turn implies exists|m: int|
            0 <= m < n && ks[m].0 == ks[j].0 && pb[ks[m]].turn == turn
            && cur[ks[j].0 as int].spec_position() == pb[ks[m]].value by {
            if ks[j].0 as int == i && b.turn == turn {
                assert(cur[i].spec_position() == b.value);
                assert(ks[(n - 1) as int] == k);
            } else if j < n - 1 {
                let m = choose|m: int| 0 <= m < n - 1 && ks[m].0 == ks[j].0 && pb[ks[m]].turn == turn
                    && prev[ks[j].0 as int].spec_position() == pb[ks[m]].value;
                assert(cur[ks[j].0 as int] == prev[ks[j].0 as int]);
            } else {
                assert(ks[j] == k);
            }
        }
    }
}

/// Enforcing the bounds makes a state agree with what was witnessed at its
/// turn, whatever the state held before.
pub proof fn lemma_enforced_agrees(b: SenseBounds, before: StageState, after: StageState)
    requires
        enforced(b, before, after),
    ensures
        agrees_with_witnesses(b, after),
        after.foes@.len() == before.foes@.len(),
{
    let (fs1, ev1) = spec_deaths(before.foes@, b.death_bounds@, before.turn, before.foes@.len());
    let ks = choose|ks: Seq<(usize, PlayerId)>| {
        &&& #[trigger] ks.to_set() == b.position_bounds@.dom()
        &&& increasing_pairs(ks)
        &&& after.foes@ == spec_teleports(fs1, b.position_bounds@, before.turn, ks, ks.len()).0
        &&& after.events@ == before.events@ + ev1 + spec_teleports(fs1, b.position_bounds@, before.turn, ks, ks.len()).1
    };
    lemma_deaths_frame(before.foes@, b.death_bounds@, before.turn, before.foes@.len());
    lemma_teleports_frame(fs1, b.position_bounds@, before.turn, ks, ks.len());
    assert forall|pid: PlayerId| #[trigger] after.avatars@.contains_key(pid) && b.avatars@.contains_key(pid)
        && b.avatars@[pid].turn == after.turn implies after.avatars@[pid].hp >= b.avatars@[pid].value by {
        lemma_witnessed_hp_restored(before.avatars@, b.avatars@, before.turn, pid);
    }
    assert forall|i: int| 0 <= i < after.foes@.len() && b.death_bounds@.contains_key(i as usize)
        && b.death_bounds@[i as usize].turn == after.turn && (#[trigger] after.foes@[i]) is Simple implies !after.foes@[i].spec_alive() by {
        assert(fs1[i] is Simple);
        assert(before.foes@[i] is Simple);
    }
    assert forall|k: (usize, PlayerId)| #[trigger] b.position_bounds@.contains_key(k) && b.position_bounds@[k].turn == after.turn
        && (k.0 as int) < after.foes@.len() implies exists|w: (usize, PlayerId)| #[trigger] b.position_bounds@.contains_key(w)
            && w.0 == k.0 && b.position_bounds@[w].turn == after.turn
            && after.foes@[k.0 as int].spec_position() == b.position_bounds@[w].value by {
        assert(ks.to_set().contains(k));
        let j = choose|j: int| 0 <= j < ks.len() && ks[j] == k;
        assert(b.position_bounds@[ks[j]].turn == before.turn);
        let m = choose|m: int| 0 <= m < ks.len() && ks[m].0 == ks[j].0 && b.position_bounds@[ks[m]].turn == before.turn
            && after.foes@[ks[j].0 as int].spec_position() == b.position_bounds@[ks[m]].value;
        assert(ks.to_set().contains(ks[m]));
    }
}

/// A foe seen alive is replayed where it was seen: when the bound that a
/// sight left on a foe is its only position bound at the turn of the sighting,
/// enforcing the bounds on a state of that turn puts the foe at the sighted
/// offset from the avatar that saw it.
pub proof fn lemma_seen_foe_is_replayed_where_seen(
    b: SenseBounds,
    before: StageState,
    after: StageState,
    avatar: Avatar,
    sight: SightInfo,
    id: usize,
    j: int,
)
    requires
        enforced(b, before, after),
        0 <= j < sight.foes@.len(),
        sight.foes@[j].alive,
        sight.foes@[j].id == id,
        (id as int) < before.foes@.len(),
        b.position_bounds@.contains_key((id, avatar.player_id)),
        b.position_bounds@[(id, avatar.player_id)] == seen_bound(avatar, before.turn, sight.foes@[j].offset),
        forall|w: (usize, PlayerId)| #[trigger] b.position_bounds@.contains_key(w) && w.0 == id
            && b.position_bounds@[w].turn == before.turn ==> w == (id, avatar.player_id),
    ensures
        after.foes@[id as int].spec_position() == spec_position_add(avatar.position, sight.foes@[j].offset),
{
    lemma_enforced_agrees(b, before, after);
    let k = (id, avatar.player_id);
    assert(b.position_bounds@.contains_key(k) && b.position_bounds@[k].turn == after.turn && (k.0 as int) < after.foes@.len());
}

impl SenseBounds {
    /// Makes the state agree with what was witnessed at its turn: avatars get
    /// back the health they were seen with, foes seen dead die, foes seen
    /// somewhere are put there, in the order of their keys; each foe that had
    /// to change raises a paradox event.
    pub fn enforce(&self, state: &mut StageState)
        ensures
            enforced(*self, *old(state), *final(state)),
            final(state).turn == old(state).turn,
            final(state).orb == old(state).orb,
            final(state).avatars@ == spec_hp_enforced(old(state).avatars@, self.avatars@, old(state).turn),
            ({
                let (fs1, ev1) = spec_deaths(old(state).foes@, self.death_bounds@, old(state).turn, old(state).foes@.len());
                exists|ks: Seq<(usize, PlayerId)>| {
                    &&& #[trigger] ks.to_set() == self.position_bounds@.dom()
                    &&& increasing_pairs(ks)
                    &&& final(state).foes@ == spec_teleports(fs1, self.position_bounds@, old(state).turn, ks, ks.len()).0
                    &&& final(state).events@ == old(state).events@ + ev1
                        + spec_teleports(fs1, self.position_bounds@, old(state).turn, ks, ks.len()).1
                }
            }),
    {
        let turn = state.turn;
        // Enforce avatar HP bounds
        let pids = player_keys(&self.avatars);
        let n = pids.len();
        let mut j: usize = 0;
        while j < n
            invariant
                n == pids@.len(),
                j <= n,
                pids@.to_set() == self.avatars@.dom(),
                increasing_u32(pids@),
                turn == old(state).turn,
                state.turn == old(state).turn,
                state.orb == old(state).orb,
                state.foes@ == old(state).foes@,
                state.events@ == old(state).events@,
                forall|pid: PlayerId| #[trigger] state.avatars@.contains_key(pid) == old(state).avatars@.contains_key(pid),
                forall|pid: PlayerId| #[trigger] state.avatars@.contains_key(pid) ==> state.avatars@[pid] == if exists|i: int| 0 <= i < j && pids@[i] == pid {
                    spec_hp_enforced_at(old(state).avatars@[pid], pid, self.avatars@, turn)
                } else {
                    old(state).avatars@[pid]
                },
            decreases n - j,
        {
            let pid = pids[j];
            proof {
                assert(pids@.to_set().contains(pid));
                assert forall|i: int| 0 <= i < j implies pids@[i] != pid by {}
            }
            if let Some(bound) = self.avatars.get(&pid) {
                if let Some(mut avatar) = state.avatars.remove(&pid) {
                    bound.enforce(turn, &mut avatar);
                    state.avatars.insert(pid, avatar);
                }
            }
            proof {
                assert forall|q: PlayerId| #[trigger] state.avatars@.contains_key(q) implies state.avatars@[q] == if exists|i: int| 0 <= i < j + 1 && pids@[i] == q {
                    spec_hp_enforced_at(old(state).avatars@[q], q, self.avatars@, turn)
                } else {
                    old(state).avatars@[q]
                } by {
                    if q == pid {
                        assert(pids@[j as int] == q);
                    } else if exists|i: int| 0 <= i < j + 1 && pids@[i] == q {
                        let i = choose|i: int| 0 <= i < j + 1 && pids@[i] == q;
                        assert(i != j);
                    }
                }
            }
            j = j + 1;
        }
        proof {
            assert forall|pid: PlayerId| #[trigger] state.avatars@.contains_key(pid) implies state.avatars@[pid]
                == spec_hp_enforced_at(old(state).avatars@[pid], pid, self.avatars@, turn) by {
                if self.avatars@.contains_key(pid) {
                    assert(pids@.to_set().contains(pid));
                }
            }
            assert(state.avatars@ =~= spec_hp_enforced(old(state).avatars@, self.avatars@, turn));
        }
        // Enforce foe death bounds
        let ghost evs0 = state.events@;
        let nf = state.foes.len();
        let mut i: usize = 0;
        while i < nf
            invariant
                nf == old(state).foes@.len(),
                i <= nf,
                turn == old(state).turn,
                state.turn == old(state).turn,
                state.orb == old(state).orb,
                evs0 == old(state).events@,
                state.avatars@ == spec_hp_enforced(old(state).avatars@, self.avatars@, turn),
                state.foes@ == spec_deaths(old(state).foes@, self.death_bounds@, turn, i as nat).0,
                state.events@ == evs0 + spec_deaths(old(state).foes@, self.death_bounds@, turn, i as nat).1,
                spec_deaths(old(state).foes@, self.death_bounds@, turn, i as nat).0.len() == nf,
            decreases nf - i,
        {
            if let Some(death_bound) = self.death_bounds.get(&i) {
                let mut foe = state.foes[i];
                if death_bound.enforce(turn, &mut foe) {
                    state.foes.set(i, foe);
                    state.events.push(GameEventSource {
                        senses: EventSenses::All,
                        source: EventSource::Position(foe.position()),
                        event: GameEvent::ParadoxDeath(foe.foe_id()),
                    });
                }
            }
            proof {
                let (fs, evs) = spec_deaths(old(state).foes@, self.death_bounds@, turn, i as nat);
                assert(spec_deaths(old(state).foes@, self.death_bounds@, turn, (i + 1) as nat)
                    == if self.death_bounds@.contains_key(i) && self.death_bounds@[i].turn == turn && fs[i as int].spec_alive() {
                        (fs.update(i as int, spec_killed(fs[i as int])), evs.push(paradox_event(fs[i as int].spec_position(), GameEvent::ParadoxDeath(fs[i as int].spec_foe_id()))))
                    } else {
                        (fs, evs)
                    });
                assert(state.events@ =~= evs0 + spec_deaths(old(state).foes@, self.death_bounds@, turn, (i + 1) as nat).1);
            }
            i = i + 1;
        }
        // Enforce foe position bounds
        let ghost evs1 = state.events@;
        let ghost fs1 = state.foes@;
        let keys = pair_keys(&self.position_bounds);
        let nk = keys.len();
        let mut k: usize = 0;
        while k < nk
            invariant
                nk == keys@.len(),
                k <= nk,
                keys@.to_set() == self.position_bounds@.dom(),
                turn == old(state).turn,
                state.turn == old(state).turn,
                state.orb == old(state).orb,
                state.avatars@ == spec_hp_enforced(old(state).avatars@, self.avatars@, turn),
                state.foes@ == spec_teleports(fs1, self.position_bounds@, turn, keys@, k as nat).0,
                state.events@ == evs1 + spec_teleports(fs1, self.position_bounds@, turn, keys@, k as nat).1,
                spec_teleports(fs1, self.position_bounds@, turn, keys@, k as nat).0.len() == fs1.len(),
            decreases nk - k,
        {
            let key = keys[k];
            proof {
                assert(keys@.to_set().contains(key));
            }
            if let Some(position_bound) = self.position_bounds.get(&key) {
                let fi = key.0;
                if fi < state.foes.len() {
                    let mut foe = state.foes[fi];
                    if position_bound.enforce(turn, &mut foe) {
                        state.foes.set(fi, foe);
                        state.events.push(GameEventSource {
                            senses: EventSenses::All,
                            source: EventSource::Position(foe.position()),
                            event: GameEvent::ParadoxTeleport(foe.foe_id()),
                        });
                    }
                }
            }
            proof {
                let (fs, evs) = spec_teleports(fs1, self.position_bounds@, turn, keys@, k as nat);
                let b = self.position_bounds@[key];
                if (key.0 as int) < fs.len() && b.turn == turn && fs[key.0 as int].spec_position() != b.value {
                    crate::types::lemma_moved_foe(fs[key.0 as int], b.value);
                }
                assert(state.events@ =~= evs1 + spec_teleports(fs1, self.position_bounds@, turn, keys@, (k + 1) as nat).1);
            }
            k = k + 1;
        }
        proof {
            assert(state.events@ =~= old(state).events@ + spec_deaths(old(state).foes@, self.death_bounds@, turn, nf as nat).1
                + spec_teleports(fs1, self.position_bounds@, turn, keys@, keys@.len()).1);
        }
    }
}

fn release_hp_bounds(m: &mut BTreeMap<PlayerId, MaxHpBound>, pid: PlayerId)
    ensures
        dropped_where(old(m)@, final(m)@, |b: MaxHpBound| b.source == pid),
{
    let keys = map_keys(m);
    let n = keys.len();
    let mut i: usize = 0;
    while i < n
        invariant
            n == keys@.len(),
            i <= n,
            keys@.to_set() == old(m)@.dom(),
            keys@.no_duplicates(),
            forall|k: PlayerId| #[trigger] m@.contains_key(k) <==> old(m)@.contains_key(k)
                && !(old(m)@[k].source == pid && exists|j: int| 0 <= j < i && keys@[j] == k),
            forall|k: PlayerId| #[trigger] m@.contains_key(k) ==> m@[k] == old(m)@[k],
        decreases n - i,
    {
        let k = keys[i];
        proof {
            assert(keys@.contains(k));
            assert(old(m)@.contains_key(k));
            assert(forall|j: int| 0 <= j < i ==> keys@[j] != k);
        }
        let drop = match m.get(&k) {
            Some(b) => b.source == pid,
            None => false,
        };
        if drop {
            m.remove(&k);
        }
        proof {
            assert forall|q: PlayerId| #[trigger] m@.contains_key(q) <==> old(m)@.contains_key(q)
                && !(old(m)@[q].source == pid && exists|j: int| 0 <= j < i + 1 && keys@[j] == q) by {
                if q == k {
                    assert(keys@[i as int] == q);
                } else if exists|j: int| 0 <= j < i + 1 && keys@[j] == q {
                    let j = choose|j: int| 0 <= j < i + 1 && keys@[j] == q;
                    assert(j != i);
                }
            }
        }
        i = i + 1;
    }
    proof {
        assert forall|k: PlayerId| #[trigger] m@.contains_key(k) <==> old(m)@.contains_key(k) && !(old(m)@[k].source == pid) by {
            if old(m)@.contains_key(k) {
                assert(keys@.to_set().contains(k));
                let j = choose|j: int| 0 <= j < keys@.len() && keys@[j] == k;
            }
        }
    }
}

fn release_death_bounds(m: &mut BTreeMap<usize, DeathBound>, pid: PlayerId)
    ensures
        dropped_where(old(m)@, final(m)@, |b: DeathBound| b.source == pid),
{
    let keys = map_keys(m);
    let n = keys.len();
    let mut i: usize = 0;
    while i < n
        invariant
            n == keys@.len(),
            i <= n,
            keys@.to_set() == old(m)@.dom(),
            keys@.no_duplicates(),
            forall|k: usize| #[trigger] m@.contains_key(k) <==> old(m)@.contains_key(k)
                && !(old(m)@[k].source == pid && exists|j: int| 0 <= j < i && keys@[j] == k),
            forall|k: usize| #[trigger] m@.contains_key(k) ==> m@[k] == old(m)@[k],
        decreases n - i,
    {
        let k = keys[i];
        proof {
            assert(keys@.contains(k));
            assert(old(m)@.contains_key(k));
            assert(forall|j: int| 0 <= j < i ==> keys@[j] != k);
        }
        let drop = match m.get(&k) {
            Some(b) => b.source == pid,
            None => false,
        };
        if drop {
            m.remove(&k);
        }
        proof {
            assert forall|q: usize| #[trigger] m@.contains_key(q) <==> old(m)@.contains_key(q)
                && !(old(m)@[q].source == pid && exists|j: int| 0 <= j < i + 1 && keys@[j] == q) by {
                if q == k {
                    assert(keys@[i as int] == q);
                } else if exists|j: int| 0 <= j < i + 1 && keys@[j] == q {
                    let j = choose|j: int| 0 <= j < i + 1 && keys@[j] == q;
                    assert(j != i);
                }
            }
        }
        i = i + 1;
    }
    proof {
        assert forall|k: usize| #[trigger] m@.contains_key(k) <==> old(m)@.contains_key(k) && !(old(m)@[k].source == pid) by {
            if old(m)@.contains_key(k) {
                assert(keys@.to_set().contains(k));
                let j = choose|j: int| 0 <= j < keys@.len() && keys@[j] == k;
            }
        }
    }
}

fn release_position_bounds(m: &mut BTreeMap<(usize, PlayerId), PositionBound>, pid: PlayerId)
    ensures
        dropped_where(old(m)@, final(m)@, |b: PositionBound| b.source == pid),
{
    let keys = map_keys(m);
    let n = keys.len();
    let mut i: usize = 0;
    while i < n
        invariant
            n == keys@.len(),
            i <= n,
            keys@.to_set() == old(m)@.dom(),
            keys@.no_duplicates(),
            forall|k: (usize, PlayerId)| #[trigger] m@.contains_key(k) <==> old(m)@.contains_key(k)
                && !(old(m)@[k].source == pid && exists|j: int| 0 <= j < i && keys@[j] == k),
            forall|k: (usize, PlayerId)| #[trigger] m@.contains_key(k) ==> m@[k] == old(m)@[k],
        decreases n - i,
    {
        let k = keys[i];
        proof {
            assert(keys@.contains(k));
            assert(old(m)@.contains_key(k));
            assert(forall|j: int| 0 <= j < i ==> keys@[j] != k);
        }
        let drop = match m.get(&k) {
            Some(b) => b.source == pid,
            None => false,
        };
        if drop {
            m.remove(&k);
        }
        proof {
            assert forall|q: (usize, PlayerId)| #[trigger] m@.contains_key(q) <==> old(m)@.contains_key(q)
                && !(old(m)@[q].source == pid && exists|j: int| 0 <= j < i + 1 && keys@[j] == q) by {
                if q == k {
                    assert(keys@[i as int] == q);
                } else if exists|j: int| 0 <= j < i + 1 && keys@[j] == q {
                    let j = choose|j: int| 0 <= j < i + 1 && keys@[j] == q;
                    assert(j != i);
                }
            }
        }
        i = i + 1;
    }
    proof {
        assert forall|k: (usize, PlayerId)| #[trigger] m@.contains_key(k) <==> old(m)@.contains_key(k) && !(old(m)@[k].source == pid) by {
            if old(m)@.contains_key(k) {
                assert(keys@.to_set().contains(k));
                let j = choose|j: int| 0 <= j < keys@.len() && keys@[j] == k;
            }
        }
    }
}

/// What a player saw of its health binds the state at that turn: once the
/// bounds are enforced, an avatar bound at the state's turn has at least the
/// witnessed health, and an avatar has never less health than before.
pub proof fn lemma_witnessed_hp_restored(avatars: Map<PlayerId, Avatar>, hp_bounds: Map<PlayerId, MaxHpBound>, turn: u64, pid: PlayerId)
    requires
        avatars.contains_key(pid),
    ensures
        spec_hp_enforced(avatars, hp_bounds, turn).contains_key(pid),
        spec_hp_enforced(avatars, hp_bounds, turn)[pid].hp >= avatars[pid].hp,
        hp_bounds.contains_key(pid) && hp_bounds[pid].turn == turn
            ==> spec_hp_enforced(avatars, hp_bounds, turn)[pid].hp >= hp_bounds[pid].value,
        spec_hp_enforced(avatars, hp_bounds, turn)[pid].position == avatars[pid].position,
{
}

/// A foe (other than a trap, which cannot die) witnessed dead at the state's
/// turn is dead once the death bounds are enforced.
pub proof fn lemma_witnessed_death_enforced(foes: Seq<Foe>, dbounds: Map<usize, DeathBound>, turn: u64, i: int)
    requires
        0 <= i < foes.len(),
        foes[i] is Simple,
        dbounds.contains_key(i as usize),
        dbounds[i as usize].turn == turn,
    ensures
        !spec_deaths(foes, dbounds, turn, foes.len()).0[i].spec_alive(),
        spec_deaths(foes, dbounds, turn, foes.len()).0.len() == foes.len(),
{
    lemma_deaths_frame(foes, dbounds, turn, foes.len());
}

proof fn lemma_deaths_frame(foes: Seq<Foe>, dbounds: Map<usize, DeathBound>, turn: u64, n: nat)
    requires
        n <= foes.len(),
    ensures
        spec_deaths(foes, dbounds, turn, n).0.len() == foes.len(),
        forall|k: int| n <= k < foes.len() ==> #[trigger] spec_deaths(foes, dbounds, turn, n).0[k] == foes[k],
        forall|k: int| 0 <= k < n && dbounds.contains_key(k as usize) && dbounds[k as usize].turn == turn && foes[k] is Simple
            ==> !(#[trigger] spec_deaths(foes, dbounds, turn, n).0[k]).spec_alive(),
        forall|k: int| 0 <= k < n ==> (#[trigger] spec_deaths(foes, dbounds, turn, n).0[k] is Simple) == (foes[k] is Simple),
    decreases n,
{
    if n > 0 {
        lemma_deaths_frame(foes, dbounds, turn, (n - 1) as nat);
    }
}

} // verus!
