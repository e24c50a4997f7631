//! What the senses of an avatar gather from a stage state.

use vstd::prelude::*;
use crate::fov::{fov, fov_cells, in_view, neighbour_cell, open_around, shows_truth, view_shape, view_sound, world_of_view};
use crate::maps::{player_keys, increasing_u32};
use crate::sense::{
    HearingInfo, HearingRange, SelfInfo, SenseStrength, Senses, SensesInfo, SightInfo, SightedAlly,
    SightedAllyStatus, SightedFoe, TouchInfo, spec_hearing_dist,
};
use crate::stage::{Stage, StageState};
use crate::types::{
    Avatar, Foe, Offset, PlayerId, Position, ServerAction, Tile, Tiles, HP_MAX, spec_dist, spec_position_diff,
    spec_position_add,
};

verus! {

broadcast use {
    vstd::std_specs::btree::group_btree_axioms,
    vstd::laws_cmp::group_laws_cmp,
    vstd::std_specs::btree::axiom_key_obeys_cmp_spec_meaning,
};

/// The offset that leads from `from` to `to`.
pub open spec fn spec_offset_between(to: Position, from: Position) -> Offset {
    spec_position_diff(to, from)
}

/// Whether the view shows something at `offset` from its centre.
pub open spec fn spec_in_sight(view: Tiles, offset: Offset) -> bool {
    view.spec_get(spec_position_add(view.spec_center(), offset)) != Tile::Unknown
}

/// The smallest hearing strength, up to `strength`, whose range reaches `dist`.
pub open spec fn spec_hearing_range(strength: int, dist: int) -> Option<u8>
    decreases strength,
{
    if strength <= 0 {
        None
    } else {
        match spec_hearing_range(strength - 1, dist) {
            Some(s) => Some(s),
            None => if dist <= spec_hearing_dist(strength).unwrap() {
                Some(strength as u8)
            } else {
                None
            },
        }
    }
}

proof fn lemma_hearing_range_stable(a: int, b: int, dist: int)
    requires
        1 <= a <= b,
        spec_hearing_range(a, dist) is Some,
    ensures
        spec_hearing_range(b, dist) == spec_hearing_range(a, dist),
    decreases b - a,
{
    if a < b {
        lemma_hearing_range_stable(a, b - 1, dist);
    }
}

/// Hearing perceives how far the orb is: the weakest hearing, up to the
/// avatar's, that reaches the orb. The distance is taken modulo 256.
pub fn gather_hearing(strength: u8, avatar: &Avatar, state: &StageState) -> (r: HearingInfo)
    requires
        strength <= 5,
    ensures
        match r.range {
            Some(h) => spec_hearing_range(strength as int, (spec_dist(avatar.position, state.orb.position) % 256) as int) == Some(h.spec_get()),
            None => spec_hearing_range(strength as int, (spec_dist(avatar.position, state.orb.position) % 256) as int) is None,
        },
{
    let d = avatar.position.dist(&state.orb.position);
    let dist = (d % 256) as u8;
    let mut s: u8 = 1;
    while s <= strength
        invariant
            1 <= s <= strength + 1,
            strength <= 5,
            dist == d % 256,
            d == spec_dist(avatar.position, state.orb.position),
            spec_hearing_range((s - 1) as int, dist as int) is None,
        decreases strength + 1 - s,
    {
        if let Some(range) = HearingInfo::dist(s) {
            if dist <= range {
                proof {
                    assert(spec_hearing_range(s as int, dist as int) == Some(s));
                    lemma_hearing_range_stable(s as int, strength as int, dist as int);
                }
                let level = HearingRange::new(s);
                return HearingInfo { range: level };
            }
        }
        s = s + 1;
    }
    HearingInfo { range: None }
}

/// What the self sense tells.
pub open spec fn gather_self_spec(avatar: &Avatar, tail_state: &StageState) -> SelfInfo {
    let base = if tail_state.avatars@.contains_key(avatar.player_id) {
        tail_state.avatars@[avatar.player_id].hp
    } else {
        HP_MAX
    };
    SelfInfo { hp: avatar.hp, hp_max: if base >= avatar.hp { base } else { avatar.hp }, focus: avatar.focus, turn: avatar.turns }
}

/// Self sense: health, focus and turn of the avatar. Its maximum health is
/// what it had at the tail of the stage (or the game's maximum when it was not
/// there yet), and no less than what it has now.
pub fn gather_self(avatar: &Avatar, tail_state: &StageState) -> (r: SelfInfo)
    ensures
        r == gather_self_spec(avatar, tail_state),
        r.hp == avatar.hp,
        r.focus == avatar.focus,
        r.turn == avatar.turns,
        ({
            let base = if tail_state.avatars@.contains_key(avatar.player_id) {
                tail_state.avatars@[avatar.player_id].hp
            } else {
                HP_MAX
            };
            r.hp_max == if base >= avatar.hp {
                base
            } else {
                avatar.hp
            }
        }),
{
    let hp_max = match tail_state.avatars.get(&avatar.player_id) {
        Some(a) => a.hp,
        None => HP_MAX,
    };
    let hp_max = if hp_max >= avatar.hp {
        hp_max
    } else {
        avatar.hp
    };
    SelfInfo { focus: avatar.focus, hp: avatar.hp, hp_max, turn: avatar.turns }
}

/// Living foes at most one tile away, traps apart.
pub open spec fn spec_touched_foes(foes: Seq<Foe>, pos: Position, n: nat) -> Seq<Offset>
    decreases n,
{
    if n == 0 {
        Seq::empty()
    } else {
        let prev = spec_touched_foes(foes, pos, (n - 1) as nat);
        let f = foes[n - 1];
        if f.spec_alive() && spec_dist(f.spec_position(), pos) <= 1 && !(f is MindSnare) {
            prev.push(spec_offset_between(f.spec_position(), pos))
        } else {
            prev
        }
    }
}

/// Living traps at most one tile away.
pub open spec fn spec_touched_traps(foes: Seq<Foe>, pos: Position, n: nat) -> nat
    decreases n,
{
    if n == 0 {
        0
    } else {
        let f = foes[n - 1];
        spec_touched_traps(foes, pos, (n - 1) as nat) + if f.spec_alive() && spec_dist(f.spec_position(), pos) <= 1 && f is MindSnare {
            1nat
        } else {
            0
        }
    }
}

/// A count of traps as a byte, which stops at its largest value.
pub open spec fn spec_trap_count(n: nat) -> u8 {
    if n >= 255 {
        255
    } else {
        n as u8
    }
}

/// Touch: the tiles around the avatar, the foes next to it, the number of
/// traps next to it, and whether the orb is next to it.
/// What touch feels of the tiles: the field of view of radius one around
/// `pos`, which shows the map's tile in each of the eight cells around it.
pub open spec fn touch_view(view: Tiles, pos: Position, tiles: Tiles) -> bool {
    &&& forall|p: Position| #[trigger] view.spec_get(p) == if fov_cells(pos, 1, tiles).contains(p) {
        tiles.spec_get(world_of_view(pos, 1, p))
    } else {
        Tile::Unknown
    }
    &&& forall|dx: int, dy: int| -1 <= dx <= 1 && -1 <= dy <= 1 && (dx != 0 || dy != 0)
        ==> #[trigger] shows_truth(view, pos, 1, tiles, neighbour_cell(1, dx, dy))
}

/// Touch feels the map around the avatar: in the view it gathers, the cell
/// of each of the eight neighbouring tiles holds that tile of the map.
pub proof fn lemma_touch_feels_around(
    info: SensesInfo,
    senses: Senses,
    avatar: Avatar,
    stage: Stage,
    state: StageState,
    tail_state: StageState,
    dx: int,
    dy: int,
)
    requires
        senses_gathered(info, senses, avatar, stage, state, tail_state),
        senses.touch,
        -1 <= dx <= 1,
        -1 <= dy <= 1,
        dx != 0 || dy != 0,
    ensures
        info.touch matches Some(ti) && ti.tiles.spec_get(Position { x: (1 + dx) as usize, y: (1 + dy) as usize })
            == stage.template.tiles.spec_get(spec_position_add(avatar.position, Offset { x: dx as isize, y: dy as isize })),
{
    let ti = info.touch.unwrap();
    assert(shows_truth(ti.tiles, avatar.position, 1, stage.template.tiles, neighbour_cell(1, dx, dy)));
}

pub fn gather_touch(avatar: &Avatar, stage: &Stage, state: &StageState) -> (r: TouchInfo)
    ensures
        view_shape(r.tiles, 1),
        view_sound(r.tiles, avatar.position, 1, stage.template.tiles),
        touch_view(r.tiles, avatar.position, stage.template.tiles),
        r.foes@ == spec_touched_foes(state.foes@, avatar.position, state.foes@.len()),
        r.traps == spec_trap_count(spec_touched_traps(state.foes@, avatar.position, state.foes@.len())),
        r.orb == (spec_dist(state.orb.position, avatar.position) <= 1),
{
    proof {
        assert((2 * 1 + 1) * (2 * 1 + 1) <= usize::MAX) by (nonlinear_arith);
        assert(crate::fov::radius_ok(1));
    }
    let tiles = fov(avatar.position, 1, &stage.template.tiles);
    let mut foes: Vec<Offset> = Vec::new();
    let mut traps: u8 = 0;
    let n = state.foes.len();
    let mut i: usize = 0;
    while i < n
        invariant
            n == state.foes@.len(),
            i <= n,
            foes@ == spec_touched_foes(state.foes@, avatar.position, i as nat),
            traps == spec_trap_count(spec_touched_traps(state.foes@, avatar.position, i as nat)),
        decreases n - i,
    {
        let foe = state.foes[i];
        if foe.alive() && foe.position().dist(&avatar.position) <= 1 {
            if foe.is_trap() {
                traps = traps.saturating_add(1);
            } else {
                foes.push(foe.position().diff(avatar.position));
            }
        }
        i = i + 1;
    }
    TouchInfo { tiles, foes, traps, orb: state.orb.position.dist(&avatar.position) <= 1 }
}

/// The foes that sight reveals among the first `n`: traps stay hidden, the
/// others show when the view shows their tile.
pub open spec fn spec_sighted_foes(foes: Seq<Foe>, viewer: Position, view: Tiles, n: nat) -> Seq<SightedFoe>
    decreases n,
{
    if n == 0 {
        Seq::empty()
    } else {
        let prev = spec_sighted_foes(foes, viewer, view, (n - 1) as nat);
        let f = foes[n - 1];
        let off = spec_offset_between(f.spec_position(), viewer);
        if !(f is MindSnare) && spec_in_sight(view, off) {
            prev.push(SightedFoe { id: (n - 1) as usize, offset: off, foe_type: f.spec_foe_id(), alive: f.spec_alive() })
        } else {
            prev
        }
    }
}

/// Among the first `n` players of `ks`, those whose avatar the view shows.
pub open spec fn spec_sighted_ids(ks: Seq<PlayerId>, avatars: Map<PlayerId, Avatar>, viewer: Position, view: Tiles, n: nat) -> Seq<PlayerId>
    decreases n,
{
    if n == 0 {
        Seq::empty()
    } else {
        let prev = spec_sighted_ids(ks, avatars, viewer, view, (n - 1) as nat);
        let pid = ks[n - 1];
        if spec_in_sight(view, spec_offset_between(avatars[pid].position, viewer)) {
            prev.push(pid)
        } else {
            prev
        }
    }
}

/// Where the ally `pid` is known to move after `turn`, from the viewer: the
/// move it commanded for the next turn, when that turn is on the timeline.
pub open spec fn spec_next_move(stage: Stage, turn: u64, pid: PlayerId, viewer: Position) -> Option<Offset> {
    if turn < stage.head_turn {
        let d = stage.diffs@[turn + 1 - stage.spec_tail_turn()];
        if d.cmd_by_avatar@.contains_key(pid) {
            match d.cmd_by_avatar@[pid].action {
                ServerAction::Move(p) => Some(spec_position_diff(p, viewer)),
                _ => None,
            }
        } else {
            None
        }
    } else {
        None
    }
}

/// What sight tells of the ally `pid`.
pub open spec fn sighted_ally_is(a: SightedAlly, pid: PlayerId, viewer: Avatar, stage: Stage, state: StageState) -> bool {
    &&& a.offset == spec_offset_between(state.avatars@[pid].position, viewer.position)
    &&& a.alive == !viewer.spec_is_dead()
    &&& a.next_move == spec_next_move(stage, state.turn, pid, viewer.position)
    &&& if stage.avatar_trackers@.contains_key(pid) {
        let t = stage.avatar_trackers@[pid];
        &&& a.name matches Some(n) && n@ == t.player_name@
        &&& a.status matches SightedAllyStatus::Controlled { turn, name } && turn == t.turn && name@ == t.player_name@
    } else {
        a.name is None && a.status is Discarded
    }
}

/// What sight of strength `strength` gives from `avatar`: its field of view,
/// a square view centred on it that shows the map's tile on the cells that
/// the shadowcasting reaches and nothing elsewhere (so the eight tiles around
/// the avatar, and every tile when nothing opaque stands within reach); the
/// foes that are not traps, the orb and the avatars that stand on tiles it
/// shows.
pub open spec fn sight_gathered(r: SightInfo, strength: u8, avatar: Avatar, stage: Stage, state: StageState) -> bool {
    &&& forall|p: Position| #[trigger] r.tiles.spec_get(p) == if fov_cells(avatar.position, strength as usize, stage.template.tiles).contains(p) {
        stage.template.tiles.spec_get(world_of_view(avatar.position, strength as usize, p))
    } else {
        Tile::Unknown
    }
    &&& view_shape(r.tiles, strength as usize)
    &&& view_sound(r.tiles, avatar.position, strength as usize, stage.template.tiles)
    &&& strength >= 1 ==> forall|dx: int, dy: int|
        -1 <= dx <= 1 && -1 <= dy <= 1 && (dx != 0 || dy != 0) ==> #[trigger] shows_truth(
            r.tiles,
            avatar.position,
            strength as usize,
            stage.template.tiles,
            neighbour_cell(strength as usize, dx, dy),
        )
    &&& open_around(avatar.position, strength as usize, stage.template.tiles) ==> forall|p: Position|
        in_view(strength as usize, p) && p != (Position { x: strength as usize, y: strength as usize })
        ==> #[trigger] shows_truth(r.tiles, avatar.position, strength as usize, stage.template.tiles, p)
    &&& r.foes@ == spec_sighted_foes(state.foes@, avatar.position, r.tiles, state.foes@.len())
    &&& r.orb == if spec_in_sight(r.tiles, spec_offset_between(state.orb.position, avatar.position)) {
        Some(spec_offset_between(state.orb.position, avatar.position))
    } else {
        None
    }
    &&& exists|ks: Seq<PlayerId>| {
        &&& #[trigger] ks.to_set() == state.avatars@.dom()
        &&& crate::maps::increasing_u32(ks)
        &&& r.allies@.len() == spec_sighted_ids(ks, state.avatars@, avatar.position, r.tiles, ks.len()).len()
        &&& forall|j: int| 0 <= j < r.allies@.len() ==> sighted_ally_is(#[trigger] r.allies@[j],
            spec_sighted_ids(ks, state.avatars@, avatar.position, r.tiles, ks.len())[j], avatar, stage, state)
    }
}

/// Sight: the tiles in view, and the foes, orb and avatars that stand on them.
pub fn gather_sight(strength: u8, avatar: &Avatar, stage: &Stage, state: &StageState) -> (r: SightInfo)
    requires
        strength <= 10,
        stage.wf(),
        stage.spec_tail_turn() <= state.turn <= stage.head_turn,
    ensures
        sight_gathered(r, strength, *avatar, *stage, *state),
{
    proof {
        assert((2 * 10 + 1) * (2 * 10 + 1) <= usize::MAX) by (nonlinear_arith);
        assert((2 * (strength as usize) + 1) * (2 * (strength as usize) + 1) <= (2 * 10 + 1) * (2 * 10 + 1)) by (nonlinear_arith)
            requires strength <= 10;
    }
    let tiles = fov(avatar.position, strength as usize, &stage.template.tiles);
    let center = tiles.center();
    let mut foes: Vec<SightedFoe> = Vec::new();
    let n = state.foes.len();
    let mut i: usize = 0;
    while i < n
        invariant
            n == state.foes@.len(),
            i <= n,
            center == tiles.spec_center(),
            foes@ == spec_sighted_foes(state.foes@, avatar.position, tiles, i as nat),
        decreases n - i,
    {
        let foe = state.foes[i];
        if !foe.is_trap() {
            let offset = foe.position().diff(avatar.position);
            let fov_position = center.offset_by(offset);
            if tiles.get(fov_position) != Tile::Unknown {
                foes.push(SightedFoe { id: i, offset, foe_type: foe.foe_id(), alive: foe.alive() });
            }
        }
        i = i + 1;
    }
    let offset = state.orb.position.diff(avatar.position);
    let fov_position = center.offset_by(offset);
    let orb = if tiles.get(fov_position) == Tile::Unknown {
        None
    } else {
        Some(offset)
    };
    let keys = player_keys(&state.avatars);
    let nk = keys.len();
    let mut allies: Vec<SightedAlly> = Vec::new();
    let mut k: usize = 0;
    while k < nk
        invariant
            nk == keys@.len(),
            k <= nk,
            keys@.to_set() == state.avatars@.dom(),
            center == tiles.spec_center(),
            stage.wf(),
            stage.spec_tail_turn() <= state.turn <= stage.head_turn,
            allies@.len() == spec_sighted_ids(keys@, state.avatars@, avatar.position, tiles, k as nat).len(),
            forall|j: int| 0 <= j < allies@.len() ==> sighted_ally_is(#[trigger] allies@[j],
                spec_sighted_ids(keys@, state.avatars@, avatar.position, tiles, k as nat)[j], *avatar, *stage, *state),
        decreases nk - k,
    {
        let pid = keys[k];
        proof {
            assert(keys@.to_set().contains(pid));
        }
        let ally_position = match state.avatars.get(&pid) {
            Some(a) => a.position,
            None => {
                proof {
                    assert(false);
                }
                avatar.position
            },
        };
        let offset = ally_position.diff(avatar.position);
        let fov_position = center.offset_by(offset);
        if tiles.get(fov_position) != Tile::Unknown {
            let move_offset = if state.turn < stage.head_turn {
                let di = stage.diff_index(state.turn + 1);
                match stage.diffs[di].cmd_by_avatar.get(&pid) {
                    Some(cmd) => match cmd.action {
                        ServerAction::Move(pos) => Some(pos.diff(avatar.position)),
                        _ => None,
                    },
                    None => None,
                }
            } else {
                None
            };
            let (name, status) = match stage.avatar_trackers.get(&pid) {
                Some(tracker) => (
                    Some(tracker.player_name.clone()),
                    SightedAllyStatus::Controlled { turn: tracker.turn, name: tracker.player_name.clone() },
                ),
                None => (None, SightedAllyStatus::Discarded),
            };
            let ally = SightedAlly { name, offset, alive: !avatar.is_dead(), status, next_move: move_offset };
            let ghost prev = allies@;
            allies.push(ally);
            proof {
                assert forall|j: int| 0 <= j < allies@.len() implies sighted_ally_is(#[trigger] allies@[j],
                    spec_sighted_ids(keys@, state.avatars@, avatar.position, tiles, (k + 1) as nat)[j], *avatar, *stage, *state) by {
                    if j < prev.len() {
                        assert(allies@[j] == prev[j]);
                    }
                }
            }
        }
        k = k + 1;
    }
    SightInfo { tiles, foes, orb, allies }
}

/// What the senses gather from `avatar` in `state`: each sense that is used
/// gives its information, the others nothing.
pub open spec fn senses_gathered(r: SensesInfo, senses: Senses, avatar: Avatar, stage: Stage, state: StageState, tail_state: StageState) -> bool {
    &&& r.selfi is Some <==> senses.selfs
    &&& r.selfi matches Some(si) ==> si == gather_self_spec(&avatar, &tail_state)
    &&& r.touch is Some <==> senses.touch
    &&& r.touch matches Some(ti) ==> {
        &&& touch_view(ti.tiles, avatar.position, stage.template.tiles)
        &&& view_shape(ti.tiles, 1)
        &&& view_sound(ti.tiles, avatar.position, 1, stage.template.tiles)
        &&& ti.foes@ == spec_touched_foes(state.foes@, avatar.position, state.foes@.len())
        &&& ti.traps == spec_trap_count(spec_touched_traps(state.foes@, avatar.position, state.foes@.len()))
        &&& ti.orb == (spec_dist(state.orb.position, avatar.position) <= 1)
    }
    &&& r.sight is Some <==> senses.sight.spec_get() != 0
    &&& r.sight matches Some(si) ==> sight_gathered(si, senses.sight.spec_get(), avatar, stage, state)
    &&& r.hearing is Some <==> senses.hearing.spec_get() != 0
    &&& r.hearing matches Some(hi) ==> match hi.range {
        Some(h) => spec_hearing_range(senses.hearing.spec_get() as int, (spec_dist(avatar.position, state.orb.position) % 256) as int) == Some(h.spec_get()),
        None => spec_hearing_range(senses.hearing.spec_get() as int, (spec_dist(avatar.position, state.orb.position) % 256) as int) is None,
    }
}

/// What the senses gather: each sense that is used gives its information,
/// the others nothing.
pub fn gather(senses: &Senses, avatar: &Avatar, stage: &Stage, state: &StageState, tail_state: &StageState) -> (r: SensesInfo)
    requires
        stage.wf(),
        stage.spec_tail_turn() <= state.turn <= stage.head_turn,
    ensures
        senses_gathered(r, *senses, *avatar, *stage, *state, *tail_state),
{
    let selfi = if senses.selfs {
        Some(gather_self(avatar, tail_state))
    } else {
        None
    };
    let touch = if senses.touch {
        Some(gather_touch(avatar, stage, state))
    } else {
        None
    };
    let sight_level = senses.sight.get();
    let sight = if sight_level != 0 {
        Some(gather_sight(sight_level, avatar, stage, state))
    } else {
        None
    };
    let hearing_level = senses.hearing.get();
    let hearing = if hearing_level != 0 {
        Some(gather_hearing(hearing_level, avatar, state))
    } else {
        None
    };
    SensesInfo { selfi, touch, sight, hearing }
}

} // verus!
