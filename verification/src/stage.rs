//! A stage: a map that players enter at their own pace.
//!
//! The stage keeps, for every stage turn between its tail and its head, what
//! each avatar commanded. When a command arrives for an earlier turn, the
//! states from that turn on are computed again (a rollback), under the bounds
//! that the players' senses have witnessed.

use vstd::prelude::*;
use std::collections::{BTreeMap, BTreeSet};
use crate::board::{flag_cell, flag_cells, flag_cols, flag_grid_cols, flag_grid_get, flag_grid_rows, flag_in,
    tile_cell, tile_cells, tile_cols, tile_grid_cols, tile_grid_get, tile_grid_rows};
use crate::bounds::{SenseBounds, agrees_with_witnesses, lemma_enforced_agrees};
use crate::events::GEvent;
use crate::fov::{can_see, sees};
use crate::maps::{copy_vec, map_keys, player_keys, turn_keys, turn_pair_keys, turn_pair_less, increasing_u32, increasing_u64};
use crate::sense::{SelfInfo, SensesInfo, Senses, SightInfo};
use crate::gather::senses_gathered;
use crate::stage_events::{GameEventSource, gather_events, perceives_events};
use crate::types::{
    Avatar, ClientAction, Foe, Offset, Orb, PlayerId, Position, ServerAction, StageTurn, Tile,
    Timeline, Transition, Turn, FOCUS_MAX, same_avatar, spec_position_add, spec_position_diff, Tiles,
};
use crate::action::{act, convert_client, moved_avatar, spec_convert_client};
use crate::foes::{FoeAction, hp_lowered_only, is_foe_choice, spec_hit_avatar};
use crate::world::{Limbo, Player, StageTemplate, same_template};

verus! {

broadcast use {
    vstd::std_specs::btree::group_btree_axioms,
    vstd::laws_cmp::group_laws_cmp,
    vstd::std_specs::btree::axiom_key_obeys_cmp_spec_meaning,
};

/// The avatar of a player carries the player's id.
pub type AvatarId = PlayerId;

/// Why a command could not be applied.
#[derive(Debug, Clone, Copy, PartialEq, Eq, Structural)]
pub enum StageError {
    /// The player has no avatar on this stage.
    UnknownAvatar,
    /// The stage holds no state for the avatar's turn.
    MissingState,
}

/// Where a player stands on the stage's timeline.
#[derive(Debug)]
pub struct AvatarTracker {
    pub turn: StageTurn,
    /// Limbo means a message of MaybeDead has been sent to the player and is awaiting
    /// cancelation/confirmation
    pub limbo: bool,
    /// Needed to have access to the player name in info gathering
    pub player_name: String,
}

impl Clone for AvatarTracker {
    fn clone(&self) -> (r: AvatarTracker)
        ensures
            r.turn == self.turn,
            r.limbo == self.limbo,
            r.player_name@ == self.player_name@,
    {
        AvatarTracker { turn: self.turn, limbo: self.limbo, player_name: self.player_name.clone() }
    }
}

impl AvatarTracker {
    pub fn new(player_name: &String, turn: Turn) -> (r: AvatarTracker)
        ensures
            r.turn == turn,
            !r.limbo,
            r.player_name@ == player_name@,
    {
        AvatarTracker { player_name: player_name.clone(), turn, limbo: false }
    }
}

/// State of a stage for a given turn.
#[derive(Debug)]
pub struct StageState {
    pub turn: StageTurn,
    pub foes: Vec<Foe>,
    pub orb: Orb,
    pub avatars: BTreeMap<PlayerId, Avatar>,
    /// Events raised during the turn.
    pub events: Vec<GameEventSource>,
}

impl Clone for StageState {
    fn clone(&self) -> (r: StageState)
        ensures
            r.turn == self.turn,
            r.foes@ == self.foes@,
            r.orb == self.orb,
            r.avatars@ == self.avatars@,
            r.events@.len() == self.events@.len(),
    {
        StageState {
            turn: self.turn,
            foes: copy_vec(&self.foes),
            orb: self.orb,
            avatars: self.avatars.clone(),
            events: self.events.clone(),
        }
    }
}

impl StageState {
    /// The first foe standing at `position`, with its index.
    pub fn find_foe(&self, position: Position) -> (r: Option<(usize, Foe)>)
        ensures
            match r {
                Some((i, f)) => {
                    &&& i < self.foes@.len()
                    &&& f == self.foes@[i as int]
                    &&& f.spec_position() == position
                    &&& forall|j: int| 0 <= j < i ==> #[trigger] self.foes@[j].spec_position() != position
                },
                None => forall|j: int| 0 <= j < self.foes@.len() ==> #[trigger] self.foes@[j].spec_position() != position,
            },
    {
        let n = self.foes.len();
        let mut i: usize = 0;
        while i < n
            invariant
                n == self.foes@.len(),
                i <= n,
                forall|j: int| 0 <= j < i ==> #[trigger] self.foes@[j].spec_position() != position,
            decreases n - i,
        {
            let f = self.foes[i];
            if f.position() == position {
                return Some((i, f));
            }
            i = i + 1;
        }
        None
    }
}

/// What is needed to recompute a stage state
#[derive(Debug)]
pub struct TurnDiff {
    pub cmd_by_avatar: BTreeMap<AvatarId, AvatarCmd>,
    pub new_avatar: Option<Avatar>,
}

impl TurnDiff {
    pub fn empty() -> (r: TurnDiff)
        ensures
            r.cmd_by_avatar@ == Map::<AvatarId, AvatarCmd>::empty(),
            r.new_avatar is None,
    {
        TurnDiff { cmd_by_avatar: BTreeMap::new(), new_avatar: None }
    }
}

#[derive(Debug, Clone, Copy, PartialEq, Eq, Structural)]
pub struct AvatarCmd {
    pub action: ServerAction,
    pub senses: Senses,
}

/// What a command gives back to the player.
pub struct StageCommandResult {
    pub stage_turn: StageTurn,
    pub limbos: Vec<Limbo>,
    pub senses_info: SensesInfo,
    pub action: ServerAction,
    pub events: Vec<GEvent>,
    pub transition: Option<Transition>,
    pub timeline: Timeline,
}

/// `rand::random`: a seed drawn at random. Nothing is known of its value.
#[verifier::external_body]
fn random_seed() -> (r: u64) {
    rand::random()
}

/// Stage that can handle async actions from players
pub struct Stage {
    /*
     * Static stage info
     */
    pub template: StageTemplate,
    pub seed: u64,
    /*
     * Rollback handling
     */
    pub head_turn: Turn,
    pub avatar_trackers: BTreeMap<PlayerId, AvatarTracker>,
    pub states: BTreeMap<Turn, StageState>,
    pub diffs: Vec<TurnDiff>,
    pub bounds: SenseBounds,
}

/// The cells of the map that hold a spawn tile, row by row, over the first `n`
/// cells of a grid `cols` wide.
pub open spec fn spawn_cells_upto(g: grid::Grid<Tile>, cols: nat, n: nat) -> Seq<Position>
    decreases n,
{
    if n == 0 || cols == 0 {
        Seq::empty()
    } else {
        let k = (n - 1) as nat;
        let prev = spawn_cells_upto(g, cols, k);
        let r = k / cols;
        let c = k % cols;
        if tile_cell(g, r as int, c as int) == Tile::Spawn {
            prev.push(Position { x: r as usize, y: c as usize })
        } else {
            prev
        }
    }
}

/// The spawn tiles of a map, row by row.
pub open spec fn spawn_cells(tiles: Tiles) -> Seq<Position> {
    spawn_cells_upto(tiles.grid, tile_cols(tiles.grid), tile_cells(tiles.grid).len() * tile_cols(tiles.grid))
}

/// The earliest state the stage keeps.
pub open spec fn spec_tail_state(stage: Stage) -> StageState {
    stage.spec_states()[choose|t: Turn| #[trigger] stage.spec_states().contains_key(t)
        && forall|u: Turn| #[trigger] stage.spec_states().contains_key(u) ==> t <= u]
}

/// A template that a stage can run: its grids fit in memory, and its map has
/// a tile where avatars spawn.
pub open spec fn template_fits(t: StageTemplate) -> bool {
    &&& flag_cells(t.orb_spawns).len() * flag_cols(t.orb_spawns) <= usize::MAX
    &&& t.tiles.spec_width() * t.tiles.spec_height() <= usize::MAX
    &&& spawn_cells(t.tiles).len() > 0
}

/// Whether a stage can run the template: its grids fit in memory and its map
/// has a spawn tile.
pub fn check_template(t: &StageTemplate) -> (r: bool)
    ensures
        r == template_fits(*t),
{
    let orb_rows = flag_grid_rows(&t.orb_spawns);
    let orb_cols = flag_grid_cols(&t.orb_spawns);
    if orb_rows.checked_mul(orb_cols).is_none() {
        return false;
    }
    let width = t.tiles.width();
    let height = t.tiles.height();
    if width.checked_mul(height).is_none() {
        return false;
    }
    let spawns = spawn_positions(&t.tiles);
    spawns.len() > 0
}

/// The cells of the orb spawn grid that hold `true`, row by row, over the first
/// `n` cells of a grid `cols` wide.
pub open spec fn orb_cells_upto(g: grid::Grid<bool>, cols: nat, n: nat) -> Seq<Position>
    decreases n,
{
    if n == 0 || cols == 0 {
        Seq::empty()
    } else {
        let k = (n - 1) as nat;
        let prev = orb_cells_upto(g, cols, k);
        let r = k / cols;
        let c = k % cols;
        if flag_cell(g, r as int, c as int) {
            prev.push(Position { x: r as usize, y: c as usize })
        } else {
            prev
        }
    }
}

/// All the cells where the orb may spawn, row by row.
pub open spec fn orb_cells(g: grid::Grid<bool>) -> Seq<Position> {
    orb_cells_upto(g, flag_cols(g), flag_cells(g).len() * flag_cols(g))
}

/// The pick among `n` spawn cells that a seed and a stage turn make.
pub open spec fn orb_pick(seed: u64, turn: u64, n: nat) -> int {
    let hash = vstd::wrapping::u64_specs::wrapping_mul(
        vstd::wrapping::u64_specs::wrapping_add(seed, turn),
        6364136223846793005u64,
    );
    ((hash as usize) as nat % n) as int
}

/// Where the orb appears at a stage turn: one of its spawn cells, picked from
/// the stage's seed and the turn; the origin when there is none.
pub open spec fn spec_orb_spawn(g: grid::Grid<bool>, seed: u64, turn: u64) -> Position {
    let cells = orb_cells(g);
    if cells.len() == 0 {
        Position { x: 0, y: 0 }
    } else {
        cells[orb_pick(seed, turn, cells.len())]
    }
}

/// The positions of the orb spawn cells, row by row.
fn orb_spawn_cells(g: &grid::Grid<bool>) -> (r: Vec<Position>)
    requires
        flag_cells(*g).len() * flag_cols(*g) <= usize::MAX,
    ensures
        r@ == orb_cells(*g),
{
    let rows = flag_grid_rows(g);
    let cols = flag_grid_cols(g);
    let total = rows * cols;
    let mut r: Vec<Position> = Vec::new();
    if cols == 0 {
        return r;
    }
    let mut k: usize = 0;
    while k < total
        invariant
            rows == flag_cells(*g).len(),
            cols == flag_cols(*g),
            cols > 0,
            total == rows * cols,
            k <= total,
            r@ == orb_cells_upto(*g, cols as nat, k as nat),
        decreases total - k,
    {
        let row = k / cols;
        let col = k % cols;
        proof {
            assert(row < rows) by (nonlinear_arith)
                requires
                    row == k / cols,
                    k < total,
                    total == rows * cols,
                    cols > 0,
            ;
        }
        let flag = match flag_grid_get(g, row, col) {
            Some(b) => b,
            None => false,
        };
        if flag {
            r.push(Position { x: row, y: col });
        }
        k = k + 1;
    }
    r
}

/// The stage's orb position at `stage_turn`.
fn orb_spawn(template: &StageTemplate, seed: u64, stage_turn: StageTurn) -> (p: Position)
    requires
        flag_cells(template.orb_spawns).len() * flag_cols(template.orb_spawns) <= usize::MAX,
    ensures
        p == spec_orb_spawn(template.orb_spawns, seed, stage_turn),
{
    let spawns = orb_spawn_cells(&template.orb_spawns);
    if spawns.len() == 0 {
        return Position { x: 0, y: 0 };
    }
    // Deterministic selection from the seed and the stage turn
    let hash = seed.wrapping_add(stage_turn).wrapping_mul(6364136223846793005);
    let i = (hash as usize) % spawns.len();
    spawns[i]
}

impl Stage {
    /// The oldest stage turn still held.
    pub open spec fn spec_tail_turn(&self) -> int {
        self.head_turn + 1 - self.diffs@.len()
    }

    pub closed spec fn spec_states(&self) -> Map<Turn, StageState> {
        self.states@
    }

    pub closed spec fn spec_seed(&self) -> u64 {
        self.seed
    }

    /// The template fits in memory as the simulation walks it.
    pub open spec fn template_ok(&self) -> bool {
        template_fits(self.template)
    }

    /// The bookkeeping that every operation of the stage keeps:
    /// - the timeline holds at least one turn, and its tail is not negative;
    /// - every player stands between the tail and the head of the timeline;
    /// - the state of the head and the state of every player's turn are held;
    /// - every held state lies on the timeline and knows its own turn.
    pub closed spec fn wf(&self) -> bool {
        &&& self.template_ok()
        &&& 1 <= self.diffs@.len() <= self.head_turn + 1
        &&& self.head_turn < u64::MAX - 1
        &&& forall|pid: PlayerId| #[trigger] self.avatar_trackers@.contains_key(pid) ==> {
            &&& self.spec_tail_turn() <= self.avatar_trackers@[pid].turn <= self.head_turn
            &&& self.states@.contains_key(self.avatar_trackers@[pid].turn)
        }
        &&& self.states@.contains_key(self.head_turn)
        &&& forall|t: Turn| #[trigger] self.states@.contains_key(t) ==> {
            &&& self.spec_tail_turn() <= t <= self.head_turn
            &&& self.states@[t].turn == t
        }
    }

    /// The bookkeeping of `wf`, while the states from `turn` on await their
    /// computation: the player turns and the head at or after `turn` may lack
    /// their state.
    pub closed spec fn wf_from(&self, turn: Turn) -> bool {
        &&& self.template_ok()
        &&& 1 <= self.diffs@.len() <= self.head_turn + 1
        &&& self.head_turn < u64::MAX - 1
        &&& forall|pid: PlayerId| #[trigger] self.avatar_trackers@.contains_key(pid) ==> {
            &&& self.spec_tail_turn() <= self.avatar_trackers@[pid].turn <= self.head_turn
            &&& self.avatar_trackers@[pid].turn < turn ==> self.states@.contains_key(self.avatar_trackers@[pid].turn)
        }
        &&& self.head_turn < turn ==> self.states@.contains_key(self.head_turn)
        &&& forall|t: Turn| #[trigger] self.states@.contains_key(t) ==> {
            &&& self.spec_tail_turn() <= t <= self.head_turn
            &&& self.states@[t].turn == t
        }
        &&& exists|t: Turn| #[trigger] self.states@.contains_key(t) && t < turn
    }

    /// The stage `r` starts the template with the seed `seed`: no player, its
    /// timeline at turn zero only, where the template's foes stand, no avatar,
    /// and the orb rests on the spawn cell that the seed picks for turn zero.
    pub open spec fn fresh(r: Stage, template: StageTemplate, seed: u64) -> bool {
        &&& r.wf()
        &&& r.head_turn == 0
        &&& r.spec_tail_turn() == 0
        &&& r.avatar_trackers@ == Map::<PlayerId, AvatarTracker>::empty()
        &&& r.spec_seed() == seed
        &&& r.template == template
        &&& r.spec_states()[0].orb == (Orb { position: spec_orb_spawn(template.orb_spawns, seed, 0), excited: false })
        &&& r.spec_states()[0].foes@ == template.foes@
        &&& r.spec_states()[0].avatars@ == Map::<PlayerId, Avatar>::empty()
    }

    /// A stage with no player, its orb placed for turn zero, the seed given.
    pub fn with_seed(template: StageTemplate, seed: u64) -> (r: Stage)
        requires
            template_fits(template),
        ensures
            Stage::fresh(r, template, seed),
            r.wf(),
            r.head_turn == 0,
            r.spec_tail_turn() == 0,
            r.avatar_trackers@ == Map::<PlayerId, AvatarTracker>::empty(),
            r.spec_seed() == seed,
            r.template == template,
            r.spec_states()[0].orb == (Orb { position: spec_orb_spawn(template.orb_spawns, seed, 0), excited: false }),
            r.spec_states()[0].foes@ == template.foes@,
            r.spec_states()[0].avatars@ == Map::<PlayerId, Avatar>::empty(),
    {
        let head_turn: Turn = 0;
        let orb = Orb { position: orb_spawn(&template, seed, head_turn), excited: false };
        let foes = copy_vec(&template.foes);
        let mut diffs: Vec<TurnDiff> = Vec::new();
        diffs.push(TurnDiff::empty());
        let state = StageState { turn: head_turn, foes, orb, avatars: BTreeMap::new(), events: Vec::new() };
        let mut states: BTreeMap<Turn, StageState> = BTreeMap::new();
        states.insert(head_turn, state);
        Stage {
            template,
            seed,
            head_turn,
            avatar_trackers: BTreeMap::new(),
            states,
            diffs,
            bounds: SenseBounds::new(),
        }
    }

    /// A stage with no player and a random seed: whatever seed is drawn, the
    /// stage starts as `with_seed` starts it with that seed.
    pub fn new(template: StageTemplate) -> (r: Stage)
        requires
            template_fits(template),
        ensures
            Stage::fresh(r, template, r.spec_seed()),
            r.wf(),
            r.head_turn == 0,
            r.spec_tail_turn() == 0,
            r.avatar_trackers@ == Map::<PlayerId, AvatarTracker>::empty(),
            r.template == template,
            r.spec_states()[0].orb == (Orb { position: spec_orb_spawn(template.orb_spawns, r.spec_seed(), 0), excited: false }),
            r.spec_states()[0].foes@ == template.foes@,
            r.spec_states()[0].avatars@ == Map::<PlayerId, Avatar>::empty(),
    {
        let seed: u64 = random_seed();
        Stage::with_seed(template, seed)
    }

    pub fn tail_turn(&self) -> (r: StageTurn)
        requires
            self.wf(),
        ensures
            r == self.spec_tail_turn(),
    {
        self.head_turn + 1 - self.diffs.len() as StageTurn
    }

    pub fn timeline(&self) -> (r: Timeline)
        requires
            self.wf(),
        ensures
            r.head == self.head_turn,
            r.tail == self.spec_tail_turn(),
    {
        Timeline { head: self.head_turn, tail: self.tail_turn() }
    }

    /// Index in `diffs` of the diff that leads to `turn`.
    pub fn diff_index(&self, turn: StageTurn) -> (r: usize)
        requires
            self.wf(),
            self.spec_tail_turn() <= turn <= self.head_turn,
        ensures
            r == turn - self.spec_tail_turn(),
            r < self.diffs@.len(),
    {
        let turn_diff = self.head_turn - turn;
        self.diffs.len() - 1 - turn_diff as usize
    }

    pub fn head_state(&self) -> (r: &StageState)
        requires
            self.wf(),
        ensures
            *r == self.spec_states()[self.head_turn],
    {
        match self.states.get(&self.head_turn) {
            Some(s) => s,
            None => {
                proof {
                    assert(false);
                }
                self.states.get(&self.head_turn).unwrap()
            },
        }
    }

    /// The state of the oldest turn held.
    pub fn tail_state(&self) -> (r: &StageState)
        requires
            self.wf(),
        ensures
            exists|t: Turn| #[trigger] self.spec_states().contains_key(t)
                && *r == self.spec_states()[t]
                && forall|u: Turn| #[trigger] self.spec_states().contains_key(u) ==> t <= u,
            *r == spec_tail_state(*self),
    {
        let keys = turn_keys(&self.states);
        proof {
            assert(keys@.to_set().contains(self.head_turn));
        }
        let first = keys[0];
        proof {
            assert(keys@.to_set().contains(first));
            assert(self.spec_states().contains_key(first));
            assert forall|u: Turn| #[trigger] self.spec_states().contains_key(u) implies first <= u by {
                assert(keys@.to_set().contains(u));
                let j = choose|j: int| 0 <= j < keys@.len() && keys@[j] == u;
            }
            let t = choose|t: Turn| #[trigger] self.spec_states().contains_key(t)
                && forall|u: Turn| #[trigger] self.spec_states().contains_key(u) ==> t <= u;
            assert(t <= first && first <= t);
        }
        match self.states.get(&first) {
            Some(s) => s,
            None => {
                proof {
                    assert(false);
                }
                self.states.get(&first).unwrap()
            },
        }
    }

    /// The state at the player's turn, where the stage holds it.
    fn state_at_turn_of(&self, aid: PlayerId) -> (r: Option<&StageState>)
        requires
            self.wf(),
        ensures
            r is Some <==> self.avatar_trackers@.contains_key(aid),
            r matches Some(s) ==> *s == self.spec_states()[self.avatar_trackers@[aid].turn],
    {
        let tracker = match self.avatar_trackers.get(&aid) {
            Some(t) => t,
            None => return None,
        };
        match self.states.get(&tracker.turn) {
            Some(s) => Some(s),
            None => {
                proof {
                    assert(false);
                }
                None
            },
        }
    }

    /// The state at the player's turn.
    pub fn state_for(&self, aid: PlayerId) -> (r: Option<StageState>)
        requires
            self.wf(),
        ensures
            r is Some <==> self.avatar_trackers@.contains_key(aid),
            r matches Some(s) ==> {
                let t = self.avatar_trackers@[aid].turn;
                &&& s.turn == t
                &&& s.foes@ == self.spec_states()[t].foes@
                &&& s.orb == self.spec_states()[t].orb
                &&& s.avatars@ == self.spec_states()[t].avatars@
            },
    {
        let tracker = match self.avatar_trackers.get(&aid) {
            Some(t) => t,
            None => return None,
        };
        match self.states.get(&tracker.turn) {
            Some(s) => Some(s.clone()),
            None => None,
        }
    }
}

/// The spawn tiles of the map, row by row.
fn spawn_positions(tiles: &Tiles) -> (r: Vec<Position>)
    requires
        tiles.spec_width() * tiles.spec_height() <= usize::MAX,
    ensures
        r@ == spawn_cells(*tiles),
{
    let rows = tile_grid_rows(&tiles.grid);
    let cols = tile_grid_cols(&tiles.grid);
    let total = rows * cols;
    let mut r: Vec<Position> = Vec::new();
    if cols == 0 {
        return r;
    }
    let mut k: usize = 0;
    while k < total
        invariant
            rows == tile_cells(tiles.grid).len(),
            cols == tile_cols(tiles.grid),
            cols > 0,
            total == rows * cols,
            k <= total,
            r@ == spawn_cells_upto(tiles.grid, cols as nat, k as nat),
        decreases total - k,
    {
        let row = k / cols;
        let col = k % cols;
        proof {
            assert(row < rows) by (nonlinear_arith)
                requires
                    row == k / cols,
                    k < total,
                    total == rows * cols,
                    cols > 0,
            ;
        }
        let spawn = match tile_grid_get(&tiles.grid, row, col) {
            Some(t) => t == Tile::Spawn,
            None => false,
        };
        if spawn {
            r.push(Position { x: row, y: col });
        }
        k = k + 1;
    }
    r
}

/// A pylon lies on the avatar's tile or on one of the eight around it.
pub open spec fn spec_near_pylon(tiles: Tiles, p: Position) -> bool {
    exists|dx: isize, dy: isize| -1 <= dx <= 1 && -1 <= dy <= 1
        && #[trigger] tiles.spec_get(spec_position_add(p, Offset { x: dx, y: dy })) == Tile::Pylon
}

fn near_pylon(tiles: &Tiles, p: Position) -> (r: bool)
    ensures
        r == spec_near_pylon(*tiles, p),
{
    let mut found = false;
    let mut x: isize = -1;
    while x < 2
        invariant
            -1 <= x <= 2,
            found == exists|dx: isize, dy: isize| -1 <= dx < x && -1 <= dy <= 1
                && #[trigger] tiles.spec_get(spec_position_add(p, Offset { x: dx, y: dy })) == Tile::Pylon,
        decreases 2 - x,
    {
        let mut y: isize = -1;
        while y < 2
            invariant
                -1 <= x < 2,
                -1 <= y <= 2,
                found == ((exists|dx: isize, dy: isize| -1 <= dx < x && -1 <= dy <= 1
                    && #[trigger] tiles.spec_get(spec_position_add(p, Offset { x: dx, y: dy })) == Tile::Pylon)
                    || (exists|dy: isize| -1 <= dy < y
                    && #[trigger] tiles.spec_get(spec_position_add(p, Offset { x: x, y: dy })) == Tile::Pylon)),
            decreases 2 - y,
        {
            let position = p.offset_by(Offset { x, y });
            if tiles.get(position) == Tile::Pylon {
                found = true;
            }
            y = y + 1;
        }
        x = x + 1;
    }
    found
}

/// `after` is `before` once the foe at `i` took its turn on `stage`: a dead
/// foe does nothing; a living one attacks, moves or waits as it chooses.
pub open spec fn foe_turn(stage: Stage, i: usize, before: StageState, after: StageState) -> bool {
    let foe = before.foes@[i as int];
    &&& after.turn == before.turn
    &&& after.orb == before.orb
    &&& after.events@ == before.events@
    &&& if !foe.spec_alive() {
        after.foes@ == before.foes@ && after.avatars@ == before.avatars@
    } else {
        exists|a: FoeAction| #[trigger] is_foe_choice(foe, i, stage.template.tiles, stage.bounds.position_bounds@,
            before.turn, before.avatars@, before.foes@, a) && {
            &&& after.avatars@ == match a {
                FoeAction::Attack(aid) => spec_hit_avatar(before.avatars@, aid, foe.spec_attack()),
                _ => before.avatars@,
            }
            &&& after.foes@ == match a {
                FoeAction::Move(p) => before.foes@.update(i as int, foe.spec_moved_to(p)),
                _ => before.foes@,
            }
        }
    }
}

/// `after` is `before` once the first `n` foes took their turns, in order.
pub open spec fn foes_acted(stage: Stage, before: StageState, after: StageState, n: nat) -> bool
    decreases n,
{
    if n == 0 {
        after == before
    } else {
        exists|mid: StageState| foes_acted(stage, before, mid, (n - 1) as nat)
            && mid.foes@.len() == before.foes@.len()
            && #[trigger] foe_turn(stage, (n - 1) as usize, mid, after)
    }
}

proof fn lemma_foes_acted_step(stage: Stage, before: StageState, mid: StageState, after: StageState, n: nat)
    requires
        foes_acted(stage, before, mid, n),
        mid.foes@.len() == before.foes@.len(),
        foe_turn(stage, n as usize, mid, after),
    ensures
        foes_acted(stage, before, after, n + 1),
{
    let m: nat = n + 1;
    assert((m - 1) as nat == n);
    assert((m - 1) as usize == n as usize);
    assert(foes_acted(stage, before, mid, (m - 1) as nat));
    assert(foe_turn(stage, (m - 1) as usize, mid, after));
    assert(foes_acted(stage, before, after, m));
}

/// The avatar after its own turn, once its action is done: the orb it reached
/// moves it to the next stage; its senses cost focus, or tire it when it has
/// not enough; a pylon next to it fills its focus; its turn count goes up.
pub open spec fn spec_after_turn(acted: Avatar, orb: Position, cost: u8, near_pylon: bool) -> Avatar {
    let tired = acted.focus < cost;
    let focus = if tired { acted.focus } else { (acted.focus - cost) as u8 };
    Avatar {
        transition: if acted.position == orb { Some(Transition::Orb) } else { acted.transition },
        tired,
        focus: if near_pylon { FOCUS_MAX } else { focus },
        turns: if acted.turns < u64::MAX { (acted.turns + 1) as u64 } else { acted.turns },
        ..acted
    }
}

/// What a living avatar's own turn leaves of it, under its command: the same
/// player and health; it stands where the move led; its senses tire it when
/// they cost more focus than it has, else they use that focus up; a pylon next
/// to it fills its focus; its turn count goes up.
pub open spec fn stepped(before: Avatar, after: Avatar, cmd: AvatarCmd, tiles: Tiles) -> bool {
    let tired = before.focus < cmd.senses.spec_cost();
    &&& after.player_id == before.player_id
    &&& after.hp == before.hp
    &&& after.tired == tired
    &&& after.position == match cmd.action {
        ServerAction::Move(q) => q,
        _ => before.position,
    }
    &&& after.focus == if spec_near_pylon(tiles, after.position) {
        FOCUS_MAX
    } else if tired {
        before.focus
    } else {
        (before.focus - cmd.senses.spec_cost()) as u8
    }
    &&& after.turns == if before.turns < u64::MAX { (before.turns + 1) as u64 } else { before.turns }
}

impl Stage {
    /// The spawn tiles of the stage's map.
    pub fn find_spawns(&self) -> (r: Vec<Position>)
        requires
            self.template_ok(),
        ensures
            r@ == spawn_cells(self.template.tiles),
    {
        spawn_positions(&self.template.tiles)
    }

    /// The turn of one living avatar: its action, then what its position, its
    /// senses and the tiles around it do to it and to the orb.
    #[verifier::rlimit(40)]
    #[verifier::spinoff_prover]
    fn avatar_step(&self, state: &mut StageState, aid: PlayerId, cmd: &AvatarCmd)
        requires
            self.template_ok(),
            old(state).avatars@.contains_key(aid),
        ensures
            final(state).turn == old(state).turn,
            final(state).avatars@.dom() == old(state).avatars@.dom(),
            forall|p: PlayerId| #[trigger] final(state).avatars@.contains_key(p) && p != aid
                ==> final(state).avatars@[p] == old(state).avatars@[p],
            ({
                let a0 = old(state).avatars@[aid];
                let pos = match cmd.action {
                    ServerAction::Move(p) => p,
                    _ => a0.position,
                };
                let acted = Avatar { position: pos, ..a0 };
                let a = final(state).avatars@[aid];
                &&& a == spec_after_turn(acted, old(state).orb.position, cmd.senses.spec_cost() as u8,
                    spec_near_pylon(self.template.tiles, pos))
                &&& final(state).orb.position == if pos == old(state).orb.position {
                    spec_orb_spawn(self.template.orb_spawns, self.seed, old(state).turn)
                } else {
                    old(state).orb.position
                }
                &&& a.tired ==> final(state).orb.excited == old(state).orb.excited
                &&& !a.tired ==> final(state).orb.excited == (old(state).orb.excited
                    || sees(self.template.tiles, pos, final(state).orb.position, cmd.senses.sight.spec_get() as usize))
                &&& final(state).foes@ == match cmd.action {
                    ServerAction::Attack(index) => if crate::action::spec_can_hit(a0, old(state).foes@, index) {
                        old(state).foes@.update(index as int, crate::action::spec_hit(old(state).foes@[index as int]))
                    } else {
                        old(state).foes@
                    },
                    _ => old(state).foes@,
                }
            }),
            stepped(old(state).avatars@[aid], final(state).avatars@[aid], *cmd, self.template.tiles),
            final(state).events@.len() >= old(state).events@.len(),
            forall|i: int| 0 <= i < old(state).events@.len() ==> #[trigger] final(state).events@[i] == old(state).events@[i],
    {
        let mut avatar = match state.avatars.remove(&aid) {
            Some(a) => a,
            None => {
                proof {
                    assert(false);
                }
                return;
            },
        };
        let ghost a0 = avatar;
        let ghost ev0 = state.events@;
        act(&cmd.action, &mut avatar, state);
        proof {
            assert(avatar == Avatar { position: avatar.position, ..a0 });
        }
        let ghost acted = avatar;
        let ghost orb0 = state.orb.position;
        // Orb on tile
        if avatar.position == state.orb.position {
            state.orb.position = orb_spawn(&self.template, self.seed, state.turn);
            avatar.transition = Some(Transition::Orb);
        }
        // Sense cost
        let cost = cmd.senses.cost();
        avatar.tired = avatar.focus < cost;
        if !avatar.tired {
            avatar.focus = avatar.focus - cost;
        }
        // Orb in sight
        let sight = cmd.senses.sight.get();
        proof {
            assert((2 * 10 + 1) * (2 * 10 + 1) <= usize::MAX) by (nonlinear_arith);
            assert((2 * (sight as usize) + 1) * (2 * (sight as usize) + 1) <= (2 * 10 + 1) * (2 * 10 + 1)) by (nonlinear_arith)
                requires sight <= 10;
        }
        if !avatar.tired {
            if can_see(&self.template.tiles, avatar.position, state.orb.position, sight as usize) {
                state.orb.excited = true;
            }
        }
        // If pylon is adjacent, recharges focus
        if near_pylon(&self.template.tiles, avatar.position) {
            avatar.focus = FOCUS_MAX;
        }
        if avatar.turns < u64::MAX {
            avatar.turns = avatar.turns + 1;
        }
        state.avatars.insert(aid, avatar);
        proof {
            assert(state.avatars@.dom() =~= old(state).avatars@.dom());
        }
    }

    /// Apply the turn of each avatar that received a command, in player order;
    /// dead avatars do nothing.
    fn enact_avatars(&self, state: &mut StageState, diff: &TurnDiff)
        requires
            self.template_ok(),
        ensures
            final(state).turn == old(state).turn,
            final(state).foes@.len() == old(state).foes@.len(),
            final(state).avatars@.dom() == old(state).avatars@.dom(),
            forall|p: PlayerId| #[trigger] final(state).avatars@.contains_key(p)
                && (!diff.cmd_by_avatar@.contains_key(p) || old(state).avatars@[p].spec_is_dead())
                ==> final(state).avatars@[p] == old(state).avatars@[p],
            forall|p: PlayerId| #[trigger] final(state).avatars@.contains_key(p)
                && diff.cmd_by_avatar@.contains_key(p) && !old(state).avatars@[p].spec_is_dead()
                ==> stepped(old(state).avatars@[p], final(state).avatars@[p], diff.cmd_by_avatar@[p], self.template.tiles),
            forall|i: int| 0 <= i < old(state).events@.len() ==> #[trigger] final(state).events@[i] == old(state).events@[i],
            final(state).events@.len() >= old(state).events@.len(),
    {
        let keys = player_keys(&diff.cmd_by_avatar);
        let n = keys.len();
        let mut i: usize = 0;
        while i < n
            invariant
                n == keys@.len(),
                i <= n,
                self.template_ok(),
                keys@.to_set() == diff.cmd_by_avatar@.dom(),
                increasing_u32(keys@),
                state.turn == old(state).turn,
                state.foes@.len() == old(state).foes@.len(),
                state.avatars@.dom() == old(state).avatars@.dom(),
                forall|p: PlayerId| #[trigger] state.avatars@.contains_key(p)
                    && (!(exists|j: int| 0 <= j < i && keys@[j] == p) || old(state).avatars@[p].spec_is_dead())
                    ==> state.avatars@[p] == old(state).avatars@[p],
                forall|p: PlayerId| #[trigger] state.avatars@.contains_key(p)
                    && (exists|j: int| 0 <= j < i && keys@[j] == p) && !old(state).avatars@[p].spec_is_dead()
                    ==> stepped(old(state).avatars@[p], state.avatars@[p], diff.cmd_by_avatar@[p], self.template.tiles),
                forall|j: int| 0 <= j < old(state).events@.len() ==> #[trigger] state.events@[j] == old(state).events@[j],
                state.events@.len() >= old(state).events@.len(),
            decreases n - i,
        {
            let aid = keys[i];
            proof {
                assert(keys@.to_set().contains(aid));
                assert forall|j: int| 0 <= j < i implies keys@[j] != aid by {}
            }
            let cmd = match diff.cmd_by_avatar.get(&aid) {
                Some(c) => *c,
                None => {
                    proof {
                        assert(false);
                    }
                    AvatarCmd { action: ServerAction::Wait, senses: Senses::default() }
                },
            };
            let alive = match state.avatars.get(&aid) {
                Some(avatar) => !avatar.is_dead(),
                None => false,
            };
            let ghost before = *state;
            if alive {
                self.avatar_step(state, aid, &cmd);
            }
            proof {
                assert forall|p: PlayerId| #[trigger] state.avatars@.contains_key(p)
                    && (!(exists|j: int| 0 <= j < i + 1 && keys@[j] == p) || old(state).avatars@[p].spec_is_dead())
                    implies state.avatars@[p] == old(state).avatars@[p] by {
                    if p == aid {
                        assert(keys@[i as int] == p);
                    } else {
                        assert(before.avatars@.contains_key(p));
                        if exists|j: int| 0 <= j < i + 1 && keys@[j] == p {
                            let j = choose|j: int| 0 <= j < i + 1 && keys@[j] == p;
                            assert(j != i);
                        }
                    }
                }
                assert forall|p: PlayerId| #[trigger] state.avatars@.contains_key(p)
                    && (exists|j: int| 0 <= j < i + 1 && keys@[j] == p) && !old(state).avatars@[p].spec_is_dead()
                    implies stepped(old(state).avatars@[p], state.avatars@[p], diff.cmd_by_avatar@[p], self.template.tiles) by {
                    assert(before.avatars@.contains_key(p));
                    if p != aid {
                        let j = choose|j: int| 0 <= j < i + 1 && keys@[j] == p;
                        assert(j != i);
                    } else {
                        assert(before.avatars@[p] == old(state).avatars@[p]);
                    }
                }
            }
            i = i + 1;
        }
        proof {
            assert forall|p: PlayerId| #[trigger] state.avatars@.contains_key(p)
                && (!diff.cmd_by_avatar@.contains_key(p) || old(state).avatars@[p].spec_is_dead())
                implies state.avatars@[p] == old(state).avatars@[p] by {
                if exists|j: int| 0 <= j < n && keys@[j] == p {
                    let j = choose|j: int| 0 <= j < n && keys@[j] == p;
                    assert(keys@.to_set().contains(p));
                }
            }
            assert forall|p: PlayerId| #[trigger] state.avatars@.contains_key(p)
                && diff.cmd_by_avatar@.contains_key(p) && !old(state).avatars@[p].spec_is_dead()
                implies stepped(old(state).avatars@[p], state.avatars@[p], diff.cmd_by_avatar@[p], self.template.tiles) by {
                assert(keys@.to_set().contains(p));
            }
        }
    }

    /// Apply the turn of each foe, in order.
    fn enact_foes(&self, state: &mut StageState)
        requires
            self.template_ok(),
        ensures
            final(state).turn == old(state).turn,
            final(state).orb == old(state).orb,
            final(state).events@ == old(state).events@,
            final(state).foes@.len() == old(state).foes@.len(),
            hp_lowered_only(old(state).avatars@, final(state).avatars@),
            foes_acted(*self, *old(state), *final(state), old(state).foes@.len()),
    {
        let n = state.foes.len();
        let mut i: usize = 0;
        while i < n
            invariant
                n == old(state).foes@.len(),
                i <= n,
                self.template_ok(),
                state.turn == old(state).turn,
                state.orb == old(state).orb,
                state.events@ == old(state).events@,
                state.foes@.len() == n,
                hp_lowered_only(old(state).avatars@, state.avatars@),
                foes_acted(*self, *old(state), *state, i as nat),
            decreases n - i,
        {
            let ghost before = state.avatars@;
            let ghost mid = *state;
            let ghost start = *old(state);
            proof {
                assert(foes_acted(*self, start, mid, i as nat));
            }
            let _ = crate::foes::act(i, self, state);
            proof {
                crate::foes::lemma_hp_lowered_trans(old(state).avatars@, before, state.avatars@);
                assert(foe_turn(*self, i, mid, *state));
                assert(mid.foes@.len() == start.foes@.len());
                assert(foes_acted(*self, start, mid, i as nat));
                lemma_foes_acted_step(*self, start, mid, *state, i as nat);
            }
            i = i + 1;
        }
    }

    /// Puts the arriving avatar on a spawn tile, chosen by its player id.
    fn welcome_avatar(&self, state: &mut StageState, avatar: &Avatar)
        requires
            self.template_ok(),
        ensures
            final(state).turn == old(state).turn,
            final(state).orb == old(state).orb,
            final(state).foes@ == old(state).foes@,
            final(state).events@ == old(state).events@,
            final(state).avatars@.dom() == old(state).avatars@.dom().insert(avatar.player_id),
            forall|p: PlayerId| #[trigger] final(state).avatars@.contains_key(p) && p != avatar.player_id
                ==> final(state).avatars@[p] == old(state).avatars@[p],
            same_avatar(final(state).avatars@[avatar.player_id], Avatar {
                position: spawn_cells(self.template.tiles)[(avatar.player_id as int) % spawn_cells(self.template.tiles).len() as int],
                ..*avatar
            }),
    {
        let pid = avatar.player_id;
        let spawn_position = self.find_spawns();
        let position = spawn_position[(pid as usize) % spawn_position.len()];
        let mut avatar = avatar.clone();
        avatar.position = position;
        state.avatars.insert(pid, avatar);
        proof {
            assert(state.avatars@.dom() =~= old(state).avatars@.dom().insert(pid));
        }
    }

    /// The state one turn later, under the commands of `diff`: the excited orb
    /// moves, the avatars act, then the foes, and the arriving avatar spawns.
    fn enact_turn(&self, state: &mut StageState, diff: &TurnDiff)
        requires
            self.template_ok(),
            old(state).turn < u64::MAX,
        ensures
            final(state).turn == old(state).turn + 1,
            final(state).foes@.len() == old(state).foes@.len(),
            final(state).avatars@.dom() == match diff.new_avatar {
                Some(a) => old(state).avatars@.dom().insert(a.player_id),
                None => old(state).avatars@.dom(),
            },
            forall|i: int| 0 <= i < old(state).events@.len() ==> #[trigger] final(state).events@[i] == old(state).events@[i],
            final(state).events@.len() >= old(state).events@.len(),
    {
        state.turn = state.turn + 1;
        // Turn init
        if state.orb.excited {
            state.orb.position = orb_spawn(&self.template, self.seed, state.turn);
            state.orb.excited = false;
        }
        self.enact_avatars(state, diff);
        self.enact_foes(state);
        if let Some(new_avatar) = &diff.new_avatar {
            self.welcome_avatar(state, new_avatar);
        }
    }
}

impl Stage {
    /// The turns whose state the stage keeps: each player's turn and the head.
    pub open spec fn saved_turns(&self) -> Set<Turn> {
        Set::new(|t: Turn| t == self.head_turn
            || exists|p: PlayerId| #[trigger] self.avatar_trackers@.contains_key(p) && self.avatar_trackers@[p].turn == t)
    }

    fn saved_turn_set(&self) -> (r: BTreeSet<Turn>)
        ensures
            r@ == self.saved_turns(),
    {
        let keys = player_keys(&self.avatar_trackers);
        let mut r: BTreeSet<Turn> = BTreeSet::new();
        let n = keys.len();
        let mut i: usize = 0;
        while i < n
            invariant
                n == keys@.len(),
                i <= n,
                keys@.to_set() == self.avatar_trackers@.dom(),
                forall|t: Turn| #[trigger] r@.contains(t) <==> exists|j: int| 0 <= j < i
                    && self.avatar_trackers@[keys@[j]].turn == t,
            decreases n - i,
        {
            let pid = keys[i];
            proof {
                assert(keys@.to_set().contains(pid));
            }
            match self.avatar_trackers.get(&pid) {
                Some(tracker) => {
                    r.insert(tracker.turn);
                },
                None => {},
            }
            proof {
                assert forall|t: Turn| #[trigger] r@.contains(t) <==> exists|j: int| 0 <= j < i + 1
                    && self.avatar_trackers@[keys@[j]].turn == t by {
                    if exists|j: int| 0 <= j < i + 1 && self.avatar_trackers@[keys@[j]].turn == t {
                        let j = choose|j: int| 0 <= j < i + 1 && self.avatar_trackers@[keys@[j]].turn == t;
                        if j < i {
                            assert(exists|j: int| 0 <= j < i && self.avatar_trackers@[keys@[j]].turn == t);
                        }
                    }
                }
            }
            i = i + 1;
        }
        r.insert(self.head_turn);
        proof {
            assert forall|t: Turn| #[trigger] r@.contains(t) <==> self.saved_turns().contains(t) by {
                if exists|p: PlayerId| #[trigger] self.avatar_trackers@.contains_key(p) && self.avatar_trackers@[p].turn == t {
                    let p = choose|p: PlayerId| #[trigger] self.avatar_trackers@.contains_key(p) && self.avatar_trackers@[p].turn == t;
                    assert(keys@.to_set().contains(p));
                    let j = choose|j: int| 0 <= j < keys@.len() && keys@[j] == p;
                    assert(self.avatar_trackers@[keys@[j]].turn == t);
                }
                if t != self.head_turn && r@.contains(t) {
                    let j = choose|j: int| 0 <= j < n && self.avatar_trackers@[keys@[j]].turn == t;
                    assert(keys@.to_set().contains(keys@[j]));
                }
            }
            assert(r@ =~= self.saved_turns());
        }
        r
    }

    /// Recomputes the states from the given turn on: from the last state held
    /// before that turn, each turn is enacted again and its witnessed bounds
    /// enforced; only the states of the players' turns and of the head are kept.
    /// Nothing changes when no state is held before that turn.
    fn rollback_from(&mut self, turn: Turn)
        requires
            old(self).wf_from(turn),
        ensures
            final(self).wf(),
            final(self).template == old(self).template,
            final(self).seed == old(self).seed,
            final(self).head_turn == old(self).head_turn,
            final(self).avatar_trackers@ == old(self).avatar_trackers@,
            final(self).diffs@ == old(self).diffs@,
            final(self).bounds == old(self).bounds,
            forall|t: Turn| #[trigger] final(self).states@.contains_key(t) && old(self).states@.contains_key(t) && t < turn
                ==> final(self).states@[t] == old(self).states@[t],
            forall|t: Turn| #[trigger] final(self).states@.contains_key(t) ==> old(self).states@.contains_key(t) || t >= turn,
            forall|t: Turn| #[trigger] final(self).states@.contains_key(t) && t >= turn
                ==> agrees_with_witnesses(final(self).bounds, final(self).states@[t]),
    {
        let keys = turn_keys(&self.states);
        let n = keys.len();
        // Get the previous state available
        let mut prev: Option<Turn> = None;
        let mut i: usize = 0;
        while i < n
            invariant
                n == keys@.len(),
                i <= n,
                increasing_u64(keys@),
                match prev {
                    None => forall|j: int| 0 <= j < i ==> keys@[j] >= turn,
                    Some(p) => p < turn && (exists|j: int| 0 <= j < i && keys@[j] == p)
                        && forall|j: int| 0 <= j < i && keys@[j] < turn ==> keys@[j] <= p,
                },
            decreases n - i,
        {
            if keys[i] < turn {
                prev = Some(keys[i]);
            }
            i = i + 1;
        }
        let prev_turn = match prev {
            None => {
                proof {
                    let u = choose|u: Turn| #[trigger] self.states@.contains_key(u) && u < turn;
                    assert(keys@.to_set().contains(u));
                    let j = choose|j: int| 0 <= j < n && keys@[j] == u;
                }
                return;
            },
            Some(p) => p,
        };
        proof {
            let j = choose|j: int| 0 <= j < n && keys@[j] == prev_turn;
            assert(keys@.to_set().contains(prev_turn));
            assert forall|t: Turn| #[trigger] self.states@.contains_key(t) && t < turn implies t <= prev_turn by {
                assert(keys@.to_set().contains(t));
                let j = choose|j: int| 0 <= j < n && keys@[j] == t;
            }
            
        }
        let mut state = match self.states.get(&prev_turn) {
            Some(s) => s.clone(),
            None => {
                proof {
                    assert(false);
                }
                return;
            },
        };
        let save = self.saved_turn_set();
        let ghost old_states = self.states@;
        // Keep only the saved states
        let mut k: usize = 0;
        while k < n
            invariant
                n == keys@.len(),
                k <= n,
                keys@.to_set() == old_states.dom(),
                keys@.no_duplicates() || increasing_u64(keys@),
                increasing_u64(keys@),
                forall|t: Turn| #[trigger] self.states@.contains_key(t) <==> old_states.contains_key(t)
                    && (save@.contains(t) || !(exists|j: int| 0 <= j < k && keys@[j] == t)),
                forall|t: Turn| #[trigger] self.states@.contains_key(t) ==> self.states@[t] == old_states[t],
                old(self).wf_from(turn),
                old_states == old(self).states@,
                old_states.contains_key(prev_turn),
                save@ == old(self).saved_turns(),
                self.template == old(self).template,
                self.seed == old(self).seed,
                self.head_turn == old(self).head_turn,
                self.avatar_trackers@ == old(self).avatar_trackers@,
                self.diffs@ == old(self).diffs@,
                self.bounds == old(self).bounds,
            decreases n - k,
        {
            let key = keys[k];
            if !save.contains(&key) {
                self.states.remove(&key);
            }
            proof {
                assert forall|t: Turn| #[trigger] self.states@.contains_key(t) <==> old_states.contains_key(t)
                    && (save@.contains(t) || !(exists|j: int| 0 <= j < k + 1 && keys@[j] == t)) by {
                    if exists|j: int| 0 <= j < k + 1 && keys@[j] == t {
                        let j = choose|j: int| 0 <= j < k + 1 && keys@[j] == t;
                        if j < k {
                            assert(exists|j: int| 0 <= j < k && keys@[j] == t);
                        }
                    }
                    if t != key && (exists|j: int| 0 <= j < k && keys@[j] == t) {
                    }
                }
            }
            k = k + 1;
        }
        proof {
            assert forall|t: Turn| #[trigger] self.states@.contains_key(t) <==> old_states.contains_key(t) && save@.contains(t) by {
                if old_states.contains_key(t) {
                    assert(keys@.to_set().contains(t));
                }
            }
        }
        proof {
            assert(prev_turn <= self.head_turn);
        }
        let mut t = prev_turn + 1;
        while t <= self.head_turn
            invariant
                prev_turn < turn,
                prev_turn + 1 <= t <= self.head_turn + 1,
                old(self).wf_from(turn),
                old_states == old(self).states@,
                old_states.contains_key(prev_turn),
                state.turn == t - 1,
                self.template == old(self).template,
                self.seed == old(self).seed,
                self.head_turn == old(self).head_turn,
                self.avatar_trackers@ == old(self).avatar_trackers@,
                self.diffs@ == old(self).diffs@,
                self.bounds == old(self).bounds,
                save@ == old(self).saved_turns(),
                forall|u: Turn| #[trigger] old_states.contains_key(u) && u < turn ==> u <= prev_turn,
                forall|u: Turn| #[trigger] self.states@.contains_key(u) ==> save@.contains(u)
                    && ((u <= prev_turn && old_states.contains_key(u) && self.states@[u] == old_states[u])
                    || (prev_turn < u < t && self.states@[u].turn == u)
                    || (u >= t && old_states.contains_key(u))),
                forall|u: Turn| #[trigger] save@.contains(u) && u <= prev_turn && old_states.contains_key(u) ==> self.states@.contains_key(u),
                forall|u: Turn| #[trigger] save@.contains(u) && prev_turn < u < t ==> self.states@.contains_key(u),
                forall|u: Turn| #[trigger] self.states@.contains_key(u) && prev_turn < u < t
                    ==> agrees_with_witnesses(self.bounds, self.states@[u]),
            decreases self.head_turn + 1 - t,
        {
            let index = self.diffs.len() - 1 - (self.head_turn - t) as usize;
            self.enact_turn(&mut state, &self.diffs[index]);
            let ghost enacted = state;
            self.bounds.enforce(&mut state);
            proof {
                lemma_enforced_agrees(self.bounds, enacted, state);
            }
            if save.contains(&t) {
                let ghost before_insert = self.states@;
                self.states.insert(t, state.clone());
                proof {
                    assert forall|u: Turn| #[trigger] self.states@.contains_key(u) && prev_turn < u < t + 1
                        implies agrees_with_witnesses(self.bounds, self.states@[u]) by {
                        if u != t {
                            assert(before_insert.contains_key(u));
                        }
                    }
                }
            }
            t = t + 1;
        }
        proof {
            assert forall|pid: PlayerId| #[trigger] self.avatar_trackers@.contains_key(pid) implies {
                &&& self.spec_tail_turn() <= self.avatar_trackers@[pid].turn <= self.head_turn
                &&& self.states@.contains_key(self.avatar_trackers@[pid].turn)
            } by {
                let u = self.avatar_trackers@[pid].turn;
                assert(save@.contains(u));
                if u <= prev_turn {
                    assert(old_states.contains_key(u));
                }
            }
            assert(save@.contains(self.head_turn));
            if self.head_turn <= prev_turn {
                assert(old_states.contains_key(self.head_turn));
            }
            assert forall|u: Turn| #[trigger] self.states@.contains_key(u) implies {
                &&& self.spec_tail_turn() <= u <= self.head_turn
                &&& self.states@[u].turn == u
            } by {
                if u > prev_turn {
                    assert(old_states.contains_key(prev_turn));
                }
            }
        }
    }
}

proof fn lemma_spawn_cells_same(a: grid::Grid<Tile>, b: grid::Grid<Tile>, cols: nat, n: nat)
    requires
        tile_cells(a) == tile_cells(b),
    ensures
        spawn_cells_upto(a, cols, n) == spawn_cells_upto(b, cols, n),
    decreases n,
{
    if n > 0 {
        lemma_spawn_cells_same(a, b, cols, (n - 1) as nat);
    }
}

/// A template that describes the same stage as one that fits, fits too.
pub proof fn lemma_same_template_fits(a: StageTemplate, b: StageTemplate)
    requires
        same_template(a, b),
        template_fits(b),
    ensures
        template_fits(a),
{
    lemma_spawn_cells_same(a.tiles.grid, b.tiles.grid, tile_cols(a.tiles.grid),
        tile_cells(a.tiles.grid).len() * tile_cols(a.tiles.grid));
}

impl Stage {
    /// The player's avatar arrives at the head of the stage: a new turn holds
    /// its arrival, and the player is tracked from that turn.
    pub fn add_player(&mut self, player: &Player)
        requires
            old(self).wf(),
            old(self).head_turn < u64::MAX - 2,
        ensures
            final(self).wf(),
            final(self).head_turn == old(self).head_turn + 1,
            final(self).spec_tail_turn() == old(self).spec_tail_turn(),
            final(self).template == old(self).template,
            final(self).avatar_trackers@.dom() == old(self).avatar_trackers@.dom().insert(player.id),
            forall|p: PlayerId| #[trigger] final(self).avatar_trackers@.contains_key(p) && p != player.id
                ==> final(self).avatar_trackers@[p] == old(self).avatar_trackers@[p],
            final(self).avatar_trackers@[player.id].turn == final(self).head_turn,
            !final(self).avatar_trackers@[player.id].limbo,
            final(self).avatar_trackers@[player.id].player_name@ == player.name@,
            final(self).diffs@.len() == old(self).diffs@.len() + 1,
            final(self).diffs@.subrange(0, old(self).diffs@.len() as int) == old(self).diffs@,
            final(self).diffs@.last().cmd_by_avatar@ == Map::<AvatarId, AvatarCmd>::empty(),
            final(self).diffs@.last().new_avatar matches Some(a) && same_avatar(a, player.last_avatar),
    {
        let avatar = player.last_avatar.clone();
        self.head_turn = self.head_turn + 1;
        self.diffs.push(TurnDiff { cmd_by_avatar: BTreeMap::new(), new_avatar: Some(avatar) });
        let tracker = AvatarTracker::new(&player.name, self.head_turn);
        self.avatar_trackers.insert(player.id, tracker);
        proof {
            assert(self.states@.contains_key(old(self).head_turn));
            assert(self.diffs@.subrange(0, old(self).diffs@.len() as int) =~= old(self).diffs@);
        }
        let head = self.head_turn;
        self.rollback_from(head);
    }

    /// The player leaves the stage; gives back its avatar, as it is at the
    /// player's turn. The bounds it witnessed are dropped and the history
    /// that no player needs anymore is cleaned.
    pub fn remove_player(&mut self, pid: PlayerId) -> (r: Option<Avatar>)
        requires
            old(self).wf(),
        ensures
            final(self).wf(),
            final(self).avatar_trackers@ == old(self).avatar_trackers@.remove(pid),
            same_template(final(self).template, old(self).template),
            !old(self).avatar_trackers@.contains_key(pid) ==> r is None && *final(self) == *old(self),
            final(self).head_turn <= old(self).head_turn,
            old(self).avatar_trackers@.contains_key(pid) ==> {
                let s = old(self).spec_states()[old(self).avatar_trackers@[pid].turn];
                &&& r is Some <==> s.avatars@.contains_key(pid)
                &&& r matches Some(a) ==> same_avatar(a, s.avatars@[pid])
            },
    {
        let state = match self.state_for(pid) {
            Some(s) => s,
            None => return None,
        };
        let avatar = match state.avatars.get(&pid) {
            Some(a) => Some(a.clone()),
            None => None,
        };
        self.avatar_trackers.remove(&pid);
        self.bounds.release(pid);
        proof {
            assert forall|p: PlayerId| #[trigger] self.avatar_trackers@.contains_key(p) implies
                old(self).avatar_trackers@.contains_key(p) by {}
        }
        self.clean_history();
        avatar
    }

    /// Forgets the turns older than the earliest player: the diffs that lead
    /// to them and their states. A stage with no player left starts anew.
    fn clean_history(&mut self)
        requires
            old(self).wf(),
        ensures
            final(self).wf(),
            final(self).avatar_trackers@ == old(self).avatar_trackers@,
            same_template(final(self).template, old(self).template),
            old(self).avatar_trackers@.dom().len() == 0 ==> final(self).head_turn == 0,
            old(self).avatar_trackers@.dom().len() > 0 ==> {
                &&& final(self).head_turn == old(self).head_turn
                &&& final(self).template == old(self).template
                &&& final(self).seed == old(self).seed
                &&& final(self).bounds == old(self).bounds
                &&& (exists|p: PlayerId| #[trigger] old(self).avatar_trackers@.contains_key(p)
                    && final(self).spec_tail_turn() == old(self).avatar_trackers@[p].turn)
                &&& (forall|p: PlayerId| #[trigger] old(self).avatar_trackers@.contains_key(p)
                    ==> final(self).spec_tail_turn() <= old(self).avatar_trackers@[p].turn)
                &&& final(self).diffs@ == old(self).diffs@.subrange(final(self).spec_tail_turn() - old(self).spec_tail_turn(),
                    old(self).diffs@.len() as int)
                &&& forall|t: Turn| #[trigger] final(self).states@.contains_key(t) <==> old(self).states@.contains_key(t)
                    && t >= final(self).spec_tail_turn()
                &&& forall|t: Turn| #[trigger] final(self).states@.contains_key(t) ==> final(self).states@[t] == old(self).states@[t]
            },
    {
        let keys = player_keys(&self.avatar_trackers);
        let n = keys.len();
        if n == 0 {
            let template = self.template.clone();
            proof {
                lemma_same_template_fits(template, self.template);
            }
            *self = Stage::new(template);
            proof {
                assert(old(self).avatar_trackers@.dom() =~= Set::<PlayerId>::empty());
                assert(old(self).avatar_trackers@ =~= Map::<PlayerId, AvatarTracker>::empty());
            }
            return;
        }
        let mut oldest: Turn = self.head_turn;
        let mut i: usize = 0;
        while i < n
            invariant
                n == keys@.len(),
                0 < n,
                i <= n,
                keys@.to_set() == self.avatar_trackers@.dom(),
                *self == *old(self),
                old(self).wf(),
                oldest <= self.head_turn,
                i > 0 ==> exists|j: int| 0 <= j < i && self.avatar_trackers@[keys@[j]].turn == oldest,
                forall|j: int| 0 <= j < i ==> oldest <= #[trigger] self.avatar_trackers@[keys@[j]].turn,
            decreases n - i,
        {
            let pid = keys[i];
            proof {
                assert(keys@.to_set().contains(pid));
            }
            match self.avatar_trackers.get(&pid) {
                Some(tracker) => {
                    if i == 0 || tracker.turn < oldest {
                        oldest = tracker.turn;
                    }
                },
                None => {},
            }
            i = i + 1;
        }
        let ghost oldest_pid = {
            let j = choose|j: int| 0 <= j < n && self.avatar_trackers@[keys@[j]].turn == oldest;
            keys@[j]
        };
        proof {
            assert(keys@.to_set().contains(oldest_pid));
            assert forall|p: PlayerId| #[trigger] self.avatar_trackers@.contains_key(p) implies oldest <= self.avatar_trackers@[p].turn by {
                assert(keys@.to_set().contains(p));
                let j = choose|j: int| 0 <= j < n && keys@[j] == p;
                assert(oldest <= self.avatar_trackers@[keys@[j]].turn);
            }
        }
        let index = self.diff_index(oldest);
        let kept = self.diffs.split_off(index);
        self.diffs = kept;
        let tail = self.head_turn + 1 - self.diffs.len() as u64;
        let skeys = turn_keys(&self.states);
        let ns = skeys.len();
        let mut k: usize = 0;
        let ghost old_states = self.states@;
        while k < ns
            invariant
                ns == skeys@.len(),
                k <= ns,
                skeys@.to_set() == old_states.dom(),
                old_states == old(self).states@,
                self.head_turn == old(self).head_turn,
                self.template == old(self).template,
                self.seed == old(self).seed,
                self.bounds == old(self).bounds,
                self.avatar_trackers@ == old(self).avatar_trackers@,
                index < old(self).diffs@.len(),
                self.diffs@ == old(self).diffs@.subrange(index as int, old(self).diffs@.len() as int),
                forall|t: Turn| #[trigger] self.states@.contains_key(t) <==> old_states.contains_key(t)
                    && (t >= tail || !(exists|j: int| 0 <= j < k && skeys@[j] == t)),
                forall|t: Turn| #[trigger] self.states@.contains_key(t) ==> self.states@[t] == old_states[t],
            decreases ns - k,
        {
            let key = skeys[k];
            if key < tail {
                self.states.remove(&key);
            }
            proof {
                assert forall|t: Turn| #[trigger] self.states@.contains_key(t) <==> old_states.contains_key(t)
                    && (t >= tail || !(exists|j: int| 0 <= j < k + 1 && skeys@[j] == t)) by {
                    if exists|j: int| 0 <= j < k + 1 && skeys@[j] == t {
                        let j = choose|j: int| 0 <= j < k + 1 && skeys@[j] == t;
                        if j < k {
                            assert(exists|j: int| 0 <= j < k && skeys@[j] == t);
                        }
                    }
                }
            }
            k = k + 1;
        }
        proof {
            assert forall|t: Turn| #[trigger] self.states@.contains_key(t) <==> old_states.contains_key(t) && t >= tail by {
                if old_states.contains_key(t) {
                    assert(skeys@.to_set().contains(t));
                }
            }
            assert(self.spec_tail_turn() == oldest);
        }
    }

    /// What the senses of the player's avatar gather at the player's turn;
    /// nothing when the avatar is tired.
    pub fn gather_info(&self, aid: PlayerId, senses: &Senses) -> (r: Result<SensesInfo, StageError>)
        requires
            self.wf(),
        ensures
            !self.avatar_trackers@.contains_key(aid) ==> r == Err::<SensesInfo, StageError>(StageError::UnknownAvatar),
            self.avatar_trackers@.contains_key(aid) ==> {
                let s = self.spec_states()[self.avatar_trackers@[aid].turn];
                &&& !s.avatars@.contains_key(aid) ==> r == Err::<SensesInfo, StageError>(StageError::MissingState)
                &&& s.avatars@.contains_key(aid) ==> (r matches Ok(info) && {
                    let a = s.avatars@[aid];
                    &&& info.selfi is Some <==> senses.selfs && !a.tired
                    &&& info.touch is Some <==> senses.touch && !a.tired
                    &&& info.sight is Some <==> senses.sight.spec_get() != 0 && !a.tired
                    &&& info.hearing is Some <==> senses.hearing.spec_get() != 0 && !a.tired
                    &&& !a.tired ==> senses_gathered(info, *senses, a, *self, s, spec_tail_state(*self))
                })
            },
    {
        let state = match self.state_for(aid) {
            Some(s) => s,
            None => return Err(StageError::UnknownAvatar),
        };
        let tail_state = self.tail_state();
        let avatar = match state.avatars.get(&aid) {
            Some(a) => a,
            None => return Err(StageError::MissingState),
        };
        if !avatar.tired {
            return Ok(crate::gather::gather(senses, avatar, self, &state, tail_state));
        }
        Ok(SensesInfo::empty())
    }
}

/// The senses `aid` commanded for `turn`, or the default ones when it
/// commanded none.
pub open spec fn commanded_senses(stage: Stage, turn: Turn, aid: PlayerId, senses: Senses) -> bool {
    let d = stage.diffs@[turn - stage.spec_tail_turn()];
    if d.cmd_by_avatar@.contains_key(aid) {
        senses == d.cmd_by_avatar@[aid].senses
    } else {
        &&& senses.selfs
        &&& !senses.touch
        &&& senses.sight.spec_get() == 5
        &&& senses.hearing.spec_get() == 0
    }
}

/// `info` is what the player `pid`, at its turn `turn`, perceives with the
/// senses of its command for that turn.
pub open spec fn reported_info(stage: Stage, pid: PlayerId, turn: Turn, info: SensesInfo) -> bool {
    exists|senses: Senses| #[trigger] commanded_senses(stage, turn, pid, senses) && perceived_at_turn(stage, pid, senses, info)
}

/// What the avatar of `aid` perceives with `senses` at its player's turn:
/// nothing when it is tired or not on the stage, otherwise what each sense
/// used gathers.
#[verifier::opaque]
pub open spec fn perceived_at_turn(stage: Stage, aid: PlayerId, senses: Senses, info: SensesInfo) -> bool {
    if stage.avatar_trackers@.contains_key(aid)
        && stage.spec_states()[stage.avatar_trackers@[aid].turn].avatars@.contains_key(aid) {
        let s = stage.spec_states()[stage.avatar_trackers@[aid].turn];
        let a = s.avatars@[aid];
        &&& info.selfi is Some <==> senses.selfs && !a.tired
        &&& info.touch is Some <==> senses.touch && !a.tired
        &&& info.sight is Some <==> senses.sight.spec_get() != 0 && !a.tired
        &&& info.hearing is Some <==> senses.hearing.spec_get() != 0 && !a.tired
        &&& !a.tired ==> senses_gathered(info, senses, a, stage, s, spec_tail_state(stage))
    } else {
        &&& info.selfi is None
        &&& info.touch is None
        &&& info.sight is None
        &&& info.hearing is None
    }
}

/// The kind of a change of fate.
#[derive(Debug, Clone, Copy, PartialEq, Eq, Structural)]
pub enum LimboTag {
    Dead,
    MaybeDead,
    Averted,
    TooFarBehind,
}

pub open spec fn limbo_tag(l: Limbo) -> LimboTag {
    match l {
        Limbo::Dead(_) => LimboTag::Dead,
        Limbo::MaybeDead(_) => LimboTag::MaybeDead,
        Limbo::Averted(_, _) => LimboTag::Averted,
        Limbo::TooFarBehind(_) => LimboTag::TooFarBehind,
    }
}

/// The players in the order of their turns (then of their ids).
pub open spec fn is_turn_order(order: Seq<(Turn, PlayerId)>, trackers: Map<PlayerId, AvatarTracker>) -> bool {
    &&& forall|i: int, j: int| 0 <= i < j < order.len() ==> turn_pair_less(order[i], order[j])
    &&& forall|e: (Turn, PlayerId)| #[trigger] order.contains(e) <==> trackers.contains_key(e.1) && trackers[e.1].turn == e.0
}

/// The changes of fate of the first `n` players of `order`, and whether one
/// of them is alive. Walking from the earliest turn: an avatar far behind the
/// head is too far behind; a dead avatar with no living one before it is
/// dead; a dead avatar with a living one before it may be dead, when it was
/// not already told so; an avatar thought dead that lives again is averted.
pub open spec fn spec_limbo_fold(stage: Stage, order: Seq<(Turn, PlayerId)>, n: nat) -> (Seq<(PlayerId, LimboTag)>, bool)
    decreases n,
{
    if n == 0 {
        (Seq::empty(), false)
    } else {
        let (tags, earlier_alive) = spec_limbo_fold(stage, order, (n - 1) as nat);
        let (turn, aid) = order[n - 1];
        if !stage.states@.contains_key(turn) || !stage.states@[turn].avatars@.contains_key(aid) {
            (tags, earlier_alive)
        } else {
            let dead = stage.states@[turn].avatars@[aid].spec_is_dead();
            let in_limbo = stage.avatar_trackers@[aid].limbo;
            if crate::types::abs_diff(turn as int, stage.head_turn as int) > 100 {
                (tags.push((aid, LimboTag::TooFarBehind)), earlier_alive)
            } else {
                let tags = if !earlier_alive && dead {
                    tags.push((aid, LimboTag::Dead))
                } else if in_limbo && !dead {
                    tags.push((aid, LimboTag::Averted))
                } else if earlier_alive && !in_limbo && dead {
                    tags.push((aid, LimboTag::MaybeDead))
                } else {
                    tags
                };
                (tags, earlier_alive || !dead)
            }
        }
    }
}

/// The avatar of `pid` at its turn on `st` is `a`.
pub open spec fn avatar_at_turn(st: Stage, pid: PlayerId, a: Avatar) -> bool {
    let t = st.avatar_trackers@[pid].turn;
    &&& st.avatar_trackers@.contains_key(pid)
    &&& st.spec_states().contains_key(t)
    &&& st.spec_states()[t].avatars@.contains_key(pid)
    &&& same_avatar(a, st.spec_states()[t].avatars@[pid])
}

/// `l` is a change of fate of `pid` on `st`: a death, or a fall too far behind,
/// carries the avatar of the player's turn; the others name the player.
pub open spec fn limbo_of(l: Limbo, pid: PlayerId, st: Stage) -> bool {
    match l {
        Limbo::Dead(a) => avatar_at_turn(st, pid, a),
        Limbo::TooFarBehind(a) => avatar_at_turn(st, pid, a),
        Limbo::MaybeDead(p) => p == pid,
        Limbo::Averted(p, _) => p == pid,
    }
}

/// `limbos` are the changes of fate of the players of `st`, walking them in
/// the order of their turns, and `after` the players that stay on it.
pub open spec fn limbos_told(st: Stage, limbos: Seq<Limbo>, after: Map<PlayerId, AvatarTracker>) -> bool {
    exists|order: Seq<(Turn, PlayerId)>| #[trigger] is_turn_order(order, st.avatar_trackers@) && {
        let tags = spec_limbo_fold(st, order, order.len()).0;
        &&& limbos.len() == tags.len()
        &&& forall|i: int| 0 <= i < limbos.len() ==> #[trigger] limbo_tag(limbos[i]) == tags[i].1
        &&& forall|i: int| 0 <= i < limbos.len() ==> #[trigger] limbo_of(limbos[i], tags[i].0, st)
        &&& after == spec_apply_limbos(st.avatar_trackers@, tags, tags.len())
    }
}

/// `st` is `old` once the command `cmd` of `aid` for its next turn is recorded
/// and the timeline replayed from that turn: the player stands at that turn;
/// the turn's diff (a new one when the player was at the head) holds the
/// command; everything else, and the states before that turn, are kept; and
/// every replayed state agrees with what the players witnessed at its turn.
pub open spec fn replayed(old: Stage, st: Stage, aid: PlayerId, cmd: AvatarCmd) -> bool {
    let t = old.avatar_trackers@[aid].turn + 1;
    let k = t - old.spec_tail_turn();
    &&& st.wf()
    &&& st.template == old.template
    &&& st.seed == old.seed
    &&& st.bounds == old.bounds
    &&& st.head_turn == if old.head_turn < t { t } else { old.head_turn as int }
    &&& st.spec_tail_turn() == old.spec_tail_turn()
    &&& st.avatar_trackers@ == old.avatar_trackers@.insert(aid, AvatarTracker { turn: t as u64, ..old.avatar_trackers@[aid] })
    &&& 0 <= k < st.diffs@.len()
    &&& forall|j: int| 0 <= j < st.diffs@.len() && j != k ==> #[trigger] st.diffs@[j] == old.diffs@[j]
    &&& st.diffs@[k].cmd_by_avatar@ == if k < old.diffs@.len() {
        old.diffs@[k].cmd_by_avatar@.insert(aid, cmd)
    } else {
        Map::<AvatarId, AvatarCmd>::empty().insert(aid, cmd)
    }
    &&& st.diffs@[k].new_avatar == if k < old.diffs@.len() { old.diffs@[k].new_avatar } else { None }
    &&& forall|u: Turn| #[trigger] st.spec_states().contains_key(u) && u < t
        ==> old.spec_states().contains_key(u) && st.spec_states()[u] == old.spec_states()[u]
    &&& forall|u: Turn| #[trigger] st.spec_states().contains_key(u) && u >= t
        ==> agrees_with_witnesses(st.bounds, st.spec_states()[u])
}

/// What the command answers on the replayed stage `st`: the player's new
/// turn, where its avatar stands; the transition its avatar took; what its
/// senses perceive there; and the events it perceives there.
pub open spec fn answered(st: Stage, aid: PlayerId, senses: Senses, res: StageCommandResult) -> bool {
    let t = st.avatar_trackers@[aid].turn;
    let s = st.spec_states()[t];
    &&& s.avatars@.contains_key(aid)
    &&& res.stage_turn == t
    &&& res.transition == s.avatars@[aid].transition
    &&& perceived_at_turn(st, aid, senses, res.senses_info)
    &&& perceives_events(res.events@, senses, st, s, aid)
}

/// The stage `fin` after the replayed `st` settles the changes of fate
/// `limbos`: those players leave or are marked; while players remain, the
/// timeline keeps its head and the states it still holds.
pub open spec fn settled(st: Stage, fin: Stage, limbos: Seq<Limbo>) -> bool {
    &&& limbos_told(st, limbos, fin.avatar_trackers@)
    &&& fin.avatar_trackers@.dom().len() > 0 ==> {
        &&& fin.template == st.template
        &&& fin.head_turn == st.head_turn
        &&& forall|u: Turn| #[trigger] fin.spec_states().contains_key(u)
            ==> st.spec_states().contains_key(u) && fin.spec_states()[u] == st.spec_states()[u]
    }
}

/// The command of `aid`, `action` with `senses`, played on `old` gives `res`
/// and leaves `fin`: it is recorded and the timeline replayed; `res` answers
/// it on the replayed stage, whose changes of fate `fin` settles.
pub open spec fn played(old: Stage, fin: Stage, aid: PlayerId, action: ClientAction, senses: Senses, res: StageCommandResult) -> bool {
    exists|st: Stage| #[trigger] replayed(old, st, aid, AvatarCmd { action: spec_convert_client(action, old, aid), senses })
        && answered(st, aid, senses, res)
        && settled(st, fin, res.limbos@)
}

/// A command never makes the past contradict what players witnessed: every
/// state the stage holds after it, from the commanded turn on, agrees with
/// the bounds witnessed before the command (health seen, foes seen dead or
/// somewhere), whatever the replay brought about.
pub proof fn lemma_command_respects_witnesses(
    old: Stage,
    fin: Stage,
    aid: PlayerId,
    action: ClientAction,
    senses: Senses,
    res: StageCommandResult,
    u: Turn,
)
    requires
        played(old, fin, aid, action, senses, res),
        fin.avatar_trackers@.dom().len() > 0,
        fin.spec_states().contains_key(u),
        u > old.avatar_trackers@[aid].turn,
    ensures
        agrees_with_witnesses(old.bounds, fin.spec_states()[u]),
{
    let st = choose|st: Stage| #[trigger] replayed(old, st, aid, AvatarCmd { action: spec_convert_client(action, old, aid), senses })
        && answered(st, aid, senses, res)
        && settled(st, fin, res.limbos@);
    assert(st.spec_states().contains_key(u));
}

/// The tags of a list of changes of fate.
pub open spec fn limbo_tags(r: Seq<(PlayerId, Limbo)>) -> Seq<(PlayerId, LimboTag)> {
    r.map_values(|e: (PlayerId, Limbo)| (e.0, limbo_tag(e.1)))
}

impl Stage {
    /// The players sorted by turn, then by id.
    fn turn_order(&self) -> (r: Vec<(Turn, PlayerId)>)
        ensures
            is_turn_order(r@, self.avatar_trackers@),
    {
        let keys = player_keys(&self.avatar_trackers);
        let mut m: BTreeMap<(Turn, PlayerId), ()> = BTreeMap::new();
        let n = keys.len();
        let mut i: usize = 0;
        while i < n
            invariant
                n == keys@.len(),
                i <= n,
                keys@.to_set() == self.avatar_trackers@.dom(),
                forall|e: (Turn, PlayerId)| #[trigger] m@.contains_key(e) <==> (exists|j: int| 0 <= j < i && keys@[j] == e.1)
                    && self.avatar_trackers@[e.1].turn == e.0,
            decreases n - i,
        {
            let pid = keys[i];
            proof {
                assert(keys@.to_set().contains(pid));
            }
            match self.avatar_trackers.get(&pid) {
                Some(tracker) => {
                    m.insert((tracker.turn, pid), ());
                },
                None => {},
            }
            proof {
                assert forall|e: (Turn, PlayerId)| #[trigger] m@.contains_key(e) <==> (exists|j: int| 0 <= j < i + 1 && keys@[j] == e.1)
                    && self.avatar_trackers@[e.1].turn == e.0 by {
                    if exists|j: int| 0 <= j < i + 1 && keys@[j] == e.1 {
                        let j = choose|j: int| 0 <= j < i + 1 && keys@[j] == e.1;
                        if j < i {
                            assert(exists|j: int| 0 <= j < i && keys@[j] == e.1);
                        }
                    }
                }
            }
            i = i + 1;
        }
        let r = turn_pair_keys(&m);
        proof {
            assert forall|e: (Turn, PlayerId)| #[trigger] r@.contains(e) <==> self.avatar_trackers@.contains_key(e.1)
                && self.avatar_trackers@[e.1].turn == e.0 by {
                assert(r@.contains(e) <==> r@.to_set().contains(e));
                if self.avatar_trackers@.contains_key(e.1) {
                    assert(keys@.to_set().contains(e.1));
                }
            }
        }
        r
    }

    /// What the saved avatar of `aid` perceives at its turn `turn`, with the
    /// senses it commanded for that turn, or the default ones.
    fn info_at_turn(&self, turn: Turn, aid: PlayerId) -> (r: SensesInfo)
        requires
            self.wf(),
            self.spec_tail_turn() <= turn <= self.head_turn,
        ensures
            exists|senses: Senses| #[trigger] commanded_senses(*self, turn, aid, senses) && perceived_at_turn(*self, aid, senses, r),
    {
        // Get senses from the diff at this turn
        let index = self.diff_index(turn);
        let senses = match self.diffs[index].cmd_by_avatar.get(&aid) {
            Some(cmd) => cmd.senses,
            None => Senses::default(),
        };
        let r = match self.gather_info(aid, &senses) {
            Ok(info) => info,
            Err(_) => SensesInfo::empty(),
        };
        proof {
            reveal(perceived_at_turn);
            assert(commanded_senses(*self, turn, aid, senses) && perceived_at_turn(*self, aid, senses, r));
        }
        r
    }

    /// The changes of fate of the players, walking the timeline from its tail.
    fn limbo_check(&self) -> (r: Vec<(PlayerId, Limbo)>)
        requires
            self.wf(),
        ensures
            exists|order: Seq<(Turn, PlayerId)>| #[trigger] is_turn_order(order, self.avatar_trackers@)
                && limbo_tags(r@) == spec_limbo_fold(*self, order, order.len()).0,
            forall|i: int| 0 <= i < r@.len() ==> #[trigger] self.avatar_trackers@.contains_key(r@[i].0),
            forall|i: int| 0 <= i < r@.len() ==> #[trigger] limbo_of(r@[i].1, r@[i].0, *self),
    {
        let order = self.turn_order();
        let mut has_earlier_alive = false;
        let mut results: Vec<(PlayerId, Limbo)> = Vec::new();
        let n = order.len();
        let mut i: usize = 0;
        while i < n
            invariant
                n == order@.len(),
                i <= n,
                self.wf(),
                is_turn_order(order@, self.avatar_trackers@),
                (limbo_tags(results@), has_earlier_alive) == spec_limbo_fold(*self, order@, i as nat),
                forall|k: int| 0 <= k < results@.len() ==> #[trigger] self.avatar_trackers@.contains_key(results@[k].0),
                forall|k: int| 0 <= k < results@.len() ==> #[trigger] limbo_of(results@[k].1, results@[k].0, *self),
            decreases n - i,
        {
            let (turn, aid) = order[i];
            proof {
                assert(order@.contains(order@[i as int]));
                assert(self.avatar_trackers@.contains_key(aid) && self.avatar_trackers@[aid].turn == turn);
            }
            let ghost tags0 = limbo_tags(results@);
            let ghost r0 = results@;
            match self.states.get(&turn) {
                None => {},
                Some(state) => {
                    match state.avatars.get(&aid) {
                        None => {},
                        Some(avatar) => {
                            let too_far = if turn >= self.head_turn {
                                turn - self.head_turn > 100
                            } else {
                                self.head_turn - turn > 100
                            };
                            if too_far {
                                results.push((aid, Limbo::TooFarBehind(avatar.clone())));
                            } else {
                                let in_limbo = match self.avatar_trackers.get(&aid) {
                                    Some(tracker) => tracker.limbo,
                                    None => false,
                                };
                                let dead = avatar.is_dead();
                                if !has_earlier_alive && dead {
                                    results.push((aid, Limbo::Dead(avatar.clone())));
                                } else if in_limbo && !dead {
                                    let senses_info = self.info_at_turn(turn, aid);
                                    results.push((aid, Limbo::Averted(aid, senses_info)));
                                } else if has_earlier_alive && !in_limbo && dead {
                                    results.push((aid, Limbo::MaybeDead(aid)));
                                }
                                if !dead {
                                    has_earlier_alive = true;
                                }
                            }
                        },
                    }
                },
            }
            proof {
                assert(limbo_tags(results@) =~= spec_limbo_fold(*self, order@, (i + 1) as nat).0);
            }
            i = i + 1;
        }
        results
    }

    /// Applies the changes of fate: the dead and those too far behind leave the
    /// stage, those that may be dead are marked, those averted are unmarked.
    pub fn handle_limbo(&mut self) -> (r: Vec<Limbo>)
        requires
            old(self).wf(),
        ensures
            final(self).wf(),
            final(self).template == old(self).template,
            final(self).seed == old(self).seed,
            final(self).head_turn == old(self).head_turn,
            final(self).diffs@ == old(self).diffs@,
            final(self).states@ == old(self).states@,
            final(self).bounds == old(self).bounds,
            forall|p: PlayerId| #[trigger] final(self).avatar_trackers@.contains_key(p) ==> old(self).avatar_trackers@.contains_key(p)
                && final(self).avatar_trackers@[p].turn == old(self).avatar_trackers@[p].turn,
            limbos_told(*old(self), r@, final(self).avatar_trackers@),
    {
        let statuses = self.limbo_check();
        let ghost tags = limbo_tags(statuses@);
        let mut out: Vec<Limbo> = Vec::new();
        let n = statuses.len();
        let mut statuses = statuses;
        let ghost all = statuses@;
        let mut i: usize = 0;
        while i < n
            invariant
                n == all.len(),
                i <= n,
                tags == limbo_tags(all),
                statuses@ == all.subrange(i as int, n as int),
                out@.len() == i,
                forall|k: int| 0 <= k < i ==> #[trigger] limbo_tag(out@[k]) == tags[k].1,
                forall|k: int| 0 <= k < i ==> #[trigger] out@[k] == all[k].1,
                forall|k: int| 0 <= k < n ==> #[trigger] limbo_of(all[k].1, all[k].0, *old(self)),
                self.avatar_trackers@ == spec_apply_limbos(old(self).avatar_trackers@, tags, i as nat),
                self.template == old(self).template,
                self.seed == old(self).seed,
                self.head_turn == old(self).head_turn,
                self.diffs@ == old(self).diffs@,
                self.states@ == old(self).states@,
                self.bounds == old(self).bounds,
            decreases n - i,
        {
            let (aid, status) = statuses.remove(0);
            proof {
                assert(all[i as int] == (aid, status));
            }
            match &status {
                Limbo::Dead(_) | Limbo::TooFarBehind(_) => {
                    self.avatar_trackers.remove(&aid);
                },
                Limbo::MaybeDead(_) => {
                    if let Some(mut tracker) = self.avatar_trackers.remove(&aid) {
                        tracker.limbo = true;
                        self.avatar_trackers.insert(aid, tracker);
                    }
                },
                Limbo::Averted(_, _) => {
                    if let Some(mut tracker) = self.avatar_trackers.remove(&aid) {
                        tracker.limbo = false;
                        self.avatar_trackers.insert(aid, tracker);
                    }
                },
            }
            out.push(status);
            proof {
                assert(statuses@ =~= all.subrange(i + 1, n as int));
                assert(self.avatar_trackers@ =~= spec_apply_limbos(old(self).avatar_trackers@, tags, (i + 1) as nat));
            }
            i = i + 1;
        }
        proof {
            lemma_apply_limbos_shrinks(old(self).avatar_trackers@, tags, n as nat);
            assert forall|k: int| 0 <= k < out@.len() implies #[trigger] limbo_of(out@[k], tags[k].0, *old(self)) by {
                assert(out@[k] == all[k].1);
                assert(tags[k].0 == all[k].0);
            }
            let order = choose|order: Seq<(Turn, PlayerId)>| #[trigger] is_turn_order(order, old(self).avatar_trackers@)
                && limbo_tags(all) == spec_limbo_fold(*old(self), order, order.len()).0;
            assert(is_turn_order(order, old(self).avatar_trackers@));
        }
        out
    }
}

/// The trackers once the first `n` changes of fate are applied.
pub open spec fn spec_apply_limbos(trackers: Map<PlayerId, AvatarTracker>, tags: Seq<(PlayerId, LimboTag)>, n: nat) -> Map<PlayerId, AvatarTracker>
    decreases n,
{
    if n == 0 {
        trackers
    } else {
        let m = spec_apply_limbos(trackers, tags, (n - 1) as nat);
        let (p, tag) = tags[n - 1];
        match tag {
            LimboTag::Dead => m.remove(p),
            LimboTag::TooFarBehind => m.remove(p),
            LimboTag::MaybeDead => if m.contains_key(p) {
                m.insert(p, AvatarTracker { limbo: true, ..m[p] })
            } else {
                m
            },
            LimboTag::Averted => if m.contains_key(p) {
                m.insert(p, AvatarTracker { limbo: false, ..m[p] })
            } else {
                m
            },
        }
    }
}

proof fn lemma_apply_limbos_shrinks(trackers: Map<PlayerId, AvatarTracker>, tags: Seq<(PlayerId, LimboTag)>, n: nat)
    ensures
        forall|p: PlayerId| #[trigger] spec_apply_limbos(trackers, tags, n).contains_key(p) ==> trackers.contains_key(p)
            && spec_apply_limbos(trackers, tags, n)[p].turn == trackers[p].turn,
    decreases n,
{
    if n > 0 {
        lemma_apply_limbos_shrinks(trackers, tags, (n - 1) as nat);
        let m = spec_apply_limbos(trackers, tags, (n - 1) as nat);
        let r = spec_apply_limbos(trackers, tags, n);
        assert forall|p: PlayerId| #[trigger] r.contains_key(p) implies trackers.contains_key(p) && r[p].turn == trackers[p].turn by {
            assert(m.contains_key(p));
        }
    }
}

impl Stage {
    /// What the player witnessed binds the stage at that turn: its health,
    /// and the foes it saw.
    fn bind_states(&mut self, turn: StageTurn, avatar: &Avatar, info: &SensesInfo)
        requires
            old(self).wf(),
        ensures
            final(self).wf(),
            final(self).template == old(self).template,
            final(self).seed == old(self).seed,
            final(self).head_turn == old(self).head_turn,
            final(self).avatar_trackers@ == old(self).avatar_trackers@,
            final(self).states@ == old(self).states@,
            final(self).diffs@ == old(self).diffs@,
            final(self).bounds.avatars@ == match info.selfi {
                Some(si) => old(self).bounds.avatars@.insert(avatar.player_id,
                    crate::bounds::MaxHpBound { value: si.hp, turn, source: avatar.player_id }),
                None => old(self).bounds.avatars@,
            },
            info.sight is None ==> final(self).bounds.death_bounds@ == old(self).bounds.death_bounds@
                && final(self).bounds.position_bounds@ == old(self).bounds.position_bounds@,
    {
        if let Some(selfi) = &info.selfi {
            self.bounds.add_self_bounds(avatar.player_id, turn, avatar.player_id, selfi);
        }
        if let Some(sight) = &info.sight {
            self.bounds.add_sight_bounds(avatar, turn, sight);
        }
    }

    /// The player is at `turn` on the stage, and the state of that turn holds
    /// no avatar of it.
    pub open spec fn lacks_avatar(st: Stage, aid: PlayerId, turn: Turn) -> bool {
        &&& st.avatar_trackers@.contains_key(aid)
        &&& st.avatar_trackers@[aid].turn == turn
        &&& !st.spec_states()[turn].avatars@.contains_key(aid)
    }

    /// The player's command for its next turn: the stage records it, rolls
    /// back from that turn, and answers with what the avatar's senses gather,
    /// the events it perceives and the changes of fate of all players.
    #[verifier::rlimit(80)]
    #[verifier::spinoff_prover]
    pub fn add_command(&mut self, aid: PlayerId, action: ClientAction, senses: Senses) -> (r: Result<StageCommandResult, StageError>)
        requires
            old(self).wf(),
            old(self).head_turn < u64::MAX - 2,
        ensures
            final(self).wf(),
            same_template(final(self).template, old(self).template),
            !old(self).avatar_trackers@.contains_key(aid) ==> r == Err::<StageCommandResult, StageError>(StageError::UnknownAvatar)
                && *final(self) == *old(self),
            old(self).avatar_trackers@.contains_key(aid) ==> {
                &&& r matches Ok(res) ==> {
                    &&& res.stage_turn == old(self).avatar_trackers@[aid].turn + 1
                    &&& res.action == spec_convert_client(action, *old(self), aid)
                    &&& res.timeline.head == final(self).head_turn
                    &&& res.timeline.tail == final(self).spec_tail_turn()
                }
                &&& final(self).avatar_trackers@.contains_key(aid)
                    ==> final(self).avatar_trackers@[aid].turn == old(self).avatar_trackers@[aid].turn + 1
                &&& forall|p: PlayerId| #[trigger] final(self).avatar_trackers@.contains_key(p) && p != aid
                    ==> old(self).avatar_trackers@.contains_key(p)
                    && final(self).avatar_trackers@[p].turn == old(self).avatar_trackers@[p].turn
                &&& r is Ok || r == Err::<StageCommandResult, StageError>(StageError::MissingState)
                &&& r == Err::<StageCommandResult, StageError>(StageError::MissingState)
                    ==> Stage::lacks_avatar(*final(self), aid, (old(self).avatar_trackers@[aid].turn + 1) as u64)
                    && replayed(*old(self), *final(self), aid, AvatarCmd { action: spec_convert_client(action, *old(self), aid), senses })
                &&& r matches Ok(res) ==> played(*old(self), *final(self), aid, action, senses, res)
                &&& r is Ok && final(self).avatar_trackers@.contains_key(aid)
                    ==> !Stage::lacks_avatar(*final(self), aid, (old(self).avatar_trackers@[aid].turn + 1) as u64)
                &&& r is Ok && final(self).avatar_trackers@.dom().len() > 0 ==> final(self).head_turn == if old(self).head_turn
                    < old(self).avatar_trackers@[aid].turn + 1 {
                    (old(self).avatar_trackers@[aid].turn + 1) as u64
                } else {
                    old(self).head_turn
                }
                &&& r is Ok && final(self).avatar_trackers@.contains_key(aid) ==> {
                    let k = old(self).avatar_trackers@[aid].turn + 1 - final(self).spec_tail_turn();
                    &&& 0 <= k < final(self).diffs@.len()
                    &&& final(self).diffs@[k].cmd_by_avatar@.contains_key(aid)
                    &&& final(self).diffs@[k].cmd_by_avatar@[aid] == (AvatarCmd { action: spec_convert_client(action, *old(self), aid), senses })
                }
                &&& final(self).avatar_trackers@.contains_key(aid) ==> match r {
                    Ok(res) => {
                        let a = final(self).spec_states()[(old(self).avatar_trackers@[aid].turn + 1) as u64].avatars@[aid];
                        &&& res.transition == a.transition
                        &&& a.tired ==> res.senses_info.selfi is None && res.senses_info.touch is None
                            && res.senses_info.sight is None && res.senses_info.hearing is None
                    },
                    Err(_) => true,
                }
                &&& r is Ok && final(self).avatar_trackers@.dom().len() > 0 ==> forall|t: Turn|
                    #[trigger] final(self).spec_states().contains_key(t) && t <= old(self).avatar_trackers@[aid].turn
                    ==> old(self).spec_states().contains_key(t) && final(self).spec_states()[t] == old(self).spec_states()[t]
            },
    {
        let tracker_turn = match self.avatar_trackers.get(&aid) {
            Some(t) => t.turn,
            None => return Err(StageError::UnknownAvatar),
        };
        let old_action = action;
        let action = convert_client(action, self, aid);
        // Next turn
        let stage_turn = tracker_turn + 1;
        // Add a new item to the list if at the head of the difflist
        if stage_turn > self.head_turn {
            self.head_turn = self.head_turn + 1;
            self.diffs.push(TurnDiff::empty());
        }
        if let Some(mut tracker) = self.avatar_trackers.remove(&aid) {
            tracker.turn = stage_turn;
            self.avatar_trackers.insert(aid, tracker);
        }
        let diff_index = self.diffs.len() - 1 - (self.head_turn - stage_turn) as usize;
        let mut diff = self.diffs.remove(diff_index);
        diff.cmd_by_avatar.insert(aid, AvatarCmd { action, senses });
        self.diffs.insert(diff_index, diff);
        proof {
            assert(old(self).states@.contains_key(tracker_turn));
            assert forall|p: PlayerId| #[trigger] self.avatar_trackers@.contains_key(p) implies {
                &&& self.spec_tail_turn() <= self.avatar_trackers@[p].turn <= self.head_turn
                &&& self.avatar_trackers@[p].turn < stage_turn ==> self.states@.contains_key(self.avatar_trackers@[p].turn)
            } by {
                if p != aid {
                    assert(old(self).avatar_trackers@.contains_key(p));
                }
            }
            assert(self.states@.contains_key(tracker_turn));
            assert(self.diffs@.len() >= 1);
            assert(self.diffs@.len() <= self.head_turn + 1);
            assert(self.spec_tail_turn() == old(self).spec_tail_turn());
            assert forall|t: Turn| #[trigger] self.states@.contains_key(t) implies {
                &&& self.spec_tail_turn() <= t <= self.head_turn
                &&& self.states@[t].turn == t
            } by {}
            assert(self.wf_from(stage_turn));
        }
        let ghost trackers1 = self.avatar_trackers@;
        let ghost recorded = *self;
        let ghost cmd = AvatarCmd { action: spec_convert_client(old_action, *old(self), aid), senses };
        proof {
            assert(action == spec_convert_client(old_action, *old(self), aid));
            assert(trackers1 =~= old(self).avatar_trackers@.insert(aid,
                AvatarTracker { turn: stage_turn, ..old(self).avatar_trackers@[aid] }));
        }
        self.rollback_from(stage_turn);
        proof {
            assert(replayed(*old(self), *self, aid, cmd));
        }
        // fetch state for aid
        let state = match self.state_at_turn_of(aid) {
            Some(s) => s,
            None => return Err(StageError::MissingState),
        };
        let ghost found_in = self.spec_states()[stage_turn];
        let avatar_now = match state.avatars.get(&aid) {
            Some(a) => a,
            None => return Err(StageError::MissingState),
        };
        let avatar = avatar_now.clone();
        let senses_info = if avatar_now.tired {
            SensesInfo::empty()
        } else {
            crate::gather::gather(&senses, avatar_now, self, state, self.tail_state())
        };
        let events = gather_events(&senses, self, state, aid);
        proof {
            reveal(perceived_at_turn);
            assert(perceived_at_turn(*self, aid, senses, senses_info));
        }
        // Limbo handling
        let ghost pre = *self;
        let limbos = self.handle_limbo();

        let ghost limbo_done = *self;
        self.clean_history();
        proof {
            if self.avatar_trackers@.contains_key(aid) {
                assert(limbo_done.avatar_trackers@.contains_key(aid));
                assert(self.spec_states().contains_key(stage_turn));
                assert(self.spec_states()[stage_turn] == found_in);
                let k = stage_turn - self.spec_tail_turn();
                assert(self.diffs@[k] == limbo_done.diffs@[stage_turn - limbo_done.spec_tail_turn()]);
            }
        }
        if stage_turn <= self.head_turn {
            self.bind_states(stage_turn, &avatar, &senses_info);
        }
        let timeline = self.timeline();
        let res = StageCommandResult {
            stage_turn,
            limbos,
            senses_info,
            action,
            events,
            transition: avatar.transition,
            timeline,
        };
        proof {
            assert(answered(pre, aid, senses, res));
            assert(settled(pre, *self, res.limbos@));
            assert(replayed(*old(self), pre, aid, cmd));
        }
        Ok(res)
    }

    /// What each player's senses gather at its turn, with the senses of its last command.
    #[verifier::spinoff_prover]
    pub fn get_all_infos(&self) -> (r: Vec<(PlayerId, StageTurn, SensesInfo)>)
        requires
            self.wf(),
        ensures
            r@.len() == self.avatar_trackers@.dom().len(),
            forall|i: int| 0 <= i < r@.len() ==> #[trigger] self.avatar_trackers@.contains_key(r@[i].0)
                && r@[i].1 == self.avatar_trackers@[r@[i].0].turn,
            forall|i: int, j: int| 0 <= i < j < r@.len() ==> r@[i].0 < r@[j].0,
            forall|i: int| 0 <= i < r@.len() ==> #[trigger] reported_info(*self, r@[i].0, r@[i].1, r@[i].2),
    {
        let keys = player_keys(&self.avatar_trackers);
        let mut results: Vec<(PlayerId, StageTurn, SensesInfo)> = Vec::new();
        let n = keys.len();
        let mut i: usize = 0;
        while i < n
            invariant
                n == keys@.len(),
                i <= n,
                self.wf(),
                keys@.to_set() == self.avatar_trackers@.dom(),
                increasing_u32(keys@),
                results@.len() == i,
                forall|k: int| 0 <= k < i ==> #[trigger] results@[k].0 == keys@[k]
                    && results@[k].1 == self.avatar_trackers@[keys@[k]].turn,
                forall|k: int| 0 <= k < i ==> #[trigger] reported_info(*self, results@[k].0, results@[k].1, results@[k].2),
            decreases n - i,
        {
            let pid = keys[i];
            proof {
                assert(keys@.to_set().contains(pid));
            }
            let turn = match self.avatar_trackers.get(&pid) {
                Some(tracker) => tracker.turn,
                None => 0,
            };
            proof {
                assert(self.avatar_trackers@.contains_key(pid));
            }
            let info = self.info_at_turn(turn, pid);
            proof {
                let sn = choose|sn: Senses| #[trigger] commanded_senses(*self, turn, pid, sn) && perceived_at_turn(*self, pid, sn, info);
                assert(commanded_senses(*self, turn, pid, sn) && perceived_at_turn(*self, pid, sn, info));
                assert(reported_info(*self, pid, turn, info));
            }
            let ghost prev = results@;
            results.push((pid, turn, info));
            proof {
                assert forall|k: int| 0 <= k < i + 1 implies #[trigger] results@[k].0 == keys@[k]
                    && results@[k].1 == self.avatar_trackers@[keys@[k]].turn by {
                    if k < i {
                        assert(results@[k] == prev[k]);
                    }
                }
                assert forall|k: int| 0 <= k < i + 1 implies #[trigger] reported_info(*self, results@[k].0, results@[k].1, results@[k].2) by {
                    if k < i {
                        assert(results@[k] == prev[k]);
                    } else {
                        assert(results@[k] == (pid, turn, info));
                    }
                }
            }
            i = i + 1;
        }
        proof {
            assert(keys@.no_duplicates()) by {
                assert forall|a: int, b: int| 0 <= a < b < keys@.len() implies keys@[a] != keys@[b] by {}
            }
            keys@.unique_seq_to_set();
        }
        results
    }
}

/// Every player of a stage stands on its timeline, between its tail and its
/// head, and the stage holds the state of that player's turn and of the head.
pub proof fn lemma_players_on_timeline(stage: Stage, pid: PlayerId)
    requires
        stage.wf(),
    ensures
        stage.spec_tail_turn() <= stage.head_turn,
        stage.spec_states().contains_key(stage.head_turn),
        stage.avatar_trackers@.contains_key(pid) ==> {
            &&& stage.spec_tail_turn() <= stage.avatar_trackers@[pid].turn <= stage.head_turn
            &&& stage.spec_states().contains_key(stage.avatar_trackers@[pid].turn)
            &&& stage.spec_states()[stage.avatar_trackers@[pid].turn].turn == stage.avatar_trackers@[pid].turn
        },
{
}

} // verus!
