//! The vocabulary shared by the server and the clients: positions, tiles,
//! avatars, foes, game overs and timelines.

use vstd::prelude::*;
use crate::board::{
    tile_cell, tile_cells, tile_cols, tile_grid_cols, tile_grid_get, tile_grid_clone, tile_grid_new, tile_grid_rows,
    tile_grid_set, tile_in,
};

verus! {

pub const HP_MAX: u8 = 10;

pub const FOCUS_MAX: u8 = 100;

pub type Turn = u64;

pub type StageTurn = u64;

pub type PlayerId = u32;

pub type StageId = usize;

/// The commands that a player can send to the game.
#[derive(Debug, Clone, Copy, PartialEq, Eq, Structural)]
pub enum ClientAction {
    Spawn,
    MoveOrAttack(Direction),
    Wait,
}

/// The action that the server computed from a client command.
#[derive(Debug, Clone, Copy, PartialEq, Eq, Structural)]
pub enum ServerAction {
    Spawn,
    Wait,
    Move(Position),
    /// Index of the attacked foe in the stage.
    Attack(usize),
}

#[derive(Debug, Clone, Copy, PartialEq, Eq, Structural)]
pub enum Direction {
    Up,
    UpRight,
    UpLeft,
    Right,
    Left,
    DownRight,
    DownLeft,
    Down,
}

#[derive(Debug, Clone, Copy, PartialEq, Eq, Structural)]
pub struct Offset {
    pub x: isize,
    pub y: isize,
}

/// A position on a map: `x` is the row of the map's grid, `y` its column.
#[derive(Debug, Clone, Copy, PartialEq, Eq, Structural)]
pub struct Position {
    pub x: usize,
    pub y: usize,
}

/// `v` brought back into the range of `usize` by one wrap-around, as
/// `usize::wrapping_add_signed` does.
pub open spec fn wrap_usize(v: int) -> int {
    if v > usize::MAX {
        v - (usize::MAX + 1)
    } else if v < 0 {
        v + (usize::MAX + 1)
    } else {
        v
    }
}

/// The position reached from `p` by `o`, each coordinate wrapping around.
pub open spec fn spec_position_add(p: Position, o: Offset) -> Position {
    Position { x: wrap_usize(p.x + o.x) as usize, y: wrap_usize(p.y + o.y) as usize }
}

pub open spec fn abs_diff(a: int, b: int) -> int {
    if a >= b {
        a - b
    } else {
        b - a
    }
}

/// Chebyshev distance.
pub open spec fn spec_dist(a: Position, b: Position) -> int {
    let dx = abs_diff(a.x as int, b.x as int);
    let dy = abs_diff(a.y as int, b.y as int);
    if dx >= dy {
        dx
    } else {
        dy
    }
}

/// Manhattan distance.
pub open spec fn spec_dist_manhattan(a: Position, b: Position) -> int {
    abs_diff(a.x as int, b.x as int) + abs_diff(a.y as int, b.y as int)
}

/// The offset from `b` to `a`, each coordinate wrapping around.
pub open spec fn spec_position_diff(a: Position, b: Position) -> Offset {
    Offset {
        x: vstd::wrapping::usize_specs::wrapping_sub(a.x, b.x) as isize,
        y: vstd::wrapping::usize_specs::wrapping_sub(a.y, b.y) as isize,
    }
}

/// Both coordinates fit in an `isize`, so that differences of positions do not overflow.
pub open spec fn small_position(p: Position) -> bool {
    p.x <= isize::MAX && p.y <= isize::MAX
}

fn usize_abs_diff(a: usize, b: usize) -> (r: usize)
    ensures
        r == abs_diff(a as int, b as int),
{
    if a >= b {
        a - b
    } else {
        b - a
    }
}

impl Offset {
    /// Coordinate-wise sum.
    pub fn plus(self, rhs: Offset) -> (r: Offset)
        requires
            isize::MIN <= self.x + rhs.x <= isize::MAX,
            isize::MIN <= self.y + rhs.y <= isize::MAX,
        ensures
            r.x == self.x + rhs.x,
            r.y == self.y + rhs.y,
    {
        Offset { x: self.x + rhs.x, y: self.y + rhs.y }
    }

    /// Coordinate-wise difference.
    pub fn minus(self, rhs: Offset) -> (r: Offset)
        requires
            isize::MIN <= self.x - rhs.x <= isize::MAX,
            isize::MIN <= self.y - rhs.y <= isize::MAX,
        ensures
            r.x == self.x - rhs.x,
            r.y == self.y - rhs.y,
    {
        Offset { x: self.x - rhs.x, y: self.y - rhs.y }
    }

    /// The opposite offset.
    pub fn negated(self) -> (r: Offset)
        requires
            self.x > isize::MIN,
            self.y > isize::MIN,
        ensures
            r.x == -self.x,
            r.y == -self.y,
    {
        Offset { x: -self.x, y: -self.y }
    }
}

impl Position {
    /// The position reached by moving once in `dir`.
    pub fn move_once(self, dir: Direction) -> (r: Position)
        ensures
            r == spec_position_add(self, dir.spec_offset()),
    {
        self.offset_by(dir.offset())
    }

    /// The position of the `index`-th cell of a row-major layout `width` cells wide.
    pub fn from_index(index: usize, width: usize) -> (r: Position)
        requires
            width > 0,
        ensures
            r.x == index % width,
            r.y == index / width,
    {
        Position { x: index % width, y: index / width }
    }

    pub fn as_offset(&self) -> (r: Offset)
        requires
            small_position(*self),
        ensures
            r.x == self.x,
            r.y == self.y,
    {
        Offset { x: self.x as isize, y: self.y as isize }
    }

    /// Chebyshev distance
    pub fn dist(&self, other: &Self) -> (r: usize)
        ensures
            r == spec_dist(*self, *other),
    {
        let dx = usize_abs_diff(self.x, other.x);
        let dy = usize_abs_diff(self.y, other.y);
        if dx >= dy {
            dx
        } else {
            dy
        }
    }

    /// Manhattan distance
    pub fn dist_manhattan(&self, other: &Self) -> (r: usize)
        requires
            spec_dist_manhattan(*self, *other) <= usize::MAX,
        ensures
            r == spec_dist_manhattan(*self, *other),
    {
        usize_abs_diff(self.x, other.x) + usize_abs_diff(self.y, other.y)
    }

    /// The position reached by `offset`, each coordinate wrapping around.
    pub fn offset_by(self, offset: Offset) -> (r: Position)
        ensures
            r == spec_position_add(self, offset),
    {
        Position { x: self.x.wrapping_add_signed(offset.x), y: self.y.wrapping_add_signed(offset.y) }
    }

    /// The offset that leads from `rhs` to `self`, each coordinate wrapping
    /// around as two's complement arithmetic does.
    pub fn diff(self, rhs: Position) -> (r: Offset)
        ensures
            r == spec_position_diff(self, rhs),
    {
        let x = self.x.wrapping_sub(rhs.x) as isize;
        let y = self.y.wrapping_sub(rhs.y) as isize;
        Offset { x, y }
    }
}

impl Direction {
    pub open spec fn spec_offset(&self) -> Offset {
        match self {
            Direction::Up => Offset { x: 0isize, y: -1isize },
            Direction::UpRight => Offset { x: 1isize, y: -1isize },
            Direction::UpLeft => Offset { x: -1isize, y: -1isize },
            Direction::Left => Offset { x: -1isize, y: 0isize },
            Direction::Right => Offset { x: 1isize, y: 0isize },
            Direction::DownRight => Offset { x: 1isize, y: 1isize },
            Direction::Down => Offset { x: 0isize, y: 1isize },
            Direction::DownLeft => Offset { x: -1isize, y: 1isize },
        }
    }

    /// The opposite direction.
    pub open spec fn spec_opposite(&self) -> Direction {
        match self {
            Direction::Up => Direction::Down,
            Direction::UpRight => Direction::DownLeft,
            Direction::UpLeft => Direction::DownRight,
            Direction::Left => Direction::Right,
            Direction::Right => Direction::Left,
            Direction::DownRight => Direction::UpLeft,
            Direction::Down => Direction::Up,
            Direction::DownLeft => Direction::UpRight,
        }
    }

    pub fn offset(&self) -> (r: Offset)
        ensures
            r == self.spec_offset(),
    {
        let (x, y): (isize, isize) = match self {
            Direction::Up => (0, -1),
            Direction::UpRight => (1, -1),
            Direction::UpLeft => (-1, -1),
            Direction::Left => (-1, 0),
            Direction::Right => (1, 0),
            Direction::DownRight => (1, 1),
            Direction::Down => (0, 1),
            Direction::DownLeft => (-1, 1),
        };
        Offset { x, y }
    }
}

/// Every direction leads to one of the eight neighbouring cells.
pub proof fn lemma_direction_is_unit_step(d: Direction)
    ensures
        -1 <= d.spec_offset().x <= 1,
        -1 <= d.spec_offset().y <= 1,
        d.spec_offset().x != 0 || d.spec_offset().y != 0,
{
}

/// Moving once in a direction and then once in the opposite direction leads back
/// to the starting position.
pub proof fn lemma_move_and_back(p: Position, d: Direction)
    ensures
        spec_position_add(spec_position_add(p, d.spec_offset()), d.spec_opposite().spec_offset()) == p,
{
}

/// A move in any direction changes the Chebyshev distance to the start by exactly one,
/// unless it wraps around the coordinate space.
pub proof fn lemma_move_is_at_distance_one(p: Position, d: Direction)
    requires
        0 < p.x < usize::MAX,
        0 < p.y < usize::MAX,
    ensures
        spec_dist(p, spec_position_add(p, d.spec_offset())) == 1,
{
}

/// The Chebyshev distance is symmetric and zero exactly between equal positions.
pub proof fn lemma_dist_symmetric(a: Position, b: Position)
    ensures
        spec_dist(a, b) == spec_dist(b, a),
        spec_dist(a, b) >= 0,
        spec_dist(a, b) == 0 <==> a == b,
        spec_dist(a, b) <= spec_dist_manhattan(a, b),
{
}

#[derive(Debug, Clone, Copy, PartialEq, Eq, Structural)]
pub enum Tile {
    Unknown,
    Wall,
    Empty,
    Spawn,
    Pylon,
}

impl Default for Tile {
    fn default() -> (t: Tile)
        ensures
            t == Tile::Unknown,
    {
        Tile::Unknown
    }
}

impl Tile {
    pub open spec fn spec_can_travel(&self) -> bool {
        !(*self is Wall || *self is Pylon)
    }

    pub open spec fn spec_opaque(&self) -> bool {
        *self is Wall || *self is Pylon
    }

    pub fn can_travel(&self) -> (r: bool)
        ensures
            r == self.spec_can_travel(),
    {
        !matches!(self, Tile::Wall | Tile::Pylon)
    }

    pub fn opaque(&self) -> (r: bool)
        ensures
            r == self.spec_opaque(),
    {
        matches!(self, Tile::Wall | Tile::Pylon)
    }
}

/// A tile can be travelled exactly when it is not opaque.
pub proof fn lemma_travel_iff_not_opaque(t: Tile)
    ensures
        t.spec_can_travel() == !t.spec_opaque(),
{
}

/// Way to move an avatar from one stage to another.
#[derive(Debug, Clone, Copy, PartialEq, Eq, Structural)]
pub enum Transition {
    /// Just go to the next stage
    Orb,
}

#[derive(Debug, Clone, Copy, PartialEq, Eq, Structural)]
pub enum FoeId {
    MindSnare,
    Simple,
}

#[derive(Debug, Clone, Copy, PartialEq, Eq, Structural)]
pub enum Target {
    Foe(FoeId),
    You,
    OtherPlayer,
}

#[derive(Debug, Clone, Copy, PartialEq, Eq, Structural)]
pub enum GameLogEvent {
    Attack { from: Target, to: Target },
    StageUp(Target),
    Defeated { from: Target, to: Target },
    Spawn,
    OrbSeen,
}

#[derive(Debug)]
pub struct Avatar {
    pub player_id: PlayerId,
    pub position: Position,
    pub hp: u8,
    pub focus: u8,
    /// Set when the avatar could not pay the cost of its senses.
    pub tired: bool,
    pub turns: Turn,
    /// Set by a move that takes the avatar to another stage.
    pub transition: Option<Transition>,
    pub logs: Vec<(StageTurn, GameLogEvent)>,
}

/// Two avatars that agree on every field.
pub open spec fn same_avatar(a: Avatar, b: Avatar) -> bool {
    &&& a.player_id == b.player_id
    &&& a.position == b.position
    &&& a.hp == b.hp
    &&& a.focus == b.focus
    &&& a.tired == b.tired
    &&& a.turns == b.turns
    &&& a.transition == b.transition
    &&& a.logs@ == b.logs@
}

impl Clone for Avatar {
    fn clone(&self) -> (r: Avatar)
        ensures
            same_avatar(r, *self),
    {
        Avatar {
            player_id: self.player_id,
            position: self.position,
            hp: self.hp,
            focus: self.focus,
            tired: self.tired,
            turns: self.turns,
            transition: self.transition,
            logs: crate::maps::copy_vec(&self.logs),
        }
    }
}

impl Avatar {
    /// `self` is the avatar of `player_id` as it enters a stage, after `turns` turns.
    pub open spec fn is_fresh(&self, player_id: PlayerId, turns: Turn) -> bool {
        &&& self.player_id == player_id
        &&& self.position == Position { x: 1, y: 1 }
        &&& self.hp == HP_MAX
        &&& self.focus == FOCUS_MAX
        &&& !self.tired
        &&& self.turns == turns
        &&& self.transition is None
        &&& self.logs@ == Seq::<(StageTurn, GameLogEvent)>::empty()
    }

    pub fn new(player_id: PlayerId) -> (a: Avatar)
        ensures
            a.is_fresh(player_id, 1),
    {
        Avatar {
            player_id,
            position: Position { x: 1, y: 1 },
            hp: HP_MAX,
            focus: FOCUS_MAX,
            tired: false,
            turns: 1,
            transition: None,
            logs: Vec::new(),
        }
    }

    pub open spec fn spec_is_dead(&self) -> bool {
        self.hp == 0
    }

    pub fn is_dead(&self) -> (r: bool)
        ensures
            r == self.spec_is_dead(),
    {
        self.hp == 0
    }

    /// Makes the avatar fresh again, keeping its player and its turn count.
    pub fn reset(&mut self)
        ensures
            final(self).is_fresh(old(self).player_id, old(self).turns),
    {
        let turns = self.turns;
        let mut fresh = Avatar::new(self.player_id);
        fresh.turns = turns;
        *self = fresh;
    }
}

#[derive(Debug, Clone, Copy, PartialEq, Eq, Structural)]
pub enum Foe {
    /// Some kind of trap
    MindSnare(Position),
    /// Classic mob with hp and attack on sight
    Simple(Position, u8),
}

impl Foe {
    pub open spec fn spec_position(&self) -> Position {
        match self {
            Foe::MindSnare(pos) => *pos,
            Foe::Simple(pos, _) => *pos,
        }
    }

    pub open spec fn spec_alive(&self) -> bool {
        match self {
            Foe::MindSnare(_) => true,
            Foe::Simple(_, hp) => *hp > 0,
        }
    }

    pub open spec fn spec_can_be_attacked(&self) -> bool {
        self.spec_alive() && self is Simple
    }

    pub open spec fn spec_foe_id(&self) -> FoeId {
        match self {
            Foe::Simple(_, _) => FoeId::Simple,
            Foe::MindSnare(_) => FoeId::MindSnare,
        }
    }

    /// The same foe at another position.
    pub open spec fn spec_moved_to(&self, pos: Position) -> Foe {
        match self {
            Foe::MindSnare(_) => Foe::MindSnare(pos),
            Foe::Simple(_, hp) => Foe::Simple(pos, *hp),
        }
    }

    pub fn position(&self) -> (r: Position)
        ensures
            r == self.spec_position(),
    {
        match self {
            Foe::MindSnare(pos) => *pos,
            Foe::Simple(pos, _) => *pos,
        }
    }

    pub fn alive(&self) -> (r: bool)
        ensures
            r == self.spec_alive(),
    {
        match self {
            Foe::MindSnare(_) => true,
            Foe::Simple(_, hp) => *hp > 0,
        }
    }

    pub fn can_be_attacked(&self) -> (r: bool)
        ensures
            r == self.spec_can_be_attacked(),
    {
        self.alive() && match self {
            Foe::MindSnare(_) => false,
            Foe::Simple(_, _) => true,
        }
    }

    pub fn foe_id(&self) -> (r: FoeId)
        ensures
            r == self.spec_foe_id(),
    {
        match self {
            Foe::Simple(_, _) => FoeId::Simple,
            Foe::MindSnare(_) => FoeId::MindSnare,
        }
    }

    /// Whether the foe is a trap, that sight cannot reveal.
    pub fn is_trap(&self) -> (r: bool)
        ensures
            r == (*self is MindSnare),
    {
        matches!(self, Foe::MindSnare(_))
    }

    /// The damage the foe deals with one attack.
    pub open spec fn spec_attack(&self) -> u8 {
        match self {
            Foe::MindSnare(_) => 3,
            Foe::Simple(_, _) => 2,
        }
    }

    pub fn attack(&self) -> (r: u8)
        ensures
            r == self.spec_attack(),
    {
        match self {
            Foe::MindSnare(_) => 3,
            Foe::Simple(_, _) => 2,
        }
    }

    /// Moves the foe, its kind and health unchanged.
    pub fn move_to(&mut self, pos: Position)
        ensures
            *final(self) == old(self).spec_moved_to(pos),
    {
        match self {
            Foe::MindSnare(p) => *p = pos,
            Foe::Simple(p, _) => *p = pos,
        }
    }
}

/// Moving a foe keeps its kind and its life, and puts it where it was sent.
pub proof fn lemma_moved_foe(f: Foe, pos: Position)
    ensures
        f.spec_moved_to(pos).spec_position() == pos,
        f.spec_moved_to(pos).spec_alive() == f.spec_alive(),
        f.spec_moved_to(pos).spec_foe_id() == f.spec_foe_id(),
{
}

#[derive(Debug, Clone, Copy, PartialEq, Eq, Structural)]
pub struct Orb {
    pub position: Position,
    /// If excited, it will change position next turn
    pub excited: bool,
}

/// The map of a stage: `width` rows of `height` tiles.
#[derive(Debug)]
pub struct Tiles {
    pub grid: grid::Grid<Tile>,
}

impl Clone for Tiles {
    fn clone(&self) -> (r: Tiles)
        ensures
            r.spec_same(*self),
    {
        Tiles { grid: tile_grid_clone(&self.grid) }
    }
}

impl Tiles {
    pub open spec fn spec_width(&self) -> nat {
        tile_cells(self.grid).len()
    }

    pub open spec fn spec_height(&self) -> nat {
        tile_cols(self.grid)
    }

    /// The tile at `p`, `Unknown` outside the map.
    pub open spec fn spec_get(&self, p: Position) -> Tile {
        if tile_in(self.grid, p.x as int, p.y as int) {
            tile_cell(self.grid, p.x as int, p.y as int)
        } else {
            Tile::Unknown
        }
    }

    pub open spec fn spec_center(&self) -> Position {
        Position { x: (self.spec_width() / 2) as usize, y: (self.spec_height() / 2) as usize }
    }

    /// Both maps hold the same tiles.
    pub open spec fn spec_same(&self, other: Tiles) -> bool {
        tile_cells(self.grid) == tile_cells(other.grid) && tile_cols(self.grid) == tile_cols(other.grid)
    }

    pub open spec fn spec_in(&self, p: Position) -> bool {
        tile_in(self.grid, p.x as int, p.y as int)
    }

    /// A map of unknown tiles; an empty map when either dimension is zero.
    pub fn new(width: usize, height: usize) -> (t: Tiles)
        requires
            width * height <= usize::MAX,
        ensures
            width > 0 && height > 0 ==> t.spec_width() == width && t.spec_height() == height,
            width == 0 || height == 0 ==> t.spec_width() == 0 && t.spec_height() == 0,
            forall|p: Position| #[trigger] t.spec_get(p) == Tile::Unknown,
    {
        let t = Tiles { grid: tile_grid_new(width, height) };
        assert forall|p: Position| #[trigger] t.spec_get(p) == Tile::Unknown by {
            if t.spec_in(p) {
                assert(tile_cell(t.grid, p.x as int, p.y as int) == Tile::Unknown);
            }
        }
        t
    }

    pub fn width(&self) -> (r: usize)
        ensures
            r == self.spec_width(),
    {
        tile_grid_rows(&self.grid)
    }

    pub fn height(&self) -> (r: usize)
        ensures
            r == self.spec_height(),
    {
        tile_grid_cols(&self.grid)
    }

    pub fn center(&self) -> (r: Position)
        ensures
            r == self.spec_center(),
    {
        Position { x: self.width() / 2, y: self.height() / 2 }
    }

    pub fn get(&self, p: Position) -> (t: Tile)
        ensures
            t == self.spec_get(p),
    {
        match tile_grid_get(&self.grid, p.x, p.y) {
            Some(t) => t,
            None => Tile::Unknown,
        }
    }

    pub fn at_offset_from_center(&self, offset: Offset) -> (t: Tile)
        ensures
            t == self.spec_get(spec_position_add(self.spec_center(), offset)),
    {
        let position = self.center().offset_by(offset);
        self.get(position)
    }

    /// Writes a tile at `p`; a position outside the map is left alone.
    pub fn set(&mut self, p: Position, tile: Tile)
        ensures
            final(self).spec_width() == old(self).spec_width(),
            final(self).spec_height() == old(self).spec_height(),
            forall|q: Position| #[trigger] final(self).spec_in(q) == old(self).spec_in(q),
            forall|q: Position| #[trigger] final(self).spec_get(q) == if q == p && old(self).spec_in(p) {
                tile
            } else {
                old(self).spec_get(q)
            },
    {
        tile_grid_set(&mut self.grid, p.x, p.y, tile);
        assert forall|q: Position| #[trigger] self.spec_get(q) == if q == p && old(self).spec_in(p) {
            tile
        } else {
            old(self).spec_get(q)
        } by {
            if self.spec_in(q) && q.x == p.x && q.y == p.y {
                assert(q == p);
            }
        }
    }
}

#[derive(Debug, Clone, Copy, PartialEq, Eq, Structural)]
pub enum GameOverStatus {
    Win,
    Dead,
}

#[derive(Debug, Clone, Copy, PartialEq, Eq, Structural)]
pub struct GameOver {
    pub status: GameOverStatus,
    pub stage: u8,
    pub turns: Turn,
    pub score: u64,
}

/// The score of a game that ended at `stage` after `turns` turns.
pub open spec fn spec_score(status: GameOverStatus, stage: int, turns: int) -> int {
    let base = (stage + 1) * 100;
    let left = if base >= turns {
        base - turns
    } else {
        0
    };
    if status == GameOverStatus::Win {
        left * 200
    } else {
        left * 100
    }
}

/// The game over of an avatar that played `turns` turns and ended at `stage`.
pub open spec fn spec_game_over(status: GameOverStatus, stage: usize, turns: Turn) -> GameOver {
    GameOver {
        status,
        stage: (stage % 256) as u8,
        turns,
        score: spec_score(status, stage as int, turns as int) as u64,
    }
}

impl GameOver {
    pub fn new(avatar: &Avatar, status: GameOverStatus, stage: usize) -> (g: GameOver)
        requires
            (stage + 1) * 20000 <= u64::MAX,
        ensures
            g == spec_game_over(status, stage, avatar.turns),
            g.status == status,
            g.stage == stage % 256,
            g.turns == avatar.turns,
            g.score == spec_score(status, stage as int, avatar.turns as int),
    {
        let mut score: u64 = (stage as u64 + 1) * 100;
        score = score.saturating_sub(avatar.turns);
        score = score * 100;
        if status == GameOverStatus::Win {
            score = score * 2;
        }
        GameOver { status, stage: (stage % 256) as u8, turns: avatar.turns, score }
    }
}

/// A won game scores twice what a lost game scores, at the same stage and turn,
/// and a game that lasted longer never scores more.
pub proof fn lemma_score_laws(stage: int, turns: int, later: int)
    requires
        stage >= 0,
        0 <= turns <= later,
    ensures
        spec_score(GameOverStatus::Win, stage, turns) == 2 * spec_score(GameOverStatus::Dead, stage, turns),
        spec_score(GameOverStatus::Dead, stage, later) <= spec_score(GameOverStatus::Dead, stage, turns),
        spec_score(GameOverStatus::Dead, stage, turns) >= 0,
{
}

/// The turns of a stage that are still held: from `tail` to `head`.
#[derive(Debug, Clone, Copy, PartialEq, Eq, Structural)]
pub struct Timeline {
    pub head: StageTurn,
    pub tail: StageTurn,
}

} // verus!
