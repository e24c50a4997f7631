//! What a client knows of the world: the tiles its avatar has perceived, on a
//! map of its own centred where the avatar started.

use vstd::prelude::*;
use crate::types::{ClientAction, Offset, Position, ServerAction, Tile, Tiles, spec_position_add, spec_position_diff};
use crate::fov::{fov, fov_cells, in_view, neighbour_cell, open_around, radius_ok, shows_truth, view_shape, view_sound, world_of_view};
use crate::sense::{SelfInfo, Senses, SensesInfo, SightInfo, SightedAlly, SightedAllyStatus, SightedFoe, TouchInfo};
use crate::logs::{ClientLog, GameLogs, LogEventView, dedup, sort_by_turn};
use crate::network::{TransitionMessage, TurnMessage};
use crate::events::GEvent;
use crate::types::{StageId, StageTurn, Timeline, Turn};

verus! {

/// The side of the client's map.
pub const VIEW_SIZE: usize = 256;

/// The number of cells of the client's map.
pub const VIEW_CELLS: usize = 65536;

/// Where the avatar starts on the client's map: its centre.
pub open spec fn start_pos() -> Position {
    Position { x: 128, y: 128 }
}

/// The cell of the client's map at `pos`, if the map holds it.
pub open spec fn cell_index(pos: Position) -> Option<int> {
    if pos.x + VIEW_SIZE * pos.y < VIEW_CELLS {
        Some(pos.x + VIEW_SIZE * pos.y)
    } else {
        None
    }
}

pub struct WorldState {
    /// The cells of the map, `x + VIEW_SIZE * y` for the tile at `(x, y)`.
    pub tiles: Vec<Tile>,
    pub position: Position,
    /// Set when a tile was perceived otherwise than before.
    pub incoherent: bool,
}

/// A client's map as a value: its cells, where the avatar stands, and whether
/// it was ever seen otherwise than it was known.
pub ghost struct MapModel {
    pub tiles: Seq<Tile>,
    pub position: Position,
    pub incoherent: bool,
}

impl View for WorldState {
    type V = MapModel;

    open spec fn view(&self) -> MapModel {
        MapModel { tiles: self.tiles@, position: self.position, incoherent: self.incoherent }
    }
}

/// The tile of the map at `pos`, `Unknown` outside the map.
pub open spec fn model_tile_at(m: MapModel, pos: Position) -> Tile {
    match cell_index(pos) {
        Some(i) => m.tiles[i],
        None => Tile::Unknown,
    }
}

/// The map once the avatar acted: it moves when its move was not refused and
/// the tile it goes to can be travelled, as far as the map tells.
pub open spec fn model_moved(m: MapModel, action: ClientAction, server_action: Option<ServerAction>) -> MapModel {
    MapModel {
        position: match action {
            ClientAction::MoveOrAttack(dir) => {
                let new_pos = spec_position_add(m.position, dir.spec_offset());
                if (server_action is None || server_action matches Some(ServerAction::Move(_)))
                    && model_tile_at(m, new_pos).spec_can_travel() {
                    new_pos
                } else {
                    m.position
                }
            },
            _ => m.position,
        },
        ..m
    }
}

/// The map once a view centred on `viewer` was copied in: each cell the view
/// shows takes its tile, and a tile known otherwise makes the map incoherent.
pub open spec fn model_seen(m: MapModel, view: Tiles, viewer: Position) -> MapModel {
    MapModel {
        tiles: Seq::new(VIEW_CELLS as nat, |i: int| match seen_at(view, viewer, i % 256, i / 256) {
            Some(t) => t,
            None => m.tiles[i],
        }),
        incoherent: m.incoherent || exists|i: int| 0 <= i < VIEW_CELLS && #[trigger] clashes_at(m.tiles, view, viewer, i),
        position: m.position,
    }
}

/// The map after one turn: the action, then what sight and touch perceived.
pub open spec fn model_update(m: MapModel, action: ClientAction, server_action: Option<ServerAction>, info: Option<SensesInfo>) -> MapModel {
    let moved = model_moved(m, action, server_action);
    match info {
        None => moved,
        Some(i) => {
            let seen = match i.sight {
                Some(sight) => model_seen(moved, sight.tiles, moved.position),
                None => moved,
            };
            match i.touch {
                Some(touch) => model_seen(seen, touch.tiles, moved.position),
                None => seen,
            }
        },
    }
}

impl WorldState {
    /// The map has all its cells.
    pub open spec fn wf(&self) -> bool {
        self.tiles@.len() == VIEW_CELLS
    }

    /// The tile at `pos`, `Unknown` outside the map.
    pub open spec fn spec_tile_at(&self, pos: Position) -> Tile {
        match cell_index(pos) {
            Some(i) => self.tiles@[i],
            None => Tile::Unknown,
        }
    }

    /// An unknown map, the avatar at its centre.
    pub fn new() -> (r: WorldState)
        ensures
            r.wf(),
            r.position == start_pos(),
            !r.incoherent,
            forall|i: int| 0 <= i < VIEW_CELLS ==> r.tiles@[i] == Tile::Unknown,
    {
        let mut tiles: Vec<Tile> = Vec::new();
        let mut i: usize = 0;
        while i < VIEW_CELLS
            invariant
                i <= VIEW_CELLS,
                tiles@.len() == i,
                forall|k: int| 0 <= k < i ==> tiles@[k] == Tile::Unknown,
            decreases VIEW_CELLS - i,
        {
            tiles.push(Tile::Unknown);
            i = i + 1;
        }
        WorldState { tiles, position: Position { x: VIEW_SIZE / 2, y: VIEW_SIZE / 2 }, incoherent: false }
    }

    pub fn tile_at(&self, pos: Position) -> (r: Tile)
        requires
            self.wf(),
        ensures
            r == self.spec_tile_at(pos),
    {
        if pos.y >= VIEW_SIZE || pos.x >= VIEW_CELLS {
            return Tile::Unknown;
        }
        let i = pos.x + VIEW_SIZE * pos.y;
        if i >= self.tiles.len() {
            return Tile::Unknown;
        }
        self.tiles[i]
    }

    pub fn tile_from_viewer(&self, offset: Offset) -> (r: Tile)
        requires
            self.wf(),
        ensures
            r == self.spec_tile_at(spec_position_add(self.position, offset)),
    {
        let position = self.position.offset_by(offset);
        self.tile_at(position)
    }

    /// The avatar moves on the map when its move was not refused and the tile
    /// it goes to can be travelled, as far as the client knows.
    pub fn update_action(&mut self, action: &ClientAction, server_action: Option<ServerAction>)
        requires
            old(self).wf(),
        ensures
            final(self).wf(),
            final(self)@ == model_moved(old(self)@, *action, server_action),
            final(self).tiles == old(self).tiles,
            final(self).incoherent == old(self).incoherent,
            final(self).position == match *action {
                ClientAction::MoveOrAttack(dir) => {
                    let new_pos = spec_position_add(old(self).position, dir.spec_offset());
                    if (server_action is None || server_action matches Some(ServerAction::Move(_)))
                        && old(self).spec_tile_at(new_pos).spec_can_travel() {
                        new_pos
                    } else {
                        old(self).position
                    }
                },
                _ => old(self).position,
            },
    {
        match action {
            ClientAction::Spawn => {
                // Spawning actually cleans up the state
            },
            ClientAction::MoveOrAttack(dir) => {
                let moving = match server_action {
                    None => true,
                    Some(ServerAction::Move(_)) => true,
                    _ => false,
                };
                if moving {
                    let new_pos = self.position.offset_by(dir.offset());
                    let tile = self.tile_at(new_pos);
                    if tile.can_travel() {
                        self.position = new_pos;
                    }
                }
            },
            ClientAction::Wait => {},
        }
    }
}

/// The cell of a view of `tiles` centred on `viewer` that shows the map's
/// cell `(wx, wy)`, as integers.
pub open spec fn source_of(view: Tiles, viewer: Position, wx: int, wy: int) -> (int, int) {
    (wx + view.spec_center().x - viewer.x, wy + view.spec_center().y - viewer.y)
}

/// What the view tells of the map's cell `(wx, wy)`: the tile it shows there,
/// if it shows one.
pub open spec fn seen_at(view: Tiles, viewer: Position, wx: int, wy: int) -> Option<Tile> {
    let (sx, sy) = source_of(view, viewer, wx, wy);
    if 0 <= sx < view.spec_width() && 0 <= sy < view.spec_height()
        && view.spec_get(Position { x: sx as usize, y: sy as usize }) != Tile::Unknown {
        Some(view.spec_get(Position { x: sx as usize, y: sy as usize }))
    } else {
        None
    }
}

/// The source cell `(sx, sy)` comes before `(x, y)` in row order.
pub open spec fn scanned_before(sx: int, sy: int, x: int, y: int) -> bool {
    sx < x || (sx == x && sy < y)
}

proof fn lemma_cell_of(wx: int, wy: int)
    requires
        0 <= wx < 256,
        0 <= wy < 256,
    ensures
        (wx + 256 * wy) % 256 == wx,
        (wx + 256 * wy) / 256 == wy,
        0 <= wx + 256 * wy < 65536,
{
    assert((wx + 256 * wy) % 256 == wx && (wx + 256 * wy) / 256 == wy) by (nonlinear_arith)
        requires
            0 <= wx < 256,
            0 <= wy < 256,
    ;
    assert(0 <= wx + 256 * wy < 65536) by (nonlinear_arith)
        requires
            0 <= wx < 256,
            0 <= wy < 256,
    ;
}

proof fn lemma_index_split(i: int)
    requires
        0 <= i < 65536,
    ensures
        0 <= i % 256 < 256,
        0 <= i / 256 < 256,
        i == i % 256 + 256 * (i / 256),
{
    assert(0 <= i % 256 < 256 && 0 <= i / 256 < 256 && i == i % 256 + 256 * (i / 256)) by (nonlinear_arith)
        requires
            0 <= i < 65536,
    ;
}

/// The map after a view centred on `viewer` was copied in, up to the source
/// cell `(x, y)` excluded.
pub open spec fn copied_upto(old_tiles: Seq<Tile>, new_tiles: Seq<Tile>, view: Tiles, viewer: Position, x: int, y: int) -> bool {
    forall|i: int| 0 <= i < VIEW_CELLS ==> #[trigger] new_tiles[i] == {
        let (sx, sy) = source_of(view, viewer, i % 256, i / 256);
        match seen_at(view, viewer, i % 256, i / 256) {
            Some(t) => if scanned_before(sx, sy, x, y) { t } else { old_tiles[i] },
            None => old_tiles[i],
        }
    }
}

/// The view shows the map's cell `i` otherwise than the map held it.
pub open spec fn clashes_at(old_tiles: Seq<Tile>, view: Tiles, viewer: Position, i: int) -> bool {
    match seen_at(view, viewer, i % 256, i / 256) {
        Some(t) => old_tiles[i] != Tile::Unknown && t != old_tiles[i],
        None => false,
    }
}

/// Some cell up to the source cell `(x, y)` excluded was seen otherwise than
/// the map held it.
pub open spec fn clash_upto(old_tiles: Seq<Tile>, view: Tiles, viewer: Position, x: int, y: int) -> bool {
    exists|i: int| 0 <= i < VIEW_CELLS && #[trigger] clashes_at(old_tiles, view, viewer, i)
        && scanned_before(source_of(view, viewer, i % 256, i / 256).0, source_of(view, viewer, i % 256, i / 256).1, x, y)
}

impl WorldState {
    /// Copies the source cell `(x, y)` of the view onto the map.
    fn copy_cell(&mut self, viewer: Position, tiles: &Tiles, x: usize, y: usize, Ghost(old_tiles): Ghost<Seq<Tile>>, Ghost(inc0): Ghost<bool>)
        requires
            x < tiles.spec_width(),
            y < tiles.spec_height(),
            old(self).tiles@.len() == VIEW_CELLS,
            old_tiles.len() == VIEW_CELLS,
            copied_upto(old_tiles, old(self).tiles@, *tiles, viewer, x as int, y as int),
            old(self).incoherent == (inc0 || clash_upto(old_tiles, *tiles, viewer, x as int, y as int)),
        ensures
            final(self).tiles@.len() == VIEW_CELLS,
            final(self).position == old(self).position,
            copied_upto(old_tiles, final(self).tiles@, *tiles, viewer, x as int, y + 1),
            final(self).incoherent == (inc0 || clash_upto(old_tiles, *tiles, viewer, x as int, y + 1)),
    {
        let center = tiles.center();
        let tile = tiles.get(Position { x, y });
        let wx: i128 = x as i128 - center.x as i128 + viewer.x as i128;
        let wy: i128 = y as i128 - center.y as i128 + viewer.y as i128;
        let ghost tiles0 = self.tiles@;
        if tile != Tile::Unknown && wx >= 0 && wy >= 0 && wx < 256 && wy < 256 {
            let dest = (wx + wy * 256) as usize;
            proof {
                lemma_cell_of(wx as int, wy as int);
                assert(source_of(*tiles, viewer, dest as int % 256, dest as int / 256) == (x as int, y as int));
                assert(seen_at(*tiles, viewer, dest as int % 256, dest as int / 256) == Some(tile));
            }
            let dest_tile = self.tiles[dest];
            if dest_tile != Tile::Unknown && tile != dest_tile {
                self.incoherent = true;
            }
            self.tiles.set(dest, tile);
            proof {
                assert forall|i: int| 0 <= i < VIEW_CELLS implies #[trigger] self.tiles@[i] == {
                    let (sx, sy) = source_of(*tiles, viewer, i % 256, i / 256);
                    match seen_at(*tiles, viewer, i % 256, i / 256) {
                        Some(t) => if scanned_before(sx, sy, x as int, y + 1) { t } else { old_tiles[i] },
                        None => old_tiles[i],
                    }
                } by {
                    lemma_index_split(i);
                    if i != dest as int {
                        assert(tiles0[i] == self.tiles@[i]);
                        let (sx, sy) = source_of(*tiles, viewer, i % 256, i / 256);
                        if sx == x && sy == y {
                            lemma_index_split(dest as int);
                            assert(i % 256 == dest as int % 256);
                            assert(i / 256 == dest as int / 256);
                        }
                    }
                }
                assert(old_tiles[dest as int] == dest_tile) by {
                    lemma_index_split(dest as int);
                }
                if dest_tile != Tile::Unknown && tile != dest_tile {
                    assert(clashes_at(old_tiles, *tiles, viewer, dest as int));
                    assert(clash_upto(old_tiles, *tiles, viewer, x as int, y + 1));
                }
                if clash_upto(old_tiles, *tiles, viewer, x as int, y + 1) {
                    let i = choose|i: int| 0 <= i < VIEW_CELLS && #[trigger] clashes_at(old_tiles, *tiles, viewer, i)
                        && scanned_before(source_of(*tiles, viewer, i % 256, i / 256).0, source_of(*tiles, viewer, i % 256, i / 256).1, x as int, y + 1);
                    lemma_index_split(i);
                    if i != dest as int {
                        let (sx, sy) = source_of(*tiles, viewer, i % 256, i / 256);
                        if sx == x && sy == y {
                            lemma_index_split(dest as int);
                            assert(i % 256 == dest as int % 256);
                            assert(i / 256 == dest as int / 256);
                        }
                        assert(clash_upto(old_tiles, *tiles, viewer, x as int, y as int));
                    }
                }
                if clash_upto(old_tiles, *tiles, viewer, x as int, y as int) {
                    let i = choose|i: int| 0 <= i < VIEW_CELLS && #[trigger] clashes_at(old_tiles, *tiles, viewer, i)
                        && scanned_before(source_of(*tiles, viewer, i % 256, i / 256).0, source_of(*tiles, viewer, i % 256, i / 256).1, x as int, y as int);
                    assert(clash_upto(old_tiles, *tiles, viewer, x as int, y + 1));
                }
            }
        } else {
            proof {
                assert forall|i: int| 0 <= i < VIEW_CELLS implies #[trigger] self.tiles@[i] == {
                    let (sx, sy) = source_of(*tiles, viewer, i % 256, i / 256);
                    match seen_at(*tiles, viewer, i % 256, i / 256) {
                        Some(t) => if scanned_before(sx, sy, x as int, y + 1) { t } else { old_tiles[i] },
                        None => old_tiles[i],
                    }
                } by {
                    lemma_index_split(i);
                    let (sx, sy) = source_of(*tiles, viewer, i % 256, i / 256);
                    if sx == x && sy == y {
                        if seen_at(*tiles, viewer, i % 256, i / 256) is Some {
                            assert(wx == i % 256 && wy == i / 256);
                        }
                    }
                }
                if clash_upto(old_tiles, *tiles, viewer, x as int, y + 1) {
                    let i = choose|i: int| 0 <= i < VIEW_CELLS && #[trigger] clashes_at(old_tiles, *tiles, viewer, i)
                        && scanned_before(source_of(*tiles, viewer, i % 256, i / 256).0, source_of(*tiles, viewer, i % 256, i / 256).1, x as int, y + 1);
                    lemma_index_split(i);
                    let (sx, sy) = source_of(*tiles, viewer, i % 256, i / 256);
                    if sx == x && sy == y {
                        assert(wx == i % 256 && wy == i / 256);
                    }
                    assert(clash_upto(old_tiles, *tiles, viewer, x as int, y as int));
                }
                if clash_upto(old_tiles, *tiles, viewer, x as int, y as int) {
                    let i = choose|i: int| 0 <= i < VIEW_CELLS && #[trigger] clashes_at(old_tiles, *tiles, viewer, i)
                        && scanned_before(source_of(*tiles, viewer, i % 256, i / 256).0, source_of(*tiles, viewer, i % 256, i / 256).1, x as int, y as int);
                    assert(clash_upto(old_tiles, *tiles, viewer, x as int, y + 1));
                }
            }
        }
    }

    /// Copies what a view centred on `viewer` shows onto the map; the map
    /// becomes incoherent when the view contradicts a tile it knew.
    pub fn update_tiles(&mut self, viewer: Position, tiles: &Tiles)
        requires
            old(self).wf(),
        ensures
            final(self).wf(),
            final(self).position == old(self).position,
            forall|i: int| 0 <= i < VIEW_CELLS ==> #[trigger] final(self).tiles@[i] == match seen_at(*tiles, viewer, i % 256, i / 256) {
                Some(t) => t,
                None => old(self).tiles@[i],
            },
            final(self).incoherent == (old(self).incoherent || exists|i: int| 0 <= i < VIEW_CELLS
                && #[trigger] clashes_at(old(self).tiles@, *tiles, viewer, i)),
            final(self)@ == model_seen(old(self)@, *tiles, viewer),
    {
        let w = tiles.width();
        let h = tiles.height();
        let ghost old_tiles = self.tiles@;
        let ghost inc0 = self.incoherent;
        proof {
            assert forall|i: int| 0 <= i < VIEW_CELLS implies #[trigger] self.tiles@[i] == {
                let (sx, sy) = source_of(*tiles, viewer, i % 256, i / 256);
                match seen_at(*tiles, viewer, i % 256, i / 256) {
                    Some(t) => if scanned_before(sx, sy, 0, 0) { t } else { old_tiles[i] },
                    None => old_tiles[i],
                }
            } by {
                lemma_index_split(i);
            }
            assert(!clash_upto(old_tiles, *tiles, viewer, 0, 0));
        }
        let mut x: usize = 0;
        while x < w
            invariant
                x <= w,
                w == tiles.spec_width(),
                h == tiles.spec_height(),
                self.tiles@.len() == VIEW_CELLS,
                self.position == old(self).position,
                old_tiles == old(self).tiles@,
                inc0 == old(self).incoherent,
                old_tiles.len() == VIEW_CELLS,
                copied_upto(old_tiles, self.tiles@, *tiles, viewer, x as int, 0),
                self.incoherent == (inc0 || clash_upto(old_tiles, *tiles, viewer, x as int, 0)),
            decreases w - x,
        {
            let mut y: usize = 0;
            while y < h
                invariant
                    x < w,
                    y <= h,
                    w == tiles.spec_width(),
                    h == tiles.spec_height(),
                    self.tiles@.len() == VIEW_CELLS,
                    self.position == old(self).position,
                    old_tiles.len() == VIEW_CELLS,
                    copied_upto(old_tiles, self.tiles@, *tiles, viewer, x as int, y as int),
                    self.incoherent == (inc0 || clash_upto(old_tiles, *tiles, viewer, x as int, y as int)),
                decreases h - y,
            {
                self.copy_cell(viewer, tiles, x, y, Ghost(old_tiles), Ghost(inc0));
                y = y + 1;
            }
            proof {
                assert forall|i: int| 0 <= i < VIEW_CELLS implies #[trigger] self.tiles@[i] == {
                    let (sx, sy) = source_of(*tiles, viewer, i % 256, i / 256);
                    match seen_at(*tiles, viewer, i % 256, i / 256) {
                        Some(t) => if scanned_before(sx, sy, x + 1, 0) { t } else { old_tiles[i] },
                        None => old_tiles[i],
                    }
                } by {
                    lemma_index_split(i);
                }
                if clash_upto(old_tiles, *tiles, viewer, x + 1, 0) {
                    let i = choose|i: int| 0 <= i < VIEW_CELLS && #[trigger] clashes_at(old_tiles, *tiles, viewer, i)
                        && scanned_before(source_of(*tiles, viewer, i % 256, i / 256).0, source_of(*tiles, viewer, i % 256, i / 256).1, x + 1, 0);
                    lemma_index_split(i);
                    assert(clash_upto(old_tiles, *tiles, viewer, x as int, y as int));
                }
                if clash_upto(old_tiles, *tiles, viewer, x as int, y as int) {
                    let i = choose|i: int| 0 <= i < VIEW_CELLS && #[trigger] clashes_at(old_tiles, *tiles, viewer, i)
                        && scanned_before(source_of(*tiles, viewer, i % 256, i / 256).0, source_of(*tiles, viewer, i % 256, i / 256).1, x as int, y as int);
                    assert(clash_upto(old_tiles, *tiles, viewer, x + 1, 0));
                }
            }
            x = x + 1;
        }
        proof {
            assert forall|i: int| 0 <= i < VIEW_CELLS implies #[trigger] self.tiles@[i] == match seen_at(*tiles, viewer, i % 256, i / 256) {
                Some(t) => t,
                None => old(self).tiles@[i],
            } by {
                lemma_index_split(i);
            }
            if clash_upto(old_tiles, *tiles, viewer, x as int, 0) {
                let i = choose|i: int| 0 <= i < VIEW_CELLS && #[trigger] clashes_at(old_tiles, *tiles, viewer, i)
                    && scanned_before(source_of(*tiles, viewer, i % 256, i / 256).0, source_of(*tiles, viewer, i % 256, i / 256).1, x as int, 0);
            }
            if exists|i: int| 0 <= i < VIEW_CELLS && #[trigger] clashes_at(old(self).tiles@, *tiles, viewer, i) {
                let i = choose|i: int| 0 <= i < VIEW_CELLS && #[trigger] clashes_at(old(self).tiles@, *tiles, viewer, i);
                lemma_index_split(i);
                assert(clash_upto(old_tiles, *tiles, viewer, x as int, 0));
            }
            assert(self.tiles@ =~= model_seen(old(self)@, *tiles, viewer).tiles);
        }
    }
}

/// What the client's map holds at the cell `(x, y)` of a square of side
/// `2 * radius + 1` centred on `pos`.
pub open spec fn window_tile(tiles: Seq<Tile>, pos: Position, radius: usize, x: int, y: int) -> Tile {
    let wx = pos.x + x - radius;
    let wy = pos.y + y - radius;
    if 0 <= wx < 256 && 0 <= wy < 256 {
        tiles[wx + 256 * wy]
    } else {
        Tile::Unknown
    }
}

/// `w` is the square of the client's map of side `2 * radius + 1` around `pos`.
pub open spec fn is_window(w: Tiles, tiles: Seq<Tile>, pos: Position, radius: usize) -> bool {
    &&& w.spec_width() == 2 * radius + 1
    &&& w.spec_height() == 2 * radius + 1
    &&& forall|p: Position| #[trigger] w.spec_get(p) == if p.x < 2 * radius + 1 && p.y < 2 * radius + 1 {
        window_tile(tiles, pos, radius, p.x as int, p.y as int)
    } else {
        Tile::Unknown
    }
}

impl Clone for WorldState {
    fn clone(&self) -> (r: WorldState)
        ensures
            r.tiles@ == self.tiles@,
            r.position == self.position,
            r.incoherent == self.incoherent,
    {
        WorldState { tiles: crate::maps::copy_vec(&self.tiles), position: self.position, incoherent: self.incoherent }
    }
}

impl WorldState {
    /// The square of the client's map of side `2 * radius + 1` around the
    /// avatar, to compute a field of view on.
    pub fn tiles_for_fov(&self, radius: usize) -> (r: Tiles)
        requires
            self.wf(),
            radius_ok(radius),
        ensures
            r.spec_width() == 2 * radius + 1,
            r.spec_height() == 2 * radius + 1,
            forall|p: Position| #[trigger] r.spec_get(p) == if p.x < 2 * radius + 1 && p.y < 2 * radius + 1 {
                window_tile(self.tiles@, self.position, radius, p.x as int, p.y as int)
            } else {
                Tile::Unknown
            },
    {
        proof {
            assert((2 * radius + 1) <= (2 * radius + 1) * (2 * radius + 1)) by (nonlinear_arith);
        }
        let size = 2 * radius + 1;
        let mut tiles = Tiles::new(size, size);
        let mut x: usize = 0;
        while x < size
            invariant
                x <= size,
                size == 2 * radius + 1,
                self.wf(),
                tiles.spec_width() == size,
                tiles.spec_height() == size,
                forall|p: Position| #[trigger] tiles.spec_in(p) <==> p.x < size && p.y < size,
                forall|p: Position| #[trigger] tiles.spec_get(p) == if p.x < x && p.y < size {
                    window_tile(self.tiles@, self.position, radius, p.x as int, p.y as int)
                } else {
                    Tile::Unknown
                },
            decreases size - x,
        {
            let mut y: usize = 0;
            while y < size
                invariant
                    x < size,
                    y <= size,
                    size == 2 * radius + 1,
                    self.wf(),
                    tiles.spec_width() == size,
                    tiles.spec_height() == size,
                    forall|p: Position| #[trigger] tiles.spec_in(p) <==> p.x < size && p.y < size,
                    forall|p: Position| #[trigger] tiles.spec_get(p) == if (p.x < x && p.y < size) || (p.x == x && p.y < y) {
                        window_tile(self.tiles@, self.position, radius, p.x as int, p.y as int)
                    } else {
                        Tile::Unknown
                    },
                decreases size - y,
            {
                let world_x: i128 = self.position.x as i128 + x as i128 - radius as i128;
                let world_y: i128 = self.position.y as i128 + y as i128 - radius as i128;
                let tile = if world_x >= 0 && world_y >= 0 && world_x < 256 && world_y < 256 {
                    proof {
                        lemma_cell_of(world_x as int, world_y as int);
                    }
                    self.tiles[(world_x + 256 * world_y) as usize]
                } else {
                    Tile::Unknown
                };
                let p = Position { x, y };
                tiles.set(p, tile);
                y = y + 1;
            }
            x = x + 1;
        }
        tiles
    }

    /// Moves the avatar as its action says, then copies what the senses saw.
    pub fn update(&mut self, action: &ClientAction, server_action: Option<ServerAction>, info: &Option<SensesInfo>)
        requires
            old(self).wf(),
        ensures
            final(self).wf(),
            final(self)@ == model_update(old(self)@, *action, server_action, *info),
    {
        self.update_action(action, server_action);
        if let Some(info) = info {
            let position = self.position;
            if let Some(sight) = &info.sight {
                self.update_tiles(position, &sight.tiles);
            }
            if let Some(touch) = &info.touch {
                self.update_tiles(position, &touch.tiles);
            }
        }
    }
}

/// An offset seen before the avatar moved by `m`, as seen after.
pub open spec fn spec_shifted(o: Offset, m: Offset) -> Offset {
    Offset {
        x: vstd::wrapping::isize_specs::wrapping_sub(o.x, m.x),
        y: vstd::wrapping::isize_specs::wrapping_sub(o.y, m.y),
    }
}

fn shifted(o: Offset, m: Offset) -> (r: Offset)
    ensures
        r == spec_shifted(o, m),
{
    Offset { x: o.x.wrapping_sub(m.x), y: o.y.wrapping_sub(m.y) }
}

fn copy_touch(t: &TouchInfo) -> (r: TouchInfo)
    ensures
        r.tiles.spec_same(t.tiles),
        r.foes@ == t.foes@,
        r.traps == t.traps,
        r.orb == t.orb,
{
    TouchInfo { tiles: t.tiles.clone(), foes: crate::maps::copy_vec(&t.foes), traps: t.traps, orb: t.orb }
}

fn copy_status(s: &SightedAllyStatus) -> (r: SightedAllyStatus)
    ensures
        match (r, *s) {
            (SightedAllyStatus::Controlled { turn: a, name: n }, SightedAllyStatus::Controlled { turn: b, name: m }) => a == b && n@ == m@,
            (SightedAllyStatus::Discarded, SightedAllyStatus::Discarded) => true,
            _ => false,
        },
{
    match s {
        SightedAllyStatus::Controlled { turn, name } => SightedAllyStatus::Controlled { turn: *turn, name: name.clone() },
        SightedAllyStatus::Discarded => SightedAllyStatus::Discarded,
    }
}

/// The ally `a` carries the name and status of `b`.
pub open spec fn same_label(a: SightedAlly, b: SightedAlly) -> bool {
    &&& match (a.name, b.name) {
        (Some(n), Some(m)) => n@ == m@,
        (None, None) => true,
        _ => false,
    }
    &&& match (a.status, b.status) {
        (SightedAllyStatus::Controlled { turn: x, name: n }, SightedAllyStatus::Controlled { turn: y, name: m }) => x == y && n@ == m@,
        (SightedAllyStatus::Discarded, SightedAllyStatus::Discarded) => true,
        _ => false,
    }
}

/// What sight would show right after the avatar moved by `movement`: the
/// field of view on the client's map, and what it saw last turn where it was,
/// the offsets shifted by the move.
fn shifted_sight(prev: &SightInfo, fov_tiles: Tiles, movement: Offset) -> (r: SightInfo)
    ensures
        r.tiles == fov_tiles,
        r.foes@.len() == prev.foes@.len(),
        forall|i: int| 0 <= i < prev.foes@.len() ==> #[trigger] r.foes@[i] == (SightedFoe {
            offset: spec_shifted(prev.foes@[i].offset, movement),
            ..prev.foes@[i]
        }),
        r.orb == match prev.orb {
            Some(o) => Some(spec_shifted(o, movement)),
            None => None,
        },
        r.allies@.len() == prev.allies@.len(),
        forall|i: int| 0 <= i < prev.allies@.len() ==> {
            &&& (#[trigger] r.allies@[i]).offset == spec_shifted(prev.allies@[i].offset, movement)
            &&& r.allies@[i].alive == prev.allies@[i].alive
            &&& r.allies@[i].next_move == match prev.allies@[i].next_move {
                Some(o) => Some(spec_shifted(o, movement)),
                None => None,
            }
            &&& same_label(r.allies@[i], prev.allies@[i])
        },
{
    let mut foes: Vec<SightedFoe> = Vec::new();
    let n = prev.foes.len();
    let mut i: usize = 0;
    while i < n
        invariant
            n == prev.foes@.len(),
            i <= n,
            foes@.len() == i,
            forall|k: int| 0 <= k < i ==> #[trigger] foes@[k] == (SightedFoe {
                offset: spec_shifted(prev.foes@[k].offset, movement),
                ..prev.foes@[k]
            }),
        decreases n - i,
    {
        let mut f = prev.foes[i];
        f.offset = shifted(f.offset, movement);
        foes.push(f);
        i = i + 1;
    }
    let orb = match prev.orb {
        Some(o) => Some(shifted(o, movement)),
        None => None,
    };
    let mut allies: Vec<SightedAlly> = Vec::new();
    let m = prev.allies.len();
    let mut j: usize = 0;
    while j < m
        invariant
            m == prev.allies@.len(),
            j <= m,
            allies@.len() == j,
            forall|k: int| 0 <= k < j ==> {
                &&& (#[trigger] allies@[k]).offset == spec_shifted(prev.allies@[k].offset, movement)
                &&& allies@[k].alive == prev.allies@[k].alive
                &&& allies@[k].next_move == match prev.allies@[k].next_move {
                    Some(o) => Some(spec_shifted(o, movement)),
                    None => None,
                }
                &&& same_label(allies@[k], prev.allies@[k])
            },
        decreases m - j,
    {
        let a = &prev.allies[j];
        let name = match &a.name {
            Some(n) => Some(n.clone()),
            None => None,
        };
        let next_move = match a.next_move {
            Some(o) => Some(shifted(o, movement)),
            None => None,
        };
        allies.push(SightedAlly {
            name,
            offset: shifted(a.offset, movement),
            alive: a.alive,
            status: copy_status(&a.status),
            next_move,
        });
        j = j + 1;
    }
    SightInfo { tiles: fov_tiles, foes, orb, allies }
}

/// The radius of a view of sight: half its side.
pub open spec fn view_radius(s: SightInfo) -> int {
    if s.tiles.spec_width() >= 1 {
        (s.tiles.spec_width() - 1) / 2
    } else {
        0
    }
}

impl WorldState {
    /// Sense info to show while the server's answer is on its way: sight is
    /// computed on the client's map from where the action leads, no farther
    /// than what was requested and what was seen last turn, with what was seen
    /// last turn moved along; the other senses tell what they told last turn.
    /// Nothing when no sense has anything to tell.
    #[verifier::rlimit(50)]
    #[verifier::spinoff_prover]
    pub fn generate_intermediate_info(
        action: &ClientAction,
        senses: &Senses,
        current_state: &WorldState,
        previous_info: Option<&SensesInfo>,
    ) -> (r: Option<SensesInfo>)
        requires
            current_state.wf(),
        ensures
            ({
                let prev_sight = match previous_info {
                    Some(info) => info.sight,
                    None => None,
                };
                let radius = match prev_sight {
                    Some(s) => if (senses.sight.spec_get() as int) < view_radius(s) { senses.sight.spec_get() as int } else { view_radius(s) },
                    None => 0,
                };
                let selfi = match previous_info { Some(info) => info.selfi, None => None };
                let touch_some = match previous_info { Some(info) => info.touch is Some, None => false };
                let hearing = match previous_info { Some(info) => info.hearing, None => None };
                &&& r is Some <==> (radius > 0 || selfi is Some || touch_some || hearing is Some)
                &&& r matches Some(info) ==> {
                    &&& info.selfi == selfi
                    &&& info.hearing == hearing
                    &&& info.touch is Some == touch_some
                    &&& info.sight is Some <==> radius > 0
                    &&& info.sight matches Some(s) ==> view_shape(s.tiles, radius as usize)
                }
            }),
            r matches Some(info) ==> (info.touch matches Some(t) ==> (previous_info matches Some(p) && p.touch matches Some(pt)
                && t.tiles.spec_same(pt.tiles) && t.foes@ == pt.foes@ && t.traps == pt.traps && t.orb == pt.orb)),
            r matches Some(info) ==> (info.sight matches Some(s) ==> ({
                let moved = model_moved(current_state@, *action, None);
                let movement = spec_position_diff(moved.position, current_state.position);
                let radius = (s.tiles.spec_width() - 1) / 2;
                &&& previous_info matches Some(p) && p.sight matches Some(ps)
                    && s.foes@.len() == ps.foes@.len()
                    && (forall|i: int| 0 <= i < ps.foes@.len() ==> #[trigger] s.foes@[i] == (SightedFoe {
                        offset: spec_shifted(ps.foes@[i].offset, movement),
                        ..ps.foes@[i]
                    }))
                    && s.orb == match ps.orb {
                        Some(o) => Some(spec_shifted(o, movement)),
                        None => None,
                    }
                    && s.allies@.len() == ps.allies@.len()
                    && (forall|i: int| 0 <= i < ps.allies@.len() ==> (#[trigger] s.allies@[i]).offset == spec_shifted(ps.allies@[i].offset, movement)
                        && s.allies@[i].alive == ps.allies@[i].alive
                        && s.allies@[i].next_move == match ps.allies@[i].next_move {
                            Some(o) => Some(spec_shifted(o, movement)),
                            None => None,
                        }
                        && same_label(s.allies@[i], ps.allies@[i]))
                &&& exists|w: Tiles| #[trigger] is_window(w, moved.tiles, moved.position, radius as usize)
                    && (forall|p: Position| #[trigger] s.tiles.spec_get(p) == if fov_cells(
                        Position { x: radius as usize, y: radius as usize }, radius as usize, w).contains(p) {
                        w.spec_get(world_of_view(Position { x: radius as usize, y: radius as usize }, radius as usize, p))
                    } else {
                        Tile::Unknown
                    })
                    && view_sound(s.tiles, Position { x: radius as usize, y: radius as usize }, radius as usize, w)
                    && (forall|dx: int, dy: int| -1 <= dx <= 1 && -1 <= dy <= 1 && (dx != 0 || dy != 0)
                        ==> #[trigger] shows_truth(s.tiles, Position { x: radius as usize, y: radius as usize },
                        radius as usize, w, neighbour_cell(radius as usize, dx, dy)))
                    && (open_around(Position { x: radius as usize, y: radius as usize }, radius as usize, w)
                        ==> forall|p: Position| in_view(radius as usize, p) && p != (Position { x: radius as usize, y: radius as usize })
                        ==> #[trigger] shows_truth(s.tiles, Position { x: radius as usize, y: radius as usize }, radius as usize, w, p))
            })),
    {
        // Predict the state after this action to get the right position
        let old_position = current_state.position;
        let mut predicted_state = current_state.clone();
        predicted_state.update_action(action, None);
        let new_position = predicted_state.position;
        // Calculate player movement offset to adjust entity offsets
        let player_movement = new_position.diff(old_position);
        let requested = senses.sight.get() as usize;
        let previous_sight: Option<&SightInfo> = match previous_info {
            Some(info) => match &info.sight {
                Some(s) => Some(s),
                None => None,
            },
            None => None,
        };
        let sight = if requested > 0 {
            let previous_radius = match previous_sight {
                Some(s) => {
                    let w = s.tiles.width();
                    if w >= 1 {
                        (w - 1) / 2
                    } else {
                        0
                    }
                },
                None => 0,
            };
            let sight_radius = if requested < previous_radius {
                requested
            } else {
                previous_radius
            };
            if sight_radius > 0 {
                proof {
                    assert((2 * 10 + 1) * (2 * 10 + 1) <= usize::MAX) by (nonlinear_arith);
                    assert((2 * sight_radius + 1) * (2 * sight_radius + 1) <= (2 * 10 + 1) * (2 * 10 + 1)) by (nonlinear_arith)
                        requires sight_radius <= 10;
                }
                // Convert client tiles to Tiles for FOV calculation
                let tiles_for_fov = predicted_state.tiles_for_fov(sight_radius);
                // Calculate FOV from center of the local grid
                let center_pos = Position { x: sight_radius, y: sight_radius };
                let fov_tiles = fov(center_pos, sight_radius, &tiles_for_fov);
                proof {
                    let moved = model_moved(current_state@, *action, None);
                    let r = ((fov_tiles.spec_width() - 1) / 2) as usize;
                    assert(r == sight_radius);
                    assert(predicted_state@ == moved);
                    assert(is_window(tiles_for_fov, moved.tiles, moved.position, r)
                        && view_sound(fov_tiles, Position { x: r, y: r }, r, tiles_for_fov));
                }
                match previous_sight {
                    Some(prev) => Some(shifted_sight(prev, fov_tiles, player_movement)),
                    None => Some(SightInfo { tiles: fov_tiles, foes: Vec::new(), orb: None, allies: Vec::new() }),
                }
            } else {
                None
            }
        } else {
            None
        };
        proof {
            assert(sight matches Some(s) ==> exists|w: Tiles| #[trigger] is_window(
                w,
                model_moved(current_state@, *action, None).tiles,
                model_moved(current_state@, *action, None).position,
                ((s.tiles.spec_width() - 1) / 2) as usize,
            ) && view_sound(
                s.tiles,
                Position { x: ((s.tiles.spec_width() - 1) / 2) as usize, y: ((s.tiles.spec_width() - 1) / 2) as usize },
                ((s.tiles.spec_width() - 1) / 2) as usize,
                w,
            ));
        }
        // Copy other sense infos from previous state
        let selfi = match previous_info {
            Some(info) => info.selfi,
            None => None,
        };
        let touch = match previous_info {
            Some(info) => match &info.touch {
                Some(t) => Some(copy_touch(t)),
                None => None,
            },
            None => None,
        };
        let hearing = match previous_info {
            Some(info) => info.hearing,
            None => None,
        };
        // Return intermediate info if at least one sense is present
        if sight.is_some() || selfi.is_some() || touch.is_some() || hearing.is_some() {
            Some(SensesInfo { selfi, touch, sight, hearing })
        } else {
            None
        }
    }
}

/// One turn of the player, as the client recorded it.
pub struct WorldDiff {
    pub action: ClientAction,
    pub update_received: bool,
    pub server_action: Option<ServerAction>,
    pub info: Option<SensesInfo>,
}

/// How many turns the client keeps apart from its past state.
pub const HISTORY_MAX: usize = 10;

/// What the client knows of the game: the state before the turns it keeps,
/// those turns, and the state they lead to.
pub struct WorldView {
    pub winner: bool,
    pub stage: StageId,
    pub turn: Turn,
    pub history: Vec<WorldDiff>,
    pub past_state: WorldState,
    pub current_state: WorldState,
    pub logs: GameLogs,
    pub stage_turn: StageTurn,
    pub timeline: Timeline,
}

/// An unknown map, the avatar at its centre.
pub open spec fn fresh_map() -> MapModel {
    MapModel { tiles: Seq::new(VIEW_CELLS as nat, |i: int| Tile::Unknown), position: start_pos(), incoherent: false }
}

/// The distance between two turns.
pub open spec fn turn_gap(a: Turn, b: Turn) -> int {
    if a >= b { a - b } else { b - a }
}

/// The kept turns once the one `gap` turns before the last takes `f`'s
/// answer; the same turns when it is no longer kept.
pub open spec fn answered(history: Seq<WorldDiff>, gap: int, f: spec_fn(WorldDiff) -> WorldDiff) -> Seq<WorldDiff> {
    if history.len() > gap {
        history.update(history.len() - gap - 1, f(history[history.len() - gap - 1]))
    } else {
        history
    }
}

/// The map after the turns of `history`, replayed from `m`.
pub open spec fn replay(m: MapModel, history: Seq<WorldDiff>) -> MapModel
    decreases history.len(),
{
    if history.len() == 0 {
        m
    } else {
        let d = history.last();
        model_update(replay(m, history.drop_last()), d.action, d.server_action, d.info)
    }
}

/// Replaying the first turn onto the map, then the others, replays them all.
proof fn lemma_replay_shift(m: MapModel, history: Seq<WorldDiff>)
    requires
        history.len() >= 1,
    ensures
        replay(model_update(m, history[0].action, history[0].server_action, history[0].info), history.subrange(1, history.len() as int))
            == replay(m, history),
    decreases history.len(),
{
    let mu = model_update(m, history[0].action, history[0].server_action, history[0].info);
    let rest = history.subrange(1, history.len() as int);
    let last = history.last();
    assert(replay(m, history) == model_update(replay(m, history.drop_last()), last.action, last.server_action, last.info));
    if history.len() == 1 {
        assert(rest =~= Seq::<WorldDiff>::empty());
        assert(history.drop_last() =~= Seq::<WorldDiff>::empty());
        assert(replay(m, history.drop_last()) == m);
        assert(last == history[0]);
        assert(replay(mu, rest) == mu);
    } else {
        let front = history.drop_last();
        lemma_replay_shift(m, front);
        assert(front[0] == history[0]);
        assert(rest.drop_last() =~= front.subrange(1, front.len() as int));
        assert(rest.last() == last);
        assert(replay(mu, rest) == model_update(replay(mu, rest.drop_last()), last.action, last.server_action, last.info));
    }
}

impl WorldView {
    /// Both maps have all their cells, and the current map is the past map
    /// with every kept turn replayed.
    pub open spec fn wf(&self) -> bool {
        &&& self.past_state.wf()
        &&& self.current_state.wf()
        &&& self.current_state@ == replay(self.past_state@, self.history@)
    }

    pub fn new() -> (r: WorldView)
        ensures
            r.wf(),
            !r.winner,
            r.stage == 0,
            r.turn == 1,
            r.stage_turn == 1,
            r.history@.len() == 0,
            r.timeline == (Timeline { head: 1, tail: 1 }),
            r.logs@ == seq![(1u64, LogEventView::Client(ClientLog::Help))],
    {
        let mut logs = GameLogs::default();
        logs.add(1, ClientLog::Help);
        proof {
            let s = Seq::<(Turn, LogEventView)>::empty().push((1u64, LogEventView::Client(ClientLog::Help)));
            assert(s.drop_last() =~= Seq::<(Turn, LogEventView)>::empty());
            assert(sort_by_turn(s.drop_last()) =~= Seq::<(Turn, LogEventView)>::empty());
            assert(crate::logs::upper_index(Seq::<(Turn, LogEventView)>::empty(), 1) == 0);
            assert(Seq::<(Turn, LogEventView)>::empty().insert(0, s.last()) =~= s);
            assert(sort_by_turn(s) =~= s);
            assert(dedup(s.drop_last()) =~= Seq::<(Turn, LogEventView)>::empty());
            assert(dedup(s) =~= s);
        }
        let past_state = WorldState::new();
        let current_state = WorldState::new();
        proof {
            assert(current_state.tiles@ =~= past_state.tiles@);
        }
        WorldView {
            winner: false,
            stage: 0,
            turn: 1,
            stage_turn: 1,
            history: Vec::new(),
            past_state,
            current_state,
            logs,
            timeline: Timeline { head: 1, tail: 1 },
        }
    }

    /// Resets the world. Mostly after a respawn or a goal reached.
    pub fn clear(&mut self)
        ensures
            final(self).wf(),
            final(self).history@.len() == 0,
            final(self).past_state@ == fresh_map(),
            final(self).current_state.position == start_pos(),
            final(self).past_state.position == start_pos(),
            final(self).logs@ == old(self).logs@,
            final(self).winner == old(self).winner,
            final(self).turn == old(self).turn,
            final(self).stage == old(self).stage,
            final(self).stage_turn == old(self).stage_turn,
            final(self).timeline == old(self).timeline,
    {
        self.history = Vec::new();
        self.past_state = WorldState::new();
        self.current_state = WorldState::new();
        proof {
            assert(self.current_state.tiles@ =~= self.past_state.tiles@);
            assert(self.history@ =~= Seq::<WorldDiff>::empty());
            assert(self.past_state.tiles@ =~= fresh_map().tiles);
        }
    }

    pub fn current_state(&self) -> (r: &WorldState)
        ensures
            *r == self.current_state,
    {
        &self.current_state
    }

    /// The sense info of the last turn kept, if any.
    pub fn last_info(&self) -> (r: Option<&SensesInfo>)
        ensures
            self.history@.len() == 0 ==> r is None,
            self.history@.len() > 0 ==> match self.history@.last().info {
                Some(i) => r == Some(&i),
                None => r is None,
            },
    {
        let n = self.history.len();
        if n == 0 {
            return None;
        }
        match &self.history[n - 1].info {
            Some(info) => Some(info),
            None => None,
        }
    }

    /// The current state is the past state with every kept turn replayed.
    fn rebuild_current_state(&mut self)
        requires
            old(self).past_state.wf(),
        ensures
            final(self).wf(),
            final(self).history@ == old(self).history@,
            final(self).past_state == old(self).past_state,
            final(self).turn == old(self).turn,
            final(self).stage == old(self).stage,
            final(self).stage_turn == old(self).stage_turn,
            final(self).timeline == old(self).timeline,
            final(self).logs@ == old(self).logs@,
            final(self).winner == old(self).winner,
    {
        let mut state = self.past_state.clone();
        proof {
            assert(self.history@.take(0) =~= Seq::<WorldDiff>::empty());
        }
        let n = self.history.len();
        let mut i: usize = 0;
        while i < n
            invariant
                n == self.history@.len(),
                i <= n,
                state.wf(),
                state@ == replay(self.past_state@, self.history@.take(i as int)),
            decreases n - i,
        {
            let h = &self.history[i];
            state.update(&h.action, h.server_action, &h.info);
            proof {
                assert(self.history@.take(i + 1).drop_last() =~= self.history@.take(i as int));
                assert(self.history@.take(i + 1).last() == self.history@[i as int]);
            }
            i = i + 1;
        }
        proof {
            assert(self.history@.take(n as int) =~= self.history@);
        }
        self.current_state = state;
    }

    /// The player acts: a spawn forgets the map; the turn is recorded with
    /// sense info guessed on the client, at most `HISTORY_MAX` turns are kept,
    /// the older ones go into the past state.
    pub fn act(&mut self, action: &ClientAction, senses: &Senses)
        requires
            old(self).wf(),
        ensures
            final(self).wf(),
            final(self).turn == if old(self).turn < u64::MAX { (old(self).turn + 1) as u64 } else { 0 },
            final(self).history@.len() == if *action == ClientAction::Spawn {
                1
            } else if old(self).history@.len() + 1 > HISTORY_MAX {
                HISTORY_MAX as int
            } else {
                (old(self).history@.len() + 1) as int
            },
            final(self).history@.last().action == *action,
            !final(self).history@.last().update_received,
            final(self).history@.last().server_action is None,
            ({
                let base = if *action == ClientAction::Spawn { Seq::<WorldDiff>::empty() } else { old(self).history@ };
                final(self).history@.drop_last() == base.subrange(base.len() + 1 - final(self).history@.len(), base.len() as int)
            }),
            final(self).stage == old(self).stage,
    {
        if *action == ClientAction::Spawn {
            self.clear();
        }
        let ghost base = self.history@;
        proof {
            assert(*action == ClientAction::Spawn ==> base =~= Seq::<WorldDiff>::empty());
        }
        let intermediate_info = {
            let previous_info = self.last_info();
            WorldState::generate_intermediate_info(action, senses, &self.current_state, previous_info)
        };
        self.current_state.update(action, None, &intermediate_info);
        self.history.push(WorldDiff { action: *action, update_received: false, server_action: None, info: intermediate_info });
        proof {
            assert(self.history@.drop_last() =~= base);
        }
        let ghost pushed = self.history@.len();
        // Don't maintain old history entries
        while self.history.len() > HISTORY_MAX
            invariant
                self.wf(),
                self.turn == old(self).turn,
                self.stage == old(self).stage,
                pushed == base.len() + 1,
                pushed > HISTORY_MAX ==> self.history@.len() >= HISTORY_MAX,
                pushed <= HISTORY_MAX ==> self.history@.len() == pushed,
                1 <= self.history@.len() <= pushed,
                self.history@.last().action == *action,
                !self.history@.last().update_received,
                self.history@.last().server_action is None,
                self.history@.drop_last() == base.subrange(base.len() + 1 - self.history@.len(), base.len() as int),
            decreases self.history@.len(),
        {
            let ghost hist = self.history@;
            let ghost past = self.past_state@;
            let h = self.history.remove(0);
            self.past_state.update(&h.action, h.server_action, &h.info);
            proof {
                lemma_replay_shift(past, hist);
                assert(self.history@ =~= hist.subrange(1, hist.len() as int));
                assert(self.history@.drop_last() =~= hist.drop_last().subrange(1, hist.len() - 1));
                assert(self.history@.drop_last() =~= base.subrange(base.len() + 1 - self.history@.len(), base.len() as int));
            }
        }
        self.turn = self.turn.wrapping_add(1);
    }

    /// The server's answer to the player's turn `msg.turn`: a new stage
    /// forgets the map, the events join the logs, and the turn it answers, if
    /// still kept, takes the server's sense info and action.
    pub fn update(&mut self, msg: TurnMessage)
        requires
            old(self).wf(),
        ensures
            final(self).wf(),
            final(self).stage_turn == msg.stage_turn,
            final(self).timeline == msg.timeline,
            final(self).turn == old(self).turn,
            final(self).stage == if msg.turn == old(self).turn { msg.stage } else { old(self).stage },
            final(self).history@.len() == if msg.turn == old(self).turn && msg.stage != old(self).stage {
                0
            } else {
                old(self).history@.len()
            },
            final(self).logs@ == old(self).logs@ + msg.events@.map_values(
                |e: GEvent| (msg.turn, LogEventView::Server(e.spec_sources(), e.spec_event())),
            ),
            ({
                let cleared = msg.turn == old(self).turn && msg.stage != old(self).stage;
                let base = if cleared { Seq::<WorldDiff>::empty() } else { old(self).history@ };
                &&& final(self).past_state@ == if cleared { fresh_map() } else { old(self).past_state@ }
                &&& final(self).history@ == answered(
                    base,
                    turn_gap(msg.turn, old(self).turn),
                    |d: WorldDiff| WorldDiff { info: msg.info, server_action: Some(msg.action), update_received: true, ..d },
                )
            }),
    {
        let ghost msg0 = msg;
        let TurnMessage { player_id: _, turn, stage_turn, stage, info, action, events, timeline } = msg;
        let diff: u64 = if turn >= self.turn { turn - self.turn } else { self.turn - turn };
        // Update global info
        if diff == 0 {
            if self.stage != stage {
                self.clear();
            }
            self.stage = stage;
        }
        let ghost base = self.history@;
        self.logs.add_server_events(turn, events);
        let n = self.history.len();
        if (n as u64) > diff {
            let index = n - diff as usize - 1;
            self.history[index].info = info;
            self.history[index].server_action = Some(action);
            self.history[index].update_received = true;
            self.rebuild_current_state();
            proof {
                assert(self.history@ =~= answered(
                    base,
                    turn_gap(msg0.turn, old(self).turn),
                    |d: WorldDiff| WorldDiff { info: msg0.info, server_action: Some(msg0.action), update_received: true, ..d },
                ));
            }
        }
        self.stage_turn = stage_turn;
        self.timeline = timeline;
    }

    /// The player arrives on a stage: the map is forgotten and the arrival is
    /// the only turn kept.
    pub fn transition(&mut self, msg: TransitionMessage)
        requires
            old(self).wf(),
        ensures
            final(self).wf(),
            final(self).stage == msg.stage,
            final(self).stage_turn == msg.stage_turn,
            final(self).timeline == msg.timeline,
            final(self).turn == old(self).turn,
            final(self).history@.len() == 1,
            final(self).history@[0].action == ClientAction::Wait,
            final(self).history@[0].server_action == Some(ServerAction::Wait),
            final(self).history@[0].update_received,
            final(self).history@[0].info == msg.info,
            final(self).past_state@ == fresh_map(),
            final(self).logs@ == old(self).logs@,
    {
        let TransitionMessage { player_id: _, turn: _, stage_turn, stage, info, timeline } = msg;
        self.clear();
        self.stage = stage;
        self.stage_turn = stage_turn;
        self.history.push(WorldDiff { action: ClientAction::Wait, server_action: Some(ServerAction::Wait), info, update_received: true });
        self.timeline = timeline;
        self.rebuild_current_state();
    }

    /// The turn thought lost is saved: the last turn kept takes the sense
    /// info that comes with the news.
    pub fn update_on_averted(&mut self, info: SensesInfo)
        requires
            old(self).wf(),
        ensures
            final(self).wf(),
            final(self).history@.len() == old(self).history@.len(),
            final(self).turn == old(self).turn,
            final(self).stage == old(self).stage,
            old(self).history@.len() > 0 ==> final(self).history@.last().info is Some,
            final(self).past_state@ == old(self).past_state@,
            final(self).history@ == answered(old(self).history@, 0, |d: WorldDiff| WorldDiff { info: Some(info), ..d }),
    {
        let ghost info0 = info;
        let n = self.history.len();
        if n > 0 {
            self.history[n - 1].info = Some(info);
            self.rebuild_current_state();
            proof {
                assert(self.history@ =~= answered(old(self).history@, 0, |d: WorldDiff| WorldDiff { info: Some(info0), ..d }));
            }
        }
    }

    /// Sense info for the player's turn that matches `stage_turn`, sent when
    /// another player played: it replaces the info of that turn, if kept.
    pub fn update_on_timeline(&mut self, stage_turn: StageTurn, info: SensesInfo)
        requires
            old(self).wf(),
        ensures
            final(self).wf(),
            final(self).history@.len() == old(self).history@.len(),
            final(self).turn == old(self).turn,
            final(self).stage == old(self).stage,
            final(self).stage_turn == old(self).stage_turn,
            final(self).past_state@ == old(self).past_state@,
            final(self).history@ == answered(
                old(self).history@,
                turn_gap(
                    vstd::wrapping::u64_specs::wrapping_sub(
                        vstd::wrapping::u64_specs::wrapping_add(stage_turn, old(self).turn),
                        old(self).stage_turn,
                    ),
                    old(self).turn,
                ),
                |d: WorldDiff| WorldDiff { info: Some(info), ..d },
            ),
    {
        let ghost info0 = info;
        // The player's turn for that stage turn
        let turn = stage_turn.wrapping_add(self.turn).wrapping_sub(self.stage_turn);
        let diff: u64 = if turn >= self.turn { turn - self.turn } else { self.turn - turn };
        let n = self.history.len();
        if (n as u64) > diff {
            let index = n - diff as usize - 1;
            self.history[index].info = Some(info);
            self.rebuild_current_state();
            proof {
                assert(self.history@ =~= answered(old(self).history@, diff as int, |d: WorldDiff| WorldDiff { info: Some(info0), ..d }));
            }
        }
    }

    /// The timeline of the player's stage changed.
    pub fn update_timeline(&mut self, stage: StageId, timeline: Timeline)
        ensures
            final(self).timeline == if stage == old(self).stage { timeline } else { old(self).timeline },
            final(self).stage == old(self).stage,
            final(self).turn == old(self).turn,
            final(self).history@ == old(self).history@,
    {
        if self.stage == stage {
            self.timeline = timeline;
        }
    }
}

} // verus!
