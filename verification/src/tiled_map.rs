//! Stage templates from maps drawn in the Tiled editor: the tile ids of the
//! map's layers say where walls, spawns, pylons, foes and orbs are, and its
//! properties give the stage's name and settings.

use vstd::prelude::*;
use crate::board::{flag_cell, flag_cells, flag_cols, flag_in, flag_grid_new, flag_grid_set};
use crate::sense::SenseType;
use crate::types::{Foe, Position, Tile, Tiles};
use crate::world::{StageTemplate, TimelineType};

verus! {

pub const MINDSNARE_ID: u32 = 1;
pub const SIMPLE_FOE_ID: u32 = 6;
pub const SPAWN_ID: u32 = 2;
pub const ORB_ID: u32 = 3;
pub const WALL_ID: u32 = 4;
pub const PYLON_ID: u32 = 5;

/// A layer of tiles of a map: the id of the tile at `(x, y)`, if any, stands
/// at `y * width + x`.
pub struct TileLayer {
    pub width: Option<u32>,
    pub height: Option<u32>,
    pub tiles: Vec<Option<u32>>,
}

impl TileLayer {
    /// The tile id at `(x, y)`, if the layer has one there.
    pub open spec fn spec_tile(&self, x: int, y: int) -> Option<u32> {
        match (self.width, self.height) {
            (Some(w), Some(h)) => if 0 <= x < w && 0 <= y < h && 0 <= y * w + x < self.tiles@.len() {
                self.tiles@[y * w + x]
            } else {
                None
            },
            _ => None,
        }
    }

    pub fn get_tile(&self, x: u32, y: u32) -> (r: Option<u32>)
        ensures
            r == self.spec_tile(x as int, y as int),
    {
        match (self.width, self.height) {
            (Some(w), Some(h)) => {
                if x >= w || y >= h {
                    return None;
                }
                proof {
                    assert((y as int) * (w as int) <= (u32::MAX as int) * (u32::MAX as int)) by (nonlinear_arith)
                        requires y <= u32::MAX, w <= u32::MAX, y >= 0, w >= 0;
                }
                let i: u128 = y as u128 * w as u128 + x as u128;
                if i >= self.tiles.len() as u128 {
                    return None;
                }
                self.tiles[i as usize]
            },
            _ => None,
        }
    }
}

/// A layer of a map, by name; only layers of tiles carry tiles.
pub struct NamedLayer {
    pub name: String,
    pub tiles: Option<TileLayer>,
}

/// The custom properties of a map that a stage reads; each is there only when
/// it has the expected type.
pub struct MapProperties {
    pub name: Option<String>,
    pub fp_regen: Option<i32>,
    pub senses: Option<String>,
    pub timeline_length: Option<i32>,
    pub timeline_type: Option<String>,
}

pub struct TiledMap {
    pub layers: Vec<NamedLayer>,
    pub properties: MapProperties,
}

/// Why a map could not become a stage.
#[derive(Debug, Clone, Copy, PartialEq, Eq, Structural)]
pub enum MapError {
    NoWidth,
    NoHeight,
    /// The map has more cells than memory can address.
    TooLarge,
    NoTerrainLayer,
    NoFoesLayer,
    NoOrbLayer,
}

/// The tile that an id of the terrain layer stands for.
pub open spec fn terrain_tile(id: u32) -> Tile {
    if id == SPAWN_ID {
        Tile::Spawn
    } else if id == WALL_ID {
        Tile::Wall
    } else if id == PYLON_ID {
        Tile::Pylon
    } else {
        Tile::Empty
    }
}

/// The layer's width and height, and whether a grid of that size fits in memory.
fn layer_size(layer: &TileLayer) -> (r: Result<(u32, u32), MapError>)
    ensures
        match r {
            Ok((w, h)) => layer.width == Some(w) && layer.height == Some(h) && w * h <= usize::MAX,
            Err(e) => (layer.width is None && e == MapError::NoWidth)
                || (layer.width is Some && layer.height is None && e == MapError::NoHeight)
                || (layer.width is Some && layer.height is Some && e == MapError::TooLarge
                    && layer.width.unwrap() * layer.height.unwrap() > usize::MAX),
        },
{
    let w = match layer.width {
        Some(w) => w,
        None => return Err(MapError::NoWidth),
    };
    let h = match layer.height {
        Some(h) => h,
        None => return Err(MapError::NoHeight),
    };
    proof {
        assert((w as int) * (h as int) <= (u32::MAX as int) * (u32::MAX as int)) by (nonlinear_arith)
            requires w <= u32::MAX, h <= u32::MAX, w >= 0, h >= 0;
    }
    let cells: u128 = w as u128 * h as u128;
    if cells > usize::MAX as u128 {
        return Err(MapError::TooLarge);
    }
    Ok((w, h))
}

/// The error a layer gives when it lacks a size, or has more cells than
/// memory can address.
pub open spec fn layer_error(layer: TileLayer) -> Option<MapError> {
    if layer.width is None {
        Some(MapError::NoWidth)
    } else if layer.height is None {
        Some(MapError::NoHeight)
    } else if layer.width.unwrap() * layer.height.unwrap() > usize::MAX {
        Some(MapError::TooLarge)
    } else {
        None
    }
}

/// `t` is the terrain the layer draws: walls, spawns and pylons by their
/// ids, empty ground for any other id, unknown where nothing is drawn.
pub open spec fn terrain_of(t: Tiles, value: TileLayer) -> bool {
    &&& value.width is Some && value.height is Some
    &&& t.spec_width() == (if value.height.unwrap() > 0 { value.width.unwrap() as nat } else { 0 })
    &&& t.spec_height() == (if value.width.unwrap() > 0 { value.height.unwrap() as nat } else { 0 })
    &&& forall|p: Position| #[trigger] t.spec_get(p) == if p.x < value.width.unwrap() && p.y < value.height.unwrap() {
        match value.spec_tile(p.x as int, p.y as int) {
            Some(id) => terrain_tile(id),
            None => Tile::Unknown,
        }
    } else {
        Tile::Unknown
    }
}

/// `g` marks the cells where the layer draws the orb.
pub open spec fn orbs_of(g: grid::Grid<bool>, layer: TileLayer) -> bool {
    &&& layer.width is Some && layer.height is Some
    &&& flag_cells(g).len() * flag_cols(g) <= usize::MAX
    &&& forall|x: int, y: int| #[trigger] flag_in(g, x, y) <==> 0 <= x < layer.width.unwrap() && 0 <= y < layer.height.unwrap()
    &&& forall|x: int, y: int| #[trigger] flag_in(g, x, y) ==> flag_cell(g, x, y) == (layer.spec_tile(x, y) == Some(ORB_ID))
}

/// The map's tiles from its terrain layer: walls, spawns and pylons where
/// their ids stand, empty tiles where another id stands, unknown where none.
pub fn convert_tiled(value: &TileLayer) -> (r: Result<Tiles, MapError>)
    ensures
        match layer_error(*value) {
            Some(e) => r == Err::<Tiles, MapError>(e),
            None => r matches Ok(t) && terrain_of(t, *value),
        },
{
    let (wu, hu) = match layer_size(value) {
        Ok(s) => s,
        Err(e) => return Err(e),
    };
    let w = wu as usize;
    let h = hu as usize;
    let mut result = Tiles::new(w, h);
    let mut x: usize = 0;
    while x < w
        invariant
            x <= w,
            value.width == Some(wu),
            value.height == Some(hu),
            w == wu,
            h == hu,
            w > 0 && h > 0 ==> result.spec_width() == w && result.spec_height() == h,
            w == 0 || h == 0 ==> result.spec_width() == 0 && result.spec_height() == 0,
            forall|p: Position| #[trigger] result.spec_in(p) <==> p.x < w && p.y < h,
            forall|p: Position| #[trigger] result.spec_get(p) == if p.x < x && p.y < h {
                match value.spec_tile(p.x as int, p.y as int) {
                    Some(id) => terrain_tile(id),
                    None => Tile::Unknown,
                }
            } else {
                Tile::Unknown
            },
        decreases w - x,
    {
        let mut y: usize = 0;
        while y < h
            invariant
                x < w,
                y <= h,
                value.width == Some(wu),
                value.height == Some(hu),
                w == wu,
                h == hu,
                w > 0 && h > 0 ==> result.spec_width() == w && result.spec_height() == h,
                w == 0 || h == 0 ==> result.spec_width() == 0 && result.spec_height() == 0,
                forall|p: Position| #[trigger] result.spec_in(p) <==> p.x < w && p.y < h,
                forall|p: Position| #[trigger] result.spec_get(p) == if (p.x < x && p.y < h) || (p.x == x && p.y < y) {
                    match value.spec_tile(p.x as int, p.y as int) {
                        Some(id) => terrain_tile(id),
                        None => Tile::Unknown,
                    }
                } else {
                    Tile::Unknown
                },
            decreases h - y,
        {
            match value.get_tile(x as u32, y as u32) {
                Some(id) => {
                    let tile = if id == SPAWN_ID {
                        Tile::Spawn
                    } else if id == WALL_ID {
                        Tile::Wall
                    } else if id == PYLON_ID {
                        Tile::Pylon
                    } else {
                        Tile::Empty
                    };
                    result.set(Position { x, y }, tile);
                },
                None => {},
            }
            y = y + 1;
        }
        x = x + 1;
    }
    Ok(result)
}

/// The cells where the orb may appear: those of the orb layer with the orb id.
pub fn get_orb_spawns(layer: &TileLayer) -> (r: Result<grid::Grid<bool>, MapError>)
    ensures
        match layer_error(*layer) {
            Some(e) => r == Err::<grid::Grid<bool>, MapError>(e),
            None => r matches Ok(g) && orbs_of(g, *layer),
        },
{
    let (wu, hu) = match layer_size(layer) {
        Ok(s) => s,
        Err(e) => return Err(e),
    };
    let w = wu as usize;
    let h = hu as usize;
    let mut grid = flag_grid_new(w, h);
    let mut x: usize = 0;
    while x < w
        invariant
            x <= w,
            layer.width == Some(wu),
            layer.height == Some(hu),
            w == wu,
            h == hu,
            w * h <= usize::MAX,
            flag_cells(grid).len() * flag_cols(grid) <= usize::MAX,
            forall|a: int, b: int| #[trigger] flag_in(grid, a, b) <==> 0 <= a < w && 0 <= b < h,
            forall|a: int, b: int| #[trigger] flag_in(grid, a, b) ==> flag_cell(grid, a, b) == (a < x && layer.spec_tile(a, b) == Some(ORB_ID)),
        decreases w - x,
    {
        let mut y: usize = 0;
        while y < h
            invariant
                x < w,
                y <= h,
                layer.width == Some(wu),
                layer.height == Some(hu),
                w == wu,
                h == hu,
                w * h <= usize::MAX,
                flag_cells(grid).len() * flag_cols(grid) <= usize::MAX,
                forall|a: int, b: int| #[trigger] flag_in(grid, a, b) <==> 0 <= a < w && 0 <= b < h,
                forall|a: int, b: int| #[trigger] flag_in(grid, a, b) ==> flag_cell(grid, a, b)
                    == ((a < x || (a == x && b < y)) && layer.spec_tile(a, b) == Some(ORB_ID)),
            decreases h - y,
        {
            let ghost g0 = grid;
            if layer.get_tile(x as u32, y as u32) == Some(ORB_ID) {
                flag_grid_set(&mut grid, x, y, true);
            }
            proof {
                assert forall|a: int, b: int| #[trigger] flag_in(grid, a, b) == flag_in(g0, a, b) by {}
                assert forall|a: int, b: int| #[trigger] flag_in(grid, a, b) implies flag_cell(grid, a, b)
                    == ((a < x || (a == x && b < y + 1)) && layer.spec_tile(a, b) == Some(ORB_ID)) by {
                    assert(flag_in(g0, a, b));
                }
            }
            y = y + 1;
        }
        x = x + 1;
    }
    Ok(grid)
}

/// The foe whose id stands at `(x, y)` of the foes layer, if any.
pub open spec fn foe_at(layer: TileLayer, x: int, y: int) -> Option<Foe> {
    let pos = Position { x: x as usize, y: y as usize };
    match layer.spec_tile(x, y) {
        Some(id) => if id == MINDSNARE_ID {
            Some(Foe::MindSnare(pos))
        } else if id == SIMPLE_FOE_ID {
            Some(Foe::Simple(pos, 3))
        } else {
            None
        },
        None => None,
    }
}

/// The foes of the columns before `x`, then of the column `x` above `y`,
/// column by column.
pub open spec fn foes_upto(layer: TileLayer, h: nat, x: nat, y: nat) -> Seq<Foe>
    decreases x, y,
{
    if y > 0 {
        let prev = foes_upto(layer, h, x, (y - 1) as nat);
        match foe_at(layer, x as int, y - 1) {
            Some(f) => prev.push(f),
            None => prev,
        }
    } else if x > 0 {
        foes_upto(layer, h, (x - 1) as nat, h)
    } else {
        Seq::empty()
    }
}

/// The foes of the foes layer, column by column.
pub fn get_foes(layer: &TileLayer) -> (r: Result<Vec<Foe>, MapError>)
    ensures
        layer.width is None ==> r == Err::<Vec<Foe>, MapError>(MapError::NoWidth),
        layer.width is Some && layer.height is None ==> r == Err::<Vec<Foe>, MapError>(MapError::NoHeight),
        layer.width is Some && layer.height is Some ==> r is Ok,
        r matches Ok(foes) ==> layer.width is Some && layer.height is Some
            && foes@ == foes_upto(*layer, layer.height.unwrap() as nat, layer.width.unwrap() as nat, 0),
{
    let width = match layer.width {
        Some(w) => w,
        None => return Err(MapError::NoWidth),
    };
    let height = match layer.height {
        Some(h) => h,
        None => return Err(MapError::NoHeight),
    };
    let mut results: Vec<Foe> = Vec::new();
    let mut x: u32 = 0;
    while x < width
        invariant
            x <= width,
            layer.height == Some(height),
            results@ == foes_upto(*layer, height as nat, x as nat, 0),
        decreases width - x,
    {
        let mut y: u32 = 0;
        proof {
            if x > 0 {
                assert(foes_upto(*layer, height as nat, x as nat, 0) == foes_upto(*layer, height as nat, (x - 1) as nat, height as nat));
            }
        }
        while y < height
            invariant
                x < width,
                y <= height,
                results@ == foes_upto(*layer, height as nat, x as nat, y as nat),
            decreases height - y,
        {
            let position = Position { x: x as usize, y: y as usize };
            match layer.get_tile(x, y) {
                Some(id) => {
                    if id == MINDSNARE_ID {
                        results.push(Foe::MindSnare(position));
                    } else if id == SIMPLE_FOE_ID {
                        results.push(Foe::Simple(position, 3));
                    }
                },
                None => {},
            }
            y = y + 1;
        }
        proof {
            assert(foes_upto(*layer, height as nat, (x + 1) as nat, 0) == foes_upto(*layer, height as nat, x as nat, height as nat));
        }
        x = x + 1;
    }
    Ok(results)
}

/// Whether `c` is white space, as `char::is_whitespace` says (the Unicode
/// `White_Space` property).
pub open spec fn is_ws(c: char) -> bool {
    ||| c == '\t' || c == '\n' || c == '\u{0B}' || c == '\u{0C}' || c == '\r' || c == ' '
    ||| c == '\u{85}' || c == '\u{A0}' || c == '\u{1680}'
    ||| ('\u{2000}' as u32 <= c as u32 && c as u32 <= '\u{200A}' as u32)
    ||| c == '\u{2028}' || c == '\u{2029}' || c == '\u{202F}' || c == '\u{205F}' || c == '\u{3000}'
}

fn is_ws_exec(c: char) -> (r: bool)
    ensures
        r == is_ws(c),
{
    c == '\t' || c == '\n' || c == '\u{0B}' || c == '\u{0C}' || c == '\r' || c == ' ' || c == '\u{85}' || c == '\u{A0}'
        || c == '\u{1680}' || ('\u{2000}' <= c && c <= '\u{200A}') || c == '\u{2028}' || c == '\u{2029}'
        || c == '\u{202F}' || c == '\u{205F}' || c == '\u{3000}'
}

pub open spec fn trim_start(s: Seq<char>) -> Seq<char>
    decreases s.len(),
{
    if s.len() > 0 && is_ws(s[0]) {
        trim_start(s.drop_first())
    } else {
        s
    }
}

pub open spec fn trim_end(s: Seq<char>) -> Seq<char>
    decreases s.len(),
{
    if s.len() > 0 && is_ws(s.last()) {
        trim_end(s.drop_last())
    } else {
        s
    }
}

/// `s` without its leading and trailing white space.
pub open spec fn trim(s: Seq<char>) -> Seq<char> {
    trim_end(trim_start(s))
}

/// The pieces of `s` between the semicolons.
pub open spec fn split_semi(s: Seq<char>) -> Seq<Seq<char>>
    decreases s.len(),
{
    if s.len() == 0 {
        seq![Seq::empty()]
    } else {
        let r = split_semi(s.drop_last());
        if s.last() == ';' {
            r.push(Seq::empty())
        } else {
            r.update(r.len() - 1, r.last().push(s.last()))
        }
    }
}

/// The sense a word names.
pub open spec fn sense_named(w: Seq<char>) -> Option<SenseType> {
    if w == "SelfSense"@ {
        Some(SenseType::SelfSense)
    } else if w == "Touch"@ {
        Some(SenseType::Touch)
    } else if w == "Hearing"@ {
        Some(SenseType::Hearing)
    } else if w == "Sight"@ {
        Some(SenseType::Sight)
    } else {
        None
    }
}

/// The senses the words name, once trimmed, in their order; the other words
/// are skipped.
pub open spec fn senses_named(ws: Seq<Seq<char>>) -> Seq<SenseType>
    decreases ws.len(),
{
    if ws.len() == 0 {
        Seq::empty()
    } else {
        let prev = senses_named(ws.drop_last());
        match sense_named(trim(ws.last())) {
            Some(t) => prev.push(t),
            None => prev,
        }
    }
}

/// The senses a list such as `Sight; Touch` names.
pub open spec fn spec_parse_senses(s: Seq<char>) -> Seq<SenseType> {
    senses_named(split_semi(s))
}

proof fn lemma_split_nonempty(s: Seq<char>)
    ensures
        split_semi(s).len() >= 1,
    decreases s.len(),
{
    if s.len() > 0 {
        lemma_split_nonempty(s.drop_last());
    }
}

fn chars_of(s: &str) -> (r: Vec<char>)
    ensures
        r@ == s@,
{
    let n = s.unicode_len();
    let mut r: Vec<char> = Vec::new();
    let mut i: usize = 0;
    while i < n
        invariant
            n == s@.len(),
            i <= n,
            r@ == s@.take(i as int),
        decreases n - i,
    {
        r.push(s.get_char(i));
        i = i + 1;
        proof {
            assert(r@ =~= s@.take(i as int));
        }
    }
    proof {
        assert(s@.take(n as int) =~= s@);
    }
    r
}

fn word_is(w: &Vec<char>, lit: &str) -> (r: bool)
    ensures
        r == (w@ == lit@),
{
    let n = lit.unicode_len();
    if w.len() != n {
        return false;
    }
    let mut i: usize = 0;
    while i < n
        invariant
            n == lit@.len(),
            n == w@.len(),
            i <= n,
            forall|k: int| 0 <= k < i ==> w@[k] == lit@[k],
        decreases n - i,
    {
        if w[i] != lit.get_char(i) {
            return false;
        }
        i = i + 1;
    }
    proof {
        assert(w@ =~= lit@);
    }
    true
}

proof fn lemma_trim_start(s: Seq<char>, a: int)
    requires
        0 <= a <= s.len(),
        forall|k: int| 0 <= k < a ==> is_ws(#[trigger] s[k]),
        a < s.len() ==> !is_ws(s[a]),
    ensures
        trim_start(s) == s.subrange(a, s.len() as int),
    decreases a,
{
    if a > 0 {
        let t = s.drop_first();
        assert forall|k: int| 0 <= k < a - 1 implies is_ws(#[trigger] t[k]) by {
            assert(t[k] == s[k + 1]);
        }
        lemma_trim_start(t, a - 1);
        assert(t.subrange(a - 1, t.len() as int) =~= s.subrange(a, s.len() as int));
    } else {
        assert(s.subrange(0, s.len() as int) =~= s);
    }
}

proof fn lemma_trim_end(s: Seq<char>, b: int)
    requires
        0 <= b <= s.len(),
        forall|k: int| b <= k < s.len() ==> is_ws(#[trigger] s[k]),
        b > 0 ==> !is_ws(s[b - 1]),
    ensures
        trim_end(s) == s.subrange(0, b),
    decreases s.len() - b,
{
    if b < s.len() {
        let t = s.drop_last();
        assert forall|k: int| b <= k < t.len() implies is_ws(#[trigger] t[k]) by {
            assert(t[k] == s[k]);
        }
        lemma_trim_end(t, b);
        assert(t.subrange(0, b) =~= s.subrange(0, b));
    } else {
        assert(s.subrange(0, b) =~= s);
    }
}

fn trimmed(w: &Vec<char>) -> (r: Vec<char>)
    ensures
        r@ == trim(w@),
{
    let n = w.len();
    let mut a: usize = 0;
    while a < n && is_ws_exec(w[a])
        invariant
            n == w@.len(),
            a <= n,
            forall|k: int| 0 <= k < a ==> is_ws(#[trigger] w@[k]),
        decreases n - a,
    {
        a = a + 1;
    }
    proof {
        lemma_trim_start(w@, a as int);
    }
    let ghost t = w@.subrange(a as int, n as int);
    let mut b: usize = n;
    while b > a && is_ws_exec(w[b - 1])
        invariant
            a <= b <= n,
            n == w@.len(),
            t == w@.subrange(a as int, n as int),
            forall|k: int| b - a <= k < t.len() ==> is_ws(#[trigger] t[k]),
        decreases b,
    {
        b = b - 1;
    }
    proof {
        if b > a {
            assert(t[b - a - 1] == w@[b - 1]);
        }
        lemma_trim_end(t, (b - a) as int);
        assert(t.subrange(0, (b - a) as int) =~= w@.subrange(a as int, b as int));
    }
    let mut r: Vec<char> = Vec::new();
    let mut i: usize = a;
    while i < b
        invariant
            a <= i <= b,
            b <= n,
            n == w@.len(),
            r@ == w@.subrange(a as int, i as int),
        decreases b - i,
    {
        r.push(w[i]);
        i = i + 1;
        proof {
            assert(r@ =~= w@.subrange(a as int, i as int));
        }
    }
    r
}

fn sense_of_word(w: &Vec<char>) -> (r: Option<SenseType>)
    ensures
        r == sense_named(w@),
{
    if word_is(w, "SelfSense") {
        Some(SenseType::SelfSense)
    } else if word_is(w, "Touch") {
        Some(SenseType::Touch)
    } else if word_is(w, "Hearing") {
        Some(SenseType::Hearing)
    } else if word_is(w, "Sight") {
        Some(SenseType::Sight)
    } else {
        None
    }
}

/// The senses a list such as `Sight; Touch` names, in its order; the words
/// that name no sense are skipped.
pub fn parse_senses(s: &String) -> (r: Vec<SenseType>)
    ensures
        r@ == spec_parse_senses(s@),
{
    let chars = chars_of(s.as_str());
    let n = chars.len();
    let mut result: Vec<SenseType> = Vec::new();
    let mut current: Vec<char> = Vec::new();
    let mut i: usize = 0;
    proof {
        assert(chars@.take(0) =~= Seq::<char>::empty());
        assert(split_semi(Seq::<char>::empty()).drop_last() =~= Seq::<Seq<char>>::empty());
    }
    while i < n
        invariant
            n == chars@.len(),
            i <= n,
            split_semi(chars@.take(i as int)).len() >= 1,
            result@ == senses_named(split_semi(chars@.take(i as int)).drop_last()),
            current@ == split_semi(chars@.take(i as int)).last(),
        decreases n - i,
    {
        let c = chars[i];
        let ghost before = chars@.take(i as int);
        proof {
            assert(chars@.take(i + 1).drop_last() =~= before);
            assert(chars@.take(i + 1).last() == c);
            lemma_split_nonempty(before);
        }
        if c == ';' {
            let word = trimmed(&current);
            if let Some(t) = sense_of_word(&word) {
                result.push(t);
            }
            current = Vec::new();
            proof {
                let sp = split_semi(before);
                assert(split_semi(chars@.take(i + 1)) == sp.push(Seq::<char>::empty()));
                assert(sp.push(Seq::<char>::empty()).drop_last() =~= sp);
                assert(sp.drop_last().push(sp.last()) =~= sp);
                assert(sp.drop_last() == sp.drop_last());
                assert(senses_named(sp) == match sense_named(trim(sp.last())) {
                    Some(t) => senses_named(sp.drop_last()).push(t),
                    None => senses_named(sp.drop_last()),
                });
            }
        } else {
            current.push(c);
            proof {
                let sp = split_semi(before);
                assert(split_semi(chars@.take(i + 1)) == sp.update(sp.len() - 1, sp.last().push(c)));
                assert(sp.update(sp.len() - 1, sp.last().push(c)).drop_last() =~= sp.drop_last());
            }
        }
        i = i + 1;
    }
    let word = trimmed(&current);
    if let Some(t) = sense_of_word(&word) {
        result.push(t);
    }
    proof {
        assert(chars@.take(n as int) =~= chars@);
        let sp = split_semi(chars@);
        assert(sp.drop_last().push(sp.last()) =~= sp);
    }
    result
}

/// Whether the string reads as the literal.
fn name_is(name: &String, lit: &str) -> (r: bool)
    ensures
        r == (name@ == lit@),
{
    let chars = chars_of(name.as_str());
    word_is(&chars, lit)
}

/// The first layer of the map with that name, if it is a layer of tiles.
pub open spec fn spec_find_layer(layers: Seq<NamedLayer>, name: Seq<char>) -> Option<TileLayer>
    decreases layers.len(),
{
    if layers.len() == 0 {
        None
    } else if layers[0].name@ == name {
        layers[0].tiles
    } else {
        spec_find_layer(layers.drop_first(), name)
    }
}

fn find_layer<'a>(layers: &'a Vec<NamedLayer>, name: &str) -> (r: Option<&'a TileLayer>)
    ensures
        match spec_find_layer(layers@, name@) {
            Some(l) => r == Some(&l),
            None => r is None,
        },
{
    let n = layers.len();
    let mut i: usize = 0;
    proof {
        assert(layers@.subrange(0, n as int) =~= layers@);
    }
    while i < n
        invariant
            n == layers@.len(),
            i <= n,
            spec_find_layer(layers@, name@) == spec_find_layer(layers@.subrange(i as int, n as int), name@),
        decreases n - i,
    {
        proof {
            let rest = layers@.subrange(i as int, n as int);
            assert(rest[0] == layers@[i as int]);
            assert(rest.drop_first() =~= layers@.subrange(i + 1, n as int));
        }
        if name_is(&layers[i].name, name) {
            return match &layers[i].tiles {
                Some(l) => Some(l),
                None => None,
            };
        }
        i = i + 1;
    }
    None
}

/// The senses of a stage that does not say which it has: all of them.
pub open spec fn default_senses() -> Seq<SenseType> {
    seq![SenseType::SelfSense, SenseType::Sight, SenseType::Touch, SenseType::Hearing]
}

/// The stage template of a map: its terrain, foes and orb layers, and its
/// properties, each with its default when the map does not set it (its id as
/// its name, four focus points of regeneration, every sense, a timeline of a
/// hundred turns).
pub fn convert_map(id: String, value: &TiledMap) -> (r: Result<StageTemplate, MapError>)
    ensures
        spec_find_layer(value.layers@, "Terrain"@) is None ==> r == Err::<StageTemplate, MapError>(MapError::NoTerrainLayer),
        spec_find_layer(value.layers@, "Terrain"@) is Some && spec_find_layer(value.layers@, "Foes"@) is None
            ==> r == Err::<StageTemplate, MapError>(MapError::NoFoesLayer),
        spec_find_layer(value.layers@, "Terrain"@) is Some && spec_find_layer(value.layers@, "Foes"@) is Some
            && spec_find_layer(value.layers@, "Orb"@) is None ==> r == Err::<StageTemplate, MapError>(MapError::NoOrbLayer),
        r matches Ok(t) ==> {
            &&& t.id@ == id@
            &&& t.name@ == match value.properties.name {
                Some(n) => n@,
                None => id@,
            }
            &&& t.fp_regen == match value.properties.fp_regen {
                Some(v) => v as u32,
                None => 4,
            }
            &&& t.senses@ == match value.properties.senses {
                Some(s) => spec_parse_senses(s@),
                None => default_senses(),
            }
            &&& t.timeline_length == match value.properties.timeline_length {
                Some(v) => v as u32,
                None => 100,
            }
            &&& t.timeline_type == TimelineType::Asynchronous
            &&& t.foes@ == foes_upto(spec_find_layer(value.layers@, "Foes"@).unwrap(),
                spec_find_layer(value.layers@, "Foes"@).unwrap().height.unwrap() as nat,
                spec_find_layer(value.layers@, "Foes"@).unwrap().width.unwrap() as nat, 0)
            &&& terrain_of(t.tiles, spec_find_layer(value.layers@, "Terrain"@).unwrap())
            &&& orbs_of(t.orb_spawns, spec_find_layer(value.layers@, "Orb"@).unwrap())
        },
        ({
            let terrain = spec_find_layer(value.layers@, "Terrain"@);
            let foes = spec_find_layer(value.layers@, "Foes"@);
            let orb = spec_find_layer(value.layers@, "Orb"@);
            terrain is Some && foes is Some && orb is Some ==> match layer_error(terrain.unwrap()) {
                Some(e) => r == Err::<StageTemplate, MapError>(e),
                None => match layer_error(orb.unwrap()) {
                    Some(e) => r == Err::<StageTemplate, MapError>(e),
                    None => match (foes.unwrap().width, foes.unwrap().height) {
                        (None, _) => r == Err::<StageTemplate, MapError>(MapError::NoWidth),
                        (Some(_), None) => r == Err::<StageTemplate, MapError>(MapError::NoHeight),
                        (Some(_), Some(_)) => r is Ok,
                    },
                },
            }
        }),
{
    let terrain_layer = match find_layer(&value.layers, "Terrain") {
        Some(l) => l,
        None => return Err(MapError::NoTerrainLayer),
    };
    let foes_layer = match find_layer(&value.layers, "Foes") {
        Some(l) => l,
        None => return Err(MapError::NoFoesLayer),
    };
    let orb_layer = match find_layer(&value.layers, "Orb") {
        Some(l) => l,
        None => return Err(MapError::NoOrbLayer),
    };
    // Read custom properties
    let name = match &value.properties.name {
        Some(n) => n.clone(),
        None => id.clone(),
    };
    let fp_regen: u32 = match value.properties.fp_regen {
        Some(v) => v as u32,
        None => 4,
    };
    let senses = match &value.properties.senses {
        Some(s) => parse_senses(s),
        None => {
            let mut d: Vec<SenseType> = Vec::new();
            d.push(SenseType::SelfSense);
            d.push(SenseType::Sight);
            d.push(SenseType::Touch);
            d.push(SenseType::Hearing);
            proof {
                assert(d@ =~= default_senses());
            }
            d
        },
    };
    let timeline_length: u32 = match value.properties.timeline_length {
        Some(v) => v as u32,
        None => 100,
    };
    // The only way a stage's turns can relate to the players' turns
    let timeline_type = TimelineType::Asynchronous;
    let tiles = match convert_tiled(terrain_layer) {
        Ok(t) => t,
        Err(e) => return Err(e),
    };
    let orb_spawns = match get_orb_spawns(orb_layer) {
        Ok(g) => g,
        Err(e) => return Err(e),
    };
    let foes = match get_foes(foes_layer) {
        Ok(f) => f,
        Err(e) => return Err(e),
    };
    Ok(StageTemplate::new(id, name, tiles, orb_spawns, foes, fp_regen, senses, timeline_length, timeline_type))
}

} // verus!
